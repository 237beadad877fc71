//! Poker hand evaluation after the Cactus Kev scheme: cards as 32-bit
//! patterns, hands identified by products of primes, and lookup tables that
//! map each distinct five-card hand to a rank from 1 (royal flush) to 7462.

use itertools::Itertools;
use std::collections::HashMap;
use vstd::prelude::*;

verus! {

broadcast use vstd::std_specs::hash::group_hash_axioms;

pub const INT_RANKS: [i64; 13] = [0, 1, 2, 3, 4, 5, 6, 7, 8, 9, 10, 11, 12];

pub const PRIMES: [i64; 13] = [2, 3, 5, 7, 11, 13, 17, 19, 23, 29, 31, 37, 41];

pub const MAX_STRAIGHT_FLUSH: i64 = 10;

pub const MAX_FOUR_OF_A_KIND: i64 = 166;

pub const MAX_FULL_HOUSE: i64 = 322;

pub const MAX_FLUSH: i64 = 1599;

pub const MAX_STRAIGHT: i64 = 1609;

pub const MAX_THREE_OF_A_KIND: i64 = 2467;

pub const MAX_TWO_PAIR: i64 = 3325;

pub const MAX_PAIR: i64 = 6185;

pub const MAX_HIGH_CARD: i64 = 7462;

/// The prime that stands for the rank `i` (deuce is 0, ace is 12).
pub open spec fn prime(i: int) -> i64 {
    if i == 0 { 2 }
    else if i == 1 { 3 }
    else if i == 2 { 5 }
    else if i == 3 { 7 }
    else if i == 4 { 11 }
    else if i == 5 { 13 }
    else if i == 6 { 17 }
    else if i == 7 { 19 }
    else if i == 8 { 23 }
    else if i == 9 { 29 }
    else if i == 10 { 31 }
    else if i == 11 { 37 }
    else { 41 }
}

proof fn lemma_primes_table()
    ensures
        forall|i: int| 0 <= i < 13 ==> #[trigger] PRIMES@[i] == prime(i),
{
    assert(PRIMES@[0] == 2);
}

/// Whether bit `i` of `b` is set.
pub open spec fn bit_set(b: i64, i: int) -> bool {
    (b & (1i64 << (i as i64))) != 0
}

/// The product of the primes of the ranks whose bits are set among the low
/// `n` bits of `b`.
pub open spec fn rankbits_product(b: i64, n: nat) -> int
    decreases n,
{
    if n == 0 {
        1
    } else {
        rankbits_product(b, (n - 1) as nat) * (if bit_set(b, n - 1) {
            prime(n - 1) as int
        } else {
            1
        })
    }
}

/// The product of the first `n` primes.
pub open spec fn primorial(n: nat) -> int
    decreases n,
{
    if n == 0 {
        1
    } else {
        primorial((n - 1) as nat) * prime(n - 1)
    }
}

proof fn lemma_primorial_13()
    ensures
        primorial(13) == 304250263527210,
{
    assert(primorial(0) == 1);
    assert(prime(0) == 2);
    assert(primorial(1) == primorial(0) * 2);
    assert(primorial(1) == 2);
    assert(prime(1) == 3);
    assert(primorial(2) == primorial(1) * 3);
    assert(primorial(2) == 6);
    assert(prime(2) == 5);
    assert(primorial(3) == primorial(2) * 5);
    assert(primorial(3) == 30);
    assert(prime(3) == 7);
    assert(primorial(4) == primorial(3) * 7);
    assert(primorial(4) == 210);
    assert(prime(4) == 11);
    assert(primorial(5) == primorial(4) * 11);
    assert(primorial(5) == 2310);
    assert(prime(5) == 13);
    assert(primorial(6) == primorial(5) * 13);
    assert(primorial(6) == 30030);
    assert(prime(6) == 17);
    assert(primorial(7) == primorial(6) * 17);
    assert(primorial(7) == 510510);
    assert(prime(7) == 19);
    assert(primorial(8) == primorial(7) * 19);
    assert(primorial(8) == 9699690);
    assert(prime(8) == 23);
    assert(primorial(9) == primorial(8) * 23);
    assert(primorial(9) == 223092870);
    assert(prime(9) == 29);
    assert(primorial(10) == primorial(9) * 29);
    assert(primorial(10) == 6469693230);
    assert(prime(10) == 31);
    assert(primorial(11) == primorial(10) * 31);
    assert(primorial(11) == 200560490130);
    assert(prime(11) == 37);
    assert(primorial(12) == primorial(11) * 37);
    assert(primorial(12) == 7420738134810);
    assert(prime(12) == 41);
    assert(primorial(13) == primorial(12) * 41);
    assert(primorial(13) == 304250263527210);
}

proof fn lemma_rankbits_product_bounds(b: i64, n: nat)
    requires
        n <= 13,
    ensures
        1 <= rankbits_product(b, n) <= primorial(n),
    decreases n,
{
    if n > 0 {
        lemma_rankbits_product_bounds(b, (n - 1) as nat);
        let p = prime(n - 1) as int;
        let a = rankbits_product(b, (n - 1) as nat);
        let m = primorial((n - 1) as nat);
        assert(2 <= p <= 41);
        assert(a * p <= m * p) by (nonlinear_arith)
            requires
                1 <= a <= m,
                2 <= p,
        ;
        assert(a <= a * p) by (nonlinear_arith)
            requires
                1 <= a,
                2 <= p,
        ;
    }
}

/// The product of the primes of the ranks whose bits are set in `rankbits`
/// (bits 0 to 12; higher bits are ignored).
fn prime_product_from_rankbits(rankbits: i64) -> (product: i64)
    ensures
        product == rankbits_product(rankbits, 13),
{
    let mut product: i64 = 1;
    let mut i: i64 = 0;
    while i < 13
        invariant
            0 <= i <= 13,
            product == rankbits_product(rankbits, i as nat),
        decreases 13 - i,
    {
        proof {
            lemma_rankbits_product_bounds(rankbits, (i + 1) as nat);
            lemma_rankbits_product_bounds(rankbits, i as nat);
            lemma_primorial_13();
            lemma_primorial_monotone(i as nat + 1, 13);
            lemma_primes_table();
        }
        if (rankbits & (1i64 << i)) != 0 {
            product = product * PRIMES[i as usize];
        }
        i = i + 1;
    }
    product
}

proof fn lemma_primorial_monotone(a: nat, b: nat)
    requires
        a <= b <= 13,
    ensures
        primorial(a) <= primorial(b),
    decreases b - a,
{
    if a < b {
        lemma_primorial_monotone(a, (b - 1) as nat);
        let m = primorial((b - 1) as nat);
        lemma_primorial_pos((b - 1) as nat);
        assert(m <= m * prime(b - 1)) by (nonlinear_arith)
            requires
                m >= 1,
                prime(b - 1) >= 2,
        ;
    }
}

proof fn lemma_primorial_pos(n: nat)
    requires
        n <= 13,
    ensures
        primorial(n) >= 1,
    decreases n,
{
    if n > 0 {
        lemma_primorial_pos((n - 1) as nat);
        let m = primorial((n - 1) as nat);
        assert(m * prime(n - 1) >= 1) by (nonlinear_arith)
            requires
                m >= 1,
                prime(n - 1) >= 2,
        ;
    }
}


/// The next larger integer with as many set bits as `b` (Gosper's step:
/// the lowest run of ones moves up by one place and the rest of the run
/// drops to the bottom).
pub open spec fn next_bits(b: i64) -> i64 {
    let t = ((b | ((b - 1) as i64)) + 1) as i64;
    (t | (((((t & ((-t) as i64)) / (b & ((-b) as i64))) as i64 >> 1i64) - 1) as i64)) as i64
}

/// The patterns for which `next_bits` can be computed without overflow.
pub open spec fn next_bits_defined(b: i64) -> bool {
    0 < b && (b | ((b - 1) as i64)) < i64::MAX
}

proof fn lemma_next_bits_operands(b: i64)
    requires
        next_bits_defined(b),
    ensures
        ((b | ((b - 1) as i64)) + 1) as i64 > 0,
        (b & ((-b) as i64)) > 0,
{
    assert(0 < b && (b | ((b - 1) as i64)) < i64::MAX ==> ((b | ((b - 1) as i64)) + 1) as i64 > 0
        && (b & ((-b) as i64)) > 0) by (bit_vector);
}

proof fn lemma_low_bit_nonneg(t: i64)
    requires
        t > 0,
    ensures
        (t & ((-t) as i64)) >= 0,
{
    assert(t > 0 ==> (t & ((-t) as i64)) >= 0) by (bit_vector);
}

/// The next larger integer with as many set bits as `bits`, for patterns
/// where that step cannot overflow.
pub fn get_lexographically_next_bit_sequence(bits: i64) -> (r: i64)
    requires
        next_bits_defined(bits),
    ensures
        r == next_bits(bits),
{
    proof {
        lemma_next_bits_operands(bits);
    }
    let t = (bits | (bits - 1)) + 1;
    proof {
        lemma_low_bit_nonneg(t);
    }
    let low_t = t & -t;
    let low_b = bits & -bits;
    let q = low_t / low_b;
    proof {
        assert(q >= 0 ==> (q >> 1i64) >= 0) by (bit_vector);
    }
    t | ((q >> 1) - 1)
}


/// The prime product of the ranks set in a bit pattern, as stored in the tables.
pub open spec fn prime_product(b: i64) -> i64 {
    rankbits_product(b, 13) as i64
}

/// The prime products of a sequence of rank patterns.
pub open spec fn prime_products(s: Seq<i64>) -> Seq<i64> {
    s.map_values(|b: i64| prime_product(b))
}

/// `m` with the keys of `keys` inserted in order, the `i`-th one with the
/// rank `first + i` (a later key overwrites an equal earlier one).
pub open spec fn insert_ranked(m: Map<i64, i64>, keys: Seq<i64>, first: int) -> Map<i64, i64>
    decreases keys.len(),
{
    if keys.len() == 0 {
        m
    } else {
        insert_ranked(m, keys.drop_last(), first).insert(keys.last(), (first + keys.len() - 1) as i64)
    }
}

proof fn lemma_insert_ranked_push(m: Map<i64, i64>, keys: Seq<i64>, k: i64, first: int)
    ensures
        insert_ranked(m, keys.push(k), first) == insert_ranked(m, keys, first).insert(
            k,
            (first + keys.len()) as i64,
        ),
{
    assert(keys.push(k).drop_last() =~= keys);
}

/// Every rank that `insert_ranked` stores lies between the first and the
/// last rank it hands out, or was there before.
pub proof fn lemma_insert_ranked_values(m: Map<i64, i64>, keys: Seq<i64>, first: int, lo: int, hi: int)
    requires
        forall|k: i64| m.contains_key(k) ==> lo <= #[trigger] m[k] <= hi,
        lo <= first,
        first + keys.len() - 1 <= hi,
        0 <= lo,
        hi <= i64::MAX,
    ensures
        forall|k: i64| #[trigger] insert_ranked(m, keys, first).contains_key(k) ==> lo <= insert_ranked(m, keys, first)[k] <= hi,
    decreases keys.len(),
{
    if keys.len() > 0 {
        lemma_insert_ranked_values(m, keys.drop_last(), first, lo, hi);
        let prev = insert_ranked(m, keys.drop_last(), first);
        let v = (first + keys.len() - 1) as i64;
        assert(lo <= v <= hi);
        assert(insert_ranked(m, keys, first) == prev.insert(keys.last(), v));
        assert forall|k: i64| #[trigger] insert_ranked(m, keys, first).contains_key(k) implies lo
            <= insert_ranked(m, keys, first)[k] <= hi by {
            if k != keys.last() {
                assert(prev.contains_key(k));
            }
        }
    }
}

/// Inserts the prime product of each pattern of `keys` into `lookup`, with
/// consecutive ranks from `first`.
fn insert_products(keys: &[i64], lookup: &mut HashMap<i64, i64>, first: i64)
    requires
        first + keys@.len() <= i64::MAX,
        first >= 0,
    ensures
        final(lookup)@ == insert_ranked(old(lookup)@, prime_products(keys@), first as int),
{
    let mut rank = first;
    let mut i: usize = 0;
    while i < keys.len()
        invariant
            i <= keys@.len(),
            rank == first + i,
            first + keys@.len() <= i64::MAX,
            lookup@ == insert_ranked(old(lookup)@, prime_products(keys@.take(i as int)), first as int),
        decreases keys@.len() - i,
    {
        let prime_product = prime_product_from_rankbits(keys[i]);
        proof {
            assert(prime_products(keys@.take(i + 1)) =~= prime_products(keys@.take(i as int)).push(
                prime_product,
            ));
            lemma_insert_ranked_push(old(lookup)@, prime_products(keys@.take(i as int)), prime_product, first as int);
        }
        lookup.insert(prime_product, rank);
        rank = rank + 1;
        i = i + 1;
    }
    assert(keys@.take(keys@.len() as int) =~= keys@);
}

/// Unique five-card sets: straights and high cards, ranked after the
/// flushes and after the pairs respectively, best first.
fn straight_and_highcards(straights: &[i64], highcards: &[i64], unsuited_lookup: &mut HashMap<i64, i64>)
    requires
        straights@.len() + MAX_FLUSH + 1 <= i64::MAX,
        highcards@.len() + MAX_PAIR + 1 <= i64::MAX,
    ensures
        final(unsuited_lookup)@ == insert_ranked(
            insert_ranked(old(unsuited_lookup)@, prime_products(straights@), MAX_FLUSH + 1),
            prime_products(highcards@),
            MAX_PAIR + 1,
        ),
{
    insert_products(straights, unsuited_lookup, MAX_FLUSH + 1);
    insert_products(highcards, unsuited_lookup, MAX_PAIR + 1);
}

/// The straight flush patterns, best first; the last is the five-high
/// (ace-low) straight.
pub const STRAIGHT_FLUSHES: [i64; 10] = [7936, 3968, 1984, 992, 496, 248, 124, 62, 31, 4111];

/// The straight flush patterns, as a sequence.
pub open spec fn straight_flush_patterns() -> Seq<i64> {
    seq![7936i64, 3968, 1984, 992, 496, 248, 124, 62, 31, 4111]
}

/// The successive patterns from `b` on, `n` of them at most, stopping early
/// at a pattern whose successor cannot be computed.
pub open spec fn bit_patterns(b: i64, n: nat) -> Seq<i64>
    decreases n,
{
    if n == 0 || !next_bits_defined(b) {
        seq![]
    } else {
        seq![b] + bit_patterns(next_bits(b), (n - 1) as nat)
    }
}

/// Whether a pattern is not one of the straight flushes.
pub open spec fn not_straight_flush(f: i64) -> bool {
    !straight_flush_patterns().contains(f)
}

/// The filter that keeps the patterns that are not straight flushes.
pub open spec fn keeps_flush() -> spec_fn(i64) -> bool {
    |f: i64| not_straight_flush(f)
}

/// The flush patterns that are not straights, best first: the five-bit
/// patterns that follow `0b11111`, in decreasing order.
pub open spec fn flush_patterns() -> Seq<i64> {
    bit_patterns(next_bits(31), 1286).filter(keeps_flush()).reverse()
}

/// Builds the flush table (straight flushes from rank 1, other flushes from
/// the worst full house on) and, from the same patterns, the straights and
/// high cards of the table of hands with five different ranks.
///
/// The patterns are generated by `get_lexographically_next_bit_sequence`,
/// 1286 of them; the generation would stop at a pattern whose successor
/// overflows, which none of the 13-bit patterns is.
fn flushes(flush_lookup: &mut HashMap<i64, i64>, unsuited_lookup: &mut HashMap<i64, i64>)
    ensures
        final(flush_lookup)@ == insert_ranked(
            insert_ranked(old(flush_lookup)@, prime_products(straight_flush_patterns()), 1),
            prime_products(flush_patterns()),
            MAX_FULL_HOUSE + 1,
        ),
        final(unsuited_lookup)@ == insert_ranked(
            insert_ranked(old(unsuited_lookup)@, prime_products(straight_flush_patterns()), MAX_FLUSH + 1),
            prime_products(flush_patterns()),
            MAX_PAIR + 1,
        ),
{
    let mut flushes: Vec<i64> = Vec::new();
    proof {
        assert(0 < 31i64 && (31i64 | 30i64) < i64::MAX) by (bit_vector);
    }
    let start = get_lexographically_next_bit_sequence(0b11111);
    let mut gen = start;
    let ghost all = bit_patterns(start, 1286);
    let ghost mut seen: Seq<i64> = seq![];
    let mut n: usize = 0;
    while n < 1286
        invariant
            n <= 1286,
            all == bit_patterns(start, 1286),
            all == seen + bit_patterns(gen, (1286 - n) as nat),
            flushes@ == seen.filter(keeps_flush()),
            seen.len() <= n,
        ensures
            all == seen,
            flushes@ == seen.filter(keeps_flush()),
        decreases 1286 - n,
    {
        if !(gen > 0 && (gen | (gen - 1)) < i64::MAX) {
            assert(bit_patterns(gen, (1286 - n) as nat) =~= seq![]);
            assert(all =~= seen);
            break;
        }
        let f = gen;
        gen = get_lexographically_next_bit_sequence(gen);
        proof {
            assert(bit_patterns(f, (1286 - n) as nat) == seq![f] + bit_patterns(gen, (1286 - n - 1) as nat));
            assert(seen + bit_patterns(f, (1286 - n) as nat) =~= seen.push(f) + bit_patterns(gen, (1286 - n - 1) as nat));
            seen.lemma_filter_push(f, keeps_flush());
            seen = seen.push(f);
        }
        let mut not_sf = true;
        let mut k: usize = 0;
        while k < 10
            invariant
                k <= 10,
                not_sf == (forall|j: int| 0 <= j < k ==> STRAIGHT_FLUSHES@[j] != f),
            decreases 10 - k,
        {
            let sf = STRAIGHT_FLUSHES[k];
            proof {
                assert((f ^ sf) == 0 <==> f == sf) by (bit_vector);
            }
            if (f ^ sf) == 0 {
                not_sf = false;
            }
            k = k + 1;
        }
        proof {
            assert(straight_flush_patterns() =~= STRAIGHT_FLUSHES@);
            assert(not_sf == not_straight_flush(f));
        }
        if not_sf {
            flushes.push(f);
        }
        n = n + 1;
        if n == 1286 {
            assert(bit_patterns(gen, 0) =~= seq![]);
            assert(all =~= seen);
        }
    }
    let ghost forward = flushes@;
    let mut reversed: Vec<i64> = Vec::new();
    let mut j: usize = flushes.len();
    while j > 0
        invariant
            j <= flushes@.len(),
            flushes@ == forward,
            reversed@ == forward.reverse().take((forward.len() - j) as int),
        decreases j,
    {
        j = j - 1;
        reversed.push(flushes[j]);
        assert(forward.reverse().take((forward.len() - j) as int) =~= forward.reverse().take(
            (forward.len() - j - 1) as int,
        ).push(forward[j as int]));
    }
    assert(forward.reverse().take(forward.len() as int) =~= forward.reverse());
    assert(reversed@ == flush_patterns());
    insert_products(&STRAIGHT_FLUSHES, flush_lookup, 1);
    insert_products(reversed.as_slice(), flush_lookup, MAX_FULL_HOUSE + 1);
    straight_and_highcards(&STRAIGHT_FLUSHES, reversed.as_slice(), unsuited_lookup);
}

} // verus!

verus! {

/// The `k`-element combinations of `s`, each in the order of `s`, in
/// lexicographic order of their positions: those that take `s[0]` first.
pub open spec fn combos(s: Seq<i64>, k: nat) -> Seq<Seq<i64>>
    decreases s.len(), k,
{
    if k == 0 {
        seq![seq![]]
    } else if s.len() == 0 {
        seq![]
    } else {
        combos(s.drop_first(), (k - 1) as nat).map_values(|c: Seq<i64>| seq![s[0]] + c) + combos(
            s.drop_first(),
            k,
        )
    }
}

/// Itertools' `combinations(k)` on the items of `items`, each combination
/// turned into the values it holds. The crate documents that it yields the
/// `k`-length combinations in lexicographic order of positions (for `k = 0`,
/// one empty combination; for `k` over the length, none): that is `combos`.
#[verifier::external_body]
fn combinations(items: &Vec<i64>, k: usize) -> (r: Vec<Vec<i64>>)
    ensures
        r@.map_values(|c: Vec<i64>| c@) == combos(items@, k as nat),
{
    items.iter().combinations(k).map(|c| c.into_iter().copied().collect()).collect()
}

/// The ranks from ace down to deuce.
pub open spec fn ranks_ace_down() -> Seq<i64> {
    seq![12i64, 11, 10, 9, 8, 7, 6, 5, 4, 3, 2, 1, 0]
}

/// The filter that drops `x`.
pub open spec fn other_than(x: i64) -> spec_fn(i64) -> bool {
    |k: i64| k != x
}

/// `s` without `x`.
pub open spec fn without(s: Seq<i64>, x: i64) -> Seq<i64> {
    s.filter(other_than(x))
}

/// The concatenation of `f(x)` over the items `x` of `s`, in order.
pub open spec fn concat_map<A>(s: Seq<A>, f: spec_fn(A) -> Seq<i64>) -> Seq<i64>
    decreases s.len(),
{
    if s.len() == 0 {
        seq![]
    } else {
        concat_map(s.drop_last(), f) + f(s.last())
    }
}

proof fn lemma_concat_map_take<A>(s: Seq<A>, f: spec_fn(A) -> Seq<i64>, a: int)
    requires
        0 <= a < s.len(),
    ensures
        concat_map(s.take(a + 1), f) == concat_map(s.take(a), f) + f(s[a]),
{
    assert(s.take(a + 1).drop_last() =~= s.take(a));
}

/// The prime of a rank, raised to the power `e`.
pub open spec fn prime_pow(r: i64, e: nat) -> int
    decreases e,
{
    if e == 0 {
        1
    } else {
        prime_pow(r, (e - 1) as nat) * prime(r as int)
    }
}

/// The four-of-a-kind hands with quads of rank `i`: each kicker rank, ace down.
pub open spec fn four_of_a_kind_group() -> spec_fn(i64) -> Seq<i64> {
    |i: i64| without(ranks_ace_down(), i).map_values(|k: i64| (prime_pow(i, 4) * prime(k as int)) as i64)
}

/// Four of a kind: the quad rank from ace down, then each kicker rank.
pub open spec fn four_of_a_kind_products() -> Seq<i64> {
    concat_map(ranks_ace_down(), four_of_a_kind_group())
}

/// The full houses with trips of rank `i`: each pair rank, ace down.
pub open spec fn full_house_group() -> spec_fn(i64) -> Seq<i64> {
    |i: i64| without(ranks_ace_down(), i).map_values(|k: i64| (prime_pow(i, 3) * prime_pow(k, 2)) as i64)
}

/// Full houses: the trips rank from ace down, then each pair rank.
pub open spec fn full_house_products() -> Seq<i64> {
    concat_map(ranks_ace_down(), full_house_group())
}

/// The three-of-a-kind hands with trips of rank `r`: each pair of kickers.
pub open spec fn three_of_a_kind_group() -> spec_fn(i64) -> Seq<i64> {
    |r: i64|
        combos(without(ranks_ace_down(), r), 2).map_values(
            |c: Seq<i64>| (prime_pow(r, 3) * prime(c[0] as int) * prime(c[1] as int)) as i64,
        )
}

/// Three of a kind: the trips rank from ace down, then each pair of kickers.
pub open spec fn three_of_a_kind_products() -> Seq<i64> {
    concat_map(ranks_ace_down(), three_of_a_kind_group())
}

/// Where the three-of-a-kind hands with trips of the `g`-th rank from the ace
/// down begin among the three-of-a-kind keys.
pub open spec fn trips_block_start(g: int) -> int {
    concat_map(ranks_ace_down().take(g), three_of_a_kind_group()).len() as int
}

proof fn lemma_concat_map_prefix<A>(s: Seq<A>, f: spec_fn(A) -> Seq<i64>, m: int, k: int)
    requires
        0 <= m <= s.len(),
        0 <= k < concat_map(s.take(m), f).len(),
    ensures
        k < concat_map(s, f).len(),
        concat_map(s, f)[k] == concat_map(s.take(m), f)[k],
    decreases s.len() - m,
{
    if m == s.len() {
        assert(s.take(m) =~= s);
    } else {
        lemma_concat_map_take(s, f, m);
        lemma_concat_map_prefix(s, f, m + 1, k);
    }
}

/// The ranks from the ace down are the ranks 12 down to 0.
proof fn lemma_ranks_ace_down_values()
    ensures
        forall|g: int| 0 <= g < 13 ==> #[trigger] ranks_ace_down()[g] == 12 - g,
{
    assert forall|g: int| 0 <= g < 13 implies #[trigger] ranks_ace_down()[g] == 12 - g by {
        if g == 0 {} else if g == 1 {} else if g == 2 {} else if g == 3 {} else if g == 4 {} else if g == 5 {}
        else if g == 6 {} else if g == 7 {} else if g == 8 {} else if g == 9 {} else if g == 10 {} else if g == 11 {}
        else {}
    }
}

/// Three of a kind are keyed by trips from the ace down: the keys of the
/// `g`-th block, which comes before the blocks after it and so gets the better
/// ranks, are all multiples of the cube of the prime of rank `12 - g` (aces
/// first, deuces last).
pub proof fn lemma_trips_ace_down(g: int, k: int)
    requires
        0 <= g < 13,
        trips_block_start(g) <= k < trips_block_start(g + 1),
    ensures
        trips_block_start(g) <= trips_block_start(g + 1),
        k < three_of_a_kind_products().len(),
        (three_of_a_kind_products()[k] as int) % (prime(12 - g) * prime(12 - g) * prime(12 - g)) == 0,
{
    let rs = ranks_ace_down();
    let f = three_of_a_kind_group();
    lemma_ranks_ace_down_values();
    lemma_concat_map_take(rs, f, g);
    lemma_concat_map_prefix(rs, f, g + 1, k);
    let r = rs[g];
    assert(r == 12 - g);
    let kick = without(rs, r);
    let j = k - trips_block_start(g);
    let c = combos(kick, 2)[j];
    assert(concat_map(rs.take(g + 1), f)[k] == f(r)[j]);
    lemma_combos_props(kick, 2);
    lemma_without_items(rs, r);
    lemma_ranks_ace_down();
    assert(c.len() == 2);
    assert(kick.contains(c[0]) && kick.contains(c[1]));
    assert(0 <= c[0] <= 12 && 0 <= c[1] <= 12) by {
        let w0 = choose|w: int| 0 <= w < kick.len() && kick[w] == c[0];
        let w1 = choose|w: int| 0 <= w < kick.len() && kick[w] == c[1];
        assert(rs.contains(kick[w0]));
        assert(rs.contains(kick[w1]));
    }
    let p = prime(r as int);
    let a = prime(c[0] as int);
    let b = prime(c[1] as int);
    reveal_with_fuel(prime_pow, 4);
    assert(prime_pow(r, 3) == p * p * p);
    assert(1 <= p <= 41 && 1 <= a <= 41 && 1 <= b <= 41);
    assert(p * p * p * a * b <= 41 * 41 * 41 * 41 * 41 && p * p * p * a * b >= 1) by (nonlinear_arith)
        requires
            1 <= p <= 41,
            1 <= a <= 41,
            1 <= b <= 41,
    ;
    assert(f(r)[j] == p * p * p * a * b);
    assert((a * b) * (p * p * p) == p * p * p * a * b) by (nonlinear_arith);
    vstd::arithmetic::div_mod::lemma_mod_multiples_basic(a * b, p * p * p);
}

/// The two-pair hands with the pair ranks `p`: each kicker, ace down.
pub open spec fn two_pair_group() -> spec_fn(Seq<i64>) -> Seq<i64> {
    |p: Seq<i64>|
        without(without(ranks_ace_down(), p[0]), p[1]).map_values(
            |k: i64| (prime_pow(p[0], 2) * prime_pow(p[1], 2) * prime(k as int)) as i64,
        )
}

/// Two pairs: each pair of pair ranks, then each kicker.
pub open spec fn two_pair_products() -> Seq<i64> {
    concat_map(combos(ranks_ace_down(), 2), two_pair_group())
}

/// The one-pair hands with a pair of rank `r`: each triple of kickers.
pub open spec fn pair_group() -> spec_fn(i64) -> Seq<i64> {
    |r: i64|
        combos(without(ranks_ace_down(), r), 3).map_values(
            |c: Seq<i64>|
                (prime_pow(r, 2) * prime(c[0] as int) * prime(c[1] as int) * prime(c[2] as int)) as i64,
        )
}

/// One pair: the pair rank from ace down, then each triple of kickers.
pub open spec fn pair_products() -> Seq<i64> {
    concat_map(ranks_ace_down(), pair_group())
}

/// Two to the power `n`.
pub open spec fn two_pow(n: nat) -> nat
    decreases n,
{
    if n == 0 {
        1
    } else {
        2 * two_pow((n - 1) as nat)
    }
}

/// Each combination has `k` items, all taken from `s`, and there are at
/// most `2^|s|` of them.
proof fn lemma_combos_props(s: Seq<i64>, k: nat)
    ensures
        combos(s, k).len() <= two_pow(s.len()),
        forall|i: int| 0 <= i < combos(s, k).len() ==> (#[trigger] combos(s, k)[i]).len() == k,
        forall|i: int, j: int|
            0 <= i < combos(s, k).len() && 0 <= j < k ==> s.contains(#[trigger] combos(s, k)[i][j]),
    decreases s.len(), k,
{
    if k == 0 {
        assert(two_pow(s.len()) >= 1) by {
            lemma_two_pow_pos(s.len());
        }
    } else if s.len() == 0 {
    } else {
        let t = s.drop_first();
        lemma_combos_props(t, (k - 1) as nat);
        lemma_combos_props(t, k);
        let left = combos(t, (k - 1) as nat).map_values(|c: Seq<i64>| seq![s[0]] + c);
        let right = combos(t, k);
        assert(combos(s, k) == left + right);
        assert forall|i: int| 0 <= i < combos(s, k).len() implies (#[trigger] combos(s, k)[i]).len() == k by {
            if i < left.len() {
                assert(combos(s, k)[i] == seq![s[0]] + combos(t, (k - 1) as nat)[i]);
            } else {
                assert(combos(s, k)[i] == right[i - left.len()]);
            }
        }
        assert forall|i: int, j: int| 0 <= i < combos(s, k).len() && 0 <= j < k implies s.contains(
            #[trigger] combos(s, k)[i][j],
        ) by {
            if i < left.len() {
                let c = combos(t, (k - 1) as nat)[i];
                assert(combos(s, k)[i] == seq![s[0]] + c);
                if j == 0 {
                    assert(combos(s, k)[i][j] == s[0]);
                } else {
                    assert(combos(s, k)[i][j] == c[j - 1]);
                    assert(t.contains(c[j - 1]));
                    let w = choose|w: int| 0 <= w < t.len() && t[w] == c[j - 1];
                    assert(s[w + 1] == c[j - 1]);
                }
            } else {
                let c = right[i - left.len()];
                assert(combos(s, k)[i] == c);
                assert(t.contains(c[j]));
                let w = choose|w: int| 0 <= w < t.len() && t[w] == c[j];
                assert(s[w + 1] == c[j]);
            }
        }
    }
}

proof fn lemma_two_pow_pos(n: nat)
    ensures
        two_pow(n) >= 1,
    decreases n,
{
    if n > 0 {
        lemma_two_pow_pos((n - 1) as nat);
    }
}

proof fn lemma_two_pow_13(n: nat)
    requires
        n <= 13,
    ensures
        two_pow(n) <= 8192,
    decreases n,
{
    if n > 0 {
        lemma_two_pow_13((n - 1) as nat);
    }
    reveal_with_fuel(two_pow, 14);
}

/// A bound on the length of a concatenation.
proof fn lemma_concat_map_len<A>(s: Seq<A>, f: spec_fn(A) -> Seq<i64>, b: nat)
    requires
        forall|i: int| 0 <= i < s.len() ==> (#[trigger] f(s[i])).len() <= b,
    ensures
        concat_map(s, f).len() <= s.len() * b,
    decreases s.len(),
{
    if s.len() > 0 {
        lemma_concat_map_len(s.drop_last(), f, b);
        assert(f(s.last()).len() <= b);
        assert((s.len() - 1) * b + b == s.len() * b) by (nonlinear_arith);
    }
}


/// `41^e`.
pub open spec fn pow41(e: nat) -> int
    decreases e,
{
    if e == 0 {
        1
    } else {
        41 * pow41((e - 1) as nat)
    }
}

/// Every item of `s` without `x` is an item of `s`.
proof fn lemma_without_items(s: Seq<i64>, x: i64)
    ensures
        forall|j: int| 0 <= j < without(s, x).len() ==> s.contains(#[trigger] without(s, x)[j]),
    decreases s.len(),
{
    reveal(Seq::filter);
    if s.len() > 0 {
        lemma_without_items(s.drop_last(), x);
        let sub = without(s.drop_last(), x);
        assert forall|j: int| 0 <= j < without(s, x).len() implies s.contains(#[trigger] without(s, x)[j]) by {
            if j < sub.len() {
                assert(without(s, x)[j] == sub[j]);
                assert(s.drop_last().contains(sub[j]));
                let w = choose|w: int| 0 <= w < s.drop_last().len() && s.drop_last()[w] == sub[j];
                assert(s[w] == sub[j]);
            } else {
                assert(without(s, x)[j] == s.last());
                assert(s[s.len() - 1] == s.last());
            }
        }
    }
}

/// The items of the ranks from ace down are ranks.
proof fn lemma_ranks_ace_down()
    ensures
        ranks_ace_down().len() == 13,
        forall|j: int| 0 <= j < 13 ==> 0 <= #[trigger] ranks_ace_down()[j] <= 12,
{
}

/// `Vec::retain(|k| *k != x)`: keeps, in order, the items other than `x`.
fn retain_other_than(v: &mut Vec<i64>, x: i64)
    ensures
        final(v)@ == without(old(v)@, x),
{
    let mut kept: Vec<i64> = Vec::new();
    let mut i: usize = 0;
    while i < v.len()
        invariant
            i <= v@.len(),
            v@ == old(v)@,
            kept@ == v@.take(i as int).filter(other_than(x)),
        decreases v@.len() - i,
    {
        proof {
            assert(v@.take(i + 1) =~= v@.take(i as int).push(v@[i as int]));
            v@.take(i as int).lemma_filter_push(v@[i as int], other_than(x));
        }
        if v[i] != x {
            kept.push(v[i]);
        }
        i = i + 1;
    }
    assert(v@.take(v@.len() as int) =~= v@);
    *v = kept;
}

/// The prime of the rank `r`, raised to the power `e`.
fn prime_power(r: i64, e: u32) -> (p: i64)
    requires
        0 <= r < 13,
        e <= 4,
    ensures
        p == prime_pow(r, e as nat),
        1 <= p <= pow41(e as nat),
{
    proof {
        lemma_primes_table();
    }
    let base = PRIMES[r as usize];
    let mut p: i64 = 1;
    let mut j: u32 = 0;
    while j < e
        invariant
            j <= e <= 4,
            base == prime(r as int),
            2 <= base <= 41,
            p == prime_pow(r, j as nat),
            1 <= p <= pow41(j as nat),
        decreases e - j,
    {
        proof {
            reveal_with_fuel(pow41, 5);
            assert(p * base <= pow41(j as nat) * 41) by (nonlinear_arith)
                requires
                    1 <= p <= pow41(j as nat),
                    2 <= base <= 41,
            ;
            assert(p * base >= 1) by (nonlinear_arith)
                requires
                    1 <= p,
                    2 <= base,
            ;
            assert(pow41(j as nat) <= 68921);
        }
        p = p * base;
        j = j + 1;
    }
    p
}

/// Four of a kind, after the straight flushes: for each quad rank from ace down, each kicker rank.
fn insert_four_of_a_kind(backwards_ranks: &Vec<i64>, unsuited_lookup: &mut HashMap<i64, i64>)
    requires
        backwards_ranks@ == ranks_ace_down(),
    ensures
        final(unsuited_lookup)@ == insert_ranked(old(unsuited_lookup)@, four_of_a_kind_products(), MAX_STRAIGHT_FLUSH + 1),
{
    proof {
        lemma_ranks_ace_down();
    }
    let mut rank: i64 = MAX_STRAIGHT_FLUSH + 1;
    let mut a: usize = 0;
    while a < 13
        invariant
            a <= 13,
            backwards_ranks@ == ranks_ace_down(),
            unsuited_lookup@ == insert_ranked(
                old(unsuited_lookup)@,
                concat_map(ranks_ace_down().take(a as int), four_of_a_kind_group()),
                MAX_STRAIGHT_FLUSH + 1,
            ),
            rank == MAX_STRAIGHT_FLUSH + 1 + concat_map(ranks_ace_down().take(a as int), four_of_a_kind_group()).len(),
            rank <= MAX_STRAIGHT_FLUSH + 1 + 13 * a,
        decreases 13 - a,
    {
        proof {
            lemma_ranks_ace_down();
        }
        let i = backwards_ranks[a];
        let mut kickers = backwards_ranks.clone();
        assert(kickers@ =~= backwards_ranks@);
        retain_other_than(&mut kickers, i);
        proof {
            lemma_without_items(ranks_ace_down(), i);
            ranks_ace_down().lemma_filter_len(other_than(i));
        }
        let ghost done = concat_map(ranks_ace_down().take(a as int), four_of_a_kind_group());
        let mut b: usize = 0;
        while b < kickers.len()
            invariant
                a < 13,
                b <= kickers@.len(),
                0 <= i <= 12,
                backwards_ranks@ == ranks_ace_down(),
                kickers@ == without(ranks_ace_down(), i),
                kickers@.len() <= 13,
                forall|j: int| 0 <= j < kickers@.len() ==> ranks_ace_down().contains(#[trigger] kickers@[j]),
                unsuited_lookup@ == insert_ranked(
                    old(unsuited_lookup)@,
                    done + four_of_a_kind_group()(i).take(b as int),
                    MAX_STRAIGHT_FLUSH + 1,
                ),
                rank == MAX_STRAIGHT_FLUSH + 1 + done.len() + b,
                done.len() <= 13 * a,
            decreases kickers@.len() - b,
        {
            let k = kickers[b];
            proof {
                lemma_ranks_ace_down();
                lemma_primes_table();
                assert(ranks_ace_down().contains(k));
                let w = choose|w: int| 0 <= w < 13 && ranks_ace_down()[w] == k;
                assert(0 <= k <= 12);
            }
            let p4 = prime_power(i, 4);
            proof {
                lemma_primes_table();
            }
            proof {
                reveal_with_fuel(pow41, 5);
                assert(p4 * PRIMES@[k as int] <= 2825761 * 41) by (nonlinear_arith)
                    requires
                        1 <= p4 <= 2825761,
                        1 <= PRIMES@[k as int] <= 41,
                ;
            }
            let product = p4 * PRIMES[k as usize];
            proof {
                assert(four_of_a_kind_group()(i)[b as int] == product);
                assert(done + four_of_a_kind_group()(i).take(b + 1) =~= (done + four_of_a_kind_group()(i).take(
                    b as int,
                )).push(product));
                lemma_insert_ranked_push(
                    old(unsuited_lookup)@,
                    done + four_of_a_kind_group()(i).take(b as int),
                    product,
                    MAX_STRAIGHT_FLUSH + 1,
                );
            }
            unsuited_lookup.insert(product, rank);
            rank = rank + 1;
            b = b + 1;
        }
        proof {
            assert(four_of_a_kind_group()(i).take(kickers@.len() as int) =~= four_of_a_kind_group()(i));
            lemma_concat_map_take(ranks_ace_down(), four_of_a_kind_group(), a as int);
        }
        a = a + 1;
    }
    assert(ranks_ace_down().take(13) =~= ranks_ace_down());
}

/// Full houses, after four of a kind: for each trips rank from ace down, each pair rank.
fn insert_full_houses(backwards_ranks: &Vec<i64>, unsuited_lookup: &mut HashMap<i64, i64>)
    requires
        backwards_ranks@ == ranks_ace_down(),
    ensures
        final(unsuited_lookup)@ == insert_ranked(old(unsuited_lookup)@, full_house_products(), MAX_FOUR_OF_A_KIND + 1),
{
    proof {
        lemma_ranks_ace_down();
    }
    let mut rank: i64 = MAX_FOUR_OF_A_KIND + 1;
    let mut a: usize = 0;
    while a < 13
        invariant
            a <= 13,
            backwards_ranks@ == ranks_ace_down(),
            unsuited_lookup@ == insert_ranked(
                old(unsuited_lookup)@,
                concat_map(ranks_ace_down().take(a as int), full_house_group()),
                MAX_FOUR_OF_A_KIND + 1,
            ),
            rank == MAX_FOUR_OF_A_KIND + 1 + concat_map(ranks_ace_down().take(a as int), full_house_group()).len(),
            rank <= MAX_FOUR_OF_A_KIND + 1 + 13 * a,
        decreases 13 - a,
    {
        proof {
            lemma_ranks_ace_down();
        }
        let i = backwards_ranks[a];
        let mut kickers = backwards_ranks.clone();
        assert(kickers@ =~= backwards_ranks@);
        retain_other_than(&mut kickers, i);
        proof {
            lemma_without_items(ranks_ace_down(), i);
            ranks_ace_down().lemma_filter_len(other_than(i));
        }
        let ghost done = concat_map(ranks_ace_down().take(a as int), full_house_group());
        let mut b: usize = 0;
        while b < kickers.len()
            invariant
                a < 13,
                b <= kickers@.len(),
                0 <= i <= 12,
                backwards_ranks@ == ranks_ace_down(),
                kickers@ == without(ranks_ace_down(), i),
                kickers@.len() <= 13,
                forall|j: int| 0 <= j < kickers@.len() ==> ranks_ace_down().contains(#[trigger] kickers@[j]),
                unsuited_lookup@ == insert_ranked(
                    old(unsuited_lookup)@,
                    done + full_house_group()(i).take(b as int),
                    MAX_FOUR_OF_A_KIND + 1,
                ),
                rank == MAX_FOUR_OF_A_KIND + 1 + done.len() + b,
                done.len() <= 13 * a,
            decreases kickers@.len() - b,
        {
            let k = kickers[b];
            proof {
                lemma_ranks_ace_down();
                lemma_primes_table();
                assert(ranks_ace_down().contains(k));
                let w = choose|w: int| 0 <= w < 13 && ranks_ace_down()[w] == k;
                assert(0 <= k <= 12);
            }
            let p3 = prime_power(i, 3);
            let p2 = prime_power(k, 2);
            proof {
                reveal_with_fuel(pow41, 5);
                assert(p3 * p2 <= 68921 * 1681) by (nonlinear_arith)
                    requires
                        1 <= p3 <= 68921,
                        1 <= p2 <= 1681,
                ;
            }
            let product = p3 * p2;
            proof {
                assert(full_house_group()(i)[b as int] == product);
                assert(done + full_house_group()(i).take(b + 1) =~= (done + full_house_group()(i).take(
                    b as int,
                )).push(product));
                lemma_insert_ranked_push(
                    old(unsuited_lookup)@,
                    done + full_house_group()(i).take(b as int),
                    product,
                    MAX_FOUR_OF_A_KIND + 1,
                );
            }
            unsuited_lookup.insert(product, rank);
            rank = rank + 1;
            b = b + 1;
        }
        proof {
            assert(full_house_group()(i).take(kickers@.len() as int) =~= full_house_group()(i));
            lemma_concat_map_take(ranks_ace_down(), full_house_group(), a as int);
        }
        a = a + 1;
    }
    assert(ranks_ace_down().take(13) =~= ranks_ace_down());
}

/// Three of a kind, after the straights: for each trips rank from ace down, each pair of kickers.
fn insert_three_of_a_kind(backwards_ranks: &Vec<i64>, unsuited_lookup: &mut HashMap<i64, i64>)
    requires
        backwards_ranks@ == ranks_ace_down(),
    ensures
        final(unsuited_lookup)@ == insert_ranked(old(unsuited_lookup)@, three_of_a_kind_products(), MAX_STRAIGHT + 1),
{
    proof {
        lemma_ranks_ace_down();
    }
    let mut rank: i64 = MAX_STRAIGHT + 1;
    let mut a: usize = 0;
    while a < 13
        invariant
            a <= 13,
            backwards_ranks@ == ranks_ace_down(),
            unsuited_lookup@ == insert_ranked(
                old(unsuited_lookup)@,
                concat_map(ranks_ace_down().take(a as int), three_of_a_kind_group()),
                MAX_STRAIGHT + 1,
            ),
            rank == MAX_STRAIGHT + 1 + concat_map(ranks_ace_down().take(a as int), three_of_a_kind_group()).len(),
            rank <= MAX_STRAIGHT + 1 + 8192 * a,
        decreases 13 - a,
    {
        proof {
            lemma_ranks_ace_down();
        }
        let r = backwards_ranks[a];
        let mut kickers = backwards_ranks.clone();
        assert(kickers@ =~= backwards_ranks@);
        retain_other_than(&mut kickers, r);
        let gen = combinations(&kickers, 2);
        proof {
            lemma_without_items(ranks_ace_down(), r);
            ranks_ace_down().lemma_filter_len(other_than(r));
            lemma_combos_props(kickers@, 2);
            lemma_two_pow_13(kickers@.len());
            assert(gen@.len() == combos(kickers@, 2).len());
        }
        let ghost done = concat_map(ranks_ace_down().take(a as int), three_of_a_kind_group());
        let mut b: usize = 0;
        while b < gen.len()
            invariant
                a < 13,
                b <= gen@.len(),
                gen@.len() <= 8192,
                0 <= r <= 12,
                backwards_ranks@ == ranks_ace_down(),
                kickers@ == without(ranks_ace_down(), r),
                forall|j: int| 0 <= j < kickers@.len() ==> ranks_ace_down().contains(#[trigger] kickers@[j]),
                gen@.map_values(|c: Vec<i64>| c@) == combos(kickers@, 2),
                forall|i: int| 0 <= i < combos(kickers@, 2).len() ==> (#[trigger] combos(kickers@, 2)[i]).len() == 2,
                forall|i: int, j: int|
                    0 <= i < combos(kickers@, 2).len() && 0 <= j < 2 ==> kickers@.contains(#[trigger] combos(kickers@, 2)[i][j]),
                unsuited_lookup@ == insert_ranked(
                    old(unsuited_lookup)@,
                    done + three_of_a_kind_group()(r).take(b as int),
                    MAX_STRAIGHT + 1,
                ),
                rank == MAX_STRAIGHT + 1 + done.len() + b,
                done.len() <= 8192 * a,
            decreases gen@.len() - b,
        {
            let c = &gen[b];
            proof {
                assert(gen@.map_values(|c: Vec<i64>| c@)[b as int] == c@);
                assert(c@ == combos(kickers@, 2)[b as int]);
                assert forall|j: int| 0 <= j < 2 implies 0 <= #[trigger] c@[j] <= 12 by {
                    assert(kickers@.contains(combos(kickers@, 2)[b as int][j]));
                    let w = choose|w: int| 0 <= w < kickers@.len() && kickers@[w] == c@[j];
                    assert(ranks_ace_down().contains(kickers@[w]));
                    lemma_ranks_ace_down();
                    let v = choose|v: int| 0 <= v < 13 && ranks_ace_down()[v] == kickers@[w];
                }
                lemma_primes_table();
            }
            let (c1, c2) = (c[0], c[1]);
            let p3 = prime_power(r, 3);
            proof {
                reveal_with_fuel(pow41, 5);
                assert(p3 * PRIMES@[c1 as int] * PRIMES@[c2 as int] <= 68921 * 41 * 41 && p3 * PRIMES@[c1 as int] <= 68921 * 41) by (nonlinear_arith)
                    requires
                        1 <= p3 <= 68921,
                        1 <= PRIMES@[c1 as int] <= 41,
                        1 <= PRIMES@[c2 as int] <= 41,
                ;
            }
            let product = p3 * PRIMES[c1 as usize] * PRIMES[c2 as usize];
            proof {
                assert(three_of_a_kind_group()(r)[b as int] == product);
                assert(done + three_of_a_kind_group()(r).take(b + 1) =~= (done + three_of_a_kind_group()(r).take(
                    b as int,
                )).push(product));
                lemma_insert_ranked_push(
                    old(unsuited_lookup)@,
                    done + three_of_a_kind_group()(r).take(b as int),
                    product,
                    MAX_STRAIGHT + 1,
                );
            }
            unsuited_lookup.insert(product, rank);
            rank = rank + 1;
            b = b + 1;
        }
        proof {
            assert(three_of_a_kind_group()(r).take(gen@.len() as int) =~= three_of_a_kind_group()(r));
            lemma_concat_map_take(ranks_ace_down(), three_of_a_kind_group(), a as int);
        }
        a = a + 1;
    }
    assert(ranks_ace_down().take(13) =~= ranks_ace_down());
}

/// One pair, after two pair: for each pair rank from ace down, each triple of kickers.
fn insert_pairs(backwards_ranks: &Vec<i64>, unsuited_lookup: &mut HashMap<i64, i64>)
    requires
        backwards_ranks@ == ranks_ace_down(),
    ensures
        final(unsuited_lookup)@ == insert_ranked(old(unsuited_lookup)@, pair_products(), MAX_TWO_PAIR + 1),
{
    proof {
        lemma_ranks_ace_down();
    }
    let mut rank: i64 = MAX_TWO_PAIR + 1;
    let mut a: usize = 0;
    while a < 13
        invariant
            a <= 13,
            backwards_ranks@ == ranks_ace_down(),
            unsuited_lookup@ == insert_ranked(
                old(unsuited_lookup)@,
                concat_map(ranks_ace_down().take(a as int), pair_group()),
                MAX_TWO_PAIR + 1,
            ),
            rank == MAX_TWO_PAIR + 1 + concat_map(ranks_ace_down().take(a as int), pair_group()).len(),
            rank <= MAX_TWO_PAIR + 1 + 8192 * a,
        decreases 13 - a,
    {
        proof {
            lemma_ranks_ace_down();
        }
        let r = backwards_ranks[a];
        let mut kickers = backwards_ranks.clone();
        assert(kickers@ =~= backwards_ranks@);
        retain_other_than(&mut kickers, r);
        let gen = combinations(&kickers, 3);
        proof {
            lemma_without_items(ranks_ace_down(), r);
            ranks_ace_down().lemma_filter_len(other_than(r));
            lemma_combos_props(kickers@, 3);
            lemma_two_pow_13(kickers@.len());
            assert(gen@.len() == combos(kickers@, 3).len());
        }
        let ghost done = concat_map(ranks_ace_down().take(a as int), pair_group());
        let mut b: usize = 0;
        while b < gen.len()
            invariant
                a < 13,
                b <= gen@.len(),
                gen@.len() <= 8192,
                0 <= r <= 12,
                backwards_ranks@ == ranks_ace_down(),
                kickers@ == without(ranks_ace_down(), r),
                forall|j: int| 0 <= j < kickers@.len() ==> ranks_ace_down().contains(#[trigger] kickers@[j]),
                gen@.map_values(|c: Vec<i64>| c@) == combos(kickers@, 3),
                forall|i: int| 0 <= i < combos(kickers@, 3).len() ==> (#[trigger] combos(kickers@, 3)[i]).len() == 3,
                forall|i: int, j: int|
                    0 <= i < combos(kickers@, 3).len() && 0 <= j < 3 ==> kickers@.contains(#[trigger] combos(kickers@, 3)[i][j]),
                unsuited_lookup@ == insert_ranked(
                    old(unsuited_lookup)@,
                    done + pair_group()(r).take(b as int),
                    MAX_TWO_PAIR + 1,
                ),
                rank == MAX_TWO_PAIR + 1 + done.len() + b,
                done.len() <= 8192 * a,
            decreases gen@.len() - b,
        {
            let c = &gen[b];
            proof {
                assert(gen@.map_values(|c: Vec<i64>| c@)[b as int] == c@);
                assert(c@ == combos(kickers@, 3)[b as int]);
                assert forall|j: int| 0 <= j < 3 implies 0 <= #[trigger] c@[j] <= 12 by {
                    assert(kickers@.contains(combos(kickers@, 3)[b as int][j]));
                    let w = choose|w: int| 0 <= w < kickers@.len() && kickers@[w] == c@[j];
                    assert(ranks_ace_down().contains(kickers@[w]));
                    lemma_ranks_ace_down();
                    let v = choose|v: int| 0 <= v < 13 && ranks_ace_down()[v] == kickers@[w];
                }
                lemma_primes_table();
            }
            let (k1, k2, k3) = (c[0], c[1], c[2]);
            let p2 = prime_power(r, 2);
            proof {
                reveal_with_fuel(pow41, 5);
                assert(p2 * PRIMES@[k1 as int] * PRIMES@[k2 as int] * PRIMES@[k3 as int] <= 1681 * 41 * 41 * 41 && p2 * PRIMES@[k1 as int] * PRIMES@[k2 as int] <= 1681 * 41 * 41 && p2 * PRIMES@[k1 as int] <= 1681 * 41) by (nonlinear_arith)
                    requires
                        1 <= p2 <= 1681,
                        1 <= PRIMES@[k1 as int] <= 41,
                        1 <= PRIMES@[k2 as int] <= 41,
                        1 <= PRIMES@[k3 as int] <= 41,
                ;
            }
            let product = p2 * PRIMES[k1 as usize] * PRIMES[k2 as usize] * PRIMES[k3 as usize];
            proof {
                assert(pair_group()(r)[b as int] == product);
                assert(done + pair_group()(r).take(b + 1) =~= (done + pair_group()(r).take(
                    b as int,
                )).push(product));
                lemma_insert_ranked_push(
                    old(unsuited_lookup)@,
                    done + pair_group()(r).take(b as int),
                    product,
                    MAX_TWO_PAIR + 1,
                );
            }
            unsuited_lookup.insert(product, rank);
            rank = rank + 1;
            b = b + 1;
        }
        proof {
            assert(pair_group()(r).take(gen@.len() as int) =~= pair_group()(r));
            lemma_concat_map_take(ranks_ace_down(), pair_group(), a as int);
        }
        a = a + 1;
    }
    assert(ranks_ace_down().take(13) =~= ranks_ace_down());
}


/// Two pair, after three of a kind: for each pair of pair ranks, each kicker.
fn insert_two_pairs(backwards_ranks: &Vec<i64>, unsuited_lookup: &mut HashMap<i64, i64>)
    requires
        backwards_ranks@ == ranks_ace_down(),
    ensures
        final(unsuited_lookup)@ == insert_ranked(old(unsuited_lookup)@, two_pair_products(), MAX_THREE_OF_A_KIND + 1),
{
    proof {
        lemma_ranks_ace_down();
    }
    let tpgen = combinations(backwards_ranks, 2);
    let ghost pairs = combos(ranks_ace_down(), 2);
    proof {
        lemma_combos_props(ranks_ace_down(), 2);
        lemma_two_pow_13(13);
        assert(tpgen@.len() == pairs.len());
    }
    let mut rank: i64 = MAX_THREE_OF_A_KIND + 1;
    let mut a: usize = 0;
    while a < tpgen.len()
        invariant
            a <= tpgen@.len(),
            tpgen@.len() <= 8192,
            backwards_ranks@ == ranks_ace_down(),
            pairs == combos(ranks_ace_down(), 2),
            tpgen@.map_values(|c: Vec<i64>| c@) == pairs,
            forall|i: int| 0 <= i < pairs.len() ==> (#[trigger] pairs[i]).len() == 2,
            forall|i: int, j: int| 0 <= i < pairs.len() && 0 <= j < 2 ==> ranks_ace_down().contains(#[trigger] pairs[i][j]),
            unsuited_lookup@ == insert_ranked(
                old(unsuited_lookup)@,
                concat_map(pairs.take(a as int), two_pair_group()),
                MAX_THREE_OF_A_KIND + 1,
            ),
            rank == MAX_THREE_OF_A_KIND + 1 + concat_map(pairs.take(a as int), two_pair_group()).len(),
            rank <= MAX_THREE_OF_A_KIND + 1 + 13 * a,
        decreases tpgen@.len() - a,
    {
        let p = &tpgen[a];
        proof {
            assert(tpgen@.map_values(|c: Vec<i64>| c@)[a as int] == p@);
            lemma_ranks_ace_down();
            assert forall|j: int| 0 <= j < 2 implies 0 <= #[trigger] p@[j] <= 12 by {
                assert(ranks_ace_down().contains(pairs[a as int][j]));
                let v = choose|v: int| 0 <= v < 13 && ranks_ace_down()[v] == p@[j];
            }
        }
        let (pair1, pair2) = (p[0], p[1]);
        let mut kickers = backwards_ranks.clone();
        assert(kickers@ =~= backwards_ranks@);
        retain_other_than(&mut kickers, pair1);
        retain_other_than(&mut kickers, pair2);
        proof {
            lemma_without_items(ranks_ace_down(), pair1);
            lemma_without_items(without(ranks_ace_down(), pair1), pair2);
            ranks_ace_down().lemma_filter_len(other_than(pair1));
            without(ranks_ace_down(), pair1).lemma_filter_len(other_than(pair2));
            assert forall|j: int| 0 <= j < kickers@.len() implies ranks_ace_down().contains(#[trigger] kickers@[j]) by {
                assert(without(ranks_ace_down(), pair1).contains(kickers@[j]));
                let w = choose|w: int| 0 <= w < without(ranks_ace_down(), pair1).len() && without(ranks_ace_down(), pair1)[w] == kickers@[j];
                assert(ranks_ace_down().contains(without(ranks_ace_down(), pair1)[w]));
            }
        }
        let ghost done = concat_map(pairs.take(a as int), two_pair_group());
        let mut b: usize = 0;
        while b < kickers.len()
            invariant
                a < tpgen@.len(),
                tpgen@.len() <= 8192,
                b <= kickers@.len(),
                0 <= pair1 <= 12,
                0 <= pair2 <= 12,
                p@ == pairs[a as int],
                p@.len() == 2,
                pair1 == p@[0],
                pair2 == p@[1],
                backwards_ranks@ == ranks_ace_down(),
                kickers@ == without(without(ranks_ace_down(), pair1), pair2),
                kickers@.len() <= 13,
                forall|j: int| 0 <= j < kickers@.len() ==> ranks_ace_down().contains(#[trigger] kickers@[j]),
                unsuited_lookup@ == insert_ranked(
                    old(unsuited_lookup)@,
                    done + two_pair_group()(p@).take(b as int),
                    MAX_THREE_OF_A_KIND + 1,
                ),
                rank == MAX_THREE_OF_A_KIND + 1 + done.len() + b,
                done.len() <= 13 * a,
            decreases kickers@.len() - b,
        {
            let kicker = kickers[b];
            proof {
                lemma_ranks_ace_down();
                lemma_primes_table();
                assert(ranks_ace_down().contains(kicker));
                let w = choose|w: int| 0 <= w < 13 && ranks_ace_down()[w] == kicker;
                assert(0 <= kicker <= 12);
            }
            let q1 = prime_power(pair1, 2);
            let q2 = prime_power(pair2, 2);
            proof {
                reveal_with_fuel(pow41, 5);
                assert(q1 * q2 * PRIMES@[kicker as int] <= 1681 * 1681 * 41 && q1 * q2 <= 1681 * 1681)
                    by (nonlinear_arith)
                    requires
                        1 <= q1 <= 1681,
                        1 <= q2 <= 1681,
                        1 <= PRIMES@[kicker as int] <= 41,
                ;
            }
            let product = q1 * q2 * PRIMES[kicker as usize];
            proof {
                assert(two_pair_group()(p@)[b as int] == product);
                assert(done + two_pair_group()(p@).take(b + 1) =~= (done + two_pair_group()(p@).take(
                    b as int,
                )).push(product));
                lemma_insert_ranked_push(
                    old(unsuited_lookup)@,
                    done + two_pair_group()(p@).take(b as int),
                    product,
                    MAX_THREE_OF_A_KIND + 1,
                );
            }
            unsuited_lookup.insert(product, rank);
            rank = rank + 1;
            b = b + 1;
        }
        proof {
            assert(two_pair_group()(p@).take(kickers@.len() as int) =~= two_pair_group()(p@));
            lemma_concat_map_take(pairs, two_pair_group(), a as int);
        }
        a = a + 1;
    }
    assert(pairs.take(tpgen@.len() as int) =~= pairs);
}

/// Pair, two pair, three of a kind, full house and four of a kind, each
/// category ranked from its best hand down and placed after the category
/// above it.
fn multiples(unsuited_lookup: &mut HashMap<i64, i64>)
    ensures
        final(unsuited_lookup)@ == insert_ranked(
            insert_ranked(
                insert_ranked(
                    insert_ranked(
                        insert_ranked(old(unsuited_lookup)@, four_of_a_kind_products(), MAX_STRAIGHT_FLUSH + 1),
                        full_house_products(),
                        MAX_FOUR_OF_A_KIND + 1,
                    ),
                    three_of_a_kind_products(),
                    MAX_STRAIGHT + 1,
                ),
                two_pair_products(),
                MAX_THREE_OF_A_KIND + 1,
            ),
            pair_products(),
            MAX_TWO_PAIR + 1,
        ),
{
    let mut backwards_ranks: Vec<i64> = Vec::new();
    let mut idx: usize = 13;
    while idx > 0
        invariant
            idx <= 13,
            backwards_ranks@ == ranks_ace_down().take(13 - idx),
        decreases idx,
    {
        idx = idx - 1;
        backwards_ranks.push(INT_RANKS[idx]);
        assert(ranks_ace_down().take(13 - idx) =~= ranks_ace_down().take(13 - idx - 1).push(
            INT_RANKS@[idx as int],
        ));
    }
    assert(backwards_ranks@ =~= ranks_ace_down());
    insert_four_of_a_kind(&backwards_ranks, unsuited_lookup);
    insert_full_houses(&backwards_ranks, unsuited_lookup);
    insert_three_of_a_kind(&backwards_ranks, unsuited_lookup);
    insert_two_pairs(&backwards_ranks, unsuited_lookup);
    insert_pairs(&backwards_ranks, unsuited_lookup);
}


/// The low byte of a card: the prime of its rank.
pub open spec fn low_byte(c: i64) -> int {
    (c & 0xFF) as int
}

/// The product of the low bytes of the cards of `s`.
pub open spec fn hand_product(s: Seq<i64>) -> int
    decreases s.len(),
{
    if s.len() == 0 {
        1
    } else {
        hand_product(s.drop_last()) * low_byte(s.last())
    }
}

/// Multiplying the low bytes of `s` one by one never overflows.
pub open spec fn hand_product_fits(s: Seq<i64>) -> bool {
    forall|k: int| 0 <= k <= s.len() ==> #[trigger] hand_product(s.take(k)) <= i64::MAX
}

proof fn lemma_low_byte(c: i64)
    ensures
        0 <= low_byte(c) <= 255,
{
    assert(0 <= (c & 0xFF) <= 255) by (bit_vector);
}

proof fn lemma_hand_product_nonneg(s: Seq<i64>)
    ensures
        hand_product(s) >= 0,
    decreases s.len(),
{
    if s.len() > 0 {
        lemma_hand_product_nonneg(s.drop_last());
        lemma_low_byte(s.last());
        assert(hand_product(s.drop_last()) * low_byte(s.last()) >= 0) by (nonlinear_arith)
            requires
                hand_product(s.drop_last()) >= 0,
                low_byte(s.last()) >= 0,
        ;
    }
}

/// The product of the primes of the cards' ranks (the low byte of each card).
fn prime_product_from_hand(card_ints: &[i64]) -> (product: i64)
    requires
        hand_product_fits(card_ints@),
    ensures
        product == hand_product(card_ints@),
{
    let mut product: i64 = 1;
    let mut i: usize = 0;
    while i < card_ints.len()
        invariant
            i <= card_ints@.len(),
            hand_product_fits(card_ints@),
            product == hand_product(card_ints@.take(i as int)),
        decreases card_ints@.len() - i,
    {
        let c = card_ints[i];
        proof {
            assert(card_ints@.take(i + 1).drop_last() =~= card_ints@.take(i as int));
            assert(hand_product(card_ints@.take(i + 1)) <= i64::MAX);
            lemma_hand_product_nonneg(card_ints@.take(i as int));
            lemma_low_byte(c);
        }
        product = product * (c & 0xFF);
        i = i + 1;
    }
    assert(card_ints@.take(card_ints@.len() as int) =~= card_ints@);
    product
}

/// The five cards of `c` share a suit (a common bit among bits 12 to 15).
pub open spec fn is_flush(c: Seq<i64>) -> bool {
    (c[0] & c[1] & c[2] & c[3] & c[4] & 0xF000) != 0
}

/// The rank bits of the five cards of `c`.
pub open spec fn rank_bits(c: Seq<i64>) -> i64 {
    (c[0] | c[1] | c[2] | c[3] | c[4]) >> 16i64
}

/// The key under which the hand `c` is found: the prime product of its rank
/// bits for a flush, of its cards otherwise.
pub open spec fn five_key(c: Seq<i64>) -> i64 {
    if is_flush(c) {
        prime_product(rank_bits(c))
    } else {
        hand_product(c) as i64
    }
}

/// The tables hold the hand `c` (and, for a hand that is not a flush, the
/// product of its cards can be computed).
pub open spec fn five_defined(c: Seq<i64>, flush: Map<i64, i64>, unsuited: Map<i64, i64>) -> bool {
    if is_flush(c) {
        flush.contains_key(five_key(c))
    } else {
        hand_product_fits(c) && unsuited.contains_key(five_key(c))
    }
}

/// The rank of the first five cards of `c`, from the flush table for a flush,
/// from the other table otherwise.
pub open spec fn five_rank(c: Seq<i64>, flush: Map<i64, i64>, unsuited: Map<i64, i64>) -> i64 {
    if is_flush(c) {
        flush[five_key(c)]
    } else {
        unsuited[five_key(c)]
    }
}

/// The rank of a five-card hand given as card patterns: 1 is the royal
/// flush, 7462 the worst high card.
fn _five(cards: &[i64], flush_lookup: &HashMap<i64, i64>, unsuited_lookup: &HashMap<i64, i64>) -> (r: i64)
    requires
        cards@.len() >= 5,
        five_defined(cards@, flush_lookup@, unsuited_lookup@),
    ensures
        r == five_rank(cards@, flush_lookup@, unsuited_lookup@),
{
    if (cards[0] & cards[1] & cards[2] & cards[3] & cards[4] & 0xF000) != 0 {
        let hand_or = (cards[0] | cards[1] | cards[2] | cards[3] | cards[4]) >> 16;
        let prime = prime_product_from_rankbits(hand_or);
        proof {
            lemma_rankbits_product_bounds(hand_or, 13);
            lemma_primorial_13();
        }
        *flush_lookup.get(&prime).unwrap()
    } else {
        let prime = prime_product_from_hand(cards);
        *unsuited_lookup.get(&prime).unwrap()
    }
}

/// The smallest of `m` and the items of `s`.
pub open spec fn min_fold(s: Seq<i64>, m: i64) -> i64
    decreases s.len(),
{
    if s.len() == 0 {
        m
    } else {
        let prev = min_fold(s.drop_last(), m);
        if s.last() < prev {
            s.last()
        } else {
            prev
        }
    }
}

/// The ranks of the five-card hands among the cards `c`.
pub open spec fn combo_ranks(c: Seq<i64>, flush: Map<i64, i64>, unsuited: Map<i64, i64>) -> Seq<i64> {
    combos(c, 5).map_values(|h: Seq<i64>| five_rank(h, flush, unsuited))
}

/// Every five-card hand among `c` is in the tables.
pub open spec fn combos_defined(c: Seq<i64>, flush: Map<i64, i64>, unsuited: Map<i64, i64>) -> bool {
    forall|i: int| 0 <= i < combos(c, 5).len() ==> five_defined(#[trigger] combos(c, 5)[i], flush, unsuited)
}

/// The best rank of the five-card hands among the cards (at worst the worst
/// high card).
fn _six(cards: &[i64], flush_lookup: &HashMap<i64, i64>, unsuited_lookup: &HashMap<i64, i64>) -> (r: i64)
    requires
        combos_defined(cards@, flush_lookup@, unsuited_lookup@),
    ensures
        r == min_fold(combo_ranks(cards@, flush_lookup@, unsuited_lookup@), MAX_HIGH_CARD),
{
    let mut minimum = MAX_HIGH_CARD;
    let mut all: Vec<i64> = Vec::new();
    let mut j: usize = 0;
    while j < cards.len()
        invariant
            j <= cards@.len(),
            all@ == cards@.take(j as int),
        decreases cards@.len() - j,
    {
        all.push(cards[j]);
        assert(cards@.take(j + 1) =~= cards@.take(j as int).push(cards@[j as int]));
        j = j + 1;
    }
    assert(all@ =~= cards@);
    let all5cardcombos = combinations(&all, 5);
    let ghost ranks = combo_ranks(cards@, flush_lookup@, unsuited_lookup@);
    proof {
        lemma_combos_props(cards@, 5);
        assert(all5cardcombos@.len() == combos(cards@, 5).len());
    }
    let mut i: usize = 0;
    while i < all5cardcombos.len()
        invariant
            i <= all5cardcombos@.len(),
            all5cardcombos@.map_values(|c: Vec<i64>| c@) == combos(cards@, 5),
            forall|k: int| 0 <= k < combos(cards@, 5).len() ==> (#[trigger] combos(cards@, 5)[k]).len() == 5,
            combos_defined(cards@, flush_lookup@, unsuited_lookup@),
            ranks == combo_ranks(cards@, flush_lookup@, unsuited_lookup@),
            minimum == min_fold(ranks.take(i as int), MAX_HIGH_CARD),
        decreases all5cardcombos@.len() - i,
    {
        let combo = &all5cardcombos[i];
        proof {
            assert(all5cardcombos@.map_values(|c: Vec<i64>| c@)[i as int] == combo@);
            assert(five_defined(combos(cards@, 5)[i as int], flush_lookup@, unsuited_lookup@));
        }
        let score = _five(combo.as_slice(), flush_lookup, unsuited_lookup);
        proof {
            assert(ranks[i as int] == score);
            assert(ranks.take(i + 1).drop_last() =~= ranks.take(i as int));
        }
        if score < minimum {
            minimum = score;
        }
        i = i + 1;
    }
    assert(ranks.take(all5cardcombos@.len() as int) =~= ranks);
    minimum
}

/// Seven cards are evaluated as six are: the best of their five-card hands.
fn _seven(cards: &[i64], flush_lookup: &HashMap<i64, i64>, unsuited_lookup: &HashMap<i64, i64>) -> (r: i64)
    requires
        combos_defined(cards@, flush_lookup@, unsuited_lookup@),
    ensures
        r == min_fold(combo_ranks(cards@, flush_lookup@, unsuited_lookup@), MAX_HIGH_CARD),
{
    _six(cards, flush_lookup, unsuited_lookup)
}


/// The patterns of a player's cards followed by those of the board.
pub open spec fn card_values(cards: Seq<((char, char), i64)>, board: Seq<((char, char), i64)>) -> Seq<i64> {
    (cards + board).map_values(|c: ((char, char), i64)| c.1)
}

/// The tables can rank the hand `c`: five cards whose hand is in the tables,
/// or six or seven cards whose every five-card hand is.
pub open spec fn hand_defined(c: Seq<i64>, flush: Map<i64, i64>, unsuited: Map<i64, i64>) -> bool {
    if c.len() == 5 {
        five_defined(c, flush, unsuited)
    } else {
        6 <= c.len() <= 7 && combos_defined(c, flush, unsuited)
    }
}

/// The rank of the hand `c`: that of its five cards, or the best among its
/// five-card hands.
pub open spec fn hand_rank(c: Seq<i64>, flush: Map<i64, i64>, unsuited: Map<i64, i64>) -> i64 {
    if c.len() == 5 {
        five_rank(c, flush, unsuited)
    } else {
        min_fold(combo_ranks(c, flush, unsuited), MAX_HIGH_CARD)
    }
}

/// The patterns of the player's cards, then of the board's.
fn collect_values(cards: &[((char, char), i64)], board: &[((char, char), i64)]) -> (all_cards: Vec<i64>)
    ensures
        all_cards@ == card_values(cards@, board@),
{
    let ghost all = cards@ + board@;
    let mut all_cards: Vec<i64> = Vec::new();
    let mut i: usize = 0;
    while i < cards.len()
        invariant
            i <= cards@.len(),
            all == cards@ + board@,
            all_cards@ == all.take(i as int).map_values(|c: ((char, char), i64)| c.1),
        decreases cards@.len() - i,
    {
        proof {
            assert(all.take(i + 1) =~= all.take(i as int).push(all[i as int]));
        }
        all_cards.push(cards[i].1);
        i = i + 1;
    }
    let mut j: usize = 0;
    while j < board.len()
        invariant
            j <= board@.len(),
            all == cards@ + board@,
            all_cards@ == all.take(cards@.len() + j).map_values(|c: ((char, char), i64)| c.1),
        decreases board@.len() - j,
    {
        proof {
            assert(all.take(cards@.len() + j + 1) =~= all.take(cards@.len() + j).push(
                all[cards@.len() + j],
            ));
        }
        all_cards.push(board[j].1);
        j = j + 1;
    }
    proof {
        assert(all.take((cards@.len() + board@.len()) as int) =~= all);
        assert(all_cards@ =~= card_values(cards@, board@));
    }
    all_cards
}

/// The rank of a player's cards together with the board: 1 is the best hand,
/// 7462 the worst. Five, six and seven cards in all are evaluated.
pub fn evaluate(
    cards: &[((char, char), i64)],
    board: &[((char, char), i64)],
    flush_lookup: &HashMap<i64, i64>,
    unsuited_lookup: &HashMap<i64, i64>,
) -> (r: i64)
    requires
        hand_defined(card_values(cards@, board@), flush_lookup@, unsuited_lookup@),
    ensures
        r == hand_rank(card_values(cards@, board@), flush_lookup@, unsuited_lookup@),
{
    let all_cards = collect_values(cards, board);
    if all_cards.len() == 5 {
        _five(all_cards.as_slice(), flush_lookup, unsuited_lookup)
    } else if all_cards.len() == 6 {
        _six(all_cards.as_slice(), flush_lookup, unsuited_lookup)
    } else {
        _seven(all_cards.as_slice(), flush_lookup, unsuited_lookup)
    }
}

/// The pattern of a card of rank `rank` (deuce 0, ace 12) and suit `suit`
/// (one bit of four): the rank's bit from bit 16 on, the suit from bit 12,
/// the rank from bit 8 and the rank's prime in the low byte.
pub open spec fn card_pattern(rank: i64, suit: i64) -> i64 {
    ((1i64 << rank) << 16i64) | (suit << 12i64) | (rank << 8i64) | prime(rank as int)
}

/// A card from its rank and suit characters, as named in the two tables:
/// the characters together with the card's pattern.
pub fn card(
    arg: (char, char),
    char_rank_to_int_rank: &HashMap<u32, i64>,
    char_suit_to_int_suit: &HashMap<u32, i64>,
) -> (r: ((char, char), i64))
    requires
        char_rank_to_int_rank@.contains_key(arg.0 as u32),
        char_suit_to_int_suit@.contains_key(arg.1 as u32),
        0 <= char_rank_to_int_rank@[arg.0 as u32] < 13,
    ensures
        r.0 == arg,
        r.1 == card_pattern(char_rank_to_int_rank@[arg.0 as u32], char_suit_to_int_suit@[arg.1 as u32]),
{
    let (rank_char, suit_char) = arg;
    let rank_int = *char_rank_to_int_rank.get(&(rank_char as u32)).unwrap();
    let suit_int = *char_suit_to_int_suit.get(&(suit_char as u32)).unwrap();
    proof {
        lemma_primes_table();
    }
    let rank_prime = PRIMES[rank_int as usize];
    let bitrank = 1i64 << rank_int << 16;
    let suit = suit_int << 12;
    let rank = rank_int << 8;
    (arg, bitrank | suit | rank | rank_prime)
}


/// The category bound under which the hand rank `hr` falls; ranks below zero
/// fall under four of a kind, as the comparisons are made in this order.
pub open spec fn class_key(hr: i64) -> i64 {
    if 0 <= hr <= MAX_STRAIGHT_FLUSH {
        MAX_STRAIGHT_FLUSH
    } else if hr <= MAX_FOUR_OF_A_KIND {
        MAX_FOUR_OF_A_KIND
    } else if hr <= MAX_FULL_HOUSE {
        MAX_FULL_HOUSE
    } else if hr <= MAX_FLUSH {
        MAX_FLUSH
    } else if hr <= MAX_STRAIGHT {
        MAX_STRAIGHT
    } else if hr <= MAX_THREE_OF_A_KIND {
        MAX_THREE_OF_A_KIND
    } else if hr <= MAX_TWO_PAIR {
        MAX_TWO_PAIR
    } else if hr <= MAX_PAIR {
        MAX_PAIR
    } else {
        MAX_HIGH_CARD
    }
}

/// The class of a hand rank (1 straight flush, ..., 9 high card), looked up
/// by the bound of its category. Ranks above the worst high card have no class.
pub fn get_rank_class(hr: i64, max_to_rank_class: &HashMap<i64, usize>) -> (r: usize)
    requires
        hr <= MAX_HIGH_CARD,
        max_to_rank_class@.contains_key(class_key(hr)),
    ensures
        r == max_to_rank_class@[class_key(hr)],
{
    let key = if 0 <= hr && hr <= MAX_STRAIGHT_FLUSH {
        MAX_STRAIGHT_FLUSH
    } else if hr <= MAX_FOUR_OF_A_KIND {
        MAX_FOUR_OF_A_KIND
    } else if hr <= MAX_FULL_HOUSE {
        MAX_FULL_HOUSE
    } else if hr <= MAX_FLUSH {
        MAX_FLUSH
    } else if hr <= MAX_STRAIGHT {
        MAX_STRAIGHT
    } else if hr <= MAX_THREE_OF_A_KIND {
        MAX_THREE_OF_A_KIND
    } else if hr <= MAX_TWO_PAIR {
        MAX_TWO_PAIR
    } else if hr <= MAX_PAIR {
        MAX_PAIR
    } else {
        MAX_HIGH_CARD
    };
    *max_to_rank_class.get(&key).unwrap()
}

/// `100 * hr / 7462` rounded to the nearest integer (never a tie: 3731 does
/// not divide `hr * 100` an odd number of halves), held to `0..=255`.
pub open spec fn rank_percentage(hr: i64) -> int {
    let n = (200 * hr + MAX_HIGH_CARD) / (2 * MAX_HIGH_CARD);
    if n < 0 {
        0
    } else if n > 255 {
        255
    } else {
        n
    }
}

/// The hand rank as a percentage of the worst rank, rounded, as a byte.
pub fn get_five_card_rank_percentage(hand_rank: i64) -> (p: u8)
    ensures
        p == rank_percentage(hand_rank),
{
    let ghost n = (200 * hand_rank + MAX_HIGH_CARD) / (2 * MAX_HIGH_CARD);
    if hand_rank < 0 {
        assert(n <= 0) by (nonlinear_arith)
            requires
                hand_rank < 0,
                n == (200 * hand_rank + 7462) / 14924,
        ;
        0
    } else if hand_rank >= 18991 {
        assert(n >= 255) by (nonlinear_arith)
            requires
                hand_rank >= 18991,
                n == (200 * hand_rank + 7462) / 14924,
        ;
        255
    } else {
        assert(0 <= n <= 255) by (nonlinear_arith)
            requires
                0 <= hand_rank < 18991,
                n == (200 * hand_rank + 7462) / 14924,
        ;
        ((200 * hand_rank + MAX_HIGH_CARD) / (2 * MAX_HIGH_CARD)) as u8
    }
}

/// One rank worse than the worst hand: the best rank before any player.
pub const UNRANKED: i64 = 7463;

/// The players who lead after one stage: every index whose rank is the best
/// (smallest) of `ranks`, in increasing order. The search starts one rank
/// below the worst hand, so ranks above 7462 never lead.
pub open spec fn leaders(ranks: Seq<i64>, w: Seq<usize>) -> bool {
    &&& forall|k: int| 0 <= k < w.len() ==> (#[trigger] w[k]) < ranks.len() && ranks[w[k] as int]
        == min_fold(ranks, UNRANKED)
    &&& forall|j: int, k: int| 0 <= j < k < w.len() ==> w[j] < w[k]
    &&& forall|p: int| 0 <= p < ranks.len() && #[trigger] ranks[p] == min_fold(ranks, UNRANKED)
        ==> w.contains(p as usize)
}

/// The smallest of `m` and the items of `s` is at most `m` and at most each
/// item, and is `m` or one of the items.
pub proof fn lemma_min_fold(s: Seq<i64>, m: i64)
    ensures
        min_fold(s, m) <= m,
        forall|i: int| 0 <= i < s.len() ==> min_fold(s, m) <= #[trigger] s[i],
        min_fold(s, m) == m || exists|i: int| 0 <= i < s.len() && s[i] == min_fold(s, m),
    decreases s.len(),
{
    if s.len() > 0 {
        lemma_min_fold(s.drop_last(), m);
        assert forall|i: int| 0 <= i < s.len() implies min_fold(s, m) <= #[trigger] s[i] by {
            if i < s.len() - 1 {
                assert(s[i] == s.drop_last()[i]);
            }
        }
        if min_fold(s, m) != m && min_fold(s, m) != s.last() {
            let i = choose|i: int| 0 <= i < s.drop_last().len() && s.drop_last()[i] == min_fold(s.drop_last(), m);
            assert(s[i] == min_fold(s, m));
        }
    }
}

/// The leading players of one stage, from the ranks of all players: a rank
/// equal to the best so far joins the leaders, a better one replaces them.
pub fn stage_winners(ranks: &[i64]) -> (winners: Vec<usize>)
    ensures
        leaders(ranks@, winners@),
{
    let mut best_rank: i64 = UNRANKED;
    let mut winners: Vec<usize> = Vec::new();
    let mut player: usize = 0;
    while player < ranks.len()
        invariant
            player <= ranks@.len(),
            best_rank == min_fold(ranks@.take(player as int), UNRANKED),
            leaders(ranks@.take(player as int), winners@),
        decreases ranks@.len() - player,
    {
        let rank = ranks[player];
        let ghost prev = ranks@.take(player as int);
        let ghost next = ranks@.take(player + 1);
        proof {
            assert(next.drop_last() =~= prev);
            assert(next.last() == rank);
            lemma_min_fold(prev, UNRANKED);
        }
        if rank == best_rank {
            let ghost old_w = winners@;
            winners.push(player);
            proof {
                assert forall|p: int| 0 <= p < next.len() && #[trigger] next[p] == min_fold(next, UNRANKED)
                    implies winners@.contains(p as usize) by {
                    if p < prev.len() {
                        assert(prev[p] == next[p]);
                        assert(old_w.contains(p as usize));
                        let w = choose|w: int| 0 <= w < old_w.len() && old_w[w] == p as usize;
                        assert(winners@[w] == p as usize);
                    } else {
                        assert(winners@[winners@.len() - 1] == p as usize);
                    }
                }
            }
        } else if rank < best_rank {
            winners = Vec::new();
            winners.push(player);
            best_rank = rank;
            proof {
                assert forall|p: int| 0 <= p < next.len() && #[trigger] next[p] == min_fold(next, UNRANKED)
                    implies winners@.contains(p as usize) by {
                    if p < prev.len() {
                        assert(prev[p] == next[p]);
                        assert(false);
                    } else {
                        assert(winners@[0] == p as usize);
                    }
                }
            }
        } else {
            proof {
                assert forall|p: int| 0 <= p < next.len() && #[trigger] next[p] == min_fold(next, UNRANKED)
                    implies winners@.contains(p as usize) by {
                    assert(prev[p] == next[p]);
                }
                assert forall|k: int| 0 <= k < winners@.len() implies (#[trigger] winners@[k]) < next.len()
                    && next[winners@[k] as int] == min_fold(next, UNRANKED) by {
                    assert(prev[winners@[k] as int] == next[winners@[k] as int]);
                }
            }
        }
        player = player + 1;
    }
    assert(ranks@.take(ranks@.len() as int) =~= ranks@);
    winners
}


/// The product of the low bytes of the cards, or `None` where a step of it
/// would overflow.
fn hand_product_checked(card_ints: &[i64]) -> (r: Option<i64>)
    ensures
        r == (if hand_product_fits(card_ints@) {
            Some(hand_product(card_ints@) as i64)
        } else {
            None::<i64>
        }),
{
    let mut product: i64 = 1;
    let mut i: usize = 0;
    while i < card_ints.len()
        invariant
            i <= card_ints@.len(),
            product == hand_product(card_ints@.take(i as int)),
            forall|k: int| 0 <= k <= i ==> #[trigger] hand_product(card_ints@.take(i as int).take(k)) <= i64::MAX,
        decreases card_ints@.len() - i,
    {
        let c = card_ints[i];
        proof {
            assert(card_ints@.take(i + 1).drop_last() =~= card_ints@.take(i as int));
            lemma_hand_product_nonneg(card_ints@.take(i as int));
            lemma_low_byte(c);
        }
        match product.checked_mul(c & 0xFF) {
            Some(p) => {
                proof {
                    let next = card_ints@.take(i + 1);
                    assert forall|k: int| 0 <= k <= i + 1 implies #[trigger] hand_product(next.take(k)) <= i64::MAX by {
                        if k <= i {
                            assert(next.take(k) =~= card_ints@.take(i as int).take(k));
                        } else {
                            assert(next.take(k) =~= next);
                        }
                    }
                }
                product = p;
            },
            None => {
                proof {
                    assert(card_ints@.take(i + 1).len() == i + 1);
                    assert(!hand_product_fits(card_ints@)) by {
                        assert(hand_product(card_ints@.take(i + 1)) > i64::MAX);
                    }
                }
                return None;
            },
        }
        i = i + 1;
    }
    proof {
        assert(card_ints@.take(card_ints@.len() as int) =~= card_ints@);
        assert forall|k: int| 0 <= k <= card_ints@.len() implies #[trigger] hand_product(card_ints@.take(k)) <= i64::MAX by {
            assert(card_ints@.take(card_ints@.len() as int).take(k) =~= card_ints@.take(k));
        }
    }
    Some(product)
}

/// Whether the tables hold the five-card hand `cards`.
fn five_known(cards: &[i64], flush_lookup: &HashMap<i64, i64>, unsuited_lookup: &HashMap<i64, i64>) -> (b: bool)
    requires
        cards@.len() == 5,
    ensures
        b == five_defined(cards@, flush_lookup@, unsuited_lookup@),
{
    if (cards[0] & cards[1] & cards[2] & cards[3] & cards[4] & 0xF000) != 0 {
        let hand_or = (cards[0] | cards[1] | cards[2] | cards[3] | cards[4]) >> 16;
        let prime = prime_product_from_rankbits(hand_or);
        proof {
            lemma_rankbits_product_bounds(hand_or, 13);
            lemma_primorial_13();
        }
        flush_lookup.contains_key(&prime)
    } else {
        match hand_product_checked(cards) {
            Some(prime) => unsuited_lookup.contains_key(&prime),
            None => false,
        }
    }
}

/// Whether `evaluate` can rank the player's cards with this board: five,
/// six or seven cards in all, each of their five-card hands in the tables.
pub fn hand_is_known(
    cards: &[((char, char), i64)],
    board: &[((char, char), i64)],
    flush_lookup: &HashMap<i64, i64>,
    unsuited_lookup: &HashMap<i64, i64>,
) -> (b: bool)
    ensures
        b == hand_defined(card_values(cards@, board@), flush_lookup@, unsuited_lookup@),
{
    let all = collect_values(cards, board);
    if all.len() == 5 {
        five_known(all.as_slice(), flush_lookup, unsuited_lookup)
    } else if all.len() < 6 || all.len() > 7 {
        false
    } else {
        let all5cardcombos = combinations(&all, 5);
        proof {
            lemma_combos_props(all@, 5);
        }
        let mut i: usize = 0;
        while i < all5cardcombos.len()
            invariant
                i <= all5cardcombos@.len(),
                all@ == card_values(cards@, board@),
                6 <= all@.len() <= 7,
                all5cardcombos@.map_values(|c: Vec<i64>| c@) == combos(all@, 5),
                forall|k: int| 0 <= k < combos(all@, 5).len() ==> (#[trigger] combos(all@, 5)[k]).len() == 5,
                forall|k: int| 0 <= k < i ==> five_defined(#[trigger] combos(all@, 5)[k], flush_lookup@, unsuited_lookup@),
            decreases all5cardcombos@.len() - i,
        {
            let combo = &all5cardcombos[i];
            proof {
                assert(all5cardcombos@.map_values(|c: Vec<i64>| c@)[i as int] == combo@);
            }
            if !five_known(combo.as_slice(), flush_lookup, unsuited_lookup) {
                proof {
                    assert(!five_defined(combos(all@, 5)[i as int], flush_lookup@, unsuited_lookup@));
                    assert(!combos_defined(all@, flush_lookup@, unsuited_lookup@));
                }
                return false;
            }
            i = i + 1;
        }
        true
    }
}


/// Rank characters, deuce to ace, by their code point, with their ranks.
pub open spec fn rank_chars() -> Map<u32, i64> {
    map![
        '2' as u32 => 0i64, '3' as u32 => 1i64, '4' as u32 => 2i64, '5' as u32 => 3i64,
        '6' as u32 => 4i64, '7' as u32 => 5i64, '8' as u32 => 6i64, '9' as u32 => 7i64,
        'T' as u32 => 8i64, 'J' as u32 => 9i64, 'Q' as u32 => 10i64, 'K' as u32 => 11i64,
        'A' as u32 => 12i64
    ]
}

/// Suit characters by their code point, with their suit bits.
pub open spec fn suit_chars() -> Map<u32, i64> {
    map!['s' as u32 => 1i64, 'h' as u32 => 2i64, 'd' as u32 => 4i64, 'c' as u32 => 8i64]
}

/// The thirteen rank characters name thirteen different ranks, from 0 for
/// the deuce up to 12 for the ace, in the order `23456789TJQKA`.
pub proof fn lemma_rank_chars_ordered()
    ensures
        forall|i: int, j: int|
            #![trigger "23456789TJQKA"@[i], "23456789TJQKA"@[j]]
            0 <= i < j < 13 ==> rank_chars().contains_key("23456789TJQKA"@[i] as u32) && rank_chars().contains_key(
                "23456789TJQKA"@[j] as u32,
            ) && rank_chars()["23456789TJQKA"@[i] as u32] < rank_chars()["23456789TJQKA"@[j] as u32],
        forall|i: int| 0 <= i < 13 ==> rank_chars()[#[trigger] "23456789TJQKA"@[i] as u32] == i,
{
    reveal_strlit("23456789TJQKA");
    let s = "23456789TJQKA"@;
    assert forall|i: int| 0 <= i < 13 implies rank_chars().contains_key(#[trigger] s[i] as u32) && rank_chars()[s[i] as u32] == i by {
        if i == 0 {} else if i == 1 {} else if i == 2 {} else if i == 3 {} else if i == 4 {} else if i == 5 {}
        else if i == 6 {} else if i == 7 {} else if i == 8 {} else if i == 9 {} else if i == 10 {} else if i == 11 {}
        else {}
    }
}

/// The four suits are four different single bits: two different suit
/// characters share no bit.
pub proof fn lemma_suits_distinct_bits(x: u32, y: u32)
    requires
        suit_chars().contains_key(x),
        suit_chars().contains_key(y),
    ensures
        suit_chars()[x] == 1 || suit_chars()[x] == 2 || suit_chars()[x] == 4 || suit_chars()[x] == 8,
        x != y ==> suit_chars()[x] & suit_chars()[y] == 0,
{
    let a = suit_chars()[x];
    let b = suit_chars()[y];
    assert(x == 's' as u32 || x == 'h' as u32 || x == 'd' as u32 || x == 'c' as u32);
    assert(y == 's' as u32 || y == 'h' as u32 || y == 'd' as u32 || y == 'c' as u32);
    assert(a == 1 || a == 2 || a == 4 || a == 8);
    assert(b == 1 || b == 2 || b == 4 || b == 8);
    if x != y {
        assert(a != b);
        assert(a & b == 0) by (bit_vector)
            requires
                a == 1i64 || a == 2i64 || a == 4i64 || a == 8i64,
                b == 1i64 || b == 2i64 || b == 4i64 || b == 8i64,
                a != b,
        ;
    }
}

/// The names of the nine hand classes.
pub open spec fn class_names() -> Map<usize, &'static str> {
    map![
        1usize => "Straight Flush", 2usize => "Four of a Kind", 3usize => "Full House",
        4usize => "Flush", 5usize => "Straight", 6usize => "Three of a Kind",
        7usize => "Two Pair", 8usize => "Pair", 9usize => "High Card"
    ]
}

/// Each category bound with its class number.
pub open spec fn class_of_bound() -> Map<i64, usize> {
    map![
        MAX_STRAIGHT_FLUSH => 1usize, MAX_FOUR_OF_A_KIND => 2usize, MAX_FULL_HOUSE => 3usize,
        MAX_FLUSH => 4usize, MAX_STRAIGHT => 5usize, MAX_THREE_OF_A_KIND => 6usize,
        MAX_TWO_PAIR => 7usize, MAX_PAIR => 8usize, MAX_HIGH_CARD => 9usize
    ]
}

/// The flush table: straight flushes from rank 1, then the other flushes
/// after the worst full house.
pub open spec fn flush_table() -> Map<i64, i64> {
    insert_ranked(
        insert_ranked(Map::empty(), prime_products(straight_flush_patterns()), 1),
        prime_products(flush_patterns()),
        MAX_FULL_HOUSE + 1,
    )
}

/// The table of hands that are not flushes: straights and high cards from
/// the five-rank patterns, then the hands with repeated ranks.
pub open spec fn unsuited_table() -> Map<i64, i64> {
    insert_ranked(
        insert_ranked(
            insert_ranked(
                insert_ranked(
                    insert_ranked(
                        insert_ranked(
                            insert_ranked(Map::empty(), prime_products(straight_flush_patterns()), MAX_FLUSH + 1),
                            prime_products(flush_patterns()),
                            MAX_PAIR + 1,
                        ),
                        four_of_a_kind_products(),
                        MAX_STRAIGHT_FLUSH + 1,
                    ),
                    full_house_products(),
                    MAX_FOUR_OF_A_KIND + 1,
                ),
                three_of_a_kind_products(),
                MAX_STRAIGHT + 1,
            ),
            two_pair_products(),
            MAX_THREE_OF_A_KIND + 1,
        ),
        pair_products(),
        MAX_TWO_PAIR + 1,
    )
}

/// The evaluator's tables: how to read cards, how to name hand classes, and
/// the two lookup tables of five-card hands.
pub struct Tables {
    pub char_rank_to_int_rank: HashMap<u32, i64>,
    pub char_suit_to_int_suit: HashMap<u32, i64>,
    pub rank_class_to_string: HashMap<usize, &'static str>,
    pub max_to_rank_class: HashMap<i64, usize>,
    pub flush_lookup: HashMap<i64, i64>,
    pub unsuited_lookup: HashMap<i64, i64>,
}

impl Tables {
    /// The tables are the ones `init` builds.
    pub open spec fn wf(&self) -> bool {
        &&& self.char_rank_to_int_rank@ == rank_chars()
        &&& self.char_suit_to_int_suit@ == suit_chars()
        &&& self.rank_class_to_string@ == class_names()
        &&& self.max_to_rank_class@ == class_of_bound()
        &&& self.flush_lookup@ == flush_table()
        &&& self.unsuited_lookup@ == unsuited_table()
    }
}

/// Builds the tables.
pub fn init() -> (t: Tables)
    ensures
        t.wf(),
{
    let mut char_rank_to_int_rank: HashMap<u32, i64> = HashMap::new();
    char_rank_to_int_rank.insert('2' as u32, 0);
    char_rank_to_int_rank.insert('3' as u32, 1);
    char_rank_to_int_rank.insert('4' as u32, 2);
    char_rank_to_int_rank.insert('5' as u32, 3);
    char_rank_to_int_rank.insert('6' as u32, 4);
    char_rank_to_int_rank.insert('7' as u32, 5);
    char_rank_to_int_rank.insert('8' as u32, 6);
    char_rank_to_int_rank.insert('9' as u32, 7);
    char_rank_to_int_rank.insert('T' as u32, 8);
    char_rank_to_int_rank.insert('J' as u32, 9);
    char_rank_to_int_rank.insert('Q' as u32, 10);
    char_rank_to_int_rank.insert('K' as u32, 11);
    char_rank_to_int_rank.insert('A' as u32, 12);
    let mut char_suit_to_int_suit: HashMap<u32, i64> = HashMap::new();
    char_suit_to_int_suit.insert('s' as u32, 1);
    char_suit_to_int_suit.insert('h' as u32, 2);
    char_suit_to_int_suit.insert('d' as u32, 4);
    char_suit_to_int_suit.insert('c' as u32, 8);
    let mut rank_class_to_string: HashMap<usize, &'static str> = HashMap::new();
    rank_class_to_string.insert(1, "Straight Flush");
    rank_class_to_string.insert(2, "Four of a Kind");
    rank_class_to_string.insert(3, "Full House");
    rank_class_to_string.insert(4, "Flush");
    rank_class_to_string.insert(5, "Straight");
    rank_class_to_string.insert(6, "Three of a Kind");
    rank_class_to_string.insert(7, "Two Pair");
    rank_class_to_string.insert(8, "Pair");
    rank_class_to_string.insert(9, "High Card");
    let mut max_to_rank_class: HashMap<i64, usize> = HashMap::new();
    max_to_rank_class.insert(MAX_STRAIGHT_FLUSH, 1);
    max_to_rank_class.insert(MAX_FOUR_OF_A_KIND, 2);
    max_to_rank_class.insert(MAX_FULL_HOUSE, 3);
    max_to_rank_class.insert(MAX_FLUSH, 4);
    max_to_rank_class.insert(MAX_STRAIGHT, 5);
    max_to_rank_class.insert(MAX_THREE_OF_A_KIND, 6);
    max_to_rank_class.insert(MAX_TWO_PAIR, 7);
    max_to_rank_class.insert(MAX_PAIR, 8);
    max_to_rank_class.insert(MAX_HIGH_CARD, 9);
    let mut flush_lookup: HashMap<i64, i64> = HashMap::new();
    let mut unsuited_lookup: HashMap<i64, i64> = HashMap::new();
    flushes(&mut flush_lookup, &mut unsuited_lookup);
    multiples(&mut unsuited_lookup);
    proof {
        assert(char_rank_to_int_rank@ =~= rank_chars());
        assert(char_suit_to_int_suit@ =~= suit_chars());
        assert(rank_class_to_string@ =~= class_names());
        assert(max_to_rank_class@ =~= class_of_bound());
    }
    Tables {
        char_rank_to_int_rank,
        char_suit_to_int_suit,
        rank_class_to_string,
        max_to_rank_class,
        flush_lookup,
        unsuited_lookup,
    }
}


/// Every rank stored in `m` is a rank of a hand: from 1 to 7462.
pub open spec fn ranks_bounded(m: Map<i64, i64>) -> bool {
    forall|k: i64| m.contains_key(k) ==> 1 <= #[trigger] m[k] <= MAX_HIGH_CARD
}

/// One player at one stage: the rank of the best hand so far, its class and
/// how good it is in percent (100 for the royal flush).
pub struct PlayerStage {
    pub rank: i64,
    pub rank_class: usize,
    pub percentage: u8,
}

/// One stage of a deal: each player's standing and the leading players.
pub struct StageSummary {
    pub players: Vec<PlayerStage>,
    pub winners: Vec<usize>,
}

/// The board cards dealt by stage `i`: the flop (three cards), the turn (four)
/// and the river (five).
pub open spec fn stage_board(board: Seq<((char, char), i64)>, i: int) -> Seq<((char, char), i64)> {
    board.take(i + 3)
}

/// The rank of player `p` at stage `i`.
pub open spec fn stage_rank(
    board: Seq<((char, char), i64)>,
    hands: Seq<&[((char, char), i64)]>,
    i: int,
    p: int,
    flush: Map<i64, i64>,
    unsuited: Map<i64, i64>,
) -> i64 {
    hand_rank(card_values(hands[p]@, stage_board(board, i)), flush, unsuited)
}

/// The ranks of all players at stage `i`.
pub open spec fn stage_ranks(
    board: Seq<((char, char), i64)>,
    hands: Seq<&[((char, char), i64)]>,
    i: int,
    flush: Map<i64, i64>,
    unsuited: Map<i64, i64>,
) -> Seq<i64> {
    Seq::new(hands.len(), |p: int| stage_rank(board, hands, i, p, flush, unsuited))
}

/// The first `n` cards of the board.
fn board_prefix(board: &[((char, char), i64)], n: usize) -> (v: Vec<((char, char), i64)>)
    requires
        n <= board@.len(),
    ensures
        v@ == board@.take(n as int),
{
    let mut v: Vec<((char, char), i64)> = Vec::new();
    let mut j: usize = 0;
    while j < n
        invariant
            j <= n <= board@.len(),
            v@ == board@.take(j as int),
        decreases n - j,
    {
        v.push(board[j]);
        assert(board@.take(j + 1) =~= board@.take(j as int).push(board@[j as int]));
        j = j + 1;
    }
    v
}

proof fn lemma_rank_bounded(c: Seq<i64>, flush: Map<i64, i64>, unsuited: Map<i64, i64>)
    requires
        hand_defined(c, flush, unsuited),
        ranks_bounded(flush),
        ranks_bounded(unsuited),
    ensures
        hand_rank(c, flush, unsuited) <= MAX_HIGH_CARD,
        rank_percentage(hand_rank(c, flush, unsuited)) <= 100,
{
    if c.len() != 5 {
        lemma_min_fold(combo_ranks(c, flush, unsuited), MAX_HIGH_CARD);
    }
    let r = hand_rank(c, flush, unsuited);
    let n = (200 * r + MAX_HIGH_CARD) / (2 * MAX_HIGH_CARD);
    assert(n <= 100) by (nonlinear_arith)
        requires
            r <= 7462,
            n == (200 * r + 7462) / 14924,
    ;
}

/// The course of a deal stage by stage (flop, turn, river): at each stage,
/// each player's rank with the board so far, its class and percentage, and
/// the players in the lead.
pub fn hand_summary(board: &[((char, char), i64)], hands: &[&[((char, char), i64)]], tables: &Tables) -> (r: Vec<StageSummary>)
    requires
        tables.wf(),
        ranks_bounded(tables.flush_lookup@),
        ranks_bounded(tables.unsuited_lookup@),
        board@.len() == 5,
        hands@.len() >= 1,
        forall|p: int| 0 <= p < hands@.len() ==> (#[trigger] hands@[p])@.len() == 2,
        forall|i: int, p: int|
            0 <= i < 3 && 0 <= p < hands@.len() ==> hand_defined(
                #[trigger] card_values(hands@[p]@, stage_board(board@, i)),
                tables.flush_lookup@,
                tables.unsuited_lookup@,
            ),
    ensures
        r@.len() == 3,
        forall|i: int| 0 <= i < 3 ==> (#[trigger] r@[i]).players@.len() == hands@.len(),
        forall|i: int, p: int| 0 <= i < 3 && 0 <= p < hands@.len() ==> {
            let s = #[trigger] r@[i].players@[p];
            let rank = stage_rank(board@, hands@, i, p, tables.flush_lookup@, tables.unsuited_lookup@);
            &&& s.rank == rank
            &&& s.rank_class == class_of_bound()[class_key(rank)]
            &&& s.percentage == 100 - rank_percentage(rank)
        },
        forall|i: int| 0 <= i < 3 ==> leaders(
            stage_ranks(board@, hands@, i, tables.flush_lookup@, tables.unsuited_lookup@),
            (#[trigger] r@[i]).winners@,
        ),
{
    let ghost flush = tables.flush_lookup@;
    let ghost unsuited = tables.unsuited_lookup@;
    let mut stages: Vec<StageSummary> = Vec::new();
    let mut i: usize = 0;
    while i < 3
        invariant
            i <= 3,
            tables.wf(),
            flush == tables.flush_lookup@,
            unsuited == tables.unsuited_lookup@,
            ranks_bounded(flush),
            ranks_bounded(unsuited),
            board@.len() == 5,
            forall|i: int, p: int|
                0 <= i < 3 && 0 <= p < hands@.len() ==> hand_defined(
                    #[trigger] card_values(hands@[p]@, stage_board(board@, i)),
                    flush,
                    unsuited,
                ),
            stages@.len() == i,
            forall|k: int| 0 <= k < i ==> (#[trigger] stages@[k]).players@.len() == hands@.len(),
            forall|k: int, p: int| 0 <= k < i && 0 <= p < hands@.len() ==> {
                let s = #[trigger] stages@[k].players@[p];
                let rank = stage_rank(board@, hands@, k, p, flush, unsuited);
                &&& s.rank == rank
                &&& s.rank_class == class_of_bound()[class_key(rank)]
                &&& s.percentage == 100 - rank_percentage(rank)
            },
            forall|k: int| 0 <= k < i ==> leaders(
                stage_ranks(board@, hands@, k, flush, unsuited),
                (#[trigger] stages@[k]).winners@,
            ),
        decreases 3 - i,
    {
        let seen = board_prefix(board, i + 3);
        let mut players: Vec<PlayerStage> = Vec::new();
        let mut ranks: Vec<i64> = Vec::new();
        let mut p: usize = 0;
        while p < hands.len()
            invariant
                i < 3,
                p <= hands@.len(),
                tables.wf(),
                flush == tables.flush_lookup@,
                unsuited == tables.unsuited_lookup@,
                ranks_bounded(flush),
                ranks_bounded(unsuited),
                seen@ == stage_board(board@, i as int),
                forall|i: int, p: int|
                    0 <= i < 3 && 0 <= p < hands@.len() ==> hand_defined(
                        #[trigger] card_values(hands@[p]@, stage_board(board@, i)),
                        flush,
                        unsuited,
                    ),
                players@.len() == p,
                ranks@.len() == p,
                forall|q: int| 0 <= q < p ==> #[trigger] ranks@[q] == stage_rank(board@, hands@, i as int, q, flush, unsuited),
                forall|q: int| 0 <= q < p ==> {
                    let s = #[trigger] players@[q];
                    let rank = stage_rank(board@, hands@, i as int, q, flush, unsuited);
                    &&& s.rank == rank
                    &&& s.rank_class == class_of_bound()[class_key(rank)]
                    &&& s.percentage == 100 - rank_percentage(rank)
                },
            decreases hands@.len() - p,
        {
            let hand = hands[p];
            proof {
                assert(hand_defined(card_values(hands@[p as int]@, stage_board(board@, i as int)), flush, unsuited));
                lemma_rank_bounded(card_values(hand@, seen@), flush, unsuited);
            }
            let rank = evaluate(hand, seen.as_slice(), &tables.flush_lookup, &tables.unsuited_lookup);
            let rank_class = get_rank_class(rank, &tables.max_to_rank_class);
            let percentage = 100 - get_five_card_rank_percentage(rank);
            players.push(PlayerStage { rank, rank_class, percentage });
            ranks.push(rank);
            p = p + 1;
        }
        let winners = stage_winners(ranks.as_slice());
        proof {
            assert(ranks@ =~= stage_ranks(board@, hands@, i as int, flush, unsuited));
        }
        stages.push(StageSummary { players, winners });
        i = i + 1;
    }
    stages
}

/// The cards `c` turned by one: the first card moved last.
pub open spec fn turned(c: Seq<i64>) -> Seq<i64> {
    c.drop_first().push(c[0])
}

proof fn lemma_five_bits_turn(a: i64, b: i64, c: i64, d: i64, e: i64)
    ensures
        a & b & c & d & e & 0xF000 == b & c & d & e & a & 0xF000,
        a | b | c | d | e == b | c | d | e | a,
{
    assert(a & b & c & d & e & 0xF000 == b & c & d & e & a & 0xF000) by (bit_vector);
    assert(a | b | c | d | e == b | c | d | e | a) by (bit_vector);
}

proof fn lemma_hand_product_five(c: Seq<i64>)
    requires
        c.len() == 5,
    ensures
        hand_product(c) == low_byte(c[0]) * low_byte(c[1]) * low_byte(c[2]) * low_byte(c[3]) * low_byte(c[4]),
{
    reveal_with_fuel(hand_product, 6);
    assert(c.drop_last().drop_last().drop_last().drop_last().drop_last().len() == 0);
    assert(c.drop_last().drop_last().drop_last().drop_last().last() == c[0]);
    assert(c.drop_last().drop_last().drop_last().last() == c[1]);
    assert(c.drop_last().drop_last().last() == c[2]);
    assert(c.drop_last().last() == c[3]);
}

/// Turning five cards does not change their rank.
proof fn lemma_five_rank_turn(c: Seq<i64>, flush: Map<i64, i64>, unsuited: Map<i64, i64>)
    requires
        c.len() == 5,
    ensures
        five_rank(turned(c), flush, unsuited) == five_rank(c, flush, unsuited),
{
    let t = turned(c);
    assert(t[0] == c[1] && t[1] == c[2] && t[2] == c[3] && t[3] == c[4] && t[4] == c[0]);
    lemma_five_bits_turn(c[0], c[1], c[2], c[3], c[4]);
    lemma_hand_product_five(c);
    lemma_hand_product_five(t);
    let l0: int = low_byte(c[0]);
    let l1: int = low_byte(c[1]);
    let l2: int = low_byte(c[2]);
    let l3: int = low_byte(c[3]);
    let l4: int = low_byte(c[4]);
    assert(l0 * l1 * l2 * l3 * l4 == l1 * l2 * l3 * l4 * l0) by (nonlinear_arith);
}

/// Five cards taken from the `n`-th on, then the first `n`, rank as the five do.
proof fn lemma_five_rank_rotate(c: Seq<i64>, n: int, flush: Map<i64, i64>, unsuited: Map<i64, i64>)
    requires
        c.len() == 5,
        0 <= n <= 5,
    ensures
        five_rank(c.skip(n) + c.take(n), flush, unsuited) == five_rank(c, flush, unsuited),
    decreases n,
{
    if n == 0 {
        assert(c.skip(0) + c.take(0) =~= c);
    } else {
        lemma_five_rank_rotate(c, n - 1, flush, unsuited);
        let d = c.skip(n - 1) + c.take(n - 1);
        lemma_five_rank_turn(d, flush, unsuited);
        assert(turned(d) =~= c.skip(n) + c.take(n));
    }
}

/// Whether `h` is made of items of `s` taken in their order.
pub open spec fn picked_from(h: Seq<i64>, s: Seq<i64>) -> bool
    decreases s.len(),
{
    if h.len() == 0 {
        true
    } else if s.len() == 0 {
        false
    } else {
        (h[0] == s[0] && picked_from(h.drop_first(), s.drop_first())) || picked_from(h, s.drop_first())
    }
}

proof fn lemma_combos_picked(s: Seq<i64>, k: nat, i: int)
    requires
        0 <= i < combos(s, k).len(),
    ensures
        picked_from(combos(s, k)[i], s),
        combos(s, k)[i].len() == k,
    decreases s.len(), k,
{
    lemma_combos_props(s, k);
    if k == 0 {
    } else if s.len() == 0 {
    } else {
        let t = s.drop_first();
        let first = combos(t, (k - 1) as nat).map_values(|c: Seq<i64>| seq![s[0]] + c);
        if i < first.len() {
            lemma_combos_picked(t, (k - 1) as nat, i);
            let h = combos(s, k)[i];
            assert(h == seq![s[0]] + combos(t, (k - 1) as nat)[i]);
            assert(h.drop_first() =~= combos(t, (k - 1) as nat)[i]);
        } else {
            lemma_combos_picked(t, k, i - first.len());
        }
    }
}

proof fn lemma_picked_in_combos(h: Seq<i64>, s: Seq<i64>)
    requires
        picked_from(h, s),
    ensures
        exists|i: int| 0 <= i < combos(s, h.len()).len() && #[trigger] combos(s, h.len())[i] == h,
    decreases s.len(),
{
    if h.len() == 0 {
        assert(combos(s, 0)[0] =~= h);
    } else {
        let t = s.drop_first();
        let k = h.len();
        let first = combos(t, (k - 1) as nat).map_values(|c: Seq<i64>| seq![s[0]] + c);
        if h[0] == s[0] && picked_from(h.drop_first(), t) {
            lemma_picked_in_combos(h.drop_first(), t);
            let j = choose|j: int| 0 <= j < combos(t, (k - 1) as nat).len() && #[trigger] combos(t, (k - 1) as nat)[j] == h.drop_first();
            assert(first[j] =~= h);
            assert(combos(s, k)[j] == h);
        } else {
            lemma_picked_in_combos(h, t);
            let j = choose|j: int| 0 <= j < combos(t, k).len() && #[trigger] combos(t, k)[j] == h;
            assert(combos(s, k)[first.len() + j] == h);
        }
    }
}

proof fn lemma_picked_after(h: Seq<i64>, a: Seq<i64>, b: Seq<i64>)
    requires
        picked_from(h, b),
    ensures
        picked_from(h, a + b),
    decreases a.len(),
{
    if a.len() > 0 {
        lemma_picked_after(h, a.drop_first(), b);
        assert((a + b).drop_first() =~= a.drop_first() + b);
    } else {
        assert(a + b =~= b);
    }
}

proof fn lemma_picked_join(x: Seq<i64>, y: Seq<i64>, a: Seq<i64>, b: Seq<i64>)
    requires
        picked_from(x, a),
        picked_from(y, b),
    ensures
        picked_from(x + y, a + b),
    decreases a.len(),
{
    if x.len() == 0 {
        assert(x + y =~= y);
        lemma_picked_after(y, a, b);
    } else {
        let a1 = a.drop_first();
        assert((a + b).drop_first() =~= a1 + b);
        if x[0] == a[0] && picked_from(x.drop_first(), a1) {
            lemma_picked_join(x.drop_first(), y, a1, b);
            assert((x + y).drop_first() =~= x.drop_first() + y);
        } else {
            lemma_picked_join(x, y, a1, b);
        }
    }
}

proof fn lemma_picked_split(h: Seq<i64>, a: Seq<i64>, b: Seq<i64>) -> (n: int)
    requires
        picked_from(h, a + b),
    ensures
        0 <= n <= h.len(),
        picked_from(h.take(n), a),
        picked_from(h.skip(n), b),
    decreases a.len(),
{
    if a.len() == 0 {
        assert(a + b =~= b);
        assert(h.skip(0) =~= h);
        assert(h.take(0).len() == 0);
        0
    } else if h.len() == 0 {
        assert(h.skip(0) =~= h);
        0
    } else {
        let a1 = a.drop_first();
        assert((a + b).drop_first() =~= a1 + b);
        if h[0] == a[0] && picked_from(h.drop_first(), a1 + b) {
            let m = lemma_picked_split(h.drop_first(), a1, b);
            assert(h.take(m + 1).drop_first() =~= h.drop_first().take(m));
            assert(h.skip(m + 1) =~= h.drop_first().skip(m));
            m + 1
        } else {
            let m = lemma_picked_split(h, a1, b);
            if m > 0 {
                assert(h.take(m).len() > 0);
            }
            m
        }
    }
}

/// Two sequences that hold the same values have the same smallest value.
proof fn lemma_min_fold_same_values(s: Seq<i64>, t: Seq<i64>, m: i64)
    requires
        forall|i: int| 0 <= i < s.len() ==> t.contains(#[trigger] s[i]),
        forall|j: int| 0 <= j < t.len() ==> s.contains(#[trigger] t[j]),
    ensures
        min_fold(s, m) == min_fold(t, m),
{
    lemma_min_fold(s, m);
    lemma_min_fold(t, m);
    if min_fold(s, m) != m {
        let i = choose|i: int| 0 <= i < s.len() && #[trigger] s[i] == min_fold(s, m);
        assert(t.contains(s[i]));
    }
    if min_fold(t, m) != m {
        let j = choose|j: int| 0 <= j < t.len() && #[trigger] t[j] == min_fold(t, m);
        assert(s.contains(t[j]));
    }
}

/// Each rank among the five-card hands of `a + b` is a rank among those of
/// `b + a`.
proof fn lemma_ranks_covered(a: Seq<i64>, b: Seq<i64>, flush: Map<i64, i64>, unsuited: Map<i64, i64>)
    ensures
        forall|i: int|
            0 <= i < combo_ranks(a + b, flush, unsuited).len() ==> combo_ranks(b + a, flush, unsuited).contains(
                #[trigger] combo_ranks(a + b, flush, unsuited)[i],
            ),
{
    assert forall|i: int| 0 <= i < combo_ranks(a + b, flush, unsuited).len() implies combo_ranks(
        b + a,
        flush,
        unsuited,
    ).contains(#[trigger] combo_ranks(a + b, flush, unsuited)[i]) by {
        let h = combos(a + b, 5)[i];
        lemma_combos_picked(a + b, 5, i);
        let n = lemma_picked_split(h, a, b);
        let x = h.take(n);
        let y = h.skip(n);
        lemma_picked_join(y, x, b, a);
        lemma_picked_in_combos(y + x, b + a);
        let j = choose|j: int| 0 <= j < combos(b + a, 5).len() && #[trigger] combos(b + a, 5)[j] == y + x;
        lemma_five_rank_rotate(h, n, flush, unsuited);
        assert(combo_ranks(b + a, flush, unsuited)[j] == five_rank(y + x, flush, unsuited));
        assert(combo_ranks(a + b, flush, unsuited)[i] == five_rank(h, flush, unsuited));
    }
}

/// How a player's cards and the board share the cards does not matter: the
/// rank of the cards with the board is the rank of the board with the cards.
pub proof fn lemma_split_does_not_matter(
    cards: Seq<((char, char), i64)>,
    board: Seq<((char, char), i64)>,
    flush: Map<i64, i64>,
    unsuited: Map<i64, i64>,
)
    ensures
        hand_rank(card_values(cards, board), flush, unsuited) == hand_rank(
            card_values(board, cards),
            flush,
            unsuited,
        ),
{
    let a = cards.map_values(|c: ((char, char), i64)| c.1);
    let b = board.map_values(|c: ((char, char), i64)| c.1);
    assert(card_values(cards, board) =~= a + b);
    assert(card_values(board, cards) =~= b + a);
    if a.len() + b.len() == 5 {
        let c = a + b;
        lemma_five_rank_rotate(c, a.len() as int, flush, unsuited);
        assert(c.skip(a.len() as int) + c.take(a.len() as int) =~= b + a);
    } else {
        lemma_ranks_covered(a, b, flush, unsuited);
        lemma_ranks_covered(b, a, flush, unsuited);
        lemma_min_fold_same_values(
            combo_ranks(a + b, flush, unsuited),
            combo_ranks(b + a, flush, unsuited),
            MAX_HIGH_CARD,
        );
    }
}

} // verus!
