//! The letters of a game: those in hand and those left to draw from.

use vstd::prelude::*;
use crate::random::gen_usize;

verus! {

/// The letters a fresh game starts with: the vowels.
pub open spec fn start_vowels() -> Seq<char> {
    seq!['A', 'E', 'U', 'I', 'O']
}

/// The letters drawn from, as the game spells its alphabet (with no `Z`, and
/// an `S` twice).
pub open spec fn letter_pool() -> Seq<char> {
    seq![
        'A', 'B', 'C', 'D', 'E', 'F', 'G', 'H', 'I', 'J', 'K', 'L', 'M', 'N', 'O', 'P', 'Q', 'R', 'S', 'T', 'U', 'V',
        'W', 'X', 'Y', 'S',
    ]
}

/// The letters of `s` that are not in `taken`, in order.
pub open spec fn without_letters(s: Seq<char>, taken: Seq<char>) -> Seq<char> {
    s.filter(|c: char| !taken.contains(c))
}

proof fn lemma_filter_without(s: Seq<char>, taken: Seq<char>, c: char)
    ensures
        without_letters(s, taken).filter(|x: char| x != c) == without_letters(s, taken.push(c)),
    decreases s.len(),
{
    reveal(Seq::filter);
    let p = |x: char| !taken.contains(x);
    let q = |x: char| x != c;
    let pq = |x: char| !taken.push(c).contains(x);
    if s.len() > 0 {
        lemma_filter_without(s.drop_last(), taken, c);
        let l = s.last();
        assert(pq(l) == (p(l) && q(l))) by {
            if taken.push(c).contains(l) {
                let i = choose|i: int| 0 <= i < taken.push(c).len() && taken.push(c)[i] == l;
                if i < taken.len() {
                    assert(taken[i] == l);
                }
            }
            if taken.contains(l) {
                let i = choose|i: int| 0 <= i < taken.len() && taken[i] == l;
                assert(taken.push(c)[i] == l);
            }
            if l == c {
                assert(taken.push(c)[taken.len() as int] == l);
            }
        }
        if p(l) {
            s.drop_last().filter(p).lemma_filter_push(l, q);
        }
    } else {
        assert(s.filter(p).filter(q) =~= s.filter(pq));
    }
}

/// The letters of `s` but `c`, wherever it comes.
pub fn remove_letter(s: &Vec<char>, c: char) -> (r: Vec<char>)
    ensures
        r@ == s@.filter(|x: char| x != c),
{
    let ghost q = |x: char| x != c;
    let mut r: Vec<char> = Vec::new();
    let mut i: usize = 0;
    proof {
        reveal(Seq::filter);
        assert(s@.take(0) =~= Seq::<char>::empty());
        assert(Seq::<char>::empty().filter(q) =~= Seq::<char>::empty());
    }
    while i < s.len()
        invariant
            i <= s@.len(),
            q == (|x: char| x != c),
            r@ == s@.take(i as int).filter(q),
        decreases s@.len() - i,
    {
        let x = s[i];
        proof {
            assert(s@.take(i + 1) =~= s@.take(i as int).push(x));
            s@.take(i as int).lemma_filter_push(x, q);
        }
        if x != c {
            r.push(x);
        }
        i = i + 1;
    }
    proof {
        assert(s@.take(s@.len() as int) =~= s@);
    }
    r
}

pub(crate) proof fn lemma_in_without(s: Seq<char>, taken: Seq<char>, x: char)
    requires
        s.contains(x),
        !taken.contains(x),
    ensures
        without_letters(s, taken).contains(x),
{
    let p = |c: char| !taken.contains(c);
    s.filter_lemma(p);
    let i = choose|i: int| 0 <= i < s.len() && s[i] == x;
    assert(p(s[i]));
}

proof fn lemma_of_without(s: Seq<char>, taken: Seq<char>, x: char)
    requires
        without_letters(s, taken).contains(x),
    ensures
        s.contains(x),
        !taken.contains(x),
{
    let p = |c: char| !taken.contains(c);
    s.filter_lemma(p);
    s.lemma_filter_contains_rev(p, x);
    let i = choose|i: int| 0 <= i < s.filter(p).len() && s.filter(p)[i] == x;
    assert(p(s.filter(p)[i]));
}

/// Draws letters until `taken` holds `n` of them: each draw takes a letter
/// at random among those of `base` not yet taken. Enough different letters
/// must be left to draw.
pub(crate) fn draw_letters(rng: &mut rand::rngs::ThreadRng, taken: &mut Vec<char>, base: &Vec<char>, n: usize) -> (remaining: Vec<char>)
    requires
        old(taken)@.no_duplicates(),
        n <= old(taken)@.len() + without_letters(base@, old(taken)@).to_set().len(),
    ensures
        final(taken)@.no_duplicates(),
        final(taken)@.len() == if n <= old(taken)@.len() { old(taken)@.len() as int } else { n as int },
        final(taken)@.take(old(taken)@.len() as int) == old(taken)@,
        forall|i: int| old(taken)@.len() <= i < final(taken)@.len() ==> without_letters(base@, old(taken)@).contains(
            #[trigger] final(taken)@[i],
        ),
        remaining@ == without_letters(base@, final(taken)@),
{
    let ghost t0 = taken@;
    let ghost r0 = without_letters(base@, t0);
    let mut remaining = remove_letters_taken(base, taken);
    while taken.len() < n
        invariant
            t0 == old(taken)@,
            r0 == without_letters(base@, t0),
            n <= t0.len() + r0.to_set().len(),
            taken@.no_duplicates(),
            t0.len() <= taken@.len(),
            taken@.len() <= if n <= t0.len() { t0.len() as int } else { n as int },
            taken@.take(t0.len() as int) == t0,
            forall|i: int| t0.len() <= i < taken@.len() ==> r0.contains(#[trigger] taken@[i]),
            remaining@ == without_letters(base@, taken@),
        decreases n - taken@.len(),
    {
        proof {
            let picks = taken@.skip(t0.len() as int);
            assert(picks.no_duplicates()) by {
                assert forall|a: int, b: int| 0 <= a < b < picks.len() implies picks[a] != picks[b] by {
                    assert(picks[a] == taken@[t0.len() + a]);
                    assert(picks[b] == taken@[t0.len() + b]);
                }
            }
            picks.unique_seq_to_set();
            if r0.to_set().subset_of(picks.to_set()) {
                vstd::set_lib::lemma_len_subset(r0.to_set(), picks.to_set());
                assert(false);
            }
            let x = choose|x: char| r0.to_set().contains(x) && !picks.to_set().contains(x);
            lemma_of_without(base@, t0, x);
            assert(!taken@.contains(x)) by {
                if taken@.contains(x) {
                    let i = choose|i: int| 0 <= i < taken@.len() && taken@[i] == x;
                    if i < t0.len() {
                        assert(taken@.take(t0.len() as int)[i] == x);
                        assert(t0.contains(x));
                    } else {
                        assert(picks[i - t0.len()] == x);
                    }
                }
            }
            lemma_in_without(base@, taken@, x);
        }
        let k = gen_usize(rng) % remaining.len();
        let c = remaining[k];
        proof {
            assert(remaining@.contains(c));
            lemma_of_without(base@, taken@, c);
            if t0.contains(c) {
                let i = choose|i: int| 0 <= i < t0.len() && t0[i] == c;
                assert(taken@.take(t0.len() as int)[i] == c);
                assert(taken@[i] == c);
            }
            lemma_in_without(base@, t0, c);
            lemma_filter_without(base@, taken@, c);
        }
        let ghost before = taken@;
        taken.push(c);
        remaining = remove_letter(&remaining, c);
        proof {
            assert(taken@.take(t0.len() as int) =~= before.take(t0.len() as int));
            assert forall|a: int, b: int| 0 <= a < b < taken@.len() implies taken@[a] != taken@[b] by {
                if b == taken@.len() - 1 {
                    assert(before.contains(taken@[a]) ==> before[a] == taken@[a]);
                    assert(taken@[a] == before[a]);
                }
            }
        }
    }
    remaining
}

/// The letters of `base` that are not in `taken`.
pub(crate) fn remove_letters_taken(base: &Vec<char>, taken: &Vec<char>) -> (r: Vec<char>)
    ensures
        r@ == without_letters(base@, taken@),
{
    let mut r = base.clone();
    let ghost empty = Seq::<char>::empty();
    proof {
        assert(r@ =~= base@);
        reveal(Seq::filter);
        assert(without_letters(base@, empty) =~= base@) by {
            lemma_filter_all(base@, |c: char| !empty.contains(c));
        }
        assert(taken@.take(0) =~= empty);
    }
    let mut i: usize = 0;
    while i < taken.len()
        invariant
            i <= taken@.len(),
            r@ == without_letters(base@, taken@.take(i as int)),
        decreases taken@.len() - i,
    {
        let c = taken[i];
        proof {
            lemma_filter_without(base@, taken@.take(i as int), c);
            assert(taken@.take(i + 1) =~= taken@.take(i as int).push(c));
        }
        r = remove_letter(&r, c);
        i = i + 1;
    }
    proof {
        assert(taken@.take(taken@.len() as int) =~= taken@);
    }
    r
}

pub(crate) proof fn lemma_filter_all(s: Seq<char>, p: spec_fn(char) -> bool)
    requires
        forall|c: char| #[trigger] p(c),
    ensures
        s.filter(p) == s,
    decreases s.len(),
{
    reveal(Seq::filter);
    if s.len() > 0 {
        lemma_filter_all(s.drop_last(), p);
        assert(s.drop_last().push(s.last()) =~= s);
    }
}

} // verus!
