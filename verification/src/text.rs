//! Small text helpers: decimal numerals, and the `String` operations of std
//! that the games use and vstd does not specify.

use vstd::prelude::*;

verus! {

/// The decimal digit for `d` (taken modulo ten).
pub open spec fn digit_char(d: nat) -> char {
    let m = d % 10;
    if m == 0 { '0' }
    else if m == 1 { '1' }
    else if m == 2 { '2' }
    else if m == 3 { '3' }
    else if m == 4 { '4' }
    else if m == 5 { '5' }
    else if m == 6 { '6' }
    else if m == 7 { '7' }
    else if m == 8 { '8' }
    else { '9' }
}

/// The decimal numeral of `n`, without leading zeros.
pub open spec fn decimal(n: nat) -> Seq<char>
    decreases n,
{
    if n < 10 {
        seq![digit_char(n)]
    } else {
        decimal(n / 10).push(digit_char(n % 10))
    }
}

/// The decimal numeral of `n`, with a minus sign before a negative one.
pub open spec fn signed_decimal(n: int) -> Seq<char> {
    if n < 0 {
        seq!['-'] + decimal((-n) as nat)
    } else {
        decimal(n as nat)
    }
}

/// `usize::to_string`: the decimal numeral of `n`.
#[verifier::external_body]
pub(crate) fn usize_to_string(n: usize) -> (s: String)
    ensures
        s@ == decimal(n as nat),
{
    n.to_string()
}

/// `isize::to_string`: the decimal numeral of `n`, signed.
#[verifier::external_body]
pub(crate) fn isize_to_string(n: isize) -> (s: String)
    ensures
        s@ == signed_decimal(n as int),
{
    n.to_string()
}

/// `String::push`: appends one character.
#[verifier::external_body]
pub(crate) fn push_char(s: &mut String, c: char)
    ensures
        final(s)@ == old(s)@.push(c),
{
    s.push(c)
}

/// Appends the characters of `t` to `s`.
pub(crate) fn append_str(s: &mut String, t: &str)
    ensures
        final(s)@ == old(s)@ + t@,
{
    let n = t.unicode_len();
    let mut i: usize = 0;
    while i < n
        invariant
            i <= n,
            n == t@.len(),
            s@ == old(s)@ + t@.take(i as int),
        decreases n - i,
    {
        let c = t.get_char(i);
        push_char(s, c);
        assert(t@.take(i + 1) =~= t@.take(i as int).push(c));
        i = i + 1;
    }
    assert(t@.take(n as int) =~= t@);
}

/// What `char::to_lowercase` yields for a character: its lowercase mapping
/// in the Unicode tables, one or more characters.
pub uninterp spec fn lowercase_of(c: char) -> Seq<char>;

/// `char::to_lowercase`, collected into a string.
#[verifier::external_body]
pub(crate) fn char_to_lowercase(c: char) -> (s: String)
    ensures
        s@ == lowercase_of(c),
{
    c.to_lowercase().collect()
}

/// What `str::to_uppercase` yields for a text: each character's uppercase
/// mapping in the Unicode tables.
pub uninterp spec fn uppercase_of(s: Seq<char>) -> Seq<char>;

/// `str::to_uppercase`.
#[verifier::external_body]
pub(crate) fn str_to_uppercase(s: &str) -> (r: String)
    ensures
        r@ == uppercase_of(s@),
{
    s.to_uppercase()
}

/// What `str::to_lowercase` yields for a text: its lowercase mapping in the
/// Unicode tables.
pub uninterp spec fn lowercase_text_of(s: Seq<char>) -> Seq<char>;

/// `str::to_lowercase`.
#[verifier::external_body]
pub(crate) fn str_to_lowercase(s: &str) -> (r: String)
    ensures
        r@ == lowercase_text_of(s@),
{
    s.to_lowercase()
}

/// The position of the first line break in `s`, or `-1` without one.
pub open spec fn first_break(s: Seq<char>) -> int
    decreases s.len(),
{
    if s.len() == 0 {
        -1
    } else if s[0] == '\n' {
        0
    } else {
        let k = first_break(s.drop_first());
        if k < 0 { -1 } else { k + 1 }
    }
}

/// The lines of `s`, as `str::split_terminator("\n")` yields them: the pieces
/// between line breaks, with no empty piece after a final break.
pub open spec fn split_lines(s: Seq<char>) -> Seq<Seq<char>>
    decreases s.len(),
{
    if s.len() == 0 {
        Seq::empty()
    } else {
        let k = first_break(s);
        if k < 0 {
            seq![s]
        } else {
            proof {
                lemma_first_break(s);
            }
            seq![s.take(k)] + split_lines(s.skip(k + 1))
        }
    }
}

/// The first break is a line break, and none comes before it.
pub proof fn lemma_first_break(s: Seq<char>)
    ensures
        -1 <= first_break(s) < s.len(),
        first_break(s) >= 0 ==> s[first_break(s)] == '\n',
        forall|j: int| 0 <= j < s.len() && (first_break(s) < 0 || j < first_break(s)) ==> s[j] != '\n',
    decreases s.len(),
{
    if s.len() > 0 {
        lemma_first_break(s.drop_first());
        assert forall|j: int| 0 <= j < s.len() && (first_break(s) < 0 || j < first_break(s)) implies s[j] != '\n' by {
            if j > 0 {
                assert(s[j] == s.drop_first()[j - 1]);
            }
        }
    }
}

/// A first break is found at the first line break.
pub proof fn lemma_first_break_at(s: Seq<char>, k: int)
    requires
        0 <= k <= s.len(),
        forall|j: int| 0 <= j < k ==> s[j] != '\n',
        k < s.len() ==> s[k] == '\n',
    ensures
        first_break(s) == if k < s.len() { k } else { -1 },
    decreases s.len(),
{
    if s.len() > 0 && k > 0 {
        lemma_first_break_at(s.drop_first(), k - 1);
    }
}


/// The value of a numeral of decimal digits, or `None` where `s` is empty or
/// holds another character.
pub open spec fn digits_value(s: Seq<char>) -> Option<nat>
    decreases s.len(),
{
    if s.len() == 0 || !('0' <= s.last() <= '9') {
        None
    } else if s.len() == 1 {
        Some((s.last() as nat - '0' as nat) as nat)
    } else {
        match digits_value(s.drop_last()) {
            Some(v) => Some(10 * v + (s.last() as nat - '0' as nat) as nat),
            None => None,
        }
    }
}

/// What `usize::from_str` gives for `s`: an optional `+` and decimal digits
/// whose value fits in a `usize`.
pub open spec fn parsed_usize(s: Seq<char>) -> Option<usize> {
    let digits = if s.len() > 0 && s[0] == '+' { s.drop_first() } else { s };
    match digits_value(digits) {
        Some(v) => if v <= usize::MAX { Some(v as usize) } else { None },
        None => None,
    }
}

/// `str::parse::<usize>`.
#[verifier::external_body]
pub(crate) fn parse_usize(s: &str) -> (r: Option<usize>)
    ensures
        r == parsed_usize(s@),
{
    s.parse::<usize>().ok()
}

/// A numeral is made of digits only.
pub proof fn lemma_decimal_digits(n: nat)
    ensures
        decimal(n).len() >= 1,
        forall|i: int| 0 <= i < decimal(n).len() ==> '0' <= #[trigger] decimal(n)[i] <= '9',
    decreases n,
{
    if n >= 10 {
        lemma_decimal_digits(n / 10);
        assert forall|i: int| 0 <= i < decimal(n).len() implies '0' <= #[trigger] decimal(n)[i] <= '9' by {
            if i < decimal(n).len() - 1 {
                assert(decimal(n)[i] == decimal(n / 10)[i]);
            }
        }
    }
}

/// Reading a numeral gives back its number.
pub proof fn lemma_digits_value_decimal(n: nat)
    ensures
        digits_value(decimal(n)) == Some(n),
    decreases n,
{
    if n >= 10 {
        lemma_digits_value_decimal(n / 10);
        lemma_decimal_digits(n / 10);
        assert(decimal(n).drop_last() =~= decimal(n / 10));
    }
}

/// Parsing the numeral of a `usize` gives back the number.
pub proof fn lemma_parse_decimal(n: usize)
    ensures
        parsed_usize(decimal(n as nat)) == Some(n),
{
    lemma_digits_value_decimal(n as nat);
    lemma_decimal_digits(n as nat);
}

/// The lines of `s`, as `split_lines` gives them.
pub fn lines_of(s: &str) -> (lines: Vec<String>)
    ensures
        lines@.len() == split_lines(s@).len(),
        forall|i: int| 0 <= i < lines@.len() ==> (#[trigger] lines@[i])@ == split_lines(s@)[i],
{
    let ghost t = s@;
    let n = s.unicode_len();
    let mut lines: Vec<String> = Vec::new();
    let mut current = String::new();
    let mut start: usize = 0;
    let mut i: usize = 0;
    assert(t.skip(0) =~= t);
    assert(split_lines(t).skip(0) =~= split_lines(t));
    while i < n
        invariant
            start <= i <= n,
            n == t.len(),
            t == s@,
            forall|j: int| start <= j < i ==> t[j] != '\n',
            current@ == t.subrange(start as int, i as int),
            lines@.len() <= split_lines(t).len(),
            split_lines(t.skip(start as int)) == split_lines(t).skip(lines@.len() as int),
            forall|k: int| 0 <= k < lines@.len() ==> (#[trigger] lines@[k])@ == split_lines(t)[k],
        decreases n - i,
    {
        let c = s.get_char(i);
        if c == '\n' {
            proof {
                let rest = t.skip(start as int);
                lemma_first_break_at(rest, i - start);
                assert(rest.take(i - start) =~= t.subrange(start as int, i as int));
                assert(rest.skip(i - start + 1) =~= t.skip(i + 1));
                assert(split_lines(rest) == seq![t.subrange(start as int, i as int)] + split_lines(t.skip(i + 1)));
                assert(split_lines(t).skip(lines@.len() as int)[0] == t.subrange(start as int, i as int));
                assert(split_lines(t).skip((lines@.len() + 1) as int) =~= split_lines(t).skip(lines@.len() as int).skip(1));
                assert(split_lines(rest).skip(1) =~= split_lines(t.skip(i + 1)));
            }
            lines.push(current);
            current = String::new();
            start = i + 1;
        } else {
            push_char(&mut current, c);
            assert(t.subrange(start as int, i + 1) =~= t.subrange(start as int, i as int).push(c));
        }
        i = i + 1;
    }
    if start < n {
        proof {
            let rest = t.skip(start as int);
            lemma_first_break_at(rest, rest.len() as int);
            assert(split_lines(rest) == seq![rest]);
            assert(rest =~= t.subrange(start as int, n as int));
            assert(split_lines(t).skip(lines@.len() as int)[0] == t.subrange(start as int, n as int));
        }
        lines.push(current);
        proof {
            assert(split_lines(t).skip(lines@.len() as int).len() == 0);
        }
    } else {
        proof {
            assert(t.skip(start as int).len() == 0);
            assert(split_lines(t.skip(start as int)).len() == 0);
        }
    }
    lines
}

/// The pieces of `s` between line breaks, as `str::split("\n")` yields
/// them: the lines, and an empty piece after a final break or for an empty
/// text.
pub open spec fn split_pieces(s: Seq<char>) -> Seq<Seq<char>> {
    if s.len() == 0 || s.last() == '\n' {
        split_lines(s).push(Seq::empty())
    } else {
        split_lines(s)
    }
}

/// The pieces of `s` between line breaks, as `split_pieces` gives them.
pub fn pieces_of(s: &str) -> (pieces: Vec<String>)
    ensures
        pieces@.len() == split_pieces(s@).len(),
        forall|i: int| 0 <= i < pieces@.len() ==> (#[trigger] pieces@[i])@ == split_pieces(s@)[i],
{
    let mut pieces = lines_of(s);
    let n = s.unicode_len();
    if n == 0 || s.get_char(n - 1) == '\n' {
        pieces.push(String::new());
    }
    pieces
}

} // verus!
