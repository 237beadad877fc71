//! The riddles of the sphinx, read from comma-separated text: one riddle per
//! line, the answer after the last comma.

use vstd::prelude::*;
use vstd::string::*;
use crate::text::{lemma_first_break_at, push_char, split_lines};

verus! {

/// The position of the last comma of `l`, or `-1` without one.
pub open spec fn last_comma(l: Seq<char>) -> int
    decreases l.len(),
{
    if l.len() == 0 {
        -1
    } else if l.last() == ',' {
        l.len() - 1
    } else {
        last_comma(l.drop_last())
    }
}

/// `l` without its double quotes.
pub open spec fn without_quotes(l: Seq<char>) -> Seq<char>
    decreases l.len(),
{
    if l.len() == 0 {
        Seq::empty()
    } else if l.last() == '"' {
        without_quotes(l.drop_last())
    } else {
        without_quotes(l.drop_last()).push(l.last())
    }
}

/// A riddle and its answer from one line: the text before the last comma
/// without its quotes, and the text after it.
pub open spec fn riddle_of(l: Seq<char>) -> (Seq<char>, Seq<char>) {
    (without_quotes(l.take(last_comma(l))), l.skip(last_comma(l) + 1))
}

/// Every line of `s` has a comma.
pub open spec fn riddles_well_formed(s: Seq<char>) -> bool {
    forall|i: int| 0 <= i < split_lines(s).len() ==> last_comma(#[trigger] split_lines(s)[i]) >= 0
}

proof fn lemma_last_comma(l: Seq<char>)
    ensures
        -1 <= last_comma(l) < l.len(),
        last_comma(l) >= 0 ==> l[last_comma(l)] == ',',
        forall|j: int| last_comma(l) < j < l.len() ==> l[j] != ',',
    decreases l.len(),
{
    if l.len() > 0 {
        lemma_last_comma(l.drop_last());
        assert forall|j: int| last_comma(l) < j < l.len() implies l[j] != ',' by {
            if j < l.len() - 1 {
                assert(l[j] == l.drop_last()[j]);
            }
        }
    }
}

/// The riddle and answer of the line `s[start..end]`.
fn parse_riddle(s: &str, start: usize, end: usize) -> (r: (String, String))
    requires
        start <= end <= s@.len(),
        last_comma(s@.subrange(start as int, end as int)) >= 0,
    ensures
        r.0@ == riddle_of(s@.subrange(start as int, end as int)).0,
        r.1@ == riddle_of(s@.subrange(start as int, end as int)).1,
{
    let ghost l = s@.subrange(start as int, end as int);
    proof {
        lemma_last_comma(l);
    }
    let mut comma: usize = end;
    while comma > start && s.get_char(comma - 1) != ','
        invariant
            start <= comma <= end,
            end <= s@.len(),
            l == s@.subrange(start as int, end as int),
            forall|j: int| comma - start <= j < l.len() ==> l[j] != ',',
        decreases comma,
    {
        comma = comma - 1;
    }
    proof {
        lemma_last_comma(l);
        if comma == start {
            assert(l[last_comma(l)] == ',');
        }
        assert(l[comma - start - 1] == ',');
    }
    let comma = comma - 1;
    proof {
        assert(last_comma(l) == comma - start) by {
            if last_comma(l) < comma - start {
                assert(forall|j: int| last_comma(l) < j < l.len() ==> l[j] != ',');
                assert(l[comma - start] != ',');
            }
            if last_comma(l) > comma - start {
                assert(l[last_comma(l)] == ',');
            }
        }
    }
    let mut riddle = String::new();
    let mut i: usize = start;
    while i < comma
        invariant
            start <= i <= comma < end,
            end <= s@.len(),
            l == s@.subrange(start as int, end as int),
            riddle@ == without_quotes(l.take(i - start)),
        decreases comma - i,
    {
        let c = s.get_char(i);
        assert(l.take(i - start + 1).drop_last() =~= l.take(i - start));
        if c != '"' {
            push_char(&mut riddle, c);
        }
        i = i + 1;
    }
    let mut answer = String::new();
    let mut k: usize = comma + 1;
    while k < end
        invariant
            comma < k <= end,
            end <= s@.len(),
            l == s@.subrange(start as int, end as int),
            answer@ == s@.subrange(comma + 1, k as int),
        decreases end - k,
    {
        let c = s.get_char(k);
        push_char(&mut answer, c);
        assert(s@.subrange(comma + 1, k + 1) =~= s@.subrange(comma + 1, k as int).push(c));
        k = k + 1;
    }
    assert(answer@ =~= l.skip(comma - start + 1));
    (riddle, answer)
}

/// The riddles of the text, line by line: each line is split at its last
/// comma, quotes are dropped from the riddle, and the answer is the rest.
pub fn get_riddles_list(riddles_csv: &str) -> (riddles: Vec<(String, String)>)
    requires
        riddles_well_formed(riddles_csv@),
    ensures
        riddles@.len() == split_lines(riddles_csv@).len(),
        forall|i: int| 0 <= i < riddles@.len() ==> (#[trigger] riddles@[i]).0@ == riddle_of(split_lines(riddles_csv@)[i]).0
            && riddles@[i].1@ == riddle_of(split_lines(riddles_csv@)[i]).1,
{
    let ghost s = riddles_csv@;
    let n = riddles_csv.unicode_len();
    let mut riddles: Vec<(String, String)> = Vec::new();
    let mut start: usize = 0;
    let mut i: usize = 0;
    assert(s.skip(0) =~= s);
    assert(split_lines(s).skip(0) =~= split_lines(s));
    while i < n
        invariant
            start <= i <= n,
            n == s.len(),
            s == riddles_csv@,
            riddles_well_formed(s),
            forall|j: int| start <= j < i ==> s[j] != '\n',
            riddles@.len() <= split_lines(s).len(),
            split_lines(s.skip(start as int)) == split_lines(s).skip(riddles@.len() as int),
            forall|k: int| 0 <= k < riddles@.len() ==> (#[trigger] riddles@[k]).0@ == riddle_of(split_lines(s)[k]).0
                && riddles@[k].1@ == riddle_of(split_lines(s)[k]).1,
        decreases n - i,
    {
        if riddles_csv.get_char(i) == '\n' {
            proof {
                let rest = s.skip(start as int);
                lemma_first_break_at(rest, i - start);
                assert(rest.take(i - start) =~= s.subrange(start as int, i as int));
                assert(rest.skip(i - start + 1) =~= s.skip(i + 1));
                assert(split_lines(rest) == seq![s.subrange(start as int, i as int)] + split_lines(s.skip(i + 1)));
                assert(split_lines(s).skip(riddles@.len() as int)[0] == s.subrange(start as int, i as int));
                assert(split_lines(s).skip((riddles@.len() + 1) as int) =~= split_lines(s).skip(riddles@.len() as int).skip(1));
                assert(split_lines(rest).skip(1) =~= split_lines(s.skip(i + 1)));
                assert(last_comma(split_lines(s)[riddles@.len() as int]) >= 0);
            }
            let r = parse_riddle(riddles_csv, start, i);
            riddles.push(r);
            start = i + 1;
        }
        i = i + 1;
    }
    if start < n {
        proof {
            let rest = s.skip(start as int);
            lemma_first_break_at(rest, rest.len() as int);
            assert(split_lines(rest) == seq![rest]);
            assert(rest =~= s.subrange(start as int, n as int));
            assert(split_lines(s).skip(riddles@.len() as int)[0] == s.subrange(start as int, n as int));
            assert(last_comma(split_lines(s)[riddles@.len() as int]) >= 0);
        }
        let r = parse_riddle(riddles_csv, start, n);
        riddles.push(r);
        proof {
            assert(split_lines(s).skip(riddles@.len() as int).len() == 0);
        }
    } else {
        proof {
            assert(s.skip(start as int).len() == 0);
            assert(split_lines(s.skip(start as int)).len() == 0);
        }
    }
    riddles
}

} // verus!
