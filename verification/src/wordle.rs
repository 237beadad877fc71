//! A word-guessing game: the word of the day or a random word, the marks a
//! guess earns, the colours of the keyboard, and the player's statistics.

use std::collections::HashSet;
use vstd::prelude::*;
use vstd::string::*;
use chrono::Datelike;
use crate::random::{gen_usize, thread_rng};
use crate::text::{pieces_of, split_pieces, str_to_uppercase, uppercase_of, decimal, lemma_decimal_digits, lemma_first_break_at, lemma_parse_decimal, lines_of, parse_usize, parsed_usize, push_char, split_lines, usize_to_string};

verus! {

broadcast use vstd::std_specs::hash::group_hash_axioms;

/// The colours of the terminal: a background colour, or the default.
#[derive(PartialEq, Eq, Structural, Clone, Copy, Debug)]
pub enum Color {
    Green,
    Yellow,
    White,
    Reset,
}

/// The escape sequence that selects a colour.
pub open spec fn color_code(color: Color) -> &'static str {
    match color {
        Color::Green => "\x1b[42m",
        Color::Yellow => "\x1b[43m",
        Color::White => "\x1b[47m",
        Color::Reset => "\x1b[0m",
    }
}

/// `input` in the colour `color`, followed by the sequence that resets it.
pub fn colorize(input: String, color: Color) -> (s: String)
    ensures
        s@ == color_code(color)@ + input@ + "\x1b[0m"@,
{
    let code: &str = match color {
        Color::Green => "\x1b[42m",
        Color::Yellow => "\x1b[43m",
        Color::White => "\x1b[47m",
        Color::Reset => "\x1b[0m",
    };
    let mut s = code.to_owned();
    s.append(input.as_str());
    s.append("\x1b[0m");
    s
}

/// The index of the word of the day for a date, as the game computes it from
/// the year, the month and the day.
pub open spec fn daily_index_of(year: i32, month: u32, day: u32) -> usize {
    ((year as usize) << 2usize) | ((month as usize) << 2usize) | (day as usize)
}

/// The index of the word of the day.
pub fn daily_index(year: i32, month: u32, day: u32) -> (i: usize)
    ensures
        i == daily_index_of(year, month, day),
{
    ((year as usize) << 2) | ((month as usize) << 2) | (day as usize)
}

/// `Utc::now()` as a calendar date: the year, the month (1 to 12) and the
/// day of the month (1 to 31). The date is the machine's clock's.
#[verifier::external_body]
fn today() -> (date: (i32, u32, u32))
    ensures
        1 <= date.1 <= 12,
        1 <= date.2 <= 31,
{
    let now = chrono::Utc::now();
    (now.year(), now.month(), now.day())
}

/// The characters of `s`, one by one.
pub(crate) fn chars_of(s: &str) -> (v: Vec<char>)
    ensures
        v@ == s@,
{
    let n = s.unicode_len();
    let mut v: Vec<char> = Vec::new();
    let mut i: usize = 0;
    while i < n
        invariant
            i <= n,
            n == s@.len(),
            v@ == s@.take(i as int),
        decreases n - i,
    {
        v.push(s.get_char(i));
        assert(s@.take(i + 1) =~= s@.take(i as int).push(s@[i as int]));
        i = i + 1;
    }
    assert(s@.take(n as int) =~= s@);
    v
}

/// The code points of the characters of `s`.
pub open spec fn code_set(s: Seq<char>) -> Set<u32> {
    Set::new(|u: u32| exists|i: int| 0 <= i < s.len() && s[i] as u32 == u)
}

/// The word at `index` (modulo the number of words), its characters, and the
/// set of their code points.
pub fn pick_word(words_vec: &[String], index: usize) -> (r: (String, Vec<char>, HashSet<u32>))
    requires
        words_vec@.len() > 0,
    ensures
        r.0@ == words_vec@[index as int % (words_vec@.len() as int)]@,
        r.1@ == r.0@,
        r.2@ == code_set(r.0@),
{
    let word = words_vec[index % words_vec.len()].clone();
    let word_vec = chars_of(word.as_str());
    let mut word_set: HashSet<u32> = HashSet::new();
    let mut i: usize = 0;
    while i < word_vec.len()
        invariant
            i <= word_vec@.len(),
            word_set@ == code_set(word_vec@.take(i as int)),
        decreases word_vec@.len() - i,
    {
        let c = word_vec[i];
        word_set.insert(c as u32);
        proof {
            let t = word_vec@.take(i + 1);
            assert(t =~= word_vec@.take(i as int).push(c));
            assert forall|u: u32| word_set@.contains(u) == code_set(t).contains(u) by {
                if u == c as u32 {
                    assert(t[i as int] as u32 == u);
                } else if word_set@.contains(u) {
                    let j = choose|j: int| 0 <= j < i && word_vec@.take(i as int)[j] as u32 == u;
                    assert(t[j] as u32 == u);
                } else if code_set(t).contains(u) {
                    let j = choose|j: int| 0 <= j < t.len() && t[j] as u32 == u;
                    assert(word_vec@.take(i as int)[j] as u32 == u);
                }
            }
            assert(word_set@ =~= code_set(t));
        }
        i = i + 1;
    }
    assert(word_vec@.take(word_vec@.len() as int) =~= word_vec@);
    (word, word_vec, word_set)
}

/// The word to guess from the date and a roll of the generator: the word of
/// the day of `date` where `daily` holds, else the word the roll picks;
/// with its characters and the set of their code points.
pub fn word_for(daily: bool, date: (i32, u32, u32), roll: usize, words_vec: &[String]) -> (r: (
    String,
    Vec<char>,
    HashSet<u32>,
))
    requires
        words_vec@.len() > 0,
    ensures
        r.0@ == words_vec@[(if daily {
            daily_index_of(date.0, date.1, date.2) as int
        } else {
            roll as int
        }) % (words_vec@.len() as int)]@,
        r.1@ == r.0@,
        r.2@ == code_set(r.0@),
{
    let index = if daily {
        daily_index(date.0, date.1, date.2)
    } else {
        roll
    };
    pick_word(words_vec, index)
}

/// The word to guess: the word of the day where `daily` holds, else a random
/// one; with its characters and the set of their code points. The date and
/// the draw are the clock's and the generator's; `word_for` does the rest.
pub fn get_word(daily: bool, words_vec: &[String]) -> (r: (String, Vec<char>, HashSet<u32>))
    requires
        words_vec@.len() > 0,
    ensures
        exists|i: int| 0 <= i < words_vec@.len() && r.0@ == words_vec@[i]@,
        daily ==> exists|y: i32, m: u32, d: u32|
            1 <= m <= 12 && 1 <= d <= 31 && r.0@ == words_vec@[#[trigger] daily_index_of(y, m, d) as int % (words_vec@.len() as int)]@,
        r.1@ == r.0@,
        r.2@ == code_set(r.0@),
{
    let (date, roll) = if daily {
        (today(), 0)
    } else {
        let mut rng = thread_rng();
        ((1970, 1, 1), gen_usize(&mut rng))
    };
    let r = word_for(daily, date, roll, words_vec);
    proof {
        let k = (if daily { daily_index_of(date.0, date.1, date.2) as int } else { roll as int }) % (words_vec@.len() as int);
        assert(0 <= k < words_vec@.len());
    }
    r
}


/// The words of a list: its pieces between line breaks, in uppercase.
pub fn upper_words(text: &str) -> (words: Vec<String>)
    ensures
        texts(words@) == split_pieces(text@).map_values(|l: Seq<char>| uppercase_of(l)),
{
    let pieces = pieces_of(text);
    let ghost ps = split_pieces(text@);
    let mut words: Vec<String> = Vec::new();
    let mut i: usize = 0;
    while i < pieces.len()
        invariant
            i <= pieces@.len(),
            pieces@.len() == ps.len(),
            forall|k: int| 0 <= k < pieces@.len() ==> (#[trigger] pieces@[k])@ == ps[k],
            texts(words@) == ps.take(i as int).map_values(|l: Seq<char>| uppercase_of(l)),
        decreases pieces@.len() - i,
    {
        let w = str_to_uppercase(pieces[i].as_str());
        let ghost w0 = words@;
        words.push(w);
        proof {
            assert(texts(words@) =~= texts(w0).push(uppercase_of(ps[i as int])));
            assert(ps.take(i + 1).map_values(|l: Seq<char>| uppercase_of(l)) =~= ps.take(i as int).map_values(
                |l: Seq<char>| uppercase_of(l),
            ).push(uppercase_of(ps[i as int])));
        }
        i = i + 1;
    }
    assert(ps.take(pieces@.len() as int) =~= ps);
    words
}

/// The player's record, as kept between games.
#[derive(Clone, Copy, PartialEq, Eq, Structural, Debug)]
pub struct Stats {
    pub played: usize,
    pub won: usize,
    pub streak: usize,
    pub maxstreak: usize,
    pub dist_1: usize,
    pub dist_2: usize,
    pub dist_3: usize,
    pub dist_4: usize,
    pub dist_5: usize,
    pub dist_6: usize,
}

impl Stats {
    /// A record with nothing played.
    pub fn empty() -> (s: Stats)
        ensures
            s == (Stats {
                played: 0,
                won: 0,
                streak: 0,
                maxstreak: 0,
                dist_1: 0,
                dist_2: 0,
                dist_3: 0,
                dist_4: 0,
                dist_5: 0,
                dist_6: 0,
            }),
    {
        Stats {
            played: 0,
            won: 0,
            streak: 0,
            maxstreak: 0,
            dist_1: 0,
            dist_2: 0,
            dist_3: 0,
            dist_4: 0,
            dist_5: 0,
            dist_6: 0,
        }
    }

    /// No counter is at its largest value.
    pub open spec fn can_count(&self) -> bool {
        &&& self.won < usize::MAX
        &&& self.played < usize::MAX
        &&& self.streak < usize::MAX
        &&& self.dist_1 < usize::MAX
        &&& self.dist_2 < usize::MAX
        &&& self.dist_3 < usize::MAX
        &&& self.dist_4 < usize::MAX
        &&& self.dist_5 < usize::MAX
        &&& self.dist_6 < usize::MAX
    }

    /// A game won at the given attempt: one more game played and won, the
    /// streak longer by one (and the best streak at least as long), and the
    /// count of wins at that attempt up by one for attempts 1 to 6.
    pub fn won(&mut self, attempt: usize)
        requires
            old(self).can_count(),
        ensures
            final(self).won == old(self).won + 1,
            final(self).played == old(self).played + 1,
            final(self).streak == old(self).streak + 1,
            final(self).maxstreak == if old(self).streak + 1 > old(self).maxstreak {
                (old(self).streak + 1) as usize
            } else {
                old(self).maxstreak
            },
            final(self).dist_1 == old(self).dist_1 + if attempt == 1 { 1int } else { 0 },
            final(self).dist_2 == old(self).dist_2 + if attempt == 2 { 1int } else { 0 },
            final(self).dist_3 == old(self).dist_3 + if attempt == 3 { 1int } else { 0 },
            final(self).dist_4 == old(self).dist_4 + if attempt == 4 { 1int } else { 0 },
            final(self).dist_5 == old(self).dist_5 + if attempt == 5 { 1int } else { 0 },
            final(self).dist_6 == old(self).dist_6 + if attempt == 6 { 1int } else { 0 },
    {
        self.won += 1;
        self.played += 1;
        self.streak += 1;
        if self.streak > self.maxstreak {
            self.maxstreak = self.streak;
        }
        if attempt == 1 {
            self.dist_1 += 1;
        } else if attempt == 2 {
            self.dist_2 += 1;
        } else if attempt == 3 {
            self.dist_3 += 1;
        } else if attempt == 4 {
            self.dist_4 += 1;
        } else if attempt == 5 {
            self.dist_5 += 1;
        } else if attempt == 6 {
            self.dist_6 += 1;
        }
    }

    /// A game lost: the streak ends and one more game is played.
    pub fn lost(&mut self)
        requires
            old(self).played < usize::MAX,
        ensures
            *final(self) == (Stats { streak: 0, played: (old(self).played + 1) as usize, ..*old(self) }),
    {
        self.streak = 0;
        self.played += 1;
    }

    /// The counters in the order the record keeps them.
    pub open spec fn counters(&self) -> Seq<usize> {
        seq![
            self.played,
            self.won,
            self.streak,
            self.maxstreak,
            self.dist_1,
            self.dist_2,
            self.dist_3,
            self.dist_4,
            self.dist_5,
            self.dist_6,
        ]
    }
}

/// The decimal numerals of `v`, separated by line breaks.
pub open spec fn numbered_lines(v: Seq<usize>) -> Seq<char>
    decreases v.len(),
{
    if v.len() == 0 {
        Seq::empty()
    } else if v.len() == 1 {
        decimal(v[0] as nat)
    } else {
        decimal(v[0] as nat) + seq!['\n'] + numbered_lines(v.drop_first())
    }
}

proof fn lemma_numbered_lines_take(v: Seq<usize>, i: int)
    requires
        1 <= i < v.len(),
    ensures
        numbered_lines(v.take(i + 1)) == numbered_lines(v.take(i)) + seq!['\n'] + decimal(v[i] as nat),
    decreases i,
{
    if i == 1 {
        assert(v.take(2).drop_first() =~= seq![v[1]]);
        assert(v.take(1) =~= seq![v[0]]);
        assert(v.take(2)[0] == v[0]);
        assert(numbered_lines(seq![v[1]]) == decimal(v[1] as nat));
        assert(numbered_lines(v.take(2)) == decimal(v[0] as nat) + seq!['\n'] + numbered_lines(seq![v[1]]));
        assert(numbered_lines(v.take(1)) == decimal(v[0] as nat));
    } else {
        let w = v.drop_first();
        lemma_numbered_lines_take(w, i - 1);
        assert(v.take(i + 1).drop_first() =~= w.take(i));
        assert(v.take(i).drop_first() =~= w.take(i - 1));
        assert(w[i - 1] == v[i]);
        let d0 = decimal(v[0] as nat);
        assert(v.take(i + 1)[0] == v[0]);
        assert(v.take(i)[0] == v[0]);
        assert(numbered_lines(v.take(i + 1)) == d0 + seq!['\n'] + numbered_lines(w.take(i)));
        assert(numbered_lines(v.take(i)) == d0 + seq!['\n'] + numbered_lines(w.take(i - 1)));
        assert(d0 + seq!['\n'] + (numbered_lines(w.take(i - 1)) + seq!['\n'] + decimal(v[i] as nat)) =~= (d0
            + seq!['\n'] + numbered_lines(w.take(i - 1))) + seq!['\n'] + decimal(v[i] as nat));
    }
}

/// Splitting the numerals at the line breaks gives back each numeral.
proof fn lemma_split_numbered_lines(v: Seq<usize>)
    requires
        v.len() >= 1,
    ensures
        split_lines(numbered_lines(v)).len() == v.len(),
        forall|k: int| 0 <= k < v.len() ==> #[trigger] split_lines(numbered_lines(v))[k] == decimal(v[k] as nat),
    decreases v.len(),
{
    let d = decimal(v[0] as nat);
    lemma_decimal_digits(v[0] as nat);
    if v.len() == 1 {
        lemma_first_break_at(d, d.len() as int);
    } else {
        let rest = numbered_lines(v.drop_first());
        let t = d + seq!['\n'] + rest;
        lemma_first_break_at(t, d.len() as int);
        assert(t.take(d.len() as int) =~= d);
        assert(t.skip((d.len() + 1) as int) =~= rest);
        lemma_split_numbered_lines(v.drop_first());
        assert forall|k: int| 0 <= k < v.len() implies #[trigger] split_lines(numbered_lines(v))[k] == decimal(
            v[k] as nat,
        ) by {
            if k > 0 {
                assert(split_lines(numbered_lines(v))[k] == split_lines(rest)[k - 1]);
                assert(v.drop_first()[k - 1] == v[k]);
            }
        }
    }
}

/// The text holds ten lines at least, and the first ten are numbers.
pub open spec fn stats_readable(text: Seq<char>) -> bool {
    &&& split_lines(text).len() >= 10
    &&& forall|k: int| 0 <= k < 10 ==> (#[trigger] parsed_usize(split_lines(text)[k])).is_some()
}

/// The record read from the lines of a saved text.
pub open spec fn stats_of_lines(lines: Seq<Seq<char>>) -> Stats {
    Stats {
        played: parsed_usize(lines[0]).unwrap(),
        won: parsed_usize(lines[1]).unwrap(),
        streak: parsed_usize(lines[2]).unwrap(),
        maxstreak: parsed_usize(lines[3]).unwrap(),
        dist_1: parsed_usize(lines[4]).unwrap(),
        dist_2: parsed_usize(lines[5]).unwrap(),
        dist_3: parsed_usize(lines[6]).unwrap(),
        dist_4: parsed_usize(lines[7]).unwrap(),
        dist_5: parsed_usize(lines[8]).unwrap(),
        dist_6: parsed_usize(lines[9]).unwrap(),
    }
}

impl Stats {
    /// The record as saved: its ten counters in decimal, one per line.
    pub fn to_text(&self) -> (s: String)
        ensures
            s@ == numbered_lines(self.counters()),
    {
        let values: [usize; 10] = [
            self.played,
            self.won,
            self.streak,
            self.maxstreak,
            self.dist_1,
            self.dist_2,
            self.dist_3,
            self.dist_4,
            self.dist_5,
            self.dist_6,
        ];
        assert(values@ =~= self.counters());
        let mut s = usize_to_string(values[0]);
        let mut i: usize = 1;
        assert(values@.take(1) =~= seq![values@[0]]);
        assert(numbered_lines(values@.take(1)) == decimal(values@[0] as nat));
        while i < 10
            invariant
                1 <= i <= 10,
                values@ == self.counters(),
                s@ == numbered_lines(values@.take(i as int)),
            decreases 10 - i,
        {
            push_char(&mut s, '\n');
            let n = usize_to_string(values[i]);
            s.append(n.as_str());
            proof {
                lemma_numbered_lines_take(values@, i as int);
            }
            i = i + 1;
        }
        assert(values@.take(10) =~= values@);
        s
    }
}


impl Stats {
    /// The record from a saved text: the numbers of its first ten lines, in
    /// the order `to_text` writes them.
    pub fn from_text(text: &str) -> (s: Stats)
        requires
            stats_readable(text@),
        ensures
            s == stats_of_lines(split_lines(text@)),
    {
        let lines = lines_of(text);
        let ghost l = split_lines(text@);
        proof {
            assert(parsed_usize(l[0]).is_some());
            assert(parsed_usize(l[1]).is_some());
            assert(parsed_usize(l[2]).is_some());
            assert(parsed_usize(l[3]).is_some());
            assert(parsed_usize(l[4]).is_some());
            assert(parsed_usize(l[5]).is_some());
            assert(parsed_usize(l[6]).is_some());
            assert(parsed_usize(l[7]).is_some());
            assert(parsed_usize(l[8]).is_some());
            assert(parsed_usize(l[9]).is_some());
            assert(lines@[0]@ == l[0]);
            assert(lines@[1]@ == l[1]);
            assert(lines@[2]@ == l[2]);
            assert(lines@[3]@ == l[3]);
            assert(lines@[4]@ == l[4]);
            assert(lines@[5]@ == l[5]);
            assert(lines@[6]@ == l[6]);
            assert(lines@[7]@ == l[7]);
            assert(lines@[8]@ == l[8]);
            assert(lines@[9]@ == l[9]);
        }
        Stats {
            played: parse_usize(lines[0].as_str()).unwrap(),
            won: parse_usize(lines[1].as_str()).unwrap(),
            streak: parse_usize(lines[2].as_str()).unwrap(),
            maxstreak: parse_usize(lines[3].as_str()).unwrap(),
            dist_1: parse_usize(lines[4].as_str()).unwrap(),
            dist_2: parse_usize(lines[5].as_str()).unwrap(),
            dist_3: parse_usize(lines[6].as_str()).unwrap(),
            dist_4: parse_usize(lines[7].as_str()).unwrap(),
            dist_5: parse_usize(lines[8].as_str()).unwrap(),
            dist_6: parse_usize(lines[9].as_str()).unwrap(),
        }
    }
}

/// Reading back a saved record gives the same record: the text `to_text`
/// writes is readable, and `from_text` finds every counter in it.
pub proof fn lemma_saved_record_reads_back(s: Stats)
    ensures
        stats_readable(numbered_lines(s.counters())),
        stats_of_lines(split_lines(numbered_lines(s.counters()))) == s,
{
    let v = s.counters();
    lemma_split_numbered_lines(v);
    let l = split_lines(numbered_lines(v));
    assert forall|k: int| 0 <= k < 10 implies (#[trigger] parsed_usize(l[k])).is_some() && parsed_usize(l[k]).unwrap()
        == v[k] by {
        assert(l[k] == decimal(v[k] as nat));
        lemma_parse_decimal(v[k]);
    }
    assert(parsed_usize(l[0]).unwrap() == v[0]);
    assert(parsed_usize(l[1]).unwrap() == v[1]);
    assert(parsed_usize(l[2]).unwrap() == v[2]);
    assert(parsed_usize(l[3]).unwrap() == v[3]);
    assert(parsed_usize(l[4]).unwrap() == v[4]);
    assert(parsed_usize(l[5]).unwrap() == v[5]);
    assert(parsed_usize(l[6]).unwrap() == v[6]);
    assert(parsed_usize(l[7]).unwrap() == v[7]);
    assert(parsed_usize(l[8]).unwrap() == v[8]);
    assert(parsed_usize(l[9]).unwrap() == v[9]);
}


/// The mark a guessed letter earns at position `i`: green in the right place,
/// yellow elsewhere in the word, the default colour otherwise.
pub open spec fn mark(c: char, i: int, word: Seq<char>) -> Color {
    if c == word[i] {
        Color::Green
    } else if word.contains(c) {
        Color::Yellow
    } else {
        Color::Reset
    }
}

/// The smaller of two lengths.
pub open spec fn min_len(a: nat, b: nat) -> nat {
    if a < b { a } else { b }
}

/// The marked letters of a guess, as many as the word has at most.
pub open spec fn marked_row(guess: Seq<char>, word: Seq<char>) -> Seq<(char, Color)> {
    Seq::new(min_len(guess.len(), word.len()), |i: int| (guess[i], mark(guess[i], i, word)))
}

/// How a guess is marked, letter by letter, as the game promises it: one mark
/// per letter the guess and the word both have; green for a letter in its
/// place, yellow for one that occurs anywhere else in the word, the default
/// colour for one the word lacks.
pub proof fn lemma_marks(guess: Seq<char>, word: Seq<char>)
    ensures
        marked_row(guess, word).len() == if guess.len() < word.len() { guess.len() } else { word.len() },
        forall|i: int| 0 <= i < marked_row(guess, word).len() ==> (#[trigger] marked_row(guess, word)[i]).0 == guess[i],
        forall|i: int|
            0 <= i < marked_row(guess, word).len() && guess[i] == word[i] ==> (#[trigger] marked_row(guess, word)[i]).1
                == Color::Green,
        forall|i: int, k: int|
            #![trigger marked_row(guess, word)[i], word[k]]
            0 <= i < marked_row(guess, word).len() && guess[i] != word[i] && 0 <= k < word.len() && word[k]
                == guess[i] ==> marked_row(guess, word)[i].1 == Color::Yellow,
        forall|i: int|
            0 <= i < marked_row(guess, word).len() && (forall|k: int| 0 <= k < word.len() ==> word[k] != guess[i])
                ==> (#[trigger] marked_row(guess, word)[i]).1 == Color::Reset,
{
    assert forall|i: int, k: int|
        #![trigger marked_row(guess, word)[i], word[k]]
        0 <= i < marked_row(guess, word).len() && guess[i] != word[i] && 0 <= k < word.len() && word[k]
            == guess[i] implies marked_row(guess, word)[i].1 == Color::Yellow by {
        assert(word.contains(word[k]));
    }
    assert forall|i: int|
        0 <= i < marked_row(guess, word).len() && (forall|k: int| 0 <= k < word.len() ==> word[k] != guess[i])
            implies (#[trigger] marked_row(guess, word)[i]).1 == Color::Reset by {
        assert(guess[i] != word[i]);
        assert(!word.contains(guess[i]));
    }
}

/// The marks a guess earns.
pub fn score_attempt(guess: &str, word_vec: &Vec<char>) -> (row: Vec<(char, Color)>)
    ensures
        row@ == marked_row(guess@, word_vec@),
        row@.len() == if guess@.len() < word_vec@.len() { guess@.len() } else { word_vec@.len() },
        forall|i: int| 0 <= i < row@.len() ==> (#[trigger] row@[i]).0 == guess@[i],
        forall|i: int| 0 <= i < row@.len() && guess@[i] == word_vec@[i] ==> (#[trigger] row@[i]).1 == Color::Green,
        forall|i: int, k: int|
            #![trigger row@[i], word_vec@[k]]
            0 <= i < row@.len() && guess@[i] != word_vec@[i] && 0 <= k < word_vec@.len() && word_vec@[k] == guess@[i]
                ==> row@[i].1 == Color::Yellow,
        forall|i: int|
            0 <= i < row@.len() && (forall|k: int| 0 <= k < word_vec@.len() ==> word_vec@[k] != guess@[i])
                ==> (#[trigger] row@[i]).1 == Color::Reset,
{
    proof {
        lemma_marks(guess@, word_vec@);
    }
    let g = chars_of(guess);
    let mut row: Vec<(char, Color)> = Vec::new();
    let mut i: usize = 0;
    while i < g.len() && i < word_vec.len()
        invariant
            i <= g@.len(),
            i <= word_vec@.len(),
            g@ == guess@,
            row@ == marked_row(guess@, word_vec@).take(i as int),
        decreases g@.len() - i,
    {
        let c = g[i];
        let mut in_word = false;
        let mut j: usize = 0;
        while j < word_vec.len()
            invariant
                j <= word_vec@.len(),
                in_word == exists|k: int| 0 <= k < j && word_vec@[k] == c,
            decreases word_vec@.len() - j,
        {
            if word_vec[j] == c {
                in_word = true;
            }
            j = j + 1;
        }
        let color = if c == word_vec[i] {
            Color::Green
        } else if in_word {
            Color::Yellow
        } else {
            Color::Reset
        };
        proof {
            assert(in_word == word_vec@.contains(c));
            assert(marked_row(guess@, word_vec@).take(i + 1) =~= marked_row(guess@, word_vec@).take(i as int).push(
                (c, color),
            ));
        }
        row.push((c, color));
        i = i + 1;
    }
    assert(marked_row(guess@, word_vec@).take(i as int) =~= marked_row(guess@, word_vec@));
    row
}

/// The colour of a key of the keyboard: green once in the right place,
/// yellow once in the word, the default colour once guessed wrong, for a
/// blank and for a letter that is not offered; white before that.
pub open spec fn key_color(c: char, correct: Set<u32>, misplaced: Set<u32>, used: Set<u32>, available: Set<u32>) -> Color {
    if correct.contains(c as u32) {
        Color::Green
    } else if misplaced.contains(c as u32) {
        Color::Yellow
    } else if used.contains(c as u32) || c == ' ' || (available.len() != 0 && !available.contains(c as u32)) {
        Color::Reset
    } else {
        Color::White
    }
}

/// The colour of a key of the keyboard.
pub fn get_key_color(
    c: char,
    correct: &HashSet<u32>,
    misplaced: &HashSet<u32>,
    used: &HashSet<u32>,
    available: &HashSet<u32>,
) -> (color: Color)
    requires
        available@.finite(),
    ensures
        color == key_color(c, correct@, misplaced@, used@, available@),
{
    let code = c as u32;
    if correct.contains(&code) {
        Color::Green
    } else if misplaced.contains(&code) {
        Color::Yellow
    } else if used.contains(&code) || c == ' ' || (!available.is_empty() && !available.contains(&code)) {
        Color::Reset
    } else {
        Color::White
    }
}

/// The keyboard as it is drawn, three rows of letters.
pub open spec fn keyboard_layout() -> &'static str {
    "Q W E R T Y U I O P\n A S D F G H J K L\n  Z X C V B N M"
}

/// Whether `w` is one of the words.
pub fn is_word(words: &Vec<String>, w: &String) -> (b: bool)
    ensures
        b == exists|i: int| 0 <= i < words@.len() && words@[i]@ == w@,
{
    let mut i: usize = 0;
    while i < words.len()
        invariant
            i <= words@.len(),
            forall|k: int| 0 <= k < i ==> words@[k]@ != w@,
        decreases words@.len() - i,
    {
        if words[i] == *w {
            return true;
        }
        i = i + 1;
    }
    false
}


/// The record after a game won at `attempt`.
pub open spec fn stats_won(s: Stats, attempt: usize) -> Stats {
    Stats {
        won: (s.won + 1) as usize,
        played: (s.played + 1) as usize,
        streak: (s.streak + 1) as usize,
        maxstreak: if s.streak + 1 > s.maxstreak { (s.streak + 1) as usize } else { s.maxstreak },
        dist_1: if attempt == 1 { (s.dist_1 + 1) as usize } else { s.dist_1 },
        dist_2: if attempt == 2 { (s.dist_2 + 1) as usize } else { s.dist_2 },
        dist_3: if attempt == 3 { (s.dist_3 + 1) as usize } else { s.dist_3 },
        dist_4: if attempt == 4 { (s.dist_4 + 1) as usize } else { s.dist_4 },
        dist_5: if attempt == 5 { (s.dist_5 + 1) as usize } else { s.dist_5 },
        dist_6: if attempt == 6 { (s.dist_6 + 1) as usize } else { s.dist_6 },
    }
}

/// The record after a game lost.
pub open spec fn stats_lost(s: Stats) -> Stats {
    Stats { streak: 0, played: (s.played + 1) as usize, ..s }
}

/// Every counter of the record can still grow by `n`.
pub open spec fn stats_room(s: Stats, n: nat) -> bool {
    &&& s.won + n <= usize::MAX
    &&& s.played + n <= usize::MAX
    &&& s.streak + n <= usize::MAX
    &&& s.dist_1 + n <= usize::MAX
    &&& s.dist_2 + n <= usize::MAX
    &&& s.dist_3 + n <= usize::MAX
    &&& s.dist_4 + n <= usize::MAX
    &&& s.dist_5 + n <= usize::MAX
    &&& s.dist_6 + n <= usize::MAX
}

/// How a round ended: won at an attempt, or lost.
#[derive(PartialEq, Eq, Structural, Clone, Copy, Debug)]
pub enum Outcome {
    Won(usize),
    Lost,
}

/// The record, the records saved, and the last outcome, after judging the
/// first `k` guesses: a guess equal to the word wins (and the record is
/// saved after the win); a wrong guess at the last try loses (and the record
/// is saved before the loss is counted).
pub open spec fn judge(
    db: Stats,
    guesses: Seq<Seq<char>>,
    word: Seq<char>,
    tries: nat,
    k: nat,
) -> (Stats, Seq<Stats>, Option<Outcome>)
    decreases k,
{
    if k == 0 {
        (db, Seq::empty(), None)
    } else {
        let prev = judge(db, guesses, word, tries, (k - 1) as nat);
        if guesses[k - 1] == word {
            let s = stats_won(prev.0, k as usize);
            (s, prev.1.push(s), Some(Outcome::Won(k as usize)))
        } else if k == tries {
            (stats_lost(prev.0), prev.1.push(prev.0), Some(Outcome::Lost))
        } else {
            prev
        }
    }
}

/// The counters of the record grow by one at most per guess judged.
proof fn lemma_judge_growth(db: Stats, guesses: Seq<Seq<char>>, word: Seq<char>, tries: nat, k: nat)
    ensures
        ({
            let s = judge(db, guesses, word, tries, k).0;
            &&& s.won <= db.won + k
            &&& s.played <= db.played + k
            &&& s.streak <= db.streak + k
            &&& s.dist_1 <= db.dist_1 + k
            &&& s.dist_2 <= db.dist_2 + k
            &&& s.dist_3 <= db.dist_3 + k
            &&& s.dist_4 <= db.dist_4 + k
            &&& s.dist_5 <= db.dist_5 + k
            &&& s.dist_6 <= db.dist_6 + k
        }),
        judge(db, guesses, word, tries, k).1.len() <= k,
    decreases k,
{
    if k > 0 {
        lemma_judge_growth(db, guesses, word, tries, (k - 1) as nat);
    }
}

/// The letter codes that the rows mark with `color`.
pub open spec fn marked_codes(rows: Seq<Seq<(char, Color)>>, color: Color) -> Set<u32> {
    Set::new(
        |u: u32|
            exists|k: int, i: int|
                0 <= k < rows.len() && 0 <= i < rows[k].len() && #[trigger] rows[k][i].1 == color && rows[k][i].0
                    as u32 == u,
    )
}

/// The views of strings.
pub open spec fn texts(v: Seq<String>) -> Seq<Seq<char>> {
    v.map_values(|s: String| s@)
}

/// The guesses that stand after the last one is dropped when it is not a word.
pub open spec fn kept_guesses(attempts: Seq<String>, words: Seq<String>) -> Seq<String> {
    if attempts.len() > 0 && !(exists|i: int| 0 <= i < words.len() && words[i]@ == attempts.last()@) {
        attempts.drop_last()
    } else {
        attempts
    }
}

/// A row as drawn is the row expected: the marked letters, or an empty row.
pub open spec fn row_shown(r: Option<Vec<(char, Color)>>, expected: Option<Seq<(char, Color)>>) -> bool {
    match r {
        Some(v) => expected == Some(v@),
        None => expected is None,
    }
}

/// The text shown is `s`.
pub open spec fn text_is(t: Option<String>, s: Seq<char>) -> bool {
    match t {
        Some(x) => x@ == s,
        None => false,
    }
}

/// The state of a round after the outcome `o`, for the word `word`.
pub open spec fn ended_as(game_over: bool, won: bool, won_attempt: Option<usize>, text: Option<String>, o: Outcome, word: Seq<char>) -> bool {
    match o {
        Outcome::Won(a) => game_over && won && won_attempt == Some(a) && text_is(text, "     you won!"@),
        Outcome::Lost => game_over && !won && won_attempt is None && text_is(text, "you lost! the word was '"@ + word + "'"@),
    }
}

/// The letter codes that one row marks with `color`.
pub open spec fn row_codes(row: Seq<(char, Color)>, color: Color) -> Set<u32> {
    Set::new(|u: u32| exists|j: int| 0 <= j < row.len() && #[trigger] row[j].1 == color && row[j].0 as u32 == u)
}

/// The codes a list of rows marks grow by those of a further row.
pub(crate) proof fn lemma_marked_codes_push(rows: Seq<Seq<(char, Color)>>, row: Seq<(char, Color)>, color: Color)
    ensures
        marked_codes(rows.push(row), color) == marked_codes(rows, color) + row_codes(row, color),
{
    let t1 = rows.push(row);
    assert forall|u: u32| marked_codes(t1, color).contains(u) == (marked_codes(rows, color).contains(u) || row_codes(row, color).contains(u)) by {
        if marked_codes(t1, color).contains(u) {
            let (k, j) = choose|k: int, j: int| 0 <= k < t1.len() && 0 <= j < t1[k].len() && #[trigger] t1[k][j].1 == color && t1[k][j].0 as u32 == u;
            if k < rows.len() {
                assert(rows[k][j] == t1[k][j]);
            }
        }
        if marked_codes(rows, color).contains(u) {
            let (k, j) = choose|k: int, j: int| 0 <= k < rows.len() && 0 <= j < rows[k].len() && #[trigger] rows[k][j].1 == color && rows[k][j].0 as u32 == u;
            assert(t1[k][j] == rows[k][j]);
        }
        if row_codes(row, color).contains(u) {
            let j = choose|j: int| 0 <= j < row.len() && #[trigger] row[j].1 == color && row[j].0 as u32 == u;
            assert(t1[rows.len() as int][j] == row[j]);
        }
    }
    assert(marked_codes(t1, color) =~= marked_codes(rows, color) + row_codes(row, color));
}

/// Notes the letters of a marked row: green ones as correct, yellow ones as
/// misplaced, the others as used.
pub(crate) fn note_letters(correct: &mut HashSet<u32>, misplaced: &mut HashSet<u32>, used: &mut HashSet<u32>, row: &Vec<(char, Color)>)
    requires
        forall|j: int| 0 <= j < row@.len() ==> (#[trigger] row@[j]).1 != Color::White,
    ensures
        final(correct)@ == old(correct)@ + row_codes(row@, Color::Green),
        final(misplaced)@ == old(misplaced)@ + row_codes(row@, Color::Yellow),
        final(used)@ == old(used)@ + row_codes(row@, Color::Reset),
{
    let mut i: usize = 0;
    while i < row.len()
        invariant
            i <= row@.len(),
            forall|j: int| 0 <= j < row@.len() ==> (#[trigger] row@[j]).1 != Color::White,
            correct@ == old(correct)@ + row_codes(row@.take(i as int), Color::Green),
            misplaced@ == old(misplaced)@ + row_codes(row@.take(i as int), Color::Yellow),
            used@ == old(used)@ + row_codes(row@.take(i as int), Color::Reset),
        decreases row@.len() - i,
    {
        let (c, color) = row[i];
        match color {
            Color::Green => {
                correct.insert(c as u32);
            },
            Color::Yellow => {
                misplaced.insert(c as u32);
            },
            _ => {
                used.insert(c as u32);
            },
        }
        proof {
            let t0 = row@.take(i as int);
            let t1 = row@.take(i + 1);
            assert(t1 =~= t0.push((c, color)));
            assert(row@[i as int] == (c, color));
            assert forall|col: Color| #[trigger] row_codes(t1, col) =~= row_codes(t0, col) + if col == color {
                set![c as u32]
            } else {
                Set::empty()
            } by {
                assert forall|u: u32| row_codes(t1, col).contains(u) == (row_codes(t0, col).contains(u) || (col == color && u == c as u32)) by {
                    if row_codes(t1, col).contains(u) {
                        let j = choose|j: int| 0 <= j < t1.len() && #[trigger] t1[j].1 == col && t1[j].0 as u32 == u;
                        if j < t0.len() {
                            assert(t0[j] == t1[j]);
                        }
                    }
                    if row_codes(t0, col).contains(u) {
                        let j = choose|j: int| 0 <= j < t0.len() && #[trigger] t0[j].1 == col && t0[j].0 as u32 == u;
                        assert(t1[j] == t0[j]);
                    }
                    if col == color && u == c as u32 {
                        assert(t1[i as int] == (c, color));
                    }
                }
            }
            assert(row_codes(t1, Color::Green) == row_codes(t0, Color::Green) + if Color::Green == color { set![c as u32] } else { Set::empty() });
            assert(row_codes(t1, Color::Yellow) == row_codes(t0, Color::Yellow) + if Color::Yellow == color { set![c as u32] } else { Set::empty() });
            assert(row_codes(t1, Color::Reset) == row_codes(t0, Color::Reset) + if Color::Reset == color { set![c as u32] } else { Set::empty() });
            assert(color != Color::White);
        }
        i = i + 1;
    }
    assert(row@.take(row@.len() as int) =~= row@);
}

/// What a frame of the game shows: the rows of guesses (an empty row for a
/// try not taken), whether the last guess was refused, the keyboard, and the
/// records to save, in order.
pub struct Frame {
    pub rows: Vec<Option<Vec<(char, Color)>>>,
    pub not_a_word: bool,
    pub keyboard: Vec<(char, Color)>,
    pub saves: Vec<Stats>,
}

/// What the game does with a line of input.
#[derive(PartialEq, Eq, Structural, Clone, Copy, Debug)]
pub enum InputOutcome {
    /// Go on with the next frame.
    Continue,
    /// The player stops; whether the last round was won.
    Quit(bool),
}

/// A game in progress.
pub struct Wurdle {
    pub word: String,
    pub word_vec: Vec<char>,
    pub word_set: HashSet<u32>,
    pub attempts: Vec<String>,
    pub used_letters: HashSet<u32>,
    pub misplaced_letters: HashSet<u32>,
    pub correct_letters: HashSet<u32>,
    pub game_over: bool,
    pub not_a_word: bool,
    pub game_over_text: Option<String>,
    pub won_attempt: Option<usize>,
    pub won: bool,
}

impl Wurdle {
    /// The word's characters and their codes are those of the word.
    pub open spec fn wf(&self) -> bool {
        &&& self.word_vec@ == self.word@
        &&& self.word_set@ == code_set(self.word@)
    }

    /// A game with a word of the day or a random word, nothing guessed yet.
    pub fn new(daily: bool, words_vec: &Vec<String>) -> (g: Wurdle)
        requires
            words_vec@.len() > 0,
        ensures
            g.wf(),
            exists|i: int| 0 <= i < words_vec@.len() && g.word@ == words_vec@[i]@,
            daily ==> exists|y: i32, m: u32, d: u32|
                1 <= m <= 12 && 1 <= d <= 31 && g.word@ == words_vec@[#[trigger] daily_index_of(y, m, d) as int % (words_vec@.len() as int)]@,
            g.attempts@.len() == 0,
            g.used_letters@.is_empty(),
            g.misplaced_letters@.is_empty(),
            g.correct_letters@.is_empty(),
            !g.game_over,
            !g.not_a_word,
            g.game_over_text.is_none(),
            g.won_attempt.is_none(),
            !g.won,
    {
        let (word, word_vec, word_set) = get_word(daily, words_vec.as_slice());
        Wurdle {
            word,
            word_vec,
            word_set,
            attempts: Vec::new(),
            used_letters: HashSet::new(),
            misplaced_letters: HashSet::new(),
            correct_letters: HashSet::new(),
            game_over: false,
            not_a_word: false,
            game_over_text: None,
            won_attempt: None,
            won: false,
        }
    }

    /// One frame: a last guess that is not a word is dropped; every guess is
    /// marked and its letters noted; a right guess wins and a wrong last try
    /// loses, each counted in the record; and the keyboard is coloured.
    pub fn frame(
        &mut self,
        tries: usize,
        words_vec: &Vec<String>,
        available_letters: &HashSet<u32>,
        db: &mut Stats,
    ) -> (f: Frame)
        requires
            old(self).wf(),
            available_letters@.finite(),
            stats_room(*old(db), tries as nat),
        ensures
            final(self).wf(),
            final(self).word == old(self).word,
            final(self).attempts@ == kept_guesses(old(self).attempts@, words_vec@),
            ({
                let guesses = texts(final(self).attempts@);
                let n = min_len(guesses.len(), tries as nat);
                let rows = Seq::new(n, |k: int| marked_row(guesses[k], old(self).word@));
                let judged = judge(*old(db), guesses, old(self).word@, tries as nat, n);
                &&& f.rows@.len() == tries
                &&& forall|k: int| 0 <= k < tries ==> row_shown(#[trigger] f.rows@[k], if k < n {
                    Some(rows[k])
                } else {
                    None
                })
                &&& final(self).correct_letters@ == old(self).correct_letters@ + marked_codes(rows, Color::Green)
                &&& final(self).misplaced_letters@ == old(self).misplaced_letters@ + marked_codes(rows, Color::Yellow)
                &&& final(self).used_letters@ == old(self).used_letters@ + marked_codes(rows, Color::Reset)
                &&& *final(db) == judged.0
                &&& f.saves@ == judged.1
                &&& match judged.2 {
                    Some(o) => ended_as(final(self).game_over, final(self).won, final(self).won_attempt,
                        final(self).game_over_text, o, old(self).word@),
                    None => final(self).game_over == old(self).game_over && final(self).won == old(self).won
                        && final(self).won_attempt == old(self).won_attempt && final(self).game_over_text
                        == old(self).game_over_text,
                }
            }),
            f.not_a_word == (old(self).not_a_word || final(self).attempts@.len() < old(self).attempts@.len()),
            !final(self).not_a_word,
            f.keyboard@.len() == keyboard_layout()@.len(),
            forall|j: int| 0 <= j < f.keyboard@.len() ==> (#[trigger] f.keyboard@[j]).0 == keyboard_layout()@[j] && f.keyboard@[j].1
                == key_color(
                keyboard_layout()@[j],
                final(self).correct_letters@,
                final(self).misplaced_letters@,
                final(self).used_letters@,
                available_letters@,
            ),
    {
        let ghost old_attempts = self.attempts@;
        if self.attempts.len() > 0 {
            let last_is_word = is_word(words_vec, &self.attempts[self.attempts.len() - 1]);
            if !last_is_word {
                self.attempts.pop();
                self.not_a_word = true;
            }
        }
        proof {
            assert(self.attempts@ == kept_guesses(old_attempts, words_vec@)) by {
                if old_attempts.len() > 0 {
                    assert(old_attempts.last() == old_attempts[old_attempts.len() - 1]);
                }
            }
        }
        let ghost guesses = texts(self.attempts@);
        let ghost n = min_len(guesses.len(), tries as nat);
        let ghost rows = Seq::new(n, |k: int| marked_row(guesses[k], self.word@));
        let ghost db0 = *db;
        let ghost correct0 = self.correct_letters@;
        let ghost misplaced0 = self.misplaced_letters@;
        let ghost used0 = self.used_letters@;
        let ghost over0 = (self.game_over, self.won, self.won_attempt, self.game_over_text);
        let mut out_rows: Vec<Option<Vec<(char, Color)>>> = Vec::new();
        let mut saves: Vec<Stats> = Vec::new();
        let mut attempt: usize = 0;
        while attempt < tries
            invariant
                attempt <= tries,
                self.wf(),
                self.word == old(self).word,
                self.not_a_word == (old(self).not_a_word || self.attempts@.len() < old_attempts.len()),
                guesses == texts(self.attempts@),
                n == min_len(guesses.len(), tries as nat),
                rows == Seq::new(n, |k: int| marked_row(guesses[k], self.word@)),
                stats_room(db0, tries as nat),
                out_rows@.len() == attempt,
                forall|k: int| 0 <= k < attempt ==> row_shown(#[trigger] out_rows@[k], if k < n {
                    Some(rows[k])
                } else {
                    None
                }),
                self.correct_letters@ == correct0 + marked_codes(rows.take(min_len(attempt as nat, n) as int), Color::Green),
                self.misplaced_letters@ == misplaced0 + marked_codes(rows.take(min_len(attempt as nat, n) as int), Color::Yellow),
                self.used_letters@ == used0 + marked_codes(rows.take(min_len(attempt as nat, n) as int), Color::Reset),
                *db == judge(db0, guesses, self.word@, tries as nat, min_len(attempt as nat, n)).0,
                saves@ == judge(db0, guesses, self.word@, tries as nat, min_len(attempt as nat, n)).1,
                match judge(db0, guesses, self.word@, tries as nat, min_len(attempt as nat, n)).2 {
                    Some(o) => ended_as(self.game_over, self.won, self.won_attempt, self.game_over_text, o, self.word@),
                    None => (self.game_over, self.won, self.won_attempt, self.game_over_text) == over0,
                },
                self.attempts@ == kept_guesses(old_attempts, words_vec@),
            decreases tries - attempt,
        {
            if attempt < self.attempts.len() {
                let row = score_attempt(self.attempts[attempt].as_str(), &self.word_vec);
                proof {
                    assert(row@ == rows[attempt as int]);
                    assert forall|j: int| 0 <= j < row@.len() implies (#[trigger] row@[j]).1 != Color::White by {
                        assert(row@[j] == marked_row(guesses[attempt as int], self.word@)[j]);
                    }
                    let t0 = rows.take(attempt as int);
                    let t1 = rows.take(attempt + 1);
                    assert(min_len(attempt as nat, n) == attempt);
                    assert(min_len((attempt + 1) as nat, n) == attempt + 1);
                    assert(t1 =~= t0.push(row@));
                    lemma_marked_codes_push(t0, row@, Color::Green);
                    lemma_marked_codes_push(t0, row@, Color::Yellow);
                    lemma_marked_codes_push(t0, row@, Color::Reset);
                    lemma_judge_growth(db0, guesses, self.word@, tries as nat, attempt as nat);
                }
                note_letters(&mut self.correct_letters, &mut self.misplaced_letters, &mut self.used_letters, &row);
                if self.attempts[attempt] == self.word {
                    self.game_over_text = Some("     you won!".to_owned());
                    self.game_over = true;
                    db.won(attempt + 1);
                    saves.push(*db);
                    self.won_attempt = Some(attempt + 1);
                    self.won = true;
                } else if attempt + 1 == tries {
                    let mut text = "you lost! the word was '".to_owned();
                    text.append(self.word.as_str());
                    text.append("'");
                    self.game_over_text = Some(text);
                    self.game_over = true;
                    self.won_attempt = None;
                    self.won = false;
                    saves.push(*db);
                    db.lost();
                }
                out_rows.push(Some(row));
            } else {
                proof {
                    assert(min_len(attempt as nat, n) == n);
                    assert(min_len((attempt + 1) as nat, n) == n);
                }
                out_rows.push(None);
            }
            attempt = attempt + 1;
        }
        proof {
            assert(min_len(tries as nat, n) == n);
            assert(rows.take(n as int) =~= rows);
        }
        let was_refused = self.not_a_word;
        self.not_a_word = false;
        let layout = "Q W E R T Y U I O P\n A S D F G H J K L\n  Z X C V B N M";
        let keys = chars_of(layout);
        let mut keyboard: Vec<(char, Color)> = Vec::new();
        let mut j: usize = 0;
        while j < keys.len()
            invariant
                j <= keys@.len(),
                keys@ == keyboard_layout()@,
                available_letters@.finite(),
                keyboard@.len() == j,
                forall|m: int| 0 <= m < j ==> (#[trigger] keyboard@[m]).0 == keys@[m] && keyboard@[m].1 == key_color(
                    keys@[m],
                    self.correct_letters@,
                    self.misplaced_letters@,
                    self.used_letters@,
                    available_letters@,
                ),
            decreases keys@.len() - j,
        {
            let c = keys[j];
            let color = get_key_color(c, &self.correct_letters, &self.misplaced_letters, &self.used_letters, available_letters);
            keyboard.push((c, color));
            j = j + 1;
        }
        Frame { rows: out_rows, not_a_word: was_refused, keyboard, saves }
    }

    /// A line of input: after a round, `y` starts a new round with a random
    /// word and `n` stops the game; during a round the line, in uppercase, is
    /// the next guess.
    pub fn input(&mut self, line: &String, words_vec: &Vec<String>) -> (r: InputOutcome)
        requires
            old(self).wf(),
            words_vec@.len() > 0,
        ensures
            final(self).wf(),
            !old(self).game_over ==> r == InputOutcome::Continue && final(self).attempts@.len() == old(self).attempts@.len() + 1
                && final(self).attempts@.last()@ == uppercase_of(line@) && final(self).attempts@.drop_last() == old(self).attempts@
                && final(self).word == old(self).word && final(self).game_over == old(self).game_over,
            old(self).game_over && line@ == "n"@ ==> r == InputOutcome::Quit(old(self).won),
            old(self).game_over && line@ == "y"@ ==> r == InputOutcome::Continue && !final(self).game_over
                && final(self).attempts@.len() == 0 && final(self).used_letters@.is_empty()
                && final(self).misplaced_letters@.is_empty() && final(self).correct_letters@.is_empty()
                && final(self).game_over_text is None && final(self).won == old(self).won
                && final(self).won_attempt == old(self).won_attempt
                && exists|i: int| 0 <= i < words_vec@.len() && final(self).word@ == words_vec@[i]@,
            old(self).game_over && line@ != "n"@ && line@ != "y"@ ==> r == InputOutcome::Continue && final(self).game_over,
    {
        proof {
            reveal_strlit("y");
            reveal_strlit("n");
            assert("y"@ != "n"@) by {
                assert("y"@[0] == 'y');
                assert("n"@[0] == 'n');
            }
        }
        if self.game_over {
            let yes = "y".to_owned();
            let no = "n".to_owned();
            if *line == yes {
                self.game_over = false;
                let (word, word_vec, word_set) = get_word(false, words_vec.as_slice());
                self.word = word;
                self.word_vec = word_vec;
                self.word_set = word_set;
                self.attempts.clear();
                self.used_letters.clear();
                self.misplaced_letters.clear();
                self.correct_letters.clear();
                self.game_over_text = None;
                InputOutcome::Continue
            } else if *line == no {
                InputOutcome::Quit(self.won)
            } else {
                InputOutcome::Continue
            }
        } else {
            let guess = str_to_uppercase(line.as_str());
            self.attempts.push(guess);
            InputOutcome::Continue
        }
    }
}

} // verus!
