//! The first version of the word-guessing game, which colours single
//! characters and darkens the letters not in the word.

use std::collections::HashSet;
use vstd::prelude::*;
use vstd::string::*;
use crate::text::{lowercase_text_of, pieces_of, push_char, split_pieces, str_to_lowercase};
pub use crate::wordle::Color;
use crate::wordle::{
    chars_of, get_word, is_word, kept_guesses, lemma_marked_codes_push, marked_codes, marked_row, min_len, note_letters,
    row_shown, score_attempt, text_is, texts, code_set,
};

verus! {

/// The escape sequence that selects a colour; here the default colour is a
/// dark foreground.
pub open spec fn classic_color_code(color: Color) -> &'static str {
    match color {
        Color::Green => "\x1b[42m",
        Color::Yellow => "\x1b[43m",
        Color::White => "\x1b[47m",
        Color::Reset => "\x1b[30m",
    }
}

/// The character `input` in the colour `color`, followed by the sequence
/// that resets colours.
pub fn colorize(input: char, color: Color) -> (s: String)
    ensures
        s@ == classic_color_code(color)@ + seq![input] + "\x1b[0m"@,
{
    let code: &str = match color {
        Color::Green => "\x1b[42m",
        Color::Yellow => "\x1b[43m",
        Color::White => "\x1b[47m",
        Color::Reset => "\x1b[30m",
    };
    let mut s = code.to_owned();
    push_char(&mut s, input);
    s.append("\x1b[0m");
    s
}

/// The number of bytes `c` takes in UTF-8.
pub open spec fn char_bytes(c: char) -> nat {
    let n = c as u32;
    if n < 0x80 {
        1
    } else if n < 0x800 {
        2
    } else if n < 0x10000 {
        3
    } else {
        4
    }
}

/// The number of bytes `s` takes in UTF-8, as `str::len` counts them.
pub open spec fn utf8_len(s: Seq<char>) -> nat
    decreases s.len(),
{
    if s.len() == 0 {
        0
    } else {
        utf8_len(s.drop_last()) + char_bytes(s.last())
    }
}

/// The bytes of a character in UTF-8.
fn bytes_of(c: char) -> (n: usize)
    ensures
        n == char_bytes(c),
{
    let u = c as u32;
    if u < 0x80 {
        1
    } else if u < 0x800 {
        2
    } else if u < 0x10000 {
        3
    } else {
        4
    }
}

proof fn lemma_utf8_grows(s: Seq<char>, i: int)
    requires
        0 <= i <= s.len(),
    ensures
        utf8_len(s.take(i)) <= utf8_len(s),
    decreases s.len() - i,
{
    if i < s.len() {
        lemma_utf8_grows(s, i + 1);
        assert(s.take(i + 1).drop_last() =~= s.take(i));
    } else {
        assert(s.take(i) =~= s);
    }
}

/// Whether `s` takes five bytes in UTF-8.
fn five_bytes(s: &str) -> (b: bool)
    ensures
        b == (utf8_len(s@) == 5),
{
    let n = s.unicode_len();
    let mut total: usize = 0;
    let mut i: usize = 0;
    while i < n
        invariant
            i <= n,
            n == s@.len(),
            total == utf8_len(s@.take(i as int)),
            total <= 5,
        decreases n - i,
    {
        let c = s.get_char(i);
        proof {
            assert(s@.take(i + 1).drop_last() =~= s@.take(i as int));
            assert(s@.take(i + 1).last() == c);
        }
        let k = bytes_of(c);
        if total + k > 5 {
            proof {
                lemma_utf8_grows(s@, i + 1);
            }
            return false;
        }
        total = total + k;
        i = i + 1;
    }
    assert(s@.take(n as int) =~= s@);
    total == 5
}

/// The pieces of five bytes.
pub open spec fn five_byte_pieces(pieces: Seq<Seq<char>>) -> Seq<Seq<char>> {
    pieces.filter(|p: Seq<char>| utf8_len(p) == 5)
}

/// The words of a list: its lines of five bytes, in lowercase.
pub fn classic_words(text: &str) -> (words: Vec<String>)
    ensures
        texts(words@) == five_byte_pieces(split_pieces(text@)).map_values(|l: Seq<char>| lowercase_text_of(l)),
{
    let pieces = pieces_of(text);
    let ghost ps = split_pieces(text@);
    let ghost pred = |p: Seq<char>| utf8_len(p) == 5;
    let mut words: Vec<String> = Vec::new();
    let mut i: usize = 0;
    proof {
        assert(ps.take(0).filter(pred) =~= Seq::<Seq<char>>::empty()) by {
            reveal(Seq::filter);
        }
    }
    while i < pieces.len()
        invariant
            i <= pieces@.len(),
            pieces@.len() == ps.len(),
            forall|k: int| 0 <= k < pieces@.len() ==> (#[trigger] pieces@[k])@ == ps[k],
            pred == (|p: Seq<char>| utf8_len(p) == 5),
            texts(words@) == ps.take(i as int).filter(pred).map_values(|l: Seq<char>| lowercase_text_of(l)),
        decreases pieces@.len() - i,
    {
        let ghost p = ps[i as int];
        let ghost w0 = words@;
        proof {
            assert(ps.take(i + 1) =~= ps.take(i as int).push(p));
            ps.take(i as int).lemma_filter_push(p, pred);
        }
        if five_bytes(pieces[i].as_str()) {
            let w = str_to_lowercase(pieces[i].as_str());
            words.push(w);
            proof {
                assert(texts(words@) =~= texts(w0).push(lowercase_text_of(p)));
                assert(ps.take(i + 1).filter(pred).map_values(|l: Seq<char>| lowercase_text_of(l)) =~= ps.take(i as int).filter(
                    pred,
                ).map_values(|l: Seq<char>| lowercase_text_of(l)).push(lowercase_text_of(p)));
            }
        }
        i = i + 1;
    }
    assert(ps.take(pieces@.len() as int) =~= ps);
    words
}

/// How a round stands after the first `k` guesses are judged: won where the
/// last guess that decided was the word, lost where a wrong guess took the
/// last try, going on (`None`) before that.
pub open spec fn classic_outcome(guesses: Seq<Seq<char>>, word: Seq<char>, tries: nat, k: nat) -> Option<bool>
    decreases k,
{
    if k == 0 {
        None
    } else if guesses[k - 1] == word {
        Some(true)
    } else if k == tries {
        Some(false)
    } else {
        classic_outcome(guesses, word, tries, (k - 1) as nat)
    }
}

/// The round is over, won or lost, with the text that says so and asks
/// whether to play again.
pub open spec fn classic_ended(game_over: bool, text: Option<String>, won: bool, word: Seq<char>) -> bool {
    &&& game_over
    &&& if won {
        text_is(text, "you won! restart? (y/n)\n"@)
    } else {
        text_is(text, "you lost! the word was '"@ + word + "'\nrestart? (y/n)\n"@)
    }
}

/// The colour of a key: green once in the right place, yellow once in the
/// word, the dark default once guessed wrong, white before that.
pub open spec fn classic_key_color(c: char, correct: Set<u32>, misplaced: Set<u32>, used: Set<u32>) -> Color {
    if correct.contains(c as u32) {
        Color::Green
    } else if misplaced.contains(c as u32) {
        Color::Yellow
    } else if used.contains(c as u32) {
        Color::Reset
    } else {
        Color::White
    }
}

/// The keys, in the order they are drawn.
pub open spec fn classic_keyboard() -> &'static str {
    "abcdefghijklmnopqrstuvwxyz"
}

/// What a frame of the game shows: the rows of guesses (an empty row for a
/// try not taken), whether the last guess was refused, and the keyboard.
pub struct ClassicFrame {
    pub rows: Vec<Option<Vec<(char, Color)>>>,
    pub not_a_word: bool,
    pub keyboard: Vec<(char, Color)>,
}

/// What the game does with a line of input.
#[derive(PartialEq, Eq, Structural, Clone, Copy, Debug)]
pub enum ClassicInput {
    /// Go on with the next frame.
    Continue,
    /// The player stops.
    Quit,
}

/// A round of the first version of the game.
pub struct ClassicWurdle {
    pub word: String,
    pub word_vec: Vec<char>,
    pub word_set: HashSet<u32>,
    pub attempts: Vec<String>,
    pub used_letters: HashSet<u32>,
    pub misplaced_letters: HashSet<u32>,
    pub correct_letters: HashSet<u32>,
    pub game_over: bool,
    pub not_a_word: bool,
    pub game_over_text: Option<String>,
}

impl ClassicWurdle {
    /// The word's characters and their codes are those of the word.
    pub open spec fn wf(&self) -> bool {
        &&& self.word_vec@ == self.word@
        &&& self.word_set@ == code_set(self.word@)
    }

    /// A round with the word of the day or a random word, nothing guessed
    /// yet.
    pub fn new(daily: bool, words: &Vec<String>) -> (g: ClassicWurdle)
        requires
            words@.len() > 0,
        ensures
            g.wf(),
            exists|i: int| 0 <= i < words@.len() && g.word@ == words@[i]@,
            daily ==> exists|y: i32, m: u32, d: u32|
                1 <= m <= 12 && 1 <= d <= 31 && g.word@ == words@[#[trigger] crate::wordle::daily_index_of(y, m, d) as int
                    % (words@.len() as int)]@,
            g.attempts@.len() == 0,
            g.used_letters@.is_empty(),
            g.misplaced_letters@.is_empty(),
            g.correct_letters@.is_empty(),
            !g.game_over,
            !g.not_a_word,
            g.game_over_text.is_none(),
    {
        let (word, word_vec, word_set) = get_word(daily, words.as_slice());
        ClassicWurdle {
            word,
            word_vec,
            word_set,
            attempts: Vec::new(),
            used_letters: HashSet::new(),
            misplaced_letters: HashSet::new(),
            correct_letters: HashSet::new(),
            game_over: false,
            not_a_word: false,
            game_over_text: None,
        }
    }

    /// One frame: a last guess that is not a word is dropped; every guess is
    /// marked and its letters noted; a right guess wins and a wrong last try
    /// loses; and the keyboard is coloured.
    pub fn frame(&mut self, tries: usize, words: &Vec<String>) -> (f: ClassicFrame)
        requires
            old(self).wf(),
        ensures
            final(self).wf(),
            final(self).word == old(self).word,
            final(self).attempts@ == kept_guesses(old(self).attempts@, words@),
            ({
                let guesses = texts(final(self).attempts@);
                let n = min_len(guesses.len(), tries as nat);
                let rows = Seq::new(n, |k: int| marked_row(guesses[k], old(self).word@));
                &&& f.rows@.len() == tries
                &&& forall|k: int| 0 <= k < tries ==> row_shown(#[trigger] f.rows@[k], if k < n {
                    Some(rows[k])
                } else {
                    None
                })
                &&& final(self).correct_letters@ == old(self).correct_letters@ + marked_codes(rows, Color::Green)
                &&& final(self).misplaced_letters@ == old(self).misplaced_letters@ + marked_codes(rows, Color::Yellow)
                &&& final(self).used_letters@ == old(self).used_letters@ + marked_codes(rows, Color::Reset)
                &&& match classic_outcome(guesses, old(self).word@, tries as nat, n) {
                    Some(won) => classic_ended(final(self).game_over, final(self).game_over_text, won, old(self).word@),
                    None => final(self).game_over == old(self).game_over && final(self).game_over_text
                        == old(self).game_over_text,
                }
            }),
            f.not_a_word == (old(self).not_a_word || final(self).attempts@.len() < old(self).attempts@.len()),
            !final(self).not_a_word,
            f.keyboard@.len() == classic_keyboard()@.len(),
            forall|j: int| 0 <= j < f.keyboard@.len() ==> (#[trigger] f.keyboard@[j]).0 == classic_keyboard()@[j] && f.keyboard@[j].1
                == classic_key_color(
                classic_keyboard()@[j],
                final(self).correct_letters@,
                final(self).misplaced_letters@,
                final(self).used_letters@,
            ),
    {
        let ghost old_attempts = self.attempts@;
        if self.attempts.len() > 0 {
            let last_is_word = is_word(words, &self.attempts[self.attempts.len() - 1]);
            if !last_is_word {
                self.attempts.pop();
                self.not_a_word = true;
            }
        }
        proof {
            assert(self.attempts@ == kept_guesses(old_attempts, words@)) by {
                if old_attempts.len() > 0 {
                    assert(old_attempts.last() == old_attempts[old_attempts.len() - 1]);
                }
            }
        }
        let ghost guesses = texts(self.attempts@);
        let ghost n = min_len(guesses.len(), tries as nat);
        let ghost rows = Seq::new(n, |k: int| marked_row(guesses[k], self.word@));
        let ghost correct0 = self.correct_letters@;
        let ghost misplaced0 = self.misplaced_letters@;
        let ghost used0 = self.used_letters@;
        let ghost over0 = (self.game_over, self.game_over_text);
        let mut out_rows: Vec<Option<Vec<(char, Color)>>> = Vec::new();
        let mut attempt: usize = 0;
        while attempt < tries
            invariant
                attempt <= tries,
                self.wf(),
                self.word == old(self).word,
                self.not_a_word == (old(self).not_a_word || self.attempts@.len() < old_attempts.len()),
                guesses == texts(self.attempts@),
                n == min_len(guesses.len(), tries as nat),
                rows == Seq::new(n, |k: int| marked_row(guesses[k], self.word@)),
                out_rows@.len() == attempt,
                forall|k: int| 0 <= k < attempt ==> row_shown(#[trigger] out_rows@[k], if k < n {
                    Some(rows[k])
                } else {
                    None
                }),
                self.correct_letters@ == correct0 + marked_codes(rows.take(min_len(attempt as nat, n) as int), Color::Green),
                self.misplaced_letters@ == misplaced0 + marked_codes(rows.take(min_len(attempt as nat, n) as int), Color::Yellow),
                self.used_letters@ == used0 + marked_codes(rows.take(min_len(attempt as nat, n) as int), Color::Reset),
                match classic_outcome(guesses, self.word@, tries as nat, min_len(attempt as nat, n)) {
                    Some(won) => classic_ended(self.game_over, self.game_over_text, won, self.word@),
                    None => (self.game_over, self.game_over_text) == over0,
                },
                self.attempts@ == kept_guesses(old_attempts, words@),
            decreases tries - attempt,
        {
            if attempt < self.attempts.len() {
                let row = score_attempt(self.attempts[attempt].as_str(), &self.word_vec);
                proof {
                    assert(row@ == rows[attempt as int]);
                    assert forall|j: int| 0 <= j < row@.len() implies (#[trigger] row@[j]).1 != Color::White by {
                        assert(row@[j] == marked_row(guesses[attempt as int], self.word@)[j]);
                    }
                    let t0 = rows.take(attempt as int);
                    let t1 = rows.take(attempt + 1);
                    assert(min_len(attempt as nat, n) == attempt);
                    assert(min_len((attempt + 1) as nat, n) == attempt + 1);
                    assert(t1 =~= t0.push(row@));
                    lemma_marked_codes_push(t0, row@, Color::Green);
                    lemma_marked_codes_push(t0, row@, Color::Yellow);
                    lemma_marked_codes_push(t0, row@, Color::Reset);
                }
                note_letters(&mut self.correct_letters, &mut self.misplaced_letters, &mut self.used_letters, &row);
                if self.attempts[attempt] == self.word {
                    self.game_over_text = Some("you won! restart? (y/n)\n".to_owned());
                    self.game_over = true;
                } else if attempt + 1 == tries {
                    let mut text = "you lost! the word was '".to_owned();
                    text.append(self.word.as_str());
                    text.append("'\nrestart? (y/n)\n");
                    self.game_over_text = Some(text);
                    self.game_over = true;
                }
                out_rows.push(Some(row));
            } else {
                proof {
                    assert(min_len(attempt as nat, n) == n);
                    assert(min_len((attempt + 1) as nat, n) == n);
                }
                out_rows.push(None);
            }
            attempt = attempt + 1;
        }
        proof {
            assert(min_len(tries as nat, n) == n);
            assert(rows.take(n as int) =~= rows);
        }
        let was_refused = self.not_a_word;
        self.not_a_word = false;
        let keys = chars_of("abcdefghijklmnopqrstuvwxyz");
        let mut keyboard: Vec<(char, Color)> = Vec::new();
        let mut j: usize = 0;
        while j < keys.len()
            invariant
                j <= keys@.len(),
                keys@ == classic_keyboard()@,
                keyboard@.len() == j,
                forall|m: int| 0 <= m < j ==> (#[trigger] keyboard@[m]).0 == keys@[m] && keyboard@[m].1 == classic_key_color(
                    keys@[m],
                    self.correct_letters@,
                    self.misplaced_letters@,
                    self.used_letters@,
                ),
            decreases keys@.len() - j,
        {
            let c = keys[j];
            let code = c as u32;
            let color = if self.correct_letters.contains(&code) {
                Color::Green
            } else if self.misplaced_letters.contains(&code) {
                Color::Yellow
            } else if self.used_letters.contains(&code) {
                Color::Reset
            } else {
                Color::White
            };
            keyboard.push((c, color));
            j = j + 1;
        }
        ClassicFrame { rows: out_rows, not_a_word: was_refused, keyboard }
    }

    /// A line of input: after a round, `y` starts a new round with a random
    /// word and `n` stops the game; during a round the line is the next
    /// guess.
    pub fn input(&mut self, line: &String, words: &Vec<String>) -> (r: ClassicInput)
        requires
            old(self).wf(),
            words@.len() > 0,
        ensures
            final(self).wf(),
            !old(self).game_over ==> r == ClassicInput::Continue && final(self).attempts@ == old(self).attempts@.push(*line)
                && final(self).word == old(self).word && final(self).game_over == old(self).game_over,
            old(self).game_over && line@ == "n"@ ==> r == ClassicInput::Quit,
            old(self).game_over && line@ == "y"@ ==> r == ClassicInput::Continue && !final(self).game_over
                && final(self).attempts@.len() == 0 && final(self).used_letters@.is_empty()
                && final(self).misplaced_letters@.is_empty() && final(self).correct_letters@.is_empty()
                && final(self).game_over_text is None
                && exists|i: int| 0 <= i < words@.len() && final(self).word@ == words@[i]@,
            old(self).game_over && line@ != "n"@ && line@ != "y"@ ==> r == ClassicInput::Continue && final(self).game_over
                && final(self).attempts == old(self).attempts,
    {
        proof {
            reveal_strlit("y");
            reveal_strlit("n");
            assert("y"@ != "n"@) by {
                assert("y"@[0] == 'y');
                assert("n"@[0] == 'n');
            }
        }
        if self.game_over {
            let yes = "y".to_owned();
            let no = "n".to_owned();
            if *line == yes {
                self.game_over = false;
                let (word, word_vec, word_set) = get_word(false, words.as_slice());
                self.word = word;
                self.word_vec = word_vec;
                self.word_set = word_set;
                self.attempts.clear();
                self.used_letters.clear();
                self.misplaced_letters.clear();
                self.correct_letters.clear();
                self.game_over_text = None;
                ClassicInput::Continue
            } else if *line == no {
                ClassicInput::Quit
            } else {
                ClassicInput::Continue
            }
        } else {
            self.attempts.push(line.clone());
            ClassicInput::Continue
        }
    }
}

} // verus!
