use wgames::wordle::{colorize, daily_index, get_word, pick_word, upper_words, word_for, Color, Stats};
use wgames::wordle_classic;

#[test]
fn colors() {
    assert_eq!(colorize("A".to_string(), Color::Green), "\x1b[42mA\x1b[0m");
    assert_eq!(colorize("xy".to_string(), Color::Reset), "\x1b[0mxy\x1b[0m");
    assert_eq!(wordle_classic::colorize('b', Color::Reset), "\x1b[30mb\x1b[0m");
    assert_eq!(wordle_classic::colorize('b', Color::White), "\x1b[47mb\x1b[0m");
}

#[test]
fn word_choice() {
    assert_eq!(daily_index(2024, 3, 5), (2024 << 2) | (3 << 2) | 5);
    let words = vec!["APPLE".to_string(), "BERRY".to_string(), "CHERRY".to_string()];
    let (w, v, s) = pick_word(&words, 4);
    assert_eq!(w, "BERRY");
    assert_eq!(v, vec!['B', 'E', 'R', 'R', 'Y']);
    assert_eq!(s.len(), 4);
    assert!(s.contains(&('R' as u32)));
    let (w, _, _) = get_word(false, &words);
    assert!(words.contains(&w));
    let (w, _, _) = get_word(true, &words);
    assert!(words.contains(&w));
}

#[test]
fn record_updates() {
    let mut s = Stats::empty();
    s.won(3);
    s.won(1);
    assert_eq!((s.played, s.won, s.streak, s.maxstreak), (2, 2, 2, 2));
    assert_eq!((s.dist_1, s.dist_3), (1, 1));
    s.lost();
    assert_eq!((s.played, s.won, s.streak, s.maxstreak), (3, 2, 0, 2));
    s.won(9);
    assert_eq!((s.played, s.won, s.streak, s.maxstreak), (4, 3, 1, 2));
    assert_eq!(s.dist_1 + s.dist_2 + s.dist_3 + s.dist_4 + s.dist_5 + s.dist_6, 2);
}

#[test]
fn record_text_round_trip() {
    let mut s = Stats::empty();
    s.won(2);
    s.lost();
    s.won(6);
    let text = s.to_text();
    assert_eq!(text, "3\n2\n1\n1\n0\n1\n0\n0\n0\n1");
    assert_eq!(Stats::from_text(&text), s);
    assert_eq!(Stats::from_text("5\n4\n3\n2\n1\n0\n0\n0\n0\n+7\nextra"), Stats {
        played: 5,
        won: 4,
        streak: 3,
        maxstreak: 2,
        dist_1: 1,
        dist_2: 0,
        dist_3: 0,
        dist_4: 0,
        dist_5: 0,
        dist_6: 7,
    });
}

use std::collections::HashSet;
use wgames::wordle::{get_key_color, is_word, score_attempt, InputOutcome, Wurdle};

fn game_with(word: &str) -> Wurdle {
    let words = vec![word.to_string()];
    Wurdle::new(false, &words)
}

#[test]
fn marks_of_a_guess() {
    let word: Vec<char> = "CRANE".chars().collect();
    let row = score_attempt("CANOE", &word);
    assert_eq!(
        row,
        vec![('C', Color::Green), ('A', Color::Yellow), ('N', Color::Yellow), ('O', Color::Reset), ('E', Color::Green)]
    );
    assert_eq!(score_attempt("CRANES", &word).len(), 5);
    assert_eq!(score_attempt("CR", &word), vec![('C', Color::Green), ('R', Color::Green)]);
}

#[test]
fn keyboard_colors() {
    let correct: HashSet<u32> = ['A' as u32].into_iter().collect();
    let misplaced: HashSet<u32> = ['B' as u32, 'A' as u32].into_iter().collect();
    let used: HashSet<u32> = ['C' as u32].into_iter().collect();
    let none: HashSet<u32> = HashSet::new();
    assert_eq!(get_key_color('A', &correct, &misplaced, &used, &none), Color::Green);
    assert_eq!(get_key_color('B', &correct, &misplaced, &used, &none), Color::Yellow);
    assert_eq!(get_key_color('C', &correct, &misplaced, &used, &none), Color::Reset);
    assert_eq!(get_key_color(' ', &correct, &misplaced, &used, &none), Color::Reset);
    assert_eq!(get_key_color('D', &correct, &misplaced, &used, &none), Color::White);
    let offered: HashSet<u32> = ['E' as u32].into_iter().collect();
    assert_eq!(get_key_color('D', &correct, &misplaced, &used, &offered), Color::Reset);
    assert_eq!(get_key_color('E', &correct, &misplaced, &used, &offered), Color::White);
}

#[test]
fn words_are_looked_up() {
    let words = vec!["ONE".to_string(), "TWO".to_string()];
    assert!(is_word(&words, &"TWO".to_string()));
    assert!(!is_word(&words, &"two".to_string()));
}

#[test]
fn a_round_won_and_restarted() {
    let words = vec!["CRANE".to_string(), "HOUSE".to_string()];
    let mut game = game_with("CRANE");
    assert_eq!(game.word, "CRANE");
    let mut db = Stats::empty();
    let none = HashSet::new();
    assert_eq!(game.input(&"house".to_string(), &words), InputOutcome::Continue);
    assert_eq!(game.attempts, vec!["HOUSE".to_string()]);
    let f = game.frame(6, &words, &none, &mut db);
    assert_eq!(f.rows.len(), 6);
    assert!(f.rows[0].is_some());
    assert!(f.rows[1].is_none());
    assert!(!game.game_over);
    assert!(game.correct_letters.contains(&('E' as u32)));
    assert!(game.misplaced_letters.is_empty());
    assert!(game.used_letters.contains(&('H' as u32)));
    assert!(f.saves.is_empty());
    game.input(&"crane".to_string(), &words);
    let f = game.frame(6, &words, &none, &mut db);
    assert!(game.game_over);
    assert!(game.won);
    assert_eq!(game.won_attempt, Some(2));
    assert_eq!(game.game_over_text.as_deref(), Some("     you won!"));
    assert_eq!(f.saves.len(), 1);
    assert_eq!((db.played, db.won, db.dist_2), (1, 1, 1));
    assert!(f.keyboard.contains(&('C', Color::Green)));
    assert!(f.keyboard.contains(&('Q', Color::White)));
    assert_eq!(game.input(&"maybe".to_string(), &words), InputOutcome::Continue);
    assert!(game.game_over);
    assert_eq!(game.input(&"y".to_string(), &words), InputOutcome::Continue);
    assert!(!game.game_over);
    assert!(game.attempts.is_empty());
    assert!(game.correct_letters.is_empty());
    assert_eq!(game.input(&"x".to_string(), &words), InputOutcome::Continue);
}

#[test]
fn a_guess_that_is_no_word_is_dropped() {
    let words = vec!["CRANE".to_string()];
    let mut game = game_with("CRANE");
    let mut db = Stats::empty();
    game.input(&"zzzzz".to_string(), &words);
    let f = game.frame(6, &words, &HashSet::new(), &mut db);
    assert!(f.not_a_word);
    assert!(game.attempts.is_empty());
    assert!(!game.not_a_word);
    let f = game.frame(6, &words, &HashSet::new(), &mut db);
    assert!(!f.not_a_word);
}

#[test]
fn a_round_lost_at_the_last_try() {
    let words = vec!["CRANE".to_string(), "HOUSE".to_string()];
    let mut game = game_with("CRANE");
    let mut db = Stats::empty();
    db.streak = 3;
    game.input(&"house".to_string(), &words);
    game.input(&"house".to_string(), &words);
    let f = game.frame(2, &words, &HashSet::new(), &mut db);
    assert!(game.game_over);
    assert!(!game.won);
    assert_eq!(game.game_over_text.as_deref(), Some("you lost! the word was 'CRANE'"));
    assert_eq!(f.saves.len(), 1);
    assert_eq!(f.saves[0].played, 0);
    assert_eq!(f.saves[0].streak, 3);
    assert_eq!((db.played, db.streak), (1, 0));
    assert_eq!(game.input(&"n".to_string(), &words), InputOutcome::Quit(false));
}

#[test]
fn the_date_or_the_roll_picks_the_word() {
    let words = vec!["APPLE".to_string(), "BERRY".to_string(), "CHERRY".to_string()];
    let (w, _, _) = word_for(false, (2024, 5, 6), 5, &words);
    assert_eq!(w, "CHERRY");
    let i = daily_index(2024, 5, 6) % 3;
    let (w, _, _) = word_for(true, (2024, 5, 6), 5, &words);
    assert_eq!(w, words[i]);
}

#[test]
fn the_word_list_is_read_in_uppercase() {
    assert_eq!(upper_words("apple\nBerry\n"), vec!["APPLE".to_string(), "BERRY".to_string(), "".to_string()]);
    assert_eq!(upper_words("kiwi"), vec!["KIWI".to_string()]);
}
