use wgames::wordle_classic::{classic_words, ClassicInput, ClassicWurdle, Color};

#[test]
fn the_dictionary_gives_its_five_byte_lines_in_lowercase() {
    let words = classic_words("Apple\nbanana\nBERRY\nçava\ncrème\nkiwi\n");
    assert_eq!(words, vec!["apple".to_string(), "berry".to_string(), "çava".to_string()]);
    assert_eq!(classic_words(""), Vec::<String>::new());
}

#[test]
fn a_round_is_won_and_ended() {
    let words = vec!["apple".to_string(), "plead".to_string()];
    let mut g = ClassicWurdle::new(false, &vec!["apple".to_string()]);
    assert_eq!(g.word, "apple");
    assert_eq!(g.input(&"plxxx".to_string(), &words), ClassicInput::Continue);
    let f = g.frame(6, &words);
    assert!(f.not_a_word);
    assert!(f.rows.iter().all(|r| r.is_none()));
    g.input(&"plead".to_string(), &words);
    let f = g.frame(6, &words);
    let row = f.rows[0].clone().unwrap();
    assert_eq!(row[0], ('p', Color::Yellow));
    assert_eq!(row[2], ('e', Color::Yellow));
    assert_eq!(row[4], ('d', Color::Reset));
    assert_eq!(f.keyboard.len(), 26);
    assert_eq!(f.keyboard[3], ('d', Color::Reset));
    assert_eq!(f.keyboard[1], ('b', Color::White));
    assert!(!g.game_over);
    g.input(&"apple".to_string(), &words);
    let f = g.frame(6, &words);
    assert!(g.game_over);
    assert_eq!(g.game_over_text, Some("you won! restart? (y/n)\n".to_string()));
    assert_eq!(f.keyboard[0], ('a', Color::Green));
    assert_eq!(g.input(&"maybe".to_string(), &words), ClassicInput::Continue);
    assert!(g.game_over);
    assert_eq!(g.input(&"n".to_string(), &words), ClassicInput::Quit);
}

#[test]
fn a_round_is_lost_on_the_last_try() {
    let words = vec!["apple".to_string(), "plead".to_string()];
    let mut g = ClassicWurdle::new(true, &vec!["apple".to_string()]);
    g.input(&"plead".to_string(), &words);
    g.frame(1, &words);
    assert!(g.game_over);
    assert_eq!(g.game_over_text, Some("you lost! the word was 'apple'\nrestart? (y/n)\n".to_string()));
    assert_eq!(g.input(&"y".to_string(), &words), ClassicInput::Continue);
    assert!(!g.game_over);
    assert!(g.attempts.is_empty());
}
