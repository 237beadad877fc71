use wgames::poker::{
    card, evaluate, get_five_card_rank_percentage, get_lexographically_next_bit_sequence, get_rank_class,
    hand_is_known, hand_summary, init, stage_winners,
};

#[test]
fn lex() {
    assert_eq!(get_lexographically_next_bit_sequence(0b11111), 47);
}

#[test]
fn next_bit_sequence_keeps_bit_count() {
    assert_eq!(get_lexographically_next_bit_sequence(0b1), 0b10);
    assert_eq!(get_lexographically_next_bit_sequence(0b1011), 0b1101);
    assert_eq!(get_lexographically_next_bit_sequence(47), 55);
}

fn c(t: &wgames::poker::Tables, rank: char, suit: char) -> ((char, char), i64) {
    card((rank, suit), &t.char_rank_to_int_rank, &t.char_suit_to_int_suit)
}

#[test]
fn card_patterns() {
    let t = init();
    assert_eq!(c(&t, 'A', 's').1, 268442665);
    assert_eq!(c(&t, '2', 'c').1, 98306);
    assert_eq!(c(&t, 'K', 'h').1, 134228773);
    assert_eq!(c(&t, 'K', 'h').0, ('K', 'h'));
}

#[test]
fn evaluate_known_hands() {
    let t = init();
    let f = &t.flush_lookup;
    let u = &t.unsuited_lookup;
    let royal = [c(&t, 'A', 'h'), c(&t, 'K', 'h')];
    let board = [c(&t, 'Q', 'h'), c(&t, 'J', 'h'), c(&t, 'T', 'h')];
    assert_eq!(evaluate(&royal, &board, f, u), 1);
    let worst = [c(&t, '7', 'h'), c(&t, '5', 'd')];
    let board = [c(&t, '4', 'c'), c(&t, '3', 's'), c(&t, '2', 'h')];
    assert_eq!(evaluate(&worst, &board, f, u), 7462);
    let wheel_flush = [c(&t, 'A', 'd'), c(&t, '2', 'd')];
    let board = [c(&t, '3', 'd'), c(&t, '4', 'd'), c(&t, '5', 'd')];
    assert_eq!(evaluate(&wheel_flush, &board, f, u), 10);
    let quads = [c(&t, 'A', 'h'), c(&t, 'A', 's')];
    let board = [c(&t, 'A', 'c'), c(&t, 'A', 'd'), c(&t, 'K', 'd')];
    assert_eq!(evaluate(&quads, &board, f, u), 11);
    let full = [c(&t, 'A', 'h'), c(&t, 'A', 's')];
    let board = [c(&t, 'A', 'c'), c(&t, 'K', 'd'), c(&t, 'K', 's')];
    assert_eq!(evaluate(&full, &board, f, u), 167);
    let wheel = [c(&t, 'A', 'h'), c(&t, '2', 's')];
    let board = [c(&t, '3', 'c'), c(&t, '4', 'd'), c(&t, '5', 's')];
    assert_eq!(evaluate(&wheel, &board, f, u), 1609);
    let worst_pair = [c(&t, '2', 'h'), c(&t, '2', 's')];
    let board = [c(&t, '3', 'c'), c(&t, '4', 'd'), c(&t, '5', 's')];
    assert_eq!(evaluate(&worst_pair, &board, f, u), 6185);
}

#[test]
fn evaluate_seven_cards_takes_the_best_five() {
    let t = init();
    let hand = [c(&t, 'A', 'h'), c(&t, 'A', 's')];
    let board = [c(&t, 'A', 'c'), c(&t, 'A', 'd'), c(&t, 'K', 'd'), c(&t, '2', 'c'), c(&t, '3', 'c')];
    assert_eq!(evaluate(&hand, &board, &t.flush_lookup, &t.unsuited_lookup), 11);
    let six = [c(&t, 'A', 'c'), c(&t, 'A', 'd'), c(&t, 'K', 'd'), c(&t, 'K', 's')];
    assert_eq!(evaluate(&hand, &six, &t.flush_lookup, &t.unsuited_lookup), 11);
}

#[test]
fn swapping_hand_and_board_keeps_the_rank() {
    let t = init();
    let f = &t.flush_lookup;
    let u = &t.unsuited_lookup;
    let hand = [c(&t, 'A', 'h'), c(&t, '9', 's')];
    let board = [c(&t, 'A', 'c'), c(&t, '9', 'd'), c(&t, 'K', 'd'), c(&t, '2', 'c'), c(&t, '3', 'c')];
    let rank = evaluate(&hand, &board, f, u);
    assert_eq!(rank, evaluate(&board, &hand, f, u));
    assert_eq!(rank, 2512);
    let five = [c(&t, 'T', 's'), c(&t, 'J', 's'), c(&t, 'Q', 'd')];
    let two = [c(&t, 'K', 's'), c(&t, 'A', 's')];
    assert_eq!(evaluate(&two, &five, f, u), evaluate(&five, &two, f, u));
    assert_eq!(evaluate(&two, &five, f, u), 1600);
}

#[test]
fn hand_is_known_checks_size_and_tables() {
    let t = init();
    let hand = [c(&t, 'A', 'h'), c(&t, 'K', 's')];
    let board = [c(&t, '3', 'c'), c(&t, '4', 'd'), c(&t, '5', 's')];
    assert!(hand_is_known(&hand, &board, &t.flush_lookup, &t.unsuited_lookup));
    assert!(!hand_is_known(&hand, &board[..2], &t.flush_lookup, &t.unsuited_lookup));
    let same = [c(&t, 'A', 'h'), c(&t, 'A', 'h')];
    let board = [c(&t, 'A', 'h'), c(&t, 'A', 'h'), c(&t, 'A', 'h')];
    assert!(!hand_is_known(&same, &board, &t.flush_lookup, &t.unsuited_lookup));
}

#[test]
fn rank_classes() {
    let t = init();
    let m = &t.max_to_rank_class;
    assert_eq!(get_rank_class(1, m), 1);
    assert_eq!(get_rank_class(10, m), 1);
    assert_eq!(get_rank_class(11, m), 2);
    assert_eq!(get_rank_class(167, m), 3);
    assert_eq!(get_rank_class(1599, m), 4);
    assert_eq!(get_rank_class(1609, m), 5);
    assert_eq!(get_rank_class(2467, m), 6);
    assert_eq!(get_rank_class(3000, m), 7);
    assert_eq!(get_rank_class(6185, m), 8);
    assert_eq!(get_rank_class(7462, m), 9);
    assert_eq!(get_rank_class(-3, m), 2);
    assert_eq!(t.rank_class_to_string[&5], "Straight");
}

#[test]
fn rank_percentages() {
    assert_eq!(get_five_card_rank_percentage(1), 0);
    assert_eq!(get_five_card_rank_percentage(3731), 50);
    assert_eq!(get_five_card_rank_percentage(1609), 22);
    assert_eq!(get_five_card_rank_percentage(7462), 100);
    assert_eq!(get_five_card_rank_percentage(-100), 0);
    assert_eq!(get_five_card_rank_percentage(100000), 255);
    for hr in [1i64, 37, 166, 1599, 2467, 5000, 7000, 7461] {
        let expected = ((hr as f64) / 7462.0 * 100.0).round() as u8;
        assert_eq!(get_five_card_rank_percentage(hr), expected);
    }
}

#[test]
fn stage_leaders() {
    assert_eq!(stage_winners(&[5, 3, 3, 9]), vec![1, 2]);
    assert_eq!(stage_winners(&[7, 2, 9]), vec![1]);
    assert_eq!(stage_winners(&[]), Vec::<usize>::new());
    assert_eq!(stage_winners(&[8000]), Vec::<usize>::new());
    assert_eq!(stage_winners(&[4, 4]), vec![0, 1]);
}

#[test]
fn deal_summary() {
    let t = init();
    let board = [c(&t, '4', 'c'), c(&t, 'A', 's'), c(&t, '5', 'd'), c(&t, 'K', 'c'), c(&t, '2', 's')];
    let p1 = [c(&t, '6', 'c'), c(&t, '7', 'h')];
    let p2 = [c(&t, 'A', 'c'), c(&t, '3', 'h')];
    let hands: [&[((char, char), i64)]; 2] = [&p1, &p2];
    let stages = hand_summary(&board, &hands, &t);
    assert_eq!(stages.len(), 3);
    for s in &stages {
        assert_eq!(s.winners, vec![1]);
        assert_eq!(s.players.len(), 2);
        assert_eq!(s.players[0].rank_class, 9);
    }
    assert_eq!(stages[0].players[1].rank_class, 8);
    assert_eq!(stages[2].players[1].rank, 1609);
    assert_eq!(stages[2].players[1].rank_class, 5);
    assert_eq!(stages[2].players[1].percentage, 78);
}
