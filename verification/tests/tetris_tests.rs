use wgames::tetris::{get_mino, get_starting_position, mino_from_roll, shape, Direction, Game, Key, Tetrimino};

#[test]
fn direction_turns_clockwise() {
    assert_eq!(Direction::rotate_right(&Direction::Up), Direction::Right);
    assert_eq!(Direction::rotate_right(&Direction::Right), Direction::Down);
    assert_eq!(Direction::rotate_right(&Direction::Down), Direction::Left);
    assert_eq!(Direction::rotate_right(&Direction::Left), Direction::Up);
}

#[test]
fn four_turns_make_a_full_circle() {
    for t in [
        Tetrimino::Straight(Direction::Up),
        Tetrimino::Square(Direction::Left),
        Tetrimino::T(Direction::Down),
        Tetrimino::L(Direction::Right),
        Tetrimino::S(Direction::Up),
        Tetrimino::Z(Direction::Left),
    ] {
        assert_eq!(t.rotate_right().rotate_right().rotate_right().rotate_right(), t);
    }
    assert_eq!(Tetrimino::T(Direction::Up).rotate_right(), Tetrimino::T(Direction::Right));
}

#[test]
fn every_shape_has_four_cells() {
    for t in [
        Tetrimino::Straight(Direction::Up),
        Tetrimino::Square(Direction::Down),
        Tetrimino::T(Direction::Left),
        Tetrimino::L(Direction::Right),
        Tetrimino::S(Direction::Up),
        Tetrimino::Z(Direction::Down),
    ] {
        let s = shape(&t);
        let n: usize = s.iter().map(|row| row.iter().filter(|c| **c != 0).count()).sum();
        assert_eq!(n, 4);
    }
}

#[test]
fn hit_inside_and_outside_the_window() {
    let s = shape(&Tetrimino::Square(Direction::Up));
    let pos = (2, 3);
    assert_eq!(Tetrimino::hit(0, 0, &pos, &s), None);
    assert_eq!(Tetrimino::hit(6, 3, &pos, &s), None);
    let mut filled = 0;
    for y in 3..7 {
        for x in 2..6 {
            if let Some(v) = Tetrimino::hit(x, y, &pos, &s) {
                assert_ne!(v, 0);
                filled += 1;
            }
        }
    }
    assert_eq!(filled, 4);
}

#[test]
fn a_piece_falls_every_fifth_frame() {
    assert_eq!(get_starting_position(), (3, 0));
    let mut g = Game::new(Tetrimino::Square(Direction::Up));
    assert_eq!(g.position, (3, 0));
    g.step(Key::Other, Tetrimino::T(Direction::Up));
    assert_eq!(g.position, (3, 1));
    assert_eq!(g.tick, 1);
    for _ in 0..4 {
        g.step(Key::Other, Tetrimino::T(Direction::Up));
    }
    assert_eq!(g.position, (3, 1));
    g.step(Key::Right, Tetrimino::T(Direction::Up));
    assert_eq!(g.position, (4, 2));
}

#[test]
fn a_roll_picks_a_piece_facing_up() {
    assert_eq!(mino_from_roll(0), Tetrimino::Straight(Direction::Up));
    assert_eq!(mino_from_roll(2), Tetrimino::L(Direction::Up));
    assert_eq!(mino_from_roll(3), Tetrimino::T(Direction::Up));
    assert_eq!(mino_from_roll(11), Tetrimino::Z(Direction::Up));
    let t = get_mino();
    assert!((0..6).any(|r| mino_from_roll(r) == t));
}
