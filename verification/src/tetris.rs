//! Falling-block puzzle: pieces, their rotations and shapes, collision
//! tests, and the per-frame decision of the game loop.

use vstd::prelude::*;

verus! {

/// The facing of a piece.
#[derive(PartialEq, Eq, Structural, Clone, Copy, Debug, Hash)]
pub enum Direction {
    Up,
    Down,
    Left,
    Right,
}

/// The six kinds of piece, each with its facing.
#[derive(PartialEq, Eq, Structural, Clone, Copy, Debug, Hash)]
pub enum Tetrimino {
    Straight(Direction),
    Square(Direction),
    T(Direction),
    L(Direction),
    S(Direction),
    Z(Direction),
}

/// A quarter turn clockwise.
pub open spec fn turn(d: Direction) -> Direction {
    match d {
        Direction::Up => Direction::Right,
        Direction::Right => Direction::Down,
        Direction::Down => Direction::Left,
        Direction::Left => Direction::Up,
    }
}

impl Direction {
    pub fn rotate_right(dir: &Direction) -> (r: Direction)
        ensures
            r == turn(*dir),
    {
        match dir {
            Direction::Up => Direction::Right,
            Direction::Down => Direction::Left,
            Direction::Left => Direction::Up,
            Direction::Right => Direction::Down,
        }
    }
}

/// The facing of a piece.
pub open spec fn facing(t: Tetrimino) -> Direction {
    match t {
        Tetrimino::Straight(d) => d,
        Tetrimino::Square(d) => d,
        Tetrimino::T(d) => d,
        Tetrimino::L(d) => d,
        Tetrimino::S(d) => d,
        Tetrimino::Z(d) => d,
    }
}

/// The same kind of piece, turned a quarter clockwise.
pub open spec fn rotated(t: Tetrimino) -> Tetrimino {
    match t {
        Tetrimino::Straight(d) => Tetrimino::Straight(turn(d)),
        Tetrimino::Square(d) => Tetrimino::Square(turn(d)),
        Tetrimino::T(d) => Tetrimino::T(turn(d)),
        Tetrimino::L(d) => Tetrimino::L(turn(d)),
        Tetrimino::S(d) => Tetrimino::S(turn(d)),
        Tetrimino::Z(d) => Tetrimino::Z(turn(d)),
    }
}

/// Whether two pieces are of the same kind (whatever their facing).
pub open spec fn same_kind(a: Tetrimino, b: Tetrimino) -> bool {
    match (a, b) {
        (Tetrimino::Straight(_), Tetrimino::Straight(_)) => true,
        (Tetrimino::Square(_), Tetrimino::Square(_)) => true,
        (Tetrimino::T(_), Tetrimino::T(_)) => true,
        (Tetrimino::L(_), Tetrimino::L(_)) => true,
        (Tetrimino::S(_), Tetrimino::S(_)) => true,
        (Tetrimino::Z(_), Tetrimino::Z(_)) => true,
        _ => false,
    }
}

/// Four quarter turns bring a piece back to where it started, and a turn
/// never changes the kind of a piece.
pub proof fn lemma_four_turns_identity(t: Tetrimino)
    ensures
        rotated(rotated(rotated(rotated(t)))) == t,
        same_kind(rotated(t), t),
        facing(rotated(t)) == turn(facing(t)),
{
}

/// The cells of each piece, row by row (`0` is empty).
pub open spec fn shape_rows(t: Tetrimino) -> Seq<Seq<usize>> {
    match t {
        Tetrimino::Straight(Direction::Up) => seq![seq![0usize, 0, 1, 0], seq![0usize, 0, 1, 0], seq![0usize, 0, 1, 0], seq![0usize, 0, 1, 0]],
        Tetrimino::Straight(Direction::Right) => seq![seq![0usize, 0, 0, 0], seq![1usize, 1, 1, 1], seq![0usize, 0, 0, 0], seq![0usize, 0, 0, 0]],
        Tetrimino::Straight(Direction::Down) => seq![seq![0usize, 0, 1, 0], seq![0usize, 0, 1, 0], seq![0usize, 0, 1, 0], seq![0usize, 0, 1, 0]],
        Tetrimino::Straight(Direction::Left) => seq![seq![0usize, 0, 0, 0], seq![1usize, 1, 1, 1], seq![0usize, 0, 0, 0], seq![0usize, 0, 0, 0]],
        Tetrimino::Square(Direction::Up) => seq![seq![0usize, 0, 0, 0], seq![0usize, 1, 1, 0], seq![0usize, 1, 1, 0], seq![0usize, 0, 0, 0]],
        Tetrimino::Square(Direction::Right) => seq![seq![0usize, 0, 0, 0], seq![0usize, 1, 1, 0], seq![0usize, 1, 1, 0], seq![0usize, 0, 0, 0]],
        Tetrimino::Square(Direction::Down) => seq![seq![0usize, 0, 0, 0], seq![0usize, 1, 1, 0], seq![0usize, 1, 1, 0], seq![0usize, 0, 0, 0]],
        Tetrimino::Square(Direction::Left) => seq![seq![0usize, 0, 0, 0], seq![0usize, 1, 1, 0], seq![0usize, 1, 1, 0], seq![0usize, 0, 0, 0]],
        Tetrimino::T(Direction::Up) => seq![seq![0usize, 0, 0, 0], seq![1usize, 1, 1, 0], seq![0usize, 1, 0, 0], seq![0usize, 0, 0, 0]],
        Tetrimino::T(Direction::Right) => seq![seq![0usize, 1, 0, 0], seq![1usize, 1, 0, 0], seq![0usize, 1, 0, 0], seq![0usize, 0, 0, 0]],
        Tetrimino::T(Direction::Down) => seq![seq![0usize, 1, 0, 0], seq![1usize, 1, 1, 0], seq![0usize, 0, 0, 0], seq![0usize, 0, 0, 0]],
        Tetrimino::T(Direction::Left) => seq![seq![0usize, 1, 0, 0], seq![0usize, 1, 1, 0], seq![0usize, 1, 0, 0], seq![0usize, 0, 0, 0]],
        Tetrimino::L(Direction::Up) => seq![seq![0usize, 0, 0, 0], seq![1usize, 1, 1, 0], seq![1usize, 0, 0, 0], seq![0usize, 0, 0, 0]],
        Tetrimino::L(Direction::Right) => seq![seq![1usize, 1, 0, 0], seq![0usize, 1, 0, 0], seq![0usize, 1, 0, 0], seq![0usize, 0, 0, 0]],
        Tetrimino::L(Direction::Down) => seq![seq![0usize, 0, 0, 0], seq![0usize, 0, 1, 0], seq![1usize, 1, 1, 0], seq![0usize, 0, 0, 0]],
        Tetrimino::L(Direction::Left) => seq![seq![0usize, 1, 0, 0], seq![0usize, 1, 0, 0], seq![0usize, 1, 1, 0], seq![0usize, 0, 0, 0]],
        Tetrimino::S(Direction::Up) => seq![seq![0usize, 0, 0, 0], seq![0usize, 1, 1, 0], seq![1usize, 1, 0, 0], seq![0usize, 0, 0, 0]],
        Tetrimino::S(Direction::Right) => seq![seq![1usize, 0, 0, 0], seq![1usize, 1, 0, 0], seq![0usize, 1, 0, 0], seq![0usize, 0, 0, 0]],
        Tetrimino::S(Direction::Down) => seq![seq![0usize, 0, 0, 0], seq![0usize, 1, 1, 0], seq![1usize, 1, 0, 0], seq![0usize, 0, 0, 0]],
        Tetrimino::S(Direction::Left) => seq![seq![1usize, 0, 0, 0], seq![1usize, 1, 0, 0], seq![0usize, 1, 0, 0], seq![0usize, 0, 0, 0]],
        Tetrimino::Z(Direction::Up) => seq![seq![0usize, 0, 0, 0], seq![1usize, 1, 0, 0], seq![0usize, 1, 1, 0], seq![0usize, 0, 0, 0]],
        Tetrimino::Z(Direction::Right) => seq![seq![0usize, 0, 1, 0], seq![0usize, 1, 1, 0], seq![0usize, 1, 0, 0], seq![0usize, 0, 0, 0]],
        Tetrimino::Z(Direction::Down) => seq![seq![0usize, 0, 0, 0], seq![1usize, 1, 0, 0], seq![0usize, 1, 1, 0], seq![0usize, 0, 0, 0]],
        Tetrimino::Z(Direction::Left) => seq![seq![0usize, 0, 1, 0], seq![0usize, 1, 1, 0], seq![0usize, 1, 0, 0], seq![0usize, 0, 0, 0]],
    }
}

/// The cell in row `r`, column `c` of a piece's 4x4 layout.
pub open spec fn cell(t: Tetrimino, r: int, c: int) -> usize {
    shape_rows(t)[r][c]
}


/// `1` for a filled cell, `0` for an empty one.
pub open spec fn filled(t: Tetrimino, r: int, c: int) -> int {
    if cell(t, r, c) != 0 { 1 } else { 0 }
}

/// The number of filled cells in the layout of a piece.
pub open spec fn filled_count(t: Tetrimino) -> int {
    filled(t, 0, 0) + filled(t, 0, 1) + filled(t, 0, 2) + filled(t, 0, 3) + filled(t, 1, 0) + filled(t, 1, 1) + filled(t, 1, 2) + filled(t, 1, 3) + filled(t, 2, 0) + filled(t, 2, 1) + filled(t, 2, 2) + filled(t, 2, 3) + filled(t, 3, 0) + filled(t, 3, 1) + filled(t, 3, 2) + filled(t, 3, 3)
}

/// Every piece is made of exactly four cells, and every cell of a layout is
/// `0` or `1`.
pub proof fn lemma_four_cells(t: Tetrimino)
    ensures
        filled_count(t) == 4,
        forall|r: int, c: int| 0 <= r < 4 && 0 <= c < 4 ==> #[trigger] cell(t, r, c) <= 1,
{
}

/// The square looks the same after any quarter turn; the straight piece and
/// the S and Z pieces look the same after a half turn.
pub proof fn lemma_rotational_symmetry(t: Tetrimino)
    ensures
        (t matches Tetrimino::Square(_)) ==> shape_rows(rotated(t)) == shape_rows(t),
        (t matches Tetrimino::Straight(_)) || (t matches Tetrimino::S(_)) || (t matches Tetrimino::Z(_))
            ==> shape_rows(rotated(rotated(t))) == shape_rows(t),
{
}

/// An array holds the layout of a piece.
pub open spec fn shape_matches(s: [[usize; 4]; 4], t: Tetrimino) -> bool {
    forall|r: int, c: int| 0 <= r < 4 && 0 <= c < 4 ==> #[trigger] s[r][c] == cell(t, r, c)
}

/// The 4x4 layout of a piece, row by row: a cell holds `0` when empty.
pub fn shape(t: &Tetrimino) -> (s: [[usize; 4]; 4])
    ensures
        shape_matches(s, *t),
{
    let s: [[usize; 4]; 4] = match t {
        Tetrimino::Straight(Direction::Up) => [[0, 0, 1, 0], [0, 0, 1, 0], [0, 0, 1, 0], [0, 0, 1, 0]],
        Tetrimino::Straight(Direction::Right) => [[0, 0, 0, 0], [1, 1, 1, 1], [0, 0, 0, 0], [0, 0, 0, 0]],
        Tetrimino::Straight(Direction::Down) => [[0, 0, 1, 0], [0, 0, 1, 0], [0, 0, 1, 0], [0, 0, 1, 0]],
        Tetrimino::Straight(Direction::Left) => [[0, 0, 0, 0], [1, 1, 1, 1], [0, 0, 0, 0], [0, 0, 0, 0]],
        Tetrimino::Square(Direction::Up) => [[0, 0, 0, 0], [0, 1, 1, 0], [0, 1, 1, 0], [0, 0, 0, 0]],
        Tetrimino::Square(Direction::Right) => [[0, 0, 0, 0], [0, 1, 1, 0], [0, 1, 1, 0], [0, 0, 0, 0]],
        Tetrimino::Square(Direction::Down) => [[0, 0, 0, 0], [0, 1, 1, 0], [0, 1, 1, 0], [0, 0, 0, 0]],
        Tetrimino::Square(Direction::Left) => [[0, 0, 0, 0], [0, 1, 1, 0], [0, 1, 1, 0], [0, 0, 0, 0]],
        Tetrimino::T(Direction::Up) => [[0, 0, 0, 0], [1, 1, 1, 0], [0, 1, 0, 0], [0, 0, 0, 0]],
        Tetrimino::T(Direction::Right) => [[0, 1, 0, 0], [1, 1, 0, 0], [0, 1, 0, 0], [0, 0, 0, 0]],
        Tetrimino::T(Direction::Down) => [[0, 1, 0, 0], [1, 1, 1, 0], [0, 0, 0, 0], [0, 0, 0, 0]],
        Tetrimino::T(Direction::Left) => [[0, 1, 0, 0], [0, 1, 1, 0], [0, 1, 0, 0], [0, 0, 0, 0]],
        Tetrimino::L(Direction::Up) => [[0, 0, 0, 0], [1, 1, 1, 0], [1, 0, 0, 0], [0, 0, 0, 0]],
        Tetrimino::L(Direction::Right) => [[1, 1, 0, 0], [0, 1, 0, 0], [0, 1, 0, 0], [0, 0, 0, 0]],
        Tetrimino::L(Direction::Down) => [[0, 0, 0, 0], [0, 0, 1, 0], [1, 1, 1, 0], [0, 0, 0, 0]],
        Tetrimino::L(Direction::Left) => [[0, 1, 0, 0], [0, 1, 0, 0], [0, 1, 1, 0], [0, 0, 0, 0]],
        Tetrimino::S(Direction::Up) => [[0, 0, 0, 0], [0, 1, 1, 0], [1, 1, 0, 0], [0, 0, 0, 0]],
        Tetrimino::S(Direction::Right) => [[1, 0, 0, 0], [1, 1, 0, 0], [0, 1, 0, 0], [0, 0, 0, 0]],
        Tetrimino::S(Direction::Down) => [[0, 0, 0, 0], [0, 1, 1, 0], [1, 1, 0, 0], [0, 0, 0, 0]],
        Tetrimino::S(Direction::Left) => [[1, 0, 0, 0], [1, 1, 0, 0], [0, 1, 0, 0], [0, 0, 0, 0]],
        Tetrimino::Z(Direction::Up) => [[0, 0, 0, 0], [1, 1, 0, 0], [0, 1, 1, 0], [0, 0, 0, 0]],
        Tetrimino::Z(Direction::Right) => [[0, 0, 1, 0], [0, 1, 1, 0], [0, 1, 0, 0], [0, 0, 0, 0]],
        Tetrimino::Z(Direction::Down) => [[0, 0, 0, 0], [1, 1, 0, 0], [0, 1, 1, 0], [0, 0, 0, 0]],
        Tetrimino::Z(Direction::Left) => [[0, 0, 1, 0], [0, 1, 1, 0], [0, 1, 0, 0], [0, 0, 0, 0]],
    };
    proof {
        assert(s@[0]@ =~= shape_rows(*t)[0]);
        assert(s@[1]@ =~= shape_rows(*t)[1]);
        assert(s@[2]@ =~= shape_rows(*t)[2]);
        assert(s@[3]@ =~= shape_rows(*t)[3]);
    }
    s
}

/// What a collision test at `(x, y)` finds for a layout placed with its top
/// left corner at `pos`.
pub open spec fn spec_hit(x: int, y: int, pos: (isize, isize), s: [[usize; 4]; 4]) -> Option<usize> {
    if pos.0 <= x < pos.0 + 4 && pos.1 <= y < pos.1 + 4 && s[y - pos.1][x - pos.0] != 0 {
        Some(s[y - pos.1][x - pos.0])
    } else {
        None
    }
}

impl Tetrimino {
    pub fn rotate_right(&self) -> (r: Self)
        ensures
            r == rotated(*self),
    {
        match self {
            Self::Straight(direction) => Self::Straight(Direction::rotate_right(direction)),
            Self::Square(direction) => Self::Square(Direction::rotate_right(direction)),
            Self::T(direction) => Self::T(Direction::rotate_right(direction)),
            Self::L(direction) => Self::L(Direction::rotate_right(direction)),
            Self::S(direction) => Self::S(Direction::rotate_right(direction)),
            Self::Z(direction) => Self::Z(Direction::rotate_right(direction)),
        }
    }

    /// The value of the layout `shape`, placed at `pos`, in the grid cell
    /// `(x, y)`: `None` outside the layout's 4x4 window or on an empty cell.
    pub fn hit(x: isize, y: isize, pos: &(isize, isize), shape: &[[usize; 4]; 4]) -> (r: Option<usize>)
        requires
            pos.0 + 4 <= isize::MAX,
            pos.1 + 4 <= isize::MAX,
        ensures
            r == spec_hit(x as int, y as int, *pos, *shape),
    {
        if x >= pos.0 && x < pos.0 + 4 && y >= pos.1 && y < pos.1 + 4 {
            let x = (x - pos.0) as usize;
            let y = (y - pos.1) as usize;

            if shape[y][x] != 0 {
                return Some(shape[y][x]);
            }
        }
        None
    }
}

} // verus!
verus! {

/// Whether the piece `t`, placed at `p`, has a filled cell at grid cell `(x, y)`.
pub open spec fn piece_hit(x: int, y: int, p: (isize, isize), t: Tetrimino) -> bool {
    p.0 <= x < p.0 + 4 && p.1 <= y < p.1 + 4 && cell(t, y - p.1, x - p.0) != 0
}

/// Every filled cell of the piece `t` placed at `p` lies on the 10x20 grid.
pub open spec fn in_bounds(t: Tetrimino, p: (isize, isize)) -> bool {
    forall|r: int, c: int|
        0 <= r < 4 && 0 <= c < 4 && #[trigger] cell(t, r, c) != 0 ==> 0 <= p.0 + c < 10 && 0 <= p.1
            + r < 20
}

/// First and one-past-last grid row of the window of a piece placed at `p`.
pub open spec fn rows_lo(p: (isize, isize)) -> int {
    if p.1 > 0 { p.1 as int } else { 0 }
}

pub open spec fn rows_hi(p: (isize, isize)) -> int {
    if p.1 + 4 < 20 { p.1 + 4 } else { 20 }
}

/// First and one-past-last grid column of the window of a piece placed at `p`.
pub open spec fn cols_lo(p: (isize, isize)) -> int {
    if p.0 > 0 { p.0 as int } else { 0 }
}

pub open spec fn cols_hi(p: (isize, isize)) -> int {
    if p.0 + 4 < 10 { p.0 + 4 } else { 10 }
}

/// The border test of a proposed move: a cell of `t` at `p` in the column
/// left or right of the grid (on a row of the window `w`), or in the row
/// below the grid (on a column of the window `w`).
pub open spec fn out_of_bounds(w: (isize, isize), t: Tetrimino, p: (isize, isize)) -> bool {
    (exists|y: int|
        rows_lo(w) <= y < rows_hi(w) && (#[trigger] piece_hit(-1, y, p, t) || piece_hit(10, y, p, t)))
        || (exists|x: int| cols_lo(w) <= x < cols_hi(w) && #[trigger] piece_hit(x, 20, p, t))
}


/// The filled cell `(r, c)` of `t`, if any, lies on the grid when `t` is placed at `p`.
pub open spec fn cell_ok(t: Tetrimino, p: (isize, isize), r: int, c: int) -> bool {
    cell(t, r, c) != 0 ==> 0 <= p.0 + c < 10 && 0 <= p.1 + r < 20
}

/// `in_bounds`, cell by cell.
pub open spec fn in_bounds_cells(t: Tetrimino, p: (isize, isize)) -> bool {
        &&& cell_ok(t, p, 0, 0)
        &&& cell_ok(t, p, 0, 1)
        &&& cell_ok(t, p, 0, 2)
        &&& cell_ok(t, p, 0, 3)
        &&& cell_ok(t, p, 1, 0)
        &&& cell_ok(t, p, 1, 1)
        &&& cell_ok(t, p, 1, 2)
        &&& cell_ok(t, p, 1, 3)
        &&& cell_ok(t, p, 2, 0)
        &&& cell_ok(t, p, 2, 1)
        &&& cell_ok(t, p, 2, 2)
        &&& cell_ok(t, p, 2, 3)
        &&& cell_ok(t, p, 3, 0)
        &&& cell_ok(t, p, 3, 1)
        &&& cell_ok(t, p, 3, 2)
        &&& cell_ok(t, p, 3, 3)
}

proof fn lemma_in_bounds_cells(t: Tetrimino, p: (isize, isize))
    ensures
        in_bounds(t, p) == in_bounds_cells(t, p),
{
    if in_bounds_cells(t, p) {
        assert forall|r: int, c: int|
            0 <= r < 4 && 0 <= c < 4 && #[trigger] cell(t, r, c) != 0 implies 0 <= p.0 + c < 10
            && 0 <= p.1 + r < 20 by {
            assert(cell_ok(t, p, r, c));
        }
    }
}

/// Every piece has a filled cell in its second row, within the first three columns.
proof fn lemma_second_row(t: Tetrimino)
    ensures
        cell(t, 1, 0) != 0 || cell(t, 1, 1) != 0 || cell(t, 1, 2) != 0,
{
}

proof fn lemma_position_range(t: Tetrimino, p: (isize, isize))
    requires
        in_bounds(t, p),
    ensures
        -2 <= p.0 <= 9,
        -1 <= p.1 <= 18,
{
    lemma_second_row(t);
    if cell(t, 1, 0) != 0 {
    } else if cell(t, 1, 1) != 0 {
    } else {
    }
}

/// A proposed move of the piece `t` at `p` to `t2` at `p2`: a quarter turn in
/// place, or a step left, right or down.
pub open spec fn is_move(t: Tetrimino, p: (isize, isize), t2: Tetrimino, p2: (isize, isize)) -> bool {
    ||| t2 == rotated(t) && p2 == p
    ||| t2 == t && p2.0 == p.0 + 1 && p2.1 == p.1
    ||| t2 == t && p2.0 == p.0 - 1 && p2.1 == p.1
    ||| t2 == t && p2.0 == p.0 && p2.1 == p.1 + 1
}

/// A move that passes the border test keeps the piece on the grid.
proof fn lemma_move_in_bounds(t: Tetrimino, p: (isize, isize), t2: Tetrimino, p2: (isize, isize))
    requires
        p.1 >= 0,
        in_bounds(t, p),
        is_move(t, p, t2, p2),
        !out_of_bounds(p, t2, p2),
    ensures
        in_bounds(t2, p2),
{
    lemma_position_range(t, p);
    lemma_in_bounds_cells(t, p);
    lemma_in_bounds_cells(t2, p2);
    assert(!piece_hit(-1, p.1 + 0, p2, t2) || !(rows_lo(p) <= p.1 + 0 < rows_hi(p)));
    assert(!piece_hit(-1, p.1 + 1, p2, t2) || !(rows_lo(p) <= p.1 + 1 < rows_hi(p)));
    assert(!piece_hit(-1, p.1 + 2, p2, t2) || !(rows_lo(p) <= p.1 + 2 < rows_hi(p)));
    assert(!piece_hit(-1, p.1 + 3, p2, t2) || !(rows_lo(p) <= p.1 + 3 < rows_hi(p)));
    assert(!piece_hit(10, p.1 + 0, p2, t2) || !(rows_lo(p) <= p.1 + 0 < rows_hi(p)));
    assert(!piece_hit(10, p.1 + 1, p2, t2) || !(rows_lo(p) <= p.1 + 1 < rows_hi(p)));
    assert(!piece_hit(10, p.1 + 2, p2, t2) || !(rows_lo(p) <= p.1 + 2 < rows_hi(p)));
    assert(!piece_hit(10, p.1 + 3, p2, t2) || !(rows_lo(p) <= p.1 + 3 < rows_hi(p)));
    assert(!piece_hit(p.0 + 0, 20, p2, t2) || !(cols_lo(p) <= p.0 + 0 < cols_hi(p)));
    assert(!piece_hit(p.0 + 1, 20, p2, t2) || !(cols_lo(p) <= p.0 + 1 < cols_hi(p)));
    assert(!piece_hit(p.0 + 2, 20, p2, t2) || !(cols_lo(p) <= p.0 + 2 < cols_hi(p)));
    assert(!piece_hit(p.0 + 3, 20, p2, t2) || !(cols_lo(p) <= p.0 + 3 < cols_hi(p)));
}

/// A piece that does not reach the row below the grid when moved down (or
/// kept in place) stays on the grid.
proof fn lemma_fall_in_bounds(t: Tetrimino, p: (isize, isize), p2: (isize, isize))
    requires
        p.1 >= 0,
        in_bounds(t, p),
        p2.0 == p.0,
        p2.1 == p.1 || p2.1 == p.1 + 1,
        forall|x: int| cols_lo(p2) <= x < cols_hi(p2) ==> !#[trigger] piece_hit(x, 20, p2, t),
    ensures
        in_bounds(t, p2),
{
    lemma_position_range(t, p);
    lemma_in_bounds_cells(t, p);
    lemma_in_bounds_cells(t, p2);
    assert(!piece_hit(p.0 + 0, 20, p2, t) || !(cols_lo(p2) <= p.0 + 0 < cols_hi(p2)));
    assert(!piece_hit(p.0 + 1, 20, p2, t) || !(cols_lo(p2) <= p.0 + 1 < cols_hi(p2)));
    assert(!piece_hit(p.0 + 2, 20, p2, t) || !(cols_lo(p2) <= p.0 + 2 < cols_hi(p2)));
    assert(!piece_hit(p.0 + 3, 20, p2, t) || !(cols_lo(p2) <= p.0 + 3 < cols_hi(p2)));
}

/// Every piece fits on the grid at the starting position.
proof fn lemma_spawn_in_bounds(t: Tetrimino)
    ensures
        in_bounds(t, (3, 0)),
{
    lemma_in_bounds_cells(t, (3, 0));
}

} // verus!
verus! {

/// A key read by the game loop.
#[derive(PartialEq, Eq, Structural, Clone, Copy, Debug)]
pub enum Key {
    Up,
    Down,
    Left,
    Right,
    Other,
}

/// The state of a game: the settled cells, the falling piece and its
/// position (the top left corner of its 4x4 window), and the frame counter.
pub struct Game {
    pub grid: [[usize; 10]; 20],
    pub tetrimino: Tetrimino,
    pub position: (isize, isize),
    pub tick: i32,
}

impl Game {
    /// The falling piece lies on the grid, its window never above the top.
    pub open spec fn wf(&self) -> bool {
        &&& self.position.1 >= 0
        &&& in_bounds(self.tetrimino, self.position)
        &&& 0 <= self.tick
    }
}

/// The move that a key proposes for the piece `t` at `p`.
pub open spec fn proposed(t: Tetrimino, p: (isize, isize), key: Key) -> Option<(Tetrimino, (isize, isize))> {
    match key {
        Key::Up => Some((rotated(t), p)),
        Key::Right => Some((t, ((p.0 + 1) as isize, p.1))),
        Key::Left => Some((t, ((p.0 - 1) as isize, p.1))),
        Key::Down => Some((t, (p.0, (p.1 + 1) as isize))),
        Key::Other => None,
    }
}

/// The collision test of a move: a settled cell, inside the window `w`,
/// covered by a filled cell of `t` placed at `p`.
pub open spec fn blocked(grid: [[usize; 10]; 20], w: (isize, isize), t: Tetrimino, p: (isize, isize)) -> bool {
    exists|x: int, y: int|
        rows_lo(w) <= y < rows_hi(w) && cols_lo(w) <= x < cols_hi(w) && grid[y][x] != 0
            && #[trigger] piece_hit(x, y, p, t)
}

/// The piece and position after the key's move: the move is taken when it
/// neither collides (within the current window) nor leaves the grid.
pub open spec fn after_move(grid: [[usize; 10]; 20], t: Tetrimino, p: (isize, isize), key: Key) -> (Tetrimino, (isize, isize)) {
    match proposed(t, p, key) {
        None => (t, p),
        Some((t2, p2)) => if !blocked(grid, p, t2, p2) && !out_of_bounds(p, t2, p2) {
            (t2, p2)
        } else {
            (t, p)
        },
    }
}

/// What the keys do to the falling piece: Left, Right and Down keep its kind
/// and facing and move it one column left, one column right or one row down,
/// or leave it where it is; where the cell it would move to is free and on
/// the grid, it moves there.
pub proof fn lemma_key_moves(grid: [[usize; 10]; 20], t: Tetrimino, p: (isize, isize))
    requires
        isize::MIN < p.0 < isize::MAX,
        p.1 < isize::MAX,
    ensures
        after_move(grid, t, p, Key::Left).0 == t,
        after_move(grid, t, p, Key::Left).1 == p || after_move(grid, t, p, Key::Left).1 == ((p.0 - 1) as isize, p.1),
        !blocked(grid, p, t, ((p.0 - 1) as isize, p.1)) && !out_of_bounds(p, t, ((p.0 - 1) as isize, p.1))
            ==> after_move(grid, t, p, Key::Left).1 == ((p.0 - 1) as isize, p.1),
        after_move(grid, t, p, Key::Right).0 == t,
        after_move(grid, t, p, Key::Right).1 == p || after_move(grid, t, p, Key::Right).1 == ((p.0 + 1) as isize, p.1),
        !blocked(grid, p, t, ((p.0 + 1) as isize, p.1)) && !out_of_bounds(p, t, ((p.0 + 1) as isize, p.1))
            ==> after_move(grid, t, p, Key::Right).1 == ((p.0 + 1) as isize, p.1),
        after_move(grid, t, p, Key::Down).0 == t,
        after_move(grid, t, p, Key::Down).1 == p || after_move(grid, t, p, Key::Down).1 == (p.0, (p.1 + 1) as isize),
        !blocked(grid, p, t, (p.0, (p.1 + 1) as isize)) && !out_of_bounds(p, t, (p.0, (p.1 + 1) as isize))
            ==> after_move(grid, t, p, Key::Down).1 == (p.0, (p.1 + 1) as isize),
        after_move(grid, t, p, Key::Other) == (t, p),
{
}

/// Left and Right undo each other: where the piece can step left and then
/// back right, it ends where it started.
pub proof fn lemma_left_then_right(grid: [[usize; 10]; 20], t: Tetrimino, p: (isize, isize))
    requires
        isize::MIN + 1 < p.0 < isize::MAX,
        p.1 < isize::MAX,
        !blocked(grid, p, t, ((p.0 - 1) as isize, p.1)),
        !out_of_bounds(p, t, ((p.0 - 1) as isize, p.1)),
        !blocked(grid, ((p.0 - 1) as isize, p.1), t, p),
        !out_of_bounds(((p.0 - 1) as isize, p.1), t, p),
    ensures
        after_move(grid, after_move(grid, t, p, Key::Left).0, after_move(grid, t, p, Key::Left).1, Key::Right) == (t, p),
{
    lemma_key_moves(grid, t, p);
    let q = ((p.0 - 1) as isize, p.1);
    lemma_key_moves(grid, t, q);
    assert(((q.0 + 1) as isize, q.1) == p);
}

/// Where gravity takes the piece: one row down on every fifth frame.
pub open spec fn fall_target(p: (isize, isize), tick: i32) -> (isize, isize) {
    if tick % 5 == 0 {
        (p.0, (p.1 + 1) as isize)
    } else {
        p
    }
}

/// The piece at `p` lies on a settled cell or reaches below the grid.
pub open spec fn landed(grid: [[usize; 10]; 20], t: Tetrimino, p: (isize, isize)) -> bool {
    ||| blocked(grid, p, t, p)
    ||| exists|x: int| cols_lo(p) <= x < cols_hi(p) && #[trigger] piece_hit(x, 20, p, t)
}

/// The grid cell `(x, y)` once the piece `t` at `p` has settled on `grid`.
pub open spec fn locked_cell(grid: [[usize; 10]; 20], t: Tetrimino, p: (isize, isize), y: int, x: int) -> usize {
    if piece_hit(x, y, p, t) {
        cell(t, y - p.1, x - p.0)
    } else {
        grid[y][x]
    }
}


/// Whether the cell `(r, c)` of a 4x4 layout comes before `(y, x)` in row-major order.
pub open spec fn before(r: int, c: int, y: int, x: int) -> bool {
    r < y || (r == y && c < x)
}

/// Settles the piece `t` at `p` onto the grid: each filled cell of the piece
/// is copied to the grid cell under it.
fn lock_piece(grid: &mut [[usize; 10]; 20], t: &Tetrimino, p: (isize, isize))
    requires
        in_bounds(*t, p),
    ensures
        forall|yy: int, xx: int|
            0 <= yy < 20 && 0 <= xx < 10 ==> #[trigger] final(grid)[yy][xx] == locked_cell(*old(grid), *t, p, yy, xx),
{
    proof {
        lemma_position_range(*t, p);
    }
    let s = shape(t);
    let ghost g0 = *grid;
    let mut y: usize = 0;
    while y < 4
        invariant
            y <= 4,
            in_bounds(*t, p),
            shape_matches(s, *t),
            -2 <= p.0 <= 9,
            -1 <= p.1 <= 18,
            forall|yy: int, xx: int|
                0 <= yy < 20 && 0 <= xx < 10 ==> #[trigger] grid[yy][xx] == (if piece_hit(xx, yy, p, *t)
                    && before(yy - p.1, xx - p.0, y as int, 0) {
                    cell(*t, yy - p.1, xx - p.0)
                } else {
                    g0[yy][xx]
                }),
        decreases 4 - y,
    {
        let mut x: usize = 0;
        while x < 4
            invariant
                y < 4,
                x <= 4,
                in_bounds(*t, p),
                shape_matches(s, *t),
                -2 <= p.0 <= 9,
                -1 <= p.1 <= 18,
                forall|yy: int, xx: int|
                    0 <= yy < 20 && 0 <= xx < 10 ==> #[trigger] grid[yy][xx] == (if piece_hit(xx, yy, p, *t)
                        && before(yy - p.1, xx - p.0, y as int, x as int) {
                        cell(*t, yy - p.1, xx - p.0)
                    } else {
                        g0[yy][xx]
                    }),
            decreases 4 - x,
        {
            if s[y][x] != 0 {
                assert(cell(*t, y as int, x as int) != 0);
                let gy = (y as isize + p.1) as usize;
                let gx = (x as isize + p.0) as usize;
                let mut row = grid[gy];
                row[gx] = s[y][x];
                grid[gy] = row;
            }
            x += 1;
        }
        y += 1;
    }
}

proof fn lemma_hit_matches(s: [[usize; 4]; 4], t: Tetrimino, x: int, y: int, p: (isize, isize))
    requires
        shape_matches(s, t),
    ensures
        (spec_hit(x, y, p, s) is Some) == piece_hit(x, y, p, t),
{
    if p.0 <= x < p.0 + 4 && p.1 <= y < p.1 + 4 {
        assert(s[y - p.1][x - p.0] == cell(t, y - p.1, x - p.0));
    }
}

/// The collision test of a move, cell by cell over the window `w`.
fn grid_blocked(grid: &[[usize; 10]; 20], w: (isize, isize), t: &Tetrimino, p: (isize, isize)) -> (b: bool)
    requires
        -3 <= w.0 <= 9,
        -3 <= w.1 <= 19,
        -4 <= p.0 <= 12,
        -4 <= p.1 <= 22,
    ensures
        b == blocked(*grid, w, *t, p),
{
    let s = shape(t);
    let ylo: isize = if w.1 > 0 { w.1 } else { 0 };
    let yhi: isize = if w.1 + 4 < 20 { w.1 + 4 } else { 20 };
    let xlo: isize = if w.0 > 0 { w.0 } else { 0 };
    let xhi: isize = if w.0 + 4 < 10 { w.0 + 4 } else { 10 };
    let mut y = ylo;
    while y < yhi
        invariant
            ylo == rows_lo(w),
            yhi == rows_hi(w),
            xlo == cols_lo(w),
            xhi == cols_hi(w),
            xlo <= xhi,
            ylo <= y <= yhi,
            shape_matches(s, *t),
            -4 <= p.0 <= 12,
            -4 <= p.1 <= 22,
            forall|xx: int, yy: int|
                ylo <= yy < y && xlo <= xx < xhi ==> !(grid[yy][xx] != 0 && #[trigger] piece_hit(xx, yy, p, *t)),
        decreases yhi - y,
    {
        let mut x = xlo;
        while x < xhi
            invariant
                ylo == rows_lo(w),
                yhi == rows_hi(w),
                xlo == cols_lo(w),
                xhi == cols_hi(w),
                ylo <= y < yhi,
                xlo <= x <= xhi,
                shape_matches(s, *t),
                -4 <= p.0 <= 12,
                -4 <= p.1 <= 22,
                forall|xx: int, yy: int|
                    ylo <= yy < y && xlo <= xx < xhi ==> !(grid[yy][xx] != 0 && #[trigger] piece_hit(xx, yy, p, *t)),
                forall|xx: int| xlo <= xx < x ==> !(grid[y as int][xx] != 0 && #[trigger] piece_hit(xx, y as int, p, *t)),
            decreases xhi - x,
        {
            let h = Tetrimino::hit(x, y, &p, &s);
            proof {
                lemma_hit_matches(s, *t, x as int, y as int, p);
            }
            if grid[y as usize][x as usize] != 0 && h.is_some() {
                return true;
            }
            x += 1;
        }
        y += 1;
    }
    false
}

/// The border test of a move, over the rows and columns of the window `w`.
fn leaves_grid(w: (isize, isize), t: &Tetrimino, p: (isize, isize)) -> (b: bool)
    requires
        -3 <= w.0 <= 9,
        -3 <= w.1 <= 19,
        -4 <= p.0 <= 12,
        -4 <= p.1 <= 22,
    ensures
        b == out_of_bounds(w, *t, p),
{
    let s = shape(t);
    let ylo: isize = if w.1 > 0 { w.1 } else { 0 };
    let yhi: isize = if w.1 + 4 < 20 { w.1 + 4 } else { 20 };
    let xlo: isize = if w.0 > 0 { w.0 } else { 0 };
    let xhi: isize = if w.0 + 4 < 10 { w.0 + 4 } else { 10 };
    let mut y = ylo;
    while y < yhi
        invariant
            ylo == rows_lo(w),
            yhi == rows_hi(w),
            ylo <= y <= yhi,
            shape_matches(s, *t),
            -4 <= p.0 <= 12,
            -4 <= p.1 <= 22,
            forall|yy: int| ylo <= yy < y ==> !#[trigger] piece_hit(-1, yy, p, *t),
            forall|yy: int| ylo <= yy < y ==> !#[trigger] piece_hit(10, yy, p, *t),
        decreases yhi - y,
    {
        proof {
            lemma_hit_matches(s, *t, -1, y as int, p);
            lemma_hit_matches(s, *t, 10, y as int, p);
        }
        let left = Tetrimino::hit(-1, y, &p, &s);
        let right = Tetrimino::hit(10, y, &p, &s);
        if left.is_some() || right.is_some() {
            return true;
        }
        assert(!piece_hit(-1, y as int, p, *t) && !piece_hit(10, y as int, p, *t));
        y += 1;
    }
    let mut x = xlo;
    while x < xhi
        invariant
            ylo == rows_lo(w),
            yhi == rows_hi(w),
            xlo == cols_lo(w),
            xhi == cols_hi(w),
            xlo <= x <= xhi,
            shape_matches(s, *t),
            -4 <= p.0 <= 12,
            -4 <= p.1 <= 22,
            forall|yy: int| ylo <= yy < yhi ==> !#[trigger] piece_hit(-1, yy, p, *t),
            forall|yy: int| ylo <= yy < yhi ==> !#[trigger] piece_hit(10, yy, p, *t),
            forall|xx: int| xlo <= xx < x ==> !#[trigger] piece_hit(xx, 20, p, *t),
        decreases xhi - x,
    {
        proof {
            lemma_hit_matches(s, *t, x as int, 20, p);
        }
        if Tetrimino::hit(x, 20, &p, &s).is_some() {
            return true;
        }
        x += 1;
    }
    false
}

/// The landing test of the gravity step, column by column.
fn has_landed(grid: &[[usize; 10]; 20], t: &Tetrimino, p: (isize, isize)) -> (b: bool)
    requires
        -3 <= p.0 <= 9,
        -3 <= p.1 <= 19,
    ensures
        b == landed(*grid, *t, p),
{
    let s = shape(t);
    let ylo: isize = if p.1 > 0 { p.1 } else { 0 };
    let yhi: isize = if p.1 + 4 < 20 { p.1 + 4 } else { 20 };
    let xlo: isize = if p.0 > 0 { p.0 } else { 0 };
    let xhi: isize = if p.0 + 4 < 10 { p.0 + 4 } else { 10 };
    let mut x = xlo;
    while x < xhi
        invariant
            ylo == rows_lo(p),
            yhi == rows_hi(p),
            xlo == cols_lo(p),
            xhi == cols_hi(p),
            xlo <= x <= xhi,
            ylo <= yhi,
            shape_matches(s, *t),
            -4 <= p.0 <= 12,
            -4 <= p.1 <= 22,
            forall|xx: int, yy: int|
                xlo <= xx < x && ylo <= yy < yhi ==> !(grid[yy][xx] != 0 && #[trigger] piece_hit(xx, yy, p, *t)),
            forall|xx: int| xlo <= xx < x ==> !#[trigger] piece_hit(xx, 20, p, *t),
        decreases xhi - x,
    {
        let mut y = ylo;
        while y < yhi
            invariant
                ylo == rows_lo(p),
                yhi == rows_hi(p),
                xlo == cols_lo(p),
                xhi == cols_hi(p),
                xlo <= x < xhi,
                ylo <= y <= yhi,
                shape_matches(s, *t),
                -4 <= p.0 <= 12,
                -4 <= p.1 <= 22,
                forall|xx: int, yy: int|
                    xlo <= xx < x && ylo <= yy < yhi ==> !(grid[yy][xx] != 0 && #[trigger] piece_hit(xx, yy, p, *t)),
                forall|yy: int| ylo <= yy < y ==> !(grid[yy][x as int] != 0 && #[trigger] piece_hit(x as int, yy, p, *t)),
            decreases yhi - y,
        {
            proof {
                lemma_hit_matches(s, *t, x as int, y as int, p);
            }
            if grid[y as usize][x as usize] != 0 {
                if Tetrimino::hit(x, y, &p, &s).is_some() {
                    return true;
                }
            }
            y += 1;
        }
        proof {
            lemma_hit_matches(s, *t, x as int, 20, p);
        }
        if Tetrimino::hit(x, 20, &p, &s).is_some() {
            return true;
        }
        x += 1;
    }
    false
}



/// The frame relation: `g2` is `g` after one frame with `key` pressed, where
/// `spawn` is the piece that enters if the falling one settles.
pub open spec fn stepped(g: Game, g2: Game, key: Key, spawn: Tetrimino) -> bool {
    let (t1, p1) = after_move(g.grid, g.tetrimino, g.position, key);
    let p2 = fall_target(p1, g.tick);
    &&& g2.tick == g.tick + 1
    &&& if !landed(g.grid, t1, p2) {
        &&& g2.grid == g.grid
        &&& g2.tetrimino == t1
        &&& g2.position == p2
    } else {
        &&& g2.tetrimino == spawn
        &&& g2.position == (3isize, 0isize)
        &&& forall|y: int, x: int|
            0 <= y < 20 && 0 <= x < 10 ==> #[trigger] g2.grid[y][x] == locked_cell(g.grid, t1, p1, y, x)
    }
}

/// A piece of a random kind, facing up.
pub fn get_mino() -> (t: Tetrimino)
    ensures
        facing(t) == Direction::Up,
        minos().contains(t),
{
    let mut rng = crate::random::thread_rng();
    let r = crate::random::gen_usize(&mut rng);
    let t = mino_from_roll(r);
    assert(minos()[(r % 6) as int] == t);
    t
}

/// The pieces a new one is drawn from, each facing up.
pub open spec fn minos() -> Seq<Tetrimino> {
    seq![
        Tetrimino::Straight(Direction::Up),
        Tetrimino::Square(Direction::Up),
        Tetrimino::L(Direction::Up),
        Tetrimino::T(Direction::Up),
        Tetrimino::S(Direction::Up),
        Tetrimino::Z(Direction::Up),
    ]
}

/// The piece that a roll of the generator picks: the roll modulo the number
/// of pieces, as an index into `minos`.
pub fn mino_from_roll(roll: usize) -> (t: Tetrimino)
    ensures
        t == minos()[(roll % 6) as int],
{
    let pieces = [
        Tetrimino::Straight(Direction::Up),
        Tetrimino::Square(Direction::Up),
        Tetrimino::L(Direction::Up),
        Tetrimino::T(Direction::Up),
        Tetrimino::S(Direction::Up),
        Tetrimino::Z(Direction::Up),
    ];
    assert(pieces@ =~= minos());
    pieces[roll % 6]
}

/// Where a new piece enters the grid.
pub fn get_starting_position() -> (p: (isize, isize))
    ensures
        p == (3isize, 0isize),
{
    (3, 0)
}

impl Game {
    /// An empty grid with `first` at the starting position.
    pub fn new(first: Tetrimino) -> (g: Game)
        ensures
            g.wf(),
            g.tetrimino == first,
            g.position == (3isize, 0isize),
            g.tick == 0,
            forall|y: int, x: int| 0 <= y < 20 && 0 <= x < 10 ==> #[trigger] g.grid[y][x] == 0,
    {
        proof {
            lemma_spawn_in_bounds(first);
        }
        Game { grid: [[0usize; 10]; 20], tetrimino: first, position: get_starting_position(), tick: 0 }
    }

    /// One frame of the game: the key's move is taken if it neither collides
    /// nor leaves the grid; then, on every fifth frame, the piece falls one
    /// row unless it has landed, in which case it settles onto the grid and
    /// `spawn` enters at the starting position.
    pub fn step(&mut self, key: Key, spawn: Tetrimino)
        requires
            old(self).wf(),
            old(self).tick < i32::MAX,
        ensures
            final(self).wf(),
            stepped(*old(self), *final(self), key, spawn),
    {
        proof {
            lemma_position_range(self.tetrimino, self.position);
        }
        let t = self.tetrimino;
        let p = self.position;
        let proposal: Option<(Tetrimino, (isize, isize))> = match key {
            Key::Up => Some((t.rotate_right(), p)),
            Key::Right => Some((t, (p.0 + 1, p.1))),
            Key::Left => Some((t, (p.0 - 1, p.1))),
            Key::Down => Some((t, (p.0, p.1 + 1))),
            Key::Other => None,
        };
        match proposal {
            Some((t2, p2)) => {
                let hit = grid_blocked(&self.grid, p, &t2, p2);
                let out = leaves_grid(p, &t2, p2);
                if !hit && !out {
                    proof {
                        lemma_move_in_bounds(t, p, t2, p2);
                    }
                    self.tetrimino = t2;
                    self.position = p2;
                }
            },
            None => {},
        }
        proof {
            lemma_position_range(self.tetrimino, self.position);
        }
        let mut p2 = self.position;
        if self.tick % 5 == 0 {
            p2.1 = p2.1 + 1;
        }
        if !has_landed(&self.grid, &self.tetrimino, p2) {
            proof {
                lemma_fall_in_bounds(self.tetrimino, self.position, p2);
            }
            self.position = p2;
        } else {
            let m = self.tetrimino;
            lock_piece(&mut self.grid, &m, self.position);
            proof {
                lemma_spawn_in_bounds(spawn);
            }
            self.tetrimino = spawn;
            self.position = get_starting_position();
        }
        self.tick = self.tick + 1;
    }

    /// One frame of the game, with a random piece ready to enter.
    pub fn advance(&mut self, key: Key)
        requires
            old(self).wf(),
            old(self).tick < i32::MAX,
        ensures
            final(self).wf(),
            exists|spawn: Tetrimino|
                facing(spawn) == Direction::Up && stepped(*old(self), *final(self), key, spawn),
    {
        let spawn = get_mino();
        self.step(key, spawn);
    }
}

} // verus!
