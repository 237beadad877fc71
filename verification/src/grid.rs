//! Cells of a grid and the cells of a straight line between two of them.

use vstd::prelude::*;

verus! {

/// A cell of the grid.
#[derive(PartialEq, Eq, Structural, Clone, Copy, Debug, Hash)]
pub struct Position {
    pub x: isize,
    pub y: isize,
}

impl Position {
    /// The origin.
    pub fn zero() -> (p: Position)
        ensures
            p == (Position { x: 0, y: 0 }),
    {
        Position { x: 0, y: 0 }
    }
}

impl Position {
    /// The sum of two positions, coordinate by coordinate.
    pub fn add(&self, rhs: &Position) -> (p: Position)
        requires
            isize::MIN <= self.x + rhs.x <= isize::MAX,
            isize::MIN <= self.y + rhs.y <= isize::MAX,
        ensures
            p.x == self.x + rhs.x,
            p.y == self.y + rhs.y,
    {
        Position { x: self.x + rhs.x, y: self.y + rhs.y }
    }
}


/// The absolute value of `a`.
pub open spec fn abs(a: int) -> int {
    if a < 0 { -a } else { a }
}

/// The step, one or minus one, that leads from `a` toward `b` (minus one
/// where they are equal).
pub open spec fn toward(a: int, b: int) -> int {
    if a < b { 1 } else { -1 }
}

/// One step of the line: the error term decides whether x, y or both move.
pub open spec fn line_step(x: int, y: int, err: int, dx: int, dy: int, sx: int, sy: int) -> (int, int, int) {
    let e2 = 2 * err;
    let x1 = if e2 > -dy { x + sx } else { x };
    let err1 = if e2 > -dy { err - dy } else { err };
    if e2 < dx {
        (x1, y + sy, err1 + dx)
    } else {
        (x1, y, err1)
    }
}

/// The cells of the line from `(x, y)`, ending at `(tx, ty)`, at most `fuel`
/// of them.
pub open spec fn line_trace(
    x: int,
    y: int,
    err: int,
    tx: int,
    ty: int,
    dx: int,
    dy: int,
    sx: int,
    sy: int,
    fuel: nat,
) -> Seq<Position>
    decreases fuel,
{
    if fuel == 0 {
        Seq::empty()
    } else if x == tx && y == ty {
        seq![Position { x: x as isize, y: y as isize }]
    } else {
        let s = line_step(x, y, err, dx, dy, sx, sy);
        seq![Position { x: x as isize, y: y as isize }] + line_trace(
            s.0,
            s.1,
            s.2,
            tx,
            ty,
            dx,
            dy,
            sx,
            sy,
            (fuel - 1) as nat,
        )
    }
}

/// The cells of Bresenham's line from `p0` to `p1`.
pub open spec fn bresenham_line(p0: Position, p1: Position) -> Seq<Position> {
    let dx = abs(p1.x - p0.x);
    let dy = abs(p1.y - p0.y);
    line_trace(
        p0.x as int,
        p0.y as int,
        dx - dy,
        p1.x as int,
        p1.y as int,
        dx,
        dy,
        toward(p0.x as int, p1.x as int),
        toward(p0.y as int, p1.y as int),
        (dx + dy + 1) as nat,
    )
}

/// The line's error term can be doubled without overflow: the endpoints
/// are less than a quarter of the `isize` range apart on each axis.
pub open spec fn line_fits(p0: Position, p1: Position) -> bool {
    4 * abs(p1.x - p0.x) <= isize::MAX && 4 * abs(p1.y - p0.y) <= isize::MAX
}

/// Two cells touch, sideways or diagonally, or are the same.
pub open spec fn adjacent(a: Position, b: Position) -> bool {
    abs(a.x - b.x) <= 1 && abs(a.y - b.y) <= 1
}

/// After `i` steps along x and `j` along y the error term is
/// `dx * (1 + j) - dy * (1 + i)`; while the end is not reached, a step along
/// x is taken only before the last column, one along y only before the last
/// row, and one of them always is.
proof fn lemma_line_step(dx: int, dy: int, i: int, j: int, err: int)
    requires
        0 <= i <= dx,
        0 <= j <= dy,
        err == dx * (1 + j) - dy * (1 + i),
        !(i == dx && j == dy),
    ensures
        2 * err > -dy ==> i < dx,
        2 * err < dx ==> j < dy,
        2 * err > -dy || 2 * err < dx,
        err - dy == dx * (1 + j) - dy * (1 + (i + 1)),
        err + dx == dx * (1 + (j + 1)) - dy * (1 + i),
        err - dy + dx == dx * (1 + (j + 1)) - dy * (1 + (i + 1)),
{
    assert(dy * (1 + (i + 1)) == dy * (1 + i) + dy) by (nonlinear_arith);
    assert(dx * (1 + (j + 1)) == dx * (1 + j) + dx) by (nonlinear_arith);
    if 2 * err > -dy && i == dx {
        assert(j + 1 <= dy);
        assert(dx * (1 + j) <= dx * dy) by (nonlinear_arith)
            requires
                0 <= dx,
                1 + j <= dy,
        ;
        assert(dy * (1 + dx) == dy + dy * dx) by (nonlinear_arith);
        assert(dx * dy == dy * dx) by (nonlinear_arith);
    }
    if 2 * err < dx && j == dy {
        assert(i + 1 <= dx);
        assert(dy * (1 + i) <= dy * dx) by (nonlinear_arith)
            requires
                0 <= dy,
                1 + i <= dx,
        ;
        assert(dx * (1 + dy) == dx + dx * dy) by (nonlinear_arith);
        assert(dx * dy == dy * dx) by (nonlinear_arith);
    }
}

/// The cells of the straight line from `pos0` to `pos1`, both included, as
/// Bresenham's algorithm walks them.
pub fn bresenham(pos0: &Position, pos1: &Position) -> (line: Vec<Position>)
    requires
        line_fits(*pos0, *pos1),
    ensures
        line@ == bresenham_line(*pos0, *pos1),
        line@.len() >= 1,
        line@[0] == *pos0,
        line@.last() == *pos1,
        forall|k: int| 0 <= k < line@.len() - 1 ==> adjacent(#[trigger] line@[k], line@[k + 1]),
        line@.len() <= abs(pos1.x - pos0.x) + abs(pos1.y - pos0.y) + 1,
{
    let mut line: Vec<Position> = Vec::new();
    let ddx = pos1.x - pos0.x;
    let ddy = pos1.y - pos0.y;
    let dx: isize = if ddx < 0 { -ddx } else { ddx };
    let dy: isize = if ddy < 0 { -ddy } else { ddy };
    let sx: isize = if pos0.x < pos1.x { 1 } else { -1 };
    let sy: isize = if pos0.y < pos1.y { 1 } else { -1 };
    let mut err: isize = dx - dy;
    let mut x0: isize = pos0.x;
    let mut y0: isize = pos0.y;
    let ghost mut i: int = 0;
    let ghost mut j: int = 0;
    let ghost mut fuel: nat = (dx + dy + 1) as nat;
    assert(dx * (1 + 0) - dy * (1 + 0) == dx - dy) by (nonlinear_arith);
    loop
        invariant_except_break
            0 <= i <= dx,
            0 <= j <= dy,
            x0 == pos0.x + sx * i,
            y0 == pos0.y + sy * j,
            err == dx * (1 + j) - dy * (1 + i),
            -2 * dy <= err <= 2 * dx,
            fuel >= (dx - i) + (dy - j) + 1,
            line@.len() == (dx + dy + 1) - fuel,
            line@ + line_trace(x0 as int, y0 as int, err as int, pos1.x as int, pos1.y as int, dx as int, dy as int,
                sx as int, sy as int, fuel) == bresenham_line(*pos0, *pos1),
            line@.len() == 0 ==> i == 0 && j == 0,
            line@.len() > 0 ==> line@[0] == *pos0,
            line@.len() > 0 ==> adjacent(line@.last(), Position { x: x0, y: y0 }),
            forall|k: int| 0 <= k < line@.len() - 1 ==> adjacent(#[trigger] line@[k], line@[k + 1]),
        invariant
            line_fits(*pos0, *pos1),
            dx == abs(pos1.x - pos0.x),
            dy == abs(pos1.y - pos0.y),
            sx == toward(pos0.x as int, pos1.x as int),
            sy == toward(pos0.y as int, pos1.y as int),
        ensures
            line@ == bresenham_line(*pos0, *pos1),
            line@.len() >= 1,
            line@[0] == *pos0,
            line@.last() == *pos1,
            forall|k: int| 0 <= k < line@.len() - 1 ==> adjacent(#[trigger] line@[k], line@[k + 1]),
            line@.len() <= dx + dy + 1,
        decreases fuel,
    {
        proof {
            if sx == 1 {
                assert(sx * i == i);
            } else {
                assert(sx * i == -i);
            }
            if sy == 1 {
                assert(sy * j == j);
            } else {
                assert(sy * j == -j);
            }
        }
        let ghost before = line@;
        line.push(Position { x: x0, y: y0 });
        if x0 == pos1.x && y0 == pos1.y {
            proof {
                assert(line@ =~= bresenham_line(*pos0, *pos1));
            }
            break;
        }
        proof {
            assert(!(i == dx && j == dy)) by {
                if i == dx && j == dy {
                    if sx == 1 { assert(pos0.x + dx == pos1.x); } else { assert(pos0.x - dx == pos1.x); }
                    if sy == 1 { assert(pos0.y + dy == pos1.y); } else { assert(pos0.y - dy == pos1.y); }
                }
            }
            lemma_line_step(dx as int, dy as int, i, j, err as int);
            assert(before + line_trace(x0 as int, y0 as int, err as int, pos1.x as int, pos1.y as int, dx as int,
                dy as int, sx as int, sy as int, fuel) =~= line@ + line_trace(
                line_step(x0 as int, y0 as int, err as int, dx as int, dy as int, sx as int, sy as int).0,
                line_step(x0 as int, y0 as int, err as int, dx as int, dy as int, sx as int, sy as int).1,
                line_step(x0 as int, y0 as int, err as int, dx as int, dy as int, sx as int, sy as int).2,
                pos1.x as int, pos1.y as int, dx as int, dy as int, sx as int, sy as int, (fuel - 1) as nat));
        }
        let e2 = 2 * err;
        if e2 > -dy {
            err -= dy;
            x0 += sx;
            proof {
                i = i + 1;
            }
        }
        if e2 < dx {
            err += dx;
            y0 += sy;
            proof {
                j = j + 1;
            }
        }
        proof {
            fuel = (fuel - 1) as nat;
            if sx == 1 {
                assert(sx * i == i);
            } else {
                assert(sx * i == -i);
            }
            if sy == 1 {
                assert(sy * j == j);
            } else {
                assert(sy * j == -j);
            }
        }
    }
    line
}

} // verus!
