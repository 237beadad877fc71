//! What each viewer sees: the cells its rays reach, the hidden things they
//! uncover, the viewers and viewables that meet, and the fog they clear.

use vstd::prelude::*;
use crate::equality_helpers::set_elements;
use crate::grid::{abs, bresenham, bresenham_line, Position};
use crate::word_dungeon::colors::REVEALED_FOG_COLOR;
use crate::word_dungeon::components::{kind, Component, ViewType};
use crate::word_dungeon::dialogue::{component_of, position_of, shown};
use crate::word_dungeon::entity::{has_kind, last_of_kind, Entity};
use crate::word_dungeon::equality::{lemma_same_component_kind, same_component};
use crate::word_dungeon::event::Event;
use crate::word_dungeon::state::State;

verus! {

/// The offset `(x, y)` lies on the edge of the square that a viewer with
/// view distance `d` scans: both coordinates from `-d` to `d - 1`, one of
/// them at an end of that range.
pub open spec fn on_edge(d: int, x: int, y: int) -> bool {
    &&& -d <= x < d
    &&& -d <= y < d
    &&& !(x > -d && x < d - 1 && y > -d && y < d - 1)
}

/// The first `d` cells of the line from `from` to the cell at offset
/// `(x, y)`.
pub open spec fn ray(from: Position, x: int, y: int, d: nat) -> Seq<Position> {
    let line = bresenham_line(from, Position { x: (from.x + x) as isize, y: (from.y + y) as isize });
    if line.len() <= d {
        line
    } else {
        line.take(d as int)
    }
}

/// The index of the first cell of `r` that is among `solid`, or the length
/// of `r` where none is.
pub open spec fn first_solid(r: Seq<Position>, solid: Set<Position>) -> nat
    decreases r.len(),
{
    if r.len() == 0 {
        0
    } else if solid.contains(r[0]) {
        0
    } else {
        1 + first_solid(r.drop_first(), solid)
    }
}

/// The cells of the ray that are seen: those before the first solid one.
pub open spec fn ray_seen(r: Seq<Position>, solid: Set<Position>) -> Seq<Position> {
    r.take(first_solid(r, solid) as int)
}

/// The cells of the ray that are reached: those seen and the first solid
/// one.
pub open spec fn ray_reached(r: Seq<Position>, solid: Set<Position>) -> Seq<Position> {
    if first_solid(r, solid) < r.len() {
        r.take(first_solid(r, solid) + 1int)
    } else {
        r
    }
}

/// The cells that a viewer at `from` with view distance `d` sees.
pub open spec fn seen_by(from: Position, d: nat, solid: Set<Position>, p: Position) -> bool {
    exists|x: int, y: int| on_edge(d as int, x, y) && #[trigger] ray_seen(ray(from, x, y, d), solid).contains(p)
}

/// The cells that a viewer at `from` with view distance `d` reaches: those it
/// sees, and the solid cells that stop its rays.
pub open spec fn reached_by(from: Position, d: nat, solid: Set<Position>, p: Position) -> bool {
    exists|x: int, y: int| on_edge(d as int, x, y) && #[trigger] ray_reached(ray(from, x, y, d), solid).contains(p)
}

proof fn lemma_first_solid(r: Seq<Position>, solid: Set<Position>, i: int)
    requires
        0 <= i <= r.len(),
        forall|j: int| 0 <= j < i ==> !solid.contains(#[trigger] r[j]),
    ensures
        first_solid(r, solid) >= i,
        first_solid(r, solid) <= r.len(),
        i < r.len() && solid.contains(r[i]) ==> first_solid(r, solid) == i,
        i == r.len() ==> first_solid(r, solid) == r.len(),
    decreases i,
{
    lemma_first_solid_bound(r, solid);
    if i > 0 {
        assert forall|j: int| 0 <= j < i - 1 implies !solid.contains(#[trigger] r.drop_first()[j]) by {
            assert(r.drop_first()[j] == r[j + 1]);
        }
        assert(!solid.contains(r[0]));
        lemma_first_solid(r.drop_first(), solid, i - 1);
        if i < r.len() && solid.contains(r[i]) {
            assert(r.drop_first()[i - 1] == r[i]);
        }
    }
}

proof fn lemma_first_solid_bound(r: Seq<Position>, solid: Set<Position>)
    ensures
        first_solid(r, solid) <= r.len(),
    decreases r.len(),
{
    if r.len() > 0 && !solid.contains(r[0]) {
        lemma_first_solid_bound(r.drop_first(), solid);
    }
}

/// Appends the seen and the reached cells of the ray toward offset `(x, y)`.
fn cast_ray(
    from: Position,
    x: isize,
    y: isize,
    d: usize,
    solid: &Vec<Position>,
    seen: &mut Vec<Position>,
    reached: &mut Vec<Position>,
)
    requires
        isize::MIN <= from.x + x <= isize::MAX,
        isize::MIN <= from.y + y <= isize::MAX,
        4 * abs(x as int) <= isize::MAX,
        4 * abs(y as int) <= isize::MAX,
    ensures
        final(seen)@ == old(seen)@ + ray_seen(ray(from, x as int, y as int, d as nat), solid@.to_set()),
        final(reached)@ == old(reached)@ + ray_reached(ray(from, x as int, y as int, d as nat), solid@.to_set()),
{
    let to = Position { x: from.x + x, y: from.y + y };
    let line = bresenham(&from, &to);
    let n = if line.len() <= d { line.len() } else { d };
    let ghost r = ray(from, x as int, y as int, d as nat);
    assert(r =~= line@.take(n as int));
    let ghost seen0 = seen@;
    let ghost reached0 = reached@;
    let mut i: usize = 0;
    proof {
        if n == 0 {
            lemma_first_solid(r, solid@.to_set(), 0);
            assert(ray_seen(r, solid@.to_set()) =~= r.take(0));
            assert(ray_reached(r, solid@.to_set()) =~= r.take(0));
        }
    }
    while i < n
        invariant_except_break
            i <= n,
            n == r.len(),
            n <= line@.len(),
            forall|k: int| 0 <= k < n ==> r[k] == #[trigger] line@[k],
            forall|j: int| 0 <= j < i ==> !solid@.to_set().contains(#[trigger] r[j]),
            seen@ == seen0 + r.take(i as int),
            reached@ == reached0 + r.take(i as int),
            i == n ==> seen@ == seen0 + ray_seen(r, solid@.to_set()) && reached@ == reached0 + ray_reached(r, solid@.to_set()),
        ensures
            seen@ == seen0 + ray_seen(r, solid@.to_set()),
            reached@ == reached0 + ray_reached(r, solid@.to_set()),
        decreases n - i,
    {
        let p = line[i];
        let mut blocked = false;
        let mut k: usize = 0;
        while k < solid.len()
            invariant
                k <= solid@.len(),
                blocked <==> exists|m: int| 0 <= m < k && solid@[m] == p,
            decreases solid@.len() - k,
        {
            if solid[k] == p {
                blocked = true;
            }
            k = k + 1;
        }
        if blocked {
            proof {
                assert(solid@.to_set().contains(r[i as int]));
                lemma_first_solid(r, solid@.to_set(), i as int);
                assert(r.take(i + 1) =~= r.take(i as int).push(p));
            }
            reached.push(p);
            break;
        }
        proof {
            assert(!solid@.to_set().contains(r[i as int]));
            assert(r.take(i + 1) =~= r.take(i as int).push(p));
        }
        seen.push(p);
        reached.push(p);
        i = i + 1;
        proof {
            if i == n {
                lemma_first_solid(r, solid@.to_set(), i as int);
                assert(r.take(i as int) =~= r);
                assert(ray_seen(r, solid@.to_set()) =~= r);
            }
        }
    }
}

/// The offsets scanned before `(x, y)`: rows above it, and cells to its left
/// on its row.
pub open spec fn scanned_before(x1: int, y1: int, x: int, y: int) -> bool {
    y1 < y || (y1 == y && x1 < x)
}

/// The cells seen through the rays toward the edge offsets scanned before
/// `(x, y)`.
pub open spec fn seen_so_far(from: Position, d: nat, solid: Set<Position>, x: int, y: int, p: Position) -> bool {
    exists|x1: int, y1: int|
        on_edge(d as int, x1, y1) && scanned_before(x1, y1, x, y) && #[trigger] ray_seen(ray(from, x1, y1, d), solid).contains(p)
}

/// The cells reached through the rays toward the edge offsets scanned before
/// `(x, y)`.
pub open spec fn reached_so_far(from: Position, d: nat, solid: Set<Position>, x: int, y: int, p: Position) -> bool {
    exists|x1: int, y1: int|
        on_edge(d as int, x1, y1) && scanned_before(x1, y1, x, y) && #[trigger] ray_reached(ray(from, x1, y1, d), solid).contains(p)
}

proof fn lemma_contains_concat(a: Seq<Position>, b: Seq<Position>, p: Position)
    ensures
        (a + b).contains(p) <==> a.contains(p) || b.contains(p),
{
    if a.contains(p) {
        let i = choose|i: int| 0 <= i < a.len() && a[i] == p;
        assert((a + b)[i] == p);
    }
    if b.contains(p) {
        let i = choose|i: int| 0 <= i < b.len() && b[i] == p;
        assert((a + b)[a.len() + i] == p);
    }
    if (a + b).contains(p) {
        let i = choose|i: int| 0 <= i < (a + b).len() && (a + b)[i] == p;
        if i < a.len() {
            assert(a[i] == p);
        } else {
            assert(b[i - a.len()] == p);
        }
    }
}

/// The cells that a viewer at `from` with view distance `d` sees, and those
/// it reaches, with the cells in `solid` blocking its rays; a cell may come
/// more than once.
#[verifier::spinoff_prover]
pub fn view_cells(from: Position, d: usize, solid: &Vec<Position>) -> (cells: (Vec<Position>, Vec<Position>))
    requires
        4 * d <= isize::MAX,
        isize::MIN <= from.x - d,
        from.x + d <= isize::MAX,
        isize::MIN <= from.y - d,
        from.y + d <= isize::MAX,
    ensures
        forall|p: Position| cells.0@.contains(p) <==> seen_by(from, d as nat, solid@.to_set(), p),
        forall|p: Position| cells.1@.contains(p) <==> reached_by(from, d as nat, solid@.to_set(), p),
{
    let mut seen: Vec<Position> = Vec::new();
    let mut reached: Vec<Position> = Vec::new();
    let a: isize = -(d as isize);
    let b: isize = d as isize;
    let mut y: isize = a;
    while y < b
        invariant
            a == -d,
            b == d,
            4 * d <= isize::MAX,
            isize::MIN <= from.x - d,
            from.x + d <= isize::MAX,
            isize::MIN <= from.y - d,
            from.y + d <= isize::MAX,
            a <= y <= b,
            forall|p: Position| #[trigger] seen@.contains(p) <==> seen_so_far(from, d as nat, solid@.to_set(), a as int, y as int, p),
            forall|p: Position| #[trigger] reached@.contains(p) <==> reached_so_far(from, d as nat, solid@.to_set(), a as int, y as int, p),
        decreases b - y,
    {
        let mut x: isize = a;
        while x < b
            invariant
                a == -d,
                b == d,
                4 * d <= isize::MAX,
                isize::MIN <= from.x - d,
                from.x + d <= isize::MAX,
                isize::MIN <= from.y - d,
                from.y + d <= isize::MAX,
                a <= y < b,
                a <= x <= b,
                forall|p: Position| #[trigger] seen@.contains(p) <==> seen_so_far(from, d as nat, solid@.to_set(), x as int, y as int, p),
                forall|p: Position| #[trigger] reached@.contains(p) <==> reached_so_far(from, d as nat, solid@.to_set(), x as int, y as int, p),
            decreases b - x,
        {
            let ghost seen0 = seen@;
            let ghost reached0 = reached@;
            let edge = !(x > a && x < b - 1 && y > a && y < b - 1);
            if edge {
                cast_ray(from, x, y, d, solid, &mut seen, &mut reached);
            }
            proof {
                let rs = ray_seen(ray(from, x as int, y as int, d as nat), solid@.to_set());
                let rr = ray_reached(ray(from, x as int, y as int, d as nat), solid@.to_set());
                assert(edge == on_edge(d as int, x as int, y as int));
                assert forall|p: Position| #[trigger] seen@.contains(p) <==> seen_so_far(from, d as nat, solid@.to_set(), x + 1, y as int, p) by {
                    if edge {
                        lemma_contains_concat(seen0, rs, p);
                    }
                    if seen_so_far(from, d as nat, solid@.to_set(), x + 1, y as int, p) {
                        let (x1, y1) = choose|x1: int, y1: int|
                            on_edge(d as int, x1, y1) && scanned_before(x1, y1, x + 1, y as int) && #[trigger] ray_seen(ray(from, x1, y1, d as nat), solid@.to_set()).contains(p);
                        if !(x1 == x && y1 == y) {
                            assert(seen_so_far(from, d as nat, solid@.to_set(), x as int, y as int, p));
                        }
                    }
                    if seen0.contains(p) {
                        let (x1, y1) = choose|x1: int, y1: int|
                            on_edge(d as int, x1, y1) && scanned_before(x1, y1, x as int, y as int) && #[trigger] ray_seen(ray(from, x1, y1, d as nat), solid@.to_set()).contains(p);
                        assert(scanned_before(x1, y1, x + 1, y as int));
                    }
                }
                assert forall|p: Position| #[trigger] reached@.contains(p) <==> reached_so_far(from, d as nat, solid@.to_set(), x + 1, y as int, p) by {
                    if edge {
                        lemma_contains_concat(reached0, rr, p);
                    }
                    if reached_so_far(from, d as nat, solid@.to_set(), x + 1, y as int, p) {
                        let (x1, y1) = choose|x1: int, y1: int|
                            on_edge(d as int, x1, y1) && scanned_before(x1, y1, x + 1, y as int) && #[trigger] ray_reached(ray(from, x1, y1, d as nat), solid@.to_set()).contains(p);
                        if !(x1 == x && y1 == y) {
                            assert(reached_so_far(from, d as nat, solid@.to_set(), x as int, y as int, p));
                        }
                    }
                    if reached0.contains(p) {
                        let (x1, y1) = choose|x1: int, y1: int|
                            on_edge(d as int, x1, y1) && scanned_before(x1, y1, x as int, y as int) && #[trigger] ray_reached(ray(from, x1, y1, d as nat), solid@.to_set()).contains(p);
                        assert(scanned_before(x1, y1, x + 1, y as int));
                    }
                }
            }
            x = x + 1;
        }
        proof {
            assert forall|p: Position| #[trigger] seen@.contains(p) <==> seen_so_far(from, d as nat, solid@.to_set(), a as int, y + 1, p) by {
                if seen_so_far(from, d as nat, solid@.to_set(), a as int, y + 1, p) {
                    let (x1, y1) = choose|x1: int, y1: int|
                        on_edge(d as int, x1, y1) && scanned_before(x1, y1, a as int, y + 1) && #[trigger] ray_seen(ray(from, x1, y1, d as nat), solid@.to_set()).contains(p);
                    assert(seen_so_far(from, d as nat, solid@.to_set(), b as int, y as int, p));
                }
                if seen_so_far(from, d as nat, solid@.to_set(), b as int, y as int, p) {
                    let (x1, y1) = choose|x1: int, y1: int|
                        on_edge(d as int, x1, y1) && scanned_before(x1, y1, b as int, y as int) && #[trigger] ray_seen(ray(from, x1, y1, d as nat), solid@.to_set()).contains(p);
                    assert(scanned_before(x1, y1, a as int, y + 1));
                }
            }
            assert forall|p: Position| #[trigger] reached@.contains(p) <==> reached_so_far(from, d as nat, solid@.to_set(), a as int, y + 1, p) by {
                if reached_so_far(from, d as nat, solid@.to_set(), a as int, y + 1, p) {
                    let (x1, y1) = choose|x1: int, y1: int|
                        on_edge(d as int, x1, y1) && scanned_before(x1, y1, a as int, y + 1) && #[trigger] ray_reached(ray(from, x1, y1, d as nat), solid@.to_set()).contains(p);
                    assert(reached_so_far(from, d as nat, solid@.to_set(), b as int, y as int, p));
                }
                if reached_so_far(from, d as nat, solid@.to_set(), b as int, y as int, p) {
                    let (x1, y1) = choose|x1: int, y1: int|
                        on_edge(d as int, x1, y1) && scanned_before(x1, y1, b as int, y as int) && #[trigger] ray_reached(ray(from, x1, y1, d as nat), solid@.to_set()).contains(p);
                    assert(scanned_before(x1, y1, a as int, y + 1));
                }
            }
        }
        y = y + 1;
    }
    proof {
        assert forall|p: Position| seen@.contains(p) <==> seen_by(from, d as nat, solid@.to_set(), p) by {
            if seen_by(from, d as nat, solid@.to_set(), p) {
                let (x1, y1) = choose|x1: int, y1: int| on_edge(d as int, x1, y1) && #[trigger] ray_seen(ray(from, x1, y1, d as nat), solid@.to_set()).contains(p);
                assert(scanned_before(x1, y1, a as int, b as int));
            }
        }
        assert forall|p: Position| reached@.contains(p) <==> reached_by(from, d as nat, solid@.to_set(), p) by {
            if reached_by(from, d as nat, solid@.to_set(), p) {
                let (x1, y1) = choose|x1: int, y1: int| on_edge(d as int, x1, y1) && #[trigger] ray_reached(ray(from, x1, y1, d as nat), solid@.to_set()).contains(p);
                assert(scanned_before(x1, y1, a as int, b as int));
            }
        }
    }
    (seen, reached)
}

/// `i` is the slot of one of the entity's components of a kind in `kinds`.
pub open spec fn is_slot_of(e: Entity, kinds: Set<usize>, i: int) -> bool {
    exists|k: usize| #[trigger] kinds.contains(k) && e.component_index@.contains_key(k) && e.component_index@[k] == i
}

/// `e1` is `e0` with at most the components in the slots of the kinds
/// `kinds` replaced, each by one of the same kind.
pub open spec fn only_slots_changed(e0: Entity, e1: Entity, kinds: Set<usize>) -> bool {
    &&& e1.id == e0.id
    &&& e1.component_index == e0.component_index
    &&& e0.wf() ==> e1.wf()
    &&& e1.components@.len() == e0.components@.len()
    &&& forall|i: int|
        0 <= i < e0.components@.len() && !is_slot_of(e0, kinds, i) ==> #[trigger] e1.components@[i] == e0.components@[i]
}

/// The entities of `m1` are those of `m0`, with at most the components of
/// the kinds `kinds` replaced.
pub open spec fn changed_only(m0: Map<usize, Entity>, m1: Map<usize, Entity>, kinds: Set<usize>) -> bool {
    &&& m1.dom() == m0.dom()
    &&& forall|id: usize| #[trigger] m0.contains_key(id) ==> only_slots_changed(m0[id], m1[id], kinds)
}

proof fn lemma_changed_only_trans(m0: Map<usize, Entity>, m1: Map<usize, Entity>, m2: Map<usize, Entity>, kinds: Set<usize>)
    requires
        changed_only(m0, m1, kinds),
        changed_only(m1, m2, kinds),
    ensures
        changed_only(m0, m2, kinds),
{
    assert forall|id: usize| #[trigger] m0.contains_key(id) implies only_slots_changed(m0[id], m2[id], kinds) by {
        assert(m1.contains_key(id));
        let e0 = m0[id];
        let e1 = m1[id];
        let e2 = m2[id];
        assert forall|i: int| 0 <= i < e0.components@.len() && !is_slot_of(e0, kinds, i) implies #[trigger] e2.components@[i] == e0.components@[i] by {
            if is_slot_of(e1, kinds, i) {
                let k = choose|k: usize| #[trigger] kinds.contains(k) && e1.component_index@.contains_key(k) && e1.component_index@[k] == i;
                assert(is_slot_of(e0, kinds, i));
            }
            assert(e2.components@[i] == e1.components@[i]);
            assert(e1.components@[i] == e0.components@[i]);
        }
    }
}

proof fn lemma_changed_only_refl(m: Map<usize, Entity>, kinds: Set<usize>)
    ensures
        changed_only(m, m, kinds),
{
}

proof fn lemma_changed_only_widen(m0: Map<usize, Entity>, m1: Map<usize, Entity>, k1: Set<usize>, k2: Set<usize>)
    requires
        changed_only(m0, m1, k1),
        k1.subset_of(k2),
    ensures
        changed_only(m0, m1, k2),
{
    assert forall|id: usize| #[trigger] m0.contains_key(id) implies only_slots_changed(m0[id], m1[id], k2) by {
        let e0 = m0[id];
        let e1 = m1[id];
        assert forall|i: int| 0 <= i < e0.components@.len() && !is_slot_of(e0, k2, i) implies #[trigger] e1.components@[i] == e0.components@[i] by {
            if is_slot_of(e0, k1, i) {
                let k = choose|k: usize| #[trigger] k1.contains(k) && e0.component_index@.contains_key(k) && e0.component_index@[k] == i;
                assert(k2.contains(k));
            }
        }
    }
}

/// What `set_component` did to the entities, in the terms of the slots.
proof fn lemma_set_component_frame(m0: Map<usize, Entity>, m1: Map<usize, Entity>, id: usize, c: Component)
    requires
        m0.contains_key(id),
        m0[id].wf(),
        has_kind(m0[id].components@, kind(c)),
        m1.contains_key(id),
        m1.remove(id) == m0.remove(id),
        m1[id].wf(),
        m1[id].id == m0[id].id,
        m1[id].component_index == m0[id].component_index,
        m1[id].components@ == m0[id].components@.update(m0[id].component_index@[kind(c) as usize] as int, c),
    ensures
        changed_only(m0, m1, set![kind(c) as usize]),
        component_of(m1[id], kind(c)) == c,
        forall|o: usize| o != id && #[trigger] m0.contains_key(o) ==> m1[o] == m0[o],
{
    let e0 = m0[id];
    let k = kind(c) as usize;
    assert(e0.component_index@.contains_key(k));
    assert(last_of_kind(e0.components@, k as nat, e0.component_index@[k] as int));
    assert(m1.dom() =~= m0.dom()) by {
        assert forall|o: usize| m1.dom().contains(o) <==> m0.dom().contains(o) by {
            if o != id {
                assert(m1.remove(id).contains_key(o) == m1.contains_key(o));
                assert(m0.remove(id).contains_key(o) == m0.contains_key(o));
            }
        }
    }
    assert forall|o: usize| o != id && #[trigger] m0.contains_key(o) implies m1[o] == m0[o] by {
        assert(m1.remove(id)[o] == m1[o]);
        assert(m0.remove(id)[o] == m0[o]);
    }
    assert forall|o: usize| #[trigger] m0.contains_key(o) implies only_slots_changed(m0[o], m1[o], set![k]) by {
        if o == id {
            assert forall|i: int| 0 <= i < e0.components@.len() && !is_slot_of(e0, set![k], i) implies #[trigger] m1[o].components@[i] == e0.components@[i] by {
                if i == e0.component_index@[k] as int {
                    assert(set![k].contains(k));
                    assert(is_slot_of(e0, set![k], i));
                }
            }
        }
    }
}

/// Whether the fog entity was uncovered before, where its component says.
pub open spec fn fog_of(e: Entity) -> Option<bool> {
    match component_of(e, 18) {
        Component::Fog(f) => f,
        _ => None,
    }
}

/// The component that draws uncovered fog: a full block in the colour of
/// revealed fog.
pub open spec fn is_revealed_fog(c: Component) -> bool {
    c matches Component::RenderFg(Some((s, col, b))) && s@ == "█"@ && col == REVEALED_FOG_COLOR && !b
}

/// A change of a component of kind `k` was recorded.
pub open spec fn changes_kind(ev: Event, kinds: Set<usize>) -> bool {
    ev matches Event::ComponentChanged(c) && kinds.contains(kind(c) as usize)
}

/// `ev1` is `ev0` followed by events of which each records a change of a
/// component of one of the kinds `kinds`.
pub open spec fn changes_appended(ev0: Seq<Event>, ev1: Seq<Event>, kinds: Set<usize>) -> bool {
    &&& ev0.len() <= ev1.len()
    &&& ev1.take(ev0.len() as int) == ev0
    &&& forall|i: int| ev0.len() <= i < ev1.len() ==> changes_kind(#[trigger] ev1[i], kinds)
}

proof fn lemma_changes_appended_trans(e0: Seq<Event>, e1: Seq<Event>, e2: Seq<Event>, kinds: Set<usize>)
    requires
        changes_appended(e0, e1, kinds),
        changes_appended(e1, e2, kinds),
    ensures
        changes_appended(e0, e2, kinds),
{
    assert(e2.take(e0.len() as int) =~= e1.take(e1.len() as int).take(e0.len() as int));
    assert(e1.take(e1.len() as int) =~= e1);
    assert forall|i: int| e0.len() <= i < e2.len() implies changes_kind(#[trigger] e2[i], kinds) by {
        if i < e1.len() {
            assert(e2.take(e1.len() as int)[i] == e2[i]);
        }
    }
}

/// The state after `set_component(id, c)` went on from `s0`: the changed
/// component, the entities and the events in the terms of the slots.
proof fn lemma_after_set(s0: State, s1: State, id: usize, c: Component, kinds: Set<usize>)
    requires
        s0.entities_map@.contains_key(id),
        s0.entities_map@[id].wf(),
        has_kind(s0.entities_map@[id].components@, kind(c)),
        kinds.contains(kind(c) as usize),
        s1.entities_map@.contains_key(id),
        s1.entities_map@.remove(id) == s0.entities_map@.remove(id),
        ({
            let e0 = s0.entities_map@[id];
            let e1 = s1.entities_map@[id];
            let i = e0.component_index@[kind(c) as usize] as int;
            &&& e1.wf()
            &&& e1.id == e0.id
            &&& e1.component_index == e0.component_index
            &&& e1.components@ == e0.components@.update(i, c)
            &&& if same_component(e0.components@[i], c) {
                s1.events == s0.events
            } else {
                &&& s1.events@.len() == s0.events@.len() + 1
                &&& s1.events@.drop_last() == s0.events@
                &&& s1.events@.last() matches Event::ComponentChanged(c1) && same_component(c1, c)
            }
        }),
    ensures
        changed_only(s0.entities_map@, s1.entities_map@, kinds),
        component_of(s1.entities_map@[id], kind(c)) == c,
        forall|o: usize| o != id && #[trigger] s0.entities_map@.contains_key(o) ==> s1.entities_map@[o] == s0.entities_map@[o],
        changes_appended(s0.events@, s1.events@, kinds),
{
    lemma_set_component_frame(s0.entities_map@, s1.entities_map@, id, c);
    lemma_changed_only_widen(s0.entities_map@, s1.entities_map@, set![kind(c) as usize], kinds);
    let e0 = s0.entities_map@[id];
    let i = e0.component_index@[kind(c) as usize] as int;
    if !same_component(e0.components@[i], c) {
        let last = s1.events@.last();
        if let Event::ComponentChanged(c1) = last {
            lemma_same_component_kind(c1, c);
        }
        assert(s1.events@.take(s0.events@.len() as int) =~= s0.events@);
    } else {
        assert(s1.events@.take(s0.events@.len() as int) =~= s0.events@);
    }
}

/// Every entity of `ids` exists and is well formed.
pub open spec fn all_present(state: State, ids: Seq<usize>) -> bool {
    forall|i: int|
        0 <= i < ids.len() ==> #[trigger] state.entities_map@.contains_key(ids[i]) && state.entities_map@[ids[i]].wf()
}

/// The fog entities say whether they were uncovered, and can be drawn over.
pub open spec fn fog_ready(state: State, fog: Seq<usize>) -> bool {
    forall|i: int|
        0 <= i < fog.len() ==> {
            let e = #[trigger] state.entities_map@[fog[i]];
            &&& has_kind(e.components@, 18)
            &&& fog_of(e) is Some
            &&& has_kind(e.components@, 2)
        }
}

/// The fog's drawing before anything is seen: uncovered fog is drawn as
/// revealed where the fog is on; with the fog off nothing is drawn over.
pub open spec fn fog_drawing(fog_enabled: bool, e: Entity, c: Component) -> bool {
    if !fog_enabled {
        c == Component::RenderFg(None)
    } else if fog_of(e) == Some(true) {
        is_revealed_fog(c)
    } else {
        c == component_of(e, 2)
    }
}

/// Draws the fog entities as their state says: uncovered ones as revealed
/// fog where the fog is on, none of them where it is off.
#[verifier::spinoff_prover]
fn mark_fog(state: &mut State, fog: &Vec<usize>)
    requires
        old(state).wf(),
        fog@.no_duplicates(),
        all_present(*old(state), fog@),
        fog_ready(*old(state), fog@),
    ensures
        final(state).wf(),
        final(state).component_map == old(state).component_map,
        final(state).empty_entites_set == old(state).empty_entites_set,
        final(state).fog_enabled == old(state).fog_enabled,
        final(state).entity_id_counter == old(state).entity_id_counter,
        final(state).system_components == old(state).system_components,
        changed_only(old(state).entities_map@, final(state).entities_map@, set![2usize]),
        forall|i: int| 0 <= i < fog@.len() ==> fog_drawing(
            old(state).fog_enabled,
            old(state).entities_map@[fog@[i]],
            component_of(#[trigger] final(state).entities_map@[fog@[i]], 2),
        ),
        forall|id: usize| !fog@.contains(id) && #[trigger] old(state).entities_map@.contains_key(id)
            ==> final(state).entities_map@[id] == old(state).entities_map@[id],
        changes_appended(old(state).events@, final(state).events@, set![2usize]),
{
    let ghost s0 = *state;
    let mut i: usize = 0;
    assert(s0.events@.take(s0.events@.len() as int) =~= s0.events@);
    while i < fog.len()
        invariant
            i <= fog@.len(),
            fog@.no_duplicates(),
            all_present(s0, fog@),
            fog_ready(s0, fog@),
            state.wf(),
            state.component_map == s0.component_map,
            state.empty_entites_set == s0.empty_entites_set,
            state.fog_enabled == s0.fog_enabled,
            state.entity_id_counter == s0.entity_id_counter,
            state.system_components == s0.system_components,
            changed_only(s0.entities_map@, state.entities_map@, set![2usize]),
            forall|j: int| 0 <= j < i ==> fog_drawing(
                s0.fog_enabled,
                s0.entities_map@[fog@[j]],
                component_of(#[trigger] state.entities_map@[fog@[j]], 2),
            ),
            forall|id: usize| !fog@.subrange(0, i as int).contains(id) && #[trigger] s0.entities_map@.contains_key(id)
                ==> state.entities_map@[id] == s0.entities_map@[id],
            changes_appended(s0.events@, state.events@, set![2usize]),
        decreases fog@.len() - i,
    {
        let f = fog[i];
        proof {
            assert(s0.entities_map@.contains_key(fog@[i as int]));
            assert(!fog@.subrange(0, i as int).contains(f)) by {
                if fog@.subrange(0, i as int).contains(f) {
                    let j = choose|j: int| 0 <= j < i && fog@.subrange(0, i as int)[j] == f;
                    assert(fog@[j] == fog@[i as int]);
                }
            }
            assert(state.entities_map@[f] == s0.entities_map@[f]);
            let e = s0.entities_map@[f];
            assert(has_kind(e.components@, 18) && fog_of(e) is Some && has_kind(e.components@, 2));
        }
        let ghost before = *state;
        let visited = match state.entities_map.get(&f).unwrap().get_component(Component::Fog(None)) {
            Some(Component::Fog(Some(v))) => *v,
            _ => false,
        };
        let mut changed = false;
        let ghost mut gc = Component::RenderFg(None);
        if state.fog_enabled {
            if visited {
                let c = Component::RenderFg(Some(("█".to_owned(), REVEALED_FOG_COLOR, false)));
                proof {
                    gc = c;
                }
                state.set_component(f, c);
                changed = true;
            }
        } else {
            state.set_component(f, Component::RenderFg(None));
            changed = true;
        }
        proof {
            reveal_strlit("█");
            if changed {
                lemma_after_set(before, *state, f, gc, set![2usize]);
                lemma_changed_only_trans(s0.entities_map@, before.entities_map@, state.entities_map@, set![2usize]);
                lemma_changes_appended_trans(s0.events@, before.events@, state.events@, set![2usize]);
            }
            assert forall|j: int| 0 <= j < i + 1 implies fog_drawing(
                s0.fog_enabled,
                s0.entities_map@[fog@[j]],
                component_of(#[trigger] state.entities_map@[fog@[j]], 2),
            ) by {
                if j < i {
                    assert(fog@[j] != f);
                    assert(s0.entities_map@.contains_key(fog@[j]));
                    assert(before.entities_map@.contains_key(fog@[j]));
                    assert(state.entities_map@[fog@[j]] == before.entities_map@[fog@[j]]);
                } else {
                    let e0 = s0.entities_map@[f];
                    assert(component_of(e0, 18) matches Component::Fog(Some(v)) && v == visited);
                    assert(j == i);
                    assert(fog@[j] == f);
                    if !changed {
                        assert(component_of(state.entities_map@[f], 2) == component_of(e0, 2));
                    } else if s0.fog_enabled {
                        assert(gc matches Component::RenderFg(Some((t, col, b))) && t@ == "█"@);
                        assert(is_revealed_fog(gc));
                    }
                    assert(fog_drawing(s0.fog_enabled, e0, component_of(state.entities_map@[f], 2)));
                }
            }
            assert forall|id: usize| !fog@.subrange(0, i + 1).contains(id) && #[trigger] s0.entities_map@.contains_key(id)
                implies state.entities_map@[id] == s0.entities_map@[id] by {
                assert(fog@.subrange(0, i + 1)[i as int] == f);
                if fog@.subrange(0, i as int).contains(id) {
                    let j = choose|j: int| 0 <= j < i && fog@.subrange(0, i as int)[j] == id;
                    assert(fog@.subrange(0, i + 1)[j] == id);
                }
            }
        }
        i = i + 1;
    }
    proof {
        assert(fog@.subrange(0, fog@.len() as int) =~= fog@);
    }
}

/// Whether `p` is among the cells of `cells`.
fn contains_position(cells: &Vec<Position>, p: Position) -> (b: bool)
    ensures
        b == cells@.contains(p),
{
    let mut i: usize = 0;
    while i < cells.len()
        invariant
            i <= cells@.len(),
            forall|j: int| 0 <= j < i ==> cells@[j] != p,
        decreases cells@.len() - i,
    {
        if cells[i] == p {
            return true;
        }
        i = i + 1;
    }
    false
}

/// The entity's position, read from its component (the origin where it has
/// none).
fn position_in(state: &State, id: usize) -> (p: Position)
    requires
        state.entities_map@.contains_key(id),
        state.entities_map@[id].wf(),
        has_kind(state.entities_map@[id].components@, 0),
        position_of(state.entities_map@[id]) is Some,
    ensures
        p == position_of(state.entities_map@[id])->0,
{
    match state.entities_map.get(&id).unwrap().get_component(Component::Position(None)) {
        Some(Component::Position(Some(p))) => *p,
        _ => Position::zero(),
    }
}

/// Every entity of `ids` has a position.
pub open spec fn placed(state: State, ids: Seq<usize>) -> bool {
    forall|i: int|
        0 <= i < ids.len() ==> {
            let e = #[trigger] state.entities_map@[ids[i]];
            &&& has_kind(e.components@, 0)
            &&& position_of(e) is Some
        }
}

/// Every entity of `ids` has a component of kind `k`.
pub open spec fn have_kind(state: State, ids: Seq<usize>, k: nat) -> bool {
    forall|i: int| 0 <= i < ids.len() ==> has_kind((#[trigger] state.entities_map@[ids[i]]).components@, k)
}

/// Uncovers the hidden entities that stand on one of the cells `reached`.
#[verifier::spinoff_prover]
fn reveal_hidden(state: &mut State, hidden: &Vec<usize>, reached: &Vec<Position>)
    requires
        old(state).wf(),
        hidden@.no_duplicates(),
        all_present(*old(state), hidden@),
        placed(*old(state), hidden@),
        have_kind(*old(state), hidden@, 7),
    ensures
        final(state).wf(),
        final(state).component_map == old(state).component_map,
        final(state).empty_entites_set == old(state).empty_entites_set,
        final(state).fog_enabled == old(state).fog_enabled,
        final(state).entity_id_counter == old(state).entity_id_counter,
        final(state).system_components == old(state).system_components,
        changed_only(old(state).entities_map@, final(state).entities_map@, set![7usize]),
        forall|i: int| 0 <= i < hidden@.len() ==> component_of(#[trigger] final(state).entities_map@[hidden@[i]], 7) == if reached@.contains(
            position_of(old(state).entities_map@[hidden@[i]])->0,
        ) {
            Component::Hidden(Some(false))
        } else {
            component_of(old(state).entities_map@[hidden@[i]], 7)
        },
        forall|id: usize| !hidden@.contains(id) && #[trigger] old(state).entities_map@.contains_key(id)
            ==> final(state).entities_map@[id] == old(state).entities_map@[id],
        changes_appended(old(state).events@, final(state).events@, set![7usize]),
{
    let ghost s0 = *state;
    let mut i: usize = 0;
    assert(s0.events@.take(s0.events@.len() as int) =~= s0.events@);
    while i < hidden.len()
        invariant
            i <= hidden@.len(),
            hidden@.no_duplicates(),
            all_present(s0, hidden@),
            placed(s0, hidden@),
            have_kind(s0, hidden@, 7),
            state.wf(),
            state.component_map == s0.component_map,
            state.empty_entites_set == s0.empty_entites_set,
            state.fog_enabled == s0.fog_enabled,
            state.entity_id_counter == s0.entity_id_counter,
            state.system_components == s0.system_components,
            changed_only(s0.entities_map@, state.entities_map@, set![7usize]),
            forall|j: int| 0 <= j < i ==> component_of(#[trigger] state.entities_map@[hidden@[j]], 7) == if reached@.contains(
                position_of(s0.entities_map@[hidden@[j]])->0,
            ) {
                Component::Hidden(Some(false))
            } else {
                component_of(s0.entities_map@[hidden@[j]], 7)
            },
            forall|id: usize| !hidden@.subrange(0, i as int).contains(id) && #[trigger] s0.entities_map@.contains_key(id)
                ==> state.entities_map@[id] == s0.entities_map@[id],
            changes_appended(s0.events@, state.events@, set![7usize]),
        decreases hidden@.len() - i,
    {
        let h = hidden[i];
        proof {
            assert(s0.entities_map@.contains_key(hidden@[i as int]));
            assert(!hidden@.subrange(0, i as int).contains(h)) by {
                if hidden@.subrange(0, i as int).contains(h) {
                    let j = choose|j: int| 0 <= j < i && hidden@.subrange(0, i as int)[j] == h;
                    assert(hidden@[j] == hidden@[i as int]);
                }
            }
            assert(state.entities_map@[h] == s0.entities_map@[h]);
            let e = s0.entities_map@[h];
            assert(has_kind(e.components@, 0) && position_of(e) is Some && has_kind(e.components@, 7));
        }
        let ghost before = *state;
        let p = position_in(state, h);
        let uncover = contains_position(reached, p);
        if uncover {
            state.set_component(h, Component::Hidden(Some(false)));
            proof {
                lemma_after_set(before, *state, h, Component::Hidden(Some(false)), set![7usize]);
                lemma_changed_only_trans(s0.entities_map@, before.entities_map@, state.entities_map@, set![7usize]);
                lemma_changes_appended_trans(s0.events@, before.events@, state.events@, set![7usize]);
            }
        }
        proof {
            assert forall|j: int| 0 <= j < i + 1 implies component_of(#[trigger] state.entities_map@[hidden@[j]], 7) == if reached@.contains(
                position_of(s0.entities_map@[hidden@[j]])->0,
            ) {
                Component::Hidden(Some(false))
            } else {
                component_of(s0.entities_map@[hidden@[j]], 7)
            } by {
                if j < i {
                    assert(hidden@[j] != h);
                    assert(s0.entities_map@.contains_key(hidden@[j]));
                    assert(before.entities_map@.contains_key(hidden@[j]));
                    assert(state.entities_map@[hidden@[j]] == before.entities_map@[hidden@[j]]);
                } else {
                    assert(hidden@[j] == h);
                }
            }
            assert forall|id: usize| !hidden@.subrange(0, i + 1).contains(id) && #[trigger] s0.entities_map@.contains_key(id)
                implies state.entities_map@[id] == s0.entities_map@[id] by {
                assert(hidden@.subrange(0, i + 1)[i as int] == h);
                if hidden@.subrange(0, i as int).contains(id) {
                    let j = choose|j: int| 0 <= j < i && hidden@.subrange(0, i as int)[j] == id;
                    assert(hidden@.subrange(0, i + 1)[j] == id);
                }
            }
        }
        i = i + 1;
    }
    proof {
        assert(hidden@.subrange(0, hidden@.len() as int) =~= hidden@);
    }
}

/// Clears the fog on the cells `seen`: such fog is marked uncovered and no
/// longer drawn over.
#[verifier::spinoff_prover]
fn clear_fog(state: &mut State, fog: &Vec<usize>, seen: &Vec<Position>)
    requires
        old(state).wf(),
        fog@.no_duplicates(),
        all_present(*old(state), fog@),
        fog_ready(*old(state), fog@),
        placed(*old(state), fog@),
    ensures
        final(state).wf(),
        final(state).component_map == old(state).component_map,
        final(state).empty_entites_set == old(state).empty_entites_set,
        final(state).fog_enabled == old(state).fog_enabled,
        final(state).entity_id_counter == old(state).entity_id_counter,
        final(state).system_components == old(state).system_components,
        changed_only(old(state).entities_map@, final(state).entities_map@, set![2usize, 18usize]),
        forall|i: int| 0 <= i < fog@.len() ==> {
            let e0 = old(state).entities_map@[fog@[i]];
            let e1 = #[trigger] final(state).entities_map@[fog@[i]];
            if seen@.contains(position_of(e0)->0) {
                &&& fog_of(e1) == Some(true)
                &&& component_of(e1, 2) == Component::RenderFg(None)
            } else {
                e1 == e0
            }
        },
        forall|id: usize| !fog@.contains(id) && #[trigger] old(state).entities_map@.contains_key(id)
            ==> final(state).entities_map@[id] == old(state).entities_map@[id],
        changes_appended(old(state).events@, final(state).events@, set![2usize, 18usize]),
{
    let ghost s0 = *state;
    let ghost kinds = set![2usize, 18usize];
    let mut i: usize = 0;
    assert(s0.events@.take(s0.events@.len() as int) =~= s0.events@);
    while i < fog.len()
        invariant
            i <= fog@.len(),
            kinds == set![2usize, 18usize],
            fog@.no_duplicates(),
            all_present(s0, fog@),
            fog_ready(s0, fog@),
            placed(s0, fog@),
            state.wf(),
            state.component_map == s0.component_map,
            state.empty_entites_set == s0.empty_entites_set,
            state.fog_enabled == s0.fog_enabled,
            state.entity_id_counter == s0.entity_id_counter,
            state.system_components == s0.system_components,
            changed_only(s0.entities_map@, state.entities_map@, kinds),
            forall|j: int| 0 <= j < i ==> {
                let e0 = s0.entities_map@[fog@[j]];
                let e1 = #[trigger] state.entities_map@[fog@[j]];
                if seen@.contains(position_of(e0)->0) {
                    &&& fog_of(e1) == Some(true)
                    &&& component_of(e1, 2) == Component::RenderFg(None)
                } else {
                    e1 == e0
                }
            },
            forall|id: usize| !fog@.subrange(0, i as int).contains(id) && #[trigger] s0.entities_map@.contains_key(id)
                ==> state.entities_map@[id] == s0.entities_map@[id],
            changes_appended(s0.events@, state.events@, kinds),
        decreases fog@.len() - i,
    {
        let f = fog[i];
        proof {
            assert(s0.entities_map@.contains_key(fog@[i as int]));
            assert(!fog@.subrange(0, i as int).contains(f)) by {
                if fog@.subrange(0, i as int).contains(f) {
                    let j = choose|j: int| 0 <= j < i && fog@.subrange(0, i as int)[j] == f;
                    assert(fog@[j] == fog@[i as int]);
                }
            }
            assert(state.entities_map@[f] == s0.entities_map@[f]);
            let e = s0.entities_map@[f];
            assert(has_kind(e.components@, 0) && position_of(e) is Some);
            assert(has_kind(e.components@, 18) && fog_of(e) is Some && has_kind(e.components@, 2));
        }
        let ghost before = *state;
        let p = position_in(state, f);
        let in_sight = contains_position(seen, p);
        if in_sight {
            let visited = match state.entities_map.get(&f).unwrap().get_component(Component::Fog(None)) {
                Some(Component::Fog(Some(v))) => *v,
                _ => false,
            };
            if !visited {
                state.set_component(f, Component::Fog(Some(true)));
                proof {
                    lemma_after_set(before, *state, f, Component::Fog(Some(true)), kinds);
                    lemma_changed_only_trans(s0.entities_map@, before.entities_map@, state.entities_map@, kinds);
                    lemma_changes_appended_trans(s0.events@, before.events@, state.events@, kinds);
                }
            }
            let ghost middle = *state;
            proof {
                assert(middle.entities_map@[f].wf());
                assert(has_kind(middle.entities_map@[f].components@, 2)) by {
                    let e0 = s0.entities_map@[f];
                    let k = choose|k: int| 0 <= k < e0.components@.len() && kind(#[trigger] e0.components@[k]) == 2;
                    assert(only_slots_changed(e0, middle.entities_map@[f], kinds));
                    assert(kind(middle.entities_map@[f].components@[k]) == 2) by {
                        if !is_slot_of(e0, kinds, k) {
                        } else {
                            let kk = choose|kk: usize| #[trigger] kinds.contains(kk) && e0.component_index@.contains_key(kk) && e0.component_index@[kk] == k;
                            assert(e0.component_index@.contains_key(kk));
                            assert(last_of_kind(e0.components@, kk as nat, k));
                            assert(last_of_kind(middle.entities_map@[f].components@, kk as nat, k));
                        }
                    }
                }
                assert(fog_of(middle.entities_map@[f]) == Some(true));
            }
            state.set_component(f, Component::RenderFg(None));
            proof {
                lemma_after_set(middle, *state, f, Component::RenderFg(None), kinds);
                lemma_changed_only_trans(s0.entities_map@, middle.entities_map@, state.entities_map@, kinds);
                lemma_changes_appended_trans(s0.events@, middle.events@, state.events@, kinds);
                let e1 = state.entities_map@[f];
                let em = middle.entities_map@[f];
                assert(e1.component_index == em.component_index);
                let e0 = s0.entities_map@[f];
                assert(e0.component_index@.contains_key(18usize));
                assert(e0.component_index@.contains_key(2usize));
                assert(only_slots_changed(e0, em, kinds));
                assert(em.component_index@.contains_key(18usize));
                assert(em.component_index@.contains_key(2usize));
                assert(last_of_kind(em.components@, 18, em.component_index@[18usize] as int));
                assert(last_of_kind(em.components@, 2, em.component_index@[2usize] as int));
                assert(kind(Component::RenderFg(None)) == 2);
                assert(e1.components@ == em.components@.update(em.component_index@[2usize] as int, Component::RenderFg(None)));
                assert(e1.components@[em.component_index@[18usize] as int] == em.components@[em.component_index@[18usize] as int]);
                assert(component_of(e1, 18) == component_of(em, 18));
            }
        }
        proof {
            assert forall|j: int| 0 <= j < i + 1 implies {
                let e0 = s0.entities_map@[fog@[j]];
                let e1 = #[trigger] state.entities_map@[fog@[j]];
                if seen@.contains(position_of(e0)->0) {
                    &&& fog_of(e1) == Some(true)
                    &&& component_of(e1, 2) == Component::RenderFg(None)
                } else {
                    e1 == e0
                }
            } by {
                if j < i {
                    assert(fog@[j] != f);
                    assert(s0.entities_map@.contains_key(fog@[j]));
                    assert(before.entities_map@.contains_key(fog@[j]));
                    assert(state.entities_map@[fog@[j]] == before.entities_map@[fog@[j]]);
                } else {
                    assert(fog@[j] == f);
                }
            }
            assert forall|id: usize| !fog@.subrange(0, i + 1).contains(id) && #[trigger] s0.entities_map@.contains_key(id)
                implies state.entities_map@[id] == s0.entities_map@[id] by {
                assert(fog@.subrange(0, i + 1)[i as int] == f);
                if fog@.subrange(0, i as int).contains(id) {
                    let j = choose|j: int| 0 <= j < i && fog@.subrange(0, i as int)[j] == id;
                    assert(fog@.subrange(0, i + 1)[j] == id);
                }
            }
        }
        i = i + 1;
    }
    proof {
        assert(fog@.subrange(0, fog@.len() as int) =~= fog@);
    }
}

/// The entity's look-out component: who or what it is, and who viewed it.
pub open spec fn viewable_of(e: Entity) -> Option<(ViewType, Vec<usize>)> {
    match component_of(e, 20) {
        Component::Viewable(v) => v,
        _ => None,
    }
}

/// What the entity is, as something viewed.
pub open spec fn view_type(e: Entity) -> ViewType {
    (viewable_of(e)->0).0
}

/// The entities that viewed the entity, in the order they did.
pub open spec fn view_list(e: Entity) -> Seq<usize> {
    (viewable_of(e)->0).1@
}

/// The entity can be viewed: it has a look-out component holding a value.
pub open spec fn can_be_viewed(e: Entity) -> bool {
    has_kind(e.components@, 20) && viewable_of(e) is Some
}

/// Viewer `w` and entity `v` meet now: `v` is another entity, on one of the
/// cells `seen`, not yet viewed by `w`.
pub open spec fn newly_seen(s: State, w: usize, v: usize, seen: Seq<Position>) -> bool {
    &&& v != w
    &&& seen.contains(position_of(s.entities_map@[v])->0)
    &&& !view_list(s.entities_map@[v]).contains(w)
}

/// `ev` records that `w` and one of `met` viewed each other.
pub open spec fn view_event_of(ev: Event, w: usize, met: Seq<usize>) -> bool {
    ev matches Event::View(((a, _ta), (b, _tb))) && ((a == w && met.contains(b)) || (b == w && met.contains(a)))
}

/// `ev1` is `ev0` followed by records of changed look-outs and of `w`
/// meeting entities of `met`.
pub open spec fn meeting_events(ev0: Seq<Event>, ev1: Seq<Event>, w: usize, met: Seq<usize>) -> bool {
    &&& ev0.len() <= ev1.len()
    &&& ev1.take(ev0.len() as int) == ev0
    &&& forall|i: int|
        ev0.len() <= i < ev1.len() ==> changes_kind(#[trigger] ev1[i], set![20usize]) || view_event_of(ev1[i], w, met)
}


/// The views announced in `evs`, in order: who viewed and who was viewed,
/// each with what it is.
pub open spec fn views_in(evs: Seq<Event>) -> Seq<((usize, ViewType), (usize, ViewType))>
    decreases evs.len(),
{
    if evs.len() == 0 {
        Seq::empty()
    } else {
        views_in(evs.drop_last()) + match evs.last() {
            Event::View(p) => seq![p],
            _ => Seq::empty(),
        }
    }
}

proof fn lemma_views_push(evs: Seq<Event>, ev: Event)
    ensures
        views_in(evs.push(ev)) == views_in(evs) + match ev {
            Event::View(p) => seq![p],
            _ => Seq::<((usize, ViewType), (usize, ViewType))>::empty(),
        },
{
    assert(evs.push(ev).drop_last() =~= evs);
}

/// Records of changed components announce no view.
proof fn lemma_views_changes(e0: Seq<Event>, e1: Seq<Event>, kinds: Set<usize>)
    requires
        changes_appended(e0, e1, kinds),
    ensures
        views_in(e1) == views_in(e0),
    decreases e1.len() - e0.len(),
{
    if e1.len() > e0.len() {
        let e = e1.drop_last();
        assert(e.take(e0.len() as int) =~= e1.take(e0.len() as int));
        assert forall|i: int| e0.len() <= i < e.len() implies changes_kind(#[trigger] e[i], kinds) by {
            assert(e[i] == e1[i]);
        }
        lemma_views_changes(e0, e, kinds);
        assert(changes_kind(e1[e1.len() - 1], kinds));
        assert(views_in(e1) =~= views_in(e));
    } else {
        assert(e1 =~= e1.take(e0.len() as int));
    }
}

/// The views announced when viewer `w` meets the entities `met` in turn,
/// with what each is in `m`: `w` viewed each, then each viewed `w`.
pub open spec fn pair_views(w: usize, met: Seq<usize>, m: Map<usize, Entity>) -> Seq<((usize, ViewType), (usize, ViewType))>
    decreases met.len(),
{
    if met.len() == 0 {
        Seq::empty()
    } else {
        let v = met.last();
        pair_views(w, met.drop_last(), m) + seq![
            ((w, view_type(m[w])), (v, view_type(m[v]))),
            ((v, view_type(m[v])), (w, view_type(m[w]))),
        ]
    }
}



/// Keeping some of a list without repeats keeps it without repeats.
proof fn lemma_filter_no_dup(s: Seq<usize>, pred: spec_fn(usize) -> bool)
    requires
        s.no_duplicates(),
    ensures
        s.filter(pred).no_duplicates(),
    decreases s.len(),
{
    if s.len() > 0 {
        let t = s.drop_last();
        let x = s.last();
        assert(t.push(x) =~= s);
        assert(t.no_duplicates());
        lemma_filter_no_dup(t, pred);
        t.lemma_filter_push(x, pred);
        if pred(x) {
            let f = t.filter(pred);
            assert forall|a: int, b: int| 0 <= a < b < f.push(x).len() implies f.push(x)[a] != f.push(x)[b] by {
                if b == f.len() {
                    assert(f.contains(f[a]));
                    t.lemma_filter_contains_rev(pred, f[a]);
                    let q = choose|q: int| 0 <= q < t.len() && t[q] == f[a];
                    assert(s[q] == t[q]);
                }
            }
        }
    } else {
        assert(s.filter(pred).len() == 0) by {
            reveal(Seq::filter);
        }
    }
}


/// An item of a list that the predicate keeps is among those kept.
proof fn lemma_filter_pred_contains(s: Seq<usize>, pred: spec_fn(usize) -> bool, j: int)
    requires
        0 <= j < s.len(),
        pred(s[j]),
    ensures
        s.filter(pred).contains(s[j]),
    decreases s.len(),
{
    let t = s.drop_last();
    assert(t.push(s.last()) =~= s);
    t.lemma_filter_push(s.last(), pred);
    if j == s.len() - 1 {
        assert(s.filter(pred).last() == s[j]);
        assert(s.filter(pred)[s.filter(pred).len() - 1] == s[j]);
    } else {
        assert(t[j] == s[j]);
        lemma_filter_pred_contains(t, pred, j);
        let q = choose|q: int| 0 <= q < t.filter(pred).len() && t.filter(pred)[q] == s[j];
        if pred(s.last()) {
            assert(s.filter(pred)[q] == s[j]);
        }
    }
}

/// The views of a meeting depend only on what the entities met are.
proof fn lemma_pair_views_same(w: usize, met: Seq<usize>, m0: Map<usize, Entity>, m1: Map<usize, Entity>)
    requires
        view_type(m1[w]) == view_type(m0[w]),
        forall|v: usize| #[trigger] met.contains(v) ==> view_type(m1[v]) == view_type(m0[v]),
    ensures
        pair_views(w, met, m1) == pair_views(w, met, m0),
    decreases met.len(),
{
    if met.len() > 0 {
        let v = met.last();
        assert(met.contains(met[met.len() - 1]));
        assert forall|u: usize| #[trigger] met.drop_last().contains(u) implies view_type(m1[u]) == view_type(m0[u]) by {
            let q = choose|q: int| 0 <= q < met.drop_last().len() && met.drop_last()[q] == u;
            assert(met[q] == u);
            assert(met.contains(u));
        }
        lemma_pair_views_same(w, met.drop_last(), m0, m1);
    }
}

/// Whether `id` is in `ids`.
fn contains_id(ids: &Vec<usize>, id: usize) -> (b: bool)
    ensures
        b == ids@.contains(id),
{
    let mut i: usize = 0;
    while i < ids.len()
        invariant
            i <= ids@.len(),
            forall|j: int| 0 <= j < i ==> ids@[j] != id,
        decreases ids@.len() - i,
    {
        if ids[i] == id {
            return true;
        }
        i = i + 1;
    }
    false
}

/// The entity's look-out: what it is and who viewed it.
fn read_viewable(state: &State, id: usize) -> (r: (ViewType, Vec<usize>))
    requires
        state.entities_map@.contains_key(id),
        state.entities_map@[id].wf(),
        can_be_viewed(state.entities_map@[id]),
    ensures
        r.0 == view_type(state.entities_map@[id]),
        r.1@ == view_list(state.entities_map@[id]),
{
    match state.entities_map.get(&id).unwrap().get_component(Component::Viewable(None)) {
        Some(Component::Viewable(Some((t, l)))) => {
            let c = l.clone();
            assert(c@ =~= l@);
            (*t, c)
        },
        _ => (ViewType::Player, Vec::new()),
    }
}

proof fn lemma_kind_kept(e0: Entity, e1: Entity, kinds: Set<usize>, k: nat)
    requires
        only_slots_changed(e0, e1, kinds),
        e0.wf(),
        has_kind(e0.components@, k),
        k <= usize::MAX,
    ensures
        has_kind(e1.components@, k),
        e1.wf(),
{
    assert(e0.component_index@.contains_key(k as usize));
    assert(e1.component_index@.contains_key(k as usize));
}

proof fn lemma_meeting_from_changes(e0: Seq<Event>, e1: Seq<Event>, w: usize, met: Seq<usize>)
    requires
        changes_appended(e0, e1, set![20usize]),
    ensures
        meeting_events(e0, e1, w, met),
{
}

proof fn lemma_meeting_trans(e0: Seq<Event>, e1: Seq<Event>, e2: Seq<Event>, w: usize, met: Seq<usize>)
    requires
        meeting_events(e0, e1, w, met),
        meeting_events(e1, e2, w, met),
    ensures
        meeting_events(e0, e2, w, met),
{
    assert(e2.take(e0.len() as int) =~= e1.take(e1.len() as int).take(e0.len() as int));
    assert(e1.take(e1.len() as int) =~= e1);
    assert forall|i: int| e0.len() <= i < e2.len() implies changes_kind(#[trigger] e2[i], set![20usize]) || view_event_of(e2[i], w, met) by {
        if i < e1.len() {
            assert(e2.take(e1.len() as int)[i] == e2[i]);
        }
    }
}

proof fn lemma_meeting_push(e0: Seq<Event>, ev: Event, w: usize, met: Seq<usize>)
    requires
        view_event_of(ev, w, met),
    ensures
        meeting_events(e0, e0.push(ev), w, met),
{
    assert(e0.push(ev).take(e0.len() as int) =~= e0);
}

proof fn lemma_meeting_more(e0: Seq<Event>, e1: Seq<Event>, w: usize, met: Seq<usize>, v: usize)
    requires
        meeting_events(e0, e1, w, met),
    ensures
        meeting_events(e0, e1, w, met.push(v)),
{
    assert forall|i: int| e0.len() <= i < e1.len() implies changes_kind(#[trigger] e1[i], set![20usize]) || view_event_of(e1[i], w, met.push(v)) by {
        if view_event_of(e1[i], w, met) {
            if let Event::View(((a, _ta), (b, _tb))) = e1[i] {
                if a == w && met.contains(b) {
                    let q = choose|q: int| 0 <= q < met.len() && met[q] == b;
                    assert(met.push(v)[q] == b);
                }
                if b == w && met.contains(a) {
                    let q = choose|q: int| 0 <= q < met.len() && met[q] == a;
                    assert(met.push(v)[q] == a);
                }
            }
        }
    }
}

/// The viewer `w` and the viewables that it sees on the cells `seen` meet:
/// each viewable not yet viewed by `w` records `w` as its viewer and `w`
/// records it, and both views are announced.
#[verifier::spinoff_prover]
fn meet_viewables(state: &mut State, w: usize, viewables: &Vec<usize>, seen: &Vec<Position>)
    requires
        old(state).wf(),
        viewables@.no_duplicates(),
        all_present(*old(state), viewables@),
        old(state).entities_map@.contains_key(w),
        old(state).entities_map@[w].wf(),
        forall|j: int| 0 <= j < viewables@.len() && viewables@[j] != w ==> {
            let e = #[trigger] old(state).entities_map@[viewables@[j]];
            &&& has_kind(e.components@, 0)
            &&& position_of(e) is Some
            &&& can_be_viewed(e)
        },
        forall|j: int| 0 <= j < viewables@.len() && viewables@[j] != w && seen@.contains(
            position_of(#[trigger] old(state).entities_map@[viewables@[j]])->0,
        ) ==> can_be_viewed(old(state).entities_map@[w]),
    ensures
        final(state).wf(),
        final(state).component_map == old(state).component_map,
        final(state).empty_entites_set == old(state).empty_entites_set,
        final(state).fog_enabled == old(state).fog_enabled,
        final(state).entity_id_counter == old(state).entity_id_counter,
        final(state).system_components == old(state).system_components,
        changed_only(old(state).entities_map@, final(state).entities_map@, set![20usize]),
        forall|j: int| 0 <= j < viewables@.len() && viewables@[j] != w ==> {
            let v = viewables@[j];
            let e0 = old(state).entities_map@[v];
            let e1 = #[trigger] final(state).entities_map@[viewables@[j]];
            if newly_seen(*old(state), w, v, seen@) {
                &&& viewable_of(e1) is Some
                &&& view_type(e1) == view_type(e0)
                &&& view_list(e1) == view_list(e0).push(w)
            } else {
                e1 == e0
            }
        },
        ({
            let met = viewables@.filter(|v: usize| newly_seen(*old(state), w, v, seen@));
            let e0 = old(state).entities_map@[w];
            let e1 = final(state).entities_map@[w];
            if met.len() == 0 {
                e1 == e0
            } else {
                &&& viewable_of(e1) is Some
                &&& view_type(e1) == view_type(e0)
                &&& view_list(e1) == view_list(e0) + met
            }
        }),
        forall|id: usize| id != w && !viewables@.contains(id) && #[trigger] old(state).entities_map@.contains_key(id)
            ==> final(state).entities_map@[id] == old(state).entities_map@[id],
        meeting_events(
            old(state).events@,
            final(state).events@,
            w,
            viewables@.filter(|v: usize| newly_seen(*old(state), w, v, seen@)),
        ),
        views_in(final(state).events@) == views_in(old(state).events@) + pair_views(
            w,
            viewables@.filter(|v: usize| newly_seen(*old(state), w, v, seen@)),
            old(state).entities_map@,
        ),
{
    let ghost s0 = *state;
    let ghost pred = |v: usize| newly_seen(s0, w, v, seen@);
    let mut i: usize = 0;
    assert(s0.events@.take(s0.events@.len() as int) =~= s0.events@);
    assert(viewables@.take(0) =~= Seq::<usize>::empty());
    assert(Seq::<usize>::empty().filter(pred) =~= Seq::<usize>::empty()) by {
        reveal(Seq::filter);
    }
    assert(views_in(s0.events@) + pair_views(w, Seq::<usize>::empty(), s0.entities_map@) =~= views_in(s0.events@));
    while i < viewables.len()
        invariant
            i <= viewables@.len(),
            pred == (|v: usize| newly_seen(s0, w, v, seen@)),
            viewables@.no_duplicates(),
            all_present(s0, viewables@),
            s0.entities_map@.contains_key(w),
            s0.entities_map@[w].wf(),
            forall|j: int| 0 <= j < viewables@.len() && viewables@[j] != w ==> {
                let e = #[trigger] s0.entities_map@[viewables@[j]];
                &&& has_kind(e.components@, 0)
                &&& position_of(e) is Some
                &&& can_be_viewed(e)
            },
            forall|j: int| 0 <= j < viewables@.len() && viewables@[j] != w && seen@.contains(
                position_of(#[trigger] s0.entities_map@[viewables@[j]])->0,
            ) ==> can_be_viewed(s0.entities_map@[w]),
            state.wf(),
            state.component_map == s0.component_map,
            state.empty_entites_set == s0.empty_entites_set,
            state.fog_enabled == s0.fog_enabled,
            state.entity_id_counter == s0.entity_id_counter,
            state.system_components == s0.system_components,
            changed_only(s0.entities_map@, state.entities_map@, set![20usize]),
            forall|j: int| 0 <= j < i && viewables@[j] != w ==> {
                let v = viewables@[j];
                let e0 = s0.entities_map@[v];
                let e1 = #[trigger] state.entities_map@[viewables@[j]];
                if newly_seen(s0, w, v, seen@) {
                    &&& viewable_of(e1) is Some
                    &&& view_type(e1) == view_type(e0)
                    &&& view_list(e1) == view_list(e0).push(w)
                } else {
                    e1 == e0
                }
            },
            forall|j: int| i <= j < viewables@.len() && viewables@[j] != w ==> #[trigger] state.entities_map@[viewables@[j]]
                == s0.entities_map@[viewables@[j]],
            ({
                let met = viewables@.take(i as int).filter(pred);
                let e0 = s0.entities_map@[w];
                let e1 = state.entities_map@[w];
                if met.len() == 0 {
                    e1 == e0
                } else {
                    &&& viewable_of(e1) is Some
                    &&& view_type(e1) == view_type(e0)
                    &&& view_list(e1) == view_list(e0) + met
                }
            }),
            forall|id: usize| id != w && !viewables@.contains(id) && #[trigger] s0.entities_map@.contains_key(id)
                ==> state.entities_map@[id] == s0.entities_map@[id],
            meeting_events(s0.events@, state.events@, w, viewables@.take(i as int).filter(pred)),
            views_in(state.events@) == views_in(s0.events@) + pair_views(w, viewables@.take(i as int).filter(pred), s0.entities_map@),
        decreases viewables@.len() - i,
    {
        let v = viewables[i];
        let ghost before = *state;
        let ghost met0 = viewables@.take(i as int).filter(pred);
        proof {
            assert(viewables@.take(i + 1) =~= viewables@.take(i as int).push(v));
            viewables@.take(i as int).lemma_filter_push(v, pred);
            assert(s0.entities_map@.contains_key(viewables@[i as int]));
            assert(before.entities_map@.contains_key(w));
        }
        let mut met_now = false;
        if v != w {
            proof {
                assert(state.entities_map@[v] == s0.entities_map@[v]);
                let e = s0.entities_map@[viewables@[i as int]];
                assert(has_kind(e.components@, 0) && position_of(e) is Some && can_be_viewed(e));
            }
            let vpos = position_in(state, v);
            let (vt, vlist) = read_viewable(state, v);
            let sees = contains_position(seen, vpos);
            if sees {
                proof {
                    assert(can_be_viewed(s0.entities_map@[w]));
                    if met0.len() != 0 {
                        lemma_kind_kept(s0.entities_map@[w], before.entities_map@[w], set![20usize], 20);
                    }
                    assert(can_be_viewed(before.entities_map@[w]));
                }
                let (wt, wlist) = read_viewable(state, w);
                let known = contains_id(&vlist, w);
                if !known {
                    proof {
                        assert(pred(v));
                    }
                    let ghost met1 = met0.push(v);
                    let ev1 = Event::View(((w, wt), (v, vt)));
                    proof {
                        assert(met1[met1.len() - 1] == v);
                        assert(view_event_of(ev1, w, met1));
                        lemma_meeting_more(s0.events@, before.events@, w, met0, v);
                        lemma_meeting_push(before.events@, ev1, w, met1);
                    }
                    state.events.push(ev1);
                    let ghost s_a = *state;
                    let mut vl = vlist;
                    vl.push(w);
                    let ghost gv = Component::Viewable(Some((vt, vl)));
                    state.set_component(v, Component::Viewable(Some((vt, vl))));
                    let ghost s_b = *state;
                    proof {
                        lemma_after_set(s_a, s_b, v, gv, set![20usize]);
                        lemma_meeting_from_changes(s_a.events@, s_b.events@, w, met1);
                        assert(s_b.entities_map@[w] == before.entities_map@[w]);
                    }
                    let ev2 = Event::View(((v, vt), (w, wt)));
                    proof {
                        assert(view_event_of(ev2, w, met1));
                        lemma_meeting_push(s_b.events@, ev2, w, met1);
                    }
                    state.events.push(ev2);
                    let ghost s_c = *state;
                    let mut wl = wlist;
                    wl.push(v);
                    let ghost gw = Component::Viewable(Some((wt, wl)));
                    state.set_component(w, Component::Viewable(Some((wt, wl))));
                    proof {
                        lemma_after_set(s_c, *state, w, gw, set![20usize]);
                        lemma_meeting_from_changes(s_c.events@, state.events@, w, met1);
                        lemma_meeting_trans(s0.events@, before.events@, s_a.events@, w, met1);
                        lemma_meeting_trans(s0.events@, s_a.events@, s_b.events@, w, met1);
                        lemma_meeting_trans(s0.events@, s_b.events@, s_c.events@, w, met1);
                        lemma_meeting_trans(s0.events@, s_c.events@, state.events@, w, met1);
                        lemma_changed_only_trans(s0.entities_map@, before.entities_map@, s_b.entities_map@, set![20usize]);
                        lemma_changed_only_trans(s0.entities_map@, s_b.entities_map@, state.entities_map@, set![20usize]);
                        lemma_views_push(before.events@, ev1);
                        lemma_views_changes(s_a.events@, s_b.events@, set![20usize]);
                        lemma_views_push(s_b.events@, ev2);
                        lemma_views_changes(s_c.events@, state.events@, set![20usize]);
                        assert(met1.drop_last() =~= met0);
                        assert(wt == view_type(s0.entities_map@[w]));
                        assert(vt == view_type(s0.entities_map@[v]));
                        assert(views_in(state.events@) =~= views_in(s0.events@) + pair_views(w, met1, s0.entities_map@));
                        assert(state.entities_map@[v] == s_b.entities_map@[v]);
                        assert(forall|o: usize| o != v && o != w && #[trigger] s0.entities_map@.contains_key(o) ==> state.entities_map@[o] == before.entities_map@[o]);
                        assert(view_list(state.entities_map@[w]) == wl@);
                        assert(view_list(state.entities_map@[v]) == vl@);
                        if met0.len() == 0 {
                            assert(view_list(s0.entities_map@[w]) + met1 =~= wl@);
                        } else {
                            assert(view_list(s0.entities_map@[w]) + met1 =~= wl@);
                        }
                    }
                    met_now = true;
                }
            }
        }
        proof {
            if !met_now {
                assert(!pred(v));
                assert(state.entities_map == before.entities_map);
                assert(state.events == before.events);
            }
            let met1 = viewables@.take(i + 1).filter(pred);
            assert forall|j: int| 0 <= j < i + 1 && viewables@[j] != w implies {
                let vj = viewables@[j];
                let e0 = s0.entities_map@[vj];
                let e1 = #[trigger] state.entities_map@[viewables@[j]];
                if newly_seen(s0, w, vj, seen@) {
                    &&& viewable_of(e1) is Some
                    &&& view_type(e1) == view_type(e0)
                    &&& view_list(e1) == view_list(e0).push(w)
                } else {
                    e1 == e0
                }
            } by {
                if j < i {
                    assert(viewables@[j] != v);
                    assert(s0.entities_map@.contains_key(viewables@[j]));
                    assert(state.entities_map@[viewables@[j]] == before.entities_map@[viewables@[j]]);
                }
            }
            assert forall|j: int| i + 1 <= j < viewables@.len() && viewables@[j] != w implies #[trigger] state.entities_map@[viewables@[j]]
                == s0.entities_map@[viewables@[j]] by {
                assert(viewables@[j] != v);
                assert(s0.entities_map@.contains_key(viewables@[j]));
                assert(state.entities_map@[viewables@[j]] == before.entities_map@[viewables@[j]]);
            }
            assert forall|id: usize| id != w && !viewables@.contains(id) && #[trigger] s0.entities_map@.contains_key(id)
                implies state.entities_map@[id] == s0.entities_map@[id] by {
                assert(viewables@[i as int] == v);
                assert(id != v);
            }
            if !met_now {
                assert(met1 == met0);
            }
        }
        i = i + 1;
    }
    proof {
        assert(viewables@.take(viewables@.len() as int) =~= viewables@);
    }
}

proof fn lemma_slot_kept(e0: Entity, e1: Entity, kinds: Set<usize>, k: nat)
    requires
        only_slots_changed(e0, e1, kinds),
        e0.wf(),
        has_kind(e0.components@, k),
        k <= usize::MAX,
        !kinds.contains(k as usize),
    ensures
        component_of(e1, k) == component_of(e0, k),
        has_kind(e1.components@, k),
{
    assert(e0.component_index@.contains_key(k as usize));
    let i = e0.component_index@[k as usize] as int;
    assert(last_of_kind(e0.components@, k, i));
    if is_slot_of(e0, kinds, i) {
        let k2 = choose|k2: usize| #[trigger] kinds.contains(k2) && e0.component_index@.contains_key(k2) && e0.component_index@[k2] == i;
        assert(last_of_kind(e0.components@, k2 as nat, i));
    }
    lemma_kind_kept(e0, e1, kinds, k);
}

/// The entity's view distance, where its component holds one.
pub open spec fn view_distance_of(e: Entity) -> Option<usize> {
    match component_of(e, 21) {
        Component::ViewDistance(d) => d,
        _ => None,
    }
}

/// The entity clears the fog where it looks.
pub open spec fn affects_fog(e: Entity) -> bool {
    has_kind(e.components@, 13)
}

/// The viewer has a position and a view distance from which its whole
/// square of sight lies within range.
pub open spec fn can_look(e: Entity) -> bool {
    &&& has_kind(e.components@, 0)
    &&& position_of(e) is Some
    &&& has_kind(e.components@, 21)
    &&& view_distance_of(e) is Some
    &&& 4 * view_distance_of(e)->0 <= isize::MAX
    &&& isize::MIN <= position_of(e)->0.x - view_distance_of(e)->0
    &&& position_of(e)->0.x + view_distance_of(e)->0 <= isize::MAX
    &&& isize::MIN <= position_of(e)->0.y - view_distance_of(e)->0
    &&& position_of(e)->0.y + view_distance_of(e)->0 <= isize::MAX
}

/// The cell `p` is seen by the viewer entity `e`, with `solid` blocking.
pub open spec fn sees(e: Entity, solid: Set<Position>, p: Position) -> bool {
    seen_by(position_of(e)->0, view_distance_of(e)->0 as nat, solid, p)
}

/// The cell `p` is reached by the viewer entity `e`, with `solid` blocking.
pub open spec fn reaches(e: Entity, solid: Set<Position>, p: Position) -> bool {
    reached_by(position_of(e)->0, view_distance_of(e)->0 as nat, solid, p)
}

/// The view distance of the entity, read from its component.
fn view_distance_in(state: &State, id: usize) -> (d: usize)
    requires
        state.entities_map@.contains_key(id),
        state.entities_map@[id].wf(),
        has_kind(state.entities_map@[id].components@, 21),
        view_distance_of(state.entities_map@[id]) is Some,
    ensures
        d == view_distance_of(state.entities_map@[id])->0,
{
    match state.entities_map.get(&id).unwrap().get_component(Component::ViewDistance(None)) {
        Some(Component::ViewDistance(Some(d))) => *d,
        _ => 0,
    }
}

proof fn lemma_entry_kept(m0: Map<usize, Entity>, m1: Map<usize, Entity>, kinds: Set<usize>, id: usize, k: nat)
    requires
        changed_only(m0, m1, kinds),
        m0.contains_key(id),
        m0[id].wf(),
        has_kind(m0[id].components@, k),
        k <= usize::MAX,
        !kinds.contains(k as usize),
    ensures
        m1.contains_key(id),
        m1[id].wf(),
        component_of(m1[id], k) == component_of(m0[id], k),
        has_kind(m1[id].components@, k),
{
    lemma_slot_kept(m0[id], m1[id], kinds, k);
}

/// `y` joined the look-out of `x` when viewer `w` looked: `x` is `w` and
/// saw `y`, or `y` is `w` and saw `x`.
pub open spec fn met_through(
    m: Map<usize, Entity>,
    w: usize,
    viewables: Seq<usize>,
    solid: Set<Position>,
    x: usize,
    y: usize,
) -> bool {
    ||| x == w && viewables.contains(y) && y != w && sees(m[w], solid, position_of(m[y])->0)
    ||| y == w && viewables.contains(x) && x != w && sees(m[w], solid, position_of(m[x])->0)
}

/// The look-out of `e1` is that of `e0` with entities for which `ok` holds
/// added at its end.
pub open spec fn lookout_grew(e0: Entity, e1: Entity, ok: spec_fn(usize) -> bool) -> bool {
    &&& can_be_viewed(e1)
    &&& view_type(e1) == view_type(e0)
    &&& view_list(e0).len() <= view_list(e1).len()
    &&& view_list(e1).take(view_list(e0).len() as int) == view_list(e0)
    &&& forall|i: int| view_list(e0).len() <= i < view_list(e1).len() ==> ok(#[trigger] view_list(e1)[i])
}

/// `ev` records a change of a drawn, hidden, fog or look-out component, or
/// that two entities viewed each other where `met` says they met.
pub open spec fn sight_event(ev: Event, met: spec_fn(usize, usize) -> bool) -> bool {
    ||| changes_kind(ev, set![2usize, 7usize, 18usize, 20usize])
    ||| ev matches Event::View(((a, _ta), (b, _tb))) && met(a, b)
}

/// `ev1` is `ev0` followed by events of sight.
pub open spec fn sight_events(ev0: Seq<Event>, ev1: Seq<Event>, met: spec_fn(usize, usize) -> bool) -> bool {
    &&& ev0.len() <= ev1.len()
    &&& ev1.take(ev0.len() as int) == ev0
    &&& forall|i: int| ev0.len() <= i < ev1.len() ==> sight_event(#[trigger] ev1[i], met)
}

proof fn lemma_sight_events_from_changes(e0: Seq<Event>, e1: Seq<Event>, kinds: Set<usize>, met: spec_fn(usize, usize) -> bool)
    requires
        changes_appended(e0, e1, kinds),
        kinds.subset_of(set![2usize, 7usize, 18usize, 20usize]),
    ensures
        sight_events(e0, e1, met),
{
    assert forall|i: int| e0.len() <= i < e1.len() implies sight_event(#[trigger] e1[i], met) by {
        assert(changes_kind(e1[i], kinds));
    }
}

proof fn lemma_sight_events_trans(e0: Seq<Event>, e1: Seq<Event>, e2: Seq<Event>, met: spec_fn(usize, usize) -> bool)
    requires
        sight_events(e0, e1, met),
        sight_events(e1, e2, met),
    ensures
        sight_events(e0, e2, met),
{
    assert(e2.take(e0.len() as int) =~= e1.take(e1.len() as int).take(e0.len() as int));
    assert(e1.take(e1.len() as int) =~= e1);
    assert forall|i: int| e0.len() <= i < e2.len() implies sight_event(#[trigger] e2[i], met) by {
        if i < e1.len() {
            assert(e2.take(e1.len() as int)[i] == e2[i]);
        }
    }
}

/// One viewer looks: it uncovers the hidden entities its rays reach where it
/// clears fog, meets the viewables it sees, and clears the fog it sees where
/// the fog is on.
#[verifier::spinoff_prover]
#[verifier::rlimit(80)]
fn look(state: &mut State, w: usize, fog: &Vec<usize>, hidden: &Vec<usize>, viewables: &Vec<usize>, solid: &Vec<Position>)
    requires
        old(state).wf(),
        old(state).entities_map@.contains_key(w),
        old(state).entities_map@[w].wf(),
        can_look(old(state).entities_map@[w]),
        fog@.no_duplicates(),
        all_present(*old(state), fog@),
        fog_ready(*old(state), fog@),
        old(state).fog_enabled && affects_fog(old(state).entities_map@[w]) ==> placed(*old(state), fog@),
        hidden@.no_duplicates(),
        all_present(*old(state), hidden@),
        placed(*old(state), hidden@),
        have_kind(*old(state), hidden@, 7),
        viewables@.no_duplicates(),
        all_present(*old(state), viewables@),
        forall|j: int| 0 <= j < viewables@.len() && viewables@[j] != w ==> {
            let e = #[trigger] old(state).entities_map@[viewables@[j]];
            &&& has_kind(e.components@, 0)
            &&& position_of(e) is Some
            &&& can_be_viewed(e)
        },
        forall|j: int| 0 <= j < viewables@.len() && viewables@[j] != w && sees(
            old(state).entities_map@[w],
            solid@.to_set(),
            position_of(#[trigger] old(state).entities_map@[viewables@[j]])->0,
        ) ==> can_be_viewed(old(state).entities_map@[w]),
    ensures
        final(state).wf(),
        final(state).component_map == old(state).component_map,
        final(state).empty_entites_set == old(state).empty_entites_set,
        final(state).fog_enabled == old(state).fog_enabled,
        final(state).entity_id_counter == old(state).entity_id_counter,
        final(state).system_components == old(state).system_components,
        changed_only(old(state).entities_map@, final(state).entities_map@, set![2usize, 7usize, 18usize, 20usize]),
        ({
            let m0 = old(state).entities_map@;
            let m1 = final(state).entities_map@;
            let sol = solid@.to_set();
            &&& forall|i: int| 0 <= i < hidden@.len() ==> component_of(#[trigger] m1[hidden@[i]], 7) == if affects_fog(m0[w])
                && reaches(m0[w], sol, position_of(m0[hidden@[i]])->0) {
                Component::Hidden(Some(false))
            } else {
                component_of(m0[hidden@[i]], 7)
            }
            &&& forall|id: usize| !hidden@.contains(id) && #[trigger] m0.contains_key(id) && m0[id].wf() && has_kind(
                m0[id].components@,
                7,
            ) ==> component_of(m1[id], 7) == component_of(m0[id], 7)
            &&& forall|i: int| 0 <= i < fog@.len() ==> {
                let e0 = m0[fog@[i]];
                let e1 = #[trigger] m1[fog@[i]];
                if old(state).fog_enabled && affects_fog(m0[w]) && sees(m0[w], sol, position_of(e0)->0) {
                    &&& fog_of(e1) == Some(true)
                    &&& component_of(e1, 2) == Component::RenderFg(None)
                } else {
                    &&& component_of(e1, 2) == component_of(e0, 2)
                    &&& component_of(e1, 18) == component_of(e0, 18)
                }
            }
            &&& forall|id: usize| !fog@.contains(id) && #[trigger] m0.contains_key(id) && m0[id].wf() ==> (has_kind(m0[id].components@, 2)
                ==> component_of(m1[id], 2) == component_of(m0[id], 2)) && (has_kind(m0[id].components@, 18)
                ==> component_of(m1[id], 18) == component_of(m0[id], 18))
            &&& forall|x: usize| #[trigger] m0.contains_key(x) && m0[x].wf() && has_kind(m0[x].components@, 20) ==> if can_be_viewed(m0[x]) && (x == w
                || viewables@.contains(x)) {
                lookout_grew(m0[x], m1[x], |y: usize| met_through(m0, w, viewables@, sol, x, y))
            } else {
                component_of(m1[x], 20) == component_of(m0[x], 20)
            }
            &&& forall|j: int| 0 <= j < viewables@.len() && viewables@[j] != w && sees(m0[w], sol, position_of(m0[viewables@[j]])->0)
                ==> view_list(#[trigger] m1[viewables@[j]]).contains(w)
            &&& sight_events(old(state).events@, final(state).events@, |a: usize, b: usize| met_through(m0, w, viewables@, sol, a, b))
            &&& exists|met: Seq<usize>|
                {
                    &&& met.no_duplicates()
                    &&& #[trigger] views_in(final(state).events@) == views_in(old(state).events@) + pair_views(w, met, m0)
                    &&& forall|v: usize| #[trigger] met.contains(v) ==> {
                        &&& v != w
                        &&& viewables@.contains(v)
                        &&& sees(m0[w], sol, position_of(m0[v])->0)
                        &&& !view_list(m0[v]).contains(w)
                        &&& view_list(m1[v]).contains(w)
                        &&& view_list(m1[w]).contains(v)
                    }
                    &&& forall|x: usize, y: usize|
                        #[trigger] view_list(m1[x]).contains(y) && m0.contains_key(x) && m0[x].wf() && has_kind(
                            m0[x].components@,
                            20,
                        ) && !view_list(m0[x]).contains(y) ==> (x == w && met.contains(y)) || (y == w && met.contains(x))
                }
        }),
{
    let ghost s0 = *state;
    let ghost m0 = s0.entities_map@;
    let ghost sol = solid@.to_set();
    let ghost met = |a: usize, b: usize| met_through(m0, w, viewables@, sol, a, b);
    let wpos = position_in(state, w);
    let d = view_distance_in(state, w);
    let (seen, reached) = view_cells(wpos, d, solid);
    let affects = state.entities_map.get(&w).unwrap().contains_component(&Component::AffectsFog);
    assert(kind(Component::AffectsFog) == 13);
    if affects {
        reveal_hidden(state, hidden, &reached);
    }
    let ghost s1 = *state;
    proof {
        assert(s1.events@.take(s0.events@.len() as int) =~= s0.events@) by {
            if !affects {
                assert(s0.events@.take(s0.events@.len() as int) =~= s0.events@);
            }
        }
        if !affects {
            lemma_changed_only_refl(m0, set![7usize]);
        }
        assert forall|j: int| 0 <= j < viewables@.len() implies #[trigger] s1.entities_map@.contains_key(viewables@[j]) && s1.entities_map@[viewables@[j]].wf() by {
            assert(m0.contains_key(viewables@[j]));
        }
        assert(all_present(s1, viewables@));
        assert forall|j: int| 0 <= j < viewables@.len() && viewables@[j] != w implies {
            let e = #[trigger] s1.entities_map@[viewables@[j]];
            &&& has_kind(e.components@, 0)
            &&& position_of(e) is Some
            &&& can_be_viewed(e)
        } by {
            let v = viewables@[j];
            assert(m0.contains_key(v));
            lemma_entry_kept(m0, s1.entities_map@, set![7usize], v, 0);
            lemma_entry_kept(m0, s1.entities_map@, set![7usize], v, 20);
        }
        lemma_entry_kept(m0, s1.entities_map@, set![7usize], w, 0);
        assert forall|j: int| 0 <= j < viewables@.len() && viewables@[j] != w && seen@.contains(
            position_of(#[trigger] s1.entities_map@[viewables@[j]])->0,
        ) implies can_be_viewed(s1.entities_map@[w]) by {
            let v = viewables@[j];
            assert(m0.contains_key(v));
            lemma_entry_kept(m0, s1.entities_map@, set![7usize], v, 0);
            assert(sees(m0[w], sol, position_of(m0[v])->0));
            lemma_entry_kept(m0, s1.entities_map@, set![7usize], w, 20);
        }
    }
    meet_viewables(state, w, viewables, &seen);
    let ghost s2 = *state;
    proof {
        lemma_changed_only_widen(m0, s1.entities_map@, set![7usize], set![2usize, 7usize, 18usize, 20usize]);
        lemma_changed_only_widen(s1.entities_map@, s2.entities_map@, set![20usize], set![2usize, 7usize, 18usize, 20usize]);
        lemma_changed_only_trans(m0, s1.entities_map@, s2.entities_map@, set![2usize, 7usize, 18usize, 20usize]);
    }
    if state.fog_enabled && affects {
        proof {
            assert forall|j: int| 0 <= j < fog@.len() implies #[trigger] s2.entities_map@.contains_key(fog@[j]) && s2.entities_map@[fog@[j]].wf() by {
                assert(m0.contains_key(fog@[j]));
            }
            assert forall|j: int| 0 <= j < fog@.len() implies {
                let e = #[trigger] s2.entities_map@[fog@[j]];
                &&& has_kind(e.components@, 18)
                &&& fog_of(e) is Some
                &&& has_kind(e.components@, 2)
                &&& has_kind(e.components@, 0)
                &&& position_of(e) is Some
            } by {
                let f = fog@[j];
                assert(m0.contains_key(f));
                assert(m0[f] == m0[fog@[j]]);
                lemma_changed_only_widen(m0, s1.entities_map@, set![7usize], set![7usize, 20usize]);
                lemma_changed_only_widen(s1.entities_map@, s2.entities_map@, set![20usize], set![7usize, 20usize]);
                lemma_changed_only_trans(m0, s1.entities_map@, s2.entities_map@, set![7usize, 20usize]);
                lemma_entry_kept(m0, s2.entities_map@, set![7usize, 20usize], f, 18);
                lemma_entry_kept(m0, s2.entities_map@, set![7usize, 20usize], f, 2);
                lemma_entry_kept(m0, s2.entities_map@, set![7usize, 20usize], f, 0);
            }
        }
        clear_fog(state, fog, &seen);
    }
    proof {
        let s3 = *state;
        let m1 = s1.entities_map@;
        let m2 = s2.entities_map@;
        let m3 = s3.entities_map@;
        let ran = s0.fog_enabled && affects;
        let pred = |v: usize| newly_seen(s1, w, v, seen@);
        let metw = viewables@.filter(pred);
        viewables@.filter_lemma(pred);
        if !ran {
            lemma_changed_only_refl(m2, set![2usize, 18usize]);
            assert(s3.events@.take(s2.events@.len() as int) =~= s2.events@);
        }
        lemma_changed_only_widen(m2, m3, set![2usize, 18usize], set![2usize, 7usize, 18usize, 20usize]);
        lemma_changed_only_trans(m0, m2, m3, set![2usize, 7usize, 18usize, 20usize]);
        lemma_changed_only_widen(m1, m2, set![20usize], set![2usize, 18usize, 20usize]);
        lemma_changed_only_widen(m2, m3, set![2usize, 18usize], set![2usize, 18usize, 20usize]);
        lemma_changed_only_trans(m1, m2, m3, set![2usize, 18usize, 20usize]);
        lemma_changed_only_widen(m0, m1, set![7usize], set![7usize, 20usize]);
        lemma_changed_only_widen(m1, m2, set![20usize], set![7usize, 20usize]);
        lemma_changed_only_trans(m0, m1, m2, set![7usize, 20usize]);
        // the viewer's position and reach are those it started with
        assert(wpos == position_of(m0[w])->0);
        assert(d == view_distance_of(m0[w])->0);
        // hidden entities
        assert forall|i: int| 0 <= i < hidden@.len() implies component_of(#[trigger] m3[hidden@[i]], 7) == if affects_fog(m0[w])
            && reaches(m0[w], sol, position_of(m0[hidden@[i]])->0) {
            Component::Hidden(Some(false))
        } else {
            component_of(m0[hidden@[i]], 7)
        } by {
            let h = hidden@[i];
            assert(m0.contains_key(h));
            assert(has_kind(m0[hidden@[i]].components@, 7));
            lemma_entry_kept(m0, m1, set![7usize], h, 0);
            lemma_kind_kept(m0[h], m1[h], set![7usize], 7);
            lemma_entry_kept(m1, m3, set![2usize, 18usize, 20usize], h, 7);
        }
        assert forall|id: usize| !hidden@.contains(id) && #[trigger] m0.contains_key(id) && m0[id].wf() && has_kind(
            m0[id].components@,
            7,
        ) implies component_of(m3[id], 7) == component_of(m0[id], 7) by {
            if !affects {
                assert(m1 == m0);
            }
            assert(m1[id] == m0[id]);
            lemma_entry_kept(m1, m3, set![2usize, 18usize, 20usize], id, 7);
        }
        // fog entities
        assert forall|i: int| 0 <= i < fog@.len() implies {
            let e0 = m0[fog@[i]];
            let e1 = #[trigger] m3[fog@[i]];
            if s0.fog_enabled && affects_fog(m0[w]) && sees(m0[w], sol, position_of(e0)->0) {
                &&& fog_of(e1) == Some(true)
                &&& component_of(e1, 2) == Component::RenderFg(None)
            } else {
                &&& component_of(e1, 2) == component_of(e0, 2)
                &&& component_of(e1, 18) == component_of(e0, 18)
            }
        } by {
            let f = fog@[i];
            assert(m0.contains_key(f));
            assert(m0[f] == m0[fog@[i]]);
            lemma_entry_kept(m0, m2, set![7usize, 20usize], f, 18);
            lemma_entry_kept(m0, m2, set![7usize, 20usize], f, 2);
            if ran {
                lemma_entry_kept(m0, m2, set![7usize, 20usize], f, 0);
            }
        }
        assert forall|id: usize| !fog@.contains(id) && #[trigger] m0.contains_key(id) && m0[id].wf() implies (has_kind(
            m0[id].components@,
            2,
        ) ==> component_of(m3[id], 2) == component_of(m0[id], 2)) && (has_kind(m0[id].components@, 18) ==> component_of(m3[id], 18)
            == component_of(m0[id], 18)) by {
            assert(m3[id] == m2[id]);
            if has_kind(m0[id].components@, 2) {
                lemma_entry_kept(m0, m2, set![7usize, 20usize], id, 2);
            }
            if has_kind(m0[id].components@, 18) {
                lemma_entry_kept(m0, m2, set![7usize, 20usize], id, 18);
            }
        }
        // look-outs
        assert forall|y: usize| #[trigger] metw.contains(y) implies viewables@.contains(y) && y != w && sees(
            m0[w],
            sol,
            position_of(m0[y])->0,
        ) && met_through(m0, w, viewables@, sol, w, y) by {
            viewables@.lemma_filter_contains_rev(pred, y);
            let k = choose|k: int| 0 <= k < metw.len() && metw[k] == y;
            assert(pred(metw[k]));
            let j = viewables@.index_of(y);
            assert(viewables@[j] == y);
            assert(m0.contains_key(y));
            lemma_entry_kept(m0, m1, set![7usize], y, 0);
        }
        if !can_be_viewed(m0[w]) && metw.len() > 0 {
            assert(metw.contains(metw[0]));
            let y = metw[0];
            let j = viewables@.index_of(y);
            assert(viewables@[j] == y);
        }
        assert forall|x: usize| #[trigger] m0.contains_key(x) && m0[x].wf() && has_kind(m0[x].components@, 20) implies if can_be_viewed(
            m0[x],
        ) && (x == w || viewables@.contains(x)) {
            lookout_grew(m0[x], m3[x], |y: usize| met_through(m0, w, viewables@, sol, x, y))
        } else {
            component_of(m3[x], 20) == component_of(m0[x], 20)
        } by {
            lemma_entry_kept(m0, m1, set![7usize], x, 20);
            lemma_kind_kept(m1[x], m2[x], set![20usize], 20);
            lemma_entry_kept(m2, m3, set![2usize, 18usize], x, 20);
            let ok = |y: usize| met_through(m0, w, viewables@, sol, x, y);
            if x != w && viewables@.contains(x) {
                let j = viewables@.index_of(x);
                assert(viewables@[j] == x);
                lemma_entry_kept(m0, m1, set![7usize], x, 0);
                if newly_seen(s1, w, x, seen@) {
                    assert(met_through(m0, w, viewables@, sol, x, w));
                    let l0 = view_list(m0[x]);
                    let l3 = view_list(m3[x]);
                    assert(l3 == l0.push(w));
                    assert(l3.take(l0.len() as int) =~= l0);
                    assert forall|i: int| l0.len() <= i < l3.len() implies ok(#[trigger] l3[i]) by {
                        assert(l3[i] == w);
                    }
                } else {
                    assert(m2[x] == m1[x]);
                    assert(view_list(m3[x]).take(view_list(m0[x]).len() as int) =~= view_list(m0[x]));
                }
            } else if x == w {
                if metw.len() == 0 {
                    assert(m2[w] == m1[w]);
                    if can_be_viewed(m0[x]) {
                        assert(view_list(m3[x]).take(view_list(m0[x]).len() as int) =~= view_list(m0[x]));
                    }
                } else {
                    let l0 = view_list(m0[x]);
                    let l3 = view_list(m3[x]);
                    assert(l3 == l0 + metw);
                    assert(l3.take(l0.len() as int) =~= l0);
                    assert forall|i: int| l0.len() <= i < l3.len() implies ok(#[trigger] l3[i]) by {
                        assert(l3[i] == metw[i - l0.len()]);
                        assert(metw.contains(metw[i - l0.len()]));
                    }
                }
            } else {
                assert(m2[x] == m1[x]);
            }
        }
        assert forall|j: int| 0 <= j < viewables@.len() && viewables@[j] != w && sees(m0[w], sol, position_of(m0[viewables@[j]])->0)
            implies view_list(#[trigger] m3[viewables@[j]]).contains(w) by {
            let v = viewables@[j];
            assert(m0.contains_key(v));
            lemma_entry_kept(m0, m1, set![7usize], v, 0);
            lemma_entry_kept(m0, m1, set![7usize], v, 20);
            lemma_kind_kept(m1[v], m2[v], set![20usize], 20);
            lemma_entry_kept(m2, m3, set![2usize, 18usize], v, 20);
            if newly_seen(s1, w, v, seen@) {
                assert(view_list(m3[v]) == view_list(m1[v]).push(w));
                assert(view_list(m3[v])[view_list(m1[v]).len() as int] == w);
            } else {
                assert(view_list(m1[v]).contains(w));
            }
        }
        // events
        if affects {
            lemma_sight_events_from_changes(s0.events@, s1.events@, set![7usize], met);
        } else {
            assert(sight_events(s0.events@, s1.events@, met));
        }
        assert(sight_events(s1.events@, s2.events@, met)) by {
            assert forall|i: int| s1.events@.len() <= i < s2.events@.len() implies sight_event(#[trigger] s2.events@[i], met) by {
                let ev = s2.events@[i];
                if !changes_kind(ev, set![20usize]) {
                    assert(view_event_of(ev, w, metw));
                    if let Event::View(((a, _ta), (b, _tb))) = ev {
                        if a == w && metw.contains(b) {
                            assert(met_through(m0, w, viewables@, sol, w, b));
                        } else {
                            assert(metw.contains(a));
                            let k = choose|k: int| 0 <= k < metw.len() && metw[k] == a;
                            viewables@.lemma_filter_contains_rev(pred, a);
                            assert(pred(metw[k]));
                            let j = viewables@.index_of(a);
                            assert(viewables@[j] == a);
                            assert(m0.contains_key(a));
                            lemma_entry_kept(m0, m1, set![7usize], a, 0);
                            assert(met_through(m0, w, viewables@, sol, a, w));
                        }
                    }
                }
            }
        }
        lemma_sight_events_from_changes(s2.events@, s3.events@, set![2usize, 18usize], met);
        lemma_sight_events_trans(s0.events@, s1.events@, s2.events@, met);
        lemma_sight_events_trans(s0.events@, s2.events@, s3.events@, met);
        // views
        if affects {
            lemma_views_changes(s0.events@, s1.events@, set![7usize]);
        }
        lemma_views_changes(s2.events@, s3.events@, set![2usize, 18usize]);
        lemma_filter_no_dup(viewables@, pred);
        assert forall|v: usize| #[trigger] metw.contains(v) implies {
            &&& v != w
            &&& viewables@.contains(v)
            &&& sees(m0[w], sol, position_of(m0[v])->0)
            &&& !view_list(m0[v]).contains(w)
            &&& view_list(m3[v]).contains(w)
            &&& view_list(m3[w]).contains(v)
        } by {
            viewables@.lemma_filter_contains_rev(pred, v);
            let k = choose|k: int| 0 <= k < metw.len() && metw[k] == v;
            assert(pred(metw[k]));
            let j = viewables@.index_of(v);
            assert(viewables@[j] == v);
            assert(m0.contains_key(v));
            lemma_entry_kept(m0, m1, set![7usize], v, 0);
            lemma_entry_kept(m0, m1, set![7usize], v, 20);
            lemma_kind_kept(m1[v], m2[v], set![20usize], 20);
            lemma_entry_kept(m2, m3, set![2usize, 18usize], v, 20);
            assert(view_list(m3[v]) == view_list(m1[v]).push(w));
            assert(view_list(m3[v])[view_list(m1[v]).len() as int] == w);
            assert(sees(m0[w], sol, position_of(m0[viewables@[j]])->0));
            assert(can_be_viewed(m0[w]));
            lemma_entry_kept(m0, m1, set![7usize], w, 20);
            lemma_kind_kept(m1[w], m2[w], set![20usize], 20);
            lemma_entry_kept(m2, m3, set![2usize, 18usize], w, 20);
            assert(view_list(m3[w]) == view_list(m0[w]) + metw);
            assert(view_list(m3[w])[view_list(m0[w]).len() + k] == v);
        }
        assert forall|v: usize| #[trigger] metw.contains(v) implies view_type(m1[v]) == view_type(m0[v]) by {
            viewables@.lemma_filter_contains_rev(pred, v);
            let j = viewables@.index_of(v);
            assert(viewables@[j] == v);
            assert(m0.contains_key(v));
            lemma_entry_kept(m0, m1, set![7usize], v, 20);
        }
        if metw.len() > 0 {
            assert(metw.contains(metw[0]));
            let j = viewables@.index_of(metw[0]);
            viewables@.lemma_filter_contains_rev(pred, metw[0]);
            assert(viewables@[j] == metw[0]);
            assert(can_be_viewed(m0[w]));
            lemma_entry_kept(m0, m1, set![7usize], w, 20);
            lemma_pair_views_same(w, metw, m0, m1);
        } else {
            assert(pair_views(w, metw, m0) == pair_views(w, metw, m1));
        }
        assert(views_in(s3.events@) == views_in(s0.events@) + pair_views(w, metw, m0));
        assert forall|x: usize, y: usize|
            #[trigger] view_list(m3[x]).contains(y) && m0.contains_key(x) && m0[x].wf() && has_kind(m0[x].components@, 20)
                && !view_list(m0[x]).contains(y) implies (x == w && metw.contains(y)) || (y == w && metw.contains(x)) by {
            lemma_entry_kept(m0, m1, set![7usize], x, 20);
            lemma_kind_kept(m1[x], m2[x], set![20usize], 20);
            lemma_entry_kept(m2, m3, set![2usize, 18usize], x, 20);
            if x != w && viewables@.contains(x) {
                let j = viewables@.index_of(x);
                assert(viewables@[j] == x);
                if newly_seen(s1, w, x, seen@) {
                    let l0 = view_list(m1[x]);
                    assert(view_list(m3[x]) == l0.push(w));
                    let i = choose|i: int| 0 <= i < view_list(m3[x]).len() && view_list(m3[x])[i] == y;
                    if i < l0.len() {
                        assert(l0[i] == y);
                    }
                    assert(y == w);
                    assert(pred(x));
                    lemma_filter_pred_contains(viewables@, pred, j);
                } else {
                    assert(m2[x] == m1[x]);
                }
            } else if x == w {
                if metw.len() > 0 {
                    let l0 = view_list(m0[x]);
                    assert(view_list(m3[x]) == l0 + metw);
                    let i = choose|i: int| 0 <= i < view_list(m3[x]).len() && view_list(m3[x])[i] == y;
                    if i < l0.len() {
                        assert(l0[i] == y);
                    }
                    assert(metw[i - l0.len()] == y);
                } else {
                    assert(m2[w] == m1[w]);
                }
            } else {
                assert(m2[x] == m1[x]);
            }
        }
    }
}


/// The views announced for the meetings `ps` in turn, with what each entity
/// is in `m`: in each, the first viewed the second, then the second the
/// first.
pub open spec fn pairs_views(ps: Seq<(usize, usize)>, m: Map<usize, Entity>) -> Seq<((usize, ViewType), (usize, ViewType))>
    decreases ps.len(),
{
    if ps.len() == 0 {
        Seq::empty()
    } else {
        let (a, b) = ps.last();
        pairs_views(ps.drop_last(), m) + seq![
            ((a, view_type(m[a])), (b, view_type(m[b]))),
            ((b, view_type(m[b])), (a, view_type(m[a]))),
        ]
    }
}

/// The meetings `ps` of a sight that started from `s0`, with the entities
/// now `m`: in each, a viewer saw a viewable entity that had not viewed it
/// yet, and now each has the other on its look-out; no two entities meet
/// twice, in either order.
pub open spec fn fresh_meetings(s0: State, m: Map<usize, Entity>, ps: Seq<(usize, usize)>) -> bool {
    &&& forall|k: int|
        0 <= k < ps.len() ==> {
            let a = (#[trigger] ps[k]).0;
            let b = ps[k].1;
            &&& a != b
            &&& viewer_ids(s0).contains(a)
            &&& viewable_ids(s0).contains(b)
            &&& sees(s0.entities_map@[a], solid_cells(s0), position_of(s0.entities_map@[b])->0)
            &&& !view_list(s0.entities_map@[b]).contains(a)
            &&& view_list(m[b]).contains(a)
            &&& view_list(m[a]).contains(b)
        }
    &&& forall|k: int, l: int|
        0 <= k < l < ps.len() ==> (#[trigger] ps[k]) != (#[trigger] ps[l]) && ps[k] != (ps[l].1, ps[l].0)
}

proof fn lemma_pairs_views_concat(p: Seq<(usize, usize)>, q: Seq<(usize, usize)>, m: Map<usize, Entity>)
    ensures
        pairs_views(p + q, m) == pairs_views(p, m) + pairs_views(q, m),
    decreases q.len(),
{
    if q.len() == 0 {
        assert(p + q =~= p);
        assert(pairs_views(p, m) + pairs_views(q, m) =~= pairs_views(p, m));
    } else {
        assert((p + q).drop_last() =~= p + q.drop_last());
        assert((p + q).last() == q.last());
        lemma_pairs_views_concat(p, q.drop_last(), m);
        assert(pairs_views(p + q, m) =~= pairs_views(p, m) + pairs_views(q, m));
    }
}

/// The meetings of one viewer with the entities `met`.
pub open spec fn meetings_of(w: usize, met: Seq<usize>) -> Seq<(usize, usize)> {
    met.map_values(|v: usize| (w, v))
}

proof fn lemma_pair_views_pairs(w: usize, met: Seq<usize>, m: Map<usize, Entity>)
    ensures
        pair_views(w, met, m) == pairs_views(meetings_of(w, met), m),
    decreases met.len(),
{
    if met.len() > 0 {
        assert(meetings_of(w, met).drop_last() =~= meetings_of(w, met.drop_last()));
        lemma_pair_views_pairs(w, met.drop_last(), m);
    } else {
        assert(meetings_of(w, met).len() == 0);
    }
}

/// Every entity that joined a look-out since `s0`, in `m`, came with one
/// of the meetings `ps`.
pub open spec fn added_by(s0: State, m: Map<usize, Entity>, ps: Seq<(usize, usize)>) -> bool {
    forall|x: usize, y: usize|
        #[trigger] view_list(m[x]).contains(y) && s0.entities_map@.contains_key(x) && s0.entities_map@[x].wf() && has_kind(
            s0.entities_map@[x].components@,
            20,
        ) && !view_list(s0.entities_map@[x]).contains(y) ==> ps.contains((y, x)) || ps.contains((x, y))
}

/// One viewer's meetings carry on the meetings of those before it.
proof fn lemma_meetings_step(
    s0: State,
    mc: Map<usize, Entity>,
    mn: Map<usize, Entity>,
    ps: Seq<(usize, usize)>,
    w: usize,
    met: Seq<usize>,
    vb: Seq<usize>,
)
    requires
        sight_ready(s0, Set::empty()),
        viewer_ids(s0).contains(w),
        vb.to_set() == viewable_ids(s0),
        changed_only(s0.entities_map@, mc, set![2usize, 7usize, 18usize, 20usize]),
        changed_only(mc, mn, set![2usize, 7usize, 18usize, 20usize]),
        fresh_meetings(s0, mc, ps),
        forall|x: usize| #[trigger] s0.entities_map@.contains_key(x) && s0.entities_map@[x].wf() && has_kind(s0.entities_map@[x].components@, 20) ==> if can_be_viewed(s0.entities_map@[x])
            && (viewer_ids(s0).contains(x) || viewable_ids(s0).contains(x)) {
            lookout_grew(s0.entities_map@[x], mc[x], |y: usize| met_in_sight(s0, x, y))
        } else {
            component_of(mc[x], 20) == component_of(s0.entities_map@[x], 20)
        },
        forall|x: usize, y: usize|
            #[trigger] mc.contains_key(x) && mc[x].wf() && has_kind(mc[x].components@, 20) && #[trigger] view_list(mc[x]).contains(y)
                ==> view_list(mn[x]).contains(y),
        met.no_duplicates(),
        forall|v: usize| #[trigger] met.contains(v) ==> {
            &&& v != w
            &&& vb.contains(v)
            &&& sees(mc[w], solid_cells(s0), position_of(mc[v])->0)
            &&& !view_list(mc[v]).contains(w)
            &&& view_list(mn[v]).contains(w)
            &&& view_list(mn[w]).contains(v)
        },
        forall|x: usize, y: usize|
            #[trigger] view_list(mn[x]).contains(y) && mc.contains_key(x) && mc[x].wf() && has_kind(mc[x].components@, 20)
                && !view_list(mc[x]).contains(y) ==> (x == w && met.contains(y)) || (y == w && met.contains(x)),
        added_by(s0, mc, ps),
    ensures
        added_by(s0, mn, ps + meetings_of(w, met)),
        fresh_meetings(s0, mn, ps + meetings_of(w, met)),
        pairs_views(ps + meetings_of(w, met), s0.entities_map@) == pairs_views(ps, s0.entities_map@) + pair_views(w, met, mc),
{
    let m0 = s0.entities_map@;
    let k4 = set![2usize, 7usize, 18usize, 20usize];
    let sol = solid_cells(s0);
    let qs = meetings_of(w, met);
    let all = ps + qs;
    assert(m0.contains_key(w));
    lemma_sight_kept(m0[w], mc[w], k4);
    // what the entities met were, and that they had not viewed w at the start
    assert forall|v: usize| #[trigger] met.contains(v) implies {
        &&& viewable_ids(s0).contains(v)
        &&& sees(m0[w], sol, position_of(m0[v])->0)
        &&& can_be_viewed(m0[v])
        &&& can_be_viewed(m0[w])
        &&& view_type(mc[v]) == view_type(m0[v])
        &&& !view_list(m0[v]).contains(w)
    } by {
        assert(vb.to_set().contains(v));
        assert(m0.contains_key(v));
        lemma_entry_kept(m0, mc, k4, v, 0);
        assert(can_be_viewed(m0[v]));
        assert(can_be_viewed(m0[w]));
        assert(lookout_grew(m0[v], mc[v], |y: usize| met_in_sight(s0, v, y)));
        if view_list(m0[v]).contains(w) {
            lemma_grew_contains(m0[v], mc[v], |y: usize| met_in_sight(s0, v, y), w);
        }
    }
    if met.len() > 0 {
        assert(met.contains(met[0]));
        assert(lookout_grew(m0[w], mc[w], |y: usize| met_in_sight(s0, w, y)));
        lemma_pair_views_same(w, met, m0, mc);
    } else {
        assert(pair_views(w, met, mc) == pair_views(w, met, m0));
    }
    lemma_pair_views_pairs(w, met, m0);
    lemma_pairs_views_concat(ps, qs, m0);
    // each meeting
    assert forall|k: int| 0 <= k < all.len() implies {
        let a = (#[trigger] all[k]).0;
        let b = all[k].1;
        &&& a != b
        &&& viewer_ids(s0).contains(a)
        &&& viewable_ids(s0).contains(b)
        &&& sees(m0[a], sol, position_of(m0[b])->0)
        &&& !view_list(m0[b]).contains(a)
        &&& view_list(mn[b]).contains(a)
        &&& view_list(mn[a]).contains(b)
    } by {
        if k < ps.len() {
            assert(all[k] == ps[k]);
            let a = ps[k].0;
            let b = ps[k].1;
            assert(m0.contains_key(a) && m0.contains_key(b));
            assert(can_be_viewed(m0[b]));
            assert(can_be_viewed(m0[a]));
            lemma_kind_kept(m0[a], mc[a], k4, 20);
            lemma_kind_kept(m0[b], mc[b], k4, 20);
        } else {
            let v = met[k - ps.len()];
            assert(all[k] == (w, v));
            assert(met.contains(v));
        }
    }
    // every entity added to a look-out came with a meeting
    assert forall|x: usize, y: usize|
        #[trigger] view_list(mn[x]).contains(y) && m0.contains_key(x) && m0[x].wf() && has_kind(m0[x].components@, 20)
            && !view_list(m0[x]).contains(y) implies all.contains((y, x)) || all.contains((x, y)) by {
        lemma_kind_kept(m0[x], mc[x], k4, 20);
        if view_list(mc[x]).contains(y) {
            if ps.contains((y, x)) {
                let i = choose|i: int| 0 <= i < ps.len() && ps[i] == (y, x);
                assert(all[i] == (y, x));
            } else {
                let i = choose|i: int| 0 <= i < ps.len() && ps[i] == (x, y);
                assert(all[i] == (x, y));
            }
        } else if x == w && met.contains(y) {
            let i = choose|i: int| 0 <= i < met.len() && met[i] == y;
            assert(all[ps.len() + i] == (x, y));
        } else {
            let i = choose|i: int| 0 <= i < met.len() && met[i] == x;
            assert(all[ps.len() + i] == (y, x));
        }
    }
    // no meeting twice
    assert forall|k: int, l: int| 0 <= k < l < all.len() implies (#[trigger] all[k]) != (#[trigger] all[l]) && all[k] != (
        all[l].1,
        all[l].0,
    ) by {
        if l < ps.len() {
            assert(all[k] == ps[k] && all[l] == ps[l]);
        } else if k < ps.len() {
            let v = met[l - ps.len()];
            assert(met.contains(v));
            assert(all[l] == (w, v));
            let a = ps[k].0;
            let b = ps[k].1;
            assert(all[k] == ps[k]);
            if ps[k] == (w, v) || ps[k] == (v, w) {
                assert(m0.contains_key(v));
                assert(can_be_viewed(m0[v]));
                lemma_kind_kept(m0[v], mc[v], k4, 20);
                assert(view_list(mc[v]).contains(w));
            }
        } else {
            let v1 = met[k - ps.len()];
            let v2 = met[l - ps.len()];
            assert(met.contains(v2));
            assert(all[k] == (w, v1) && all[l] == (w, v2));
        }
    }
}


/// Two entities that met in one sight do not meet again in the next, in
/// either order: each has the other on its look-out after the first.
pub proof fn lemma_meetings_once(s0: State, s1: State, s2: State, ps1: Seq<(usize, usize)>, ps2: Seq<(usize, usize)>)
    requires
        fresh_meetings(s0, s1.entities_map@, ps1),
        fresh_meetings(s1, s2.entities_map@, ps2),
    ensures
        forall|k: int, l: int|
            0 <= k < ps1.len() && 0 <= l < ps2.len() ==> (#[trigger] ps2[l]) != (#[trigger] ps1[k]) && ps2[l] != (
                ps1[k].1,
                ps1[k].0,
            ),
{
    assert forall|k: int, l: int| 0 <= k < ps1.len() && 0 <= l < ps2.len() implies (#[trigger] ps2[l]) != (#[trigger] ps1[k])
        && ps2[l] != (ps1[k].1, ps1[k].0) by {
        let a = ps1[k].0;
        let b = ps1[k].1;
        assert(view_list(s1.entities_map@[b]).contains(a));
        assert(view_list(s1.entities_map@[a]).contains(b));
        assert(!view_list(s1.entities_map@[ps2[l].1]).contains(ps2[l].0));
    }
}

/// The entities that can see: those with a view distance.
pub open spec fn viewer_ids(s: State) -> Set<usize> {
    shown(s, seq![Component::ViewDistance(None)])
}

/// The entities that can be seen: those with a look-out.
pub open spec fn viewable_ids(s: State) -> Set<usize> {
    shown(s, seq![Component::Viewable(None)])
}

/// The hidden entities with a position.
pub open spec fn hidden_ids(s: State) -> Set<usize> {
    shown(s, seq![Component::Hidden(None), Component::Position(None)])
}

/// The solid entities with a position.
pub open spec fn solid_ids(s: State) -> Set<usize> {
    shown(s, seq![Component::Position(None), Component::Solid])
}

/// The cells that block sight: those of the solid entities.
pub open spec fn solid_cells(s: State) -> Set<Position> {
    Set::new(|p: Position| exists|id: usize| #[trigger] solid_ids(s).contains(id) && position_of(s.entities_map@[id]) == Some(p))
}

/// Some viewer that clears fog sees the cell `p`.
pub open spec fn seen_by_fog_viewer(s: State, p: Position) -> bool {
    exists|w: usize|
        #[trigger] viewer_ids(s).contains(w) && affects_fog(s.entities_map@[w]) && sees(s.entities_map@[w], solid_cells(s), p)
}

/// Some viewer that clears fog reaches the cell `p`.
pub open spec fn reached_by_fog_viewer(s: State, p: Position) -> bool {
    exists|w: usize|
        #[trigger] viewer_ids(s).contains(w) && affects_fog(s.entities_map@[w]) && reaches(s.entities_map@[w], solid_cells(s), p)
}

/// `x` and `y` met: one of them is a viewer that sees the other, a viewable
/// entity other than itself.
pub open spec fn met_in_sight(s: State, x: usize, y: usize) -> bool {
    ||| viewer_ids(s).contains(x) && viewable_ids(s).contains(y) && y != x && sees(
        s.entities_map@[x],
        solid_cells(s),
        position_of(s.entities_map@[y])->0,
    )
    ||| viewer_ids(s).contains(y) && viewable_ids(s).contains(x) && x != y && sees(
        s.entities_map@[y],
        solid_cells(s),
        position_of(s.entities_map@[x])->0,
    )
}

/// Every entity of `ids` exists and is well formed.
pub open spec fn present(s: State, ids: Set<usize>) -> bool {
    forall|id: usize| #[trigger] ids.contains(id) ==> s.entities_map@.contains_key(id) && s.entities_map@[id].wf()
}

/// Every entity of `ids` has a position.
pub open spec fn all_placed(s: State, ids: Set<usize>) -> bool {
    forall|id: usize|
        #[trigger] ids.contains(id) ==> has_kind(s.entities_map@[id].components@, 0) && position_of(s.entities_map@[id]) is Some
}

/// What sight reads is there: the entities it works on exist; fog says
/// whether it was uncovered and can be drawn over, and has a position where
/// some viewer may clear it; hidden and solid entities have positions;
/// viewers have positions and view distances that keep their squares of
/// sight in range; entities that another viewer may see have positions and
/// look-outs, and so does a viewer that sees one.
pub open spec fn sight_ready(s: State, fog: Set<usize>) -> bool {
    &&& s.wf()
    &&& present(s, fog)
    &&& present(s, viewer_ids(s))
    &&& present(s, viewable_ids(s))
    &&& present(s, hidden_ids(s))
    &&& present(s, solid_ids(s))
    &&& forall|f: usize| #[trigger] fog.contains(f) ==> {
        let e = s.entities_map@[f];
        &&& has_kind(e.components@, 18)
        &&& fog_of(e) is Some
        &&& has_kind(e.components@, 2)
    }
    &&& (s.fog_enabled && exists|w: usize| #[trigger] viewer_ids(s).contains(w) && affects_fog(s.entities_map@[w])) ==> all_placed(
        s,
        fog,
    )
    &&& all_placed(s, hidden_ids(s))
    &&& forall|h: usize| #[trigger] hidden_ids(s).contains(h) ==> has_kind(s.entities_map@[h].components@, 7)
    &&& all_placed(s, solid_ids(s))
    &&& forall|w: usize| #[trigger] viewer_ids(s).contains(w) ==> can_look(s.entities_map@[w])
    &&& forall|v: usize, w: usize|
        #[trigger] viewable_ids(s).contains(v) && #[trigger] viewer_ids(s).contains(w) && v != w ==> {
            let e = s.entities_map@[v];
            &&& has_kind(e.components@, 0)
            &&& position_of(e) is Some
            &&& can_be_viewed(e)
        }
    &&& forall|v: usize, w: usize|
        #[trigger] viewable_ids(s).contains(v) && #[trigger] viewer_ids(s).contains(w) && v != w && sees(
            s.entities_map@[w],
            solid_cells(s),
            position_of(s.entities_map@[v])->0,
        ) ==> can_be_viewed(s.entities_map@[w])
}

/// The positions of the entities `ids`.
fn positions_of(state: &State, ids: &Vec<usize>) -> (cells: Vec<Position>)
    requires
        forall|i: int| 0 <= i < ids@.len() ==> {
            let id = #[trigger] ids@[i];
            &&& state.entities_map@.contains_key(id)
            &&& state.entities_map@[id].wf()
            &&& has_kind(state.entities_map@[id].components@, 0)
            &&& position_of(state.entities_map@[id]) is Some
        },
    ensures
        forall|p: Position| #[trigger] cells@.contains(p) <==> exists|i: int|
            0 <= i < ids@.len() && position_of(state.entities_map@[#[trigger] ids@[i]]) == Some(p),
{
    let mut cells: Vec<Position> = Vec::new();
    let mut i: usize = 0;
    while i < ids.len()
        invariant
            i <= ids@.len(),
            forall|j: int| 0 <= j < ids@.len() ==> {
                let id = #[trigger] ids@[j];
                &&& state.entities_map@.contains_key(id)
                &&& state.entities_map@[id].wf()
                &&& has_kind(state.entities_map@[id].components@, 0)
                &&& position_of(state.entities_map@[id]) is Some
            },
            cells@.len() == i,
            forall|j: int| 0 <= j < i ==> Some(#[trigger] cells@[j]) == position_of(state.entities_map@[ids@[j]]),
        decreases ids@.len() - i,
    {
        let id = ids[i];
        assert(ids@[i as int] == id);
        let p = position_in(state, id);
        cells.push(p);
        i = i + 1;
    }
    proof {
        assert forall|p: Position| #[trigger] cells@.contains(p) <==> exists|i: int|
            0 <= i < ids@.len() && position_of(state.entities_map@[#[trigger] ids@[i]]) == Some(p) by {
            if cells@.contains(p) {
                let j = choose|j: int| 0 <= j < cells@.len() && cells@[j] == p;
                assert(position_of(state.entities_map@[ids@[j]]) == Some(p));
            }
            if exists|i: int| 0 <= i < ids@.len() && position_of(state.entities_map@[#[trigger] ids@[i]]) == Some(p) {
                let j = choose|j: int| 0 <= j < ids@.len() && position_of(state.entities_map@[#[trigger] ids@[j]]) == Some(p);
                assert(cells@[j] == p);
            }
        }
    }
    cells
}

proof fn lemma_kind_iff(e0: Entity, e1: Entity, kinds: Set<usize>, k: nat)
    requires
        only_slots_changed(e0, e1, kinds),
        e0.wf(),
        k <= usize::MAX,
    ensures
        has_kind(e0.components@, k) <==> has_kind(e1.components@, k),
{
    assert(e1.wf());
    assert(e0.component_index@.contains_key(k as usize) <==> has_kind(e0.components@, k as usize as nat));
    assert(e1.component_index@.contains_key(k as usize) <==> has_kind(e1.components@, k as usize as nat));
}

proof fn lemma_grew_trans(e0: Entity, e1: Entity, e2: Entity, ok1: spec_fn(usize) -> bool, ok2: spec_fn(usize) -> bool)
    requires
        lookout_grew(e0, e1, ok1),
        lookout_grew(e1, e2, ok2),
        forall|y: usize| #[trigger] ok2(y) ==> ok1(y),
    ensures
        lookout_grew(e0, e2, ok1),
{
    let l0 = view_list(e0);
    let l1 = view_list(e1);
    let l2 = view_list(e2);
    assert(l2.take(l0.len() as int) =~= l2.take(l1.len() as int).take(l0.len() as int));
    assert forall|i: int| l0.len() <= i < l2.len() implies ok1(#[trigger] l2[i]) by {
        if i < l1.len() {
            assert(l2.take(l1.len() as int)[i] == l2[i]);
            assert(ok1(l1[i]));
        } else {
            assert(ok2(l2[i]));
        }
    }
}

proof fn lemma_grew_contains(e0: Entity, e1: Entity, ok: spec_fn(usize) -> bool, y: usize)
    requires
        lookout_grew(e0, e1, ok),
        view_list(e0).contains(y),
    ensures
        view_list(e1).contains(y),
{
    let i = choose|i: int| 0 <= i < view_list(e0).len() && view_list(e0)[i] == y;
    assert(view_list(e1).take(view_list(e0).len() as int)[i] == y);
    assert(view_list(e1)[i] == y);
}

proof fn lemma_sight_events_weaken(e0: Seq<Event>, e1: Seq<Event>, met1: spec_fn(usize, usize) -> bool, met2: spec_fn(usize, usize) -> bool)
    requires
        sight_events(e0, e1, met1),
        forall|a: usize, b: usize| #[trigger] met1(a, b) ==> met2(a, b),
    ensures
        sight_events(e0, e1, met2),
{
    assert forall|i: int| e0.len() <= i < e1.len() implies sight_event(#[trigger] e1[i], met2) by {
        assert(sight_event(e1[i], met1));
    }
}

/// Some of the first `k` viewers clears fog and sees the cell `p`.
pub open spec fn fog_seen_among(m: Map<usize, Entity>, ws: Seq<usize>, k: int, sol: Set<Position>, p: Position) -> bool {
    exists|j: int| 0 <= j < k && affects_fog(m[#[trigger] ws[j]]) && sees(m[ws[j]], sol, p)
}

/// Some of the first `k` viewers clears fog and reaches the cell `p`.
pub open spec fn fog_reached_among(m: Map<usize, Entity>, ws: Seq<usize>, k: int, sol: Set<Position>, p: Position) -> bool {
    exists|j: int| 0 <= j < k && affects_fog(m[#[trigger] ws[j]]) && reaches(m[ws[j]], sol, p)
}

/// The cell `p` lies in the sight of viewer `w` on the map `m`; only the
/// viewer's position and view distance count.
proof fn lemma_sight_kept(e0: Entity, e1: Entity, kinds: Set<usize>)
    requires
        only_slots_changed(e0, e1, kinds),
        e0.wf(),
        can_look(e0),
        !kinds.contains(0usize),
        !kinds.contains(21usize),
        !kinds.contains(13usize),
    ensures
        position_of(e1) == position_of(e0),
        view_distance_of(e1) == view_distance_of(e0),
        can_look(e1),
        affects_fog(e1) == affects_fog(e0),
        forall|sol: Set<Position>, p: Position| sees(e1, sol, p) == sees(e0, sol, p) && reaches(e1, sol, p) == reaches(e0, sol, p),
{
    lemma_slot_kept(e0, e1, kinds, 0);
    lemma_slot_kept(e0, e1, kinds, 21);
    lemma_kind_iff(e0, e1, kinds, 13);
}

/// A meeting while viewer `w` looked, on the entities as they were then, is
/// a meeting in the sight of the entities as they were at the start.
proof fn lemma_met_then_met(s0: State, mc: Map<usize, Entity>, w: usize, vb: Seq<usize>, a: usize, b: usize)
    requires
        sight_ready(s0, Set::empty()),
        viewer_ids(s0).contains(w),
        vb.to_set() == viewable_ids(s0),
        changed_only(s0.entities_map@, mc, set![2usize, 7usize, 18usize, 20usize]),
        met_through(mc, w, vb, solid_cells(s0), a, b),
    ensures
        met_in_sight(s0, a, b),
{
    let m0 = s0.entities_map@;
    let k4 = set![2usize, 7usize, 18usize, 20usize];
    lemma_sight_kept(m0[w], mc[w], k4);
    if a == w && vb.contains(b) && b != w && sees(mc[w], solid_cells(s0), position_of(mc[b])->0) {
        assert(vb.to_set().contains(b));
        assert(viewable_ids(s0).contains(b) && viewer_ids(s0).contains(w) && b != w);
        lemma_entry_kept(m0, mc, k4, b, 0);
    } else {
        assert(vb.to_set().contains(a));
        assert(viewable_ids(s0).contains(a) && viewer_ids(s0).contains(w) && a != w);
        lemma_entry_kept(m0, mc, k4, a, 0);
    }
}

/// Works out what the viewers see. The fog entities are those indexed under
/// the kinds of `components`. Fog is drawn as its state says; each viewer
/// that clears fog uncovers the hidden entities its rays reach and, where the
/// fog is on, clears the fog it sees; each viewer meets the viewables it
/// sees that had not viewed it, the two recording each other and the views
/// being announced. Viewers are taken in the order the index yields them.
#[verifier::spinoff_prover]
#[verifier::rlimit(60)]
pub fn sight(state: &mut State, components: &[Component])
    requires
        sight_ready(*old(state), shown(*old(state), components@)),
    ensures
        final(state).wf(),
        final(state).component_map == old(state).component_map,
        final(state).fog_enabled == old(state).fog_enabled,
        final(state).entity_id_counter == old(state).entity_id_counter,
        final(state).system_components == old(state).system_components,
        ({
            let s0 = *old(state);
            let m0 = s0.entities_map@;
            let m1 = final(state).entities_map@;
            let fog = shown(s0, components@);
            &&& changed_only(m0, m1, set![2usize, 7usize, 18usize, 20usize])
            &&& forall|h: usize| #[trigger] hidden_ids(s0).contains(h) ==> component_of(m1[h], 7) == if reached_by_fog_viewer(
                s0,
                position_of(m0[h])->0,
            ) {
                Component::Hidden(Some(false))
            } else {
                component_of(m0[h], 7)
            }
            &&& forall|id: usize| !hidden_ids(s0).contains(id) && #[trigger] m0.contains_key(id) && m0[id].wf() && has_kind(
                m0[id].components@,
                7,
            ) ==> component_of(m1[id], 7) == component_of(m0[id], 7)
            &&& forall|f: usize| #[trigger] fog.contains(f) ==> if s0.fog_enabled && seen_by_fog_viewer(s0, position_of(m0[f])->0) {
                &&& fog_of(m1[f]) == Some(true)
                &&& component_of(m1[f], 2) == Component::RenderFg(None)
            } else {
                &&& component_of(m1[f], 18) == component_of(m0[f], 18)
                &&& fog_drawing(s0.fog_enabled, m0[f], component_of(m1[f], 2))
            }
            &&& forall|id: usize| !fog.contains(id) && #[trigger] m0.contains_key(id) && m0[id].wf() ==> (has_kind(
                m0[id].components@,
                2,
            ) ==> component_of(m1[id], 2) == component_of(m0[id], 2)) && (has_kind(m0[id].components@, 18)
                ==> component_of(m1[id], 18) == component_of(m0[id], 18))
            &&& forall|x: usize| #[trigger] m0.contains_key(x) && m0[x].wf() && has_kind(m0[x].components@, 20) ==> if can_be_viewed(m0[x])
                && (viewer_ids(s0).contains(x) || viewable_ids(s0).contains(x)) {
                lookout_grew(m0[x], m1[x], |y: usize| met_in_sight(s0, x, y))
            } else {
                component_of(m1[x], 20) == component_of(m0[x], 20)
            }
            &&& forall|v: usize, w: usize|
                #[trigger] viewable_ids(s0).contains(v) && #[trigger] viewer_ids(s0).contains(w) && v != w && sees(
                    m0[w],
                    solid_cells(s0),
                    position_of(m0[v])->0,
                ) ==> view_list(m1[v]).contains(w)
            &&& sight_events(s0.events@, final(state).events@, |a: usize, b: usize| met_in_sight(s0, a, b))
            &&& exists|ps: Seq<(usize, usize)>|
                {
                    &&& #[trigger] fresh_meetings(s0, m1, ps)
                    &&& views_in(final(state).events@) == views_in(s0.events@) + pairs_views(ps, m0)
                    &&& forall|v: usize, w: usize|
                        #[trigger] viewable_ids(s0).contains(v) && #[trigger] viewer_ids(s0).contains(w) && v != w && sees(
                            m0[w],
                            solid_cells(s0),
                            position_of(m0[v])->0,
                        ) && !view_list(m0[v]).contains(w) ==> ps.contains((w, v)) || ps.contains((v, w))
                }
        }),
{
    let ghost s0 = *state;
    let ghost m0 = s0.entities_map@;
    let ghost fset = shown(s0, components@);
    let ghost k4 = set![2usize, 7usize, 18usize, 20usize];
    let ghost met = |a: usize, b: usize| met_in_sight(s0, a, b);
    let fog = set_elements(state.get_entities(components));
    let key_viewers = vec![Component::ViewDistance(None)];
    let key_viewables = vec![Component::Viewable(None)];
    let key_hidden = vec![Component::Hidden(None), Component::Position(None)];
    let key_solid = vec![Component::Position(None), Component::Solid];
    assert(key_viewers@ =~= seq![Component::ViewDistance(None)]);
    assert(key_viewables@ =~= seq![Component::Viewable(None)]);
    assert(key_hidden@ =~= seq![Component::Hidden(None), Component::Position(None)]);
    assert(key_solid@ =~= seq![Component::Position(None), Component::Solid]);
    let viewers = set_elements(state.get_entities(key_viewers.as_slice()));
    let viewables = set_elements(state.get_entities(key_viewables.as_slice()));
    let hidden = set_elements(state.get_entities(key_hidden.as_slice()));
    let solid_list = set_elements(state.get_entities(key_solid.as_slice()));
    let ghost sol = solid_cells(s0);
    proof {
        assert forall|i: int| 0 <= i < solid_list@.len() implies {
            let id = #[trigger] solid_list@[i];
            &&& state.entities_map@.contains_key(id)
            &&& state.entities_map@[id].wf()
            &&& has_kind(state.entities_map@[id].components@, 0)
            &&& position_of(state.entities_map@[id]) is Some
        } by {
            assert(solid_list@.to_set().contains(solid_list@[i]));
        }
    }
    let solid = positions_of(state, &solid_list);
    proof {
        assert(solid@.to_set() =~= sol) by {
            assert forall|p: Position| solid@.to_set().contains(p) <==> sol.contains(p) by {
                if solid@.contains(p) {
                    let i = choose|i: int| 0 <= i < solid_list@.len() && position_of(m0[#[trigger] solid_list@[i]]) == Some(p);
                    assert(solid_list@.to_set().contains(solid_list@[i]));
                }
                if sol.contains(p) {
                    let id = choose|id: usize| #[trigger] solid_ids(s0).contains(id) && position_of(m0[id]) == Some(p);
                    assert(solid_list@.to_set().contains(id));
                    let i = solid_list@.index_of(id);
                    assert(solid_list@[i] == id);
                }
            }
        }
    }
    proof {
        assert forall|i: int| 0 <= i < fog@.len() implies #[trigger] s0.entities_map@.contains_key(fog@[i]) && s0.entities_map@[fog@[i]].wf() by {
            assert(fog@.to_set().contains(fog@[i]));
        }
        assert forall|i: int| 0 <= i < fog@.len() implies {
            let e = #[trigger] s0.entities_map@[fog@[i]];
            &&& has_kind(e.components@, 18)
            &&& fog_of(e) is Some
            &&& has_kind(e.components@, 2)
        } by {
            assert(fog@.to_set().contains(fog@[i]));
        }
    }
    mark_fog(state, &fog);
    let ghost s_m = *state;
    let ghost mut ps: Seq<(usize, usize)> = Seq::empty();
    proof {
        lemma_changed_only_widen(m0, s_m.entities_map@, set![2usize], k4);
        lemma_sight_events_from_changes(s0.events@, s_m.events@, set![2usize], met);
        lemma_views_changes(s0.events@, s_m.events@, set![2usize]);
        assert(views_in(s0.events@) + pairs_views(ps, m0) =~= views_in(s0.events@));
        assert forall|x: usize, y: usize|
            #[trigger] view_list(s_m.entities_map@[x]).contains(y) && m0.contains_key(x) && m0[x].wf() && has_kind(m0[x].components@, 20)
                && !view_list(m0[x]).contains(y) implies ps.contains((y, x)) || ps.contains((x, y)) by {
            lemma_entry_kept(m0, s_m.entities_map@, set![2usize], x, 20);
        }
        let mm = s_m.entities_map@;
        assert forall|i: int| 0 <= i < hidden@.len() implies component_of(#[trigger] mm[hidden@[i]], 7) == if fog_reached_among(
            m0,
            viewers@,
            0,
            sol,
            position_of(m0[hidden@[i]])->0,
        ) {
            Component::Hidden(Some(false))
        } else {
            component_of(m0[hidden@[i]], 7)
        } by {
            let h = hidden@[i];
            assert(hidden@.to_set().contains(h));
            lemma_entry_kept(m0, mm, set![2usize], h, 7);
        }
        assert forall|id: usize| !hidden@.contains(id) && #[trigger] m0.contains_key(id) && m0[id].wf() && has_kind(
            m0[id].components@,
            7,
        ) implies component_of(mm[id], 7) == component_of(m0[id], 7) by {
            lemma_entry_kept(m0, mm, set![2usize], id, 7);
        }
        assert forall|i: int| 0 <= i < fog@.len() implies {
            let f = fog@[i];
            let e1 = #[trigger] mm[fog@[i]];
            if s0.fog_enabled && fog_seen_among(m0, viewers@, 0, sol, position_of(m0[f])->0) {
                &&& fog_of(e1) == Some(true)
                &&& component_of(e1, 2) == Component::RenderFg(None)
            } else {
                &&& component_of(e1, 18) == component_of(m0[f], 18)
                &&& fog_drawing(s0.fog_enabled, m0[f], component_of(e1, 2))
            }
        } by {
            let f = fog@[i];
            assert(fog@.to_set().contains(f));
            lemma_entry_kept(m0, mm, set![2usize], f, 18);
        }
        assert forall|x: usize| #[trigger] m0.contains_key(x) && m0[x].wf() && has_kind(m0[x].components@, 20) implies if can_be_viewed(m0[x])
            && (viewer_ids(s0).contains(x) || viewable_ids(s0).contains(x)) {
            lookout_grew(m0[x], mm[x], |y: usize| met_in_sight(s0, x, y))
        } else {
            component_of(mm[x], 20) == component_of(m0[x], 20)
        } by {
            lemma_entry_kept(m0, mm, set![2usize], x, 20);
            assert(view_list(mm[x]).take(view_list(m0[x]).len() as int) =~= view_list(m0[x]));
        }
    }
    let mut k: usize = 0;
    while k < viewers.len()
        invariant
            k <= viewers@.len(),
            viewers@.to_set() == viewer_ids(s0),
            viewers@.no_duplicates(),
            viewables@.to_set() == viewable_ids(s0),
            viewables@.no_duplicates(),
            hidden@.to_set() == hidden_ids(s0),
            hidden@.no_duplicates(),
            fog@.to_set() == fset,
            fog@.no_duplicates(),
            fset == shown(s0, components@),
            solid@.to_set() == sol,
            sol == solid_cells(s0),
            m0 == s0.entities_map@,
            k4 == set![2usize, 7usize, 18usize, 20usize],
            met == (|a: usize, b: usize| met_in_sight(s0, a, b)),
            sight_ready(s0, fset),
            state.wf(),
            state.component_map == s0.component_map,
            state.empty_entites_set == s0.empty_entites_set,
            state.fog_enabled == s0.fog_enabled,
            state.entity_id_counter == s0.entity_id_counter,
            state.system_components == s0.system_components,
            changed_only(m0, state.entities_map@, k4),
            forall|i: int| 0 <= i < hidden@.len() ==> component_of(#[trigger] state.entities_map@[hidden@[i]], 7) == if fog_reached_among(
                m0,
                viewers@,
                k as int,
                sol,
                position_of(m0[hidden@[i]])->0,
            ) {
                Component::Hidden(Some(false))
            } else {
                component_of(m0[hidden@[i]], 7)
            },
            forall|id: usize| !hidden@.contains(id) && #[trigger] m0.contains_key(id) && m0[id].wf() && has_kind(
                m0[id].components@,
                7,
            ) ==> component_of(state.entities_map@[id], 7) == component_of(m0[id], 7),
            forall|i: int| 0 <= i < fog@.len() ==> {
                let f = fog@[i];
                let e1 = #[trigger] state.entities_map@[fog@[i]];
                if s0.fog_enabled && fog_seen_among(m0, viewers@, k as int, sol, position_of(m0[f])->0) {
                    &&& fog_of(e1) == Some(true)
                    &&& component_of(e1, 2) == Component::RenderFg(None)
                } else {
                    &&& component_of(e1, 18) == component_of(m0[f], 18)
                    &&& fog_drawing(s0.fog_enabled, m0[f], component_of(e1, 2))
                }
            },
            forall|id: usize| !fog@.contains(id) && #[trigger] m0.contains_key(id) && m0[id].wf() ==> (has_kind(
                m0[id].components@,
                2,
            ) ==> component_of(state.entities_map@[id], 2) == component_of(m0[id], 2)) && (has_kind(m0[id].components@, 18)
                ==> component_of(state.entities_map@[id], 18) == component_of(m0[id], 18)),
            forall|x: usize| #[trigger] m0.contains_key(x) && m0[x].wf() && has_kind(m0[x].components@, 20) ==> if can_be_viewed(m0[x])
                && (viewer_ids(s0).contains(x) || viewable_ids(s0).contains(x)) {
                lookout_grew(m0[x], state.entities_map@[x], |y: usize| met_in_sight(s0, x, y))
            } else {
                component_of(state.entities_map@[x], 20) == component_of(m0[x], 20)
            },
            forall|v: usize, j: int|
                #[trigger] viewable_ids(s0).contains(v) && 0 <= j < k && v != #[trigger] viewers@[j] && sees(
                    m0[viewers@[j]],
                    sol,
                    position_of(m0[v])->0,
                ) ==> view_list(state.entities_map@[v]).contains(viewers@[j]),
            sight_events(s0.events@, state.events@, met),
            fresh_meetings(s0, state.entities_map@, ps),
            added_by(s0, state.entities_map@, ps),
            views_in(state.events@) == views_in(s0.events@) + pairs_views(ps, m0),
        decreases viewers@.len() - k,
    {
        let w = viewers[k];
        let ghost cur = *state;
        let ghost mc = cur.entities_map@;
        proof {
            assert(viewers@.to_set().contains(w));
            assert(viewer_ids(s0).contains(w));
            assert(m0.contains_key(w));
            lemma_sight_kept(m0[w], mc[w], k4);
            assert forall|i: int| 0 <= i < fog@.len() implies #[trigger] mc.contains_key(fog@[i]) && mc[fog@[i]].wf() by {
                assert(fog@.to_set().contains(fog@[i]));
            }
            assert forall|i: int| 0 <= i < fog@.len() implies {
                let e = #[trigger] mc[fog@[i]];
                &&& has_kind(e.components@, 18)
                &&& fog_of(e) is Some
                &&& has_kind(e.components@, 2)
            } by {
                let f = fog@[i];
                assert(fog@.to_set().contains(f));
                lemma_kind_kept(m0[f], mc[f], k4, 18);
                lemma_kind_kept(m0[f], mc[f], k4, 2);
            }
            if cur.fog_enabled && affects_fog(mc[w]) {
                assert(all_placed(s0, fset));
                assert forall|i: int| 0 <= i < fog@.len() implies {
                    let e = #[trigger] mc[fog@[i]];
                    &&& has_kind(e.components@, 0)
                    &&& position_of(e) is Some
                } by {
                    let f = fog@[i];
                    assert(fog@.to_set().contains(f));
                    lemma_entry_kept(m0, mc, k4, f, 0);
                }
            }
            assert forall|i: int| 0 <= i < hidden@.len() implies #[trigger] mc.contains_key(hidden@[i]) && mc[hidden@[i]].wf() by {
                assert(hidden@.to_set().contains(hidden@[i]));
            }
            assert forall|i: int| 0 <= i < hidden@.len() implies {
                let e = #[trigger] mc[hidden@[i]];
                &&& has_kind(e.components@, 0)
                &&& position_of(e) is Some
            } by {
                let h = hidden@[i];
                assert(hidden@.to_set().contains(h));
                lemma_entry_kept(m0, mc, k4, h, 0);
            }
            assert forall|i: int| 0 <= i < hidden@.len() implies has_kind((#[trigger] mc[hidden@[i]]).components@, 7) by {
                let h = hidden@[i];
                assert(hidden@.to_set().contains(h));
                lemma_kind_kept(m0[h], mc[h], k4, 7);
            }
            assert forall|i: int| 0 <= i < viewables@.len() implies #[trigger] mc.contains_key(viewables@[i]) && mc[viewables@[i]].wf() by {
                assert(viewables@.to_set().contains(viewables@[i]));
            }
            assert forall|j: int| 0 <= j < viewables@.len() && viewables@[j] != w implies {
                let e = #[trigger] mc[viewables@[j]];
                &&& has_kind(e.components@, 0)
                &&& position_of(e) is Some
                &&& can_be_viewed(e)
            } by {
                let v = viewables@[j];
                assert(viewables@.to_set().contains(v));
                assert(viewable_ids(s0).contains(v) && viewer_ids(s0).contains(w) && v != w);
                lemma_entry_kept(m0, mc, k4, v, 0);
                assert(lookout_grew(m0[v], mc[v], |y: usize| met_in_sight(s0, v, y)));
            }
            assert forall|j: int| 0 <= j < viewables@.len() && viewables@[j] != w && sees(
                mc[w],
                solid@.to_set(),
                position_of(#[trigger] mc[viewables@[j]])->0,
            ) implies can_be_viewed(mc[w]) by {
                let v = viewables@[j];
                assert(viewables@.to_set().contains(v));
                lemma_entry_kept(m0, mc, k4, v, 0);
                assert(viewable_ids(s0).contains(v) && viewer_ids(s0).contains(w) && v != w);
                assert(can_be_viewed(m0[w]));
                assert(lookout_grew(m0[w], mc[w], |y: usize| met_in_sight(s0, w, y)));
            }
        }
        look(state, w, &fog, &hidden, &viewables, &solid);
        proof {
            let nx = state.entities_map@;
            assert(viewers@[k as int] == w);
            assert(sight_ready(s0, Set::empty()));
            lemma_changed_only_trans(m0, mc, nx, k4);
            // hidden
            assert forall|i: int| 0 <= i < hidden@.len() implies component_of(#[trigger] nx[hidden@[i]], 7) == if fog_reached_among(
                m0,
                viewers@,
                k + 1,
                sol,
                position_of(m0[hidden@[i]])->0,
            ) {
                Component::Hidden(Some(false))
            } else {
                component_of(m0[hidden@[i]], 7)
            } by {
                let h = hidden@[i];
                let p = position_of(m0[h])->0;
                assert(hidden@.to_set().contains(h));
                lemma_entry_kept(m0, mc, k4, h, 0);
                if affects_fog(m0[w]) && reaches(m0[w], sol, p) {
                    assert(affects_fog(m0[viewers@[k as int]]) && reaches(m0[viewers@[k as int]], sol, p));
                    assert(fog_reached_among(m0, viewers@, k + 1, sol, p));
                } else if fog_reached_among(m0, viewers@, k + 1, sol, p) {
                    let j = choose|j: int| 0 <= j < k + 1 && affects_fog(m0[#[trigger] viewers@[j]]) && reaches(m0[viewers@[j]], sol, p);
                    assert(j != k);
                    assert(fog_reached_among(m0, viewers@, k as int, sol, p));
                } else {
                    if fog_reached_among(m0, viewers@, k as int, sol, p) {
                        let j = choose|j: int| 0 <= j < k && affects_fog(m0[#[trigger] viewers@[j]]) && reaches(m0[viewers@[j]], sol, p);
                        assert(fog_reached_among(m0, viewers@, k + 1, sol, p));
                    }
                }
            }
            assert forall|id: usize| !hidden@.contains(id) && #[trigger] m0.contains_key(id) && m0[id].wf() && has_kind(
                m0[id].components@,
                7,
            ) implies component_of(nx[id], 7) == component_of(m0[id], 7) by {
                lemma_kind_kept(m0[id], mc[id], k4, 7);
            }
            // fog
            assert forall|i: int| 0 <= i < fog@.len() implies {
                let f = fog@[i];
                let e1 = #[trigger] nx[fog@[i]];
                if s0.fog_enabled && fog_seen_among(m0, viewers@, k + 1, sol, position_of(m0[f])->0) {
                    &&& fog_of(e1) == Some(true)
                    &&& component_of(e1, 2) == Component::RenderFg(None)
                } else {
                    &&& component_of(e1, 18) == component_of(m0[f], 18)
                    &&& fog_drawing(s0.fog_enabled, m0[f], component_of(e1, 2))
                }
            } by {
                let f = fog@[i];
                let p = position_of(m0[f])->0;
                assert(fog@.to_set().contains(f));
                let newly = s0.fog_enabled && affects_fog(m0[w]) && sees(m0[w], sol, p);
                if s0.fog_enabled && affects_fog(m0[w]) {
                    assert(all_placed(s0, fset));
                    lemma_entry_kept(m0, mc, k4, f, 0);
                }
                if newly {
                    assert(affects_fog(m0[viewers@[k as int]]) && sees(m0[viewers@[k as int]], sol, p));
                    assert(fog_seen_among(m0, viewers@, k + 1, sol, p));
                } else if fog_seen_among(m0, viewers@, k + 1, sol, p) {
                    let j = choose|j: int| 0 <= j < k + 1 && affects_fog(m0[#[trigger] viewers@[j]]) && sees(m0[viewers@[j]], sol, p);
                    if j == k {
                        assert(!s0.fog_enabled);
                    } else {
                        assert(fog_seen_among(m0, viewers@, k as int, sol, p));
                    }
                } else {
                    if fog_seen_among(m0, viewers@, k as int, sol, p) {
                        let j = choose|j: int| 0 <= j < k && affects_fog(m0[#[trigger] viewers@[j]]) && sees(m0[viewers@[j]], sol, p);
                        assert(fog_seen_among(m0, viewers@, k + 1, sol, p));
                    }
                }
            }
            assert forall|id: usize| !fog@.contains(id) && #[trigger] m0.contains_key(id) && m0[id].wf() implies (has_kind(
                m0[id].components@,
                2,
            ) ==> component_of(nx[id], 2) == component_of(m0[id], 2)) && (has_kind(m0[id].components@, 18)
                ==> component_of(nx[id], 18) == component_of(m0[id], 18)) by {
                lemma_kind_iff(m0[id], mc[id], k4, 2);
                lemma_kind_iff(m0[id], mc[id], k4, 18);
            }
            // look-outs
            assert forall|x: usize| #[trigger] m0.contains_key(x) && m0[x].wf() && has_kind(m0[x].components@, 20) implies if can_be_viewed(m0[x])
                && (viewer_ids(s0).contains(x) || viewable_ids(s0).contains(x)) {
                lookout_grew(m0[x], nx[x], |y: usize| met_in_sight(s0, x, y))
            } else {
                component_of(nx[x], 20) == component_of(m0[x], 20)
            } by {
                lemma_kind_kept(m0[x], mc[x], k4, 20);
                let ok_s = |y: usize| met_in_sight(s0, x, y);
                let ok_t = |y: usize| met_through(mc, w, viewables@, sol, x, y);
                if viewables@.contains(x) {
                    let jj = viewables@.index_of(x);
                    assert(viewables@.to_set().contains(x));
                }
                if can_be_viewed(m0[x]) && (viewer_ids(s0).contains(x) || viewable_ids(s0).contains(x)) {
                    assert(lookout_grew(m0[x], mc[x], ok_s));
                    if x == w || viewables@.contains(x) {
                        assert forall|y: usize| #[trigger] ok_t(y) implies ok_s(y) by {
                            lemma_met_then_met(s0, mc, w, viewables@, x, y);
                        }
                        lemma_grew_trans(m0[x], mc[x], nx[x], ok_s, ok_t);
                        assert(lookout_grew(m0[x], nx[x], ok_s));
                    } else {
                        assert(component_of(nx[x], 20) == component_of(mc[x], 20));
                        assert(mc.contains_key(x));
                        lemma_kind_kept(mc[x], nx[x], k4, 20);
                        assert(view_list(nx[x]) == view_list(mc[x]));
                        assert(view_type(nx[x]) == view_type(mc[x]));
                        assert(lookout_grew(m0[x], nx[x], ok_s));
                    }
                } else {
                    if x == w {
                        assert(viewer_ids(s0).contains(x));
                    }
                    if viewables@.contains(x) {
                        assert(viewables@.to_set().contains(x));
                    }
                    assert(component_of(mc[x], 20) == component_of(m0[x], 20));
                    assert(component_of(nx[x], 20) == component_of(mc[x], 20));
                }
            }
            // completeness
            assert forall|v: usize, j: int|
                #[trigger] viewable_ids(s0).contains(v) && 0 <= j < k + 1 && v != #[trigger] viewers@[j] && sees(
                    m0[viewers@[j]],
                    sol,
                    position_of(m0[v])->0,
                ) implies view_list(nx[v]).contains(viewers@[j]) by {
                assert(viewables@.to_set().contains(v));
                assert(viewers@.to_set().contains(viewers@[j]));
                assert(viewer_ids(s0).contains(viewers@[j]));
                assert(can_be_viewed(m0[v]));
                assert(m0.contains_key(v));
                lemma_kind_kept(m0[v], mc[v], k4, 20);
                let jj = viewables@.index_of(v);
                assert(viewables@[jj] == v);
                lemma_entry_kept(m0, mc, k4, v, 0);
                let ok_s = |y: usize| met_in_sight(s0, v, y);
                let ok_t = |y: usize| met_through(mc, w, viewables@, sol, v, y);
                assert(lookout_grew(mc[v], nx[v], ok_t));
                if j < k {
                    assert(view_list(mc[v]).contains(viewers@[j]));
                    lemma_grew_contains(mc[v], nx[v], ok_t, viewers@[j]);
                }
            }
            // events
            assert forall|a: usize, b: usize| #[trigger] met_through(mc, w, viewables@, sol, a, b) implies met(a, b) by {
                lemma_met_then_met(s0, mc, w, viewables@, a, b);
            }
            lemma_sight_events_weaken(cur.events@, state.events@, |a: usize, b: usize| met_through(mc, w, viewables@, sol, a, b), met);
            lemma_sight_events_trans(s0.events@, cur.events@, state.events@, met);
            // views
            let sol2 = solid@.to_set();
            let mt = choose|mt: Seq<usize>|
                {
                    &&& mt.no_duplicates()
                    &&& #[trigger] views_in(state.events@) == views_in(cur.events@) + pair_views(w, mt, mc)
                    &&& forall|v: usize| #[trigger] mt.contains(v) ==> {
                        &&& v != w
                        &&& viewables@.contains(v)
                        &&& sees(mc[w], sol2, position_of(mc[v])->0)
                        &&& !view_list(mc[v]).contains(w)
                        &&& view_list(nx[v]).contains(w)
                        &&& view_list(nx[w]).contains(v)
                    }
                    &&& forall|x: usize, y: usize|
                        #[trigger] view_list(nx[x]).contains(y) && mc.contains_key(x) && mc[x].wf() && has_kind(
                            mc[x].components@,
                            20,
                        ) && !view_list(mc[x]).contains(y) ==> (x == w && mt.contains(y)) || (y == w && mt.contains(x))
                };
            assert forall|x: usize, y: usize|
                #[trigger] mc.contains_key(x) && mc[x].wf() && has_kind(mc[x].components@, 20) && #[trigger] view_list(mc[x]).contains(y)
                    implies view_list(nx[x]).contains(y) by {
                if can_be_viewed(mc[x]) && (x == w || viewables@.contains(x)) {
                    lemma_grew_contains(mc[x], nx[x], |u: usize| met_through(mc, w, viewables@, sol, x, u), y);
                } else {
                    assert(component_of(nx[x], 20) == component_of(mc[x], 20));
                }
            }
            lemma_meetings_step(s0, mc, nx, ps, w, mt, viewables@);
            ps = ps + meetings_of(w, mt);
        }
        k = k + 1;
    }
    proof {
        let m1 = state.entities_map@;
        let n = viewers@.len() as int;
        assert forall|p: Position| fog_reached_among(m0, viewers@, n, sol, p) == reached_by_fog_viewer(s0, p) by {
            if fog_reached_among(m0, viewers@, n, sol, p) {
                let j = choose|j: int| 0 <= j < n && affects_fog(m0[#[trigger] viewers@[j]]) && reaches(m0[viewers@[j]], sol, p);
                assert(viewers@.to_set().contains(viewers@[j]));
            }
            if reached_by_fog_viewer(s0, p) {
                let w = choose|w: usize| #[trigger] viewer_ids(s0).contains(w) && affects_fog(m0[w]) && reaches(m0[w], solid_cells(s0), p);
                assert(viewers@.to_set().contains(w));
                let j = viewers@.index_of(w);
                assert(viewers@[j] == w);
            }
        }
        assert forall|p: Position| fog_seen_among(m0, viewers@, n, sol, p) == seen_by_fog_viewer(s0, p) by {
            if fog_seen_among(m0, viewers@, n, sol, p) {
                let j = choose|j: int| 0 <= j < n && affects_fog(m0[#[trigger] viewers@[j]]) && sees(m0[viewers@[j]], sol, p);
                assert(viewers@.to_set().contains(viewers@[j]));
            }
            if seen_by_fog_viewer(s0, p) {
                let w = choose|w: usize| #[trigger] viewer_ids(s0).contains(w) && affects_fog(m0[w]) && sees(m0[w], solid_cells(s0), p);
                assert(viewers@.to_set().contains(w));
                let j = viewers@.index_of(w);
                assert(viewers@[j] == w);
            }
        }
        assert forall|h: usize| #[trigger] hidden_ids(s0).contains(h) implies component_of(m1[h], 7) == if reached_by_fog_viewer(
            s0,
            position_of(m0[h])->0,
        ) {
            Component::Hidden(Some(false))
        } else {
            component_of(m0[h], 7)
        } by {
            assert(hidden@.to_set().contains(h));
            let i = hidden@.index_of(h);
            assert(hidden@[i] == h);
        }
        assert forall|id: usize| !hidden_ids(s0).contains(id) && #[trigger] m0.contains_key(id) && m0[id].wf() && has_kind(
            m0[id].components@,
            7,
        ) implies component_of(m1[id], 7) == component_of(m0[id], 7) by {
            assert(!hidden@.to_set().contains(id));
        }
        assert forall|f: usize| #[trigger] fset.contains(f) implies if s0.fog_enabled && seen_by_fog_viewer(s0, position_of(m0[f])->0) {
            &&& fog_of(m1[f]) == Some(true)
            &&& component_of(m1[f], 2) == Component::RenderFg(None)
        } else {
            &&& component_of(m1[f], 18) == component_of(m0[f], 18)
            &&& fog_drawing(s0.fog_enabled, m0[f], component_of(m1[f], 2))
        } by {
            assert(fog@.to_set().contains(f));
            let i = fog@.index_of(f);
            assert(fog@[i] == f);
        }
        assert forall|id: usize| !fset.contains(id) && #[trigger] m0.contains_key(id) && m0[id].wf() implies (has_kind(
            m0[id].components@,
            2,
        ) ==> component_of(m1[id], 2) == component_of(m0[id], 2)) && (has_kind(m0[id].components@, 18)
            ==> component_of(m1[id], 18) == component_of(m0[id], 18)) by {
            assert(!fog@.to_set().contains(id));
        }
        assert forall|v: usize, w: usize|
            #[trigger] viewable_ids(s0).contains(v) && #[trigger] viewer_ids(s0).contains(w) && v != w && sees(
                m0[w],
                solid_cells(s0),
                position_of(m0[v])->0,
            ) implies view_list(m1[v]).contains(w) by {
            assert(viewers@.to_set().contains(w));
            let j = viewers@.index_of(w);
            assert(viewers@[j] == w);
        }
    }
}

} // verus!
