//! Rooms of the dungeon and what is placed in them.

use vstd::prelude::*;
use crate::dungeon::components::{get_item_char, intersects, Component, Item, Position, Rect, Rgb};
use crate::random::gen_between;
use crate::dungeon::entity::{new_entity, Entity};

verus! {

/// What a room is for.
#[derive(Clone, Copy, PartialEq, Eq, Structural, Debug)]
pub enum RoomType {
    Big,
    Boss,
    Regular,
    Starting,
    Secret,
}

/// An item lying in a room, drawn as its character.
pub fn create_item(entity_id_counter: &mut usize, pos: &Position, item: Item) -> (e: Entity)
    requires
        *old(entity_id_counter) < usize::MAX,
    ensures
        e.id == *old(entity_id_counter),
        *final(entity_id_counter) == *old(entity_id_counter) + 1,
        e.components@ == seq![
            Component::Position(Some(*pos)),
            Component::Render(Some(('k', None::<Rgb>, None::<Rgb>))),
            Component::ZIndex(Some(1)),
            Component::Item(Some(item)),
        ],
{
    let c = get_item_char(&item);
    new_entity(
        entity_id_counter,
        vec![
            Component::Position(Some(*pos)),
            Component::Render(Some((c, None, None))),
            Component::ZIndex(Some(1)),
            Component::Item(Some(item)),
        ],
    )
}


/// The room `i` lies where its corners and a push of a few cells stay
/// within range of the numbers.
pub open spec fn room_in_range(rooms: Seq<(Rect, Position, RoomType)>, i: int) -> bool {
    let (r, p, _) = rooms[i];
    &&& isize::MIN + 4 <= p.x <= isize::MAX - 4
    &&& isize::MIN + 1 <= p.y <= isize::MAX - 1
    &&& 0 <= r.width
    &&& 0 <= r.height
    &&& p.x + r.width <= isize::MAX - 4
    &&& p.y + r.height <= isize::MAX - 1
}

/// The rooms `i` and `j` overlap or touch.
pub open spec fn rooms_meet(rooms: Seq<(Rect, Position, RoomType)>, i: int, j: int) -> bool {
    let (r1, p1, _) = rooms[i];
    let (r2, p2, _) = rooms[j];
    p1.x <= p2.x + r2.width && p1.x + r1.width >= p2.x && p1.y <= p2.y + r2.height && p1.y + r1.height >= p2.y
}

/// Where the room `room_index` moves to get off a room it meets: nowhere
/// when it meets none; otherwise its position pushed by a random step of
/// up to four cells across and one cell down or up.
pub fn find_nearest_free_space(
    rooms: &[(Rect, Position, RoomType)],
    room_index: usize,
    rng: &mut rand::rngs::ThreadRng,
) -> (r: Option<Position>)
    requires
        room_index < rooms@.len(),
        forall|i: int| 0 <= i < rooms@.len() ==> #[trigger] room_in_range(rooms@, i),
    ensures
        r is None <==> forall|j: int| 0 <= j < rooms@.len() && j != room_index ==> !#[trigger] rooms_meet(rooms@, room_index as int, j),
        r matches Some(p) ==> {
            let q = rooms@[room_index as int].1;
            &&& q.x - 4 <= p.x <= q.x + 4
            &&& q.y - 1 <= p.y <= q.y + 1
        },
{
    let (room, pos, _) = &rooms[room_index];
    let mut i: usize = 0;
    while i < rooms.len()
        invariant
            i <= rooms@.len(),
            room_index < rooms@.len(),
            *room == rooms@[room_index as int].0,
            *pos == rooms@[room_index as int].1,
            forall|i: int| 0 <= i < rooms@.len() ==> #[trigger] room_in_range(rooms@, i),
            forall|j: int| 0 <= j < i && j != room_index ==> !#[trigger] rooms_meet(rooms@, room_index as int, j),
        decreases rooms@.len() - i,
    {
        let (other_room, other_pos, _) = &rooms[i];
        proof {
            assert(room_in_range(rooms@, i as int));
            assert(room_in_range(rooms@, room_index as int));
        }
        if i != room_index && intersects(pos, room, other_pos, other_room) {
            assert(rooms_meet(rooms@, room_index as int, i as int));
            let dx = gen_between(rng, -4, 5);
            let dy = gen_between(rng, -1, 2);
            return Some(Position { x: pos.x + dx, y: pos.y + dy });
        }
        i = i + 1;
    }
    None
}

/// How a push of a room went.
#[derive(Clone, Copy, PartialEq, Eq, Structural, Debug)]
pub enum Push {
    /// The room meets no other room.
    Settled,
    /// The room moved off a room it met, staying inside the grid.
    Moved,
    /// The push would take the room out of the grid: it has to be placed
    /// anew.
    Replace,
}

/// The room `room` at `p` lies inside the grid.
pub open spec fn in_grid(p: Position, room: Rect, grid: Rect) -> bool {
    p.x >= 0 && p.x + room.width < grid.width && p.y >= 0 && p.y + room.height < grid.height
}

/// `p` is `q` pushed by at most four cells across and one cell down or up.
pub open spec fn within_push(q: Position, p: Position) -> bool {
    &&& q.x - 4 <= p.x <= q.x + 4
    &&& q.y - 1 <= p.y <= q.y + 1
}

/// Moves the room `room_index` to `new_pos`, where there is one and the
/// room then lies inside the grid; says what happened: with no new place
/// the room is settled, and a new place outside the grid asks for the room
/// to be placed anew. The rooms are otherwise left as they were.
pub fn apply_push(
    rooms: &mut Vec<(Rect, Position, RoomType)>,
    room_index: usize,
    new_pos: Option<Position>,
    grid_size: &Rect,
) -> (r: Push)
    requires
        room_index < old(rooms)@.len(),
        new_pos matches Some(p) ==> isize::MIN <= p.x + old(rooms)@[room_index as int].0.width <= isize::MAX
            && isize::MIN <= p.y + old(rooms)@[room_index as int].0.height <= isize::MAX,
    ensures
        (r == Push::Settled) <==> new_pos is None,
        new_pos matches Some(p) ==> ((r == Push::Moved) <==> in_grid(p, old(rooms)@[room_index as int].0, *grid_size)),
        r == Push::Moved ==> (new_pos matches Some(p) && final(rooms)@ == old(rooms)@.update(
            room_index as int,
            (old(rooms)@[room_index as int].0, p, old(rooms)@[room_index as int].2),
        )),
        r != Push::Moved ==> final(rooms)@ == old(rooms)@,
{
    match new_pos {
        None => Push::Settled,
        Some(p) => {
            let (room, _, kind) = rooms[room_index];
            if p.x >= 0 && p.x + room.width < grid_size.width && p.y >= 0 && p.y + room.height < grid_size.height {
                rooms.set(room_index, (room, p, kind));
                Push::Moved
            } else {
                Push::Replace
            }
        },
    }
}

/// Pushes the room `room_index` off a room it meets (see
/// `find_nearest_free_space`), where the room then lies inside the grid;
/// says what happened (see `apply_push`). The rooms are otherwise left as
/// they were.
pub fn push_room(
    rooms: &mut Vec<(Rect, Position, RoomType)>,
    room_index: usize,
    grid_size: &Rect,
    rng: &mut rand::rngs::ThreadRng,
) -> (r: Push)
    requires
        room_index < old(rooms)@.len(),
        forall|i: int| 0 <= i < old(rooms)@.len() ==> #[trigger] room_in_range(old(rooms)@, i),
    ensures
        (r == Push::Settled) <==> forall|j: int| 0 <= j < old(rooms)@.len() && j != room_index ==> !#[trigger] rooms_meet(
            old(rooms)@,
            room_index as int,
            j,
        ),
        r != Push::Moved ==> final(rooms)@ == old(rooms)@,
        r == Push::Moved ==> {
            let (room, q, kind) = old(rooms)@[room_index as int];
            let p = final(rooms)@[room_index as int].1;
            &&& final(rooms)@ == old(rooms)@.update(room_index as int, (room, p, kind))
            &&& within_push(q, p)
            &&& in_grid(p, room, *grid_size)
        },
        r == Push::Replace ==> {
            let (room, q, _) = old(rooms)@[room_index as int];
            exists|p: Position| within_push(q, p) && !in_grid(p, room, *grid_size)
        },
{
    let new_pos = find_nearest_free_space(rooms.as_slice(), room_index, rng);
    proof {
        assert(room_in_range(rooms@, room_index as int));
    }
    let r = apply_push(rooms, room_index, new_pos, grid_size);
    proof {
        if let Some(p) = new_pos {
            assert(within_push(old(rooms)@[room_index as int].1, p));
        }
    }
    r
}

} // verus!
