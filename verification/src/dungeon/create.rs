//! The entities of the dungeon, each made from its list of components.

use vstd::prelude::*;
use crate::dungeon::components::{get_item_char, Component, DialogueLine, Item, Position, Rgb, ViewType};
use crate::dungeon::entity::{new_entity, Entity};
use crate::dungeon::event::Event;

verus! {

pub const PLAYER_WALK_COOLDOWN: usize = 6;

pub const PLAYER_VIEW_DISTANCE: usize = 9;

pub const BG_COLOR: (u8, u8, u8) = (128, 128, 128);

pub const WHITE: (u8, u8, u8) = (255, 255, 255);

pub const BLACK: (u8, u8, u8) = (0, 0, 0);

/// `e` is a fresh entity with `n` components: it took the counter's value,
/// and the counter moved on.
pub open spec fn fresh(e: Entity, old_counter: usize, new_counter: usize, n: nat) -> bool {
    &&& e.id == old_counter
    &&& new_counter == old_counter + 1
    &&& e.components@.len() == n
}

/// A wall drawn as `c`.
pub fn create_wall(entity_id_counter: &mut usize, wall_pos: &Position, c: char) -> (e: Entity)
    requires
        *old(entity_id_counter) < usize::MAX,
    ensures
        fresh(e, *old(entity_id_counter), *final(entity_id_counter), 5),
        e.components@ == seq![
            Component::Wall,
            Component::Position(Some(*wall_pos)),
            Component::Render(Some((c, None::<Rgb>, None::<Rgb>))),
            Component::ZIndex(Some(0)),
            Component::Solid,
        ],
{
    new_entity(
        entity_id_counter,
        vec![
            Component::Wall,
            Component::Position(Some(*wall_pos)),
            Component::Render(Some((c, None, None))),
            Component::ZIndex(Some(0)),
            Component::Solid,
        ],
    )
}

/// A secret wall of the group `group`, drawn blank.
pub fn create_secret_wall(entity_id_counter: &mut usize, wall_pos: &Position, group: usize) -> (e: Entity)
    requires
        *old(entity_id_counter) < usize::MAX,
    ensures
        fresh(e, *old(entity_id_counter), *final(entity_id_counter), 5),
        e.components@ == seq![
            Component::SecretWall(Some(group)),
            Component::Position(Some(*wall_pos)),
            Component::Render(Some((' ', None::<Rgb>, None::<Rgb>))),
            Component::ZIndex(Some(2)),
            Component::Solid,
        ],
{
    new_entity(
        entity_id_counter,
        vec![
            Component::SecretWall(Some(group)),
            Component::Position(Some(*wall_pos)),
            Component::Render(Some((' ', None, None))),
            Component::ZIndex(Some(2)),
            Component::Solid,
        ],
    )
}

/// The hint of a secret wall: a viewable mark that nobody has seen yet.
pub fn create_secret_wall_hint(entity_id_counter: &mut usize, wall_pos: &Position) -> (e: Entity)
    requires
        *old(entity_id_counter) < usize::MAX,
    ensures
        fresh(e, *old(entity_id_counter), *final(entity_id_counter), 3),
        e.components@[0] == Component::SecretWallHint,
        e.components@[1] == Component::Position(Some(*wall_pos)),
        e.components@[2] matches Component::Viewable(Some((t, seen))) && t == ViewType::SecretWall
            && seen@.len() == 0,
{
    new_entity(
        entity_id_counter,
        vec![
            Component::SecretWallHint,
            Component::Position(Some(*wall_pos)),
            Component::Viewable(Some((ViewType::SecretWall, Vec::new()))),
        ],
    )
}

/// A cell of fog, not yet lifted.
pub fn create_fog(entity_id_counter: &mut usize, wall_pos: &Position) -> (e: Entity)
    requires
        *old(entity_id_counter) < usize::MAX,
    ensures
        fresh(e, *old(entity_id_counter), *final(entity_id_counter), 4),
        e.components@ == seq![
            Component::Position(Some(*wall_pos)),
            Component::Render(Some((' ', None::<Rgb>, None::<Rgb>))),
            Component::ZIndex(Some(3)),
            Component::Fog(Some(false)),
        ],
{
    new_entity(
        entity_id_counter,
        vec![
            Component::Position(Some(*wall_pos)),
            Component::Render(Some((' ', None, None))),
            Component::ZIndex(Some(3)),
            Component::Fog(Some(false)),
        ],
    )
}

/// A floor cell on the grey background.
pub fn create_floor(entity_id_counter: &mut usize, wall_pos: &Position) -> (e: Entity)
    requires
        *old(entity_id_counter) < usize::MAX,
    ensures
        fresh(e, *old(entity_id_counter), *final(entity_id_counter), 3),
        e.components@ == seq![
            Component::Position(Some(*wall_pos)),
            Component::Render(Some((' ', Some(BG_COLOR), None::<Rgb>))),
            Component::ZIndex(Some(0)),
        ],
{
    new_entity(
        entity_id_counter,
        vec![
            Component::Position(Some(*wall_pos)),
            Component::Render(Some((' ', Some(BG_COLOR), None))),
            Component::ZIndex(Some(0)),
        ],
    )
}

/// A door: a wall that opens, drawn as a white `$`.
pub fn create_door(entity_id_counter: &mut usize, pos: &Position) -> (e: Entity)
    requires
        *old(entity_id_counter) < usize::MAX,
    ensures
        fresh(e, *old(entity_id_counter), *final(entity_id_counter), 5),
        e.components@ == seq![
            Component::Wall,
            Component::Door,
            Component::Position(Some(*pos)),
            Component::Render(Some(('$', None::<Rgb>, Some(WHITE)))),
            Component::ZIndex(Some(1)),
        ],
{
    new_entity(
        entity_id_counter,
        vec![
            Component::Wall,
            Component::Door,
            Component::Position(Some(*pos)),
            Component::Render(Some(('$', None, Some(WHITE)))),
            Component::ZIndex(Some(1)),
        ],
    )
}

/// A minion (or boss) named by `c`, drawn as `looks`; it sees one cell less
/// far than the player, and drops the key where `spawn_key` holds.
pub fn create_minion(
    entity_id_counter: &mut usize,
    pos: &Position,
    c: char,
    looks: char,
    is_boss: bool,
    spawn_key: bool,
) -> (e: Entity)
    requires
        *old(entity_id_counter) < usize::MAX,
    ensures
        fresh(e, *old(entity_id_counter), *final(entity_id_counter), if spawn_key { 7 } else { 6 }),
        e.components@[0] == Component::Minion(Some((is_boss, c))),
        e.components@[1] == Component::Position(Some(*pos)),
        e.components@[2] == Component::Render(Some((looks, None::<Rgb>, Some(WHITE)))),
        e.components@[3] == Component::ZIndex(Some(1)),
        e.components@[4] matches Component::Viewable(Some((t, seen))) && t == ViewType::Minion && seen@.len() == 0,
        e.components@[5] == Component::ViewDistance(Some((PLAYER_VIEW_DISTANCE - 1) as usize)),
        spawn_key ==> e.components@[6] == Component::Drop(Some(Item::Key)),
{
    let mut comps = vec![
        Component::Minion(Some((is_boss, c))),
        Component::Position(Some(*pos)),
        Component::Render(Some((looks, None, Some(WHITE)))),
        Component::ZIndex(Some(1)),
        Component::Viewable(Some((ViewType::Minion, Vec::new()))),
        Component::ViewDistance(Some(PLAYER_VIEW_DISTANCE - 1)),
    ];
    if spawn_key {
        comps.push(Component::Drop(Some(Item::Key)))
    }
    new_entity(entity_id_counter, comps)
}

/// An item lying at `pos`, drawn in white.
pub fn create_item(entity_id_counter: &mut usize, pos: &Position, item: Item) -> (e: Entity)
    requires
        *old(entity_id_counter) < usize::MAX,
    ensures
        fresh(e, *old(entity_id_counter), *final(entity_id_counter), 4),
        e.components@ == seq![
            Component::Position(Some(*pos)),
            Component::Render(Some(('k', None::<Rgb>, Some(WHITE)))),
            Component::ZIndex(Some(1)),
            Component::Item(Some(item)),
        ],
{
    let c = get_item_char(&item);
    new_entity(
        entity_id_counter,
        vec![
            Component::Position(Some(*pos)),
            Component::Render(Some((c, None, Some(WHITE)))),
            Component::ZIndex(Some(1)),
            Component::Item(Some(item)),
        ],
    )
}

/// The player, at `pos`.
pub fn create_player(entity_id_counter: &mut usize, pos: Position) -> (e: Entity)
    requires
        *old(entity_id_counter) < usize::MAX,
    ensures
        fresh(e, *old(entity_id_counter), *final(entity_id_counter), 8),
        e.components@[0] == Component::Position(Some(pos)),
        e.components@[1] == Component::Render(Some(('@', Some(BG_COLOR), Some(WHITE)))),
        e.components@[2] == Component::ZIndex(Some(5)),
        e.components@[3] == Component::Player,
        e.components@[4] == Component::Cooldown(Some(PLAYER_WALK_COOLDOWN)),
        e.components@[5] == Component::AffectsFog,
        e.components@[6] == Component::ViewDistance(Some(PLAYER_VIEW_DISTANCE)),
        e.components@[7] matches Component::Viewable(Some((t, seen))) && t == ViewType::Player && seen@.len() == 0,
{
    new_entity(
        entity_id_counter,
        vec![
            Component::Position(Some(pos)),
            Component::Render(Some(('@', Some(BG_COLOR), Some(WHITE)))),
            Component::ZIndex(Some(5)),
            Component::Player,
            Component::Cooldown(Some(PLAYER_WALK_COOLDOWN)),
            Component::AffectsFog,
            Component::ViewDistance(Some(PLAYER_VIEW_DISTANCE)),
            Component::Viewable(Some((ViewType::Player, Vec::new()))),
        ],
    )
}

/// A dialogue box, not yet shown, drawn above the entities made before it.
pub fn create_dialogue(
    entity_id_counter: &mut usize,
    dialogue: Vec<DialogueLine>,
    options: Vec<(String, Event)>,
    pos: Position,
) -> (e: Entity)
    requires
        *old(entity_id_counter) + 5 <= usize::MAX,
    ensures
        fresh(e, *old(entity_id_counter), *final(entity_id_counter), 4),
        e.components@ == seq![
            Component::Activated(Some(false)),
            Component::Dialogue(Some((dialogue, options))),
            Component::Position(Some(pos)),
            Component::ZIndex(Some((*old(entity_id_counter) + 5) as usize)),
        ],
{
    let index = *entity_id_counter;
    new_entity(
        entity_id_counter,
        vec![
            Component::Activated(Some(false)),
            Component::Dialogue(Some((dialogue, options))),
            Component::Position(Some(pos)),
            Component::ZIndex(Some(index + 5)),
        ],
    )
}

} // verus!
