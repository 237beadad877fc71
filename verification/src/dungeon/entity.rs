//! Entities: an identifier and the components it is made of.

use vstd::prelude::*;
use crate::dungeon::components::Component;

verus! {

/// An entity of the game.
#[derive(Debug)]
pub struct Entity {
    pub id: usize,
    pub components: Vec<Component>,
}

/// A new entity with the next identifier and the given components; the
/// counter moves on by one.
pub fn new_entity(entity_id_counter: &mut usize, components: Vec<Component>) -> (e: Entity)
    requires
        *old(entity_id_counter) < usize::MAX,
    ensures
        e.id == *old(entity_id_counter),
        *final(entity_id_counter) == *old(entity_id_counter) + 1,
        e.components@ == components@,
{
    let id = *entity_id_counter;
    *entity_id_counter = *entity_id_counter + 1;
    Entity { id, components }
}

} // verus!
