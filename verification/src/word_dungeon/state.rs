//! The state of a game: the entities, the index of entities by the kinds of
//! their components, and the player's progress.

use std::collections::{HashMap, HashSet};
use vstd::prelude::*;
use crate::dungeon::components::Rect;
use crate::dungeon::rooms::RoomType;
use crate::equality_helpers::{numbers_eq, set_elements};
use crate::random::thread_rng;
use crate::word_dungeon::entity::{has_kind, indexes, last_of_kind};
use crate::word_dungeon::equality::{clone_component, component_eq, same_component};
use crate::word_dungeon::letters::{get_starting_tile_points, get_starting_tiles, tile_counts, tile_points, tiles_of};
use crate::word_dungeon::components::{component_kind, kind, Component, Position};
use crate::word_dungeon::effects::AllModifiers;
use crate::word_dungeon::entity::Entity;
use crate::word_dungeon::event::Event;
use crate::word_dungeon::items::Item;
use crate::word_dungeon::render::Show;

verus! {

broadcast use vstd::std_specs::hash::group_hash_axioms;

/// The index of entities: for lists of component kinds, the entities that
/// have components of all those kinds. No list occurs twice.
pub type ComponentMap = Vec<(Vec<usize>, HashSet<usize>)>;

/// No list of kinds occurs twice among the entries.
pub open spec fn keys_distinct(entries: Seq<(Vec<usize>, HashSet<usize>)>) -> bool {
    forall|i: int, j: int| 0 <= i < j < entries.len() ==> (#[trigger] entries[i]).0@ != (#[trigger] entries[j]).0@
}

/// The entry with the list of kinds `k`.
pub open spec fn entry_of(entries: Seq<(Vec<usize>, HashSet<usize>)>, k: Seq<usize>) -> int {
    choose|i: int| 0 <= i < entries.len() && entries[i].0@ == k
}

/// The index as a map from lists of kinds to sets of entities.
pub open spec fn index_view(entries: Seq<(Vec<usize>, HashSet<usize>)>) -> Map<Seq<usize>, Set<usize>> {
    Map::new(
        |k: Seq<usize>| exists|i: int| 0 <= i < entries.len() && entries[i].0@ == k,
        |k: Seq<usize>| entries[entry_of(entries, k)].1@,
    )
}

/// With distinct keys, the entry found for a key is the one that holds it.
pub(crate) proof fn lemma_entry_of(entries: Seq<(Vec<usize>, HashSet<usize>)>, i: int)
    requires
        keys_distinct(entries),
        0 <= i < entries.len(),
    ensures
        entry_of(entries, entries[i].0@) == i,
        index_view(entries).contains_key(entries[i].0@),
        index_view(entries)[entries[i].0@] == entries[i].1@,
{
    let k = entries[i].0@;
    assert(exists|j: int| 0 <= j < entries.len() && entries[j].0@ == k);
    let j = entry_of(entries, k);
    if j != i {
        if j < i {
            assert(entries[j].0@ != entries[i].0@);
        } else {
            assert(entries[i].0@ != entries[j].0@);
        }
    }
}

/// The position of the entry with the key `key`, if there is one.
pub(crate) fn find_key(entries: &ComponentMap, key: &Vec<usize>) -> (r: Option<usize>)
    requires
        keys_distinct(entries@),
    ensures
        match r {
            Some(i) => i < entries@.len() && entries@[i as int].0@ == key@,
            None => !index_view(entries@).contains_key(key@),
        },
{
    let mut i: usize = 0;
    while i < entries.len()
        invariant
            i <= entries@.len(),
            forall|j: int| 0 <= j < i ==> entries@[j].0@ != key@,
        decreases entries@.len() - i,
    {
        if numbers_eq(&entries[i].0, key) {
            return Some(i);
        }
        i = i + 1;
    }
    None
}

/// The kinds of the components of a list, in order.
pub open spec fn kinds_of(s: Seq<Component>) -> Seq<usize> {
    s.map_values(|c: Component| kind(c) as usize)
}

/// The kinds of the components of a list.
pub fn component_kinds(components: &[Component]) -> (kinds: Vec<usize>)
    ensures
        kinds@ == kinds_of(components@),
{
    let mut kinds: Vec<usize> = Vec::new();
    let mut i: usize = 0;
    while i < components.len()
        invariant
            i <= components@.len(),
            kinds@ == kinds_of(components@.take(i as int)),
        decreases components@.len() - i,
    {
        kinds.push(component_kind(&components[i]));
        assert(kinds_of(components@.take(i + 1)) =~= kinds_of(components@.take(i as int)).push(
            kind(components@[i as int]) as usize,
        ));
        i = i + 1;
    }
    assert(components@.take(components@.len() as int) =~= components@);
    kinds
}

/// Adds `id` to the set of `key` (made empty first where the key is new) when
/// `join` holds; otherwise only makes sure the key is there.
pub(crate) fn add_to_key(entries: &mut ComponentMap, key: Vec<usize>, id: usize, join: bool)
    requires
        keys_distinct(old(entries)@),
    ensures
        keys_distinct(final(entries)@),
        index_view(final(entries)@) == index_view(old(entries)@).insert(
            key@,
            (if index_view(old(entries)@).contains_key(key@) {
                index_view(old(entries)@)[key@]
            } else {
                Set::empty()
            }) + (if join {
                set![id]
            } else {
                Set::empty()
            }),
        ),
{
    let ghost old_view = index_view(entries@);
    let ghost new_val = (if old_view.contains_key(key@) { old_view[key@] } else { Set::empty() }) + (if join {
        set![id]
    } else {
        Set::empty()
    });
    match find_key(entries, &key) {
        Some(i) => {
            let ghost before = entries@;
            proof {
                lemma_entry_of(before, i as int);
            }
            let mut entry: (Vec<usize>, HashSet<usize>) = (Vec::new(), HashSet::new());
            entries.set_and_swap(i, &mut entry);
            if join {
                entry.1.insert(id);
            }
            entries.set_and_swap(i, &mut entry);
            proof {
                let after = entries@;
                assert(after =~= before.update(i as int, after[i as int]));
                assert(after[i as int].0@ == key@);
                assert(after[i as int].1@ == new_val);
                assert(keys_distinct(after)) by {
                    assert forall|a: int, b: int| 0 <= a < b < after.len() implies (#[trigger] after[a]).0@ != (
                    #[trigger] after[b]).0@ by {
                        assert(before[a].0@ != before[b].0@);
                        if a == i { assert(after[a].0@ == before[a].0@); }
                        if b == i { assert(after[b].0@ == before[b].0@); }
                    }
                }
                assert forall|k: Seq<usize>| #[trigger] index_view(after).contains_key(k) == old_view.insert(key@, new_val).contains_key(k) by {
                    if index_view(after).contains_key(k) {
                        let j = choose|j: int| 0 <= j < after.len() && after[j].0@ == k;
                        assert(before[j].0@ == k);
                    }
                    if old_view.contains_key(k) {
                        let j = choose|j: int| 0 <= j < before.len() && before[j].0@ == k;
                        assert(after[j].0@ == k);
                    }
                }
                assert forall|k: Seq<usize>| #[trigger] index_view(after).contains_key(k) implies index_view(after)[k]
                    == old_view.insert(key@, new_val)[k] by {
                    let j = choose|j: int| 0 <= j < after.len() && after[j].0@ == k;
                    lemma_entry_of(after, j);
                    lemma_entry_of(before, j);
                }
                assert(index_view(after) =~= old_view.insert(key@, new_val));
            }
        },
        None => {
            let ghost before = entries@;
            let mut set: HashSet<usize> = HashSet::new();
            if join {
                set.insert(id);
            }
            entries.push((key, set));
            proof {
                let after = entries@;
                assert(keys_distinct(after)) by {
                    assert forall|a: int, b: int| 0 <= a < b < after.len() implies (#[trigger] after[a]).0@ != (
                    #[trigger] after[b]).0@ by {
                        if b == before.len() {
                            assert(after[a] == before[a]);
                            assert(old_view.contains_key(before[a].0@));
                        } else {
                            assert(after[a] == before[a] && after[b] == before[b]);
                        }
                    }
                }
                assert forall|k: Seq<usize>| #[trigger] index_view(after).contains_key(k) == old_view.insert(key@, new_val).contains_key(k) by {
                    if index_view(after).contains_key(k) {
                        let j = choose|j: int| 0 <= j < after.len() && after[j].0@ == k;
                        if j < before.len() { assert(before[j] == after[j]); }
                    }
                    if old_view.contains_key(k) {
                        let j = choose|j: int| 0 <= j < before.len() && before[j].0@ == k;
                        assert(after[j] == before[j]);
                    }
                    if k == key@ {
                        assert(after[before.len() as int].0@ == key@);
                    }
                }
                assert forall|k: Seq<usize>| #[trigger] index_view(after).contains_key(k) implies index_view(after)[k]
                    == old_view.insert(key@, new_val)[k] by {
                    let j = choose|j: int| 0 <= j < after.len() && after[j].0@ == k;
                    lemma_entry_of(after, j);
                    if j < before.len() {
                        assert(before[j] == after[j]);
                        lemma_entry_of(before, j);
                    }
                }
                assert(index_view(after) =~= old_view.insert(key@, new_val));
            }
        },
    }
}


/// The kinds of the components of an entity.
pub open spec fn entity_kinds(e: Entity) -> Set<usize> {
    Set::new(|u: usize| exists|i: int| 0 <= i < e.components@.len() && kind(e.components@[i]) == u)
}

/// Whether an entity with the kinds `kinds` belongs under `key`: the key is
/// one of its kinds alone, or the key is a system's list of kinds all of which
/// it has.
pub open spec fn joins(key: Seq<usize>, kinds: Set<usize>, systems: Seq<Seq<usize>>) -> bool {
    (key.len() == 1 && kinds.contains(key[0])) || (systems.contains(key) && forall|j: int|
        0 <= j < key.len() ==> kinds.contains(#[trigger] key[j]))
}

/// The index after an entity with the kinds `kinds` and the identifier `id`
/// is added: a key for each of its kinds and for each system's list, and the
/// entity under each key it belongs under.
pub open spec fn index_with(
    m: Map<Seq<usize>, Set<usize>>,
    kinds: Set<usize>,
    systems: Seq<Seq<usize>>,
    id: usize,
) -> Map<Seq<usize>, Set<usize>> {
    Map::new(
        |k: Seq<usize>| m.contains_key(k) || (k.len() == 1 && kinds.contains(k[0])) || systems.contains(k),
        |k: Seq<usize>|
            (if m.contains_key(k) {
                m[k]
            } else {
                Set::empty()
            }) + (if joins(k, kinds, systems) {
                set![id]
            } else {
                Set::empty()
            }),
    )
}

proof fn lemma_index_with_kind(m: Map<Seq<usize>, Set<usize>>, kinds: Set<usize>, k: usize, id: usize)
    ensures
        ({
            let before = index_with(m, kinds, Seq::empty(), id);
            let key = seq![k];
            before.insert(
                key,
                (if before.contains_key(key) { before[key] } else { Set::empty() }) + set![id],
            ) == index_with(m, kinds.insert(k), Seq::empty(), id)
        }),
{
    let before = index_with(m, kinds, Seq::empty(), id);
    let key = seq![k];
    let lhs = before.insert(key, (if before.contains_key(key) { before[key] } else { Set::empty() }) + set![id]);
    let rhs = index_with(m, kinds.insert(k), Seq::empty(), id);
    assert forall|q: Seq<usize>| #[trigger] lhs.contains_key(q) == rhs.contains_key(q) by {
        if q.len() == 1 && q[0] == k {
            assert(q =~= key);
        }
    }
    assert forall|q: Seq<usize>| #[trigger] lhs.contains_key(q) implies lhs[q] == rhs[q] by {
        if q =~= key {
            assert(lhs[q] =~= rhs[q]);
        } else {
            assert(!(q.len() == 1 && q[0] == k)) by {
                if q.len() == 1 && q[0] == k {
                    assert(q =~= key);
                }
            }
            assert(lhs[q] =~= rhs[q]);
        }
    }
    assert(lhs =~= rhs);
}

proof fn lemma_index_with_system(
    m: Map<Seq<usize>, Set<usize>>,
    kinds: Set<usize>,
    systems: Seq<Seq<usize>>,
    s: Seq<usize>,
    id: usize,
    join: bool,
)
    requires
        join == (forall|j: int| 0 <= j < s.len() ==> kinds.contains(#[trigger] s[j])),
    ensures
        ({
            let before = index_with(m, kinds, systems, id);
            before.insert(
                s,
                (if before.contains_key(s) { before[s] } else { Set::empty() }) + (if join {
                    set![id]
                } else {
                    Set::empty()
                }),
            ) == index_with(m, kinds, systems.push(s), id)
        }),
{
    let before = index_with(m, kinds, systems, id);
    let lhs = before.insert(s, (if before.contains_key(s) { before[s] } else { Set::empty() }) + (if join {
        set![id]
    } else {
        Set::empty()
    }));
    let s2 = systems.push(s);
    let rhs = index_with(m, kinds, s2, id);
    assert forall|q: Seq<usize>| #[trigger] s2.contains(q) == (systems.contains(q) || q == s) by {
        if s2.contains(q) {
            let j = choose|j: int| 0 <= j < s2.len() && s2[j] == q;
            if j < systems.len() {
                assert(systems[j] == q);
            }
        }
        if systems.contains(q) {
            let j = choose|j: int| 0 <= j < systems.len() && systems[j] == q;
            assert(s2[j] == q);
        }
        if q == s {
            assert(s2[systems.len() as int] == q);
        }
    }
    assert forall|q: Seq<usize>| #[trigger] lhs.contains_key(q) == rhs.contains_key(q) by {}
    assert forall|q: Seq<usize>| #[trigger] lhs.contains_key(q) implies lhs[q] == rhs[q] by {
        assert(lhs[q] =~= rhs[q]);
    }
    assert(lhs =~= rhs);
}

/// The index after removing the entity `id` from every set.
pub open spec fn index_without(m: Map<Seq<usize>, Set<usize>>, id: usize) -> Map<Seq<usize>, Set<usize>> {
    Map::new(|k: Seq<usize>| m.contains_key(k), |k: Seq<usize>| m[k].remove(id))
}

/// Removes the entity `id` from every set of the index.
pub(crate) fn remove_from_index(entries: &mut ComponentMap, id: usize)
    requires
        keys_distinct(old(entries)@),
    ensures
        keys_distinct(final(entries)@),
        index_view(final(entries)@) == index_without(index_view(old(entries)@), id),
{
    let ghost m0 = index_view(entries@);
    let ghost e0 = entries@;
    let mut i: usize = 0;
    while i < entries.len()
        invariant
            i <= entries@.len(),
            entries@.len() == e0.len(),
            keys_distinct(entries@),
            forall|j: int| 0 <= j < e0.len() ==> (#[trigger] entries@[j]).0@ == e0[j].0@,
            forall|j: int| 0 <= j < i ==> (#[trigger] entries@[j]).1@ == e0[j].1@.remove(id),
            forall|j: int| i <= j < e0.len() ==> (#[trigger] entries@[j]).1@ == e0[j].1@,
        decreases e0.len() - i,
    {
        let ghost before = entries@;
        let mut entry: (Vec<usize>, HashSet<usize>) = (Vec::new(), HashSet::new());
        entries.set_and_swap(i, &mut entry);
        entry.1.remove(&id);
        entries.set_and_swap(i, &mut entry);
        proof {
            let after = entries@;
            assert forall|a: int, b: int| 0 <= a < b < after.len() implies (#[trigger] after[a]).0@ != (
            #[trigger] after[b]).0@ by {
                assert(before[a].0@ != before[b].0@);
            }
        }
        i = i + 1;
    }
    proof {
        let e1 = entries@;
        assert(keys_distinct(e0)) by {
            assert forall|a: int, b: int| 0 <= a < b < e0.len() implies (#[trigger] e0[a]).0@ != (#[trigger] e0[b]).0@ by {
                assert(e1[a].0@ == e0[a].0@ && e1[b].0@ == e0[b].0@);
            }
        }
        assert forall|k: Seq<usize>| #[trigger] index_view(e1).contains_key(k) == m0.contains_key(k) by {
            if index_view(e1).contains_key(k) {
                let j = choose|j: int| 0 <= j < e1.len() && e1[j].0@ == k;
                assert(e0[j].0@ == k);
            }
            if m0.contains_key(k) {
                let j = choose|j: int| 0 <= j < e0.len() && e0[j].0@ == k;
                assert(e1[j].0@ == k);
            }
        }
        assert forall|k: Seq<usize>| #[trigger] index_view(e1).contains_key(k) implies index_view(e1)[k] == index_without(m0, id)[k] by {
            let j = choose|j: int| 0 <= j < e1.len() && e1[j].0@ == k;
            lemma_entry_of(e1, j);
            lemma_entry_of(e0, j);
        }
        assert(index_view(e1) =~= index_without(m0, id));
    }
}

/// The state of the game. The keys held down and the timing of the loops are
/// kept by the program around it.
pub struct State {
    pub grid_size: Rect,
    pub events: Vec<Event>,
    pub change_events: Vec<Component>,
    pub rng: rand::rngs::ThreadRng,
    pub entity_id_counter: usize,
    pub name: String,
    pub entities_map: HashMap<usize, Entity>,
    pub component_map: ComponentMap,
    pub system_components: Vec<Vec<usize>>,
    pub rooms: Vec<(Rect, Position, RoomType)>,
    pub hallways: Vec<(Position, Position)>,
    pub available_letters: Vec<char>,
    pub items: Vec<Item>,
    pub gold: usize,
    pub fog_enabled: bool,
    pub dialogue_input: String,
    pub empty_entites_set: HashSet<usize>,
    pub floor: usize,
    pub mods: AllModifiers,
    pub tile_points: HashMap<u32, usize>,
    pub no_keys_pressed: bool,
    pub show: Show,
}

/// The parts of the state that the entity operations leave alone: the grid,
/// the player's progress and the display settings.
pub open spec fn same_extras(a: State, b: State) -> bool {
    &&& b.grid_size == a.grid_size
    &&& b.change_events == a.change_events
    &&& b.name == a.name
    &&& b.rooms == a.rooms
    &&& b.hallways == a.hallways
    &&& b.available_letters == a.available_letters
    &&& b.items == a.items
    &&& b.gold == a.gold
    &&& b.fog_enabled == a.fog_enabled
    &&& b.dialogue_input == a.dialogue_input
    &&& b.floor == a.floor
    &&& b.mods == a.mods
    &&& b.tile_points == a.tile_points
    &&& b.no_keys_pressed == a.no_keys_pressed
    &&& b.show == a.show
    &&& b.empty_entites_set == a.empty_entites_set
}

/// `s1` is `s0` without the entities indexed under the kind `k` alone: they
/// leave the entities and every entry of the index.
pub open spec fn kind_removed(s0: State, s1: State, k: usize) -> bool {
    let key = seq![k];
    if s0.index().contains_key(key) {
        let gone = s0.index()[key];
        &&& s1.index() == Map::new(|k: Seq<usize>| s0.index().contains_key(k), |k: Seq<usize>| s0.index()[k].difference(gone))
        &&& s1.entities_map@ == s0.entities_map@.remove_keys(gone)
    } else {
        &&& s1.index() == s0.index()
        &&& s1.entities_map == s0.entities_map
    }
}

impl State {
    /// The index has no key twice, and the set handed out for a missing key
    /// is empty.
    pub open spec fn wf(&self) -> bool {
        &&& keys_distinct(self.component_map@)
        &&& self.empty_entites_set@ == Set::<usize>::empty()
    }

    /// The index as a map.
    pub open spec fn index(&self) -> Map<Seq<usize>, Set<usize>> {
        index_view(self.component_map@)
    }

    /// The lists of kinds of the systems.
    pub open spec fn systems(&self) -> Seq<Seq<usize>> {
        self.system_components@.map_values(|v: Vec<usize>| v@)
    }

    /// The entities that have components of all the kinds of `components`, in
    /// the order given (an empty set where that list was never indexed).
    pub fn get_entities(&self, components: &[Component]) -> (r: &HashSet<usize>)
        requires
            self.wf(),
        ensures
            r@ == (if self.index().contains_key(kinds_of(components@)) {
                self.index()[kinds_of(components@)]
            } else {
                Set::empty()
            }),
    {
        let key = component_kinds(components);
        match find_key(&self.component_map, &key) {
            Some(i) => {
                proof {
                    lemma_entry_of(self.component_map@, i as int);
                }
                &self.component_map[i].1
            },
            None => &self.empty_entites_set,
        }
    }

    /// Removes an entity from the index and from the entities.
    pub fn remove_entity(&mut self, id: usize)
        requires
            old(self).wf(),
        ensures
            final(self).wf(),
            final(self).index() == index_without(old(self).index(), id),
            final(self).entities_map@ == old(self).entities_map@.remove(id),
            final(self).events == old(self).events,
            final(self).entity_id_counter == old(self).entity_id_counter,
            final(self).system_components == old(self).system_components,
            same_extras(*old(self), *final(self)),
    {
        remove_from_index(&mut self.component_map, id);
        self.entities_map.remove(&id);
    }
}

/// Whether an entity has components of all the kinds of `key`.
fn has_all_kinds(e: &Entity, key: &Vec<usize>) -> (r: bool)
    ensures
        r == (forall|j: int| 0 <= j < key@.len() ==> entity_kinds(*e).contains(#[trigger] key@[j])),
{
    let mut j: usize = 0;
    while j < key.len()
        invariant
            j <= key@.len(),
            forall|m: int| 0 <= m < j ==> entity_kinds(*e).contains(#[trigger] key@[m]),
        decreases key@.len() - j,
    {
        let mut found = false;
        let mut i: usize = 0;
        while i < e.components.len()
            invariant
                i <= e.components@.len(),
                j < key@.len(),
                found == exists|m: int| 0 <= m < i && kind(e.components@[m]) == key@[j as int],
            decreases e.components@.len() - i,
        {
            if component_kind(&e.components[i]) == key[j] {
                found = true;
            }
            i = i + 1;
        }
        if !found {
            proof {
                assert(!entity_kinds(*e).contains(key@[j as int]));
            }
            return false;
        }
        j = j + 1;
    }
    true
}

/// Adds an entity to the state: indexed under each of its kinds and under
/// each system's list of kinds it has all of, then kept under its identifier.
pub fn add_entity(entity: Entity, state: &mut State)
    requires
        old(state).wf(),
    ensures
        final(state).wf(),
        final(state).index() == index_with(old(state).index(), entity_kinds(entity), old(state).systems(), entity.id),
        final(state).entities_map@ == old(state).entities_map@.insert(entity.id, entity),
        final(state).events == old(state).events,
        final(state).entity_id_counter == old(state).entity_id_counter,
        final(state).system_components == old(state).system_components,
        same_extras(*old(state), *final(state)),
{
    let ghost m0 = state.index();
    let ghost all_kinds = entity_kinds(entity);
    let id = entity.id;
    let mut i: usize = 0;
    assert(index_with(m0, Set::empty(), Seq::empty(), id) =~= m0) by {
        assert forall|k: Seq<usize>| #[trigger] m0.contains_key(k) implies index_with(m0, Set::empty(), Seq::empty(), id)[k] == m0[k] by {
            assert(index_with(m0, Set::empty(), Seq::empty(), id)[k] =~= m0[k]);
        }
    }
    while i < entity.components.len()
        invariant
            i <= entity.components@.len(),
            state.wf(),
            id == entity.id,
            state.index() == index_with(m0, Set::new(|u: usize| exists|m: int| 0 <= m < i && kind(entity.components@[m]) == u), Seq::empty(), id),
            state.entities_map == old(state).entities_map,
            state.events == old(state).events,
            state.entity_id_counter == old(state).entity_id_counter,
            state.system_components == old(state).system_components,
            same_extras(*old(state), *state),
        decreases entity.components@.len() - i,
    {
        let k = component_kind(&entity.components[i]);
        let key = vec![k];
        assert(key@ =~= seq![k]);
        let ghost kinds_i = Set::new(|u: usize| exists|m: int| 0 <= m < i && kind(entity.components@[m]) == u);
        add_to_key(&mut state.component_map, key, id, true);
        proof {
            lemma_index_with_kind(m0, kinds_i, k, id);
            assert(Set::new(|u: usize| exists|m: int| 0 <= m < i + 1 && kind(entity.components@[m]) == u) =~= kinds_i.insert(k)) by {
                assert forall|u: usize| (exists|m: int| 0 <= m < i + 1 && kind(entity.components@[m]) == u) == kinds_i.insert(k).contains(u) by {
                    if exists|m: int| 0 <= m < i + 1 && kind(entity.components@[m]) == u {
                        let m = choose|m: int| 0 <= m < i + 1 && kind(entity.components@[m]) == u;
                        if m < i {
                            assert(kinds_i.contains(u));
                        }
                    }
                    if kinds_i.contains(u) {
                        let m = choose|m: int| 0 <= m < i && kind(entity.components@[m]) == u;
                        assert(0 <= m < i + 1 && kind(entity.components@[m]) == u);
                    }
                    if u == k {
                        assert(kind(entity.components@[i as int]) == u);
                    }
                }
            }
        }
        i = i + 1;
    }
    assert(Set::new(|u: usize| exists|m: int| 0 <= m < i && kind(entity.components@[m]) == u) =~= all_kinds);
    let mut j: usize = 0;
    while j < state.system_components.len()
        invariant
            j <= state.system_components@.len(),
            state.wf(),
            id == entity.id,
            all_kinds == entity_kinds(entity),
            state.index() == index_with(m0, all_kinds, old(state).systems().take(j as int), id),
            state.entities_map == old(state).entities_map,
            state.events == old(state).events,
            state.entity_id_counter == old(state).entity_id_counter,
            state.system_components == old(state).system_components,
            same_extras(*old(state), *state),
        decreases state.system_components@.len() - j,
    {
        let key = state.system_components[j].clone();
        let join = has_all_kinds(&entity, &key);
        proof {
            assert(key@ == state.system_components@[j as int]@);
            lemma_index_with_system(m0, all_kinds, old(state).systems().take(j as int), key@, id, join);
            assert(old(state).systems().take(j as int).push(key@) =~= old(state).systems().take(j + 1));
        }
        add_to_key(&mut state.component_map, key, id, join);
        j = j + 1;
    }
    assert(old(state).systems().take(j as int) =~= old(state).systems());
    state.entities_map.insert(id, entity);
}


/// Replacing a component by one of the same kind keeps an entity's index right.
proof fn lemma_replace_same_kind(index: Map<usize, usize>, s: Seq<Component>, i: int, c: Component)
    requires
        indexes(index, s),
        0 <= i < s.len(),
        kind(s[i]) == kind(c),
    ensures
        indexes(index, s.update(i, c)),
{
    let t = s.update(i, c);
    assert forall|k: usize| #[trigger] index.contains_key(k) <==> has_kind(t, k as nat) by {
        if has_kind(s, k as nat) {
            let j = choose|j: int| 0 <= j < s.len() && kind(#[trigger] s[j]) == k as nat;
            assert(kind(t[j]) == k as nat);
        }
        if has_kind(t, k as nat) {
            let j = choose|j: int| 0 <= j < t.len() && kind(#[trigger] t[j]) == k as nat;
            assert(kind(s[j]) == k as nat);
        }
    }
    assert forall|k: usize| #[trigger] index.contains_key(k) implies last_of_kind(t, k as nat, index[k] as int) by {
        assert(last_of_kind(s, k as nat, index[k] as int));
        assert forall|j: int| index[k] < j < t.len() implies kind(#[trigger] t[j]) != k as nat by {
            assert(kind(s[j]) != k as nat);
        }
    }
}

/// The letters of the bag, as a fresh game has them.
pub open spec fn starting_letters() -> Seq<char> {
    tiles_of(tile_counts())
}

impl State {
    /// A new game on a grid of the given size, for systems that work on the
    /// given lists of components: no entities yet, a full bag of letters,
    /// the first floor, the fog on.
    pub fn new(grid_size: Rect, system_components: Vec<Vec<Component>>) -> (s: State)
        ensures
            s.wf(),
            s.grid_size == grid_size,
            s.events@.len() == 0,
            s.entity_id_counter == 0,
            s.entities_map@.len() == 0,
            s.index() == Map::<Seq<usize>, Set<usize>>::empty(),
            s.system_components@.len() == system_components@.len(),
            forall|i: int| 0 <= i < system_components@.len() ==> (#[trigger] s.system_components@[i])@ == kinds_of(
                system_components@[i]@,
            ),
            s.available_letters@ == starting_letters(),
            s.tile_points@ == tile_points(),
            s.gold == 0,
            s.floor == 1,
            s.fog_enabled,
            s.no_keys_pressed,
            s.show == Show::Nothing,
            s.items@.len() == 0,
    {
        let mut systems: Vec<Vec<usize>> = Vec::new();
        let mut i: usize = 0;
        while i < system_components.len()
            invariant
                i <= system_components@.len(),
                systems@.len() == i,
                forall|j: int| 0 <= j < i ==> (#[trigger] systems@[j])@ == kinds_of(system_components@[j]@),
            decreases system_components@.len() - i,
        {
            systems.push(component_kinds(system_components[i].as_slice()));
            i = i + 1;
        }
        let mut n = State {
            grid_size,
            events: Vec::new(),
            change_events: Vec::new(),
            rng: thread_rng(),
            entity_id_counter: 0,
            name: String::new(),
            entities_map: HashMap::new(),
            component_map: Vec::new(),
            system_components: systems,
            rooms: Vec::new(),
            hallways: Vec::new(),
            available_letters: Vec::new(),
            items: Vec::new(),
            gold: 0,
            fog_enabled: true,
            dialogue_input: String::new(),
            empty_entites_set: HashSet::new(),
            floor: 1,
            mods: AllModifiers { gold: 0, shop_discount: 0, word_size_change: 0, mults: Vec::new(), rack_size_change: 0 },
            tile_points: get_starting_tile_points(),
            no_keys_pressed: true,
            show: Show::Nothing,
        };
        n.refresh_tiles();
        assert(index_view(n.component_map@) =~= Map::<Seq<usize>, Set<usize>>::empty());
        n
    }

    /// A full bag of letters.
    pub fn refresh_tiles(&mut self)
        ensures
            final(self).available_letters@ == starting_letters(),
            final(self).component_map == old(self).component_map,
            final(self).empty_entites_set == old(self).empty_entites_set,
            final(self).entities_map == old(self).entities_map,
            final(self).events == old(self).events,
            final(self).system_components == old(self).system_components,
            final(self).entity_id_counter == old(self).entity_id_counter,
            final(self).grid_size == old(self).grid_size,
            final(self).tile_points == old(self).tile_points,
            final(self).gold == old(self).gold,
            final(self).floor == old(self).floor,
            final(self).fog_enabled == old(self).fog_enabled,
            final(self).no_keys_pressed == old(self).no_keys_pressed,
            final(self).show == old(self).show,
            final(self).items == old(self).items,
    {
        self.available_letters = get_starting_tiles();
    }

    /// Replaces the entity's component of the kind of `component` (the last
    /// one of that kind), and records the change as an event when the new
    /// component differs from the old one.
    pub fn set_component(&mut self, id: usize, component: Component)
        requires
            old(self).wf(),
            old(self).entities_map@.contains_key(id),
            old(self).entities_map@[id].wf(),
            has_kind(old(self).entities_map@[id].components@, kind(component)),
        ensures
            final(self).wf(),
            final(self).index() == old(self).index(),
            final(self).entities_map@.contains_key(id),
            final(self).entities_map@.remove(id) == old(self).entities_map@.remove(id),
            ({
                let e0 = old(self).entities_map@[id];
                let e1 = final(self).entities_map@[id];
                let i = e0.component_index@[kind(component) as usize] as int;
                &&& e1.wf()
                &&& e1.id == e0.id
                &&& e1.component_index == e0.component_index
                &&& e1.components@ == e0.components@.update(i, component)
                &&& if same_component(e0.components@[i], component) {
                    final(self).events == old(self).events
                } else {
                    &&& final(self).events@.len() == old(self).events@.len() + 1
                    &&& final(self).events@.drop_last() == old(self).events@
                    &&& final(self).events@.last() matches Event::ComponentChanged(c) && same_component(c, component)
                }
            }),
            final(self).entity_id_counter == old(self).entity_id_counter,
            final(self).system_components == old(self).system_components,
            final(self).component_map == old(self).component_map,
            final(self).empty_entites_set == old(self).empty_entites_set,
            final(self).fog_enabled == old(self).fog_enabled,
            same_extras(*old(self), *final(self)),
    {
        let ghost e0 = self.entities_map@[id];
        let mut e = self.entities_map.remove(&id).unwrap();
        let k = component_kind(&component);
        proof {
            assert(e.component_index@.contains_key(k));
            assert(last_of_kind(e.components@, k as nat, e.component_index@[k] as int));
        }
        let i = *e.component_index.get(&k).unwrap();
        if !component_eq(&e.components[i], &component) {
            let c = clone_component(&component);
            self.events.push(Event::ComponentChanged(c));
        }
        proof {
            lemma_replace_same_kind(e.component_index@, e.components@, i as int, component);
        }
        e.components.set(i, component);
        self.entities_map.insert(id, e);
        proof {
            assert(self.entities_map@.remove(id) =~= old(self).entities_map@.remove(id));
        }
    }

    /// Removes every entity indexed under the kind of `component` alone.
    pub fn remove_all_by_component(&mut self, component: Component)
        requires
            old(self).wf(),
        ensures
            final(self).wf(),
            kind_removed(*old(self), *final(self), kind(component) as usize),
            final(self).events == old(self).events,
            final(self).entity_id_counter == old(self).entity_id_counter,
            final(self).system_components == old(self).system_components,
            same_extras(*old(self), *final(self)),
    {
        let key = vec![component_kind(&component)];
        assert(key@ =~= seq![kind(component) as usize]);
        let found = find_key(&self.component_map, &key);
        let i = match found {
            Some(i) => i,
            None => {
                return;
            },
        };
        proof {
            lemma_entry_of(self.component_map@, i as int);
        }
        let ghost m0 = self.index();
        let ghost e0 = self.entities_map@;
        let ghost gone = m0[key@];
        let entities = set_elements(&self.component_map[i].1);
        let mut j: usize = 0;
        proof {
            assert(entities@.take(0).to_set() =~= Set::<usize>::empty());
            assert(self.index() =~= Map::new(
                |k: Seq<usize>| m0.contains_key(k),
                |k: Seq<usize>| m0[k].difference(entities@.take(0).to_set()),
            )) by {
                assert forall|k: Seq<usize>| #[trigger] m0.contains_key(k) implies m0[k] =~= m0[k].difference(
                    entities@.take(0).to_set(),
                ) by {}
            }
            assert(self.entities_map@ =~= e0.remove_keys(entities@.take(0).to_set()));
        }
        while j < entities.len()
            invariant
                j <= entities@.len(),
                entities@.to_set() == gone,
                entities@.no_duplicates(),
                self.wf(),
                self.index() == Map::new(
                    |k: Seq<usize>| m0.contains_key(k),
                    |k: Seq<usize>| m0[k].difference(entities@.take(j as int).to_set()),
                ),
                self.entities_map@ == e0.remove_keys(entities@.take(j as int).to_set()),
                self.events == old(self).events,
                self.entity_id_counter == old(self).entity_id_counter,
                self.system_components == old(self).system_components,
                same_extras(*old(self), *self),
            decreases entities@.len() - j,
        {
            let x = entities[j];
            let ghost before = self.index();
            self.remove_entity(x);
            proof {
                let done = entities@.take(j as int).to_set();
                let done2 = entities@.take(j + 1).to_set();
                assert(entities@.take(j + 1) =~= entities@.take(j as int).push(x));
                let t0 = entities@.take(j as int);
                let t1 = entities@.take(j + 1);
                assert(done2 =~= done.insert(x)) by {
                    assert forall|u: usize| done2.contains(u) == done.insert(x).contains(u) by {
                        if done2.contains(u) {
                            assert(t1.contains(u));
                            let m = choose|m: int| 0 <= m < t1.len() && #[trigger] t1[m] == u;
                            if m < j {
                                assert(t0[m] == u);
                                assert(t0.contains(u));
                            }
                        }
                        if done.contains(u) {
                            assert(t0.contains(u));
                            let m = choose|m: int| 0 <= m < t0.len() && #[trigger] t0[m] == u;
                            assert(t1[m] == u);
                            assert(t1.contains(u));
                        }
                        if u == x {
                            assert(t1[j as int] == u);
                            assert(t1.contains(u));
                        }
                    }
                }
                assert(self.index() =~= Map::new(
                    |k: Seq<usize>| m0.contains_key(k),
                    |k: Seq<usize>| m0[k].difference(done2),
                )) by {
                    assert forall|k: Seq<usize>| #[trigger] self.index().contains_key(k) implies self.index()[k]
                        =~= m0[k].difference(done2) by {}
                }
                assert(self.entities_map@ =~= e0.remove_keys(done2));
            }
            j = j + 1;
        }
        proof {
            assert(entities@.take(entities@.len() as int) =~= entities@);
        }
    }

    /// Adds the modifiers to those of the game (see `AllModifiers::add`).
    pub fn apply_modifiers(&mut self, modifiers: &mut AllModifiers)
        requires
            old(self).mods.gold + old(modifiers).gold <= usize::MAX,
            old(self).mods.shop_discount + old(modifiers).shop_discount <= usize::MAX,
            isize::MIN <= old(self).mods.word_size_change + old(modifiers).word_size_change <= isize::MAX,
        ensures
            final(self).mods.gold == old(self).mods.gold + old(modifiers).gold,
            final(self).mods.shop_discount == old(self).mods.shop_discount + old(modifiers).shop_discount,
            final(self).mods.word_size_change == old(self).mods.word_size_change + old(modifiers).word_size_change,
            final(self).mods.mults@ == old(self).mods.mults@ + old(modifiers).mults@,
            final(self).mods.rack_size_change == old(self).mods.rack_size_change,
            final(modifiers).mults@.len() == 0,
            final(self).component_map == old(self).component_map,
            final(self).empty_entites_set == old(self).empty_entites_set,
            final(self).entities_map == old(self).entities_map,
            final(self).events == old(self).events,
            final(self).entity_id_counter == old(self).entity_id_counter,
            final(self).system_components == old(self).system_components,
            final(self).items == old(self).items,
            final(self).gold == old(self).gold,
            final(self).name == old(self).name,
            final(self).grid_size == old(self).grid_size,
            final(self).change_events == old(self).change_events,
            final(self).rooms == old(self).rooms,
            final(self).hallways == old(self).hallways,
            final(self).available_letters == old(self).available_letters,
            final(self).fog_enabled == old(self).fog_enabled,
            final(self).dialogue_input == old(self).dialogue_input,
            final(self).floor == old(self).floor,
            final(self).tile_points == old(self).tile_points,
            final(self).no_keys_pressed == old(self).no_keys_pressed,
            final(self).show == old(self).show,
    {
        self.mods.add(modifiers);
    }
}

} // verus!
