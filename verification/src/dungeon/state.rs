//! The state of a dungeon game: the entities, the index of entities by the
//! kinds of their components, the rooms and the player's letters.

use std::collections::{HashMap, HashSet};
use vstd::prelude::*;
use crate::dungeon::components::{component_kind, kind, Component, Item, Position, Rect};
use crate::dungeon::entity::Entity;
use crate::dungeon::event::Event;
use crate::dungeon::letters::{
    draw_letters, lemma_filter_all, lemma_in_without, letter_pool, remove_letter, start_vowels, without_letters,
};
use crate::dungeon::rooms::RoomType;
use crate::random::thread_rng;
use crate::word_dungeon::state::{
    add_to_key, find_key, index_view, index_without, keys_distinct, lemma_entry_of, remove_from_index, ComponentMap,
};

verus! {

broadcast use vstd::std_specs::hash::group_hash_axioms;

/// The kinds of the components of a list, in order.
pub open spec fn kinds_of(s: Seq<Component>) -> Seq<usize> {
    s.map_values(|c: Component| kind(c) as usize)
}

/// The kinds of the components of a list.
pub fn component_kinds(components: &[Component]) -> (kinds: Vec<usize>)
    ensures
        kinds@ == kinds_of(components@),
{
    let mut kinds: Vec<usize> = Vec::new();
    let mut i: usize = 0;
    while i < components.len()
        invariant
            i <= components@.len(),
            kinds@ == kinds_of(components@.take(i as int)),
        decreases components@.len() - i,
    {
        kinds.push(component_kind(&components[i]));
        proof {
            assert(components@.take(i + 1) =~= components@.take(i as int).push(components@[i as int]));
            assert(kinds_of(components@.take(i + 1)) =~= kinds_of(components@.take(i as int)).push(kind(components@[i as int]) as usize));
        }
        i = i + 1;
    }
    proof {
        assert(components@.take(components@.len() as int) =~= components@);
    }
    kinds
}

/// The letters a refreshed game holds: the five vowels, then five other
/// letters of the alphabet, all different; those left to draw are the
/// letters of the alphabet not held, in order.
pub open spec fn fresh_letters(available: Seq<char>, remaining: Seq<char>) -> bool {
    &&& available.len() == 10
    &&& available.no_duplicates()
    &&& available.take(5) == start_vowels()
    &&& forall|i: int| 5 <= i < 10 ==> without_letters(letter_pool(), start_vowels()).contains(#[trigger] available[i])
    &&& remaining == without_letters(letter_pool(), available)
}

/// The state of a game. The key last pressed, the keyboard and the timing
/// of the loop are kept by the program around it.
pub struct State {
    pub grid_size: Rect,
    pub events: Vec<Event>,
    pub change_events: Vec<Component>,
    pub rng: rand::rngs::ThreadRng,
    pub entity_id_counter: usize,
    pub entities_map: HashMap<usize, Entity>,
    pub component_map: ComponentMap,
    pub system_components: Vec<Vec<Component>>,
    pub rooms: Vec<(Rect, Position, RoomType)>,
    pub available_letters: Vec<char>,
    pub letters_remaining: Vec<char>,
    pub items: Vec<Item>,
}

impl State {
    /// No list of kinds occurs twice in the index, and no letter is held
    /// twice.
    pub open spec fn wf(&self) -> bool {
        &&& keys_distinct(self.component_map@)
        &&& self.available_letters@.no_duplicates()
    }

    /// The index as a map.
    pub open spec fn index(&self) -> Map<Seq<usize>, Set<usize>> {
        index_view(self.component_map@)
    }

    /// A new game on a grid of the given size, for systems that work on the
    /// given lists of components: no entities, an empty index, and fresh
    /// letters.
    pub fn new(grid_size: Rect, system_components: Vec<Vec<Component>>) -> (s: State)
        ensures
            s.wf(),
            s.grid_size == grid_size,
            s.events@.len() == 0,
            s.entity_id_counter == 0,
            s.entities_map@.len() == 0,
            s.index() == Map::<Seq<usize>, Set<usize>>::empty(),
            s.system_components == system_components,
            s.rooms@.len() == 0,
            s.items@.len() == 0,
            fresh_letters(s.available_letters@, s.letters_remaining@),
    {
        let mut n = State {
            grid_size,
            events: Vec::new(),
            rng: thread_rng(),
            entity_id_counter: 0,
            entities_map: HashMap::new(),
            component_map: Vec::new(),
            system_components,
            rooms: Vec::new(),
            change_events: Vec::new(),
            letters_remaining: Vec::new(),
            available_letters: Vec::new(),
            items: Vec::new(),
        };
        n.refresh();
        assert(index_view(n.component_map@) =~= Map::<Seq<usize>, Set<usize>>::empty());
        n
    }

    /// Fresh letters: the five vowels and five other letters drawn at random
    /// from the alphabet.
    pub fn refresh(&mut self)
        ensures
            fresh_letters(final(self).available_letters@, final(self).letters_remaining@),
            final(self).component_map == old(self).component_map,
            final(self).entities_map == old(self).entities_map,
            final(self).events == old(self).events,
            final(self).entity_id_counter == old(self).entity_id_counter,
            final(self).system_components == old(self).system_components,
            final(self).grid_size == old(self).grid_size,
            final(self).rooms == old(self).rooms,
            final(self).items == old(self).items,
    {
        let mut available: Vec<char> = vec!['A', 'E', 'U', 'I', 'O'];
        let pool: Vec<char> = vec![
            'A', 'B', 'C', 'D', 'E', 'F', 'G', 'H', 'I', 'J', 'K', 'L', 'M', 'N', 'O', 'P', 'Q', 'R', 'S', 'T', 'U', 'V',
            'W', 'X', 'Y', 'S',
        ];
        proof {
            assert(available@ =~= start_vowels());
            assert(pool@ =~= letter_pool());
            let others = seq!['B', 'C', 'D', 'F', 'G'];
            let w = without_letters(letter_pool(), start_vowels());
            assert forall|i: int| 0 <= i < 5 implies w.contains(#[trigger] others[i]) by {
                let c = others[i];
                assert(letter_pool()[1] == 'B' && letter_pool()[2] == 'C' && letter_pool()[3] == 'D');
                assert(letter_pool()[5] == 'F' && letter_pool()[6] == 'G');
                assert(letter_pool().contains(c));
                assert(!start_vowels().contains(c));
                lemma_in_without(letter_pool(), start_vowels(), c);
            }
            assert(others.no_duplicates());
            others.unique_seq_to_set();
            assert(others.to_set().subset_of(w.to_set()));
            w.lemma_cardinality_of_set();
            vstd::set_lib::lemma_len_subset(others.to_set(), w.to_set());
            assert(start_vowels().no_duplicates());
        }
        let remaining = draw_letters(&mut self.rng, &mut available, &pool, 10);
        self.available_letters = available;
        self.letters_remaining = remaining;
    }

    /// The entities that have components of all the kinds of `components`,
    /// in the order given. The list must be indexed.
    pub fn get_entities(&self, components: &[Component]) -> (r: &HashSet<usize>)
        requires
            self.wf(),
            self.index().contains_key(kinds_of(components@)),
        ensures
            r@ == self.index()[kinds_of(components@)],
    {
        let key = component_kinds(components);
        match find_key(&self.component_map, &key) {
            Some(i) => {
                proof {
                    lemma_entry_of(self.component_map@, i as int);
                }
                &self.component_map[i].1
            },
            None => {
                proof {
                    assert(false);
                }
                &self.component_map[0].1
            },
        }
    }

    /// Up to `n` different letters drawn at random from those left to draw;
    /// there must be `n` different ones there. The letters left to draw stay
    /// as they were.
    pub fn get_unchosen_letters_if_possible(&mut self, n: usize) -> (letters: Vec<char>)
        requires
            n <= old(self).letters_remaining@.to_set().len(),
        ensures
            letters@.len() == n,
            letters@.no_duplicates(),
            forall|i: int| 0 <= i < n ==> old(self).letters_remaining@.contains(#[trigger] letters@[i]),
            final(self).letters_remaining == old(self).letters_remaining,
            final(self).available_letters == old(self).available_letters,
            final(self).component_map == old(self).component_map,
            final(self).entities_map == old(self).entities_map,
            final(self).events == old(self).events,
            final(self).entity_id_counter == old(self).entity_id_counter,
    {
        let mut chosen: Vec<char> = Vec::new();
        proof {
            let empty = Seq::<char>::empty();
            assert(chosen@ =~= empty);
            lemma_filter_all(self.letters_remaining@, |c: char| !empty.contains(c));
        }
        let _ = draw_letters(&mut self.rng, &mut chosen, &self.letters_remaining, n);
        proof {
            let empty = Seq::<char>::empty();
            assert forall|i: int| 0 <= i < n implies old(self).letters_remaining@.contains(#[trigger] chosen@[i]) by {
                assert(without_letters(self.letters_remaining@, empty) == self.letters_remaining@);
            }
        }
        chosen
    }

    /// Takes the letter `c` in hand, and no longer draws it.
    pub fn add_letter(&mut self, c: char)
        requires
            old(self).wf(),
        ensures
            final(self).wf(),
            final(self).available_letters@ == if old(self).available_letters@.contains(c) {
                old(self).available_letters@
            } else {
                old(self).available_letters@.push(c)
            },
            final(self).letters_remaining@ == old(self).letters_remaining@.filter(|x: char| x != c),
            final(self).component_map == old(self).component_map,
            final(self).entities_map == old(self).entities_map,
            final(self).events == old(self).events,
            final(self).entity_id_counter == old(self).entity_id_counter,
    {
        let mut held = false;
        let mut i: usize = 0;
        while i < self.available_letters.len()
            invariant
                i <= self.available_letters@.len(),
                held <==> exists|j: int| 0 <= j < i && self.available_letters@[j] == c,
            decreases self.available_letters@.len() - i,
        {
            if self.available_letters[i] == c {
                held = true;
            }
            i = i + 1;
        }
        if !held {
            proof {
                assert forall|a: int, b: int| 0 <= a < b < self.available_letters@.len() + 1 implies self.available_letters@.push(c)[a]
                    != self.available_letters@.push(c)[b] by {}
            }
            self.available_letters.push(c);
        }
        self.letters_remaining = remove_letter(&self.letters_remaining, c);
    }

    /// Removes an entity from the index and from the entities.
    pub fn remove_entity(&mut self, id: usize)
        requires
            old(self).wf(),
        ensures
            final(self).wf(),
            final(self).index() == index_without(old(self).index(), id),
            final(self).entities_map@ == old(self).entities_map@.remove(id),
            final(self).events == old(self).events,
            final(self).entity_id_counter == old(self).entity_id_counter,
            final(self).available_letters == old(self).available_letters,
            final(self).letters_remaining == old(self).letters_remaining,
    {
        remove_from_index(&mut self.component_map, id);
        self.entities_map.remove(&id);
    }
}

/// The kinds of the components of an entity.
pub open spec fn entity_kinds(e: Entity) -> Set<usize> {
    Set::new(|u: usize| exists|i: int| 0 <= i < e.components@.len() && kind(e.components@[i]) == u)
}

/// Whether the kinds `kinds` include every kind of `key`.
pub open spec fn has_all(kinds: Set<usize>, key: Seq<usize>) -> bool {
    forall|j: int| 0 <= j < key.len() ==> kinds.contains(#[trigger] key[j])
}

/// The index after an entity with the kinds `kinds` and the identifier `id`
/// is added: an entry for each system's list of kinds, holding the entity
/// where it has all the kinds of that list.
pub open spec fn index_with_systems(
    m: Map<Seq<usize>, Set<usize>>,
    kinds: Set<usize>,
    systems: Seq<Seq<usize>>,
    id: usize,
) -> Map<Seq<usize>, Set<usize>> {
    Map::new(
        |k: Seq<usize>| m.contains_key(k) || systems.contains(k),
        |k: Seq<usize>|
            (if m.contains_key(k) {
                m[k]
            } else {
                Set::empty()
            }) + (if systems.contains(k) && has_all(kinds, k) {
                set![id]
            } else {
                Set::empty()
            }),
    )
}

proof fn lemma_index_with_system(
    m: Map<Seq<usize>, Set<usize>>,
    kinds: Set<usize>,
    systems: Seq<Seq<usize>>,
    s: Seq<usize>,
    id: usize,
)
    ensures
        ({
            let before = index_with_systems(m, kinds, systems, id);
            before.insert(
                s,
                (if before.contains_key(s) { before[s] } else { Set::empty() }) + (if has_all(kinds, s) {
                    set![id]
                } else {
                    Set::empty()
                }),
            ) == index_with_systems(m, kinds, systems.push(s), id)
        }),
{
    let before = index_with_systems(m, kinds, systems, id);
    let lhs = before.insert(s, (if before.contains_key(s) { before[s] } else { Set::empty() }) + (if has_all(kinds, s) {
        set![id]
    } else {
        Set::empty()
    }));
    let s2 = systems.push(s);
    let rhs = index_with_systems(m, kinds, s2, id);
    assert forall|q: Seq<usize>| #[trigger] s2.contains(q) == (systems.contains(q) || q == s) by {
        if s2.contains(q) {
            let j = choose|j: int| 0 <= j < s2.len() && s2[j] == q;
            if j < systems.len() {
                assert(systems[j] == q);
            }
        }
        if systems.contains(q) {
            let j = choose|j: int| 0 <= j < systems.len() && systems[j] == q;
            assert(s2[j] == q);
        }
        if q == s {
            assert(s2[systems.len() as int] == q);
        }
    }
    assert forall|q: Seq<usize>| #[trigger] lhs.contains_key(q) == rhs.contains_key(q) by {}
    assert forall|q: Seq<usize>| #[trigger] lhs.contains_key(q) implies lhs[q] == rhs[q] by {
        assert(lhs[q] =~= rhs[q]);
    }
    assert(lhs =~= rhs);
}

/// Whether an entity has components of all the kinds of `key`.
fn has_all_kinds(e: &Entity, key: &Vec<usize>) -> (r: bool)
    ensures
        r == has_all(entity_kinds(*e), key@),
{
    let mut j: usize = 0;
    while j < key.len()
        invariant
            j <= key@.len(),
            forall|m: int| 0 <= m < j ==> entity_kinds(*e).contains(#[trigger] key@[m]),
        decreases key@.len() - j,
    {
        let mut found = false;
        let mut i: usize = 0;
        while i < e.components.len()
            invariant
                i <= e.components@.len(),
                j < key@.len(),
                found <==> exists|m: int| 0 <= m < i && kind(e.components@[m]) == key@[j as int],
            decreases e.components@.len() - i,
        {
            if component_kind(&e.components[i]) == key[j] {
                found = true;
            }
            i = i + 1;
        }
        if !found {
            proof {
                assert(!entity_kinds(*e).contains(key@[j as int]));
            }
            return false;
        }
        j = j + 1;
    }
    true
}

/// The lists of kinds of the systems' lists of components.
pub open spec fn system_kinds(systems: Seq<Vec<Component>>) -> Seq<Seq<usize>> {
    systems.map_values(|v: Vec<Component>| kinds_of(v@))
}

/// Adds an entity: each system's list of kinds gets an entry in the index,
/// which holds the entity where it has components of all those kinds; the
/// entity joins the entities.
pub fn add_entity(entity: Entity, entities: &mut HashMap<usize, Entity>, component_map: &mut ComponentMap, systems: &[Vec<Component>])
    requires
        keys_distinct(old(component_map)@),
    ensures
        keys_distinct(final(component_map)@),
        index_view(final(component_map)@) == index_with_systems(
            index_view(old(component_map)@),
            entity_kinds(entity),
            system_kinds(systems@),
            entity.id,
        ),
        final(entities)@ == old(entities)@.insert(entity.id, entity),
{
    let ghost m0 = index_view(component_map@);
    let ghost kinds = entity_kinds(entity);
    let ghost all = system_kinds(systems@);
    let mut i: usize = 0;
    assert(index_with_systems(m0, kinds, Seq::empty(), entity.id) =~= m0) by {
        assert forall|k: Seq<usize>| #[trigger] m0.contains_key(k) implies index_with_systems(m0, kinds, Seq::empty(), entity.id)[k]
            == m0[k] by {
            assert(index_with_systems(m0, kinds, Seq::empty(), entity.id)[k] =~= m0[k]);
        }
    }
    assert(all.take(0) =~= Seq::<Seq<usize>>::empty());
    while i < systems.len()
        invariant
            i <= systems@.len(),
            all == system_kinds(systems@),
            kinds == entity_kinds(entity),
            keys_distinct(component_map@),
            index_view(component_map@) == index_with_systems(m0, kinds, all.take(i as int), entity.id),
        decreases systems@.len() - i,
    {
        let key = component_kinds(systems[i].as_slice());
        let join = has_all_kinds(&entity, &key);
        proof {
            lemma_index_with_system(m0, kinds, all.take(i as int), key@, entity.id);
            assert(all.take(i + 1) =~= all.take(i as int).push(key@));
        }
        add_to_key(component_map, key, entity.id, join);
        i = i + 1;
    }
    assert(all.take(systems@.len() as int) =~= all);
    let id = entity.id;
    entities.insert(id, entity);
}

} // verus!
