//! Entities: an identifier and a list of components, indexed by kind.

use std::collections::HashMap;
use vstd::prelude::*;
use crate::word_dungeon::components::{bare, component_kind, is_bare, kind, Component};

verus! {

broadcast use vstd::std_specs::hash::group_hash_axioms;

/// An entity of the game. `component_index` maps the kind of each component
/// the entity has to the position of the last component of that kind.
#[derive(Debug)]
pub struct Entity {
    pub id: usize,
    pub components: Vec<Component>,
    pub component_index: HashMap<usize, usize>,
}

/// Some component of `s` is of kind `k`.
pub open spec fn has_kind(s: Seq<Component>, k: nat) -> bool {
    exists|i: int| 0 <= i < s.len() && kind(#[trigger] s[i]) == k
}

/// `i` is the position of the last component of kind `k` in `s`.
pub open spec fn last_of_kind(s: Seq<Component>, k: nat, i: int) -> bool {
    &&& 0 <= i < s.len()
    &&& kind(s[i]) == k
    &&& forall|j: int| i < j < s.len() ==> kind(#[trigger] s[j]) != k
}

/// `index` maps exactly the kinds present in `s`, each to its last position.
pub open spec fn indexes(index: Map<usize, usize>, s: Seq<Component>) -> bool {
    &&& forall|k: usize| #[trigger] index.contains_key(k) <==> has_kind(s, k as nat)
    &&& forall|k: usize| #[trigger] index.contains_key(k) ==> last_of_kind(s, k as nat, index[k] as int)
}

impl Entity {
    /// The index is that of the components.
    pub open spec fn wf(&self) -> bool {
        indexes(self.component_index@, self.components@)
    }

    /// Whether the entity has a component of the kind of `component`, which
    /// is looked up as a key: only a bare component (see `bare`) finds one.
    pub fn contains_component(&self, component: &Component) -> (b: bool)
        requires
            self.wf(),
        ensures
            b == (bare(*component) && has_kind(self.components@, kind(*component))),
    {
        if !is_bare(component) {
            return false;
        }
        let k = component_kind(component);
        self.component_index.contains_key(&k)
    }

    /// The entity's component of the kind of `component` (the last one, where
    /// it has several), if it has one; `component` is looked up as a key, so
    /// only a bare component (see `bare`) finds anything.
    pub fn get_component(&self, component: Component) -> (r: Option<&Component>)
        requires
            self.wf(),
        ensures
            r.is_some() == (bare(component) && has_kind(self.components@, kind(component))),
            r.is_some() ==> exists|i: int|
                last_of_kind(self.components@, kind(component), i) && *r.unwrap() == self.components@[i],
            r.is_some() ==> *r.unwrap() == self.components@[self.component_index@[kind(component) as usize] as int],
    {
        if !is_bare(&component) {
            return None;
        }
        let k = component_kind(&component);
        if !self.component_index.contains_key(&k) {
            None
        } else {
            let i = *self.component_index.get(&k).unwrap();
            Some(&self.components[i])
        }
    }
}

/// A new entity with the next identifier and the given components; the
/// counter moves on by one.
pub fn new_entity(entity_id_counter: &mut usize, components: Vec<Component>) -> (e: Entity)
    requires
        *old(entity_id_counter) < usize::MAX,
    ensures
        e.id == *old(entity_id_counter),
        *final(entity_id_counter) == *old(entity_id_counter) + 1,
        e.components@ == components@,
        e.wf(),
{
    let id = *entity_id_counter;
    *entity_id_counter += 1;
    let mut component_index: HashMap<usize, usize> = HashMap::new();
    let mut i: usize = 0;
    while i < components.len()
        invariant
            i <= components@.len(),
            indexes(component_index@, components@.take(i as int)),
        decreases components@.len() - i,
    {
        let k = component_kind(&components[i]);
        let ghost prev = components@.take(i as int);
        let ghost next = components@.take(i + 1);
        let ghost old_index = component_index@;
        component_index.insert(k, i);
        proof {
            assert(next =~= prev.push(components@[i as int]));
            assert forall|k2: usize| #[trigger] component_index@.contains_key(k2) <==> has_kind(next, k2 as nat) by {
                if k2 == k {
                    assert(kind(next[i as int]) == k2);
                } else if component_index@.contains_key(k2) {
                    assert(old_index.contains_key(k2));
                    let j = choose|j: int| 0 <= j < prev.len() && kind(#[trigger] prev[j]) == k2 as nat;
                    assert(next[j] == prev[j]);
                } else if has_kind(next, k2 as nat) {
                    let j = choose|j: int| 0 <= j < next.len() && kind(#[trigger] next[j]) == k2 as nat;
                    assert(j < prev.len());
                    assert(prev[j] == next[j]);
                }
            }
            assert forall|k2: usize| #[trigger] component_index@.contains_key(k2) implies last_of_kind(
                next,
                k2 as nat,
                component_index@[k2] as int,
            ) by {
                if k2 != k {
                    assert(old_index.contains_key(k2));
                    let j = old_index[k2] as int;
                    assert(last_of_kind(prev, k2 as nat, j));
                    assert forall|m: int| j < m < next.len() implies kind(#[trigger] next[m]) != k2 as nat by {
                        if m < prev.len() {
                            assert(next[m] == prev[m]);
                        }
                    }
                }
            }
        }
        i = i + 1;
    }
    assert(components@.take(components@.len() as int) =~= components@);
    Entity { id, components, component_index }
}

/// With one component of each kind, looking a kind up finds that very
/// component.
pub proof fn lemma_one_per_kind(e: Entity, i: int)
    requires
        e.wf(),
        0 <= i < e.components@.len(),
        forall|j: int| 0 <= j < e.components@.len() && j != i ==> kind(#[trigger] e.components@[j]) != kind(e.components@[i]),
    ensures
        e.component_index@.contains_key(kind(e.components@[i]) as usize),
        e.components@[e.component_index@[kind(e.components@[i]) as usize] as int] == e.components@[i],
{
    let k = kind(e.components@[i]) as usize;
    assert(has_kind(e.components@, k as nat));
    assert(e.component_index@.contains_key(k));
    assert(last_of_kind(e.components@, k as nat, e.component_index@[k] as int));
}

} // verus!
