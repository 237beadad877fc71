//! The game: its state and its systems, with counters of the frames.

use vstd::prelude::*;
use crate::dungeon::components::Rect;
use crate::word_dungeon::components::Component;
use crate::word_dungeon::equality::{clone_component, lemma_same_component_kind, same_component};
use crate::word_dungeon::state::{kinds_of, State};
use crate::word_dungeon::systems::{get_systems, SystemFn};

verus! {

/// The game: the text typed, the frames updated and drawn, the state, and the
/// systems that run on it.
pub struct Game {
    pub text: String,
    pub num_updates: u32,
    pub num_renders: u32,
    pub state: State,
    pub systems: Vec<(SystemFn, Vec<Component>, bool)>,
}

/// A copy of a list of components.
fn clone_components(cs: &Vec<Component>) -> (r: Vec<Component>)
    ensures
        r@.len() == cs@.len(),
        forall|i: int| 0 <= i < cs@.len() ==> same_component(#[trigger] r@[i], cs@[i]),
        kinds_of(r@) == kinds_of(cs@),
{
    let mut r: Vec<Component> = Vec::new();
    let mut i: usize = 0;
    while i < cs.len()
        invariant
            i <= cs@.len(),
            r@.len() == i,
            forall|j: int| 0 <= j < i ==> same_component(#[trigger] r@[j], cs@[j]),
        decreases cs@.len() - i,
    {
        r.push(clone_component(&cs[i]));
        i = i + 1;
    }
    proof {
        assert forall|j: int| 0 <= j < cs@.len() implies #[trigger] kinds_of(r@)[j] == kinds_of(cs@)[j] by {
            lemma_same_component_kind(r@[j], cs@[j]);
        }
        assert(kinds_of(r@) =~= kinds_of(cs@));
    }
    r
}


/// The items of `xs` among its first `n` whose flag, where it has one, is
/// not set, in order.
pub open spec fn kept<T>(xs: Seq<T>, flags: Seq<bool>, n: int) -> Seq<T>
    decreases n,
{
    if n <= 0 {
        Seq::empty()
    } else {
        kept(xs, flags, n - 1) + (if n - 1 < flags.len() && flags[n - 1] {
            Seq::empty()
        } else {
            seq![xs[n - 1]]
        })
    }
}


/// Each system's list of kinds in the state is that of its components.
pub open spec fn in_step(systems: Seq<(SystemFn, Vec<Component>, bool)>, lists: Seq<Vec<usize>>) -> bool {
    &&& systems.len() == lists.len()
    &&& forall|i: int| 0 <= i < systems.len() ==> (#[trigger] lists[i])@ == kinds_of(systems[i].1@)
}

/// Retiring the systems that run once keeps each system in step with its
/// list of kinds, in their order, and leaves no system that runs once.
pub proof fn lemma_retired_in_step(systems: Seq<(SystemFn, Vec<Component>, bool)>, lists: Seq<Vec<usize>>, n: int)
    requires
        in_step(systems, lists),
        0 <= n <= systems.len(),
    ensures
        in_step(kept(systems, once_flags(systems), n), kept(lists, once_flags(systems), n)),
        forall|j: int| 0 <= j < kept(systems, once_flags(systems), n).len() ==> !(#[trigger] kept(systems, once_flags(systems), n)[j]).2,
    decreases n,
{
    if n > 0 {
        lemma_retired_in_step(systems, lists, n - 1);
        let f = once_flags(systems);
        let a = kept(systems, f, n - 1);
        let b = kept(lists, f, n - 1);
        if !f[n - 1] {
            assert(kept(systems, f, n) =~= a.push(systems[n - 1]));
            assert(kept(lists, f, n) =~= b.push(lists[n - 1]));
        } else {
            assert(kept(systems, f, n) =~= a);
            assert(kept(lists, f, n) =~= b);
        }
    }
}


proof fn lemma_no_once_left(systems: Seq<(SystemFn, Vec<Component>, bool)>, n: int)
    requires
        0 <= n <= systems.len(),
    ensures
        forall|j: int| 0 <= j < kept(systems, once_flags(systems), n).len() ==> !(#[trigger] kept(systems, once_flags(systems), n)[j]).2,
    decreases n,
{
    if n > 0 {
        lemma_no_once_left(systems, n - 1);
        let f = once_flags(systems);
        if !f[n - 1] {
            assert(kept(systems, f, n) =~= kept(systems, f, n - 1).push(systems[n - 1]));
        } else {
            assert(kept(systems, f, n) =~= kept(systems, f, n - 1));
        }
    }
}

/// Whether each system runs once.
pub open spec fn once_flags(systems: Seq<(SystemFn, Vec<Component>, bool)>) -> Seq<bool> {
    systems.map_values(|s: (SystemFn, Vec<Component>, bool)| s.2)
}

/// Keeps the items of `xs` whose flag, where it has one, is not set.
fn keep_unflagged<T>(xs: &mut Vec<T>, flags: &Vec<bool>)
    ensures
        final(xs)@ == kept(old(xs)@, flags@, old(xs)@.len() as int),
{
    let ghost orig = xs@;
    let mut rest: Vec<T> = Vec::new();
    std::mem::swap(&mut rest, xs);
    let n = rest.len();
    let mut i: usize = 0;
    assert(rest@.skip(0) =~= rest@);
    while i < n
        invariant
            n == orig.len(),
            i <= n,
            rest@ == orig.skip(i as int),
            xs@ == kept(orig, flags@, i as int),
        decreases n - i,
    {
        let x = rest.remove(0);
        let drop = i < flags.len() && flags[i];
        if !drop {
            xs.push(x);
        }
        proof {
            assert(rest@ =~= orig.skip(i + 1));
            if drop {
                assert(xs@ =~= kept(orig, flags@, i + 1));
            } else {
                assert(xs@ =~= kept(orig, flags@, i + 1));
            }
        }
        i = i + 1;
    }
}

impl Game {
    /// A new game on a grid seventy cells wide and three high, with the
    /// systems of `get_systems` and a state indexed for their components.
    pub fn new() -> (g: Game)
        ensures
            g.text@.len() == 0,
            g.num_updates == 0,
            g.num_renders == 0,
            g.state.wf(),
            g.state.grid_size == (Rect { width: 70, height: 3 }),
            g.state.entity_id_counter == 0,
            g.state.entities_map@.len() == 0,
            g.systems@.len() == 7,
            g.state.system_components@.len() == 7,
            forall|i: int| 0 <= i < 7 ==> (#[trigger] g.state.system_components@[i])@ == kinds_of(g.systems@[i].1@),
            in_step(g.systems@, g.state.system_components@),
    {
        let systems = get_systems();
        let mut lists: Vec<Vec<Component>> = Vec::new();
        let mut i: usize = 0;
        while i < systems.len()
            invariant
                i <= systems@.len(),
                lists@.len() == i,
                forall|j: int| 0 <= j < i ==> kinds_of((#[trigger] lists@[j])@) == kinds_of(systems@[j].1@),
            decreases systems@.len() - i,
        {
            lists.push(clone_components(&systems[i].1));
            i = i + 1;
        }
        let state = State::new(Rect { width: 70, height: 3 }, lists);
        Game { text: String::new(), num_updates: 0, num_renders: 0, state, systems }
    }

    /// Retires the systems that run once, after they ran: each goes, with
    /// the list of kinds it has in the state. A system that runs once
    /// needs that list.
    pub fn retire_single_shots(&mut self)
        requires
            forall|i: int| 0 <= i < old(self).systems@.len() && (#[trigger] old(self).systems@[i]).2 ==> i < old(
                self,
            ).state.system_components@.len(),
        ensures
            final(self).systems@ == kept(old(self).systems@, once_flags(old(self).systems@), old(self).systems@.len() as int),
            final(self).state.system_components@ == kept(
                old(self).state.system_components@,
                once_flags(old(self).systems@),
                old(self).state.system_components@.len() as int,
            ),
            in_step(old(self).systems@, old(self).state.system_components@) ==> in_step(
                final(self).systems@,
                final(self).state.system_components@,
            ),
            forall|j: int| 0 <= j < final(self).systems@.len() ==> !(#[trigger] final(self).systems@[j]).2,
            final(self).state.entities_map == old(self).state.entities_map,
            final(self).state.component_map == old(self).state.component_map,
            final(self).state.events == old(self).state.events,
            final(self).state.entity_id_counter == old(self).state.entity_id_counter,
            final(self).state.empty_entites_set == old(self).state.empty_entites_set,
            final(self).text == old(self).text,
            final(self).num_updates == old(self).num_updates,
            final(self).num_renders == old(self).num_renders,
    {
        let mut flags: Vec<bool> = Vec::new();
        let mut i: usize = 0;
        while i < self.systems.len()
            invariant
                i <= self.systems@.len(),
                flags@ == once_flags(self.systems@).take(i as int),
            decreases self.systems@.len() - i,
        {
            flags.push(self.systems[i].2);
            assert(once_flags(self.systems@).take(i + 1) =~= once_flags(self.systems@).take(i as int).push(self.systems@[i as int].2));
            i = i + 1;
        }
        assert(flags@ =~= once_flags(self.systems@));
        let ghost sys0 = self.systems@;
        let ghost lists0 = self.state.system_components@;
        keep_unflagged(&mut self.systems, &flags);
        keep_unflagged(&mut self.state.system_components, &flags);
        proof {
            lemma_no_once_left(sys0, sys0.len() as int);
            if in_step(sys0, lists0) {
                lemma_retired_in_step(sys0, lists0, sys0.len() as int);
            }
        }
    }

    /// Counts an update.
    pub fn your_update_function(&mut self)
        requires
            old(self).num_updates < u32::MAX,
        ensures
            final(self).num_updates == old(self).num_updates + 1,
            final(self).num_renders == old(self).num_renders,
            final(self).text == old(self).text,
            final(self).state == old(self).state,
            final(self).systems == old(self).systems,
    {
        self.num_updates += 1;
    }
}

} // verus!
