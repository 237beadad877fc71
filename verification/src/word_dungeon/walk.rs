//! A step of the player: what stands on the cell ahead decides whether the
//! player moves there, fights, picks something up, opens doors or is asked
//! about a mystery.

use vstd::prelude::*;
use crate::word_dungeon::components::{kind, Component, Position};
use crate::word_dungeon::dialogue::{component_of, position_of};
use crate::word_dungeon::entity::has_kind;
use crate::word_dungeon::equality::same_component;
use crate::word_dungeon::state::{kinds_of, same_extras, State};
use crate::word_dungeon::touch::{
    changed_to, count_steps, counters_known, doors_opened, group_of, ids_issued, item_of, item_touched, mystery_asked,
    mystery_prompt, of_kind, open_doors, paywall_of, replaced, reveal_group, revealed, secrets_known, steps_counted,
    touch_item,
};
use crate::equality_helpers::set_elements;

verus! {

/// How handling a key ended: as usual, with a fight against a minion that
/// the caller runs (the minion, whether it is the boss, and the cell it
/// stands on), or with the key to the doors not found by the search that
/// wants the items in order.
#[derive(PartialEq, Eq, Structural, Clone, Copy, Debug)]
pub enum InputOutcome {
    Done,
    Fight { minion: usize, boss: bool, at: Position },
    KeyNotFound,
}

/// `s1` is `s0` after `set_component(id, c)`: the entity's component of the
/// kind of `c` replaced by `c`, the change recorded when there is one.
pub open spec fn component_set(s0: State, s1: State, id: usize, c: Component) -> bool {
    let e0 = s0.entities_map@[id];
    let e1 = s1.entities_map@[id];
    let i = e0.component_index@[kind(c) as usize] as int;
    &&& s1.wf()
    &&& s1.index() == s0.index()
    &&& s1.entities_map@.contains_key(id)
    &&& s1.entities_map@.remove(id) == s0.entities_map@.remove(id)
    &&& replaced(e0, e1, c)
    &&& if same_component(e0.components@[i], c) {
        s1.events == s0.events
    } else {
        &&& s1.events@.len() == s0.events@.len() + 1
        &&& s1.events@.drop_last() == s0.events@
        &&& changed_to(s1.events@.last(), c)
    }
    &&& s1.entity_id_counter == s0.entity_id_counter
    &&& s1.system_components == s0.system_components
    &&& s1.component_map == s0.component_map
    &&& same_extras(s0, s1)
}

/// The entities standing on `at`.
pub open spec fn hits(s: State, at: Position) -> Set<usize> {
    of_kind(s, 0).filter(|id: usize| position_of(s.entities_map@[id]) == Some(at))
}

/// The entity stops the player: a minion, an item, a door, a wall or a
/// mystery.
pub open spec fn blocks(s: State, h: usize) -> bool {
    ||| of_kind(s, 19).contains(h)
    ||| of_kind(s, 23).contains(h)
    ||| of_kind(s, 9).contains(h)
    ||| of_kind(s, 8).contains(h)
    ||| of_kind(s, 14).contains(h)
}

/// Whether the minion is the boss of the floor.
pub open spec fn boss_of(s: State, id: usize) -> bool {
    match component_of(s.entities_map@[id], 19) {
        Component::Minion(Some(m)) => m.0,
        _ => false,
    }
}

/// What meeting the entity `h` (of the kinds of `snap`) does to `s0`, in the
/// order the kinds are tried: a minion is fought, an item touched, the
/// doors opened, a wall stops the player, and a mystery is asked about.
pub open spec fn met(snap: State, s0: State, s1: State, h: usize, player: usize, at: Position, r: InputOutcome) -> bool {
    if of_kind(snap, 19).contains(h) {
        &&& r == (InputOutcome::Fight { minion: h, boss: boss_of(snap, h), at })
        &&& s1 == s0
    } else if of_kind(snap, 23).contains(h) {
        &&& r == InputOutcome::Done
        &&& item_touched(s0, s1, h, player)
    } else if of_kind(snap, 9).contains(h) {
        ||| r == InputOutcome::Done && doors_opened(s0, s1, true)
        ||| r == InputOutcome::KeyNotFound && doors_opened(s0, s1, false)
    } else if of_kind(snap, 8).contains(h) {
        &&& r == InputOutcome::Done
        &&& s1 == s0
    } else {
        &&& r == InputOutcome::Done
        &&& mystery_asked(s0, s1, h)
    }
}

/// The player moved to `at` in `s0`, giving `s1`, and every step counter
/// counted the step.
pub open spec fn moved(snap: State, s0: State, s1: State, player: usize, at: Position) -> bool {
    exists|m: State| #[trigger] component_set(s0, m, player, Component::Position(Some(at))) && steps_counted(
        m,
        s1,
        of_kind(snap, 26),
    )
}

/// Before `mid`, the secret walls among the first `i` entities of `hs`
/// gave way (at most one of them is a secret wall).
pub open spec fn passed(s0: State, mid: State, hs: Seq<usize>, i: int) -> bool {
    let secrets = of_kind(s0, 17);
    ||| (forall|j: int| 0 <= j < i ==> !secrets.contains(#[trigger] hs[j])) && mid == s0
    ||| exists|j: int| 0 <= j < i && secrets.contains(#[trigger] hs[j]) && revealed(s0, mid, secrets, group_of(s0, hs[j])->0)
}

/// `s1` is `s0` after the player `player` stepped towards `at`: the
/// entities standing there are met one by one, in some order `hs`; secret
/// walls give way as they are met, and the first that stops the player
/// decides (`ended`); where none does, the player moves there.
pub open spec fn walked(s0: State, s1: State, player: usize, at: Position, r: InputOutcome, ended: bool) -> bool {
    exists|hs: Seq<usize>, i: int, mid: State|
        {
            &&& hs.no_duplicates()
            &&& hs.to_set() == hits(s0, at)
            &&& 0 <= i <= hs.len()
            &&& forall|j: int| 0 <= j < i ==> !blocks(s0, #[trigger] hs[j])
            &&& #[trigger] passed(s0, mid, hs, i)
            &&& if i < hs.len() {
                &&& blocks(s0, hs[i])
                &&& ended
                &&& met(s0, mid, s1, hs[i], player, at, r)
            } else {
                &&& !ended
                &&& r == InputOutcome::Done
                &&& moved(s0, mid, s1, player, at)
            }
        }
}


/// Each positioned entity exists, with its position.
pub open spec fn positions_known(s: State) -> bool {
    forall|id: usize| #[trigger] of_kind(s, 0).contains(id) ==> {
        &&& s.entities_map@.contains_key(id)
        &&& s.entities_map@[id].wf()
        &&& has_kind(s.entities_map@[id].components@, 0)
        &&& position_of(s.entities_map@[id]) is Some
    }
}

/// Each item entity exists, with its item, and with its price where it has
/// one.
pub open spec fn items_known(s: State) -> bool {
    forall|id: usize| #[trigger] of_kind(s, 23).contains(id) ==> {
        &&& s.entities_map@.contains_key(id)
        &&& s.entities_map@[id].wf()
        &&& has_kind(s.entities_map@[id].components@, 23)
        &&& item_of(s, id) is Some
        &&& has_kind(s.entities_map@[id].components@, 24) ==> paywall_of(s, id) is Some
    }
}

/// Each minion exists, with what it is.
pub open spec fn minions_known(s: State) -> bool {
    forall|id: usize| #[trigger] of_kind(s, 19).contains(id) ==> {
        &&& s.entities_map@.contains_key(id)
        &&& s.entities_map@[id].wf()
        &&& has_kind(s.entities_map@[id].components@, 19)
        &&& component_of(s.entities_map@[id], 19) matches Component::Minion(Some(_))
    }
}

/// No two secret walls share a cell.
pub open spec fn secrets_apart(s: State) -> bool {
    forall|a: usize, b: usize|
        #![trigger of_kind(s, 17).contains(a), of_kind(s, 17).contains(b)]
        of_kind(s, 17).contains(a) && of_kind(s, 17).contains(b) && a != b ==> position_of(s.entities_map@[a])
            != position_of(s.entities_map@[b])
}

/// The state is one the player can step in: the entities a step reads are
/// there with what is read of them; the secret walls stand apart, are no
/// minions, items or step counters, and are not the player; the player is
/// no step counter; and the counter leaves room for the floors and a
/// dialogue.
pub open spec fn ready_to_walk(s: State, player: usize) -> bool {
    &&& s.wf()
    &&& ids_issued(s)
    &&& s.entities_map@.contains_key(player)
    &&& s.entities_map@[player].wf()
    &&& has_kind(s.entities_map@[player].components@, 0)
    &&& positions_known(s)
    &&& secrets_known(s, of_kind(s, 17))
    &&& secrets_apart(s)
    &&& items_known(s)
    &&& minions_known(s)
    &&& counters_known(s, of_kind(s, 26))
    &&& !of_kind(s, 17).contains(player)
    &&& !of_kind(s, 26).contains(player)
    &&& forall|id: usize| #[trigger] of_kind(s, 17).contains(id) ==> !of_kind(s, 19).contains(id) && !of_kind(
        s,
        23,
    ).contains(id) && !of_kind(s, 26).contains(id)
    &&& s.entity_id_counter + of_kind(s, 17).len() + 5 <= isize::MAX
}

/// What a step reads of the state before it starts: where the positioned
/// entities stand, and the entities of each kind that matters.
pub struct Surroundings {
    pub positioned: Vec<(usize, Position)>,
    pub minions: Vec<usize>,
    pub items: Vec<usize>,
    pub doors: Vec<usize>,
    pub walls: Vec<usize>,
    pub mysteries: Vec<usize>,
    pub secrets: Vec<usize>,
    pub counters: Vec<usize>,
}

/// The surroundings are those of `s`.
pub open spec fn taken(sur: Surroundings, s: State) -> bool {
    &&& sur.positioned@.map_values(|p: (usize, Position)| p.0).no_duplicates()
    &&& sur.positioned@.map_values(|p: (usize, Position)| p.0).to_set() == of_kind(s, 0)
    &&& forall|k: int| 0 <= k < sur.positioned@.len() ==> position_of(s.entities_map@[(#[trigger] sur.positioned@[k]).0])
        == Some(sur.positioned@[k].1)
    &&& sur.minions@.to_set() == of_kind(s, 19)
    &&& sur.items@.to_set() == of_kind(s, 23)
    &&& sur.doors@.to_set() == of_kind(s, 9)
    &&& sur.walls@.to_set() == of_kind(s, 8)
    &&& sur.mysteries@.to_set() == of_kind(s, 14)
    &&& sur.secrets@.to_set() == of_kind(s, 17)
    &&& sur.secrets@.no_duplicates()
    &&& sur.counters@.to_set() == of_kind(s, 26)
    &&& sur.counters@.no_duplicates()
}

/// The entities indexed under the kind of `c` alone, once each.
fn entities_of(state: &State, c: Component) -> (v: Vec<usize>)
    requires
        state.wf(),
    ensures
        v@.to_set() == of_kind(*state, kind(c) as usize),
        v@.no_duplicates(),
        v@.len() == of_kind(*state, kind(c) as usize).len(),
{
    let kinds = [c];
    proof {
        assert(kinds_of(kinds@) =~= seq![kind(c) as usize]);
    }
    let v = set_elements(state.get_entities(&kinds));
    proof {
        v@.unique_seq_to_set();
    }
    v
}

/// Reads the surroundings of a step.
pub(crate) fn look_around(state: &State) -> (sur: Surroundings)
    requires
        state.wf(),
        positions_known(*state),
    ensures
        taken(sur, *state),
        sur.secrets@.len() == of_kind(*state, 17).len(),
{
    let ids = entities_of(state, Component::Position(None));
    let mut positioned: Vec<(usize, Position)> = Vec::new();
    let mut i: usize = 0;
    while i < ids.len()
        invariant
            i <= ids@.len(),
            ids@.to_set() == of_kind(*state, 0),
            ids@.no_duplicates(),
            positions_known(*state),
            positioned@.map_values(|p: (usize, Position)| p.0) == ids@.take(i as int),
            forall|k: int| 0 <= k < positioned@.len() ==> position_of(state.entities_map@[(#[trigger] positioned@[k]).0])
                == Some(positioned@[k].1),
        decreases ids@.len() - i,
    {
        let id = ids[i];
        proof {
            assert(ids@.to_set().contains(id));
        }
        let p = match state.entities_map.get(&id).unwrap().get_component(Component::Position(None)) {
            Some(Component::Position(Some(p))) => *p,
            _ => {
                proof {
                    assert(false);
                }
                Position::zero()
            },
        };
        let ghost pv = positioned@;
        positioned.push((id, p));
        proof {
            assert(positioned@ == pv.push((id, p)));
            assert(positioned@.map_values(|p: (usize, Position)| p.0) =~= pv.map_values(|p: (usize, Position)| p.0).push(id));
            assert(ids@.take(i + 1) =~= ids@.take(i as int).push(id));
        }
        i = i + 1;
    }
    proof {
        assert(ids@.take(ids@.len() as int) =~= ids@);
    }
    Surroundings {
        positioned,
        minions: entities_of(state, Component::Minion(None)),
        items: entities_of(state, Component::Item(None)),
        doors: entities_of(state, Component::Door),
        walls: entities_of(state, Component::Wall),
        mysteries: entities_of(state, Component::Mystery),
        secrets: entities_of(state, Component::SecretWall(None)),
        counters: entities_of(state, Component::StepCount(None)),
    }
}

/// Whether `x` is among `v`.
fn holds_id(v: &Vec<usize>, x: usize) -> (b: bool)
    ensures
        b == v@.contains(x),
{
    let mut i: usize = 0;
    while i < v.len()
        invariant
            i <= v@.len(),
            forall|j: int| 0 <= j < i ==> v@[j] != x,
        decreases v@.len() - i,
    {
        if v[i] == x {
            assert(v@[i as int] == x);
            return true;
        }
        i = i + 1;
    }
    false
}

/// The entities standing on `at`, once each.
fn standing_on(sur: &Surroundings, at: Position) -> (hs: Vec<usize>)
    requires
        sur.positioned@.map_values(|p: (usize, Position)| p.0).no_duplicates(),
    ensures
        hs@.no_duplicates(),
        forall|h: usize| #[trigger] hs@.contains(h) <==> exists|k: int|
            0 <= k < sur.positioned@.len() && sur.positioned@[k].0 == h && sur.positioned@[k].1 == at,
{
    let ghost ids = sur.positioned@.map_values(|p: (usize, Position)| p.0);
    let mut hs: Vec<usize> = Vec::new();
    let mut i: usize = 0;
    while i < sur.positioned.len()
        invariant
            i <= sur.positioned@.len(),
            ids == sur.positioned@.map_values(|p: (usize, Position)| p.0),
            ids.no_duplicates(),
            hs@.no_duplicates(),
            forall|h: usize| #[trigger] hs@.contains(h) <==> exists|k: int|
                0 <= k < i && sur.positioned@[k].0 == h && sur.positioned@[k].1 == at,
        decreases sur.positioned@.len() - i,
    {
        let (id, p) = sur.positioned[i];
        if p == at {
            proof {
                assert forall|k: int| 0 <= k < i && sur.positioned@[k].0 == id implies false by {
                    assert(ids[k] == ids[i as int]);
                }
                if hs@.contains(id) {
                    let k = choose|k: int| 0 <= k < i && sur.positioned@[k].0 == id && sur.positioned@[k].1 == at;
                    assert(ids[k] == ids[i as int]);
                }
            }
            let ghost h0 = hs@;
            hs.push(id);
            proof {
                assert(hs@ == h0.push(id));
                assert forall|h: usize| #[trigger] hs@.contains(h) <==> (h0.contains(h) || h == id) by {
                    if hs@.contains(h) && h != id {
                        let m = choose|m: int| 0 <= m < hs@.len() && hs@[m] == h;
                        assert(m < h0.len());
                        assert(h0[m] == h);
                    }
                    if h0.contains(h) {
                        let m = choose|m: int| 0 <= m < h0.len() && h0[m] == h;
                        assert(hs@[m] == h);
                    }
                    if h == id {
                        assert(hs@[h0.len() as int] == h);
                    }
                }
                assert forall|h: usize| #[trigger] hs@.contains(h) <==> exists|k: int|
                    0 <= k < i + 1 && sur.positioned@[k].0 == h && sur.positioned@[k].1 == at by {
                    if exists|k: int| 0 <= k < i + 1 && sur.positioned@[k].0 == h && sur.positioned@[k].1 == at {
                        let k = choose|k: int| 0 <= k < i + 1 && sur.positioned@[k].0 == h && sur.positioned@[k].1 == at;
                        if k < i {
                            assert(h0.contains(h));
                        }
                    }
                    if h0.contains(h) {
                        let k = choose|k: int| 0 <= k < i && sur.positioned@[k].0 == h && sur.positioned@[k].1 == at;
                        assert(0 <= k < i + 1);
                    }
                }
            }
        } else {
            proof {
                assert forall|h: usize| #[trigger] hs@.contains(h) <==> exists|k: int|
                    0 <= k < i + 1 && sur.positioned@[k].0 == h && sur.positioned@[k].1 == at by {
                    if exists|k: int| 0 <= k < i + 1 && sur.positioned@[k].0 == h && sur.positioned@[k].1 == at {
                        let k = choose|k: int| 0 <= k < i + 1 && sur.positioned@[k].0 == h && sur.positioned@[k].1 == at;
                        assert(k != i);
                    }
                }
            }
        }
        i = i + 1;
    }
    hs
}


/// What a reveal keeps: every entity that is no secret wall, and room on
/// the counter for a dialogue.
proof fn lemma_reveal_keeps(s0: State, s1: State, secrets: Set<usize>, group: usize)
    requires
        revealed(s0, s1, secrets, group),
        secrets.finite(),
        ids_issued(s0),
    ensures
        s1.entity_id_counter <= s0.entity_id_counter + secrets.len(),
        forall|id: usize| s0.entities_map@.contains_key(id) && !secrets.contains(id) ==> #[trigger] s1.entities_map@.contains_key(id)
            && s1.entities_map@[id] == s0.entities_map@[id],
{
    let walls = crate::word_dungeon::touch::group_walls(s0, secrets, group);
    let ws = choose|ws: Seq<usize>| crate::word_dungeon::touch::replaced_by_floors(s0, s1, walls, ws);
    ws.unique_seq_to_set();
    vstd::set_lib::lemma_len_subset(walls, secrets);
}

/// A step that met an entity that stops the player.
proof fn lemma_walked_met(
    s0: State,
    mid: State,
    s1: State,
    hs: Seq<usize>,
    i: int,
    player: usize,
    at: Position,
    r: InputOutcome,
)
    requires
        hs.no_duplicates(),
        hs.to_set() == hits(s0, at),
        0 <= i < hs.len(),
        forall|j: int| 0 <= j < i ==> !blocks(s0, #[trigger] hs[j]),
        passed(s0, mid, hs, i),
        blocks(s0, hs[i]),
        met(s0, mid, s1, hs[i], player, at, r),
    ensures
        walked(s0, s1, player, at, r, true),
{
}

/// A step that nothing stopped.
proof fn lemma_walked_through(s0: State, mid: State, s1: State, hs: Seq<usize>, player: usize, at: Position)
    requires
        hs.no_duplicates(),
        hs.to_set() == hits(s0, at),
        forall|j: int| 0 <= j < hs.len() ==> !blocks(s0, #[trigger] hs[j]),
        passed(s0, mid, hs, hs.len() as int),
        moved(s0, mid, s1, player, at),
    ensures
        walked(s0, s1, player, at, InputOutcome::Done, false),
{
}

/// The player steps towards `at`.
pub(crate) fn walk(state: &mut State, sur: &Surroundings, player: usize, at: Position) -> (res: (InputOutcome, bool))
    requires
        ready_to_walk(*old(state), player),
        taken(*sur, *old(state)),
        sur.secrets@.len() == of_kind(*old(state), 17).len(),
    ensures
        walked(*old(state), *final(state), player, at, res.0, res.1),
{
    let ghost s0 = *state;
    let ghost secrets = of_kind(s0, 17);
    let hs = standing_on(sur, at);
    proof {
        let ids = sur.positioned@.map_values(|p: (usize, Position)| p.0);
        assert forall|h: usize| #[trigger] hs@.to_set().contains(h) == hits(s0, at).contains(h) by {
            if hits(s0, at).contains(h) {
                assert(ids.to_set().contains(h));
                let k = choose|k: int| 0 <= k < ids.len() && ids[k] == h;
                assert(sur.positioned@[k].0 == h);
                assert(hs@.contains(h));
            }
            if hs@.contains(h) {
                let k = choose|k: int| 0 <= k < sur.positioned@.len() && sur.positioned@[k].0 == h && sur.positioned@[k].1 == at;
                assert(ids[k] == h);
                assert(ids.to_set().contains(h));
            }
        }
        assert(hs@.to_set() =~= hits(s0, at));
        sur.secrets@.unique_seq_to_set();
    }
    let mut i: usize = 0;
    while i < hs.len()
        invariant
            s0 == *old(state),
            ready_to_walk(s0, player),
            taken(*sur, s0),
            secrets == of_kind(s0, 17),
            secrets.finite(),
            sur.secrets@.len() == secrets.len(),
            hs@.no_duplicates(),
            hs@.to_set() == hits(s0, at),
            i <= hs@.len(),
            forall|j: int| 0 <= j < i ==> !blocks(s0, #[trigger] hs@[j]),
            passed(s0, *state, hs@, i as int),
            state.wf(),
            ids_issued(*state),
            state.entity_id_counter <= s0.entity_id_counter + secrets.len(),
            forall|id: usize| s0.entities_map@.contains_key(id) && !secrets.contains(id) ==> #[trigger] state.entities_map@.contains_key(id)
                && state.entities_map@[id] == s0.entities_map@[id],
        decreases hs@.len() - i,
    {
        let h = hs[i];
        let ghost mid = *state;
        proof {
            assert(hs@.to_set().contains(h));
        }
        if holds_id(&sur.minions, h) {
            let boss = match state.entities_map.get(&h).unwrap().get_component(Component::Minion(None)) {
                Some(Component::Minion(Some(m))) => m.0,
                _ => {
                    proof {
                        assert(false);
                    }
                    false
                },
            };
            let r = InputOutcome::Fight { minion: h, boss, at };
            proof {
                assert(sur.minions@.to_set().contains(h));
                lemma_walked_met(s0, mid, *state, hs@, i as int, player, at, r);
            }
            return (r, true);
        }
        if holds_id(&sur.items, h) {
            proof {
                assert(sur.items@.to_set().contains(h));
            }
            touch_item(state, h, player);
            proof {
                lemma_walked_met(s0, mid, *state, hs@, i as int, player, at, InputOutcome::Done);
            }
            return (InputOutcome::Done, true);
        }
        if holds_id(&sur.doors, h) {
            let found = open_doors(state);
            let r = if found {
                InputOutcome::Done
            } else {
                InputOutcome::KeyNotFound
            };
            proof {
                assert(sur.doors@.to_set().contains(h));
                lemma_walked_met(s0, mid, *state, hs@, i as int, player, at, r);
            }
            return (r, true);
        }
        if holds_id(&sur.walls, h) {
            proof {
                assert(sur.walls@.to_set().contains(h));
                lemma_walked_met(s0, mid, *state, hs@, i as int, player, at, InputOutcome::Done);
            }
            return (InputOutcome::Done, true);
        }
        if holds_id(&sur.mysteries, h) {
            mystery_prompt(state, h);
            proof {
                assert(sur.mysteries@.to_set().contains(h));
                lemma_walked_met(s0, mid, *state, hs@, i as int, player, at, InputOutcome::Done);
            }
            return (InputOutcome::Done, true);
        }
        if holds_id(&sur.secrets, h) {
            proof {
                assert forall|j: int| 0 <= j < i implies !secrets.contains(#[trigger] hs@[j]) by {
                    if secrets.contains(hs@[j]) {
                        assert(hs@.to_set().contains(hs@[j]));
                        assert(hits(s0, at).contains(hs@[j]));
                        assert(hits(s0, at).contains(h));
                        assert(hs@[j] != h);
                        assert(sur.secrets@.to_set().contains(h));
                        assert(of_kind(s0, 17).contains(h));
                        assert(of_kind(s0, 17).contains(hs@[j]));
                        assert(position_of(s0.entities_map@[hs@[j]]) == Some(at));
                        assert(position_of(s0.entities_map@[h]) == Some(at));
                    }
                }
                assert(mid == s0);
            }
            proof {
                assert(sur.secrets@.to_set().contains(h));
                assert(secrets.contains(h));
                assert(group_of(s0, h) is Some);
            }
            let g = match state.entities_map.get(&h).unwrap().get_component(Component::SecretWall(None)) {
                Some(Component::SecretWall(Some(g))) => *g,
                _ => {
                    proof {
                        assert(false);
                    }
                    0
                },
            };
            reveal_group(state, g, &sur.secrets);
            proof {
                lemma_reveal_keeps(s0, *state, secrets, g);
                assert(group_of(s0, hs@[i as int])->0 == g);
                assert(passed(s0, *state, hs@, i + 1));
            }
        } else {
            proof {
                if forall|j: int| 0 <= j < i ==> !secrets.contains(#[trigger] hs@[j]) {
                    assert forall|j: int| 0 <= j < i + 1 implies !secrets.contains(#[trigger] hs@[j]) by {}
                } else {
                    let j = choose|j: int| 0 <= j < i && secrets.contains(#[trigger] hs@[j]) && revealed(s0, mid, secrets, group_of(s0, hs@[j])->0);
                    assert(0 <= j < i + 1 && secrets.contains(hs@[j]));
                }
                assert(passed(s0, *state, hs@, i + 1));
            }
        }
        i = i + 1;
    }
    let ghost mid = *state;
    state.set_component(player, Component::Position(Some(at)));
    let ghost m = *state;
    proof {
        assert forall|id: usize| #[trigger] of_kind(s0, 26).contains(id) implies m.entities_map@.contains_key(id)
            && m.entities_map@[id] == s0.entities_map@[id] by {
            assert(s0.entities_map@.contains_key(id));
            assert(!secrets.contains(id));
            assert(id != player);
            assert(mid.entities_map@.contains_key(id));
            assert(mid.entities_map@.remove(player).contains_key(id));
            assert(m.entities_map@.remove(player).contains_key(id));
            assert(m.entities_map@.remove(player)[id] == mid.entities_map@.remove(player)[id]);
        }
    }
    count_steps(state, &sur.counters);
    proof {
        assert(component_set(mid, m, player, Component::Position(Some(at))));
        assert(moved(s0, mid, *state, player, at));
        lemma_walked_through(s0, mid, *state, hs@, player, at);
    }
    (InputOutcome::Done, false)
}

/// A step ends at the first entity ahead that stops the player: it ends
/// there exactly when something on the cell ahead stops the player, and
/// where nothing does, it ends as usual with the player moved on.
pub proof fn lemma_step_blocked(s0: State, s1: State, player: usize, at: Position, r: InputOutcome, ended: bool)
    requires
        walked(s0, s1, player, at, r, ended),
    ensures
        ended <==> exists|h: usize| #[trigger] hits(s0, at).contains(h) && blocks(s0, h),
        !ended ==> r == InputOutcome::Done,
{
    let (hs, i, mid) = choose|hs: Seq<usize>, i: int, mid: State|
        {
            &&& hs.no_duplicates()
            &&& hs.to_set() == hits(s0, at)
            &&& 0 <= i <= hs.len()
            &&& forall|j: int| 0 <= j < i ==> !blocks(s0, #[trigger] hs[j])
            &&& #[trigger] passed(s0, mid, hs, i)
            &&& if i < hs.len() {
                &&& blocks(s0, hs[i])
                &&& ended
                &&& met(s0, mid, s1, hs[i], player, at, r)
            } else {
                &&& !ended
                &&& r == InputOutcome::Done
                &&& moved(s0, mid, s1, player, at)
            }
        };
    if i < hs.len() {
        assert(hs.to_set().contains(hs[i]));
    } else {
        assert forall|h: usize| #[trigger] hits(s0, at).contains(h) implies !blocks(s0, h) by {
            assert(hs.to_set().contains(h));
            let j = hs.index_of(h);
            assert(hs[j] == h);
        }
    }
}

/// A fight is against a minion standing on the cell ahead.
pub proof fn lemma_fight_ahead(s0: State, s1: State, player: usize, at: Position, r: InputOutcome, ended: bool)
    requires
        walked(s0, s1, player, at, r, ended),
    ensures
        r matches InputOutcome::Fight { minion, boss, at: a } ==> {
            &&& hits(s0, at).contains(minion)
            &&& of_kind(s0, 19).contains(minion)
            &&& boss == boss_of(s0, minion)
            &&& a == at
            &&& s1 == s0 || exists|g: usize| revealed(s0, s1, of_kind(s0, 17), g)
        },
{
    let (hs, i, mid) = choose|hs: Seq<usize>, i: int, mid: State|
        {
            &&& hs.no_duplicates()
            &&& hs.to_set() == hits(s0, at)
            &&& 0 <= i <= hs.len()
            &&& forall|j: int| 0 <= j < i ==> !blocks(s0, #[trigger] hs[j])
            &&& #[trigger] passed(s0, mid, hs, i)
            &&& if i < hs.len() {
                &&& blocks(s0, hs[i])
                &&& ended
                &&& met(s0, mid, s1, hs[i], player, at, r)
            } else {
                &&& !ended
                &&& r == InputOutcome::Done
                &&& moved(s0, mid, s1, player, at)
            }
        };
    if i < hs.len() {
        assert(hs.to_set().contains(hs[i]));
    }
}

} // verus!
