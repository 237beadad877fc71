//! What the player meets on a step: an item to pick up or buy, the doors a
//! key opens, a mystery to look into, and the secret walls that give way.

use vstd::prelude::*;
use crate::text::{append_str, decimal, usize_to_string};
use crate::word_dungeon::components::{kind, Component, DialogueLine};
use crate::word_dungeon::dialogue::component_of;
use crate::word_dungeon::entity::has_kind;
use crate::word_dungeon::event::Event;
use crate::word_dungeon::handling::{item_name, item_name_of, line_colors, line_texts, says, show_dialogue};
use crate::word_dungeon::items::{get_item_description, item_description_text, Item};
use crate::word_dungeon::colors::REVEALED_BG_COLOR;
use crate::word_dungeon::components::Position;
use crate::word_dungeon::create::{create_revealed_floor, renders};
use crate::word_dungeon::dialogue::position_of;
use crate::word_dungeon::entity::Entity;
use crate::word_dungeon::state::{add_entity, index_without, kind_removed, same_extras, State};
use crate::word_dungeon::equality::same_component;

verus! {

/// The entities indexed under the kind `k` alone.
pub open spec fn of_kind(s: State, k: usize) -> Set<usize> {
    if s.index().contains_key(seq![k]) {
        s.index()[seq![k]]
    } else {
        Set::empty()
    }
}

/// The entity's item, where its component holds one.
pub open spec fn item_of(s: State, id: usize) -> Option<Item> {
    match component_of(s.entities_map@[id], 23) {
        Component::Item(i) => i,
        _ => None,
    }
}

/// The entity's price, where it has a price that holds one.
pub open spec fn paywall_of(s: State, id: usize) -> Option<usize> {
    match component_of(s.entities_map@[id], 24) {
        Component::Paywall(p) => p,
        _ => None,
    }
}

/// The first line of the dialogue that offers an item: its price, or, when
/// it costs nothing, the question whether to pick it up.
pub open spec fn offer_text(item: Item, price: usize) -> Seq<char> {
    if price > 0 {
        "Buy "@ + item_name(item) + " for "@ + decimal(price as nat) + "g?\n"@
    } else {
        "Pick up "@ + item_name(item) + "?\n"@
    }
}

/// Everything but the items and the entities with their index is as in `s0`.
pub open spec fn kept_but_items(s0: State, s1: State) -> bool {
    &&& s1.events == s0.events
    &&& s1.entity_id_counter == s0.entity_id_counter
    &&& s1.system_components == s0.system_components
    &&& s1.grid_size == s0.grid_size
    &&& s1.change_events == s0.change_events
    &&& s1.name == s0.name
    &&& s1.rooms == s0.rooms
    &&& s1.hallways == s0.hallways
    &&& s1.available_letters == s0.available_letters
    &&& s1.gold == s0.gold
    &&& s1.fog_enabled == s0.fog_enabled
    &&& s1.dialogue_input == s0.dialogue_input
    &&& s1.floor == s0.floor
    &&& s1.mods == s0.mods
    &&& s1.tile_points == s0.tile_points
    &&& s1.no_keys_pressed == s0.no_keys_pressed
    &&& s1.show == s0.show
    &&& s1.empty_entites_set == s0.empty_entites_set
}

/// `s1` is `s0` after the player `player` touched the item entity `hit`:
/// an item with a price is offered in a dialogue (bought or picked up on
/// "y"); one without is taken at once.
pub open spec fn item_touched(s0: State, s1: State, hit: usize, player: usize) -> bool {
    let item = item_of(s0, hit)->0;
    if has_kind(s0.entities_map@[hit].components@, 24) {
        let price = paywall_of(s0, hit)->0;
        says(
            s0,
            s1,
            seq![offer_text(item, price), item_description_text(item)@],
            seq![None, None],
            seq!["y"@, "n"@],
            seq![Event::BuyItem((hit, item, price, player)), Event::Nothing],
        )
    } else {
        &&& s1.wf()
        &&& s1.items@ == s0.items@.push(item)
        &&& s1.entities_map@ == s0.entities_map@.remove(hit)
        &&& s1.index() == index_without(s0.index(), hit)
        &&& kept_but_items(s0, s1)
    }
}

/// The player `player` touches the item entity `hit`.
pub fn touch_item(state: &mut State, hit: usize, player: usize)
    requires
        old(state).wf(),
        old(state).entity_id_counter + 5 <= isize::MAX,
        old(state).entities_map@.contains_key(hit),
        old(state).entities_map@[hit].wf(),
        has_kind(old(state).entities_map@[hit].components@, 23),
        item_of(*old(state), hit) is Some,
        has_kind(old(state).entities_map@[hit].components@, 24) ==> paywall_of(*old(state), hit) is Some,
    ensures
        item_touched(*old(state), *final(state), hit, player),
{
    let ghost s0 = *state;
    let entity = state.entities_map.get(&hit).unwrap();
    let item = match entity.get_component(Component::Item(None)) {
        Some(Component::Item(Some(i))) => *i,
        _ => {
            proof {
                assert(false);
            }
            return;
        },
    };
    if entity.contains_component(&Component::Paywall(None)) {
        let price = match entity.get_component(Component::Paywall(None)) {
            Some(Component::Paywall(Some(p))) => *p,
            _ => {
                proof {
                    assert(false);
                }
                return;
            },
        };
        let mut first = String::new();
        if price > 0 {
            append_str(&mut first, "Buy ");
            append_str(&mut first, item_name_of(&item));
            append_str(&mut first, " for ");
            let n = usize_to_string(price);
            append_str(&mut first, n.as_str());
            append_str(&mut first, "g?\n");
        } else {
            append_str(&mut first, "Pick up ");
            append_str(&mut first, item_name_of(&item));
            append_str(&mut first, "?\n");
        }
        let ghost t0 = first@;
        let mut lines: Vec<DialogueLine> = vec![(first, None)];
        let mut description = get_item_description(&item);
        lines.append(&mut description);
        let ghost ls = lines@;
        let options: Vec<(String, Event)> = vec![
            ("y".to_owned(), Event::BuyItem((hit, item, price, player))),
            ("n".to_owned(), Event::Nothing),
        ];
        let ghost os = options@;
        show_dialogue(state, lines, options);
        proof {
            assert(t0 == offer_text(item, price));
            assert(line_texts(ls) =~= seq![offer_text(item, price), item_description_text(item)@]);
            assert(line_colors(ls) =~= seq![None, None]);
            assert(os.map_values(|o: (String, Event)| o.0@) =~= seq!["y"@, "n"@]);
            assert(os.map_values(|o: (String, Event)| o.1) =~= seq![
                Event::BuyItem((hit, item, price, player)),
                Event::Nothing,
            ]);
        }
    } else {
        state.items.push(item);
        state.remove_entity(hit);
    }
}

/// `s1` is `s0` with a question: "See what is in the foggy haze?", whose
/// "y" brings out the mystery `hit`.
pub open spec fn mystery_asked(s0: State, s1: State, hit: usize) -> bool {
    says(
        s0,
        s1,
        seq!["See what is in the foggy haze?"@],
        seq![None],
        seq!["y"@, "n"@],
        seq![Event::CreateMystery(hit), Event::Nothing],
    )
}

/// Asks whether to look into the mystery `hit`.
pub fn mystery_prompt(state: &mut State, hit: usize)
    requires
        old(state).wf(),
        old(state).entity_id_counter + 5 <= isize::MAX,
    ensures
        mystery_asked(*old(state), *final(state), hit),
{
    let lines: Vec<DialogueLine> = vec![("See what is in the foggy haze?".to_owned(), None)];
    let ghost ls = lines@;
    let options: Vec<(String, Event)> = vec![
        ("y".to_owned(), Event::CreateMystery(hit)),
        ("n".to_owned(), Event::Nothing),
    ];
    let ghost os = options@;
    show_dialogue(state, lines, options);
    proof {
        assert(line_texts(ls) =~= seq!["See what is in the foggy haze?"@]);
        assert(line_colors(ls) =~= seq![None]);
        assert(os.map_values(|o: (String, Event)| o.0@) =~= seq!["y"@, "n"@]);
        assert(os.map_values(|o: (String, Event)| o.1) =~= seq![Event::CreateMystery(hit), Event::Nothing]);
    }
}


/// The place of an item in the order of the declaration, which is the order
/// the derived comparison gives.
pub open spec fn item_rank(item: Item) -> nat {
    match item {
        Item::Key => 0,
        Item::Glasses => 1,
        Item::MembershipCard => 2,
        Item::VowelVortex => 3,
        Item::ConsonantConundrum => 4,
        Item::DoubleDouble => 5,
        Item::DustyYam => 6,
        Item::AspiringAbacus => 7,
        Item::TranquilScissors => 8,
        Item::DyingFicus => 9,
        Item::MissingCrab => 10,
        Item::BreakfastCoffee => 11,
        Item::SpicyPillow => 12,
        Item::SuspiciousSausage => 13,
        Item::ElectricChair => 14,
        Item::CosmicTeapot => 15,
        Item::GlowingBrick => 16,
        Item::SizzlingRug => 17,
        Item::FuzzyKeyboard => 18,
        Item::BathroomSteak => 19,
    }
}

/// The items are in the order of the declaration.
pub open spec fn items_sorted(items: Seq<Item>) -> bool {
    forall|i: int, j: int| 0 <= i <= j < items.len() ==> item_rank(#[trigger] items[i]) <= item_rank(#[trigger] items[j])
}

/// `slice::binary_search` for the key. On items in the order of the
/// declaration (the order of the derived `Ord`), `Ok` points at a key and
/// `Err` means there is none; on items in another order the documentation
/// calls the result meaningless, and nothing is stated of it.
#[verifier::external_body]
fn search_key(items: &Vec<Item>) -> (r: Result<usize, usize>)
    ensures
        items_sorted(items@) ==> match r {
            Ok(i) => i < items@.len() && items@[i as int] == Item::Key,
            Err(_) => !items@.contains(Item::Key),
        },
{
    items.binary_search(&Item::Key)
}

/// Whether the player holds a key.
fn holds_key(items: &Vec<Item>) -> (b: bool)
    ensures
        b == items@.contains(Item::Key),
{
    let mut i: usize = 0;
    while i < items.len()
        invariant
            i <= items@.len(),
            forall|j: int| 0 <= j < i ==> items@[j] != Item::Key,
        decreases items@.len() - i,
    {
        if items[i] == Item::Key {
            assert(items@[i as int] == Item::Key);
            return true;
        }
        i = i + 1;
    }
    false
}

/// What a door does to `s0` when the player walks into it, `found` telling
/// whether the search found the key: without a key nothing happens; with
/// one found, the key is spent and every door goes.
pub open spec fn doors_opened(s0: State, s1: State, found: bool) -> bool {
    if !s0.items@.contains(Item::Key) {
        &&& found
        &&& s1 == s0
    } else if found {
        &&& s1.wf()
        &&& exists|i: int| 0 <= i < s0.items@.len() && s0.items@[i] == Item::Key && s1.items@ == s0.items@.remove(i)
        &&& kind_removed(s0, s1, 9)
        &&& kept_but_items(s0, s1)
    } else {
        &&& !items_sorted(s0.items@)
        &&& s1 == s0
    }
}

/// The player walks into a door. Returns whether the search for the key
/// the player holds found it (it always does while the items are in order;
/// `false` only where the search, which wants them in order, came back
/// empty-handed).
pub fn open_doors(state: &mut State) -> (found: bool)
    requires
        old(state).wf(),
    ensures
        doors_opened(*old(state), *final(state), found),
{
    let ghost s0 = *state;
    if !holds_key(&state.items) {
        return true;
    }
    match search_key(&state.items) {
        Ok(i) => {
            if i >= state.items.len() || state.items[i] != Item::Key {
                return false;
            }
            state.items.remove(i);
            state.remove_all_by_component(Component::Door);
            proof {
                assert(s0.items@[i as int] == Item::Key);
            }
            true
        },
        Err(_) => false,
    }
}


/// The entity's secret group, where its component holds one.
pub open spec fn group_of(s: State, id: usize) -> Option<usize> {
    match component_of(s.entities_map@[id], 17) {
        Component::SecretWall(g) => g,
        _ => None,
    }
}

/// Every identifier in use was handed out by the counter.
pub open spec fn ids_issued(s: State) -> bool {
    forall|id: usize| #[trigger] s.entities_map@.contains_key(id) ==> id < s.entity_id_counter
}

/// Each secret wall of `walls` exists, with its group and its position.
pub open spec fn secrets_known(s: State, walls: Set<usize>) -> bool {
    forall|id: usize| #[trigger] walls.contains(id) ==> {
        &&& s.entities_map@.contains_key(id)
        &&& s.entities_map@[id].wf()
        &&& has_kind(s.entities_map@[id].components@, 17)
        &&& has_kind(s.entities_map@[id].components@, 0)
        &&& group_of(s, id) is Some
        &&& position_of(s.entities_map@[id]) is Some
    }
}

/// The secret walls of `walls` in the group `group`.
pub open spec fn group_walls(s: State, walls: Set<usize>, group: usize) -> Set<usize> {
    walls.filter(|id: usize| group_of(s, id) == Some(group))
}

/// `e` is the revealed floor numbered `id` at `pos`.
pub open spec fn floor_at(e: Entity, id: usize, pos: Position) -> bool {
    &&& e.id == id
    &&& e.wf()
    &&& e.components@.len() == 4
    &&& e.components@[0] == Component::Position(Some(pos))
    &&& renders(e.components@[1], " "@, (0, 0, 0, 0))
    &&& e.components@[2] == Component::BackgroundColor(Some(REVEALED_BG_COLOR))
    &&& e.components@[3] == Component::ZIndex(Some(0))
}

/// `s1` is `s0` with the secret walls of the group `group` gone, each
/// replaced by a revealed floor at its position, numbered from the counter
/// on in the order `ws`; every other entity stays.
pub open spec fn replaced_by_floors(s0: State, s1: State, walls: Set<usize>, ws: Seq<usize>) -> bool {
    let c0 = s0.entity_id_counter;
    &&& ws.no_duplicates()
    &&& ws.to_set() == walls
    &&& s1.entity_id_counter == c0 + ws.len()
    &&& forall|k: int| 0 <= k < ws.len() ==> floor_at(
        #[trigger] s1.entities_map@[(c0 + k) as usize],
        (c0 + k) as usize,
        position_of(s0.entities_map@[ws[k]])->0,
    )
    &&& forall|id: usize| #[trigger] s1.entities_map@.contains_key(id) <==> ((s0.entities_map@.contains_key(id)
        && !walls.contains(id)) || (c0 <= id < c0 + ws.len()))
    &&& forall|id: usize| s0.entities_map@.contains_key(id) && !walls.contains(id) ==> #[trigger] s1.entities_map@[id]
        == s0.entities_map@[id]
}

/// `s1` is `s0` after the secret walls of `walls` in the group `group` gave
/// way.
pub open spec fn revealed(s0: State, s1: State, walls: Set<usize>, group: usize) -> bool {
    &&& s1.wf()
    &&& ids_issued(s1)
    &&& exists|ws: Seq<usize>| replaced_by_floors(s0, s1, group_walls(s0, walls, group), ws)
    &&& s1.events == s0.events
    &&& s1.system_components == s0.system_components
    &&& same_extras(s0, s1)
}

/// The secret walls of `walls` in the group `group` give way to revealed
/// floors.
pub fn reveal_group(state: &mut State, group: usize, walls: &Vec<usize>)
    requires
        old(state).wf(),
        ids_issued(*old(state)),
        walls@.no_duplicates(),
        secrets_known(*old(state), walls@.to_set()),
        old(state).entity_id_counter + walls@.len() < usize::MAX,
    ensures
        revealed(*old(state), *final(state), walls@.to_set(), group),
{
    let ghost s0 = *state;
    let ghost c0 = s0.entity_id_counter;
    let ghost r = group_walls(s0, walls@.to_set(), group);
    let ghost mut done: Seq<usize> = Seq::empty();
    let mut i: usize = 0;
    while i < walls.len()
        invariant
            i <= walls@.len(),
            walls@.no_duplicates(),
            secrets_known(s0, walls@.to_set()),
            ids_issued(s0),
            c0 == s0.entity_id_counter,
            c0 + walls@.len() < usize::MAX,
            r == group_walls(s0, walls@.to_set(), group),
            state.wf(),
            ids_issued(*state),
            done.no_duplicates(),
            done.len() <= i,
            done.to_set() == r.intersect(walls@.take(i as int).to_set()),
            state.entity_id_counter == c0 + done.len(),
            forall|k: int| 0 <= k < done.len() ==> floor_at(
                #[trigger] state.entities_map@[(c0 + k) as usize],
                (c0 + k) as usize,
                position_of(s0.entities_map@[done[k]])->0,
            ),
            forall|id: usize| #[trigger] state.entities_map@.contains_key(id) <==> ((s0.entities_map@.contains_key(id)
                && !done.to_set().contains(id)) || (c0 <= id < c0 + done.len())),
            forall|id: usize| s0.entities_map@.contains_key(id) && !done.to_set().contains(id) ==> #[trigger] state.entities_map@[id]
                == s0.entities_map@[id],
            state.events == s0.events,
            state.system_components == s0.system_components,
            same_extras(s0, *state),
        decreases walls@.len() - i,
    {
        let w = walls[i];
        proof {
            assert(walls@.to_set().contains(w));
            assert(walls@.take(i + 1) =~= walls@.take(i as int).push(w));
            assert(!walls@.take(i as int).contains(w));
            assert(!done.to_set().contains(w));
        }
        let entity = state.entities_map.get(&w).unwrap();
        let g = match entity.get_component(Component::SecretWall(None)) {
            Some(Component::SecretWall(Some(g))) => *g,
            _ => {
                proof {
                    assert(false);
                }
                0
            },
        };
        let pos = match entity.get_component(Component::Position(None)) {
            Some(Component::Position(Some(p))) => *p,
            _ => {
                proof {
                    assert(false);
                }
                Position::zero()
            },
        };
        if g == group {
            let ghost before = *state;
            state.remove_entity(w);
            let floor = create_revealed_floor(&mut state.entity_id_counter, &pos);
            let ghost fid = floor.id;
            add_entity(floor, state);
            proof {
                let old_done = done;
                done = done.push(w);
                assert(r.contains(w));
                old_done.lemma_push_to_set_commute(w);
                walls@.take(i as int).lemma_push_to_set_commute(w);
                assert(done.to_set() =~= r.intersect(walls@.take(i + 1).to_set()));
                assert(fid == c0 + old_done.len());
                assert forall|k: int| 0 <= k < done.len() implies floor_at(
                    #[trigger] state.entities_map@[(c0 + k) as usize],
                    (c0 + k) as usize,
                    position_of(s0.entities_map@[done[k]])->0,
                ) by {
                    if k < old_done.len() {
                        assert(before.entities_map@.contains_key((c0 + k) as usize));
                    }
                }
                assert(done.no_duplicates()) by {
                    assert forall|a: int, b: int| 0 <= a < b < done.len() implies done[a] != done[b] by {
                        if b == old_done.len() {
                            assert(old_done.to_set().contains(done[a]));
                        }
                    }
                }
            }
        } else {
            proof {
                assert(!r.contains(w));
                walls@.take(i as int).lemma_push_to_set_commute(w);
                assert(done.to_set() =~= r.intersect(walls@.take(i + 1).to_set()));
            }
        }
        i = i + 1;
    }
    proof {
        assert(walls@.take(walls@.len() as int) =~= walls@);
        assert(done.to_set() =~= r);
        assert(replaced_by_floors(s0, *state, r, done));
    }
}


/// The entity's step count, where its component holds one.
pub open spec fn steps_of(s: State, id: usize) -> Option<usize> {
    match component_of(s.entities_map@[id], 26) {
        Component::StepCount(c) => c,
        _ => None,
    }
}

/// Each step counter of `ids` exists and holds a count below the largest
/// number.
pub open spec fn counters_known(s: State, ids: Set<usize>) -> bool {
    forall|id: usize| #[trigger] ids.contains(id) ==> {
        &&& s.entities_map@.contains_key(id)
        &&& s.entities_map@[id].wf()
        &&& has_kind(s.entities_map@[id].components@, 26)
        &&& steps_of(s, id) matches Some(c) && c < usize::MAX
    }
}

/// `e1` is `e0` with its component of the kind of `c` replaced by `c`.
pub open spec fn replaced(e0: Entity, e1: Entity, c: Component) -> bool {
    &&& e1.id == e0.id
    &&& e1.wf()
    &&& e1.component_index == e0.component_index
    &&& e1.components@ == e0.components@.update(e0.component_index@[kind(c) as usize] as int, c)
}

/// The next count of the counter `id` of `s`.
pub open spec fn next_count(s: State, id: usize) -> Component {
    Component::StepCount(Some((steps_of(s, id)->0 + 1) as usize))
}

/// The event records a change to the component `c`.
pub open spec fn changed_to(e: Event, c: Component) -> bool {
    e matches Event::ComponentChanged(x) && same_component(x, c)
}

/// `s1` is `s0` with each counter of `ids` one step further, each change
/// recorded as an event, in the order `cs`.
pub open spec fn counted_in(s0: State, s1: State, ids: Set<usize>, cs: Seq<usize>) -> bool {
    &&& cs.no_duplicates()
    &&& cs.to_set() == ids
    &&& s1.events@.len() == s0.events@.len() + cs.len()
    &&& s1.events@.take(s0.events@.len() as int) == s0.events@
    &&& forall|k: int| 0 <= k < cs.len() ==> changed_to(#[trigger] s1.events@[s0.events@.len() + k], next_count(s0, cs[k]))
}

/// `s1` is `s0` after every step counter of `ids` counted one more step.
pub open spec fn steps_counted(s0: State, s1: State, ids: Set<usize>) -> bool {
    &&& s1.wf()
    &&& s1.index() == s0.index()
    &&& s1.entities_map@.dom() == s0.entities_map@.dom()
    &&& forall|id: usize| #[trigger] ids.contains(id) ==> replaced(
        s0.entities_map@[id],
        s1.entities_map@[id],
        next_count(s0, id),
    )
    &&& forall|id: usize| s0.entities_map@.contains_key(id) && !ids.contains(id) ==> #[trigger] s1.entities_map@[id]
        == s0.entities_map@[id]
    &&& exists|cs: Seq<usize>| counted_in(s0, s1, ids, cs)
    &&& s1.entity_id_counter == s0.entity_id_counter
    &&& s1.system_components == s0.system_components
    &&& same_extras(s0, s1)
}

/// Every step counter of `counters` counts one more step.
pub fn count_steps(state: &mut State, counters: &Vec<usize>)
    requires
        old(state).wf(),
        counters@.no_duplicates(),
        counters_known(*old(state), counters@.to_set()),
    ensures
        steps_counted(*old(state), *final(state), counters@.to_set()),
{
    let ghost s0 = *state;
    let ghost ids = counters@.to_set();
    let mut i: usize = 0;
    proof {
        assert(counters@.take(0) =~= Seq::<usize>::empty());
        assert(state.events@.take(s0.events@.len() as int) =~= s0.events@);
    }
    while i < counters.len()
        invariant
            i <= counters@.len(),
            counters@.to_set() == ids,
            counters@.no_duplicates(),
            counters_known(s0, ids),
            state.wf(),
            state.index() == s0.index(),
            state.entities_map@.dom() == s0.entities_map@.dom(),
            forall|id: usize| #[trigger] ids.contains(id) && counters@.take(i as int).contains(id) ==> replaced(
                s0.entities_map@[id],
                state.entities_map@[id],
                next_count(s0, id),
            ),
            forall|id: usize| s0.entities_map@.contains_key(id) && !counters@.take(i as int).contains(id) ==> #[trigger] state.entities_map@[id]
                == s0.entities_map@[id],
            counted_in(s0, *state, counters@.take(i as int).to_set(), counters@.take(i as int)),
            state.entity_id_counter == s0.entity_id_counter,
            state.system_components == s0.system_components,
            same_extras(s0, *state),
        decreases counters@.len() - i,
    {
        let id = counters[i];
        proof {
            assert(counters@.to_set().contains(id));
            assert(counters@.take(i + 1) =~= counters@.take(i as int).push(id));
            assert(!counters@.take(i as int).contains(id));
        }
        let entity = state.entities_map.get(&id).unwrap();
        let c = match entity.get_component(Component::StepCount(None)) {
            Some(Component::StepCount(Some(c))) => *c,
            _ => {
                proof {
                    assert(false);
                }
                0
            },
        };
        let ghost before = *state;
        state.set_component(id, Component::StepCount(Some(c + 1)));
        proof {
            let t0 = counters@.take(i as int);
            let t1 = counters@.take(i + 1);
            assert(!same_component(component_of(before.entities_map@[id], 26), Component::StepCount(Some((c + 1) as usize))));
            assert(next_count(s0, id) == Component::StepCount(Some((c + 1) as usize)));
            assert(state.entities_map@.dom() =~= s0.entities_map@.dom()) by {
                assert(state.entities_map@.remove(id).dom() == before.entities_map@.remove(id).dom());
            }
            assert forall|x: usize| s0.entities_map@.contains_key(x) && !t1.contains(x) implies #[trigger] state.entities_map@[x]
                == s0.entities_map@[x] by {
                assert(t1[i as int] == id);
                assert(x != id);
                assert(state.entities_map@.remove(id)[x] == before.entities_map@.remove(id)[x]);
            }
            assert forall|x: usize| #[trigger] ids.contains(x) && t1.contains(x) implies replaced(
                s0.entities_map@[x],
                state.entities_map@[x],
                next_count(s0, x),
            ) by {
                if x != id {
                    assert(t0.contains(x));
                    assert(state.entities_map@.remove(id)[x] == before.entities_map@.remove(id)[x]);
                }
            }
            t0.lemma_push_to_set_commute(id);
            assert(t1.no_duplicates());
            assert(state.events@.take(s0.events@.len() as int) =~= s0.events@) by {
                assert(state.events@.drop_last() == before.events@);
                assert(before.events@.take(s0.events@.len() as int) == s0.events@);
            }
            assert forall|k: int| 0 <= k < t1.len() implies changed_to(#[trigger] state.events@[s0.events@.len() + k], next_count(s0, t1[k])) by {
                if k < t0.len() {
                    assert(state.events@[s0.events@.len() + k] == before.events@[s0.events@.len() + k]);
                }
            }
        }
        i = i + 1;
    }
    proof {
        assert(counters@.take(counters@.len() as int) =~= counters@);
        assert(counted_in(s0, *state, ids, counters@));
    }
}

} // verus!
