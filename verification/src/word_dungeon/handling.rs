//! Handling the events of the game, one at a time: the messages they show,
//! the purchases, the wishes granted and the name given.

use vstd::prelude::*;
use crate::text::{append_str, decimal, usize_to_string};
use crate::word_dungeon::components::{Component, DialogueLine, Position, ViewType};
use crate::word_dungeon::create::create_dialogue;
use crate::word_dungeon::effects::{
    apply_effect, apply_effects, effect_describable, effect_text, effects_fit, get_all_modifiers_from_effects, get_effect_description,
    lowercase_first_letter, totals, with_first, AllModifiers, Effect, ModifierTotals,
};
use crate::text::lowercase_of;
use crate::word_dungeon::entity::Entity;
use crate::word_dungeon::event::Event;
use crate::word_dungeon::items::{get_item_effects, use_and_remove_item_on_pickup, Item};
use crate::word_dungeon::state::{add_entity, entity_kinds, index_with, index_without, kind_removed, same_extras, State};

verus! {

/// How an item is named in messages: its name as written in the code.
pub open spec fn item_name(item: Item) -> Seq<char> {
    match item {
        Item::Key => "Key"@,
        Item::Glasses => "Glasses"@,
        Item::MembershipCard => "MembershipCard"@,
        Item::VowelVortex => "VowelVortex"@,
        Item::ConsonantConundrum => "ConsonantConundrum"@,
        Item::DoubleDouble => "DoubleDouble"@,
        Item::DustyYam => "DustyYam"@,
        Item::AspiringAbacus => "AspiringAbacus"@,
        Item::TranquilScissors => "TranquilScissors"@,
        Item::DyingFicus => "DyingFicus"@,
        Item::MissingCrab => "MissingCrab"@,
        Item::BreakfastCoffee => "BreakfastCoffee"@,
        Item::SpicyPillow => "SpicyPillow"@,
        Item::SuspiciousSausage => "SuspiciousSausage"@,
        Item::ElectricChair => "ElectricChair"@,
        Item::CosmicTeapot => "CosmicTeapot"@,
        Item::GlowingBrick => "GlowingBrick"@,
        Item::SizzlingRug => "SizzlingRug"@,
        Item::FuzzyKeyboard => "FuzzyKeyboard"@,
        Item::BathroomSteak => "BathroomSteak"@,
    }
}

/// The name of an item, as messages write it.
pub fn item_name_of(item: &Item) -> (s: &'static str)
    ensures
        s@ == item_name(*item),
{
    match item {
        Item::Key => "Key",
        Item::Glasses => "Glasses",
        Item::MembershipCard => "MembershipCard",
        Item::VowelVortex => "VowelVortex",
        Item::ConsonantConundrum => "ConsonantConundrum",
        Item::DoubleDouble => "DoubleDouble",
        Item::DustyYam => "DustyYam",
        Item::AspiringAbacus => "AspiringAbacus",
        Item::TranquilScissors => "TranquilScissors",
        Item::DyingFicus => "DyingFicus",
        Item::MissingCrab => "MissingCrab",
        Item::BreakfastCoffee => "BreakfastCoffee",
        Item::SpicyPillow => "SpicyPillow",
        Item::SuspiciousSausage => "SuspiciousSausage",
        Item::ElectricChair => "ElectricChair",
        Item::CosmicTeapot => "CosmicTeapot",
        Item::GlowingBrick => "GlowingBrick",
        Item::SizzlingRug => "SizzlingRug",
        Item::FuzzyKeyboard => "FuzzyKeyboard",
        Item::BathroomSteak => "BathroomSteak",
    }
}

/// `s1` holds the entities `m0` indexed by `idx0`, with one more entity, the
/// one numbered `c0`: a dialogue not yet shown, at `pos`, whose lines have
/// the texts `texts` and the colours `colors`, and whose options have the
/// texts `otexts` and the events `oevents`; the counter moved past it.
pub open spec fn adds_dialogue(
    m0: Map<usize, Entity>,
    idx0: Map<Seq<usize>, Set<usize>>,
    c0: usize,
    systems: Seq<Seq<usize>>,
    s1: State,
    texts: Seq<Seq<char>>,
    colors: Seq<Option<(Option<(u8, u8, u8, u8)>, Option<(u8, u8, u8, u8)>)>>,
    otexts: Seq<Seq<char>>,
    oevents: Seq<Event>,
    pos: Position,
) -> bool {
    let e = s1.entities_map@[c0];
    &&& s1.wf()
    &&& s1.entity_id_counter == c0 + 1
    &&& s1.entities_map@ == m0.insert(c0, e)
    &&& s1.index() == index_with(idx0, entity_kinds(e), systems, c0)
    &&& e.id == c0
    &&& e.wf()
    &&& e.components@.len() == 4
    &&& e.components@[0] == Component::Activated(Some(false))
    &&& e.components@[1] matches Component::Dialogue(Some((lines, options))) && {
        &&& lines@.len() == texts.len()
        &&& forall|i: int| 0 <= i < texts.len() ==> (#[trigger] lines@[i]).0@ == texts[i] && lines@[i].1 == colors[i]
        &&& options@.len() == otexts.len()
        &&& forall|i: int| 0 <= i < otexts.len() ==> (#[trigger] options@[i]).0@ == otexts[i] && options@[i].1 == oevents[i]
    }
    &&& e.components@[2] == Component::Position(Some(pos))
    &&& e.components@[3] == Component::ZIndex(Some((c0 + 5) as isize))
}

/// `s1` is `s0` showing one more dialogue, from the corner, as
/// `adds_dialogue` describes it; nothing else changed.
pub open spec fn says(
    s0: State,
    s1: State,
    texts: Seq<Seq<char>>,
    colors: Seq<Option<(Option<(u8, u8, u8, u8)>, Option<(u8, u8, u8, u8)>)>>,
    otexts: Seq<Seq<char>>,
    oevents: Seq<Event>,
) -> bool {
    &&& adds_dialogue(
        s0.entities_map@,
        s0.index(),
        s0.entity_id_counter,
        s0.systems(),
        s1,
        texts,
        colors,
        otexts,
        oevents,
        Position { x: 0, y: 0 },
    )
    &&& s1.events == s0.events
    &&& s1.system_components == s0.system_components
    &&& same_extras(s0, s1)
}

/// The texts of dialogue lines.
pub open spec fn line_texts(lines: Seq<DialogueLine>) -> Seq<Seq<char>> {
    lines.map_values(|l: DialogueLine| l.0@)
}

/// The colours of dialogue lines.
pub open spec fn line_colors(lines: Seq<DialogueLine>) -> Seq<Option<(Option<(u8, u8, u8, u8)>, Option<(u8, u8, u8, u8)>)>> {
    lines.map_values(|l: DialogueLine| l.1)
}

/// Shows a dialogue with the given lines and options, from the corner.
pub(crate) fn show_dialogue(state: &mut State, lines: Vec<DialogueLine>, options: Vec<(String, Event)>)
    requires
        old(state).wf(),
        old(state).entity_id_counter + 5 <= isize::MAX,
    ensures
        says(
            *old(state),
            *final(state),
            line_texts(lines@),
            line_colors(lines@),
            options@.map_values(|o: (String, Event)| o.0@),
            options@.map_values(|o: (String, Event)| o.1),
        ),
{
    let e = create_dialogue(&mut state.entity_id_counter, lines, options, Position::zero());
    add_entity(e, state);
}

/// Shows a message of one uncoloured line, without options, from the corner.
fn say(state: &mut State, text: String)
    requires
        old(state).wf(),
        old(state).entity_id_counter + 5 <= isize::MAX,
    ensures
        says(*old(state), *final(state), seq![text@], seq![None], seq![], seq![]),
{
    let ghost t = text@;
    let lines: Vec<DialogueLine> = vec![(text, None)];
    let ghost ls = lines@;
    show_dialogue(state, lines, Vec::new());
    assert(line_texts(ls) =~= seq![t]);
    assert(line_colors(ls) =~= seq![None]);
}

/// The message of a wish granted: "You" and the effect's description with
/// its first letter in lowercase.
pub open spec fn wish_message(e: Effect) -> Seq<char> {
    "You "@ + with_first(effect_text(e), lowercase_of(effect_text(e)[0]))
}

/// The message of a purchase: a free item is picked up, another is bought
/// for its cost in gold.
pub open spec fn purchase_message(item: Item, cost: usize) -> Seq<char> {
    if cost == 0 {
        "You picked up the "@ + item_name(item)
    } else {
        "You bought the "@ + item_name(item) + " for "@ + decimal(cost as nat) + "g"@
    }
}

/// The totals of no modifiers.
pub open spec fn no_totals() -> ModifierTotals {
    (0, 0, 0, Seq::empty(), 0)
}

/// The totals of one effect.
pub open spec fn effect_totals(e: Effect) -> ModifierTotals {
    apply_effect(no_totals(), e)
}

/// The wish `e` can be granted: it can be described, and its modifiers fit
/// and can be added to those of the game.
pub open spec fn wish_fits(s: State, e: Effect) -> bool {
    let m = effect_totals(e);
    &&& effect_describable(e)
    &&& effects_fit(no_totals(), seq![e])
    &&& s.mods.gold + m.0 <= usize::MAX
    &&& s.mods.shop_discount + m.1 <= usize::MAX
    &&& isize::MIN <= s.mods.word_size_change + m.2 <= isize::MAX
}

/// `s1` has the grid, the progress and the settings of `s0`, but perhaps
/// for the modifiers.
pub open spec fn same_but_mods(s0: State, s1: State) -> bool {
    &&& s1.grid_size == s0.grid_size
    &&& s1.change_events == s0.change_events
    &&& s1.name == s0.name
    &&& s1.rooms == s0.rooms
    &&& s1.hallways == s0.hallways
    &&& s1.available_letters == s0.available_letters
    &&& s1.items == s0.items
    &&& s1.gold == s0.gold
    &&& s1.fog_enabled == s0.fog_enabled
    &&& s1.dialogue_input == s0.dialogue_input
    &&& s1.floor == s0.floor
    &&& s1.tile_points == s0.tile_points
    &&& s1.no_keys_pressed == s0.no_keys_pressed
    &&& s1.show == s0.show
}

/// `s1` is `s0` after the wish `e` was granted: a message says so, and the
/// effect's modifiers were added to those of the game.
pub open spec fn wish_granted(s0: State, s1: State, e: Effect) -> bool {
    let m = effect_totals(e);
    &&& adds_dialogue(
        s0.entities_map@,
        s0.index(),
        s0.entity_id_counter,
        s0.systems(),
        s1,
        seq![wish_message(e)],
        seq![None],
        seq![],
        seq![],
        Position { x: 0, y: 0 },
    )
    &&& s1.events == s0.events
    &&& s1.system_components == s0.system_components
    &&& same_but_mods(s0, s1)
    &&& s1.mods.gold == s0.mods.gold + m.0
    &&& s1.mods.shop_discount == s0.mods.shop_discount + m.1
    &&& s1.mods.word_size_change == s0.mods.word_size_change + m.2
    &&& s1.mods.mults@ == s0.mods.mults@ + m.3
    &&& s1.mods.rack_size_change == s0.mods.rack_size_change
}

/// `s1` is `s0` after the player tried to buy `item`, held by entity `id`,
/// for `cost`: with enough gold the entity is gone, the gold paid, the item
/// kept and the purchase announced; otherwise the player is told there is
/// not enough gold.
pub open spec fn item_bought(s0: State, s1: State, id: usize, item: Item, cost: usize) -> bool {
    if s0.gold >= cost {
        &&& adds_dialogue(
            s0.entities_map@.remove(id),
            index_without(s0.index(), id),
            s0.entity_id_counter,
            s0.systems(),
            s1,
            seq![purchase_message(item, cost)],
            seq![None],
            seq![],
            seq![],
            Position { x: 0, y: 0 },
        )
        &&& s1.events == s0.events
        &&& s1.system_components == s0.system_components
        &&& s1.gold == s0.gold - cost
        &&& s1.items@ == s0.items@.push(item)
        &&& s1.mods == s0.mods
        &&& s1.name == s0.name
        &&& s1.fog_enabled == s0.fog_enabled
        &&& s1.grid_size == s0.grid_size
        &&& s1.available_letters == s0.available_letters
        &&& s1.floor == s0.floor
    } else {
        says(s0, s1, seq!["You don't have enough gold!"@], seq![None], seq![], seq![])
    }
}

/// Grants a wish: says what was granted, and adds the effect's modifiers to
/// those of the game.
fn use_effect(state: &mut State, effect: Effect)
    requires
        old(state).wf(),
        old(state).entity_id_counter + 5 <= isize::MAX,
        wish_fits(*old(state), effect),
    ensures
        wish_granted(*old(state), *final(state), effect),
{
    let desc = get_effect_description(&effect);
    let lowered = lowercase_first_letter(desc.as_str());
    let mut text = String::new();
    append_str(&mut text, "You ");
    append_str(&mut text, lowered.as_str());
    assert(text@ =~= wish_message(effect));
    say(state, text);
    let ghost s1 = *state;
    let mut mods = AllModifiers::default();
    let ghost effects = seq![effect];
    let v = vec![effect];
    proof {
        assert(v@ =~= effects);
        assert(effects.drop_last() =~= Seq::<Effect>::empty());
        assert(totals(mods) == no_totals());
        assert(apply_effects(no_totals(), Seq::<Effect>::empty()) == no_totals());
        assert(effects.last() == effect);
        assert(apply_effects(no_totals(), effects) == effect_totals(effect));
    }
    get_all_modifiers_from_effects(&mut mods, v);
    proof {
        assert(totals(mods) == effect_totals(effect));
    }
    state.apply_modifiers(&mut mods);
}

/// Buys an item: with enough gold the item's entity goes, the gold is paid,
/// the purchase is announced and the item kept; without, the player is
/// told so.
fn buy_item(state: &mut State, id: usize, item: Item, cost: usize)
    requires
        old(state).wf(),
        old(state).entity_id_counter + 5 <= isize::MAX,
    ensures
        item_bought(*old(state), *final(state), id, item, cost),
{
    if state.gold >= cost {
        state.remove_entity(id);
        state.gold = state.gold - cost;
        let name = item_name_of(&item);
        let mut text = String::new();
        if cost == 0 {
            append_str(&mut text, "You picked up the ");
            append_str(&mut text, name);
        } else {
            append_str(&mut text, "You bought the ");
            append_str(&mut text, name);
            append_str(&mut text, " for ");
            let n = usize_to_string(cost);
            append_str(&mut text, n.as_str());
            append_str(&mut text, "g");
        }
        say(state, text);
        if use_and_remove_item_on_pickup(&item) {
            let effects = get_item_effects(&item);
            get_all_modifiers_from_effects(&mut state.mods, effects);
        } else {
            state.items.push(item);
        }
    } else {
        say(state, "You don't have enough gold!".to_owned());
    }
}

/// The greeting: a welcome, with the game's name in red, and the question
/// of the player's name, answered by the name given.
pub open spec fn welcomed(s0: State, s1: State) -> bool {
    exists|mid: State|
        says(
            s0,
            mid,
            seq!["Welcome to "@, "WUNGEON"@, "!\n\n(press any key to continue)"@],
            seq![None, Some((None, Some((255u8, 0u8, 0u8, 255u8)))), None],
            seq![],
            seq![],
        ) && #[trigger] says(
            mid,
            s1,
            seq!["What is your name?\n\n(submit your name or press enter to be named)"@],
            seq![None],
            seq![""@],
            seq![Event::CreateName(None)],
        )
}

/// The crack in the wall is noticed: a message says so, and the hints of
/// secret walls go.
pub open spec fn crack_noticed(s0: State, s1: State) -> bool {
    exists|mid: State|
        #[trigger] says(s0, mid, seq!["You see a crack in the wall"@], seq![None], seq![], seq![]) && kind_removed(mid, s1, 15)
            && s1.events == mid.events && s1.entity_id_counter == mid.entity_id_counter && s1.system_components
            == mid.system_components && same_extras(mid, s1) && s1.wf()
}

/// Greets the player and asks for a name.
fn welcome(state: &mut State)
    requires
        old(state).wf(),
        old(state).entity_id_counter + 6 <= isize::MAX,
    ensures
        welcomed(*old(state), *final(state)),
{
    let lines: Vec<DialogueLine> = vec![
        ("Welcome to ".to_owned(), None),
        ("WUNGEON".to_owned(), Some((None, Some((255, 0, 0, 255))))),
        ("!\n\n(press any key to continue)".to_owned(), None),
    ];
    let ghost l1 = lines@;
    show_dialogue(state, lines, Vec::new());
    let ghost mid = *state;
    let lines2: Vec<DialogueLine> = vec![
        ("What is your name?\n\n(submit your name or press enter to be named)".to_owned(), None),
    ];
    let ghost l2 = lines2@;
    let options: Vec<(String, Event)> = vec![("".to_owned(), Event::CreateName(None))];
    let ghost o2 = options@;
    show_dialogue(state, lines2, options);
    proof {
        assert(line_texts(l1) =~= seq!["Welcome to "@, "WUNGEON"@, "!\n\n(press any key to continue)"@]);
        assert(line_colors(l1) =~= seq![None, Some((None, Some((255u8, 0u8, 0u8, 255u8)))), None]);
        assert(line_texts(l2) =~= seq!["What is your name?\n\n(submit your name or press enter to be named)"@]);
        assert(line_colors(l2) =~= seq![None]);
        assert(o2.map_values(|o: (String, Event)| o.0@) =~= seq![""@]);
        assert(o2.map_values(|o: (String, Event)| o.1) =~= seq![Event::CreateName(None)]);
        assert(says(
            mid,
            *state,
            seq!["What is your name?\n\n(submit your name or press enter to be named)"@],
            seq![None],
            seq![""@],
            seq![Event::CreateName(None)],
        ));
    }
}

/// Handles one event. A granted wish, a purchase, a sighting and the
/// welcome show their messages; a name given is kept, and a refresh and the
/// start of a game are queued; a mystery opened is removed. What needs more
/// than this library does comes back to the caller: the mystery, whose wish
/// dialogue is drawn at random, the refresh and the start of a game. Other
/// events change nothing.
pub fn handle_event(state: &mut State, event: Event, seen_wall_hint: &mut bool) -> (left: Option<Event>)
    requires
        old(state).wf(),
        old(state).entity_id_counter + 6 <= isize::MAX,
        !(event matches Event::CreateName(None)),
        event matches Event::UseEffect(e) ==> wish_fits(*old(state), e),
    ensures
        ({
            let s0 = *old(state);
            let s1 = *final(state);
            match event {
                Event::UseEffect(e) => left is None && wish_granted(s0, s1, e) && *final(seen_wall_hint) == *old(seen_wall_hint),
                Event::CreateMystery(id) => {
                    &&& left == Some(Event::CreateMystery(id))
                    &&& s1.wf()
                    &&& s1.entities_map@ == s0.entities_map@.remove(id)
                    &&& s1.index() == index_without(s0.index(), id)
                    &&& s1.events == s0.events
                    &&& s1.entity_id_counter == s0.entity_id_counter
                    &&& s1.system_components == s0.system_components
                    &&& same_extras(s0, s1)
                    &&& *final(seen_wall_hint) == *old(seen_wall_hint)
                },
                Event::BuyItem((id, item, cost, _player)) => left is None && item_bought(s0, s1, id, item, cost) && *final(seen_wall_hint) == *old(seen_wall_hint),
                Event::View(((_a, ViewType::Player), (_b, ViewType::Minion))) => left is None && says(
                    s0,
                    s1,
                    seq!["You see a minion"@],
                    seq![None],
                    seq![],
                    seq![],
                ) && *final(seen_wall_hint) == *old(seen_wall_hint),
                Event::View(((_a, ViewType::Player), (_b, ViewType::SecretWall))) => {
                    &&& left is None
                    &&& *final(seen_wall_hint)
                    &&& if *old(seen_wall_hint) {
                        s1 == s0
                    } else {
                        crack_noticed(s0, s1)
                    }
                },
                Event::CreateName(Some(name)) => {
                    &&& left is None
                    &&& s1.name == name
                    &&& s1.events@ == s0.events@.push(Event::Refresh).push(Event::GameStart)
                    &&& s1.entities_map == s0.entities_map
                    &&& s1.component_map == s0.component_map
                    &&& s1.entity_id_counter == s0.entity_id_counter
                    &&& s1.system_components == s0.system_components
                    &&& s1.empty_entites_set == s0.empty_entites_set
                    &&& s1.gold == s0.gold
                    &&& s1.items == s0.items
                    &&& s1.mods == s0.mods
                    &&& *final(seen_wall_hint) == *old(seen_wall_hint)
                },
                Event::Welcome => left is None && welcomed(s0, s1) && *final(seen_wall_hint) == *old(seen_wall_hint),
                Event::Refresh => left == Some(Event::Refresh) && s1 == s0 && *final(seen_wall_hint) == *old(seen_wall_hint),
                Event::GameStart => left == Some(Event::GameStart) && s1 == s0 && *final(seen_wall_hint) == *old(seen_wall_hint),
                _ => left is None && s1 == s0 && *final(seen_wall_hint) == *old(seen_wall_hint),
            }
        }),
{
    match event {
        Event::UseEffect(effect) => {
            use_effect(state, effect);
            None
        },
        Event::CreateMystery(id) => {
            state.remove_entity(id);
            Some(Event::CreateMystery(id))
        },
        Event::BuyItem((id, item, cost, _player)) => {
            buy_item(state, id, item, cost);
            None
        },
        Event::View(((_a, ViewType::Player), (_b, ViewType::Minion))) => {
            say(state, "You see a minion".to_owned());
            None
        },
        Event::View(((_a, ViewType::Player), (_b, ViewType::SecretWall))) => {
            if !*seen_wall_hint {
                *seen_wall_hint = true;
                say(state, "You see a crack in the wall".to_owned());
                let ghost mid = *state;
                state.remove_all_by_component(Component::SecretWallHint);
                proof {
                    assert(crack_noticed(*old(state), *state)) by {
                        assert(says(*old(state), mid, seq!["You see a crack in the wall"@], seq![None], seq![], seq![]));
                    }
                }
            }
            None
        },
        Event::CreateName(Some(name)) => {
            state.name = name;
            state.events.push(Event::Refresh);
            state.events.push(Event::GameStart);
            None
        },
        Event::Welcome => {
            welcome(state);
            None
        },
        Event::Refresh => Some(Event::Refresh),
        Event::GameStart => Some(Event::GameStart),
        _ => None,
    }
}

} // verus!
