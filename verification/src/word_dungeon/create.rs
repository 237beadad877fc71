//! The entities of the dungeon, each made from its list of components.

use vstd::prelude::*;
use crate::word_dungeon::colors::{darken_color, BLACK, FOG_BG_COLOR, GOLD, REVEALED_BG_COLOR, WHITE};
use crate::word_dungeon::components::{Component, DialogueLine, Position, ViewType};
use crate::word_dungeon::effects::{clone_effect, draw_wishes, effect_describable, effect_text, get_effect_description, wish_effects, Effect};
use crate::word_dungeon::entity::{new_entity, Entity};
use crate::word_dungeon::event::Event;
use crate::word_dungeon::items::{get_item_char, get_item_cost, get_random_item, item_cost, item_symbol, Item};

verus! {

pub const PLAYER_WALK_COOLDOWN: usize = 5;

pub const PLAYER_VIEW_DISTANCE: usize = 9;

/// `e` is a fresh entity: it took the counter's value, and the counter moved on.
pub open spec fn fresh(e: Entity, old_counter: usize, new_counter: usize, n: nat) -> bool {
    &&& e.id == old_counter
    &&& new_counter == old_counter + 1
    &&& e.wf()
    &&& e.components@.len() == n
}

/// `c` draws the text `text` in the colour `color`.
pub open spec fn renders(c: Component, text: Seq<char>, color: (u8, u8, u8, u8)) -> bool {
    c matches Component::Render(Some((s, col))) && s@ == text && col == color
}

/// A wall: solid, drawn dark on dark, hidden until seen.
pub fn create_wall(entity_id_counter: &mut usize, wall_pos: &Position) -> (e: Entity)
    requires
        *old(entity_id_counter) < usize::MAX,
    ensures
        fresh(e, *old(entity_id_counter), *final(entity_id_counter), 7),
        e.components@[0] == Component::Wall,
        e.components@[1] == Component::Position(Some(*wall_pos)),
        renders(e.components@[2], "█"@, (50, 50, 50, 255)),
        e.components@[3] == Component::BackgroundColor(Some((40u8, 40u8, 40u8, 255u8))),
        e.components@[4] == Component::ZIndex(Some(7)),
        e.components@[5] == Component::Invisible(Some(true)),
        e.components@[6] == Component::Solid,
{
    new_entity(
        entity_id_counter,
        vec![
            Component::Wall,
            Component::Position(Some(*wall_pos)),
            Component::Render(Some(("█".to_owned(), (50, 50, 50, 255)))),
            Component::BackgroundColor(Some((40, 40, 40, 255))),
            Component::ZIndex(Some(7)),
            Component::Invisible(Some(true)),
            Component::Solid,
        ],
    )
}

/// A secret wall of the group `group`.
pub fn create_secret_wall(entity_id_counter: &mut usize, wall_pos: &Position, group: usize) -> (e: Entity)
    requires
        *old(entity_id_counter) < usize::MAX,
    ensures
        fresh(e, *old(entity_id_counter), *final(entity_id_counter), 5),
        e.components@[0] == Component::SecretWall(Some(group)),
        e.components@[1] == Component::Position(Some(*wall_pos)),
        renders(e.components@[2], "█"@, BLACK),
        e.components@[3] == Component::ZIndex(Some(2)),
        e.components@[4] == Component::Solid,
{
    new_entity(
        entity_id_counter,
        vec![
            Component::SecretWall(Some(group)),
            Component::Position(Some(*wall_pos)),
            Component::Render(Some(("█".to_owned(), BLACK))),
            Component::ZIndex(Some(2)),
            Component::Solid,
        ],
    )
}

/// The hint of a secret wall: a viewable mark that nobody has seen yet.
pub fn create_secret_wall_hint(entity_id_counter: &mut usize, wall_pos: &Position) -> (e: Entity)
    requires
        *old(entity_id_counter) < usize::MAX,
    ensures
        fresh(e, *old(entity_id_counter), *final(entity_id_counter), 3),
        e.components@[0] == Component::SecretWallHint,
        e.components@[1] == Component::Position(Some(*wall_pos)),
        e.components@[2] matches Component::Viewable(Some((t, seen))) && t == ViewType::SecretWall
            && seen@.len() == 0,
{
    new_entity(
        entity_id_counter,
        vec![
            Component::SecretWallHint,
            Component::Position(Some(*wall_pos)),
            Component::Viewable(Some((ViewType::SecretWall, Vec::new()))),
        ],
    )
}

/// A cell of fog, not yet lifted.
pub fn create_fog(entity_id_counter: &mut usize, wall_pos: &Position) -> (e: Entity)
    requires
        *old(entity_id_counter) < usize::MAX,
    ensures
        fresh(e, *old(entity_id_counter), *final(entity_id_counter), 6),
        e.components@[0] == Component::Position(Some(*wall_pos)),
        renders(e.components@[1], "█"@, BLACK),
        e.components@[2] == Component::BackgroundColor(Some(FOG_BG_COLOR)),
        e.components@[3] == Component::ZIndex(Some(10)),
        e.components@[4] == Component::Fog(Some(false)),
        e.components@[5] == Component::Invisible(Some(true)),
{
    new_entity(
        entity_id_counter,
        vec![
            Component::Position(Some(*wall_pos)),
            Component::Render(Some(("█".to_owned(), BLACK))),
            Component::BackgroundColor(Some(FOG_BG_COLOR)),
            Component::ZIndex(Some(10)),
            Component::Fog(Some(false)),
            Component::Invisible(Some(true)),
        ],
    )
}

/// A floor cell of the given colour and depth.
pub fn create_floor(entity_id_counter: &mut usize, wall_pos: &Position, color: (u8, u8, u8, u8), z: isize) -> (e: Entity)
    requires
        *old(entity_id_counter) < usize::MAX,
    ensures
        fresh(e, *old(entity_id_counter), *final(entity_id_counter), 5),
        e.components@[0] == Component::Position(Some(*wall_pos)),
        renders(e.components@[1], " "@, (0, 0, 0, 0)),
        e.components@[2] == Component::BackgroundColor(Some(color)),
        e.components@[3] == Component::ZIndex(Some(z)),
        e.components@[4] == Component::Invisible(Some(true)),
{
    new_entity(
        entity_id_counter,
        vec![
            Component::Position(Some(*wall_pos)),
            Component::Render(Some((" ".to_owned(), (0, 0, 0, 0)))),
            Component::BackgroundColor(Some(color)),
            Component::ZIndex(Some(z)),
            Component::Invisible(Some(true)),
        ],
    )
}

/// A pedestal of the given colour, over its darker shade.
pub fn create_pedastal(entity_id_counter: &mut usize, wall_pos: &Position, color: (u8, u8, u8, u8)) -> (e: Entity)
    requires
        *old(entity_id_counter) < usize::MAX,
    ensures
        fresh(e, *old(entity_id_counter), *final(entity_id_counter), 5),
        e.components@[0] == Component::Position(Some(*wall_pos)),
        renders(e.components@[1], "▄"@, color),
        e.components@[2] == Component::ZIndex(Some(1)),
        e.components@[3] == Component::Invisible(Some(true)),
        e.components@[4] == Component::BackgroundColor(Some((color.0 / 2, color.3 / 2, color.3 / 2, color.3))),
{
    let shade = darken_color(color);
    new_entity(
        entity_id_counter,
        vec![
            Component::Position(Some(*wall_pos)),
            Component::Render(Some(("▄".to_owned(), color))),
            Component::ZIndex(Some(1)),
            Component::Invisible(Some(true)),
            Component::BackgroundColor(Some(shade)),
        ],
    )
}

/// A plant.
pub fn create_plant(entity_id_counter: &mut usize, wall_pos: &Position) -> (e: Entity)
    requires
        *old(entity_id_counter) < usize::MAX,
    ensures
        fresh(e, *old(entity_id_counter), *final(entity_id_counter), 4),
        e.components@[0] == Component::Position(Some(*wall_pos)),
        renders(e.components@[1], "ᒉ"@, (0, 255, 0, 255)),
        e.components@[2] == Component::ZIndex(Some(2)),
        e.components@[3] == Component::Invisible(Some(true)),
{
    new_entity(
        entity_id_counter,
        vec![
            Component::Position(Some(*wall_pos)),
            Component::Render(Some(("ᒉ".to_owned(), (0, 255, 0, 255)))),
            Component::ZIndex(Some(2)),
            Component::Invisible(Some(true)),
        ],
    )
}

/// A floor cell that has been seen, always drawn.
pub fn create_revealed_floor(entity_id_counter: &mut usize, wall_pos: &Position) -> (e: Entity)
    requires
        *old(entity_id_counter) < usize::MAX,
    ensures
        fresh(e, *old(entity_id_counter), *final(entity_id_counter), 4),
        e.components@[0] == Component::Position(Some(*wall_pos)),
        renders(e.components@[1], " "@, (0, 0, 0, 0)),
        e.components@[2] == Component::BackgroundColor(Some(REVEALED_BG_COLOR)),
        e.components@[3] == Component::ZIndex(Some(0)),
{
    new_entity(
        entity_id_counter,
        vec![
            Component::Position(Some(*wall_pos)),
            Component::Render(Some((" ".to_owned(), (0, 0, 0, 0)))),
            Component::BackgroundColor(Some(REVEALED_BG_COLOR)),
            Component::ZIndex(Some(0)),
        ],
    )
}

/// A door: a wall that opens.
pub fn create_door(entity_id_counter: &mut usize, pos: &Position) -> (e: Entity)
    requires
        *old(entity_id_counter) < usize::MAX,
    ensures
        fresh(e, *old(entity_id_counter), *final(entity_id_counter), 6),
        e.components@[0] == Component::Wall,
        e.components@[1] == Component::Door,
        e.components@[2] == Component::Position(Some(*pos)),
        renders(e.components@[3], "$"@, WHITE),
        e.components@[4] == Component::ZIndex(Some(0)),
        e.components@[5] == Component::Invisible(Some(true)),
{
    new_entity(
        entity_id_counter,
        vec![
            Component::Wall,
            Component::Door,
            Component::Position(Some(*pos)),
            Component::Render(Some(("$".to_owned(), WHITE))),
            Component::ZIndex(Some(0)),
            Component::Invisible(Some(true)),
        ],
    )
}

/// A minion (or boss) named by `c`, drawn as `looks`; it sees two cells less
/// far than the player, and drops the key where `spawn_key` holds.
pub fn create_minion(
    entity_id_counter: &mut usize,
    pos: &Position,
    c: char,
    looks: String,
    is_boss: bool,
    spawn_key: bool,
) -> (e: Entity)
    requires
        *old(entity_id_counter) < usize::MAX,
    ensures
        fresh(e, *old(entity_id_counter), *final(entity_id_counter), if spawn_key { 8 } else { 7 }),
        e.components@[0] == Component::Minion(Some((is_boss, c))),
        e.components@[1] == Component::Position(Some(*pos)),
        renders(e.components@[2], looks@, WHITE),
        e.components@[3] == Component::ZIndex(Some(0)),
        e.components@[4] matches Component::Viewable(Some((t, seen))) && t == ViewType::Minion && seen@.len() == 0,
        e.components@[5] == Component::ViewDistance(Some((PLAYER_VIEW_DISTANCE - 2) as usize)),
        e.components@[6] == Component::Invisible(Some(true)),
        spawn_key ==> e.components@[7] == Component::Drop(Some(Item::Key)),
{
    let mut comps = vec![
        Component::Minion(Some((is_boss, c))),
        Component::Position(Some(*pos)),
        Component::Render(Some((looks, WHITE))),
        Component::ZIndex(Some(0)),
        Component::Viewable(Some((ViewType::Minion, Vec::new()))),
        Component::ViewDistance(Some(PLAYER_VIEW_DISTANCE - 2)),
        Component::Invisible(Some(true)),
    ];
    if spawn_key {
        comps.push(Component::Drop(Some(Item::Key)))
    }
    new_entity(entity_id_counter, comps)
}

/// A mystery: a question mark that grants a wish. The generator is not used.
pub fn create_mystery(rng: &mut rand::rngs::ThreadRng, entity_id_counter: &mut usize, pos: &Position) -> (e: Entity)
    requires
        *old(entity_id_counter) < usize::MAX,
    ensures
        fresh(e, *old(entity_id_counter), *final(entity_id_counter), 4),
        e.components@[0] == Component::Position(Some(*pos)),
        renders(e.components@[1], "?"@, BLACK),
        e.components@[2] == Component::ZIndex(Some(4)),
        e.components@[3] == Component::Mystery,
{
    new_entity(
        entity_id_counter,
        vec![
            Component::Position(Some(*pos)),
            Component::Render(Some(("?".to_owned(), BLACK))),
            Component::ZIndex(Some(4)),
            Component::Mystery,
        ],
    )
}

/// An item for sale at `cost`, or at the item's own price.
pub fn create_item_of(entity_id_counter: &mut usize, pos: &Position, item: Item, cost: Option<usize>) -> (e: Entity)
    requires
        *old(entity_id_counter) < usize::MAX,
    ensures
        fresh(e, *old(entity_id_counter), *final(entity_id_counter), 6),
        e.components@[0] == Component::Position(Some(*pos)),
        renders(e.components@[1], item_symbol(item)@, GOLD),
        e.components@[2] == Component::ZIndex(Some(4)),
        e.components@[3] == Component::Item(Some(item)),
        e.components@[4] == Component::Paywall(Some(
            match cost {
                Some(c) => c,
                None => item_cost(item),
            },
        )),
        e.components@[5] == Component::Invisible(Some(true)),
{
    let cost = match cost {
        Some(c) => c,
        None => get_item_cost(&item),
    };
    new_entity(
        entity_id_counter,
        vec![
            Component::Position(Some(*pos)),
            Component::Render(Some((get_item_char(&item), GOLD))),
            Component::ZIndex(Some(4)),
            Component::Item(Some(item)),
            Component::Paywall(Some(cost)),
            Component::Invisible(Some(true)),
        ],
    )
}

/// An item for sale: the given one or a random one, at the given cost or at
/// the item's own price.
pub fn create_item(
    rng: &mut rand::rngs::ThreadRng,
    entity_id_counter: &mut usize,
    pos: &Position,
    item: Option<Item>,
    cost: Option<usize>,
) -> (e: Entity)
    requires
        *old(entity_id_counter) < usize::MAX,
    ensures
        fresh(e, *old(entity_id_counter), *final(entity_id_counter), 6),
        e.components@[0] == Component::Position(Some(*pos)),
        item matches Some(i) ==> e.components@[3] == Component::Item(Some(i)),
        e.components@[3] matches Component::Item(Some(i)) && renders(e.components@[1], item_symbol(i)@, GOLD)
            && e.components@[4] == Component::Paywall(Some(
            match cost {
                Some(c) => c,
                None => item_cost(i),
            },
        )),
        e.components@[2] == Component::ZIndex(Some(4)),
        e.components@[5] == Component::Invisible(Some(true)),
{
    let item = match item {
        Some(i) => i,
        None => get_random_item(rng),
    };
    create_item_of(entity_id_counter, pos, item, cost)
}

/// The player, at `pos`.
pub fn create_player(entity_id_counter: &mut usize, pos: Position) -> (e: Entity)
    requires
        *old(entity_id_counter) < usize::MAX,
    ensures
        fresh(e, *old(entity_id_counter), *final(entity_id_counter), 8),
        e.components@[0] == Component::Position(Some(pos)),
        renders(e.components@[1], "👳🏾"@, BLACK),
        e.components@[2] == Component::ZIndex(Some(5)),
        e.components@[3] == Component::Player,
        e.components@[4] == Component::Cooldown(Some(PLAYER_WALK_COOLDOWN)),
        e.components@[5] == Component::AffectsFog,
        e.components@[6] == Component::ViewDistance(Some(PLAYER_VIEW_DISTANCE)),
        e.components@[7] matches Component::Viewable(Some((t, seen))) && t == ViewType::Player && seen@.len() == 0,
{
    new_entity(
        entity_id_counter,
        vec![
            Component::Position(Some(pos)),
            Component::Render(Some(("👳🏾".to_owned(), BLACK))),
            Component::ZIndex(Some(5)),
            Component::Player,
            Component::Cooldown(Some(PLAYER_WALK_COOLDOWN)),
            Component::AffectsFog,
            Component::ViewDistance(Some(PLAYER_VIEW_DISTANCE)),
            Component::Viewable(Some((ViewType::Player, Vec::new()))),
        ],
    )
}

/// A dialogue box, not yet shown, drawn above the entities made before it.
pub fn create_dialogue(
    entity_id_counter: &mut usize,
    dialogue: Vec<DialogueLine>,
    options: Vec<(String, Event)>,
    pos: Position,
) -> (e: Entity)
    requires
        *old(entity_id_counter) + 5 <= isize::MAX,
    ensures
        fresh(e, *old(entity_id_counter), *final(entity_id_counter), 4),
        e.components@[0] == Component::Activated(Some(false)),
        e.components@[1] == Component::Dialogue(Some((dialogue, options))),
        e.components@[2] == Component::Position(Some(pos)),
        e.components@[3] == Component::ZIndex(Some((*old(entity_id_counter) + 5) as isize)),
{
    let index = *entity_id_counter;
    new_entity(
        entity_id_counter,
        vec![
            Component::Activated(Some(false)),
            Component::Dialogue(Some((dialogue, options))),
            Component::Position(Some(pos)),
            Component::ZIndex(Some((index as isize) + 5)),
        ],
    )
}


/// The numeral of a wish: `1`, `2` or `3`.
pub open spec fn wish_number(i: int) -> Seq<char> {
    if i == 0 { "1"@ } else if i == 1 { "2"@ } else { "3"@ }
}

/// A dialogue offering three wishes, one per effect: the player answers with
/// the number of the wish, which uses that effect. Hidden until activated,
/// drawn above the entities made before it.
pub fn create_wish_dialogue(entity_id_counter: &mut usize, effects: &Vec<Effect>) -> (e: Entity)
    requires
        effects@.len() == 3,
        forall|i: int| 0 <= i < 3 ==> effect_describable(#[trigger] effects@[i]),
        *old(entity_id_counter) + 5 <= isize::MAX,
    ensures
        wish_dialogue(e, *old(entity_id_counter), *final(entity_id_counter), effects@),
{
    let e = make_wish_dialogue(entity_id_counter, effects);
    e
}

/// `e` is the dialogue, numbered `c0` (the counter then at `c1`), that
/// offers the wishes `effects`: the player answers with the number of the
/// wish, which uses that effect; hidden until activated, drawn above the
/// entities made before it.
pub open spec fn wish_dialogue(e: Entity, c0: usize, c1: usize, effects: Seq<Effect>) -> bool {
    &&& fresh(e, c0, c1, 4)
    &&& e.components@[0] == Component::Activated(Some(false))
    &&& e.components@[1] matches Component::Dialogue(Some((lines, options))) && {
        &&& lines@.len() == 5
        &&& lines@[0].0@ == "A whisper comes from the haze..\n"@
        &&& lines@[1].0@ == "I can grant you one of three wishes..\n\n"@
        &&& forall|i: int| 0 <= i < 3 ==> (#[trigger] lines@[i + 2]).0@ == wish_number(i) + ") "@
            + effect_text(effects[i]) + "\n"@
        &&& forall|i: int| 0 <= i < 5 ==> (#[trigger] lines@[i]).1.is_none()
        &&& options@.len() == 3
        &&& forall|i: int| 0 <= i < 3 ==> (#[trigger] options@[i]).0@ == wish_number(i)
            && options@[i].1 == Event::UseEffect(effects[i])
    }
    &&& e.components@[2] == Component::Position(Some(Position { x: 0, y: 0 }))
    &&& e.components@[3] == Component::ZIndex(Some((c0 + 5) as isize))
}

/// The dialogue of `create_wish_dialogue`.
fn make_wish_dialogue(entity_id_counter: &mut usize, effects: &Vec<Effect>) -> (e: Entity)
    requires
        effects@.len() == 3,
        forall|i: int| 0 <= i < 3 ==> effect_describable(#[trigger] effects@[i]),
        *old(entity_id_counter) + 5 <= isize::MAX,
    ensures
        fresh(e, *old(entity_id_counter), *final(entity_id_counter), 4),
        e.components@[0] == Component::Activated(Some(false)),
        e.components@[1] matches Component::Dialogue(Some((lines, options))) && {
            &&& lines@.len() == 5
            &&& lines@[0].0@ == "A whisper comes from the haze..\n"@
            &&& lines@[1].0@ == "I can grant you one of three wishes..\n\n"@
            &&& forall|i: int| 0 <= i < 3 ==> (#[trigger] lines@[i + 2]).0@ == wish_number(i) + ") "@
                + effect_text(effects@[i]) + "\n"@
            &&& forall|i: int| 0 <= i < 5 ==> (#[trigger] lines@[i]).1.is_none()
            &&& options@.len() == 3
            &&& forall|i: int| 0 <= i < 3 ==> (#[trigger] options@[i]).0@ == wish_number(i)
                && options@[i].1 == Event::UseEffect(effects@[i])
        },
        e.components@[2] == Component::Position(Some(Position { x: 0, y: 0 })),
        e.components@[3] == Component::ZIndex(Some((*old(entity_id_counter) + 5) as isize)),
{
    let mut options: Vec<(String, Event)> = Vec::new();
    let mut lines: Vec<DialogueLine> = Vec::new();
    lines.push(("A whisper comes from the haze..\n".to_owned(), None));
    lines.push(("I can grant you one of three wishes..\n\n".to_owned(), None));
    let mut i: usize = 0;
    while i < 3
        invariant
            i <= 3,
            effects@.len() == 3,
            forall|i: int| 0 <= i < 3 ==> effect_describable(#[trigger] effects@[i]),
            lines@.len() == i + 2,
            lines@[0].0@ == "A whisper comes from the haze..\n"@,
            lines@[1].0@ == "I can grant you one of three wishes..\n\n"@,
            forall|k: int| 0 <= k < i ==> (#[trigger] lines@[k + 2]).0@ == wish_number(k) + ") "@
                + effect_text(effects@[k]) + "\n"@,
            forall|k: int| 0 <= k < i + 2 ==> (#[trigger] lines@[k]).1.is_none(),
            options@.len() == i,
            forall|k: int| 0 <= k < i ==> (#[trigger] options@[k]).0@ == wish_number(k)
                && options@[k].1 == Event::UseEffect(effects@[k]),
        decreases 3 - i,
    {
        let number: &str = if i == 0 {
            "1"
        } else if i == 1 {
            "2"
        } else {
            "3"
        };
        let mut line = number.to_owned();
        line.append(") ");
        let description = get_effect_description(&effects[i]);
        line.append(description.as_str());
        line.append("\n");
        lines.push((line, None));
        options.push((number.to_owned(), Event::UseEffect(clone_effect(&effects[i]))));
        i = i + 1;
    }
    let index = *entity_id_counter;
    new_entity(
        entity_id_counter,
        vec![
            Component::Activated(Some(false)),
            Component::Dialogue(Some((lines, options))),
            Component::Position(Some(Position::zero())),
            Component::ZIndex(Some((index as isize) + 5)),
        ],
    )
}

/// A dialogue made after another is numbered next and drawn above it.
pub proof fn lemma_later_dialogue_above(e1: Entity, e2: Entity, c0: usize)
    requires
        fresh(e1, c0, (c0 + 1) as usize, 4),
        e1.components@[3] == Component::ZIndex(Some((c0 + 5) as isize)),
        fresh(e2, (c0 + 1) as usize, (c0 + 2) as usize, 4),
        e2.components@[3] == Component::ZIndex(Some((c0 + 1 + 5) as isize)),
        c0 + 6 <= isize::MAX,
    ensures
        e2.id == e1.id + 1,
        e1.components@[3] matches Component::ZIndex(Some(z1)) && e2.components@[3] matches Component::ZIndex(Some(z2))
            && z1 < z2,
{
}

/// The dialogue of a mystery: three different wishes drawn at random,
/// offered as `create_wish_dialogue` offers them.
pub fn create_mystery_dialogue(entity_id_counter: &mut usize, rng: &mut rand::rngs::ThreadRng) -> (e: Entity)
    requires
        *old(entity_id_counter) + 5 <= isize::MAX,
    ensures
        exists|effects: Seq<Effect>|
            {
                &&& effects.len() == 3
                &&& effects.no_duplicates()
                &&& forall|i: int| 0 <= i < 3 ==> wish_effects().contains(#[trigger] effects[i])
                &&& #[trigger] wish_dialogue(e, *old(entity_id_counter), *final(entity_id_counter), effects)
            },
{
    let effects = draw_wishes(rng);
    proof {
        assert forall|i: int| 0 <= i < 3 implies effect_describable(#[trigger] effects@[i]) by {
            assert(wish_effects().contains(effects@[i]));
            let j = choose|j: int| 0 <= j < wish_effects().len() && wish_effects()[j] == effects@[i];
            assert(0 <= j < 8);
        }
    }
    create_wish_dialogue(entity_id_counter, &effects)
}

} // verus!
