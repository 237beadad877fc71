use wgames::grid::Position;
use wgames::word_dungeon::colors::{darken_color, BLACK, GOLD};
use wgames::word_dungeon::components::{component_kind, Component, ViewType};
use wgames::word_dungeon::create::{
    create_dialogue, create_door, create_fog, create_floor, create_item_of, create_minion, create_mystery,
    create_pedastal, create_plant, create_player, create_revealed_floor, create_secret_wall, create_secret_wall_hint,
    create_wall, create_wish_dialogue,
};
use wgames::word_dungeon::effects::{
    add_new_effect, effect_from_roll, explain_curse, get_all_modifiers_from_effects, get_effect_description,
    lowercase_first_letter, AllModifiers, Effect, LetterType, MultType,
};
use wgames::word_dungeon::entity::new_entity;
use wgames::word_dungeon::event::Event;
use wgames::word_dungeon::items::{
    get_item_char, get_item_cost, get_item_description, get_item_effects, item_from_roll, use_and_remove_item_on_pickup,
    Item,
};
use wgames::word_dungeon::letters::{get_starting_tile_points, get_starting_tiles};
use wgames::word_dungeon::render::{bresenham, superscript_v2_collect};
use wgames::word_dungeon::riddles::get_riddles_list;

#[test]
fn darken_halves_red_and_uses_alpha() {
    assert_eq!(darken_color((100, 50, 60, 200)), (50, 100, 100, 200));
    assert_eq!(darken_color((255, 255, 255, 255)), (127, 127, 127, 255));
}

#[test]
fn wall_components() {
    let mut counter = 7;
    let e = create_wall(&mut counter, &Position { x: 2, y: 3 });
    assert_eq!(e.id, 7);
    assert_eq!(counter, 8);
    assert_eq!(e.components.len(), 7);
    assert_eq!(e.components[0], Component::Wall);
    assert_eq!(e.components[2], Component::Render(Some(("█".to_string(), (50, 50, 50, 255)))));
    assert!(e.contains_component(&Component::Solid));
    assert!(!e.contains_component(&Component::Door));
    assert_eq!(
        e.get_component(Component::Position(None)),
        Some(&Component::Position(Some(Position { x: 2, y: 3 })))
    );
    assert_eq!(e.get_component(Component::Player), None);
}

#[test]
fn the_last_component_of_a_kind_is_found() {
    let mut counter = 0;
    let e = new_entity(
        &mut counter,
        vec![Component::ZIndex(Some(1)), Component::Wall, Component::ZIndex(Some(4))],
    );
    assert_eq!(e.get_component(Component::ZIndex(None)), Some(&Component::ZIndex(Some(4))));
    assert_eq!(e.component_index[&component_kind(&Component::ZIndex(None))], 2);
    assert_eq!(counter, 1);
}

#[test]
fn other_entities() {
    let mut counter = 0;
    let p = Position { x: 1, y: 1 };
    assert_eq!(create_secret_wall(&mut counter, &p, 3).components[0], Component::SecretWall(Some(3)));
    let hint = create_secret_wall_hint(&mut counter, &p);
    assert_eq!(hint.components[2], Component::Viewable(Some((ViewType::SecretWall, vec![]))));
    assert_eq!(create_fog(&mut counter, &p).components[4], Component::Fog(Some(false)));
    assert_eq!(create_floor(&mut counter, &p, (1, 2, 3, 4), -2).components[3], Component::ZIndex(Some(-2)));
    assert_eq!(
        create_pedastal(&mut counter, &p, (100, 50, 60, 200)).components[4],
        Component::BackgroundColor(Some((50, 100, 100, 200)))
    );
    assert_eq!(create_plant(&mut counter, &p).components.len(), 4);
    assert_eq!(create_revealed_floor(&mut counter, &p).components.len(), 4);
    assert_eq!(create_door(&mut counter, &p).components[1], Component::Door);
    let m = create_minion(&mut counter, &p, 'x', "M".to_string(), true, true);
    assert_eq!(m.components[0], Component::Minion(Some((true, 'x'))));
    assert_eq!(m.components[5], Component::ViewDistance(Some(7)));
    assert_eq!(m.components[7], Component::Drop(Some(Item::Key)));
    let mut rng = rand::thread_rng();
    assert_eq!(create_mystery(&mut rng, &mut counter, &p).components[3], Component::Mystery);
    let item = create_item_of(&mut counter, &p, Item::Glasses, None);
    assert_eq!(item.components[4], Component::Paywall(Some(4)));
    assert_eq!(item.components[1], Component::Render(Some(("👓".to_string(), GOLD))));
    let player = create_player(&mut counter, p);
    assert_eq!(player.components[1], Component::Render(Some(("👳🏾".to_string(), BLACK))));
    assert_eq!(player.components[4], Component::Cooldown(Some(5)));
    let d = create_dialogue(&mut counter, vec![("hi".to_string(), None)], vec![], p);
    assert_eq!(d.components[3], Component::ZIndex(Some(d.id as isize + 5)));
    assert_eq!(counter, 13);
}

#[test]
fn wish_dialogue_lists_the_effects() {
    let mut counter = 2;
    let effects = vec![Effect::ShopDiscount, Effect::GainGold(3), effect_from_roll(4)];
    let d = create_wish_dialogue(&mut counter, &effects);
    if let Component::Dialogue(Some((lines, options))) = &d.components[1] {
        assert_eq!(lines.len(), 5);
        assert_eq!(lines[2].0, "1) Get a shop discount\n");
        assert_eq!(lines[3].0, "2) Gain +3 gold\n");
        assert_eq!(lines[4].0, "3) Gain x1 consonant mult. [Curse] -1 word count\n");
        assert_eq!(options[1].0, "2");
        assert_eq!(options[1].1, Event::UseEffect(Effect::GainGold(3)));
    } else {
        panic!("no dialogue");
    }
    assert_eq!(d.components[3], Component::ZIndex(Some(7)));
}

#[test]
fn items() {
    assert_eq!(get_item_cost(&Item::Key), 2);
    assert_eq!(get_item_cost(&Item::DyingFicus), 1);
    assert_eq!(get_item_char(&Item::MissingCrab), "🦀");
    assert_eq!(get_item_description(&Item::Glasses)[0].0, "(+1 hand)");
    assert_eq!(get_item_description(&Item::SizzlingRug)[0].0, "(needs description)");
    assert_eq!(get_item_effects(&Item::Glasses), vec![Effect::WordSizeChange(1)]);
    assert_eq!(get_item_effects(&Item::DoubleDouble), vec![Effect::ConsonantMultIncrease(2)]);
    assert!(get_item_effects(&Item::Key).is_empty());
    assert!(!use_and_remove_item_on_pickup(&Item::Key));
    assert_eq!(item_from_roll(0), Item::Key);
    assert_eq!(item_from_roll(21), Item::Glasses);
}

#[test]
fn effect_descriptions() {
    assert_eq!(get_effect_description(&Effect::ShopDiscount), "Get a shop discount");
    assert_eq!(get_effect_description(&Effect::WordSizeChange(-1)), "Gain +-1 word count");
    assert_eq!(get_effect_description(&Effect::RackSizeChange(2)), "Gain +2 rack size");
    assert_eq!(get_effect_description(&Effect::VowelMultIncrease(3)), "Gain +3 vowel mult");
    assert_eq!(
        get_effect_description(&Effect::VowelMultMultIncrease { mult: 1, curse: Some(Box::new(Effect::RackSizeChange(-1))) }),
        "Gain x1 vowel mult. [Curse] -1 rack size"
    );
    assert_eq!(get_effect_description(&Effect::ConsonantMultIncrease(12)), "Gain +12 consonant mult");
    assert_eq!(get_effect_description(&Effect::GainGold(0)), "Gain +0 gold");
    assert_eq!(explain_curse(&None), "");
    assert_eq!(lowercase_first_letter("Gain"), "gain");
    assert_eq!(lowercase_first_letter(""), "");
    assert_eq!(lowercase_first_letter("ÉTÉ"), "éTÉ");
}

#[test]
fn modifiers_add_up() {
    let mut mods = AllModifiers::default();
    get_all_modifiers_from_effects(
        &mut mods,
        vec![
            Effect::ShopDiscount,
            Effect::GainGold(3),
            Effect::GainGold(4),
            Effect::VowelMultMultIncrease { mult: 2, curse: Some(Box::new(Effect::WordSizeChange(-1))) },
            Effect::ConsonantMultIncrease(5),
            Effect::RackSizeChange(-2),
        ],
    );
    assert_eq!(mods.gold, 7);
    assert_eq!(mods.shop_discount, 1);
    assert_eq!(mods.word_size_change, -1);
    assert_eq!(mods.rack_size_change, -2);
    assert_eq!(mods.mults.len(), 2);
    assert!(matches!(mods.mults[0], (LetterType::Vowel, MultType::Mult, 2)));
    assert!(matches!(mods.mults[1], (LetterType::Consonant, MultType::Increase, 5)));
    let mut other = AllModifiers::default();
    other.gold = 1;
    other.rack_size_change = 9;
    other.mults.push((LetterType::Vowel, MultType::Increase, 1));
    mods.add(&mut other);
    assert_eq!(mods.gold, 8);
    assert_eq!(mods.rack_size_change, -2);
    assert_eq!(mods.mults.len(), 3);
    assert!(other.mults.is_empty());
    assert_eq!(other.gold, 1);
}

#[test]
fn new_effects_are_added_once() {
    let mut effects = vec![Effect::ShopDiscount];
    add_new_effect(&mut effects, Effect::ShopDiscount);
    assert_eq!(effects.len(), 1);
    add_new_effect(&mut effects, effect_from_roll(6));
    add_new_effect(&mut effects, effect_from_roll(7));
    add_new_effect(&mut effects, effect_from_roll(14));
    assert_eq!(effects.len(), 3);
}

#[test]
fn tiles_and_points() {
    let tiles = get_starting_tiles();
    assert_eq!(tiles.len(), 100);
    assert_eq!(tiles.iter().filter(|c| **c == 'E').count(), 12);
    assert_eq!(tiles.iter().filter(|c| **c == ' ').count(), 2);
    assert_eq!(&tiles[0..3], &[' ', ' ', 'E']);
    let points = get_starting_tile_points();
    assert_eq!(points[&('Q' as u32)], 10);
    assert_eq!(points[&('E' as u32)], 1);
    assert_eq!(points.len(), 27);
    for t in &tiles {
        assert!(points.contains_key(&(*t as u32)));
    }
}

#[test]
fn superscript_numbers() {
    assert_eq!(superscript_v2_collect(0), "⁰");
    assert_eq!(superscript_v2_collect(7), "⁷");
    assert_eq!(superscript_v2_collect(205), "²⁰⁵");
    assert_eq!(superscript_v2_collect(9_999_999_999), "⁹⁹⁹⁹⁹⁹⁹⁹⁹⁹");
}

#[test]
fn line_cells() {
    let line = bresenham(&Position { x: 0, y: 0 }, &Position { x: 3, y: 1 });
    assert_eq!(
        line,
        vec![Position { x: 0, y: 0 }, Position { x: 1, y: 0 }, Position { x: 2, y: 1 }, Position { x: 3, y: 1 }]
    );
    let point = bresenham(&Position { x: 5, y: -2 }, &Position { x: 5, y: -2 });
    assert_eq!(point, vec![Position { x: 5, y: -2 }]);
    let back = bresenham(&Position { x: 2, y: 2 }, &Position { x: -1, y: -1 });
    assert_eq!(back.len(), 4);
    assert_eq!(back[3], Position { x: -1, y: -1 });
}

#[test]
fn riddles_from_text() {
    let riddles = get_riddles_list("\"What has keys, but no locks?\",A piano\nWhat is full of holes?,A sponge\n");
    assert_eq!(riddles.len(), 2);
    assert_eq!(riddles[0], ("What has keys, but no locks?".to_string(), "A piano".to_string()));
    assert_eq!(riddles[1], ("What is full of holes?".to_string(), "A sponge".to_string()));
    assert_eq!(get_riddles_list("a,b").len(), 1);
    assert!(get_riddles_list("").is_empty());
}
