use wgames::dungeon::components::Rect;
use wgames::grid::Position;
use wgames::word_dungeon::colors::WHITE;
use wgames::word_dungeon::components::Component;
use wgames::word_dungeon::create::{create_dialogue, create_wall};
use wgames::word_dungeon::dialogue::{dialogue, layout_dialogue};
use wgames::word_dungeon::effects::{AllModifiers, LetterType, MultType};
use wgames::word_dungeon::equality::{clone_component, component_eq};
use wgames::word_dungeon::event::{name_from_picks, Event};
use wgames::word_dungeon::state::{add_entity, State};

fn new_state() -> State {
    State::new(Rect { width: 20, height: 10 }, vec![vec![Component::Dialogue(None)]])
}

fn sample_options() -> Vec<(String, Event)> {
    vec![
        ("a".to_string(), Event::Nothing),
        ("".to_string(), Event::Nothing),
        ("bc".to_string(), Event::Nothing),
    ]
}

#[test]
fn names_from_picks() {
    assert_eq!(name_from_picks([0, 1, 2], [0, 1, 2], false, 0), "abecid");
    assert_eq!(name_from_picks([0, 1, 2], [0, 1, 2], true, 4), "abecidu");
    assert_eq!(name_from_picks([4, 4, 4], [20, 20, 20], false, 3), "uzuzuz");
}

#[test]
fn components_compare_and_clone() {
    let a = Component::Render(Some(("x".to_string(), WHITE)));
    let b = Component::Render(Some(("y".to_string(), WHITE)));
    assert!(component_eq(&a, &a));
    assert!(!component_eq(&a, &b));
    assert!(!component_eq(&Component::Wall, &Component::Door));
    let c = clone_component(&a);
    assert_eq!(c, a);
    assert!(component_eq(&c, &a));
}

#[test]
fn dialogue_layout_puts_options_below_the_lines() {
    let lines = vec![("hi\nyo".to_string(), None)];
    let glyphs = layout_dialogue(&lines, &sample_options());
    assert_eq!(
        glyphs,
        vec![
            (0, 0, 'h', WHITE),
            (1, 0, 'i', WHITE),
            (0, 1, 'y', WHITE),
            (1, 1, 'o', WHITE),
            (0, 2, 'a', WHITE),
            (1, 2, '/', WHITE),
            (2, 2, 'b', WHITE),
            (3, 2, 'c', WHITE),
        ]
    );
}

#[test]
fn dialogue_layout_uses_the_line_colour() {
    let red = (255, 0, 0, 255);
    let lines = vec![("a".to_string(), Some((Some(red), None))), ("b".to_string(), Some((None, Some(red))))];
    let glyphs = layout_dialogue(&lines, &vec![]);
    assert_eq!(glyphs, vec![(0, 0, 'a', red), (1, 0, 'b', red)]);
}

#[test]
fn new_state_is_empty() {
    let state = new_state();
    assert_eq!(state.entity_id_counter, 0);
    assert!(state.entities_map.is_empty());
    assert!(state.events.is_empty());
    assert!(state.get_entities(&[Component::Dialogue(None)]).is_empty());
    assert_eq!(state.available_letters.len(), 100);
}

#[test]
fn added_entities_are_indexed() {
    let mut state = new_state();
    let wall = create_wall(&mut state.entity_id_counter, &Position { x: 1, y: 1 });
    let d = create_dialogue(
        &mut state.entity_id_counter,
        vec![("hi".to_string(), None)],
        sample_options(),
        Position { x: 3, y: 4 },
    );
    add_entity(wall, &mut state);
    add_entity(d, &mut state);
    assert_eq!(state.entities_map.len(), 2);
    let shown = state.get_entities(&[Component::Dialogue(None)]);
    assert_eq!(shown.len(), 1);
    assert!(shown.contains(&1));
    assert!(state.get_entities(&[Component::Wall]).contains(&0));
    assert!(!state.get_entities(&[Component::Wall]).contains(&1));

    state.remove_entity(1);
    assert_eq!(state.entities_map.len(), 1);
    assert!(state.get_entities(&[Component::Dialogue(None)]).is_empty());
    assert!(state.get_entities(&[Component::Wall]).contains(&0));
}

#[test]
fn setting_a_component_records_a_change() {
    let mut state = new_state();
    let wall = create_wall(&mut state.entity_id_counter, &Position { x: 1, y: 1 });
    add_entity(wall, &mut state);
    state.set_component(0, Component::ZIndex(Some(9)));
    assert_eq!(state.events, vec![Event::ComponentChanged(Component::ZIndex(Some(9)))]);
    assert_eq!(state.entities_map[&0].get_component(Component::ZIndex(None)), Some(&Component::ZIndex(Some(9))));
    state.set_component(0, Component::ZIndex(Some(9)));
    assert_eq!(state.events.len(), 1);
}

#[test]
fn showing_a_dialogue_spawns_its_characters_once() {
    let mut state = new_state();
    let d = create_dialogue(
        &mut state.entity_id_counter,
        vec![("hi\nyo".to_string(), None)],
        sample_options(),
        Position { x: 3, y: 4 },
    );
    add_entity(d, &mut state);
    dialogue(&mut state, &[Component::Dialogue(None)]);
    assert_eq!(state.entity_id_counter, 9);
    assert_eq!(state.entities_map.len(), 9);
    assert_eq!(
        state.entities_map[&0].get_component(Component::Activated(None)),
        Some(&Component::Activated(Some(true)))
    );
    assert_eq!(state.events, vec![Event::ComponentChanged(Component::Activated(Some(true)))]);
    let first = &state.entities_map[&1];
    assert_eq!(first.components[0], Component::Position(Some(Position { x: 3, y: 4 })));
    assert_eq!(first.components[1], Component::ZIndex(Some(5)));
    assert_eq!(first.components[2], Component::Render(Some(("h".to_string(), WHITE))));
    assert_eq!(first.components[3], Component::DialogueChar);
    let last = &state.entities_map[&8];
    assert_eq!(last.components[0], Component::Position(Some(Position { x: 6, y: 6 })));
    assert_eq!(last.components[2], Component::Render(Some(("c".to_string(), WHITE))));
    assert_eq!(state.get_entities(&[Component::DialogueChar]).len(), 8);

    dialogue(&mut state, &[Component::Dialogue(None)]);
    assert_eq!(state.entity_id_counter, 9);
    assert_eq!(state.entities_map.len(), 9);
    assert_eq!(state.events.len(), 1);

    state.remove_all_by_component(Component::DialogueChar);
    assert_eq!(state.entities_map.len(), 1);
    assert!(state.get_entities(&[Component::DialogueChar]).is_empty());
}

#[test]
fn the_front_dialogue_is_shown_first() {
    let mut state = new_state();
    let back = create_dialogue(&mut state.entity_id_counter, vec![("b".to_string(), None)], vec![], Position { x: 0, y: 0 });
    let front = create_dialogue(&mut state.entity_id_counter, vec![("f".to_string(), None)], vec![], Position { x: 0, y: 0 });
    add_entity(back, &mut state);
    add_entity(front, &mut state);
    state.set_component(1, Component::ZIndex(Some(-3)));
    dialogue(&mut state, &[Component::Dialogue(None)]);
    assert_eq!(state.entity_id_counter, 3);
    assert_eq!(state.entities_map[&2].components[2], Component::Render(Some(("f".to_string(), WHITE))));
    assert_eq!(
        state.entities_map[&0].get_component(Component::Activated(None)),
        Some(&Component::Activated(Some(false)))
    );
}

#[test]
fn no_dialogue_changes_nothing() {
    let mut state = new_state();
    dialogue(&mut state, &[Component::Dialogue(None)]);
    assert_eq!(state.entity_id_counter, 0);
    assert!(state.entities_map.is_empty());
    assert!(state.events.is_empty());
}

#[test]
fn modifiers_are_added_to_the_game() {
    let mut state = new_state();
    let mut mods = AllModifiers {
        gold: 3,
        shop_discount: 2,
        word_size_change: -1,
        mults: vec![(LetterType::Vowel, MultType::Increase, 2)],
        rack_size_change: 0,
    };
    state.apply_modifiers(&mut mods);
    state.apply_modifiers(&mut AllModifiers {
        gold: 1,
        shop_discount: 0,
        word_size_change: 0,
        mults: vec![],
        rack_size_change: 0,
    });
    assert_eq!(state.mods.gold, 4);
    assert_eq!(state.mods.shop_discount, 2);
    assert_eq!(state.mods.word_size_change, -1);
    assert_eq!(state.mods.mults.len(), 1);
    assert!(mods.mults.is_empty());
}

#[test]
fn components_are_looked_up_by_their_bare_form() {
    let mut n = 0;
    let e = wgames::word_dungeon::entity::new_entity(
        &mut n,
        vec![Component::Position(Some(Position { x: 1, y: 2 })), Component::Wall],
    );
    assert_eq!(
        e.get_component(Component::Position(None)),
        Some(&Component::Position(Some(Position { x: 1, y: 2 })))
    );
    assert_eq!(e.get_component(Component::Position(Some(Position { x: 1, y: 2 }))), None);
    assert!(e.contains_component(&Component::Position(None)));
    assert!(!e.contains_component(&Component::Position(Some(Position { x: 1, y: 2 }))));
    assert!(e.contains_component(&Component::Wall));
    assert!(!e.contains_component(&Component::Door));
    assert_eq!(e.get_component(Component::Door), None);
}
