use wgames::dungeon::components::Rect;
use wgames::grid::Position;
use wgames::word_dungeon::components::Component;
use wgames::word_dungeon::create::{
    create_dialogue, create_door, create_item_of, create_minion, create_player,
    create_secret_wall, create_wall,
};
use wgames::word_dungeon::entity::{new_entity, Entity};
use wgames::word_dungeon::event::Event;
use wgames::word_dungeon::inputs::{finish_fight, handle_inputs, InputKey};
use wgames::word_dungeon::items::Item;
use wgames::word_dungeon::render::Show;
use wgames::word_dungeon::state::{add_entity, State};
use wgames::word_dungeon::walk::InputOutcome;

fn new_state() -> State {
    State::new(Rect { width: 20, height: 10 }, vec![vec![Component::Dialogue(None)]])
}

fn with_player(state: &mut State, x: isize, y: isize) -> usize {
    let id = state.entity_id_counter;
    let e = create_player(&mut state.entity_id_counter, Position { x, y });
    add_entity(e, state);
    id
}

fn place(state: &mut State, e: Entity) -> usize {
    let id = e.id;
    add_entity(e, state);
    id
}

fn position(state: &State, id: usize) -> Position {
    match state.entities_map[&id].get_component(Component::Position(None)) {
        Some(Component::Position(Some(p))) => *p,
        _ => panic!("no position"),
    }
}

fn cooldown(state: &State, id: usize) -> usize {
    match state.entities_map[&id].get_component(Component::Cooldown(None)) {
        Some(Component::Cooldown(Some(c))) => *c,
        _ => panic!("no cooldown"),
    }
}

fn press(state: &mut State, key: InputKey) -> InputOutcome {
    handle_inputs(state, &[Component::Player], key, false, None)
}

fn dialogue_lines(e: &Entity) -> Vec<String> {
    match e.get_component(Component::Dialogue(None)) {
        Some(Component::Dialogue(Some((lines, _)))) => lines.iter().map(|l| l.0.clone()).collect(),
        _ => panic!("not a dialogue"),
    }
}

fn dialogue_options(e: &Entity) -> Vec<String> {
    match e.get_component(Component::Dialogue(None)) {
        Some(Component::Dialogue(Some((_, options)))) => options.iter().map(|o| o.0.clone()).collect(),
        _ => panic!("not a dialogue"),
    }
}

#[test]
fn the_player_steps_onto_a_free_cell() {
    let mut state = new_state();
    let p = with_player(&mut state, 3, 3);
    let r = press(&mut state, InputKey::ArrowRight);
    assert_eq!(r, InputOutcome::Done);
    assert_eq!(position(&state, p), Position { x: 4, y: 3 });
    assert_eq!(cooldown(&state, p), 4);
    press(&mut state, InputKey::ArrowUp);
    assert_eq!(position(&state, p), Position { x: 4, y: 2 });
    press(&mut state, InputKey::ArrowLeft);
    press(&mut state, InputKey::ArrowDown);
    assert_eq!(position(&state, p), Position { x: 3, y: 3 });
}

#[test]
fn a_wall_stops_the_player() {
    let mut state = new_state();
    let p = with_player(&mut state, 3, 3);
    let w = create_wall(&mut state.entity_id_counter, &Position { x: 3, y: 4 });
    place(&mut state, w);
    let r = press(&mut state, InputKey::ArrowDown);
    assert_eq!(r, InputOutcome::Done);
    assert_eq!(position(&state, p), Position { x: 3, y: 3 });
}

#[test]
fn a_free_item_is_offered() {
    let mut state = new_state();
    let p = with_player(&mut state, 3, 3);
    let item = create_item_of(&mut state.entity_id_counter, &Position { x: 4, y: 3 }, Item::Glasses, Some(0));
    let hit = place(&mut state, item);
    let before = state.entity_id_counter;
    press(&mut state, InputKey::ArrowRight);
    assert_eq!(position(&state, p), Position { x: 3, y: 3 });
    let d = &state.entities_map[&before];
    assert_eq!(dialogue_lines(d), vec!["Pick up Glasses?\n".to_string(), "(+1 hand)".to_string()]);
    assert_eq!(dialogue_options(d), vec!["y".to_string(), "n".to_string()]);
    match d.get_component(Component::Dialogue(None)) {
        Some(Component::Dialogue(Some((_, options)))) => {
            assert_eq!(options[0].1, Event::BuyItem((hit, Item::Glasses, 0, p)));
            assert_eq!(options[1].1, Event::Nothing);
        },
        _ => panic!("not a dialogue"),
    }
}

#[test]
fn an_item_for_sale_names_its_price() {
    let mut state = new_state();
    with_player(&mut state, 3, 3);
    let item = create_item_of(&mut state.entity_id_counter, &Position { x: 2, y: 3 }, Item::Key, Some(12));
    place(&mut state, item);
    let before = state.entity_id_counter;
    press(&mut state, InputKey::ArrowLeft);
    assert_eq!(
        dialogue_lines(&state.entities_map[&before]),
        vec!["Buy Key for 12g?\n".to_string(), "(does something?)".to_string()]
    );
}

#[test]
fn a_key_opens_every_door() {
    let mut state = new_state();
    let p = with_player(&mut state, 3, 3);
    let d1 = create_door(&mut state.entity_id_counter, &Position { x: 3, y: 2 });
    let d1 = place(&mut state, d1);
    let d2 = create_door(&mut state.entity_id_counter, &Position { x: 9, y: 9 });
    let d2 = place(&mut state, d2);
    let r = press(&mut state, InputKey::ArrowUp);
    assert_eq!(r, InputOutcome::Done);
    assert!(state.entities_map.contains_key(&d1));
    state.items = vec![Item::Key, Item::Glasses];
    let r = press(&mut state, InputKey::ArrowUp);
    assert_eq!(r, InputOutcome::Done);
    assert!(!state.entities_map.contains_key(&d1));
    assert!(!state.entities_map.contains_key(&d2));
    assert_eq!(state.items, vec![Item::Glasses]);
    assert_eq!(position(&state, p), Position { x: 3, y: 3 });
    press(&mut state, InputKey::ArrowUp);
    assert_eq!(position(&state, p), Position { x: 3, y: 2 });
}

#[test]
fn a_minion_is_fought_and_drops_its_key() {
    let mut state = new_state();
    let p = with_player(&mut state, 3, 3);
    let m = create_minion(&mut state.entity_id_counter, &Position { x: 4, y: 3 }, 'a', "m".to_string(), true, true);
    let m = place(&mut state, m);
    let r = press(&mut state, InputKey::ArrowRight);
    assert_eq!(r, InputOutcome::Fight { minion: m, boss: true, at: Position { x: 4, y: 3 } });
    assert_eq!(position(&state, p), Position { x: 3, y: 3 });
    state.gold = 1;
    let dropped = state.entity_id_counter;
    finish_fight(&mut state, m, Position { x: 4, y: 3 }, true, 2);
    assert!(!state.entities_map.contains_key(&m));
    assert_eq!(state.gold, 5);
    assert_eq!(state.floor, 2);
    assert_eq!(state.events.last(), Some(&Event::GameStart));
    assert_eq!(
        state.entities_map[&dropped].get_component(Component::Item(None)),
        Some(&Component::Item(Some(Item::Key)))
    );
    assert_eq!(
        state.entities_map[&dropped].get_component(Component::Paywall(None)),
        Some(&Component::Paywall(Some(0)))
    );
}

#[test]
fn a_mystery_asks_first() {
    let mut state = new_state();
    with_player(&mut state, 3, 3);
    let q = new_entity(
        &mut state.entity_id_counter,
        vec![Component::Position(Some(Position { x: 3, y: 4 })), Component::Mystery],
    );
    let q = place(&mut state, q);
    let before = state.entity_id_counter;
    press(&mut state, InputKey::ArrowDown);
    let d = &state.entities_map[&before];
    assert_eq!(dialogue_lines(d), vec!["See what is in the foggy haze?".to_string()]);
    match d.get_component(Component::Dialogue(None)) {
        Some(Component::Dialogue(Some((_, options)))) => {
            assert_eq!(options[0].1, Event::CreateMystery(q));
        },
        _ => panic!("not a dialogue"),
    }
}

#[test]
fn a_secret_wall_gives_way_with_its_group() {
    let mut state = new_state();
    let p = with_player(&mut state, 3, 3);
    let s1 = create_secret_wall(&mut state.entity_id_counter, &Position { x: 4, y: 3 }, 7);
    let s1 = place(&mut state, s1);
    let s2 = create_secret_wall(&mut state.entity_id_counter, &Position { x: 5, y: 3 }, 7);
    let s2 = place(&mut state, s2);
    let s3 = create_secret_wall(&mut state.entity_id_counter, &Position { x: 6, y: 3 }, 8);
    let s3 = place(&mut state, s3);
    let before = state.entity_id_counter;
    let r = press(&mut state, InputKey::ArrowRight);
    assert_eq!(r, InputOutcome::Done);
    assert!(!state.entities_map.contains_key(&s1));
    assert!(!state.entities_map.contains_key(&s2));
    assert!(state.entities_map.contains_key(&s3));
    assert_eq!(state.entity_id_counter, before + 2);
    let mut floors = vec![position(&state, before), position(&state, before + 1)];
    floors.sort_by_key(|f| f.x);
    assert_eq!(floors, vec![Position { x: 4, y: 3 }, Position { x: 5, y: 3 }]);
    assert_eq!(position(&state, p), Position { x: 4, y: 3 });
}

#[test]
fn step_counters_count_each_step() {
    let mut state = new_state();
    with_player(&mut state, 3, 3);
    let c = new_entity(&mut state.entity_id_counter, vec![Component::StepCount(Some(4))]);
    let c = place(&mut state, c);
    press(&mut state, InputKey::ArrowRight);
    assert_eq!(
        state.entities_map[&c].get_component(Component::StepCount(None)),
        Some(&Component::StepCount(Some(5)))
    );
    press(&mut state, InputKey::KeyF);
    assert_eq!(
        state.entities_map[&c].get_component(Component::StepCount(None)),
        Some(&Component::StepCount(Some(5)))
    );
}

#[test]
fn settings_keys_switch_the_fog_and_the_panels() {
    let mut state = new_state();
    with_player(&mut state, 3, 3);
    let fog = state.fog_enabled;
    press(&mut state, InputKey::KeyF);
    assert_eq!(state.fog_enabled, !fog);
    press(&mut state, InputKey::KeyT);
    assert_eq!(state.show, Show::Tiles);
    press(&mut state, InputKey::KeyI);
    assert_eq!(state.show, Show::Items);
    press(&mut state, InputKey::KeyI);
    assert_eq!(state.show, Show::Nothing);
    let n = state.events.len();
    press(&mut state, InputKey::KeyR);
    assert_eq!(state.events.len(), n + 2);
    assert_eq!(state.events[n], Event::Refresh);
    assert_eq!(state.events[n + 1], Event::GameStart);
}

#[test]
fn keys_go_to_the_dialogue_in_front() {
    let mut state = new_state();
    let p = with_player(&mut state, 3, 3);
    let d = create_dialogue(
        &mut state.entity_id_counter,
        vec![("Well?".to_string(), None)],
        vec![("yes".to_string(), Event::GameStart), ("no".to_string(), Event::Nothing)],
        Position { x: 0, y: 0 },
    );
    let d = place(&mut state, d);
    handle_inputs(&mut state, &[Component::Player], InputKey::Other, false, Some("yez".to_string()));
    assert_eq!(state.dialogue_input, "yez");
    handle_inputs(&mut state, &[Component::Player], InputKey::Backspace, false, None);
    assert_eq!(state.dialogue_input, "ye");
    press(&mut state, InputKey::ArrowRight);
    assert_eq!(position(&state, p), Position { x: 3, y: 3 });
    handle_inputs(&mut state, &[Component::Player], InputKey::Other, false, Some("s".to_string()));
    handle_inputs(&mut state, &[Component::Player], InputKey::Enter, false, None);
    assert!(!state.entities_map.contains_key(&d));
    assert_eq!(state.events.last(), Some(&Event::GameStart));
    assert_eq!(state.dialogue_input, "");
}

#[test]
fn a_wrong_answer_clears_the_input() {
    let mut state = new_state();
    with_player(&mut state, 3, 3);
    let d = create_dialogue(
        &mut state.entity_id_counter,
        vec![("Well?".to_string(), None)],
        vec![("y".to_string(), Event::GameStart)],
        Position { x: 0, y: 0 },
    );
    let d = place(&mut state, d);
    handle_inputs(&mut state, &[Component::Player], InputKey::Other, false, Some("q".to_string()));
    handle_inputs(&mut state, &[Component::Player], InputKey::Enter, false, None);
    assert!(state.entities_map.contains_key(&d));
    assert_eq!(state.dialogue_input, "");
}

#[test]
fn a_message_closes_on_any_new_key() {
    let mut state = new_state();
    with_player(&mut state, 3, 3);
    let d = create_dialogue(&mut state.entity_id_counter, vec![("Hi".to_string(), None)], vec![], Position { x: 0, y: 0 });
    let d = place(&mut state, d);
    handle_inputs(&mut state, &[Component::Player], InputKey::KeyF, true, None);
    assert!(state.entities_map.contains_key(&d));
    handle_inputs(&mut state, &[Component::Player], InputKey::KeyF, false, None);
    assert!(!state.entities_map.contains_key(&d));
}

#[test]
fn an_open_question_waits_for_more_than_white_space() {
    let mut state = new_state();
    with_player(&mut state, 3, 3);
    let d = create_dialogue(
        &mut state.entity_id_counter,
        vec![("Say something".to_string(), None)],
        vec![("".to_string(), Event::GameStart)],
        Position { x: 0, y: 0 },
    );
    let d = place(&mut state, d);
    handle_inputs(&mut state, &[Component::Player], InputKey::Other, false, Some(" \t\u{3000}".to_string()));
    handle_inputs(&mut state, &[Component::Player], InputKey::Enter, false, None);
    assert!(state.entities_map.contains_key(&d));
    assert_eq!(state.dialogue_input, " \t\u{3000}");
    handle_inputs(&mut state, &[Component::Player], InputKey::Other, false, Some("x".to_string()));
    handle_inputs(&mut state, &[Component::Player], InputKey::Enter, false, None);
    assert!(!state.entities_map.contains_key(&d));
    assert_eq!(state.events.last(), Some(&Event::GameStart));
}
