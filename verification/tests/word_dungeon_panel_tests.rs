use wgames::dungeon::components::Rect;
use wgames::grid::Position;
use wgames::word_dungeon::components::Component;
use wgames::word_dungeon::entity::new_entity;
use wgames::word_dungeon::items::Item;
use wgames::word_dungeon::render::{input_cells, render, side_panel, Lift, Show};
use wgames::word_dungeon::state::{add_entity, State};

fn new_state() -> State {
    State::new(Rect { width: 20, height: 10 }, vec![vec![Component::Dialogue(None)]])
}

#[test]
fn the_panel_is_empty_when_hidden() {
    let state = new_state();
    assert!(side_panel(&state).is_empty());
}

#[test]
fn the_tiles_panel_lists_points_and_counts() {
    let mut state = new_state();
    state.show = Show::Tiles;
    state.gold = 42;
    let lines = side_panel(&state);
    assert_eq!(lines.len(), 36);
    assert_eq!(lines[0], "┏━━━━━━━━━━━━━━━━━━━━━━━━━━━┓");
    assert_eq!(lines[1], "┃ Words                   5 ┃");
    assert_eq!(lines[2], "┃ Gold                   42 ┃");
    assert_eq!(lines[4], "┃ Discard                42 ┃");
    assert_eq!(lines[5], "┃ Floor                   1 ┃");
    assert_eq!(lines[7], "┏━━━━━━━━━━━━━┳━━━━━━━━━━━━━┓");
    assert_eq!(lines[9], "┃ A⁽¹⁾  ×   9 ┃ N⁽¹⁾  ×   6 ┃");
    assert_eq!(lines[10], "┃             ┃             ┃");
    assert_eq!(lines[35], "┗━━━━━━━━━━━━━┻━━━━━━━━━━━━━┛");
    for line in &lines[..7] {
        assert_eq!(line.chars().count(), 29);
    }
}

#[test]
fn the_items_panel_puts_five_to_a_line() {
    let mut state = new_state();
    state.show = Show::Items;
    state.items = vec![Item::Key, Item::Glasses, Item::Key, Item::Key, Item::Key, Item::Glasses];
    let lines = side_panel(&state);
    assert_eq!(lines.len(), 11);
    assert_eq!(lines[7], "┏━━━━━ITEMS━━━━━┓");
    assert_eq!(lines[8], "  ꄗ 👓 ꄗ ꄗ ꄗ");
    assert_eq!(lines[9], "  👓");
    assert_eq!(lines[10], "┗━━━━━━━━━━━━━━━┛");
}

fn drawn_state() -> State {
    State::new(
        Rect { width: 20, height: 10 },
        vec![vec![Component::Position(None), Component::ZIndex(None)]],
    )
}

fn add(state: &mut State, components: Vec<Component>) {
    let e = new_entity(&mut state.entity_id_counter, components);
    add_entity(e, state);
}

#[test]
fn render_draws_background_then_foreground() {
    let mut state = drawn_state();
    add(
        &mut state,
        vec![
            Component::Position(Some(Position { x: 2, y: 3 })),
            Component::ZIndex(Some(4)),
            Component::RenderBg(Some(("#".to_string(), (1, 2, 3, 4)))),
            Component::RenderFg(Some(("@".to_string(), (5, 6, 7, 8), true))),
            Component::Player,
        ],
    );
    let kinds = [Component::Position(None), Component::ZIndex(None)];
    let draws = render(&state, &kinds);
    assert_eq!(draws.len(), 2);
    assert_eq!(draws[0].text, "#");
    assert_eq!(draws[0].color, (1, 2, 3, 4));
    assert_eq!(draws[0].lift, Lift::Level);
    assert!(!draws[0].center);
    assert_eq!(draws[1].text, "@");
    assert_eq!(draws[1].position, Position { x: 2, y: 3 });
    assert_eq!(draws[1].depth, 4);
    assert_eq!(draws[1].lift, Lift::Quarter);
    assert!(draws[1].center);
}

#[test]
fn render_lifts_walls_and_skips_what_the_fog_hides() {
    let mut state = drawn_state();
    add(
        &mut state,
        vec![
            Component::Position(Some(Position { x: 0, y: 0 })),
            Component::ZIndex(Some(1)),
            Component::RenderFg(Some(("w".to_string(), (9, 9, 9, 9), false))),
            Component::Wall,
        ],
    );
    add(
        &mut state,
        vec![
            Component::Position(Some(Position { x: 1, y: 0 })),
            Component::ZIndex(Some(1)),
            Component::Hidden(Some(true)),
            Component::RenderFg(Some(("m".to_string(), (9, 9, 9, 9), false))),
        ],
    );
    let kinds = [Component::Position(None), Component::ZIndex(None)];
    let draws = render(&state, &kinds);
    assert_eq!(draws.len(), 1);
    assert_eq!(draws[0].text, "w");
    assert_eq!(draws[0].lift, Lift::Half);
    state.fog_enabled = false;
    let draws = render(&state, &kinds);
    assert_eq!(draws.len(), 2);
    let m = draws.iter().find(|d| d.text == "m").unwrap();
    assert_eq!(m.lift, Lift::Third);
}

#[test]
fn typed_characters_sit_under_the_grid() {
    let mut state = new_state();
    state.dialogue_input = "hé!".to_string();
    let cells = input_cells(&state);
    assert_eq!(
        cells,
        vec![
            ('h', Position { x: 0, y: 10 }),
            ('é', Position { x: 1, y: 10 }),
            ('!', Position { x: 2, y: 10 }),
        ]
    );
}
