use wgames::dungeon::components::Rect;
use wgames::grid::Position;
use wgames::word_dungeon::colors::{BLACK, REVEALED_FOG_COLOR};
use wgames::word_dungeon::components::{Component, ViewType};
use wgames::word_dungeon::create::{create_minion, create_player, create_wall};
use wgames::word_dungeon::entity::new_entity;
use wgames::word_dungeon::equality::clone_component;
use wgames::word_dungeon::event::Event;
use wgames::word_dungeon::sight::{sight, view_cells};
use wgames::word_dungeon::state::{add_entity, State};
use wgames::word_dungeon::systems::{get_systems, start_up, SystemFn};

fn fog_key() -> Vec<Component> {
    vec![Component::Position(None), Component::Render(None), Component::ZIndex(None), Component::Fog(None)]
}

fn new_state() -> State {
    State::new(
        Rect { width: 50, height: 50 },
        vec![
            fog_key(),
            vec![Component::Hidden(None), Component::Position(None)],
            vec![Component::Position(None), Component::Solid],
        ],
    )
}

fn add_fog(state: &mut State, x: isize, y: isize, uncovered: bool) -> usize {
    let id = state.entity_id_counter;
    let e = new_entity(
        &mut state.entity_id_counter,
        vec![
            Component::Position(Some(Position { x, y })),
            Component::Render(Some(("█".to_string(), BLACK))),
            Component::ZIndex(Some(10)),
            Component::Fog(Some(uncovered)),
            Component::RenderFg(None),
        ],
    );
    add_entity(e, state);
    id
}

fn add_hidden(state: &mut State, x: isize, y: isize) -> usize {
    let id = state.entity_id_counter;
    let e = new_entity(
        &mut state.entity_id_counter,
        vec![Component::Position(Some(Position { x, y })), Component::Hidden(Some(true))],
    );
    add_entity(e, state);
    id
}

fn component(state: &State, id: usize, kind: Component) -> Component {
    clone_component(state.entities_map[&id].get_component(kind).unwrap())
}

#[test]
fn the_systems_in_order() {
    let systems = get_systems();
    assert_eq!(systems.len(), 7);
    assert_eq!(systems[0].0, SystemFn::StartUp);
    assert!(systems[0].1.is_empty() && systems[0].2);
    assert_eq!(systems[3].0, SystemFn::Dialogue);
    assert_eq!(
        systems[3].1,
        vec![Component::Dialogue(None), Component::Position(None), Component::ZIndex(None)]
    );
    assert_eq!(systems[4].0, SystemFn::Sight);
    assert_eq!(systems[4].1, fog_key());
    assert!(!systems[6].2);
}

#[test]
fn start_up_greets() {
    let mut state = new_state();
    start_up(&mut state, &[]);
    assert_eq!(state.events, vec![Event::Welcome]);
}

#[test]
fn a_lone_viewer_sees_its_square_edge() {
    let (seen, reached) = view_cells(Position { x: 0, y: 0 }, 1, &vec![]);
    assert!(seen.iter().all(|p| *p == Position { x: 0, y: 0 }));
    assert!(!seen.is_empty());
    let (seen, reached) = view_cells(Position { x: 0, y: 0 }, 2, &vec![]);
    for p in [Position { x: 0, y: 0 }, Position { x: -1, y: -1 }, Position { x: 1, y: 1 }] {
        assert!(seen.contains(&p));
    }
    assert!(!seen.contains(&Position { x: 2, y: 2 }));
    assert!(!seen.contains(&Position { x: -2, y: 0 }));
    assert_eq!(
        seen.iter().collect::<std::collections::HashSet<_>>(),
        reached.iter().collect::<std::collections::HashSet<_>>()
    );
}

#[test]
fn walls_block_sight_but_are_reached() {
    let wall = vec![Position { x: 1, y: 0 }];
    let (seen, reached) = view_cells(Position { x: 0, y: 0 }, 3, &wall);
    assert!(!seen.contains(&Position { x: 1, y: 0 }));
    assert!(reached.contains(&Position { x: 1, y: 0 }));
    assert!(!seen.contains(&Position { x: 2, y: 0 }));
    assert!(seen.contains(&Position { x: 0, y: 1 }));
    assert!(seen.contains(&Position { x: -2, y: -2 }));
    assert!(!seen.contains(&Position { x: -3, y: -3 }));
}

#[test]
fn the_player_uncovers_what_is_near() {
    let mut state = new_state();
    let player_id = state.entity_id_counter;
    let player = create_player(&mut state.entity_id_counter, Position { x: 5, y: 5 });
    add_entity(player, &mut state);
    let minion_id = state.entity_id_counter;
    let minion = create_minion(&mut state.entity_id_counter, &Position { x: 7, y: 5 }, 'a', "a".to_string(), false, false);
    add_entity(minion, &mut state);
    let near_hidden = add_hidden(&mut state, 6, 5);
    let far_hidden = add_hidden(&mut state, 30, 30);
    let near_fog = add_fog(&mut state, 6, 6, false);
    let far_fog = add_fog(&mut state, 40, 40, false);
    let old_fog = add_fog(&mut state, 45, 45, true);

    sight(&mut state, &fog_key());

    assert_eq!(component(&state, near_hidden, Component::Hidden(None)), Component::Hidden(Some(false)));
    assert_eq!(component(&state, far_hidden, Component::Hidden(None)), Component::Hidden(Some(true)));
    assert_eq!(component(&state, near_fog, Component::Fog(None)), Component::Fog(Some(true)));
    assert_eq!(component(&state, near_fog, Component::RenderFg(None)), Component::RenderFg(None));
    assert_eq!(component(&state, far_fog, Component::Fog(None)), Component::Fog(Some(false)));
    assert_eq!(component(&state, far_fog, Component::RenderFg(None)), Component::RenderFg(None));
    assert_eq!(
        component(&state, old_fog, Component::RenderFg(None)),
        Component::RenderFg(Some(("█".to_string(), REVEALED_FOG_COLOR, false)))
    );
    assert_eq!(
        component(&state, player_id, Component::Viewable(None)),
        Component::Viewable(Some((ViewType::Player, vec![minion_id])))
    );
    assert_eq!(
        component(&state, minion_id, Component::Viewable(None)),
        Component::Viewable(Some((ViewType::Minion, vec![player_id])))
    );
    let views: Vec<&Event> = state.events.iter().filter(|e| matches!(e, Event::View(_))).collect();
    assert_eq!(views.len(), 2);
    assert!(state.events.contains(&Event::View(((player_id, ViewType::Player), (minion_id, ViewType::Minion))))
        || state.events.contains(&Event::View(((minion_id, ViewType::Minion), (player_id, ViewType::Player)))));
    assert!(state.events.contains(&Event::ComponentChanged(Component::Hidden(Some(false)))));
    let first = state.events.iter().position(|e| matches!(e, Event::View(_))).unwrap();
    match (&state.events[first], &state.events[first + 2]) {
        (Event::View((a, b)), Event::View((c, d))) => {
            assert_eq!((a, b), (d, c));
            assert_ne!(a.0, b.0);
        },
        _ => panic!("the second view does not follow the first"),
    }
    assert!(matches!(state.events[first + 1], Event::ComponentChanged(Component::Viewable(_))));

    // Looking again marks the uncovered fog as revealed, then clears it
    // again where the player sees it; nobody meets twice.
    let events_before = state.events.len();
    sight(&mut state, &fog_key());
    assert_eq!(state.events.len(), events_before + 2);
    assert_eq!(
        state.events[events_before + 1],
        Event::ComponentChanged(Component::RenderFg(None))
    );
    assert_eq!(state.events.iter().filter(|e| matches!(e, Event::View(_))).count(), 2);
    assert_eq!(component(&state, near_fog, Component::RenderFg(None)), Component::RenderFg(None));
}

#[test]
fn a_wall_hides_what_is_behind_it() {
    let mut state = new_state();
    let player = create_player(&mut state.entity_id_counter, Position { x: 5, y: 5 });
    add_entity(player, &mut state);
    for y in 0..11 {
        let wall = create_wall(&mut state.entity_id_counter, &Position { x: 6, y });
        add_entity(wall, &mut state);
    }
    let at_wall = add_hidden(&mut state, 6, 5);
    let behind = add_hidden(&mut state, 7, 5);
    let behind_fog = add_fog(&mut state, 8, 5, false);
    sight(&mut state, &fog_key());
    assert_eq!(component(&state, at_wall, Component::Hidden(None)), Component::Hidden(Some(false)));
    assert_eq!(component(&state, behind, Component::Hidden(None)), Component::Hidden(Some(true)));
    assert_eq!(component(&state, behind_fog, Component::Fog(None)), Component::Fog(Some(false)));
}

#[test]
fn without_fog_nothing_is_drawn_over_it() {
    let mut state = new_state();
    state.fog_enabled = false;
    let fog = add_fog(&mut state, 40, 40, true);
    sight(&mut state, &fog_key());
    assert_eq!(component(&state, fog, Component::RenderFg(None)), Component::RenderFg(None));
    assert_eq!(component(&state, fog, Component::Fog(None)), Component::Fog(Some(true)));
}
