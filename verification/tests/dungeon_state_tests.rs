use std::collections::HashMap;
use wgames::dungeon::components::{Component, Rect};
use wgames::dungeon::entity::new_entity;
use wgames::dungeon::rooms::{apply_push, find_nearest_free_space, push_room, Push, RoomType};
use wgames::dungeon::event::Event;
use wgames::dungeon::systems::{get_systems, start_up, SystemFn};
use wgames::dungeon::state::{add_entity, State};
use wgames::grid::Position;

const POOL: &str = "ABCDEFGHIJKLMNOPQRSTUVWXYS";

fn systems() -> Vec<Vec<Component>> {
    vec![vec![Component::Position(None), Component::Solid], vec![Component::Player]]
}

fn check_fresh(state: &State) {
    assert_eq!(state.available_letters.len(), 10);
    assert_eq!(&state.available_letters[..5], &['A', 'E', 'U', 'I', 'O']);
    for (i, c) in state.available_letters.iter().enumerate() {
        assert!(!state.available_letters[..i].contains(c));
        if i >= 5 {
            assert!(POOL.contains(*c) && !"AEUIO".contains(*c));
        }
    }
    let expected: Vec<char> = POOL.chars().filter(|c| !state.available_letters.contains(c)).collect();
    assert_eq!(state.letters_remaining, expected);
}

#[test]
fn a_new_game_holds_the_vowels_and_five_more() {
    let state = State::new(Rect { width: 10, height: 5 }, systems());
    check_fresh(&state);
    assert_eq!(state.entity_id_counter, 0);
    assert!(state.entities_map.is_empty());
    assert_eq!(state.system_components.len(), 2);
}

#[test]
fn refreshing_draws_again() {
    let mut state = State::new(Rect { width: 10, height: 5 }, systems());
    for _ in 0..20 {
        state.refresh();
        check_fresh(&state);
    }
}

#[test]
fn a_letter_taken_is_no_longer_drawn() {
    let mut state = State::new(Rect { width: 10, height: 5 }, systems());
    let c = state.letters_remaining[0];
    state.add_letter(c);
    assert_eq!(state.available_letters.len(), 11);
    assert_eq!(*state.available_letters.last().unwrap(), c);
    assert!(!state.letters_remaining.contains(&c));
    state.add_letter('A');
    assert_eq!(state.available_letters.len(), 11);
    state.add_letter('Z');
    assert_eq!(*state.available_letters.last().unwrap(), 'Z');
}

#[test]
fn unchosen_letters_are_different_and_left_in_place() {
    let mut state = State::new(Rect { width: 10, height: 5 }, systems());
    let before = state.letters_remaining.clone();
    let letters = state.get_unchosen_letters_if_possible(4);
    assert_eq!(letters.len(), 4);
    for (i, c) in letters.iter().enumerate() {
        assert!(before.contains(c));
        assert!(!letters[..i].contains(c));
    }
    assert_eq!(state.letters_remaining, before);
}

#[test]
fn entities_are_indexed_by_the_systems_lists() {
    let mut state = State::new(Rect { width: 10, height: 5 }, systems());
    let solid = new_entity(
        &mut state.entity_id_counter,
        vec![Component::Solid, Component::Position(Some(Position { x: 1, y: 1 }))],
    );
    let floor = new_entity(&mut state.entity_id_counter, vec![Component::Position(Some(Position { x: 2, y: 1 }))]);
    let mut entities: HashMap<usize, _> = HashMap::new();
    let lists = systems();
    add_entity(solid, &mut entities, &mut state.component_map, &lists);
    add_entity(floor, &mut entities, &mut state.component_map, &lists);
    state.entities_map = entities;
    let solids = state.get_entities(&[Component::Position(None), Component::Solid]);
    assert_eq!(solids.len(), 1);
    assert!(solids.contains(&0));
    assert!(state.get_entities(&[Component::Player]).is_empty());
    state.remove_entity(0);
    assert!(state.get_entities(&[Component::Position(None), Component::Solid]).is_empty());
    assert_eq!(state.entities_map.len(), 1);
}

#[test]
fn the_dungeon_starts_with_a_refresh_a_start_and_a_welcome() {
    let systems = get_systems();
    assert_eq!(systems.len(), 7);
    assert_eq!(systems[0].0, SystemFn::StartUp);
    assert!(systems[0].2);
    assert_eq!(systems[3].1, vec![Component::Dialogue(None)]);
    assert_eq!(systems[6].0, SystemFn::HandleInputs);
    let mut state = State::new(Rect { width: 10, height: 5 }, systems.into_iter().map(|s| s.1).collect());
    start_up(&mut state, &[]);
    assert_eq!(state.events, vec![Event::Refresh, Event::GameStart, Event::Welcome]);
}

#[test]
fn rooms_apart_stay_and_rooms_that_meet_are_pushed() {
    let mut rng = rand::thread_rng();
    let grid = Rect { width: 200, height: 100 };
    let mut rooms = vec![
        (Rect { width: 5, height: 4 }, Position { x: 10, y: 10 }, RoomType::Regular),
        (Rect { width: 5, height: 4 }, Position { x: 40, y: 40 }, RoomType::Big),
    ];
    assert_eq!(find_nearest_free_space(&rooms, 0, &mut rng), None);
    assert_eq!(push_room(&mut rooms, 0, &grid, &mut rng), Push::Settled);
    assert_eq!(rooms[0].1, Position { x: 10, y: 10 });

    rooms[1].1 = Position { x: 12, y: 11 };
    let p = find_nearest_free_space(&rooms, 0, &mut rng).unwrap();
    assert!((6..=14).contains(&p.x) && (9..=11).contains(&p.y));
    assert_eq!(push_room(&mut rooms, 0, &grid, &mut rng), Push::Moved);
    let q = rooms[0].1;
    assert!((6..=14).contains(&q.x) && (9..=11).contains(&q.y));
    assert_eq!(rooms[1].1, Position { x: 12, y: 11 });

    let tight = Rect { width: 5, height: 4 };
    let mut cornered = vec![
        (Rect { width: 5, height: 4 }, Position { x: 10, y: 10 }, RoomType::Regular),
        (Rect { width: 5, height: 4 }, Position { x: 10, y: 10 }, RoomType::Regular),
    ];
    assert_eq!(push_room(&mut cornered, 0, &tight, &mut rng), Push::Replace);
    assert_eq!(cornered[0].1, Position { x: 10, y: 10 });
}

#[test]
fn a_drawn_place_is_taken_inside_the_grid_only() {
    let grid = Rect { width: 20, height: 10 };
    let mut rooms = vec![(Rect { width: 5, height: 4 }, Position { x: 3, y: 3 }, RoomType::Regular)];
    assert_eq!(apply_push(&mut rooms, 0, None, &grid), Push::Settled);
    assert_eq!(rooms[0].1, Position { x: 3, y: 3 });
    assert_eq!(apply_push(&mut rooms, 0, Some(Position { x: 16, y: 3 }), &grid), Push::Replace);
    assert_eq!(rooms[0].1, Position { x: 3, y: 3 });
    assert_eq!(apply_push(&mut rooms, 0, Some(Position { x: -1, y: 3 }), &grid), Push::Replace);
    assert_eq!(apply_push(&mut rooms, 0, Some(Position { x: 7, y: 2 }), &grid), Push::Moved);
    assert_eq!(rooms[0], (Rect { width: 5, height: 4 }, Position { x: 7, y: 2 }, RoomType::Regular));
}
