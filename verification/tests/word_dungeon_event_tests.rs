use wgames::dungeon::components::Rect;
use wgames::grid::Position;
use wgames::word_dungeon::components::{Component, ViewType};
use wgames::word_dungeon::create::create_wall;
use wgames::word_dungeon::effects::Effect;
use wgames::word_dungeon::entity::Entity;
use wgames::word_dungeon::event::Event;
use wgames::word_dungeon::handling::{handle_event, item_name_of};
use wgames::word_dungeon::items::Item;
use wgames::word_dungeon::state::{add_entity, State};

fn new_state() -> State {
    State::new(Rect { width: 20, height: 10 }, vec![vec![Component::Dialogue(None)]])
}

fn message(e: &Entity) -> Vec<String> {
    match &e.components[1] {
        Component::Dialogue(Some((lines, _))) => lines.iter().map(|l| l.0.clone()).collect(),
        _ => panic!("not a dialogue"),
    }
}

fn add_wall(state: &mut State) -> usize {
    let id = state.entity_id_counter;
    let e = create_wall(&mut state.entity_id_counter, &Position { x: 1, y: 1 });
    add_entity(e, state);
    id
}

#[test]
fn item_names_are_those_of_the_code() {
    assert_eq!(item_name_of(&Item::Key), "Key");
    assert_eq!(item_name_of(&Item::MembershipCard), "MembershipCard");
    assert_eq!(item_name_of(&Item::BathroomSteak), "BathroomSteak");
}

#[test]
fn a_wish_is_granted() {
    let mut state = new_state();
    let mut seen = false;
    let left = handle_event(&mut state, Event::UseEffect(Effect::ShopDiscount), &mut seen);
    assert!(left.is_none());
    assert_eq!(message(&state.entities_map[&0]), vec!["You get a shop discount".to_string()]);
    assert_eq!(state.mods.shop_discount, 1);
    assert_eq!(state.entity_id_counter, 1);
}

#[test]
fn buying_with_and_without_gold() {
    let mut state = new_state();
    let mut seen = false;
    let free = add_wall(&mut state);
    handle_event(&mut state, Event::BuyItem((free, Item::Key, 0, 9)), &mut seen);
    assert!(!state.entities_map.contains_key(&free));
    assert_eq!(message(&state.entities_map[&1]), vec!["You picked up the Key".to_string()]);
    assert_eq!(state.items, vec![Item::Key]);

    state.gold = 10;
    let sold = add_wall(&mut state);
    handle_event(&mut state, Event::BuyItem((sold, Item::Glasses, 5, 9)), &mut seen);
    assert_eq!(state.gold, 5);
    assert_eq!(message(&state.entities_map[&(sold + 1)]), vec!["You bought the Glasses for 5g".to_string()]);
    assert_eq!(state.items, vec![Item::Key, Item::Glasses]);

    let dear = add_wall(&mut state);
    handle_event(&mut state, Event::BuyItem((dear, Item::DustyYam, 12, 9)), &mut seen);
    assert!(state.entities_map.contains_key(&dear));
    assert_eq!(state.gold, 5);
    assert_eq!(message(&state.entities_map[&(dear + 1)]), vec!["You don't have enough gold!".to_string()]);
    assert_eq!(state.items.len(), 2);
}

#[test]
fn sightings_are_announced_once_for_walls() {
    let mut state = new_state();
    let mut seen = false;
    handle_event(&mut state, Event::View(((0, ViewType::Player), (1, ViewType::Minion))), &mut seen);
    assert_eq!(message(&state.entities_map[&0]), vec!["You see a minion".to_string()]);
    handle_event(&mut state, Event::View(((0, ViewType::Player), (2, ViewType::SecretWall))), &mut seen);
    assert!(seen);
    assert_eq!(message(&state.entities_map[&1]), vec!["You see a crack in the wall".to_string()]);
    handle_event(&mut state, Event::View(((0, ViewType::Player), (2, ViewType::SecretWall))), &mut seen);
    assert_eq!(state.entity_id_counter, 2);
    handle_event(&mut state, Event::View(((1, ViewType::Minion), (0, ViewType::Player))), &mut seen);
    assert_eq!(state.entity_id_counter, 2);
}

#[test]
fn a_name_queues_the_start() {
    let mut state = new_state();
    let mut seen = false;
    handle_event(&mut state, Event::CreateName(Some("bob".to_string())), &mut seen);
    assert_eq!(state.name, "bob");
    assert_eq!(state.events, vec![Event::Refresh, Event::GameStart]);
}

#[test]
fn the_welcome_asks_for_a_name() {
    let mut state = new_state();
    let mut seen = false;
    handle_event(&mut state, Event::Welcome, &mut seen);
    assert_eq!(state.entity_id_counter, 2);
    assert_eq!(
        message(&state.entities_map[&0]),
        vec!["Welcome to ".to_string(), "WUNGEON".to_string(), "!\n\n(press any key to continue)".to_string()]
    );
    match &state.entities_map[&1].components[1] {
        Component::Dialogue(Some((_, options))) => {
            assert_eq!(options.len(), 1);
            assert_eq!(options[0].0, "");
            assert_eq!(options[0].1, Event::CreateName(None));
        },
        _ => panic!("not a dialogue"),
    }
}

#[test]
fn what_needs_more_comes_back() {
    let mut state = new_state();
    let mut seen = false;
    let mystery = add_wall(&mut state);
    assert_eq!(handle_event(&mut state, Event::CreateMystery(mystery), &mut seen), Some(Event::CreateMystery(mystery)));
    assert!(state.entities_map.is_empty());
    assert_eq!(handle_event(&mut state, Event::Refresh, &mut seen), Some(Event::Refresh));
    assert_eq!(handle_event(&mut state, Event::GameStart, &mut seen), Some(Event::GameStart));
    assert_eq!(handle_event(&mut state, Event::Nothing, &mut seen), None);
    assert!(state.events.is_empty());
}

#[test]
fn a_mystery_offers_three_different_wishes() {
    let mut state = new_state();
    let mut rng = rand::thread_rng();
    let e = wgames::word_dungeon::create::create_mystery_dialogue(&mut state.entity_id_counter, &mut rng);
    match &e.components[1] {
        Component::Dialogue(Some((lines, options))) => {
            assert_eq!(lines.len(), 5);
            assert_eq!(options.len(), 3);
            assert_eq!(options[0].0, "1");
            assert_ne!(options[0].1, options[1].1);
            assert_ne!(options[1].1, options[2].1);
            assert_ne!(options[0].1, options[2].1);
        },
        _ => panic!("not a dialogue"),
    }
    assert_eq!(state.entity_id_counter, 1);
}
