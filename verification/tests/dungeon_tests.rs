use wgames::dungeon::components::{
    contains_point, get_default_component, get_item_char, intersects, Component, Item, Position, Rect, ViewType,
};
use wgames::dungeon::create::{
    create_dialogue, create_door, create_floor, create_fog, create_item, create_minion, create_player,
    create_secret_wall, create_secret_wall_hint, create_wall, BG_COLOR, WHITE,
};
use wgames::dungeon::entity::new_entity;
use wgames::dungeon::rooms;

#[test]
fn rect_area_and_center() {
    let r = Rect { width: 7, height: 4 };
    assert_eq!(r.area(), 28);
    assert_eq!(r.center(&Position { x: 10, y: 10 }), Position { x: 13, y: 12 });
    let odd = Rect { width: -3, height: 5 };
    assert_eq!(odd.center(&Position { x: 0, y: 0 }), Position { x: -1, y: 2 });
}

#[test]
fn rect_overlap() {
    let a = Rect { width: 4, height: 4 };
    let b = Rect { width: 2, height: 2 };
    assert!(intersects(&Position { x: 0, y: 0 }, &a, &Position { x: 4, y: 4 }, &b));
    assert!(!intersects(&Position { x: 0, y: 0 }, &a, &Position { x: 5, y: 0 }, &b));
    assert!(contains_point(&Position { x: 0, y: 0 }, &a, &Position { x: 4, y: 0 }));
    assert!(!contains_point(&Position { x: 0, y: 0 }, &a, &Position { x: -1, y: 0 }));
}

#[test]
fn default_components() {
    assert_eq!(get_default_component(&Component::Position(Some(Position { x: 1, y: 2 }))), Component::Position(None));
    assert_eq!(get_default_component(&Component::Wall), Component::Wall);
    assert_eq!(get_default_component(&Component::Render(Some(('a', None, None)))), Component::Render(None));
    assert_eq!(get_item_char(&Item::Key), 'k');
}

#[test]
fn dungeon_entities() {
    let mut counter = 0;
    let p = Position { x: 3, y: 4 };
    let w = create_wall(&mut counter, &p, '#');
    assert_eq!(w.id, 0);
    assert_eq!(w.components[2], Component::Render(Some(('#', None, None))));
    assert_eq!(create_secret_wall(&mut counter, &p, 2).components[0], Component::SecretWall(Some(2)));
    assert_eq!(
        create_secret_wall_hint(&mut counter, &p).components[2],
        Component::Viewable(Some((ViewType::SecretWall, vec![])))
    );
    assert_eq!(create_fog(&mut counter, &p).components[2], Component::ZIndex(Some(3)));
    assert_eq!(create_floor(&mut counter, &p).components[1], Component::Render(Some((' ', Some(BG_COLOR), None))));
    assert_eq!(create_door(&mut counter, &p).components[3], Component::Render(Some(('$', None, Some(WHITE)))));
    let m = create_minion(&mut counter, &p, 'q', 'M', false, false);
    assert_eq!(m.components.len(), 6);
    assert_eq!(m.components[5], Component::ViewDistance(Some(8)));
    assert_eq!(create_item(&mut counter, &p, Item::Key).components[3], Component::Item(Some(Item::Key)));
    assert_eq!(create_player(&mut counter, p).components[4], Component::Cooldown(Some(6)));
    let d = create_dialogue(&mut counter, vec![], vec![], p);
    assert_eq!(d.components[3], Component::ZIndex(Some(14)));
    assert_eq!(rooms::create_item(&mut counter, &p, Item::Key).components[1], Component::Render(Some(('k', None, None))));
    let e = new_entity(&mut counter, vec![Component::Room]);
    assert_eq!(e.id, 11);
    assert_eq!(counter, 12);
}
