//! Positions, rectangles and the components an entity is made of.

use vstd::prelude::*;
pub use crate::grid::Position;
use crate::dungeon::event::Event;

verus! {

/// A width and a height.
#[derive(Clone, Copy, PartialEq, Eq, Structural, Debug)]
pub struct Rect {
    pub width: isize,
    pub height: isize,
}

/// `a / b` as Rust computes it for integers: rounded toward zero.
pub open spec fn div_toward_zero(a: int, b: int) -> int {
    if a >= 0 { a / b } else { -((-a) / b) }
}

impl Rect {
    /// The area.
    pub fn area(&self) -> (a: isize)
        requires
            isize::MIN <= self.width * self.height <= isize::MAX,
        ensures
            a == self.width * self.height,
    {
        self.width * self.height
    }

    /// The centre of the rectangle whose corner is at `pos` (half sizes rounded
    /// toward zero).
    pub fn center(&self, pos: &Position) -> (c: Position)
        requires
            isize::MIN <= pos.x + div_toward_zero(self.width as int, 2) <= isize::MAX,
            isize::MIN <= pos.y + div_toward_zero(self.height as int, 2) <= isize::MAX,
        ensures
            c.x == pos.x + div_toward_zero(self.width as int, 2),
            c.y == pos.y + div_toward_zero(self.height as int, 2),
    {
        Position { x: pos.x + self.width / 2, y: pos.y + self.height / 2 }
    }
}


/// The rectangles at `pos1` and `pos2` overlap or touch.
pub fn intersects(pos1: &Position, rect1: &Rect, pos2: &Position, rect2: &Rect) -> (b: bool)
    requires
        isize::MIN <= pos1.x + rect1.width <= isize::MAX,
        isize::MIN <= pos1.y + rect1.height <= isize::MAX,
        isize::MIN <= pos2.x + rect2.width <= isize::MAX,
        isize::MIN <= pos2.y + rect2.height <= isize::MAX,
    ensures
        b == (pos1.x <= pos2.x + rect2.width && pos1.x + rect1.width >= pos2.x && pos1.y <= pos2.y
            + rect2.height && pos1.y + rect1.height >= pos2.y),
{
    let r1 = pos1;
    let r2 = pos2;
    let r1_width = rect1.width;
    let r2_width = rect2.width;
    let r1_height = rect1.height;
    let r2_height = rect2.height;
    r1.x <= (r2.x + r2_width) && (r1.x + r1_width) >= r2.x && r1.y <= (r2.y + r2_height) && (r1.y + r1_height)
        >= r2.y
}

/// The rectangle at `pos1`, borders included, holds the point `pos2`.
pub fn contains_point(pos1: &Position, rect1: &Rect, pos2: &Position) -> (b: bool)
    requires
        isize::MIN <= pos1.x + rect1.width <= isize::MAX,
        isize::MIN <= pos1.y + rect1.height <= isize::MAX,
    ensures
        b == (pos2.x >= pos1.x && pos2.x <= pos1.x + rect1.width && pos2.y >= pos1.y && pos2.y <= pos1.y
            + rect1.height),
{
    pos2.x >= pos1.x && pos2.x <= pos1.x + rect1.width && pos2.y >= pos1.y && pos2.y <= pos1.y + rect1.height
}

/// Who is looking, or what is looked at.
#[derive(Eq, PartialEq, Structural, Hash, Clone, Copy, Debug)]
pub enum ViewType {
    Player,
    Minion,
    SecretWall,
}

/// An item.
#[derive(PartialEq, Eq, Structural, Hash, Clone, Copy, Debug, PartialOrd, Ord)]
pub enum Item {
    Key,
}

/// The character an item is drawn with.
pub fn get_item_char(item: &Item) -> (c: char)
    ensures
        c == 'k',
{
    match item {
        Item::Key => 'k',
    }
}

/// A colour as red, green and blue bytes.
pub type Rgb = (u8, u8, u8);

/// A line of dialogue with its optional background and foreground colours.
pub type DialogueLine = (String, Option<(Option<Rgb>, Option<Rgb>)>);

/// One part of an entity. A variant with `None` stands for the kind of
/// component alone, as used to look components up.
#[derive(Eq, PartialEq, Hash, Debug)]
pub enum Component {
    Minion(Option<(bool, char)>),
    Wall,
    SecretWall(Option<usize>),
    SecretWallHint,
    Room,
    Door,
    Position(Option<Position>),
    Render(Option<(char, Option<Rgb>, Option<Rgb>)>),
    ZIndex(Option<usize>),
    Player,
    Drop(Option<Item>),
    Item(Option<Item>),
    Fog(Option<bool>),
    Solid,
    Viewable(Option<(ViewType, Vec<usize>)>),
    ViewDistance(Option<usize>),
    Cooldown(Option<usize>),
    AffectsFog,
    Activated(Option<bool>),
    Dialogue(Option<(Vec<DialogueLine>, Vec<(String, Event)>)>),
}

/// The component that stands for the kind of `c`: the same variant with no
/// contents.
pub open spec fn default_of(c: Component) -> Component {
    match c {
        Component::Minion(_) => Component::Minion(None),
        Component::Wall => Component::Wall,
        Component::SecretWall(_) => Component::SecretWall(None),
        Component::SecretWallHint => Component::SecretWallHint,
        Component::Room => Component::Room,
        Component::Door => Component::Door,
        Component::Position(_) => Component::Position(None),
        Component::Render(_) => Component::Render(None),
        Component::ZIndex(_) => Component::ZIndex(None),
        Component::Player => Component::Player,
        Component::Drop(_) => Component::Drop(None),
        Component::Item(_) => Component::Item(None),
        Component::Fog(_) => Component::Fog(None),
        Component::Solid => Component::Solid,
        Component::Viewable(_) => Component::Viewable(None),
        Component::ViewDistance(_) => Component::ViewDistance(None),
        Component::Cooldown(_) => Component::Cooldown(None),
        Component::AffectsFog => Component::AffectsFog,
        Component::Activated(_) => Component::Activated(None),
        Component::Dialogue(_) => Component::Dialogue(None),
    }
}

/// The component that stands for the kind of `c`.
pub fn get_default_component(c: &Component) -> (d: Component)
    ensures
        d == default_of(*c),
{
    match c {
        Component::Minion(_) => Component::Minion(None),
        Component::Wall => Component::Wall,
        Component::SecretWall(_) => Component::SecretWall(None),
        Component::SecretWallHint => Component::SecretWallHint,
        Component::Room => Component::Room,
        Component::Door => Component::Door,
        Component::Position(_) => Component::Position(None),
        Component::Render(_) => Component::Render(None),
        Component::ZIndex(_) => Component::ZIndex(None),
        Component::Player => Component::Player,
        Component::Drop(_) => Component::Drop(None),
        Component::Item(_) => Component::Item(None),
        Component::Fog(_) => Component::Fog(None),
        Component::Solid => Component::Solid,
        Component::Viewable(_) => Component::Viewable(None),
        Component::ViewDistance(_) => Component::ViewDistance(None),
        Component::Cooldown(_) => Component::Cooldown(None),
        Component::AffectsFog => Component::AffectsFog,
        Component::Activated(_) => Component::Activated(None),
        Component::Dialogue(_) => Component::Dialogue(None),
    }
}

/// The kind of a component, as a number: components of one kind are the
/// same variant, whatever their contents.
pub open spec fn kind(c: Component) -> nat {
    match c {
        Component::Minion(_) => 0,
        Component::Wall => 1,
        Component::SecretWall(_) => 2,
        Component::SecretWallHint => 3,
        Component::Room => 4,
        Component::Door => 5,
        Component::Position(_) => 6,
        Component::Render(_) => 7,
        Component::ZIndex(_) => 8,
        Component::Player => 9,
        Component::Drop(_) => 10,
        Component::Item(_) => 11,
        Component::Fog(_) => 12,
        Component::Solid => 13,
        Component::Viewable(_) => 14,
        Component::ViewDistance(_) => 15,
        Component::Cooldown(_) => 16,
        Component::AffectsFog => 17,
        Component::Activated(_) => 18,
        Component::Dialogue(_) => 19,
    }
}

/// The kind of a component.
pub fn component_kind(c: &Component) -> (k: usize)
    ensures
        k == kind(*c),
{
    match c {
        Component::Minion(_) => 0,
        Component::Wall => 1,
        Component::SecretWall(_) => 2,
        Component::SecretWallHint => 3,
        Component::Room => 4,
        Component::Door => 5,
        Component::Position(_) => 6,
        Component::Render(_) => 7,
        Component::ZIndex(_) => 8,
        Component::Player => 9,
        Component::Drop(_) => 10,
        Component::Item(_) => 11,
        Component::Fog(_) => 12,
        Component::Solid => 13,
        Component::Viewable(_) => 14,
        Component::ViewDistance(_) => 15,
        Component::Cooldown(_) => 16,
        Component::AffectsFog => 17,
        Component::Activated(_) => 18,
        Component::Dialogue(_) => 19,
    }
}

/// The kind of a component is the kind of its default.
pub proof fn lemma_default_idempotent(c: Component)
    ensures
        default_of(default_of(c)) == default_of(c),
{
}

} // verus!
