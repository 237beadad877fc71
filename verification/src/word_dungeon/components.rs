//! Positions on the grid and the components an entity is made of.

use vstd::prelude::*;
use crate::word_dungeon::items::Item;
use crate::word_dungeon::event::Event;
pub use crate::grid::Position;

verus! {

/// Who is looking, or what is looked at.
#[derive(PartialEq, Eq, Structural, Clone, Copy, Debug, Hash)]
pub enum ViewType {
    Player,
    Minion,
    SecretWall,
}

/// A line of dialogue with its optional foreground and background colours.
pub type DialogueLine = (String, Option<(Option<(u8, u8, u8, u8)>, Option<(u8, u8, u8, u8)>)>);

/// One part of an entity. A variant with `None` stands for the kind of
/// component alone, as used to look components up.
#[derive(Debug, PartialEq, Eq, Hash)]
pub enum Component {
    Position(Option<Position>),
    Render(Option<(String, (u8, u8, u8, u8))>),
    RenderFg(Option<(String, (u8, u8, u8, u8), bool)>),
    RenderBg(Option<(String, (u8, u8, u8, u8))>),
    BackgroundColor(Option<(u8, u8, u8, u8)>),
    ZIndex(Option<isize>),
    Invisible(Option<bool>),
    Hidden(Option<bool>),
    Wall,
    Door,
    Solid,
    Room,
    Player,
    AffectsFog,
    Mystery,
    SecretWallHint,
    DialogueChar,
    SecretWall(Option<usize>),
    Fog(Option<bool>),
    Minion(Option<(bool, char)>),
    Viewable(Option<(ViewType, Vec<usize>)>),
    ViewDistance(Option<usize>),
    Drop(Option<Item>),
    Item(Option<Item>),
    Paywall(Option<usize>),
    Cooldown(Option<usize>),
    StepCount(Option<usize>),
    Activated(Option<bool>),
    Dialogue(Option<(Vec<DialogueLine>, Vec<(String, Event)>)>),
}

/// The kind of a component, as a number: components of one kind are the
/// same variant, whatever their contents.
pub open spec fn kind(c: Component) -> nat {
    match c {
        Component::Position(_) => 0,
        Component::Render(_) => 1,
        Component::RenderFg(_) => 2,
        Component::RenderBg(_) => 3,
        Component::BackgroundColor(_) => 4,
        Component::ZIndex(_) => 5,
        Component::Invisible(_) => 6,
        Component::Hidden(_) => 7,
        Component::Wall => 8,
        Component::Door => 9,
        Component::Solid => 10,
        Component::Room => 11,
        Component::Player => 12,
        Component::AffectsFog => 13,
        Component::Mystery => 14,
        Component::SecretWallHint => 15,
        Component::DialogueChar => 16,
        Component::SecretWall(_) => 17,
        Component::Fog(_) => 18,
        Component::Minion(_) => 19,
        Component::Viewable(_) => 20,
        Component::ViewDistance(_) => 21,
        Component::Drop(_) => 22,
        Component::Item(_) => 23,
        Component::Paywall(_) => 24,
        Component::Cooldown(_) => 25,
        Component::StepCount(_) => 26,
        Component::Activated(_) => 27,
        Component::Dialogue(_) => 28,
    }
}

/// The kind of a component.
pub fn component_kind(c: &Component) -> (k: usize)
    ensures
        k == kind(*c),
{
    match c {
        Component::Position(_) => 0,
        Component::Render(_) => 1,
        Component::RenderFg(_) => 2,
        Component::RenderBg(_) => 3,
        Component::BackgroundColor(_) => 4,
        Component::ZIndex(_) => 5,
        Component::Invisible(_) => 6,
        Component::Hidden(_) => 7,
        Component::Wall => 8,
        Component::Door => 9,
        Component::Solid => 10,
        Component::Room => 11,
        Component::Player => 12,
        Component::AffectsFog => 13,
        Component::Mystery => 14,
        Component::SecretWallHint => 15,
        Component::DialogueChar => 16,
        Component::SecretWall(_) => 17,
        Component::Fog(_) => 18,
        Component::Minion(_) => 19,
        Component::Viewable(_) => 20,
        Component::ViewDistance(_) => 21,
        Component::Drop(_) => 22,
        Component::Item(_) => 23,
        Component::Paywall(_) => 24,
        Component::Cooldown(_) => 25,
        Component::StepCount(_) => 26,
        Component::Activated(_) => 27,
        Component::Dialogue(_) => 28,
    }
}

/// The component carries no value: it is the bare form of its kind, as
/// used to look components up.
pub open spec fn bare(c: Component) -> bool {
    match c {
        Component::Position(x) => x is None,
        Component::Render(x) => x is None,
        Component::RenderFg(x) => x is None,
        Component::RenderBg(x) => x is None,
        Component::BackgroundColor(x) => x is None,
        Component::ZIndex(x) => x is None,
        Component::Invisible(x) => x is None,
        Component::Hidden(x) => x is None,
        Component::SecretWall(x) => x is None,
        Component::Fog(x) => x is None,
        Component::Minion(x) => x is None,
        Component::Viewable(x) => x is None,
        Component::ViewDistance(x) => x is None,
        Component::Drop(x) => x is None,
        Component::Item(x) => x is None,
        Component::Paywall(x) => x is None,
        Component::Cooldown(x) => x is None,
        Component::StepCount(x) => x is None,
        Component::Activated(x) => x is None,
        Component::Dialogue(x) => x is None,
        _ => true,
    }
}

/// Whether the component carries no value.
pub fn is_bare(c: &Component) -> (b: bool)
    ensures
        b == bare(*c),
{
    match c {
        Component::Position(x) => x.is_none(),
        Component::Render(x) => x.is_none(),
        Component::RenderFg(x) => x.is_none(),
        Component::RenderBg(x) => x.is_none(),
        Component::BackgroundColor(x) => x.is_none(),
        Component::ZIndex(x) => x.is_none(),
        Component::Invisible(x) => x.is_none(),
        Component::Hidden(x) => x.is_none(),
        Component::SecretWall(x) => x.is_none(),
        Component::Fog(x) => x.is_none(),
        Component::Minion(x) => x.is_none(),
        Component::Viewable(x) => x.is_none(),
        Component::ViewDistance(x) => x.is_none(),
        Component::Drop(x) => x.is_none(),
        Component::Item(x) => x.is_none(),
        Component::Paywall(x) => x.is_none(),
        Component::Cooldown(x) => x.is_none(),
        Component::StepCount(x) => x.is_none(),
        Component::Activated(x) => x.is_none(),
        Component::Dialogue(x) => x.is_none(),
        _ => true,
    }
}

} // verus!
