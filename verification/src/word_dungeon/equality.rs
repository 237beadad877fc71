//! When two components, or two events, are the same: field by field, texts
//! by their characters.

use vstd::prelude::*;
use crate::word_dungeon::components::{kind, Component, DialogueLine};
use crate::word_dungeon::event::Event;
use crate::equality_helpers::numbers_eq;

verus! {

/// Two optional texts are the same.
pub open spec fn same_text(a: Option<String>, b: Option<String>) -> bool {
    match (a, b) {
        (None, None) => true,
        (Some(x), Some(y)) => x@ == y@,
        _ => false,
    }
}

/// Two lists of dialogue lines are the same.
pub open spec fn same_lines(a: Seq<DialogueLine>, b: Seq<DialogueLine>) -> bool {
    a.len() == b.len() && forall|i: int| 0 <= i < a.len() ==> (#[trigger] a[i]).0@ == b[i].0@ && a[i].1 == b[i].1
}

/// Two components are the same.
pub open spec fn same_component(a: Component, b: Component) -> bool
    decreases a,
{
    match (a, b) {
        (Component::Position(x), Component::Position(y)) => x == y,
        (Component::Render(x), Component::Render(y)) => match (x, y) {
            (None, None) => true,
            (Some(p), Some(q)) => p.0@ == q.0@ && p.1 == q.1,
            _ => false,
        },
        (Component::RenderFg(x), Component::RenderFg(y)) => match (x, y) {
            (None, None) => true,
            (Some(p), Some(q)) => p.0@ == q.0@ && p.1 == q.1 && p.2 == q.2,
            _ => false,
        },
        (Component::RenderBg(x), Component::RenderBg(y)) => match (x, y) {
            (None, None) => true,
            (Some(p), Some(q)) => p.0@ == q.0@ && p.1 == q.1,
            _ => false,
        },
        (Component::BackgroundColor(x), Component::BackgroundColor(y)) => x == y,
        (Component::ZIndex(x), Component::ZIndex(y)) => x == y,
        (Component::Invisible(x), Component::Invisible(y)) => x == y,
        (Component::Hidden(x), Component::Hidden(y)) => x == y,
        (Component::Wall, Component::Wall) => true,
        (Component::Door, Component::Door) => true,
        (Component::Solid, Component::Solid) => true,
        (Component::Room, Component::Room) => true,
        (Component::Player, Component::Player) => true,
        (Component::AffectsFog, Component::AffectsFog) => true,
        (Component::Mystery, Component::Mystery) => true,
        (Component::SecretWallHint, Component::SecretWallHint) => true,
        (Component::DialogueChar, Component::DialogueChar) => true,
        (Component::SecretWall(x), Component::SecretWall(y)) => x == y,
        (Component::Fog(x), Component::Fog(y)) => x == y,
        (Component::Minion(x), Component::Minion(y)) => x == y,
        (Component::Viewable(x), Component::Viewable(y)) => match (x, y) {
            (None, None) => true,
            (Some(p), Some(q)) => p.0 == q.0 && p.1@ == q.1@,
            _ => false,
        },
        (Component::ViewDistance(x), Component::ViewDistance(y)) => x == y,
        (Component::Drop(x), Component::Drop(y)) => x == y,
        (Component::Item(x), Component::Item(y)) => x == y,
        (Component::Paywall(x), Component::Paywall(y)) => x == y,
        (Component::Cooldown(x), Component::Cooldown(y)) => x == y,
        (Component::StepCount(x), Component::StepCount(y)) => x == y,
        (Component::Activated(x), Component::Activated(y)) => x == y,
        (Component::Dialogue(x), Component::Dialogue(y)) => match (x, y) {
            (None, None) => true,
            (Some(p), Some(q)) => same_lines(p.0@, q.0@) && p.1@.len() == q.1@.len() && forall|i: int|
                0 <= i < p.1@.len() ==> (#[trigger] p.1@[i]).0@ == q.1@[i].0@ && same_event(p.1@[i].1, q.1@[i].1),
            _ => false,
        },
        _ => false,
    }
}

/// Components that are the same are of the same kind.
pub proof fn lemma_same_component_kind(a: Component, b: Component)
    requires
        same_component(a, b),
    ensures
        kind(a) == kind(b),
{
}

/// Two events are the same.
pub open spec fn same_event(a: Event, b: Event) -> bool
    decreases a,
{
    match (a, b) {
        (Event::GameStart, Event::GameStart) => true,
        (Event::Refresh, Event::Refresh) => true,
        (Event::Welcome, Event::Welcome) => true,
        (Event::Nothing, Event::Nothing) => true,
        (Event::ComponentChanged(x), Event::ComponentChanged(y)) => same_component(x, y),
        (Event::View(x), Event::View(y)) => x == y,
        (Event::CreateName(x), Event::CreateName(y)) => same_text(x, y),
        (Event::BuyItem(x), Event::BuyItem(y)) => x == y,
        (Event::CreateMystery(x), Event::CreateMystery(y)) => x == y,
        (Event::UseEffect(x), Event::UseEffect(y)) => x == y,
        _ => false,
    }
}



/// Whether two colours are the same.
fn color_eq(a: &(u8, u8, u8, u8), b: &(u8, u8, u8, u8)) -> (r: bool)
    ensures
        r == (*a == *b),
{
    a.0 == b.0 && a.1 == b.1 && a.2 == b.2 && a.3 == b.3
}

/// Whether two optional colours are the same.
fn opt_color_eq(a: &Option<(u8, u8, u8, u8)>, b: &Option<(u8, u8, u8, u8)>) -> (r: bool)
    ensures
        r == (*a == *b),
{
    match (a, b) {
        (None, None) => true,
        (Some(x), Some(y)) => color_eq(x, y),
        _ => false,
    }
}

/// Whether two optional pairs of colours are the same.
fn line_colors_eq(
    a: &Option<(Option<(u8, u8, u8, u8)>, Option<(u8, u8, u8, u8)>)>,
    b: &Option<(Option<(u8, u8, u8, u8)>, Option<(u8, u8, u8, u8)>)>,
) -> (r: bool)
    ensures
        r == (*a == *b),
{
    match (a, b) {
        (None, None) => true,
        (Some(x), Some(y)) => opt_color_eq(&x.0, &y.0) && opt_color_eq(&x.1, &y.1),
        _ => false,
    }
}

/// Whether two minion descriptions are the same.
fn minion_eq(a: &Option<(bool, char)>, b: &Option<(bool, char)>) -> (r: bool)
    ensures
        r == (*a == *b),
{
    match (a, b) {
        (None, None) => true,
        (Some(x), Some(y)) => x.0 == y.0 && x.1 == y.1,
        _ => false,
    }
}

/// Whether two optional texts are the same.
fn text_eq(a: &Option<String>, b: &Option<String>) -> (r: bool)
    ensures
        r == same_text(*a, *b),
{
    match (a, b) {
        (None, None) => true,
        (Some(x), Some(y)) => *x == *y,
        _ => false,
    }
}

/// Whether two lists of dialogue lines are the same.
fn lines_eq(a: &Vec<DialogueLine>, b: &Vec<DialogueLine>) -> (r: bool)
    ensures
        r == same_lines(a@, b@),
{
    if a.len() != b.len() {
        return false;
    }
    let mut i: usize = 0;
    while i < a.len()
        invariant
            i <= a@.len(),
            a@.len() == b@.len(),
            forall|j: int| 0 <= j < i ==> (#[trigger] a@[j]).0@ == b@[j].0@ && a@[j].1 == b@[j].1,
        decreases a@.len() - i,
    {
        if a[i].0 != b[i].0 || !line_colors_eq(&a[i].1, &b[i].1) {
            return false;
        }
        i = i + 1;
    }
    true
}

/// Whether two components are the same.
pub fn component_eq(a: &Component, b: &Component) -> (r: bool)
    ensures
        r == same_component(*a, *b),
    decreases a,
{
    match (a, b) {
        (Component::Position(x), Component::Position(y)) => *x == *y,
        (Component::Render(x), Component::Render(y)) => match (x, y) {
            (None, None) => true,
            (Some(p), Some(q)) => p.0 == q.0 && color_eq(&p.1, &q.1),
            _ => false,
        },
        (Component::RenderFg(x), Component::RenderFg(y)) => match (x, y) {
            (None, None) => true,
            (Some(p), Some(q)) => p.0 == q.0 && color_eq(&p.1, &q.1) && p.2 == q.2,
            _ => false,
        },
        (Component::RenderBg(x), Component::RenderBg(y)) => match (x, y) {
            (None, None) => true,
            (Some(p), Some(q)) => p.0 == q.0 && color_eq(&p.1, &q.1),
            _ => false,
        },
        (Component::BackgroundColor(x), Component::BackgroundColor(y)) => opt_color_eq(x, y),
        (Component::ZIndex(x), Component::ZIndex(y)) => *x == *y,
        (Component::Invisible(x), Component::Invisible(y)) => *x == *y,
        (Component::Hidden(x), Component::Hidden(y)) => *x == *y,
        (Component::Wall, Component::Wall) => true,
        (Component::Door, Component::Door) => true,
        (Component::Solid, Component::Solid) => true,
        (Component::Room, Component::Room) => true,
        (Component::Player, Component::Player) => true,
        (Component::AffectsFog, Component::AffectsFog) => true,
        (Component::Mystery, Component::Mystery) => true,
        (Component::SecretWallHint, Component::SecretWallHint) => true,
        (Component::DialogueChar, Component::DialogueChar) => true,
        (Component::SecretWall(x), Component::SecretWall(y)) => *x == *y,
        (Component::Fog(x), Component::Fog(y)) => *x == *y,
        (Component::Minion(x), Component::Minion(y)) => minion_eq(x, y),
        (Component::Viewable(x), Component::Viewable(y)) => match (x, y) {
            (None, None) => true,
            (Some(p), Some(q)) => p.0 == q.0 && numbers_eq(&p.1, &q.1),
            _ => false,
        },
        (Component::ViewDistance(x), Component::ViewDistance(y)) => *x == *y,
        (Component::Drop(x), Component::Drop(y)) => *x == *y,
        (Component::Item(x), Component::Item(y)) => *x == *y,
        (Component::Paywall(x), Component::Paywall(y)) => *x == *y,
        (Component::Cooldown(x), Component::Cooldown(y)) => *x == *y,
        (Component::StepCount(x), Component::StepCount(y)) => *x == *y,
        (Component::Activated(x), Component::Activated(y)) => *x == *y,
        (Component::Dialogue(x), Component::Dialogue(y)) => match (x, y) {
            (None, None) => true,
            (Some(p), Some(q)) => {
                if !lines_eq(&p.0, &q.0) || p.1.len() != q.1.len() {
                    return false;
                }
                let mut i: usize = 0;
                while i < p.1.len()
                    invariant
                        i <= p.1@.len(),
                        *a == Component::Dialogue(Some(*p)),
                        *b == Component::Dialogue(Some(*q)),
                        same_lines(p.0@, q.0@),
                        p.1@.len() == q.1@.len(),
                        forall|j: int| 0 <= j < i ==> (#[trigger] p.1@[j]).0@ == q.1@[j].0@ && same_event(p.1@[j].1, q.1@[j].1),
                    decreases p.1@.len() - i,
                {
                    proof {
                        let opt = (*a)->Dialogue_0;
                        assert(decreases_to!(*a => opt));
                        assert(opt->Some_0 == *p);
                        assert(decreases_to!(opt => opt->Some_0));
                        assert(decreases_to!(*p => p.1));
                        assert(decreases_to!(p.1 => p.1@));
                        assert(decreases_to!(p.1@ => p.1@[i as int]));
                        assert(decreases_to!(p.1@[i as int] => p.1@[i as int].1));
                        assert(decreases_to!(*a => p.1@[i as int].1));
                    }
                    if p.1[i].0 != q.1[i].0 || !event_eq(&p.1[i].1, &q.1[i].1) {
                        proof {
                            assert(!((p.1@[i as int]).0@ == q.1@[i as int].0@ && same_event(p.1@[i as int].1, q.1@[i as int].1)));
                        }
                        return false;
                    }
                    i = i + 1;
                }
                true
            },
            _ => false,
        },
        _ => false,
    }
}

/// Whether two events are the same.
pub fn event_eq(a: &Event, b: &Event) -> (r: bool)
    ensures
        r == same_event(*a, *b),
    decreases a,
{
    match (a, b) {
        (Event::GameStart, Event::GameStart) => true,
        (Event::Refresh, Event::Refresh) => true,
        (Event::Welcome, Event::Welcome) => true,
        (Event::Nothing, Event::Nothing) => true,
        (Event::ComponentChanged(x), Event::ComponentChanged(y)) => component_eq(x, y),
        (Event::View(x), Event::View(y)) => x.0.0 == y.0.0 && x.0.1 == y.0.1 && x.1.0 == y.1.0 && x.1.1 == y.1.1,
        (Event::CreateName(x), Event::CreateName(y)) => text_eq(x, y),
        (Event::BuyItem(x), Event::BuyItem(y)) => x.0 == y.0 && x.1 == y.1 && x.2 == y.2 && x.3 == y.3,
        (Event::CreateMystery(x), Event::CreateMystery(y)) => *x == *y,
        (Event::UseEffect(x), Event::UseEffect(y)) => crate::word_dungeon::effects::effects_equal(x, y),
        _ => false,
    }
}


/// A copy of a list of dialogue lines.
fn clone_lines(v: &Vec<DialogueLine>) -> (r: Vec<DialogueLine>)
    ensures
        same_lines(r@, v@),
{
    let mut r: Vec<DialogueLine> = Vec::new();
    let mut i: usize = 0;
    while i < v.len()
        invariant
            i <= v@.len(),
            r@.len() == i,
            forall|j: int| 0 <= j < i ==> (#[trigger] r@[j]).0@ == v@[j].0@ && r@[j].1 == v@[j].1,
        decreases v@.len() - i,
    {
        r.push((v[i].0.clone(), v[i].1));
        i = i + 1;
    }
    r
}

/// A copy of a component.
pub fn clone_component(c: &Component) -> (r: Component)
    ensures
        same_component(r, *c),
    decreases c,
{
    match c {
        Component::Position(x) => Component::Position(*x),
        Component::Render(x) => Component::Render(
            match x {
                Some(p) => Some((p.0.clone(), p.1)),
                None => None,
            },
        ),
        Component::RenderFg(x) => Component::RenderFg(
            match x {
                Some(p) => Some((p.0.clone(), p.1, p.2)),
                None => None,
            },
        ),
        Component::RenderBg(x) => Component::RenderBg(
            match x {
                Some(p) => Some((p.0.clone(), p.1)),
                None => None,
            },
        ),
        Component::BackgroundColor(x) => Component::BackgroundColor(*x),
        Component::ZIndex(x) => Component::ZIndex(*x),
        Component::Invisible(x) => Component::Invisible(*x),
        Component::Hidden(x) => Component::Hidden(*x),
        Component::Wall => Component::Wall,
        Component::Door => Component::Door,
        Component::Solid => Component::Solid,
        Component::Room => Component::Room,
        Component::Player => Component::Player,
        Component::AffectsFog => Component::AffectsFog,
        Component::Mystery => Component::Mystery,
        Component::SecretWallHint => Component::SecretWallHint,
        Component::DialogueChar => Component::DialogueChar,
        Component::SecretWall(x) => Component::SecretWall(*x),
        Component::Fog(x) => Component::Fog(*x),
        Component::Minion(x) => Component::Minion(*x),
        Component::Viewable(x) => Component::Viewable(
            match x {
                Some(p) => Some((p.0, p.1.clone())),
                None => None,
            },
        ),
        Component::ViewDistance(x) => Component::ViewDistance(*x),
        Component::Drop(x) => Component::Drop(*x),
        Component::Item(x) => Component::Item(*x),
        Component::Paywall(x) => Component::Paywall(*x),
        Component::Cooldown(x) => Component::Cooldown(*x),
        Component::StepCount(x) => Component::StepCount(*x),
        Component::Activated(x) => Component::Activated(*x),
        Component::Dialogue(x) => match x {
            None => Component::Dialogue(None),
            Some(p) => {
                let lines = clone_lines(&p.0);
                let mut options: Vec<(String, Event)> = Vec::new();
                let mut i: usize = 0;
                while i < p.1.len()
                    invariant
                        i <= p.1@.len(),
                        *c == Component::Dialogue(Some(*p)),
                        options@.len() == i,
                        forall|j: int| 0 <= j < i ==> (#[trigger] options@[j]).0@ == p.1@[j].0@ && same_event(options@[j].1, p.1@[j].1),
                    decreases p.1@.len() - i,
                {
                    proof {
                        let opt = (*c)->Dialogue_0;
                        assert(decreases_to!(*c => opt));
                        assert(opt->Some_0 == *p);
                        assert(decreases_to!(opt => opt->Some_0));
                        assert(decreases_to!(*p => p.1));
                        assert(decreases_to!(p.1 => p.1@));
                        assert(decreases_to!(p.1@ => p.1@[i as int]));
                        assert(decreases_to!(p.1@[i as int] => p.1@[i as int].1));
                    }
                    let e = clone_event(&p.1[i].1);
                    options.push((p.1[i].0.clone(), e));
                    i = i + 1;
                }
                Component::Dialogue(Some((lines, options)))
            },
        },
    }
}

/// A copy of an event.
pub fn clone_event(e: &Event) -> (r: Event)
    ensures
        same_event(r, *e),
    decreases e,
{
    match e {
        Event::GameStart => Event::GameStart,
        Event::Refresh => Event::Refresh,
        Event::Welcome => Event::Welcome,
        Event::Nothing => Event::Nothing,
        Event::ComponentChanged(c) => Event::ComponentChanged(clone_component(c)),
        Event::View(v) => Event::View(*v),
        Event::CreateName(n) => Event::CreateName(
            match n {
                Some(s) => Some(s.clone()),
                None => None,
            },
        ),
        Event::BuyItem(b) => Event::BuyItem(*b),
        Event::CreateMystery(id) => Event::CreateMystery(*id),
        Event::UseEffect(x) => Event::UseEffect(crate::word_dungeon::effects::clone_effect(x)),
    }
}

} // verus!
