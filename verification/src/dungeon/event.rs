//! The events of the game.

use vstd::prelude::*;

verus! {

/// Something that happens in the game and is handled between frames.
#[derive(Debug, PartialEq, Eq, Hash, Clone)]
pub enum Event {
    GameStart,
    Refresh,
    Welcome,
    Nothing,
    CreateName(Option<String>),
}

} // verus!
