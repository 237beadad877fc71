//! The systems of the dungeon game, in the order they run each frame, with
//! the component kinds each one works on.

use vstd::prelude::*;
use crate::dungeon::components::Component;
use crate::dungeon::event::Event;
use crate::dungeon::state::State;

verus! {

/// The systems that run on the state.
#[derive(PartialEq, Eq, Structural, Clone, Copy, Debug)]
pub enum SystemFn {
    /// Queues the start of the game, once.
    StartUp,
    /// Handles the queued events.
    GameEvents,
    /// Does nothing; its list of components keeps an index entry ready.
    Dummy,
    /// Shows dialogues.
    Dialogue,
    /// Works out the fog.
    CalculateFog,
    /// Draws the grid.
    Render,
    /// Reads the keyboard.
    HandleInputs,
}

/// Queues a refresh of the letters, the start of a game and the welcome.
pub fn start_up(state: &mut State, _components: &[Component])
    ensures
        final(state).events@ == old(state).events@.push(Event::Refresh).push(Event::GameStart).push(Event::Welcome),
        final(state).entities_map == old(state).entities_map,
        final(state).component_map == old(state).component_map,
        final(state).entity_id_counter == old(state).entity_id_counter,
        final(state).available_letters == old(state).available_letters,
        final(state).letters_remaining == old(state).letters_remaining,
{
    state.events.push(Event::Refresh);
    state.events.push(Event::GameStart);
    state.events.push(Event::Welcome);
}

/// The systems with their lists of components and whether each runs only
/// once: the start-up, the events, an entry for solid positioned entities,
/// the dialogues, the fog, the drawing and the keyboard.
pub fn get_systems() -> (systems: Vec<(SystemFn, Vec<Component>, bool)>)
    ensures
        systems@.len() == 7,
        systems@[0].0 == SystemFn::StartUp && systems@[0].1@ == Seq::<Component>::empty() && systems@[0].2,
        systems@[1].0 == SystemFn::GameEvents && systems@[1].1@ == Seq::<Component>::empty() && !systems@[1].2,
        systems@[2].0 == SystemFn::Dummy && systems@[2].1@ == seq![Component::Position(None), Component::Solid]
            && !systems@[2].2,
        systems@[3].0 == SystemFn::Dialogue && systems@[3].1@ == seq![Component::Dialogue(None)] && !systems@[3].2,
        systems@[4].0 == SystemFn::CalculateFog && systems@[4].1@ == seq![
            Component::Position(None),
            Component::Render(None),
            Component::ZIndex(None),
            Component::Fog(None),
        ] && !systems@[4].2,
        systems@[5].0 == SystemFn::Render && systems@[5].1@ == seq![
            Component::Position(None),
            Component::Render(None),
            Component::ZIndex(None),
        ] && !systems@[5].2,
        systems@[6].0 == SystemFn::HandleInputs && systems@[6].1@ == seq![Component::Player] && !systems@[6].2,
{
    let v = vec![
        (SystemFn::StartUp, vec![], true),
        (SystemFn::GameEvents, vec![], false),
        (SystemFn::Dummy, vec![Component::Position(None), Component::Solid], false),
        (SystemFn::Dialogue, vec![Component::Dialogue(None)], false),
        (
            SystemFn::CalculateFog,
            vec![Component::Position(None), Component::Render(None), Component::ZIndex(None), Component::Fog(None)],
            false,
        ),
        (SystemFn::Render, vec![Component::Position(None), Component::Render(None), Component::ZIndex(None)], false),
        (SystemFn::HandleInputs, vec![Component::Player], false),
    ];
    proof {
        assert(v@[2].1@ =~= seq![Component::Position(None), Component::Solid]);
        assert(v@[3].1@ =~= seq![Component::Dialogue(None)]);
        assert(v@[4].1@ =~= seq![
            Component::Position(None),
            Component::Render(None),
            Component::ZIndex(None),
            Component::Fog(None),
        ]);
        assert(v@[5].1@ =~= seq![Component::Position(None), Component::Render(None), Component::ZIndex(None)]);
        assert(v@[6].1@ =~= seq![Component::Player]);
    }
    v
}

} // verus!
