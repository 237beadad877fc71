//! The systems of the game, in the order they run each frame, with the
//! component kinds each one works on.

use vstd::prelude::*;
use crate::word_dungeon::components::Component;
use crate::word_dungeon::event::Event;
use crate::word_dungeon::state::State;

verus! {

/// The systems that run on the state.
#[derive(PartialEq, Eq, Structural, Clone, Copy, Debug)]
pub enum SystemFn {
    /// Greets the player, once at the start.
    StartUp,
    /// Handles the queued events.
    GameEvents,
    /// Does nothing; its list of components keeps an index entry ready.
    Dummy,
    /// Shows the dialogue in front.
    Dialogue,
    /// Works out what each viewer sees.
    Sight,
}

/// Queues the welcome.
pub fn start_up(state: &mut State, _components: &[Component])
    ensures
        final(state).events@ == old(state).events@.push(Event::Welcome),
        final(state).entities_map == old(state).entities_map,
        final(state).component_map == old(state).component_map,
        final(state).entity_id_counter == old(state).entity_id_counter,
        final(state).empty_entites_set == old(state).empty_entites_set,
        final(state).system_components == old(state).system_components,
{
    state.events.push(Event::Welcome);
}

/// The systems with their lists of components and whether each runs only
/// once: the start-up, the events, an entry for solid positioned entities,
/// the dialogue, the sight, an entry for drawn entities and one for the
/// invisible ones.
pub fn get_systems() -> (systems: Vec<(SystemFn, Vec<Component>, bool)>)
    ensures
        systems@.len() == 7,
        systems@[0].0 == SystemFn::StartUp && systems@[0].1@ == Seq::<Component>::empty() && systems@[0].2,
        systems@[1].0 == SystemFn::GameEvents && systems@[1].1@ == Seq::<Component>::empty() && !systems@[1].2,
        systems@[2].0 == SystemFn::Dummy && systems@[2].1@ == seq![Component::Position(None), Component::Solid]
            && !systems@[2].2,
        systems@[3].0 == SystemFn::Dialogue && systems@[3].1@ == seq![
            Component::Dialogue(None),
            Component::Position(None),
            Component::ZIndex(None),
        ] && !systems@[3].2,
        systems@[4].0 == SystemFn::Sight && systems@[4].1@ == seq![
            Component::Position(None),
            Component::Render(None),
            Component::ZIndex(None),
            Component::Fog(None),
        ] && !systems@[4].2,
        systems@[5].0 == SystemFn::Dummy && systems@[5].1@ == seq![
            Component::Position(None),
            Component::Render(None),
            Component::ZIndex(None),
        ] && !systems@[5].2,
        systems@[6].0 == SystemFn::Dummy && systems@[6].1@ == seq![Component::Invisible(None), Component::Position(None)]
            && !systems@[6].2,
{
    let v = vec![
        (SystemFn::StartUp, vec![], true),
        (SystemFn::GameEvents, vec![], false),
        (SystemFn::Dummy, vec![Component::Position(None), Component::Solid], false),
        (SystemFn::Dialogue, vec![Component::Dialogue(None), Component::Position(None), Component::ZIndex(None)], false),
        (
            SystemFn::Sight,
            vec![Component::Position(None), Component::Render(None), Component::ZIndex(None), Component::Fog(None)],
            false,
        ),
        (SystemFn::Dummy, vec![Component::Position(None), Component::Render(None), Component::ZIndex(None)], false),
        (SystemFn::Dummy, vec![Component::Invisible(None), Component::Position(None)], false),
    ];
    proof {
        assert(v@[2].1@ =~= seq![Component::Position(None), Component::Solid]);
        assert(v@[3].1@ =~= seq![Component::Dialogue(None), Component::Position(None), Component::ZIndex(None)]);
        assert(v@[4].1@ =~= seq![
            Component::Position(None),
            Component::Render(None),
            Component::ZIndex(None),
            Component::Fog(None),
        ]);
        assert(v@[5].1@ =~= seq![Component::Position(None), Component::Render(None), Component::ZIndex(None)]);
        assert(v@[6].1@ =~= seq![Component::Invisible(None), Component::Position(None)]);
    }
    v
}

} // verus!
