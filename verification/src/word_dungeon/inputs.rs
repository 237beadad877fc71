//! What the keys do: answering the dialogue in front, or moving the player
//! and meeting what stands in the way.

use vstd::prelude::*;
use crate::word_dungeon::components::{kind, Component, Position};
use crate::text::{append_str, push_char};
use crate::word_dungeon::equality::{clone_event, same_event};
use crate::word_dungeon::event::{name_of, picks_in_range, random_name, Event};
use crate::word_dungeon::dialogue::{component_of, dialogue_of, front_of, frontmost, have_depths, position_of, shown};
use crate::word_dungeon::render::Show;
use crate::word_dungeon::walk::{
    component_set, items_known, look_around, minions_known, positions_known, ready_to_walk, secrets_apart, walk, walked,
    InputOutcome,
};
use crate::word_dungeon::touch::{counters_known, item_of, of_kind, paywall_of, replaced, secrets_known};
use crate::word_dungeon::entity::{last_of_kind, Entity};
use crate::equality_helpers::set_elements;
use crate::word_dungeon::entity::has_kind;
use crate::word_dungeon::state::{add_entity, entity_kinds, index_with, index_without, kind_removed, State};
use crate::word_dungeon::colors::GOLD;
use crate::word_dungeon::create::{create_item_of, renders};
use crate::word_dungeon::items::{item_symbol, Item};

verus! {

/// The keys the game reacts to; any other key is `Other`.
#[derive(PartialEq, Eq, Structural, Clone, Copy, Debug)]
pub enum InputKey {
    Enter,
    Backspace,
    KeyR,
    KeyF,
    KeyT,
    KeyI,
    ArrowUp,
    ArrowRight,
    ArrowLeft,
    ArrowDown,
    Other,
}

/// The character has the Unicode property White_Space.
pub open spec fn white_space(c: char) -> bool {
    let n = c as u32;
    ||| 0x9 <= n <= 0xD
    ||| n == 0x20
    ||| n == 0x85
    ||| n == 0xA0
    ||| n == 0x1680
    ||| 0x2000 <= n <= 0x200A
    ||| n == 0x2028
    ||| n == 0x2029
    ||| n == 0x202F
    ||| n == 0x205F
    ||| n == 0x3000
}

/// `s` holds only white space, as Unicode defines it: what `str::trim`
/// leaves of it is empty.
pub open spec fn blank_text(s: Seq<char>) -> bool {
    forall|i: int| 0 <= i < s.len() ==> white_space(#[trigger] s[i])
}

/// `s` without the white space at its start.
pub open spec fn trim_start(s: Seq<char>) -> Seq<char>
    decreases s.len(),
{
    if s.len() > 0 && white_space(s[0]) {
        trim_start(s.drop_first())
    } else {
        s
    }
}

/// `s` without the white space at its end.
pub open spec fn trim_end(s: Seq<char>) -> Seq<char>
    decreases s.len(),
{
    if s.len() > 0 && white_space(s.last()) {
        trim_end(s.drop_last())
    } else {
        s
    }
}

/// `str::trim`: the text without the white space (the Unicode property
/// White_Space) at either end.
#[verifier::external_body]
fn str_trim(s: &str) -> (r: &str)
    ensures
        r@ == trim_end(trim_start(s@)),
{
    s.trim()
}

proof fn lemma_trim_start(s: Seq<char>)
    ensures
        trim_start(s).len() == 0 <==> blank_text(s),
        trim_start(s).len() > 0 ==> !white_space(trim_start(s)[0]),
    decreases s.len(),
{
    if s.len() > 0 && white_space(s[0]) {
        lemma_trim_start(s.drop_first());
        if blank_text(s.drop_first()) {
            assert forall|i: int| 0 <= i < s.len() implies white_space(#[trigger] s[i]) by {
                if i > 0 {
                    assert(s[i] == s.drop_first()[i - 1]);
                }
            }
        }
        if blank_text(s) {
            assert forall|i: int| 0 <= i < s.drop_first().len() implies white_space(#[trigger] s.drop_first()[i]) by {
                assert(s.drop_first()[i] == s[i + 1]);
            }
        }
    } else if s.len() > 0 {
        assert(!blank_text(s)) by {
            assert(!white_space(s[0]));
        }
    }
}

proof fn lemma_trim_end_keeps(t: Seq<char>)
    requires
        t.len() > 0,
        !white_space(t[0]),
    ensures
        trim_end(t).len() > 0,
    decreases t.len(),
{
    if white_space(t.last()) {
        assert(t.len() > 1);
        assert(t.drop_last()[0] == t[0]);
        lemma_trim_end_keeps(t.drop_last());
    }
}

/// Whether `s` holds only white space: nothing is left of it after
/// `str::trim`.
fn is_blank(s: &str) -> (b: bool)
    ensures
        b == blank_text(s@),
{
    let t = str_trim(s);
    proof {
        lemma_trim_start(s@);
        if trim_start(s@).len() > 0 {
            lemma_trim_end_keeps(trim_start(s@));
        }
    }
    t.unicode_len() == 0
}

/// The last option, among the first `n`, that takes the input `x`: an empty
/// one, or one equal to `x`.
pub open spec fn last_taking(options: Seq<(String, Event)>, n: int, x: Seq<char>) -> Option<int>
    decreases n,
{
    if n <= 0 {
        None
    } else if options[n - 1].0@.len() == 0 || options[n - 1].0@ == x {
        Some(n - 1)
    } else {
        last_taking(options, n - 1, x)
    }
}

/// The index of the first empty option, among the first `n`.
pub open spec fn first_empty(options: Seq<(String, Event)>, n: int) -> Option<int>
    decreases n,
{
    if n <= 0 {
        None
    } else {
        match first_empty(options, n - 1) {
            Some(i) => Some(i),
            None => if options[n - 1].0@.len() == 0 {
                Some(n - 1)
            } else {
                None
            },
        }
    }
}

/// A generated name.
pub open spec fn is_generated_name(s: Seq<char>) -> bool {
    exists|vowels: Seq<usize>, consonants: Seq<usize>, extra: bool, extra_vowel: usize|
        picks_in_range(vowels, consonants, extra_vowel) && s == name_of(vowels, consonants, extra, extra_vowel)
}

/// The event an answer queues: a name request gets the input as the name;
/// any other event is queued as it is.
pub open spec fn answered_event(option_event: Event, input: Seq<char>, queued: Event) -> bool {
    match option_event {
        Event::CreateName(None) => queued matches Event::CreateName(Some(n)) && n@ == input,
        _ => same_event(queued, option_event),
    }
}

proof fn lemma_first_empty_stays(opts: Seq<(String, Event)>, i: int, n: int)
    requires
        0 <= i <= n,
        first_empty(opts, i) is Some,
    ensures
        first_empty(opts, n) == first_empty(opts, i),
    decreases n - i,
{
    if i < n {
        lemma_first_empty_stays(opts, i, n - 1);
    }
}

proof fn lemma_last_taking_some(opts: Seq<(String, Event)>, n: int, x: Seq<char>, e: int)
    requires
        0 <= e < n <= opts.len(),
        opts[e].0@.len() == 0,
    ensures
        last_taking(opts, n, x) matches Some(i) && e <= i < n,
    decreases n,
{
    if n - 1 > e && !(opts[n - 1].0@.len() == 0 || opts[n - 1].0@ == x) {
        lemma_last_taking_some(opts, n - 1, x, e);
    }
}

proof fn lemma_first_empty_spec(opts: Seq<(String, Event)>, n: int)
    requires
        0 <= n <= opts.len(),
        first_empty(opts, n) is Some,
    ensures
        0 <= first_empty(opts, n)->0 < n,
        opts[first_empty(opts, n)->0].0@.len() == 0,
    decreases n,
{
    if first_empty(opts, n - 1) is Some {
        lemma_first_empty_spec(opts, n - 1);
    }
}

/// A position as a number without bounds.
pub open spec fn as_index(o: Option<usize>) -> Option<int> {
    match o {
        Some(i) => Some(i as int),
        None => None,
    }
}

proof fn lemma_last_taking_range(opts: Seq<(String, Event)>, n: int, x: Seq<char>)
    ensures
        last_taking(opts, n, x) matches Some(i) ==> 0 <= i < n,
    decreases n,
{
    if n > 0 {
        lemma_last_taking_range(opts, n - 1, x);
    }
}

/// The other parts of the state are those of `s0`: everything but the
/// entities, the index, the events, the input and the generator.
pub open spec fn rest_kept(s0: State, s1: State) -> bool {
    &&& s1.entity_id_counter == s0.entity_id_counter
    &&& s1.system_components == s0.system_components
    &&& s1.empty_entites_set == s0.empty_entites_set
    &&& s1.grid_size == s0.grid_size
    &&& s1.change_events == s0.change_events
    &&& s1.name == s0.name
    &&& s1.rooms == s0.rooms
    &&& s1.hallways == s0.hallways
    &&& s1.available_letters == s0.available_letters
    &&& s1.items == s0.items
    &&& s1.gold == s0.gold
    &&& s1.fog_enabled == s0.fog_enabled
    &&& s1.floor == s0.floor
    &&& s1.mods == s0.mods
    &&& s1.tile_points == s0.tile_points
    &&& s1.no_keys_pressed == s0.no_keys_pressed
    &&& s1.show == s0.show
}

/// The dialogue `d` is closed: it goes, and so do the characters drawn for
/// it; the input is cleared.
pub open spec fn dialogue_closed(s0: State, s1: State, d: usize) -> bool {
    &&& s1.wf()
    &&& s1.dialogue_input@.len() == 0
    &&& rest_kept(s0, s1)
    &&& exists|mid: State|
        {
            &&& #[trigger] mid.entities_map@ == s0.entities_map@.remove(d)
            &&& mid.index() == index_without(s0.index(), d)
            &&& kind_removed(mid, s1, 16)
        }
}

/// `s1` is `s0` after Enter answered the dialogue `d`, as `enter_answer`
/// describes it.
pub open spec fn answered(s0: State, s1: State, d: usize) -> bool {
    let opts = (dialogue_of(s0.entities_map@[d])->0).1@;
    let x0 = s0.dialogue_input@;
    if opts.len() == 0 {
        &&& dialogue_closed(s0, s1, d)
        &&& s1.events == s0.events
    } else {
        match first_empty(opts, opts.len() as int) {
            None => match last_taking(opts, opts.len() as int, x0) {
                None => {
                    &&& s1.dialogue_input@.len() == 0
                    &&& s1.entities_map == s0.entities_map
                    &&& s1.component_map == s0.component_map
                    &&& s1.events == s0.events
                    &&& rest_kept(s0, s1)
                },
                Some(i) => {
                    &&& dialogue_closed(s0, s1, d)
                    &&& s1.events@.len() == s0.events@.len() + 1
                    &&& s1.events@.drop_last() == s0.events@
                    &&& answered_event(opts[i].1, x0, s1.events@.last())
                },
            },
            Some(e) => if blank_text(x0) && !(opts[e].1 matches Event::CreateName(_)) {
                &&& s1.dialogue_input@ == x0
                &&& s1.entities_map == s0.entities_map
                &&& s1.component_map == s0.component_map
                &&& s1.events == s0.events
                &&& rest_kept(s0, s1)
            } else {
                ||| {
                    &&& blank_text(x0)
                    &&& is_generated_name(s1.dialogue_input@)
                    &&& blank_text(s1.dialogue_input@)
                    &&& s1.entities_map == s0.entities_map
                    &&& s1.component_map == s0.component_map
                    &&& s1.events == s0.events
                    &&& rest_kept(s0, s1)
                }
                ||| exists|x: Seq<char>| {
                    &&& (if blank_text(x0) { is_generated_name(x) && !blank_text(x) } else { x == x0 })
                    &&& #[trigger] last_taking(opts, opts.len() as int, x) matches Some(i) && answered_event(
                        opts[i].1,
                        x,
                        s1.events@.last(),
                    )
                    &&& dialogue_closed(s0, s1, d)
                    &&& s1.events@.len() == s0.events@.len() + 1
                    &&& s1.events@.drop_last() == s0.events@
                }
            },
        }
    }
}

/// Answers the dialogue `d` with the input typed: its first empty option
/// (an open question) takes the input as it is, generating a name where a
/// name is asked and none was typed, and gives up while the input is blank;
/// other options take an input equal to them; the last option that takes
/// the input decides, its event is queued and the dialogue closes. With no
/// option the dialogue closes; with none taking the input, the input is
/// cleared.
fn enter_answer(state: &mut State, d: usize)
    requires
        old(state).wf(),
        old(state).entities_map@.contains_key(d),
        old(state).entities_map@[d].wf(),
        has_kind(old(state).entities_map@[d].components@, 28),
        dialogue_of(old(state).entities_map@[d]) is Some,
    ensures
        answered(*old(state), *final(state), d),
{
    let ghost s0 = *state;
    let ghost opts = (dialogue_of(s0.entities_map@[d])->0).1@;
    let ghost x0 = s0.dialogue_input@;
    let mut abort = false;
    let mut queued: Option<Event> = None;
    let mut n: usize = 0;
    let ghost mut pick: Option<int> = None;
    if let Some(Component::Dialogue(Some((_, options)))) = state.entities_map.get(&d).unwrap().get_component(
        Component::Dialogue(None),
    ) {
        assert(options@ == opts);
        n = options.len();
        let mut chosen: Option<usize> = None;
        let mut i: usize = 0;
        while i < n
            invariant_except_break
                i <= n,
                n == opts.len(),
                options@ == opts,
                state.entities_map == s0.entities_map,
                state.component_map == s0.component_map,
                state.events == s0.events,
                rest_kept(s0, *state),
                !abort,
                as_index(chosen) == last_taking(opts, i as int, state.dialogue_input@),
                first_empty(opts, i as int) is None ==> state.dialogue_input@ == x0,
                first_empty(opts, i as int) matches Some(e) ==> {
                    &&& !blank_text(state.dialogue_input@)
                    &&& !(blank_text(x0) && !(opts[e].1 matches Event::CreateName(_)))
                    &&& if blank_text(x0) { is_generated_name(state.dialogue_input@) } else { state.dialogue_input@ == x0 }
                },
            ensures
                i <= n,
                n == opts.len(),
                options@ == opts,
                state.entities_map == s0.entities_map,
                state.component_map == s0.component_map,
                state.events == s0.events,
                rest_kept(s0, *state),
                abort ==> ({
                    let e = first_empty(opts, n as int)->0;
                    &&& first_empty(opts, n as int) is Some
                    &&& blank_text(x0)
                    &&& blank_text(state.dialogue_input@)
                    &&& if opts[e].1 matches Event::CreateName(_) {
                        is_generated_name(state.dialogue_input@)
                    } else {
                        state.dialogue_input@ == x0
                    }
                }),
                !abort ==> {
                    &&& as_index(chosen) == last_taking(opts, n as int, state.dialogue_input@)
                    &&& first_empty(opts, n as int) is None ==> state.dialogue_input@ == x0
                    &&& first_empty(opts, n as int) matches Some(e) ==> {
                        &&& !blank_text(state.dialogue_input@)
                        &&& !(blank_text(x0) && !(opts[e].1 matches Event::CreateName(_)))
                        &&& if blank_text(x0) { is_generated_name(state.dialogue_input@) } else { state.dialogue_input@ == x0 }
                    }
                },
            decreases n - i,
        {
            let empty = options[i].0.as_str().unicode_len() == 0;
            if empty {
                let asks_name = match &options[i].1 {
                    Event::CreateName(_) => true,
                    _ => false,
                };
                if asks_name && is_blank(state.dialogue_input.as_str()) {
                    state.dialogue_input = random_name(&mut state.rng);
                }
                if is_blank(state.dialogue_input.as_str()) {
                    abort = true;
                    proof {
                        assert(first_empty(opts, i as int) is None);
                        assert(first_empty(opts, i + 1) == Some(i as int));
                        lemma_first_empty_stays(opts, i + 1, n as int);
                    }
                    break;
                }
                chosen = Some(i);
            } else if state.dialogue_input == options[i].0 {
                chosen = Some(i);
            }
            proof {
                if first_empty(opts, i as int) is Some {
                    assert(first_empty(opts, i + 1) == first_empty(opts, i as int));
                }
            }
            i = i + 1;
        }
        proof {
            pick = as_index(chosen);
            if let Some(k) = chosen {
                lemma_last_taking_range(opts, n as int, state.dialogue_input@);
            }
        }
        if !abort && n > 0 {
            if let Some(k) = chosen {
                let ev = match &options[k].1 {
                    Event::CreateName(None) => Event::CreateName(Some(state.dialogue_input.clone())),
                    other => clone_event(other),
                };
                proof {
                    assert(answered_event(opts[k as int].1, state.dialogue_input@, ev));
                }
                queued = Some(ev);
            }
        }
    } else {
        proof {
            assert(false);
        }
    }
    if abort {
        proof {
            let e = first_empty(opts, n as int)->0;
            lemma_first_empty_spec(opts, n as int);
            assert(opts.len() > 0);
            assert(first_empty(opts, opts.len() as int) == Some(e));
            if opts[e].1 matches Event::CreateName(_) {
                assert(is_generated_name(state.dialogue_input@));
                assert(blank_text(state.dialogue_input@));
                assert(state.entities_map == s0.entities_map);
                assert(rest_kept(s0, *state));
            } else {
                assert(state.dialogue_input@ == x0);
            }
        }
        return;
    }
    let ghost s1 = *state;
    let ghost x = state.dialogue_input@;
    if n == 0 {
        state.remove_entity(d);
        let ghost mid = *state;
        state.remove_all_by_component(Component::DialogueChar);
        state.dialogue_input = String::new();
        proof {
            assert(kind(Component::DialogueChar) == 16);
            assert(mid.entities_map@ == s0.entities_map@.remove(d));
            assert(dialogue_closed(s0, *state, d));
        }
        return;
    }
    match queued {
        Some(ev) => {
            state.events.push(ev);
            state.remove_entity(d);
            let ghost mid = *state;
            state.remove_all_by_component(Component::DialogueChar);
            state.dialogue_input = String::new();
            proof {
                assert(kind(Component::DialogueChar) == 16);
                assert(mid.entities_map@ == s0.entities_map@.remove(d));
                assert(dialogue_closed(s0, *state, d));
                assert(state.events@.drop_last() =~= s0.events@);
                if first_empty(opts, opts.len() as int) is Some {
                    let e = first_empty(opts, opts.len() as int)->0;
                    lemma_first_empty_spec(opts, opts.len() as int);
                    assert(last_taking(opts, opts.len() as int, x) matches Some(i) && answered_event(
                        opts[i].1,
                        x,
                        state.events@.last(),
                    ));
                }
            }
        },
        None => {
            state.dialogue_input = String::new();
            proof {
                if first_empty(opts, opts.len() as int) is Some {
                    let e = first_empty(opts, opts.len() as int)->0;
                    lemma_first_empty_spec(opts, opts.len() as int);
                    lemma_last_taking_some(opts, opts.len() as int, x, e);
                    assert(false);
                }
            }
        },
    }
}

/// `s1` is `s0` after the key `key` (`repeat` telling whether it is held
/// down, `text` what it typed) went to the dialogue `d`: a dialogue without
/// options closes on a new key press; otherwise Enter answers it (as
/// `answered` says), Backspace takes back the last character, and any other
/// key adds the text it typed.
pub open spec fn key_answered(s0: State, s1: State, d: usize, key: InputKey, repeat: bool, text: Option<String>) -> bool {
    let opts = (dialogue_of(s0.entities_map@[d])->0).1@;
    if opts.len() == 0 && !repeat {
        &&& dialogue_closed(s0, s1, d)
        &&& s1.events == s0.events
    } else if key == InputKey::Enter {
        answered(s0, s1, d)
    } else {
        &&& s1.dialogue_input@ == (if key == InputKey::Backspace {
            if s0.dialogue_input@.len() == 0 {
                s0.dialogue_input@
            } else {
                s0.dialogue_input@.drop_last()
            }
        } else {
            match text {
                Some(t) => s0.dialogue_input@ + t@,
                None => s0.dialogue_input@,
            }
        })
        &&& s1.entities_map == s0.entities_map
        &&& s1.component_map == s0.component_map
        &&& s1.events == s0.events
        &&& rest_kept(s0, s1)
    }
}

/// The dialogue `d` can take a key: it is there with its dialogue, and
/// where the key is Backspace the last character typed is a plain one (the
/// input is cut a byte short).
pub open spec fn takes_key(s: State, d: usize, key: InputKey) -> bool {
    &&& s.entities_map@.contains_key(d)
    &&& s.entities_map@[d].wf()
    &&& has_kind(s.entities_map@[d].components@, 28)
    &&& dialogue_of(s.entities_map@[d]) is Some
    &&& key == InputKey::Backspace && s.dialogue_input@.len() > 0 ==> (s.dialogue_input@.last() as u32) < 128
}

/// The key goes to the dialogue `d` (see `key_answered`).
fn dialogue_key(state: &mut State, d: usize, key: InputKey, repeat: bool, text: Option<String>)
    requires
        old(state).wf(),
        takes_key(*old(state), d, key),
    ensures
        key_answered(*old(state), *final(state), d, key, repeat, text),
{
    let ghost s0 = *state;
    let no_options = match state.entities_map.get(&d).unwrap().get_component(Component::Dialogue(None)) {
        Some(Component::Dialogue(Some((_, options)))) => options.len() == 0,
        _ => false,
    };
    if no_options && !repeat {
        state.dialogue_input = String::new();
        state.remove_entity(d);
        let ghost mid = *state;
        state.remove_all_by_component(Component::DialogueChar);
        proof {
            assert(kind(Component::DialogueChar) == 16);
            assert(mid.entities_map@ == s0.entities_map@.remove(d));
            assert(dialogue_closed(s0, *state, d));
        }
        return;
    }
    match key {
        InputKey::Enter => {
            enter_answer(state, d);
        },
        InputKey::Backspace => {
            let n = state.dialogue_input.as_str().unicode_len();
            if n > 0 {
                let mut shorter = String::new();
                let mut i: usize = 0;
                while i + 1 < n
                    invariant
                        n == state.dialogue_input@.len(),
                        n > 0,
                        i + 1 <= n,
                        shorter@ == state.dialogue_input@.take(i as int),
                    decreases n - i,
                {
                    let c = state.dialogue_input.as_str().get_char(i);
                    push_char(&mut shorter, c);
                    assert(state.dialogue_input@.take(i + 1) =~= state.dialogue_input@.take(i as int).push(c));
                    i = i + 1;
                }
                assert(shorter@ =~= s0.dialogue_input@.drop_last());
                state.dialogue_input = shorter;
            }
        },
        _ => {
            if let Some(t) = text {
                append_str(&mut state.dialogue_input, t.as_str());
            }
        },
    }
}


/// Replacing a component of an entity keeps its other kinds and their
/// components.
proof fn lemma_replaced_keeps(e0: Entity, e1: Entity, c: Component, k: nat)
    requires
        e0.wf(),
        has_kind(e0.components@, kind(c)),
        replaced(e0, e1, c),
        k != kind(c),
    ensures
        has_kind(e1.components@, k) == has_kind(e0.components@, k),
        has_kind(e0.components@, k) ==> component_of(e1, k) == component_of(e0, k),
{
    let kc = kind(c) as usize;
    let i = e0.component_index@[kc] as int;
    assert(e0.component_index@.contains_key(kc));
    assert(last_of_kind(e0.components@, kc as nat, i));
    if has_kind(e0.components@, k) {
        assert(e0.component_index@.contains_key(k as usize));
        assert(last_of_kind(e0.components@, k, e0.component_index@[k as usize] as int));
        assert(e0.component_index@[k as usize] as int != i);
        let j = e0.component_index@[k as usize] as int;
        assert(e1.components@[j] == e0.components@[j]);
        assert(kind(e1.components@[j]) == k);
    }
    if has_kind(e1.components@, k) {
        let j = choose|j: int| 0 <= j < e1.components@.len() && kind(#[trigger] e1.components@[j]) == k;
        assert(j != i);
        assert(e0.components@[j] == e1.components@[j]);
    }
}

/// Setting the player's cooldown keeps the state one the player can step
/// in, with the player where it was.
proof fn lemma_cooldown_keeps(s0: State, s1: State, player: usize, c: Component)
    requires
        s0.wf(),
        s0.entities_map@.contains_key(player),
        s0.entities_map@[player].wf(),
        has_kind(s0.entities_map@[player].components@, 25),
        has_kind(s0.entities_map@[player].components@, 0),
        kind(c) == 25,
        component_set(s0, s1, player, c),
    ensures
        s1.entities_map@.dom() == s0.entities_map@.dom(),
        forall|id: usize| id != player && s0.entities_map@.contains_key(id) ==> #[trigger] s1.entities_map@[id] == s0.entities_map@[id],
        has_kind(s1.entities_map@[player].components@, 0),
        has_kind(s1.entities_map@[player].components@, 25),
        position_of(s1.entities_map@[player]) == position_of(s0.entities_map@[player]),
        forall|k: nat| k != 25 ==> #[trigger] has_kind(s1.entities_map@[player].components@, k) == has_kind(s0.entities_map@[player].components@, k),
        forall|k: nat| k != 25 && has_kind(s0.entities_map@[player].components@, k) ==> #[trigger] component_of(s1.entities_map@[player], k) == component_of(s0.entities_map@[player], k),
        ready_to_walk(s0, player) ==> ready_to_walk(s1, player),
{
    let e0 = s0.entities_map@[player];
    let e1 = s1.entities_map@[player];
    assert(s1.entities_map@.dom() =~= s0.entities_map@.dom()) by {
        assert(s1.entities_map@.remove(player).dom() == s0.entities_map@.remove(player).dom());
    }
    assert forall|id: usize| id != player && s0.entities_map@.contains_key(id) implies #[trigger] s1.entities_map@[id] == s0.entities_map@[id] by {
        assert(s1.entities_map@.remove(player)[id] == s0.entities_map@.remove(player)[id]);
    }
    assert forall|k: nat| k != 25 implies #[trigger] has_kind(s1.entities_map@[player].components@, k) == has_kind(s0.entities_map@[player].components@, k) by {
        lemma_replaced_keeps(e0, e1, c, k);
    }
    assert forall|k: nat| k != 25 && has_kind(s0.entities_map@[player].components@, k) implies #[trigger] component_of(s1.entities_map@[player], k) == component_of(s0.entities_map@[player], k) by {
        lemma_replaced_keeps(e0, e1, c, k);
    }
    lemma_replaced_keeps(e0, e1, c, 0);
    assert(has_kind(e1.components@, 25)) by {
        let i = e0.component_index@[25usize] as int;
        assert(e0.component_index@.contains_key(25usize));
        assert(e1.components@[i] == c);
    }
    if ready_to_walk(s0, player) {
        assert(of_kind(s1, 0) == of_kind(s0, 0));
        assert forall|id: usize| #[trigger] s1.entities_map@.contains_key(id) implies id < s1.entity_id_counter by {
            assert(s0.entities_map@.contains_key(id));
        }
        assert(positions_known(s1)) by {
            assert forall|id: usize| #[trigger] of_kind(s1, 0).contains(id) implies {
                &&& s1.entities_map@.contains_key(id)
                &&& s1.entities_map@[id].wf()
                &&& has_kind(s1.entities_map@[id].components@, 0)
                &&& position_of(s1.entities_map@[id]) is Some
            } by {
                assert(of_kind(s0, 0).contains(id));
            }
        }
        assert(secrets_known(s1, of_kind(s1, 17))) by {
            assert forall|id: usize| #[trigger] of_kind(s1, 17).contains(id) implies s1.entities_map@[id] == s0.entities_map@[id] by {
                assert(of_kind(s0, 17).contains(id));
            }
        }
        assert(secrets_apart(s1)) by {
            assert forall|a: usize, b: usize|
                #![trigger of_kind(s1, 17).contains(a), of_kind(s1, 17).contains(b)]
                of_kind(s1, 17).contains(a) && of_kind(s1, 17).contains(b) && a != b implies position_of(s1.entities_map@[a])
                    != position_of(s1.entities_map@[b]) by {
                assert(of_kind(s0, 17).contains(a) && of_kind(s0, 17).contains(b));
                assert(s1.entities_map@[a] == s0.entities_map@[a]);
                assert(s1.entities_map@[b] == s0.entities_map@[b]);
            }
        }
        assert(items_known(s1)) by {
            assert forall|id: usize| #[trigger] of_kind(s1, 23).contains(id) implies {
                &&& s1.entities_map@.contains_key(id)
                &&& s1.entities_map@[id].wf()
                &&& has_kind(s1.entities_map@[id].components@, 23)
                &&& item_of(s1, id) is Some
                &&& has_kind(s1.entities_map@[id].components@, 24) ==> paywall_of(s1, id) is Some
            } by {
                assert(of_kind(s0, 23).contains(id));
                if id == player {
                    assert(has_kind(e1.components@, 23) == has_kind(e0.components@, 23));
                    assert(has_kind(e1.components@, 24) == has_kind(e0.components@, 24));
                }
            }
        }
        assert(minions_known(s1)) by {
            assert forall|id: usize| #[trigger] of_kind(s1, 19).contains(id) implies {
                &&& s1.entities_map@.contains_key(id)
                &&& s1.entities_map@[id].wf()
                &&& has_kind(s1.entities_map@[id].components@, 19)
                &&& component_of(s1.entities_map@[id], 19) matches Component::Minion(Some(_))
            } by {
                assert(of_kind(s0, 19).contains(id));
                if id == player {
                    assert(has_kind(e1.components@, 19) == has_kind(e0.components@, 19));
                }
            }
        }
        assert(counters_known(s1, of_kind(s1, 26))) by {
            assert forall|id: usize| #[trigger] of_kind(s1, 26).contains(id) implies s1.entities_map@[id] == s0.entities_map@[id] by {
                assert(of_kind(s0, 26).contains(id));
            }
        }
    }
}

/// The step of an arrow key.
pub open spec fn direction(key: InputKey) -> Option<Position> {
    match key {
        InputKey::ArrowUp => Some(Position { x: 0, y: -1isize }),
        InputKey::ArrowRight => Some(Position { x: 1, y: 0 }),
        InputKey::ArrowLeft => Some(Position { x: -1isize, y: 0 }),
        InputKey::ArrowDown => Some(Position { x: 0, y: 1 }),
        _ => None,
    }
}

/// The step of an arrow key.
fn step_of(key: InputKey) -> (p: Option<Position>)
    ensures
        p == direction(key),
{
    match key {
        InputKey::ArrowUp => Some(Position { x: 0, y: -1 }),
        InputKey::ArrowRight => Some(Position { x: 1, y: 0 }),
        InputKey::ArrowLeft => Some(Position { x: -1, y: 0 }),
        InputKey::ArrowDown => Some(Position { x: 0, y: 1 }),
        _ => None,
    }
}

/// The entity's cooldown, where its component holds one.
pub open spec fn cooldown_of(s: State, id: usize) -> Option<usize> {
    match component_of(s.entities_map@[id], 25) {
        Component::Cooldown(c) => c,
        _ => None,
    }
}

/// The cooldown a player gets from moving.
pub const PLAYER_WALK_COOLDOWN: usize = 5;

/// Everything of `s0` but the events and the display settings is in `s1`.
pub open spec fn untouched(s0: State, s1: State) -> bool {
    &&& s1.entities_map == s0.entities_map
    &&& s1.component_map == s0.component_map
    &&& s1.dialogue_input == s0.dialogue_input
    &&& s1.entity_id_counter == s0.entity_id_counter
    &&& s1.system_components == s0.system_components
    &&& s1.empty_entites_set == s0.empty_entites_set
    &&& s1.grid_size == s0.grid_size
    &&& s1.change_events == s0.change_events
    &&& s1.name == s0.name
    &&& s1.rooms == s0.rooms
    &&& s1.hallways == s0.hallways
    &&& s1.available_letters == s0.available_letters
    &&& s1.items == s0.items
    &&& s1.gold == s0.gold
    &&& s1.floor == s0.floor
    &&& s1.mods == s0.mods
    &&& s1.tile_points == s0.tile_points
    &&& s1.no_keys_pressed == s0.no_keys_pressed
}

/// The panel shown after asking for `asked`: it closes when it was open.
pub open spec fn toggled(show: Show, asked: Show) -> Show {
    if show == asked {
        Show::Nothing
    } else {
        asked
    }
}

/// `s1` is `s0` after the player `player` pressed `key`: the cooldown is
/// set to `PLAYER_WALK_COOLDOWN`; R asks for a new game, F switches the fog,
/// T and I open or close the panel of the tiles and of the items, and an
/// arrow counts the cooldown down from what it was (where it was above
/// zero) and steps towards the cell it points to, as `walked` says.
pub open spec fn player_turn(s0: State, s1: State, player: usize, key: InputKey, r: InputOutcome, ended: bool) -> bool {
    let cd = cooldown_of(s0, player)->0;
    exists|m1: State|
        {
            &&& #[trigger] component_set(s0, m1, player, Component::Cooldown(Some(PLAYER_WALK_COOLDOWN)))
            &&& match direction(key) {
                Some(dir) => exists|m2: State|
                    {
                        &&& (if cd > 0 {
                            component_set(m1, m2, player, Component::Cooldown(Some((cd - 1) as usize)))
                        } else {
                            m2 == m1
                        })
                        &&& #[trigger] walked(
                            m2,
                            s1,
                            player,
                            Position {
                                x: (position_of(s0.entities_map@[player])->0.x + dir.x) as isize,
                                y: (position_of(s0.entities_map@[player])->0.y + dir.y) as isize,
                            },
                            r,
                            ended,
                        )
                    },
                None => {
                    &&& r == InputOutcome::Done
                    &&& !ended
                    &&& untouched(m1, s1)
                    &&& s1.events@ == (if key == InputKey::KeyR {
                        m1.events@ + seq![Event::Refresh, Event::GameStart]
                    } else {
                        m1.events@
                    })
                    &&& s1.fog_enabled == (if key == InputKey::KeyF {
                        !m1.fog_enabled
                    } else {
                        m1.fog_enabled
                    })
                    &&& s1.show == (if key == InputKey::KeyT {
                        toggled(m1.show, Show::Tiles)
                    } else if key == InputKey::KeyI {
                        toggled(m1.show, Show::Items)
                    } else {
                        m1.show
                    })
                },
            }
        }
}

/// The dialogues of `s`.
pub open spec fn dialogues(s: State) -> Set<usize> {
    shown(s, seq![Component::Dialogue(None)])
}

/// The player can take the key: it is there with a cooldown and a
/// position, and for an arrow, one step from that position stays within
/// range, in a state the player can step in.
pub open spec fn player_ready(s: State, player: usize, key: InputKey) -> bool {
    &&& s.entities_map@.contains_key(player)
    &&& s.entities_map@[player].wf()
    &&& has_kind(s.entities_map@[player].components@, 25)
    &&& cooldown_of(s, player) is Some
    &&& has_kind(s.entities_map@[player].components@, 0)
    &&& position_of(s.entities_map@[player]) is Some
    &&& direction(key) is Some ==> {
        &&& position_of(s.entities_map@[player]) matches Some(p) && isize::MIN < p.x < isize::MAX && isize::MIN < p.y
            < isize::MAX
        &&& ready_to_walk(s, player)
    }
}

/// Handles a key pressed (`repeat` telling whether it is held down, `text`
/// what it typed). While a dialogue is up, the key goes to the one in front
/// (see `key_answered`); otherwise it goes to the player among the entities
/// indexed under the kinds of `components` (see `player_turn`). A fight is
/// left to the caller, who runs it and hands its result to `finish_fight`.
pub fn handle_inputs(state: &mut State, components: &[Component], key: InputKey, repeat: bool, text: Option<String>) -> (r: InputOutcome)
    requires
        old(state).wf(),
        have_depths(*old(state), dialogues(*old(state))),
        forall|d: usize| #[trigger] frontmost(*old(state), dialogues(*old(state)), d) ==> takes_key(*old(state), d, key),
        dialogues(*old(state)).is_empty() ==> shown(*old(state), components@).len() <= 1,
        dialogues(*old(state)).is_empty() ==> forall|p: usize| #[trigger] shown(*old(state), components@).contains(p) ==> player_ready(*old(state), p, key),
    ensures
        !dialogues(*old(state)).is_empty() ==> r == InputOutcome::Done && exists|d: usize|
            #[trigger] frontmost(*old(state), dialogues(*old(state)), d) && key_answered(*old(state), *final(state), d, key, repeat, text),
        dialogues(*old(state)).is_empty() && shown(*old(state), components@).is_empty() ==> r == InputOutcome::Done && *final(state) == *old(state),
        dialogues(*old(state)).is_empty() ==> forall|p: usize| #[trigger] shown(*old(state), components@).contains(p) ==> exists|ended: bool|
            player_turn(*old(state), *final(state), p, key, r, ended),
{
    let ghost s0 = *state;
    let kinds = [Component::Dialogue(None)];
    proof {
        assert(kinds@ =~= seq![Component::Dialogue(None)]);
    }
    if let Some((d, _)) = front_of(state, &kinds) {
        dialogue_key(state, d, key, repeat, text);
        return InputOutcome::Done;
    }
    let players = set_elements(state.get_entities(components));
    proof {
        players@.unique_seq_to_set();
    }
    if players.len() == 0 {
        proof {
            assert(shown(s0, components@) =~= Set::<usize>::empty());
        }
        return InputOutcome::Done;
    }
    let p = players[0];
    proof {
        assert(players@.to_set().contains(p));
        assert forall|q: usize| #[trigger] shown(s0, components@).contains(q) implies q == p by {
            assert(players@.to_set().contains(q));
            let j = players@.index_of(q);
            assert(j == 0);
        }
    }
    let cooldown = match state.entities_map.get(&p).unwrap().get_component(Component::Cooldown(None)) {
        Some(Component::Cooldown(Some(c))) => *c,
        _ => {
            proof {
                assert(false);
            }
            0
        },
    };
    let position = match state.entities_map.get(&p).unwrap().get_component(Component::Position(None)) {
        Some(Component::Position(Some(pos))) => *pos,
        _ => {
            proof {
                assert(false);
            }
            Position::zero()
        },
    };
    state.set_component(p, Component::Cooldown(Some(PLAYER_WALK_COOLDOWN)));
    let ghost m1 = *state;
    proof {
        lemma_cooldown_keeps(s0, m1, p, Component::Cooldown(Some(PLAYER_WALK_COOLDOWN)));
        assert(component_set(s0, m1, p, Component::Cooldown(Some(PLAYER_WALK_COOLDOWN))));
    }
    let ghost mut ended = false;
    let r = match step_of(key) {
        Some(dir) => {
            if cooldown > 0 {
                state.set_component(p, Component::Cooldown(Some(cooldown - 1)));
                proof {
                    lemma_cooldown_keeps(m1, *state, p, Component::Cooldown(Some((cooldown - 1) as usize)));
                    assert(component_set(m1, *state, p, Component::Cooldown(Some((cooldown - 1) as usize))));
                }
            }
            let ghost m2 = *state;
            let at = position.add(&dir);
            let sur = look_around(state);
            let (r, e) = walk(state, &sur, p, at);
            proof {
                ended = e;
                assert(walked(m2, *state, p, at, r, e));
                assert(at == Position {
                    x: (position_of(s0.entities_map@[p])->0.x + dir.x) as isize,
                    y: (position_of(s0.entities_map@[p])->0.y + dir.y) as isize,
                });
            }
            r
        },
        None => {
            match key {
                InputKey::KeyR => {
                    state.events.push(Event::Refresh);
                    state.events.push(Event::GameStart);
                    proof {
                        assert(state.events@ =~= m1.events@ + seq![Event::Refresh, Event::GameStart]);
                    }
                },
                InputKey::KeyF => {
                    state.fog_enabled = !state.fog_enabled;
                },
                InputKey::KeyT => {
                    state.show = if state.show == Show::Tiles {
                        Show::Nothing
                    } else {
                        Show::Tiles
                    };
                },
                InputKey::KeyI => {
                    state.show = if state.show == Show::Items {
                        Show::Nothing
                    } else {
                        Show::Items
                    };
                },
                _ => {},
            }
            InputOutcome::Done
        },
    };
    proof {
        assert(player_turn(s0, *state, p, key, r, ended));
    }
    r
}

/// The entity's drop, where its component holds one.
pub open spec fn drop_of(s: State, id: usize) -> Option<Item> {
    match component_of(s.entities_map@[id], 22) {
        Component::Drop(d) => d,
        _ => None,
    }
}

/// `e` is the item `item` dropped at `at`, free to pick up, numbered `id`.
pub open spec fn dropped(e: Entity, id: usize, at: Position, item: Item) -> bool {
    &&& e.id == id
    &&& e.wf()
    &&& e.components@.len() == 6
    &&& e.components@[0] == Component::Position(Some(at))
    &&& renders(e.components@[1], item_symbol(item)@, GOLD)
    &&& e.components@[2] == Component::ZIndex(Some(4))
    &&& e.components@[3] == Component::Item(Some(item))
    &&& e.components@[4] == Component::Paywall(Some(0))
    &&& e.components@[5] == Component::Invisible(Some(true))
}

/// `s1` is `s0` after the player beat the minion `minion` standing on `at`
/// in `attempts` guesses: what the minion drops lies on its cell for free,
/// the boss leads to the next floor (and a new game start), the player
/// earns six gold less one per guess, and the minion goes.
pub open spec fn fight_won(s0: State, s1: State, minion: usize, at: Position, boss: bool, attempts: usize) -> bool {
    let c0 = s0.entity_id_counter;
    &&& s1.wf()
    &&& exists|mid: State|
        {
            &&& (if has_kind(s0.entities_map@[minion].components@, 22) {
                &&& mid.entity_id_counter == c0 + 1
                &&& #[trigger] mid.entities_map@ == s0.entities_map@.insert(c0, mid.entities_map@[c0])
                &&& dropped(mid.entities_map@[c0], c0, at, drop_of(s0, minion)->0)
                &&& mid.index() == index_with(s0.index(), entity_kinds(mid.entities_map@[c0]), s0.systems(), c0)
            } else {
                &&& mid.entity_id_counter == c0
                &&& mid.entities_map@ == s0.entities_map@
                &&& mid.index() == s0.index()
            })
            &&& s1.entity_id_counter == mid.entity_id_counter
            &&& s1.entities_map@ == mid.entities_map@.remove(minion)
            &&& s1.index() == index_without(mid.index(), minion)
        }
    &&& s1.floor == (if boss { s0.floor + 1 } else { s0.floor as int })
    &&& s1.events@ == (if boss { s0.events@.push(Event::GameStart) } else { s0.events@ })
    &&& s1.gold == s0.gold + 6 - attempts
    &&& s1.items == s0.items
    &&& s1.system_components == s0.system_components
    &&& s1.dialogue_input == s0.dialogue_input
    &&& s1.fog_enabled == s0.fog_enabled
    &&& s1.show == s0.show
    &&& s1.mods == s0.mods
}

/// Settles a fight the player won against the minion `minion` on `at` (as
/// `handle_inputs` reported it) in `attempts` guesses, as `fight_won`
/// says. A lost fight ends the game, which is the caller's to do.
pub fn finish_fight(state: &mut State, minion: usize, at: Position, boss: bool, attempts: usize)
    requires
        old(state).wf(),
        old(state).entities_map@.contains_key(minion),
        old(state).entities_map@[minion].wf(),
        has_kind(old(state).entities_map@[minion].components@, 22) ==> drop_of(*old(state), minion) is Some,
        old(state).entity_id_counter < usize::MAX,
        attempts <= 6,
        old(state).gold + 6 - attempts <= usize::MAX,
        boss ==> old(state).floor < usize::MAX,
    ensures
        fight_won(*old(state), *final(state), minion, at, boss, attempts),
{
    let ghost s0 = *state;
    let drop = match state.entities_map.get(&minion).unwrap().get_component(Component::Drop(None)) {
        Some(Component::Drop(Some(item))) => Some(*item),
        Some(_) => {
            proof {
                assert(false);
            }
            None
        },
        None => None,
    };
    if let Some(item) = drop {
        let e = create_item_of(&mut state.entity_id_counter, &at, item, Some(0));
        add_entity(e, state);
    }
    let ghost mid = *state;
    if boss {
        state.floor = state.floor + 1;
        state.events.push(Event::GameStart);
    }
    state.gold = state.gold + (6 - attempts);
    state.remove_entity(minion);
    proof {
        if has_kind(s0.entities_map@[minion].components@, 22) {
            assert(mid.entities_map@ =~= s0.entities_map@.insert(s0.entity_id_counter, mid.entities_map@[s0.entity_id_counter as usize]));
        }
    }
}

} // verus!
