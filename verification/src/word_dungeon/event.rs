//! The events of the game.

use vstd::prelude::*;
use crate::word_dungeon::components::{Component, ViewType};
use crate::word_dungeon::effects::Effect;
use crate::word_dungeon::items::Item;
use crate::random::{gen_below, gen_coin};
use crate::text::push_char;

verus! {

/// Something that happens in the game and is handled between frames.
#[derive(Debug, PartialEq, Eq, Hash)]
pub enum Event {
    GameStart,
    Refresh,
    Welcome,
    Nothing,
    ComponentChanged(Component),
    /// The first entity saw the second.
    View(((usize, ViewType), (usize, ViewType))),
    CreateName(Option<String>),
    /// Entity, item, cost and buying player.
    BuyItem((usize, Item, usize, usize)),
    CreateMystery(usize),
    UseEffect(Effect),
}


/// The vowels names are made of.
pub open spec fn name_vowels() -> Seq<char> {
    seq!['a', 'e', 'i', 'o', 'u']
}

/// The consonants names are made of.
pub open spec fn name_consonants() -> Seq<char> {
    seq!['b', 'c', 'd', 'f', 'g', 'h', 'j', 'k', 'l', 'm', 'n', 'p', 'q', 'r', 's', 't', 'v', 'w', 'x', 'y', 'z']
}

/// The name made of three vowel-consonant pairs, picked by the indices, and,
/// where `extra` holds, one more vowel (the name ends with a consonant, so a
/// vowel is what comes after it).
pub open spec fn name_of(vowels: Seq<usize>, consonants: Seq<usize>, extra: bool, extra_vowel: usize) -> Seq<char> {
    let base = seq![
        name_vowels()[vowels[0] as int],
        name_consonants()[consonants[0] as int],
        name_vowels()[vowels[1] as int],
        name_consonants()[consonants[1] as int],
        name_vowels()[vowels[2] as int],
        name_consonants()[consonants[2] as int],
    ];
    if extra {
        base.push(name_vowels()[extra_vowel as int])
    } else {
        base
    }
}

/// The name for given picks: three pairs of a vowel and a consonant, then a
/// vowel after the last consonant where `extra` holds.
pub fn name_from_picks(vowels: [usize; 3], consonants: [usize; 3], extra: bool, extra_vowel: usize) -> (name: String)
    requires
        forall|i: int| 0 <= i < 3 ==> #[trigger] vowels@[i] < 5,
        forall|i: int| 0 <= i < 3 ==> #[trigger] consonants@[i] < 21,
        extra_vowel < 5,
    ensures
        name@ == name_of(vowels@, consonants@, extra, extra_vowel),
{
    let vs: [char; 5] = ['a', 'e', 'i', 'o', 'u'];
    let cs: [char; 21] = [
        'b', 'c', 'd', 'f', 'g', 'h', 'j', 'k', 'l', 'm', 'n', 'p', 'q', 'r', 's', 't', 'v', 'w', 'x', 'y', 'z',
    ];
    assert(vs@ =~= name_vowels());
    assert(cs@ =~= name_consonants());
    let mut name = String::new();
    let mut i: usize = 0;
    while i < 3
        invariant
            i <= 3,
            vs@ == name_vowels(),
            cs@ == name_consonants(),
            forall|k: int| 0 <= k < 3 ==> #[trigger] vowels@[k] < 5,
            forall|k: int| 0 <= k < 3 ==> #[trigger] consonants@[k] < 21,
            name@.len() == 2 * i,
            forall|k: int| 0 <= k < i ==> name@[2 * k] == name_vowels()[vowels@[k] as int] && name@[2 * k + 1]
                == name_consonants()[consonants@[k] as int],
        decreases 3 - i,
    {
        push_char(&mut name, vs[vowels[i]]);
        push_char(&mut name, cs[consonants[i]]);
        i = i + 1;
    }
    let ghost base = name@;
    if extra {
        push_char(&mut name, vs[extra_vowel]);
    }
    proof {
        let expected = name_of(vowels@, consonants@, extra, extra_vowel);
        assert(base =~= name_of(vowels@, consonants@, false, extra_vowel)) by {
            assert(base[0int] == name_vowels()[vowels@[0] as int]);
            assert(base[2int] == name_vowels()[vowels@[1] as int]);
            assert(base[4int] == name_vowels()[vowels@[2] as int]);
            assert(base[1int] == name_consonants()[consonants@[0] as int]);
            assert(base[3int] == name_consonants()[consonants@[1] as int]);
            assert(base[5int] == name_consonants()[consonants@[2] as int]);
        }
        assert(name@ =~= expected);
    }
    name
}

/// The picks of a name index the vowels and the consonants.
pub open spec fn picks_in_range(vowels: Seq<usize>, consonants: Seq<usize>, extra_vowel: usize) -> bool {
    &&& vowels.len() == 3
    &&& consonants.len() == 3
    &&& forall|i: int| 0 <= i < 3 ==> #[trigger] vowels[i] < 5
    &&& forall|i: int| 0 <= i < 3 ==> #[trigger] consonants[i] < 21
    &&& extra_vowel < 5
}

/// A random name of the form vowel, consonant, vowel, consonant, vowel,
/// consonant, sometimes followed by one more vowel. The picks come from the
/// generator in the order the pairs, the three coin flips that keep each
/// pair as it is, the coin for the last vowel, then that vowel.
pub fn random_name(rng: &mut rand::rngs::ThreadRng) -> (name: String)
    ensures
        exists|vowels: Seq<usize>, consonants: Seq<usize>, extra: bool, extra_vowel: usize|
            picks_in_range(vowels, consonants, extra_vowel) && name@ == name_of(vowels, consonants, extra, extra_vowel),
{
    let v0 = gen_below(rng, 5);
    let c0 = gen_below(rng, 21);
    let v1 = gen_below(rng, 5);
    let c1 = gen_below(rng, 21);
    let v2 = gen_below(rng, 5);
    let c2 = gen_below(rng, 21);
    let _ = gen_coin(rng);
    let _ = gen_coin(rng);
    let _ = gen_coin(rng);
    let extra = gen_coin(rng);
    let extra_vowel = if extra { gen_below(rng, 5) } else { 0 };
    let vowels = [v0, v1, v2];
    let consonants = [c0, c1, c2];
    let name = name_from_picks(vowels, consonants, extra, extra_vowel);
    assert(picks_in_range(vowels@, consonants@, extra_vowel));
    name
}

} // verus!
