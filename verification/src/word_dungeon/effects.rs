//! Effects: what items and wishes change in the scoring of words, and how
//! they add up into modifiers.

use vstd::prelude::*;
use vstd::string::*;
use crate::random::{gen_below, gen_usize};
use crate::text::{char_to_lowercase, isize_to_string, lowercase_of, push_char, signed_decimal, decimal, usize_to_string};

verus! {

/// A lasting change to the game. The `...MultMultIncrease` effects may carry a
/// curse, another effect that comes with them.
#[derive(Debug, PartialEq, Eq, Hash)]
pub enum Effect {
    ShopDiscount,
    /// The number of words that can be played per combat.
    WordSizeChange(isize),
    GainGold(usize),
    VowelMultIncrease(usize),
    VowelMultMultIncrease { mult: usize, curse: Option<Box<Effect>> },
    ConsonantMultIncrease(usize),
    ConsonantMultMultIncrease { mult: usize, curse: Option<Box<Effect>> },
    RackSizeChange(isize),
}

/// A copy of an effect, with a copy of its curse.
pub fn clone_effect(e: &Effect) -> (r: Effect)
    ensures
        r == *e,
    decreases e,
{
    match e {
        Effect::ShopDiscount => Effect::ShopDiscount,
        Effect::WordSizeChange(c) => Effect::WordSizeChange(*c),
        Effect::GainGold(c) => Effect::GainGold(*c),
        Effect::VowelMultIncrease(c) => Effect::VowelMultIncrease(*c),
        Effect::VowelMultMultIncrease { mult, curse } => Effect::VowelMultMultIncrease {
            mult: *mult,
            curse: match curse {
                Some(b) => Some(Box::new(clone_effect(&**b))),
                None => None,
            },
        },
        Effect::ConsonantMultIncrease(c) => Effect::ConsonantMultIncrease(*c),
        Effect::ConsonantMultMultIncrease { mult, curse } => Effect::ConsonantMultMultIncrease {
            mult: *mult,
            curse: match curse {
                Some(b) => Some(Box::new(clone_effect(&**b))),
                None => None,
            },
        },
        Effect::RackSizeChange(c) => Effect::RackSizeChange(*c),
    }
}

impl Clone for Effect {
    fn clone(&self) -> (r: Effect)
        ensures
            r == *self,
    {
        clone_effect(self)
    }
}

/// Which letters a multiplier applies to.
#[derive(PartialEq, Eq, Structural, Clone, Copy, Debug)]
pub enum LetterType {
    Consonant,
    Vowel,
}

/// Whether a multiplier adds to the score multiplier or multiplies it.
#[derive(PartialEq, Eq, Structural, Clone, Copy, Debug)]
pub enum MultType {
    Increase,
    Mult,
}

/// Everything the effects in play add up to.
pub struct AllModifiers {
    pub gold: usize,
    pub shop_discount: usize,
    pub word_size_change: isize,
    pub mults: Vec<(LetterType, MultType, usize)>,
    pub rack_size_change: isize,
}

impl Default for AllModifiers {
    fn default() -> (m: AllModifiers)
        ensures
            m.gold == 0,
            m.shop_discount == 0,
            m.word_size_change == 0,
            m.mults@ == Seq::<(LetterType, MultType, usize)>::empty(),
            m.rack_size_change == 0,
    {
        AllModifiers { gold: 0, shop_discount: 0, word_size_change: 0, mults: Vec::new(), rack_size_change: 0 }
    }
}

impl AllModifiers {
    /// Adds the gold, the shop discount and the change of word count of `rhs`
    /// to these, and moves its multipliers after these. The change of rack
    /// size is not added, and `rhs` keeps everything but its multipliers.
    pub fn add(&mut self, rhs: &mut AllModifiers)
        requires
            old(self).gold + old(rhs).gold <= usize::MAX,
            old(self).shop_discount + old(rhs).shop_discount <= usize::MAX,
            isize::MIN <= old(self).word_size_change + old(rhs).word_size_change <= isize::MAX,
        ensures
            final(self).gold == old(self).gold + old(rhs).gold,
            final(self).shop_discount == old(self).shop_discount + old(rhs).shop_discount,
            final(self).word_size_change == old(self).word_size_change + old(rhs).word_size_change,
            final(self).mults@ == old(self).mults@ + old(rhs).mults@,
            final(self).rack_size_change == old(self).rack_size_change,
            final(rhs).gold == old(rhs).gold,
            final(rhs).shop_discount == old(rhs).shop_discount,
            final(rhs).word_size_change == old(rhs).word_size_change,
            final(rhs).mults@ == Seq::<(LetterType, MultType, usize)>::empty(),
            final(rhs).rack_size_change == old(rhs).rack_size_change,
    {
        self.gold += rhs.gold;
        self.shop_discount += rhs.shop_discount;
        self.word_size_change += rhs.word_size_change;
        self.mults.append(&mut rhs.mults)
    }
}

/// The modifiers as numbers without bounds: gold, shop discount, change of
/// word count, multipliers and change of rack size.
pub type ModifierTotals = (int, int, int, Seq<(LetterType, MultType, usize)>, int);

/// The totals of a set of modifiers.
pub open spec fn totals(m: AllModifiers) -> ModifierTotals {
    (m.gold as int, m.shop_discount as int, m.word_size_change as int, m.mults@, m.rack_size_change as int)
}

/// The totals after one effect, and after its curse where it has one.
pub open spec fn apply_effect(m: ModifierTotals, e: Effect) -> ModifierTotals
    decreases e,
{
    match e {
        Effect::ShopDiscount => (m.0, m.1 + 1, m.2, m.3, m.4),
        Effect::WordSizeChange(change) => (m.0, m.1, m.2 + change, m.3, m.4),
        Effect::GainGold(change) => (m.0 + change, m.1, m.2, m.3, m.4),
        Effect::VowelMultIncrease(x) => (m.0, m.1, m.2, m.3.push((LetterType::Vowel, MultType::Increase, x)), m.4),
        Effect::VowelMultMultIncrease { mult, curse } => {
            let pushed = (m.0, m.1, m.2, m.3.push((LetterType::Vowel, MultType::Mult, mult)), m.4);
            match curse {
                Some(c) => apply_effect(pushed, *c),
                None => pushed,
            }
        },
        Effect::ConsonantMultIncrease(x) => (
            m.0,
            m.1,
            m.2,
            m.3.push((LetterType::Consonant, MultType::Increase, x)),
            m.4,
        ),
        Effect::ConsonantMultMultIncrease { mult, curse } => {
            let pushed = (m.0, m.1, m.2, m.3.push((LetterType::Consonant, MultType::Mult, mult)), m.4);
            match curse {
                Some(c) => apply_effect(pushed, *c),
                None => pushed,
            }
        },
        Effect::RackSizeChange(change) => (m.0, m.1, m.2, m.3, m.4 + change),
    }
}

/// The totals after the effects of `s`, in order.
pub open spec fn apply_effects(m: ModifierTotals, s: Seq<Effect>) -> ModifierTotals
    decreases s.len(),
{
    if s.len() == 0 {
        m
    } else {
        apply_effect(apply_effects(m, s.drop_last()), s.last())
    }
}

/// The totals can be held by `AllModifiers`.
pub open spec fn totals_fit(m: ModifierTotals) -> bool {
    &&& 0 <= m.0 <= usize::MAX
    &&& 0 <= m.1 <= usize::MAX
    &&& isize::MIN <= m.2 <= isize::MAX
    &&& isize::MIN <= m.4 <= isize::MAX
}

/// The totals can be held after each effect of `s`.
pub open spec fn effects_fit(m: ModifierTotals, s: Seq<Effect>) -> bool {
    forall|k: int| 0 <= k <= s.len() ==> totals_fit(#[trigger] apply_effects(m, s.take(k)))
}

/// Applying an effect only adds: the counters change once, the multipliers
/// only grow.
proof fn lemma_apply_effect_counters(m: ModifierTotals, e: Effect)
    ensures
        apply_effect(m, e).3.take(m.3.len() as int) == m.3,
        apply_effect(m, e).3.len() >= m.3.len(),
    decreases e,
{
    match e {
        Effect::VowelMultMultIncrease { mult, curse } => {
            let pushed = (m.0, m.1, m.2, m.3.push((LetterType::Vowel, MultType::Mult, mult)), m.4);
            if let Some(c) = curse {
                lemma_apply_effect_counters(pushed, *c);
                assert(apply_effect(pushed, *c).3.take(m.3.len() as int) =~= m.3);
            } else {
                assert(pushed.3.take(m.3.len() as int) =~= m.3);
            }
        },
        Effect::ConsonantMultMultIncrease { mult, curse } => {
            let pushed = (m.0, m.1, m.2, m.3.push((LetterType::Consonant, MultType::Mult, mult)), m.4);
            if let Some(c) = curse {
                lemma_apply_effect_counters(pushed, *c);
                assert(apply_effect(pushed, *c).3.take(m.3.len() as int) =~= m.3);
            } else {
                assert(pushed.3.take(m.3.len() as int) =~= m.3);
            }
        },
        _ => {
            assert(apply_effect(m, e).3.take(m.3.len() as int) =~= m.3);
        },
    }
}

/// Each multiplier effect adds a multiplier for the letters it names, of the
/// kind it names: a vowel effect one for vowels, a consonant effect one for
/// consonants, an increase an increase and a multiplier a multiplier, after
/// those already there (a curse then adds its own); the other effects add
/// no multiplier.
pub proof fn lemma_effect_multipliers(m: ModifierTotals, e: Effect)
    ensures
        e matches Effect::VowelMultIncrease(x) ==> apply_effect(m, e).3 == m.3.push(
            (LetterType::Vowel, MultType::Increase, x),
        ),
        e matches Effect::ConsonantMultIncrease(x) ==> apply_effect(m, e).3 == m.3.push(
            (LetterType::Consonant, MultType::Increase, x),
        ),
        e matches Effect::VowelMultMultIncrease { mult, curse } ==> {
            &&& apply_effect(m, e).3.len() > m.3.len()
            &&& apply_effect(m, e).3[m.3.len() as int] == (LetterType::Vowel, MultType::Mult, mult)
            &&& curse is None ==> apply_effect(m, e).3 == m.3.push((LetterType::Vowel, MultType::Mult, mult))
        },
        e matches Effect::ConsonantMultMultIncrease { mult, curse } ==> {
            &&& apply_effect(m, e).3.len() > m.3.len()
            &&& apply_effect(m, e).3[m.3.len() as int] == (LetterType::Consonant, MultType::Mult, mult)
            &&& curse is None ==> apply_effect(m, e).3 == m.3.push((LetterType::Consonant, MultType::Mult, mult))
        },
        (e is ShopDiscount || e is WordSizeChange || e is GainGold || e is RackSizeChange) ==> apply_effect(m, e).3
            == m.3,
{
    match e {
        Effect::VowelMultMultIncrease { mult, curse } => {
            let pushed = (m.0, m.1, m.2, m.3.push((LetterType::Vowel, MultType::Mult, mult)), m.4);
            if let Some(c) = curse {
                lemma_apply_effect_counters(pushed, *c);
                assert(apply_effect(pushed, *c).3[m.3.len() as int] == apply_effect(pushed, *c).3.take(
                    pushed.3.len() as int,
                )[m.3.len() as int]);
            }
        },
        Effect::ConsonantMultMultIncrease { mult, curse } => {
            let pushed = (m.0, m.1, m.2, m.3.push((LetterType::Consonant, MultType::Mult, mult)), m.4);
            if let Some(c) = curse {
                lemma_apply_effect_counters(pushed, *c);
                assert(apply_effect(pushed, *c).3[m.3.len() as int] == apply_effect(pushed, *c).3.take(
                    pushed.3.len() as int,
                )[m.3.len() as int]);
            }
        },
        _ => {},
    }
}

/// Each counter effect changes the one counter it names by its amount and
/// leaves the others: a shop discount adds one to the discount, gold adds to
/// the gold, a word-size change to the word count, a rack-size change to the
/// rack size; a multiplier effect without a curse changes no counter.
pub proof fn lemma_effect_counters(m: ModifierTotals, e: Effect)
    ensures
        e is ShopDiscount ==> apply_effect(m, e) == (m.0, m.1 + 1, m.2, m.3, m.4),
        e matches Effect::GainGold(g) ==> apply_effect(m, e) == (m.0 + g, m.1, m.2, m.3, m.4),
        e matches Effect::WordSizeChange(c) ==> apply_effect(m, e) == (m.0, m.1, m.2 + c, m.3, m.4),
        e matches Effect::RackSizeChange(c) ==> apply_effect(m, e) == (m.0, m.1, m.2, m.3, m.4 + c),
        (e is VowelMultIncrease || e is ConsonantMultIncrease || e matches Effect::VowelMultMultIncrease { curse: None, .. }
            || e matches Effect::ConsonantMultMultIncrease { curse: None, .. }) ==> {
            &&& apply_effect(m, e).0 == m.0
            &&& apply_effect(m, e).1 == m.1
            &&& apply_effect(m, e).2 == m.2
            &&& apply_effect(m, e).4 == m.4
        },
{
}

/// Adds one effect (and its curse) to the modifiers.
fn apply_one(mods: &mut AllModifiers, e: &Effect)
    requires
        totals_fit(apply_effect(totals(*old(mods)), *e)),
    ensures
        totals(*final(mods)) == apply_effect(totals(*old(mods)), *e),
    decreases e,
{
    match e {
        Effect::ShopDiscount => {
            mods.shop_discount += 1;
        },
        Effect::WordSizeChange(change) => {
            mods.word_size_change += *change;
        },
        Effect::GainGold(change) => {
            mods.gold += *change;
        },
        Effect::VowelMultIncrease(mult_increase) => {
            mods.mults.push((LetterType::Vowel, MultType::Increase, *mult_increase));
        },
        Effect::VowelMultMultIncrease { mult, curse } => {
            mods.mults.push((LetterType::Vowel, MultType::Mult, *mult));
            match curse {
                Some(c) => {
                    apply_one(mods, &**c);
                },
                None => {},
            }
        },
        Effect::ConsonantMultIncrease(mult_increase) => {
            mods.mults.push((LetterType::Consonant, MultType::Increase, *mult_increase));
        },
        Effect::ConsonantMultMultIncrease { mult, curse } => {
            mods.mults.push((LetterType::Consonant, MultType::Mult, *mult));
            match curse {
                Some(c) => {
                    apply_one(mods, &**c);
                },
                None => {},
            }
        },
        Effect::RackSizeChange(change) => {
            mods.rack_size_change += *change;
        },
    }
}

/// Adds the effects, in order, to the modifiers: each counter by its change,
/// each multiplier after those already there, and each curse after the
/// effect that carries it.
pub fn get_all_modifiers_from_effects(mods: &mut AllModifiers, effects: Vec<Effect>)
    requires
        effects_fit(totals(*old(mods)), effects@),
    ensures
        totals(*final(mods)) == apply_effects(totals(*old(mods)), effects@),
{
    let ghost start = totals(*mods);
    let mut i: usize = 0;
    while i < effects.len()
        invariant
            i <= effects@.len(),
            effects_fit(start, effects@),
            totals(*mods) == apply_effects(start, effects@.take(i as int)),
        decreases effects@.len() - i,
    {
        proof {
            assert(effects@.take(i + 1).drop_last() =~= effects@.take(i as int));
            assert(totals_fit(apply_effects(start, effects@.take(i + 1))));
        }
        apply_one(mods, &effects[i]);
        i = i + 1;
    }
    assert(effects@.take(effects@.len() as int) =~= effects@);
}


/// The effects a wish can grant, in the order a roll picks them.
pub open spec fn wish_effects() -> Seq<Effect> {
    seq![
        Effect::ShopDiscount,
        Effect::GainGold(3usize),
        Effect::VowelMultIncrease(3usize),
        Effect::ConsonantMultIncrease(3usize),
        Effect::ConsonantMultMultIncrease { mult: 1usize, curse: Some(Box::new(Effect::WordSizeChange(-1isize))) },
        Effect::ConsonantMultMultIncrease { mult: 1usize, curse: Some(Box::new(Effect::RackSizeChange(-1isize))) },
        Effect::VowelMultMultIncrease { mult: 1usize, curse: Some(Box::new(Effect::WordSizeChange(-1isize))) },
        Effect::VowelMultMultIncrease { mult: 1usize, curse: Some(Box::new(Effect::RackSizeChange(-1isize))) },
    ]
}

/// The effect that a roll of the generator picks: the roll modulo the number
/// of effects, as an index into `wish_effects`.
pub fn effect_from_roll(roll: usize) -> (e: Effect)
    ensures
        e == wish_effects()[(roll % 8) as int],
{
    let i = roll % 8;
    if i == 0 {
        Effect::ShopDiscount
    } else if i == 1 {
        Effect::GainGold(3)
    } else if i == 2 {
        Effect::VowelMultIncrease(3)
    } else if i == 3 {
        Effect::ConsonantMultIncrease(3)
    } else if i == 4 {
        Effect::ConsonantMultMultIncrease { mult: 1, curse: Some(Box::new(Effect::WordSizeChange(-1))) }
    } else if i == 5 {
        Effect::ConsonantMultMultIncrease { mult: 1, curse: Some(Box::new(Effect::RackSizeChange(-1))) }
    } else if i == 6 {
        Effect::VowelMultMultIncrease { mult: 1, curse: Some(Box::new(Effect::WordSizeChange(-1))) }
    } else {
        Effect::VowelMultMultIncrease { mult: 1, curse: Some(Box::new(Effect::RackSizeChange(-1))) }
    }
}


proof fn lemma_wish_effects_differ(i: int, j: int)
    requires
        0 <= i < 8,
        0 <= j < 8,
        i != j,
    ensures
        wish_effects()[i] != wish_effects()[j],
{
}

/// Three different wishes among those a wish can grant, drawn one after the
/// other from those not drawn yet.
pub fn draw_wishes(rng: &mut rand::rngs::ThreadRng) -> (effects: Vec<Effect>)
    ensures
        effects@.len() == 3,
        effects@.no_duplicates(),
        forall|i: int| 0 <= i < 3 ==> wish_effects().contains(#[trigger] effects@[i]),
{
    let mut pool: Vec<usize> = vec![0, 1, 2, 3, 4, 5, 6, 7];
    let mut picked: Vec<usize> = Vec::new();
    let mut effects: Vec<Effect> = Vec::new();
    let mut k: usize = 0;
    while k < 3
        invariant
            k <= 3,
            pool@.len() == 8 - k,
            picked@.len() == k,
            effects@.len() == k,
            forall|a: int| 0 <= a < pool@.len() ==> #[trigger] pool@[a] < 8,
            forall|a: int| 0 <= a < k ==> #[trigger] picked@[a] < 8,
            forall|a: int, b: int| 0 <= a < b < pool@.len() ==> pool@[a] != pool@[b],
            forall|a: int, b: int| 0 <= a < b < k ==> picked@[a] != picked@[b],
            forall|a: int, b: int| 0 <= a < pool@.len() && 0 <= b < k ==> pool@[a] != picked@[b],
            forall|a: int| 0 <= a < k ==> #[trigger] effects@[a] == wish_effects()[picked@[a] as int],
        decreases 3 - k,
    {
        let j = gen_below(rng, 8 - k);
        let idx = pool.remove(j);
        let e = effect_from_roll(idx);
        proof {
            assert((idx % 8) == idx);
        }
        picked.push(idx);
        effects.push(e);
        k = k + 1;
    }
    proof {
        assert forall|a: int, b: int| 0 <= a < b < 3 implies effects@[a] != effects@[b] by {
            lemma_wish_effects_differ(picked@[a] as int, picked@[b] as int);
        }
        assert forall|i: int| 0 <= i < 3 implies wish_effects().contains(#[trigger] effects@[i]) by {
            assert(wish_effects()[picked@[i] as int] == effects@[i]);
        }
    }
    effects
}

/// A random effect among those a wish can grant.
pub fn get_random_effect(rng: &mut rand::rngs::ThreadRng) -> (e: Effect)
    ensures
        wish_effects().contains(e),
{
    let roll = gen_usize(rng);
    let e = effect_from_roll(roll);
    assert(wish_effects()[(roll % 8) as int] == e);
    e
}

/// `s` with its first character replaced by `first`.
pub open spec fn with_first(s: Seq<char>, first: Seq<char>) -> Seq<char> {
    if s.len() == 0 {
        Seq::empty()
    } else {
        first + s.drop_first()
    }
}

/// The text `lowered` followed by the characters of `s` after its first.
pub fn join_after_first(lowered: String, s: &str) -> (r: String)
    requires
        s@.len() > 0,
    ensures
        r@ == lowered@ + s@.drop_first(),
{
    let mut r = lowered;
    let n = s.unicode_len();
    let mut i: usize = 1;
    while i < n
        invariant
            1 <= i <= n,
            n == s@.len(),
            r@ == lowered@ + s@.subrange(1, i as int),
        decreases n - i,
    {
        let c = s.get_char(i);
        push_char(&mut r, c);
        assert(s@.subrange(1, i + 1) =~= s@.subrange(1, i as int).push(c));
        i = i + 1;
    }
    assert(s@.subrange(1, n as int) =~= s@.drop_first());
    r
}

/// `s` with its first character in lowercase (which may be more than one
/// character); the empty string stays empty.
pub fn lowercase_first_letter(s: &str) -> (r: String)
    ensures
        r@ == with_first(s@, lowercase_of(s@[0])),
{
    if s.unicode_len() == 0 {
        String::new()
    } else {
        let first = s.get_char(0);
        let lowered = char_to_lowercase(first);
        join_after_first(lowered, s)
    }
}

/// The curses that can be told: none, a change of word count or of rack size.
pub open spec fn curse_explainable(curse: Option<Box<Effect>>) -> bool {
    match curse {
        None => true,
        Some(b) => match *b {
            Effect::WordSizeChange(_) => true,
            Effect::RackSizeChange(_) => true,
            _ => false,
        },
    }
}

/// What a curse costs, as appended to the description of its effect.
pub open spec fn curse_text(curse: Option<Box<Effect>>) -> Seq<char> {
    match curse {
        None => Seq::empty(),
        Some(b) => match *b {
            Effect::WordSizeChange(change) => ". [Curse] "@ + signed_decimal(change as int) + " word count"@,
            Effect::RackSizeChange(change) => ". [Curse] "@ + signed_decimal(change as int) + " rack size"@,
            _ => Seq::empty(),
        },
    }
}

/// The text of a curse: the change it makes, or nothing without a curse.
pub fn explain_curse(effect: &Option<Box<Effect>>) -> (s: String)
    requires
        curse_explainable(*effect),
    ensures
        s@ == curse_text(*effect),
{
    match effect {
        Some(b) => match &**b {
            Effect::WordSizeChange(change) => {
                let mut s = ". [Curse] ".to_owned();
                let n = isize_to_string(*change);
                s.append(n.as_str());
                s.append(" word count");
                s
            },
            Effect::RackSizeChange(change) => {
                let mut s = ". [Curse] ".to_owned();
                let n = isize_to_string(*change);
                s.append(n.as_str());
                s.append(" rack size");
                s
            },
            _ => String::new(),
        },
        None => String::new(),
    }
}

/// The effects whose description can be given: any but one whose curse
/// cannot be told.
pub open spec fn effect_describable(e: Effect) -> bool {
    match e {
        Effect::VowelMultMultIncrease { mult, curse } => curse_explainable(curse),
        Effect::ConsonantMultMultIncrease { mult, curse } => curse_explainable(curse),
        _ => true,
    }
}

/// The description of an effect.
pub open spec fn effect_text(e: Effect) -> Seq<char> {
    match e {
        Effect::ShopDiscount => "Get a shop discount"@,
        Effect::WordSizeChange(change) => "Gain +"@ + signed_decimal(change as int) + " word count"@,
        Effect::RackSizeChange(change) => "Gain +"@ + signed_decimal(change as int) + " rack size"@,
        Effect::VowelMultIncrease(mult) => "Gain +"@ + decimal(mult as nat) + " vowel mult"@,
        Effect::VowelMultMultIncrease { mult, curse } => "Gain x"@ + decimal(mult as nat) + " vowel mult"@
            + curse_text(curse),
        Effect::ConsonantMultIncrease(mult) => "Gain +"@ + decimal(mult as nat) + " consonant mult"@,
        Effect::ConsonantMultMultIncrease { mult, curse } => "Gain x"@ + decimal(mult as nat)
            + " consonant mult"@ + curse_text(curse),
        Effect::GainGold(gold) => "Gain +"@ + decimal(gold as nat) + " gold"@,
    }
}

/// The description of an effect, as offered to the player.
pub fn get_effect_description(effect: &Effect) -> (s: String)
    requires
        effect_describable(*effect),
    ensures
        s@ == effect_text(*effect),
{
    match effect {
        Effect::ShopDiscount => "Get a shop discount".to_owned(),
        Effect::WordSizeChange(change) => {
            let mut s = "Gain +".to_owned();
            let n = isize_to_string(*change);
            s.append(n.as_str());
            s.append(" word count");
            s
        },
        Effect::RackSizeChange(change) => {
            let mut s = "Gain +".to_owned();
            let n = isize_to_string(*change);
            s.append(n.as_str());
            s.append(" rack size");
            s
        },
        Effect::VowelMultIncrease(mult) => {
            let mut s = "Gain +".to_owned();
            let n = usize_to_string(*mult);
            s.append(n.as_str());
            s.append(" vowel mult");
            s
        },
        Effect::VowelMultMultIncrease { mult, curse } => {
            let mut s = "Gain x".to_owned();
            let n = usize_to_string(*mult);
            s.append(n.as_str());
            s.append(" vowel mult");
            let c = explain_curse(curse);
            s.append(c.as_str());
            s
        },
        Effect::ConsonantMultIncrease(mult) => {
            let mut s = "Gain +".to_owned();
            let n = usize_to_string(*mult);
            s.append(n.as_str());
            s.append(" consonant mult");
            s
        },
        Effect::ConsonantMultMultIncrease { mult, curse } => {
            let mut s = "Gain x".to_owned();
            let n = usize_to_string(*mult);
            s.append(n.as_str());
            s.append(" consonant mult");
            let c = explain_curse(curse);
            s.append(c.as_str());
            s
        },
        Effect::GainGold(gold) => {
            let mut s = "Gain +".to_owned();
            let n = usize_to_string(*gold);
            s.append(n.as_str());
            s.append(" gold");
            s
        },
    }
}


/// Whether two effects are the same, curses included.
pub fn effects_equal(a: &Effect, b: &Effect) -> (r: bool)
    ensures
        r == (*a == *b),
    decreases a,
{
    match (a, b) {
        (Effect::ShopDiscount, Effect::ShopDiscount) => true,
        (Effect::WordSizeChange(x), Effect::WordSizeChange(y)) => *x == *y,
        (Effect::GainGold(x), Effect::GainGold(y)) => *x == *y,
        (Effect::VowelMultIncrease(x), Effect::VowelMultIncrease(y)) => *x == *y,
        (
            Effect::VowelMultMultIncrease { mult: m1, curse: c1 },
            Effect::VowelMultMultIncrease { mult: m2, curse: c2 },
        ) => *m1 == *m2 && curses_equal(c1, c2),
        (Effect::ConsonantMultIncrease(x), Effect::ConsonantMultIncrease(y)) => *x == *y,
        (
            Effect::ConsonantMultMultIncrease { mult: m1, curse: c1 },
            Effect::ConsonantMultMultIncrease { mult: m2, curse: c2 },
        ) => *m1 == *m2 && curses_equal(c1, c2),
        (Effect::RackSizeChange(x), Effect::RackSizeChange(y)) => *x == *y,
        _ => false,
    }
}

/// Whether two curses are the same.
fn curses_equal(a: &Option<Box<Effect>>, b: &Option<Box<Effect>>) -> (r: bool)
    ensures
        r == (*a == *b),
    decreases a,
{
    match (a, b) {
        (None, None) => true,
        (Some(x), Some(y)) => effects_equal(&**x, &**y),
        _ => false,
    }
}

/// Adds `effect` to `effects` unless an equal effect is already there.
pub fn add_new_effect(effects: &mut Vec<Effect>, effect: Effect)
    ensures
        final(effects)@ == (if old(effects)@.contains(effect) {
            old(effects)@
        } else {
            old(effects)@.push(effect)
        }),
{
    let mut i: usize = 0;
    while i < effects.len()
        invariant
            i <= effects@.len(),
            effects@ == old(effects)@,
            forall|j: int| 0 <= j < i ==> effects@[j] != effect,
        decreases effects@.len() - i,
    {
        if effects_equal(&effects[i], &effect) {
            return;
        }
        i = i + 1;
    }
    effects.push(effect);
}

} // verus!
