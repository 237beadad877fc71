//! The items a player can find or buy, with their looks, prices and effects.

use vstd::prelude::*;
use crate::random::gen_usize;
use crate::word_dungeon::effects::Effect;

verus! {

/// An item.
#[derive(PartialEq, Eq, Structural, Hash, Clone, Copy, Debug, PartialOrd, Ord)]
pub enum Item {
    Key,
    Glasses,
    MembershipCard,
    VowelVortex,
    ConsonantConundrum,
    DoubleDouble,
    DustyYam,
    AspiringAbacus,
    TranquilScissors,
    DyingFicus,
    MissingCrab,
    BreakfastCoffee,
    SpicyPillow,
    SuspiciousSausage,
    ElectricChair,
    CosmicTeapot,
    GlowingBrick,
    SizzlingRug,
    FuzzyKeyboard,
    BathroomSteak,
}

/// Every item, in the order of the declaration.
pub open spec fn all_items() -> Seq<Item> {
    seq![
        Item::Key,
        Item::Glasses,
        Item::MembershipCard,
        Item::VowelVortex,
        Item::ConsonantConundrum,
        Item::DoubleDouble,
        Item::DustyYam,
        Item::AspiringAbacus,
        Item::TranquilScissors,
        Item::DyingFicus,
        Item::MissingCrab,
        Item::BreakfastCoffee,
        Item::SpicyPillow,
        Item::SuspiciousSausage,
        Item::ElectricChair,
        Item::CosmicTeapot,
        Item::GlowingBrick,
        Item::SizzlingRug,
        Item::FuzzyKeyboard,
        Item::BathroomSteak
    ]
}

/// The item that a roll of the generator picks: the roll modulo the number
/// of items, as an index into `all_items`.
pub fn item_from_roll(roll: usize) -> (item: Item)
    ensures
        item == all_items()[(roll % 20) as int],
{
    let items_list = [
        Item::Key,
        Item::Glasses,
        Item::MembershipCard,
        Item::VowelVortex,
        Item::ConsonantConundrum,
        Item::DoubleDouble,
        Item::DustyYam,
        Item::AspiringAbacus,
        Item::TranquilScissors,
        Item::DyingFicus,
        Item::MissingCrab,
        Item::BreakfastCoffee,
        Item::SpicyPillow,
        Item::SuspiciousSausage,
        Item::ElectricChair,
        Item::CosmicTeapot,
        Item::GlowingBrick,
        Item::SizzlingRug,
        Item::FuzzyKeyboard,
        Item::BathroomSteak
    ];
    assert(items_list@ =~= all_items());
    items_list[roll % 20]
}

/// A random item.
pub fn get_random_item(rng: &mut rand::rngs::ThreadRng) -> (item: Item)
    ensures
        all_items().contains(item),
{
    let roll = gen_usize(rng);
    let item = item_from_roll(roll);
    assert(all_items()[(roll % 20) as int] == item);
    item
}

/// The text that describes an item.
pub open spec fn item_description_text(item: Item) -> &'static str {
    match item {
        Item::Key => "(does something?)",
        Item::Glasses => "(+1 hand)",
        Item::MembershipCard => "(25% discount at merchants)",
        Item::VowelVortex => "(+1 mult for each vowel in the word)",
        Item::ConsonantConundrum => "(needs description)",
        Item::DoubleDouble => "(needs description)",
        Item::DustyYam => "(needs description)",
        Item::AspiringAbacus => "(needs description)",
        Item::TranquilScissors => "(needs description)",
        Item::DyingFicus => "(needs description)",
        Item::MissingCrab => "(needs description)",
        Item::BreakfastCoffee => "(needs description)",
        Item::SpicyPillow => "(needs description)",
        Item::SuspiciousSausage => "(needs description)",
        Item::ElectricChair => "(needs description)",
        Item::CosmicTeapot => "(needs description)",
        Item::GlowingBrick => "(needs description)",
        Item::SizzlingRug => "(needs description)",
        Item::FuzzyKeyboard => "(needs description)",
        Item::BathroomSteak => "(needs description)",
    }
}

/// The description of an item, as dialogue: one line in the default colours.
pub fn get_item_description(
    item: &Item,
) -> (lines: Vec<(String, Option<(Option<(u8, u8, u8, u8)>, Option<(u8, u8, u8, u8)>)>)>)
    ensures
        lines@.len() == 1,
        lines@[0].0@ == item_description_text(*item)@,
        lines@[0].1.is_none(),
{
    let text: &str = match item {
        Item::Key => "(does something?)",
        Item::Glasses => "(+1 hand)",
        Item::MembershipCard => "(25% discount at merchants)",
        Item::VowelVortex => "(+1 mult for each vowel in the word)",
        Item::ConsonantConundrum => "(needs description)",
        Item::DoubleDouble => "(needs description)",
        Item::DustyYam => "(needs description)",
        Item::AspiringAbacus => "(needs description)",
        Item::TranquilScissors => "(needs description)",
        Item::DyingFicus => "(needs description)",
        Item::MissingCrab => "(needs description)",
        Item::BreakfastCoffee => "(needs description)",
        Item::SpicyPillow => "(needs description)",
        Item::SuspiciousSausage => "(needs description)",
        Item::ElectricChair => "(needs description)",
        Item::CosmicTeapot => "(needs description)",
        Item::GlowingBrick => "(needs description)",
        Item::SizzlingRug => "(needs description)",
        Item::FuzzyKeyboard => "(needs description)",
        Item::BathroomSteak => "(needs description)",
    };
    vec![(text.to_owned(), None)]
}

/// The symbol an item is drawn with.
pub open spec fn item_symbol(item: Item) -> &'static str {
    match item {
        Item::Key => "ꄗ",
        Item::Glasses => "👓",
        Item::MembershipCard => "💳",
        Item::VowelVortex => "🌀",
        Item::ConsonantConundrum => "✨",
        Item::DoubleDouble => "👥",
        Item::DustyYam => "🍠",
        Item::AspiringAbacus => "🎚",
        Item::TranquilScissors => "🪓",
        Item::DyingFicus => "🌱",
        Item::MissingCrab => "🦀",
        Item::BreakfastCoffee => "🍵",
        Item::SpicyPillow => "🐑",
        Item::SuspiciousSausage => "🌭",
        Item::ElectricChair => "💺",
        Item::CosmicTeapot => "🫖",
        Item::GlowingBrick => "🧀",
        Item::SizzlingRug => "🫓",
        Item::FuzzyKeyboard => "🎹",
        Item::BathroomSteak => "🥩",
    }
}

/// The symbol an item is drawn with.
pub fn get_item_char(item: &Item) -> (s: String)
    ensures
        s@ == item_symbol(*item)@,
{
    let text: &str = match item {
        Item::Key => "ꄗ",
        Item::Glasses => "👓",
        Item::MembershipCard => "💳",
        Item::VowelVortex => "🌀",
        Item::ConsonantConundrum => "✨",
        Item::DoubleDouble => "👥",
        Item::DustyYam => "🍠",
        Item::AspiringAbacus => "🎚",
        Item::TranquilScissors => "🪓",
        Item::DyingFicus => "🌱",
        Item::MissingCrab => "🦀",
        Item::BreakfastCoffee => "🍵",
        Item::SpicyPillow => "🐑",
        Item::SuspiciousSausage => "🌭",
        Item::ElectricChair => "💺",
        Item::CosmicTeapot => "🫖",
        Item::GlowingBrick => "🧀",
        Item::SizzlingRug => "🫓",
        Item::FuzzyKeyboard => "🎹",
        Item::BathroomSteak => "🥩",
    };
    text.to_owned()
}

/// The price of an item, in gold.
pub open spec fn item_cost(item: Item) -> usize {
    match item {
        Item::Key => 2,
        Item::Glasses => 4,
        Item::MembershipCard => 3,
        Item::VowelVortex => 4,
        Item::ConsonantConundrum => 2,
        Item::DoubleDouble => 3,
        Item::DustyYam => 4,
        Item::AspiringAbacus => 3,
        Item::TranquilScissors => 2,
        Item::DyingFicus => 1,
        Item::MissingCrab => 4,
        Item::BreakfastCoffee => 2,
        Item::SpicyPillow => 3,
        Item::SuspiciousSausage => 3,
        Item::ElectricChair => 4,
        Item::CosmicTeapot => 2,
        Item::GlowingBrick => 4,
        Item::SizzlingRug => 3,
        Item::FuzzyKeyboard => 4,
        Item::BathroomSteak => 3,
    }
}

/// The price of an item, in gold.
pub fn get_item_cost(item: &Item) -> (cost: usize)
    ensures
        cost == item_cost(*item),
        1 <= cost <= 4,
{
    match item {
        Item::Key => 2,
        Item::Glasses => 4,
        Item::MembershipCard => 3,
        Item::VowelVortex => 4,
        Item::ConsonantConundrum => 2,
        Item::DoubleDouble => 3,
        Item::DustyYam => 4,
        Item::AspiringAbacus => 3,
        Item::TranquilScissors => 2,
        Item::DyingFicus => 1,
        Item::MissingCrab => 4,
        Item::BreakfastCoffee => 2,
        Item::SpicyPillow => 3,
        Item::SuspiciousSausage => 3,
        Item::ElectricChair => 4,
        Item::CosmicTeapot => 2,
        Item::GlowingBrick => 4,
        Item::SizzlingRug => 3,
        Item::FuzzyKeyboard => 4,
        Item::BathroomSteak => 3,
    }
}

/// The effects an item grants while held.
pub open spec fn item_effects(item: Item) -> Seq<Effect> {
    match item {
        Item::Glasses => seq![Effect::WordSizeChange(1)],
        Item::MembershipCard => seq![Effect::ShopDiscount],
        Item::VowelVortex => seq![Effect::VowelMultMultIncrease { mult: 1, curse: None }],
        Item::ConsonantConundrum => seq![Effect::ConsonantMultMultIncrease { mult: 1, curse: None }],
        Item::DoubleDouble => seq![Effect::ConsonantMultIncrease(2)],
        Item::DustyYam => seq![Effect::ConsonantMultIncrease(1)],
        Item::AspiringAbacus => seq![Effect::ConsonantMultIncrease(1)],
        _ => seq![],
    }
}

/// The effects an item grants while held.
pub fn get_item_effects(item: &Item) -> (effects: Vec<Effect>)
    ensures
        effects@ == item_effects(*item),
{
    match item {
        Item::Glasses => vec![Effect::WordSizeChange(1)],
        Item::MembershipCard => vec![Effect::ShopDiscount],
        Item::VowelVortex => vec![Effect::VowelMultMultIncrease { mult: 1, curse: None }],
        Item::ConsonantConundrum => vec![Effect::ConsonantMultMultIncrease { mult: 1, curse: None }],
        Item::DoubleDouble => vec![Effect::ConsonantMultIncrease(2)],
        Item::DustyYam => vec![Effect::ConsonantMultIncrease(1)],
        Item::AspiringAbacus => vec![Effect::ConsonantMultIncrease(1)],
        _ => vec![],
    }
}

/// Whether an item is used up as soon as it is picked up: none is.
pub fn use_and_remove_item_on_pickup(item: &Item) -> (used: bool)
    ensures
        !used,
{
    match item {
        Item::Key => false,
        Item::Glasses => false,
        Item::MembershipCard => false,
        Item::VowelVortex => false,
        Item::ConsonantConundrum => false,
        Item::DoubleDouble => false,
        Item::DustyYam => false,
        Item::AspiringAbacus => false,
        Item::TranquilScissors => false,
        Item::DyingFicus => false,
        Item::MissingCrab => false,
        Item::BreakfastCoffee => false,
        Item::SpicyPillow => false,
        Item::SuspiciousSausage => false,
        Item::ElectricChair => false,
        Item::CosmicTeapot => false,
        Item::GlowingBrick => false,
        Item::SizzlingRug => false,
        Item::FuzzyKeyboard => false,
        Item::BathroomSteak => false,
    }
}

} // verus!
