use vstd::prelude::*;

verus! {

/// An item offered at auction: either a pet or a piece of armor.
#[derive(Debug, Clone)]
pub enum AuctionItem {
    Pet(Pet),
    Armor(Armor),
}

/// A pet listing: name, level, accumulated experience and candies used.
#[derive(Clone, Debug)]
pub struct Pet {
    pub name: String,
    pub level: i16,
    pub exp: i32,
    pub candy: i8,
}

impl Pet {
    pub fn new(name: String, level: i16, exp: i32, candy: i8) -> (r: Self)
        ensures
            r.name == name,
            r.level == level,
            r.exp == exp,
            r.candy == candy,
    {
        Pet { name, level, exp, candy }
    }
}

/// The slot a piece of armor occupies.
#[derive(Clone, Copy, Debug, PartialEq, Eq, Structural)]
pub enum ArmorType {
    Helmet,
    Chestplate,
    Leggings,
    Boots,
}

/// An armor listing with its enchantments, gemstones and upgrade counters.
#[derive(Clone, Debug)]
pub struct Armor {
    pub name: String,
    pub armor_type: ArmorType,
    pub enchants: Vec<String>,
    pub gemstones: Vec<String>,
    pub fuming: i16,
    pub art_of_peace: i16,
    pub reforge: String,
    pub star: i16,
}

impl Armor {
    pub fn new(
        name: String,
        armor_type: ArmorType,
        enchants: Vec<String>,
        gemstones: Vec<String>,
        fuming: i16,
        art_of_peace: i16,
        reforge: String,
        star: i16,
    ) -> (r: Armor)
        ensures
            r.name == name,
            r.armor_type == armor_type,
            r.enchants == enchants,
            r.gemstones == gemstones,
            r.fuming == fuming,
            r.art_of_peace == art_of_peace,
            r.reforge == reforge,
            r.star == star,
    {
        Self { name, armor_type, enchants, gemstones, fuming, art_of_peace, reforge, star }
    }
}

} // verus!
