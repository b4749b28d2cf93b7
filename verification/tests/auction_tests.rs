use skyblock_calendar::auction::{Armor, ArmorType, AuctionItem, Pet};

#[test]
fn pet_new_keeps_fields() {
    let pet = Pet::new(String::from("Wolf"), 42, 1_000_000, 3);
    assert_eq!(pet.name, "Wolf");
    assert_eq!(pet.level, 42);
    assert_eq!(pet.exp, 1_000_000);
    assert_eq!(pet.candy, 3);
}

#[test]
fn armor_new_keeps_fields() {
    let armor = Armor::new(
        String::from("Dragon Chestplate"),
        ArmorType::Chestplate,
        vec![String::from("Protection")],
        vec![String::from("Ruby")],
        1,
        2,
        String::from("Ancient"),
        5,
    );
    assert_eq!(armor.name, "Dragon Chestplate");
    assert_eq!(armor.armor_type, ArmorType::Chestplate);
    assert_eq!(armor.enchants, vec![String::from("Protection")]);
    assert_eq!(armor.gemstones, vec![String::from("Ruby")]);
    assert_eq!(armor.fuming, 1);
    assert_eq!(armor.art_of_peace, 2);
    assert_eq!(armor.reforge, "Ancient");
    assert_eq!(armor.star, 5);
}

#[test]
fn auction_item_wraps_both_kinds() {
    let item = AuctionItem::Pet(Pet::new(String::from("Cat"), 1, 0, 0));
    match item {
        AuctionItem::Pet(p) => assert_eq!(p.name, "Cat"),
        AuctionItem::Armor(_) => panic!("expected a pet"),
    }
}
