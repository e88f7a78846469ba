use mdungeons::items::{
    item_from_rolls, unique_name, ArmorClass, ArtifactKind, Enchant, Item, ItemClass, MeleeClass,
    RangedClass, Rarity, Slot, ROLL_SCALE,
};

fn item(class: ItemClass, power: u32, rarity: Rarity) -> Item {
    Item { name: String::new(), class, power, rarity, enchants: Vec::new() }
}

#[test]
fn rarity_slots_and_names() {
    assert_eq!(Rarity::Common.slots(), 1);
    assert_eq!(Rarity::Rare.slots(), 2);
    assert_eq!(Rarity::Unique.slots(), 3);
    assert_eq!(Rarity::Common.fr(), "Commun");
    assert_eq!(Rarity::Rare.fr(), "Rare");
    assert_eq!(Rarity::Unique.fr(), "Unique");
}

#[test]
fn enchant_names_costs_and_slots() {
    assert_eq!(Enchant::Sharpness.name_fr(), "Affûtage");
    assert_eq!(Enchant::Gravity.name_fr(), "Gravité");
    assert_eq!(Enchant::cost(1), 1);
    assert_eq!(Enchant::cost(3), 3);
    assert!(Enchant::Sharpness.applies_to(Slot::Melee));
    assert!(!Enchant::Sharpness.applies_to(Slot::Ranged));
    assert!(Enchant::PoisonCloud.applies_to(Slot::Ranged));
    assert!(!Enchant::Gravity.applies_to(Slot::Armor));
    assert!(!Enchant::Radiance.applies_to(Slot::Artifact));
}

#[test]
fn enchant_descriptions() {
    assert_eq!(Enchant::Sharpness.desc_fr(2), "+20% dégâts de mêlée");
    assert_eq!(Enchant::CriticalHit.desc_fr(3), "+15% chance critique");
    assert_eq!(Enchant::Swirling.desc_fr(1), "Combo 3 : rafale de zone (20 dégâts)");
    assert_eq!(Enchant::Thundering.desc_fr(2), "Critique mêlée : foudre (50 dégâts)");
    assert_eq!(Enchant::Radiance.desc_fr(1), "5% de chances de soigner 4 PV par coup");
    assert_eq!(Enchant::FireAspect.desc_fr(3), "Chance d'enflammer (18/s pendant 2s)");
    assert_eq!(Enchant::PoisonCloud.desc_fr(1), "10% de chances de nuage poison au tir");
    assert_eq!(Enchant::Gravity.desc_fr(0), "0% de chances d'aspirer les ennemis à l'impact");
    assert_eq!(Enchant::Swirling.desc_fr(250), "Combo 3 : rafale de zone (5000 dégâts)");
}

#[test]
fn unique_names_exist_for_every_class() {
    assert_eq!(unique_name(&ItemClass::M(MeleeClass::Sword)), Some("Faucon de marque"));
    assert_eq!(unique_name(&ItemClass::R(RangedClass::HeavyCrossbow)), Some("Broyeuse d'os"));
    assert_eq!(unique_name(&ItemClass::A(ArmorClass::Light)), Some("Écaille du Mercure"));
    assert_eq!(unique_name(&ItemClass::Art(ArtifactKind::Seeds)), Some("Poche du verdoyant"));
}

#[test]
fn item_slot_icon_and_base_name() {
    let sword = item(ItemClass::M(MeleeClass::Sword), 1, Rarity::Common);
    assert_eq!(sword.slot(), Slot::Melee);
    assert_eq!(sword.icon(), "icon_sword");
    assert_eq!(sword.base_name(), "Épée");
    let xbow = item(ItemClass::R(RangedClass::HeavyCrossbow), 1, Rarity::Common);
    assert_eq!(xbow.slot(), Slot::Ranged);
    assert_eq!(xbow.icon(), "icon_crossbow");
    assert_eq!(xbow.base_name(), "Arbalète lourde");
    let armor = item(ItemClass::A(ArmorClass::Heavy), 1, Rarity::Common);
    assert_eq!(armor.slot(), Slot::Armor);
    assert_eq!(armor.icon(), "icon_armor_heavy");
    let horn = item(ItemClass::Art(ArtifactKind::WindHorn), 1, Rarity::Common);
    assert_eq!(horn.slot(), Slot::Artifact);
    assert_eq!(horn.icon(), "art_wind");
    assert_eq!(horn.base_name(), "Corne de vent");
}

#[test]
fn enchant_level_is_first_tier_or_zero() {
    let mut it = item(ItemClass::M(MeleeClass::Axe), 3, Rarity::Unique);
    assert_eq!(it.ench_level(Enchant::Sharpness), 0);
    it.enchants.push((Enchant::CriticalHit, 2));
    it.enchants.push((Enchant::Sharpness, 3));
    it.enchants.push((Enchant::Sharpness, 1));
    assert_eq!(it.ench_level(Enchant::Sharpness), 3);
    assert_eq!(it.ench_level(Enchant::CriticalHit), 2);
    assert_eq!(it.ench_level(Enchant::Gravity), 0);
}

#[test]
fn price_is_base_times_one_plus_tenth_of_power() {
    assert_eq!(item(ItemClass::M(MeleeClass::Sword), 0, Rarity::Common).price(), 60);
    assert_eq!(item(ItemClass::M(MeleeClass::Sword), 2, Rarity::Common).price(), 72);
    assert_eq!(item(ItemClass::M(MeleeClass::Sword), 5, Rarity::Rare).price(), 165);
    assert_eq!(item(ItemClass::M(MeleeClass::Sword), 10, Rarity::Unique).price(), 380);
    assert_eq!(item(ItemClass::M(MeleeClass::Sword), 7, Rarity::Common).price(), 102);
    assert_eq!(item(ItemClass::M(MeleeClass::Sword), u32::MAX, Rarity::Unique).price(), u32::MAX);
}

#[test]
fn price_is_computed_in_single_precision() {
    // 60 * 2.1 gives 125.99999 in single precision
    assert_eq!(item(ItemClass::M(MeleeClass::Sword), 11, Rarity::Common).price(), 125);
    // 190 * 1.3 gives 246.99998
    assert_eq!(item(ItemClass::M(MeleeClass::Sword), 3, Rarity::Unique).price(), 246);
    assert_eq!(item(ItemClass::M(MeleeClass::Sword), 1, Rarity::Rare).price(), 121);
}

#[test]
fn salvage_share_is_computed_in_single_precision() {
    assert_eq!(mdungeons::rounding::share_035(165), 57);
    assert_eq!(mdungeons::rounding::share_035(220), 77);
    // the exact 35 % would be 2097156.95
    assert_eq!(mdungeons::rounding::share_035(5991877), 2097157);
}

#[test]
fn price_grows_with_power() {
    let mut last = 0;
    for p in 0..200 {
        let pr = item(ItemClass::A(ArmorClass::Medium), p, Rarity::Rare).price();
        assert!(pr >= last);
        last = pr;
    }
}

#[test]
fn rolls_select_family_class_and_rarity() {
    let it = item_from_rolls(0, 0, ROLL_SCALE - 1, 4, 0);
    assert_eq!(it.class, ItemClass::M(MeleeClass::Sword));
    assert_eq!(it.rarity, Rarity::Common);
    assert_eq!(it.power, 4);
    assert!(it.name.is_empty());
    assert!(it.enchants.is_empty());
    let it = item_from_rolls(5033165, 2, 0, 0, 0);
    assert_eq!(it.class, ItemClass::R(RangedClass::HeavyCrossbow));
    assert_eq!(it.rarity, Rarity::Unique);
    assert_eq!(it.name, "Broyeuse d'os");
    assert_eq!(it.power, 1);
    let it = item_from_rolls(9227469, 1, 671088, 3, 0);
    assert_eq!(it.class, ItemClass::A(ArmorClass::Medium));
    assert_eq!(it.rarity, Rarity::Unique);
    let it = item_from_rolls(9227469, 1, 671089, 3, 0);
    assert_eq!(it.rarity, Rarity::Rare);
    let it = item_from_rolls(14260634, 5, 4362077, 3, 0);
    assert_eq!(it.class, ItemClass::Art(ArtifactKind::Seeds));
    assert_eq!(it.rarity, Rarity::Common);
    // luck 50 makes every roll below 0.54 unique
    let it = item_from_rolls(14260633, 0, 9000000, 3, 50);
    assert_eq!(it.class, ItemClass::A(ArmorClass::Light));
    assert_eq!(it.rarity, Rarity::Unique);
    assert_eq!(it.name, "Écaille du Mercure");
}

#[test]
fn generated_items_are_plain() {
    let mut rng = rand::thread_rng();
    for _ in 0..200 {
        let it = mdungeons::items::gen_item(&mut rng, 0, 2);
        assert_eq!(it.power, 1);
        assert!(it.enchants.is_empty());
        if it.rarity == Rarity::Unique {
            assert_eq!(Some(it.name.as_str()), unique_name(&it.class));
        } else {
            assert!(it.name.is_empty());
        }
    }
}

#[test]
fn negative_luck_lowers_the_rarity() {
    // the lowest roll is unique without luck, rare at luck -0.04, common at -0.30
    assert_eq!(item_from_rolls(0, 0, 0, 3, 0).rarity, Rarity::Unique);
    assert_eq!(item_from_rolls(0, 0, 0, 3, -4).rarity, Rarity::Rare);
    assert_eq!(item_from_rolls(0, 0, 0, 3, -30).rarity, Rarity::Common);
    assert!(item_from_rolls(0, 0, 0, 3, -30).name.is_empty());
}
