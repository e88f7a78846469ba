use mdungeons::inventory::{Inventory, STASH_CAP};
use mdungeons::items::{
    ArmorClass, ArtifactKind, Enchant, Item, ItemClass, MeleeClass, RangedClass, Rarity, Slot,
};

fn item(class: ItemClass, power: u32, rarity: Rarity) -> Item {
    Item { name: String::new(), class, power, rarity, enchants: Vec::new() }
}

fn sword(power: u32) -> Item {
    item(ItemClass::M(MeleeClass::Sword), power, Rarity::Common)
}

fn budget(inv: &Inventory) -> u32 {
    let mut b = inv.enchant_points;
    for it in inv.all_items() {
        for (_, t) in &it.enchants {
            b += *t as u32;
        }
    }
    b
}

#[test]
fn starting_inventory() {
    let inv = Inventory::starting();
    let m = inv.melee.as_ref().unwrap();
    assert_eq!(m.class, ItemClass::M(MeleeClass::Sword));
    assert_eq!(m.power, 2);
    assert_eq!(m.enchants, vec![(Enchant::Sharpness, 1)]);
    assert_eq!(inv.ranged.as_ref().unwrap().class, ItemClass::R(RangedClass::Bow));
    assert_eq!(inv.armor.as_ref().unwrap().class, ItemClass::A(ArmorClass::Medium));
    assert_eq!(inv.artifacts[0].as_ref().unwrap().class, ItemClass::Art(ArtifactKind::Totem));
    assert!(inv.artifacts[1].is_none() && inv.artifacts[2].is_none());
    assert!(inv.stash.is_empty());
    assert_eq!(inv.enchant_points, 1);
    assert_eq!(inv.power(), 2);
    assert_eq!(inv.all_items().len(), 4);
}

#[test]
fn default_inventory_is_empty() {
    let inv = Inventory::default();
    assert!(inv.melee.is_none() && inv.ranged.is_none() && inv.armor.is_none());
    assert!(inv.stash.is_empty());
    assert_eq!(inv.enchant_points, 0);
    assert_eq!(inv.power(), 1);
}

#[test]
fn display_name_prefers_own_name() {
    let mut it = sword(1);
    assert_eq!(Inventory::display_name(&it), "Épée");
    it.name = "Faucon de marque".to_string();
    assert_eq!(Inventory::display_name(&it), "Faucon de marque");
}

#[test]
fn power_is_highest_item() {
    let mut inv = Inventory::starting();
    inv.stash.push(sword(9));
    inv.stash.push(sword(4));
    assert_eq!(inv.power(), 9);
    let all = inv.all_items();
    assert_eq!(all.len(), 6);
    assert_eq!(all[0].class, ItemClass::M(MeleeClass::Sword));
    assert_eq!(all[3].class, ItemClass::Art(ArtifactKind::Totem));
    assert_eq!(all[4].power, 9);
    assert_eq!(all[5].power, 4);
}

#[test]
fn push_stash_respects_capacity() {
    let mut inv = Inventory::default();
    for i in 0..STASH_CAP {
        assert!(inv.push_stash(sword(i as u32)));
    }
    assert_eq!(inv.stash.len(), STASH_CAP);
    assert!(!inv.push_stash(sword(99)));
    assert_eq!(inv.stash.len(), STASH_CAP);
    assert_eq!(inv.stash[STASH_CAP - 1].power, (STASH_CAP - 1) as u32);
}

#[test]
fn equip_moves_displaced_item_to_stash() {
    let mut inv = Inventory::starting();
    inv.equip(sword(7));
    assert_eq!(inv.melee.as_ref().unwrap().power, 7);
    assert_eq!(inv.stash.len(), 1);
    assert_eq!(inv.stash[0].power, 2);
    // artifacts fill the first free slot, then replace slot 0
    inv.equip(item(ItemClass::Art(ArtifactKind::Seeds), 3, Rarity::Rare));
    assert_eq!(inv.artifacts[1].as_ref().unwrap().class, ItemClass::Art(ArtifactKind::Seeds));
    inv.equip(item(ItemClass::Art(ArtifactKind::WindHorn), 3, Rarity::Rare));
    assert_eq!(inv.artifacts[2].as_ref().unwrap().class, ItemClass::Art(ArtifactKind::WindHorn));
    inv.equip(item(ItemClass::Art(ArtifactKind::Lightning), 3, Rarity::Rare));
    assert_eq!(inv.artifacts[0].as_ref().unwrap().class, ItemClass::Art(ArtifactKind::Lightning));
    assert_eq!(inv.stash.len(), 2);
    assert_eq!(inv.stash[1].class, ItemClass::Art(ArtifactKind::Totem));
}

#[test]
fn equip_with_full_stash_keeps_the_displaced_item() {
    let mut inv = Inventory::starting();
    for i in 0..STASH_CAP {
        inv.push_stash(item(ItemClass::A(ArmorClass::Light), i as u32, Rarity::Common));
    }
    inv.equip(sword(5));
    assert_eq!(inv.melee.as_ref().unwrap().power, 5);
    assert_eq!(inv.stash.len(), STASH_CAP + 1);
    assert_eq!(inv.stash[STASH_CAP].class, ItemClass::M(MeleeClass::Sword));
    assert_eq!(inv.stash[STASH_CAP].power, 2);
}

#[test]
fn equip_from_stash_and_unequip() {
    let mut inv = Inventory::starting();
    inv.push_stash(item(ItemClass::R(RangedClass::Crossbow), 6, Rarity::Rare));
    assert!(!inv.equip_from_stash(3));
    assert!(inv.equip_from_stash(0));
    assert_eq!(inv.ranged.as_ref().unwrap().class, ItemClass::R(RangedClass::Crossbow));
    assert_eq!(inv.stash.len(), 1);
    assert_eq!(inv.stash[0].class, ItemClass::R(RangedClass::Bow));
    inv.unequip(0);
    assert!(inv.melee.is_none());
    assert_eq!(inv.stash.len(), 2);
    assert_eq!(inv.stash[1].class, ItemClass::M(MeleeClass::Sword));
    inv.unequip(4);
    assert_eq!(inv.stash.len(), 2);
    inv.unequip(3);
    assert!(inv.artifacts[0].is_none());
    assert_eq!(inv.stash.len(), 3);
}

#[test]
fn slot_ref_and_stash_get() {
    let mut inv = Inventory::starting();
    assert_eq!(inv.slot_ref(Slot::Melee, 0).unwrap().power, 2);
    assert!(inv.slot_ref(Slot::Artifact, 1).is_none());
    assert!(inv.slot_ref(Slot::Artifact, 7).is_none());
    assert_eq!(inv.slot_ref(Slot::Artifact, 0).unwrap().class, ItemClass::Art(ArtifactKind::Totem));
    assert!(inv.stash_get(0).is_none());
    inv.push_stash(sword(3));
    assert_eq!(inv.stash_get(0).unwrap().power, 3);
}

#[test]
fn can_enchant_rules() {
    let mut inv = Inventory::default();
    inv.enchant_points = 2;
    let s = sword(1);
    assert!(inv.can_enchant(&s, Enchant::Sharpness, 2));
    assert!(!inv.can_enchant(&s, Enchant::Sharpness, 3)); // not enough points
    assert!(!inv.can_enchant(&s, Enchant::Gravity, 1)); // ranged only
    let mut full = sword(1);
    full.enchants.push((Enchant::Radiance, 1));
    assert!(!inv.can_enchant(&full, Enchant::Sharpness, 1)); // common: one slot
    let mut rare = item(ItemClass::M(MeleeClass::Axe), 1, Rarity::Rare);
    rare.enchants.push((Enchant::Radiance, 1));
    assert!(inv.can_enchant(&rare, Enchant::Sharpness, 1));
    assert!(!inv.can_enchant(&rare, Enchant::Radiance, 1)); // already there
}

#[test]
fn enchant_spends_points_and_keeps_budget() {
    let mut inv = Inventory::default();
    inv.enchant_points = 5;
    inv.push_stash(item(ItemClass::M(MeleeClass::Hammer), 4, Rarity::Unique));
    let b0 = budget(&inv);
    assert!(inv.enchant(0, Enchant::Sharpness, 3));
    assert_eq!(inv.enchant_points, 2);
    assert_eq!(inv.stash[0].enchants, vec![(Enchant::Sharpness, 3)]);
    assert_eq!(budget(&inv), b0);
    assert!(!inv.enchant(0, Enchant::Sharpness, 1)); // duplicate
    assert!(!inv.enchant(0, Enchant::CriticalHit, 3)); // not enough points
    assert!(!inv.enchant(5, Enchant::CriticalHit, 1)); // no such item
    assert!(inv.enchant(0, Enchant::CriticalHit, 2));
    assert_eq!(inv.enchant_points, 0);
    assert_eq!(budget(&inv), b0);
}

#[test]
fn salvage_pays_and_refunds() {
    let mut inv = Inventory::default();
    inv.enchant_points = 1;
    let mut it = item(ItemClass::M(MeleeClass::Sword), 10, Rarity::Rare);
    it.enchants.push((Enchant::Sharpness, 2));
    it.enchants.push((Enchant::CriticalHit, 1));
    inv.push_stash(sword(1));
    inv.push_stash(it);
    let b0 = budget(&inv);
    // price 110 * 20 / 10 = 220 -> 77 emeralds + 5 * 3
    assert_eq!(inv.salvage(1), Some((92, 3)));
    assert_eq!(inv.enchant_points, 4);
    assert_eq!(inv.stash.len(), 1);
    assert_eq!(budget(&inv), b0);
    // plain common sword of power 1: 66 * 35 / 100 = 23
    assert_eq!(inv.salvage(0), Some((23, 0)));
    assert!(inv.stash.is_empty());
}

#[test]
fn enchant_options_follow_the_rules() {
    let s = sword(1);
    let opts = Inventory::enchant_options(&s);
    assert_eq!(opts.len(), 18);
    assert_eq!(opts[0], (Enchant::Sharpness, 1, 1));
    assert_eq!(opts[2], (Enchant::Sharpness, 3, 3));
    assert_eq!(opts[17], (Enchant::FireAspect, 3, 3));
    let bow = item(ItemClass::R(RangedClass::Bow), 1, Rarity::Rare);
    let opts = Inventory::enchant_options(&bow);
    assert_eq!(opts.len(), 6);
    assert_eq!(opts[3], (Enchant::Gravity, 1, 1));
    let armor = item(ItemClass::A(ArmorClass::Heavy), 1, Rarity::Unique);
    assert!(Inventory::enchant_options(&armor).is_empty());
    let mut full = sword(1);
    full.enchants.push((Enchant::Swirling, 1));
    assert!(Inventory::enchant_options(&full).is_empty());
    // every offer is accepted by can_enchant with enough points
    let mut inv = Inventory::default();
    inv.enchant_points = 3;
    for (e, t, c) in Inventory::enchant_options(&bow) {
        assert!(inv.can_enchant(&bow, e, t));
        assert_eq!(c, Enchant::cost(t));
    }
}
