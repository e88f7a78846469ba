use mdungeons::inventory::Inventory;
use mdungeons::items::{Enchant, Item, ItemClass, MeleeClass, Rarity};
use mdungeons::shop::{forge_price, forge_stash_item, forge_upgrade, Camp};

fn item(power: u32, rarity: Rarity) -> Item {
    Item { name: String::new(), class: ItemClass::M(MeleeClass::Dagger), power, rarity, enchants: Vec::new() }
}

#[test]
fn forge_price_and_upgrade() {
    assert_eq!(forge_price(&item(1, Rarity::Common)), 60);
    assert_eq!(forge_price(&item(2, Rarity::Common)), 120);
    assert_eq!(forge_price(&item(8, Rarity::Rare)), 880);
    assert_eq!(forge_price(&item(7, Rarity::Unique)), 1330);
    let mut it = item(7, Rarity::Unique);
    it.enchants.push((Enchant::Swirling, 2));
    forge_upgrade(&mut it);
    assert_eq!(it.power, 8);
    assert_eq!(it.enchants, vec![(Enchant::Swirling, 2)]);
    assert_eq!(forge_price(&it), 1520);
}

#[test]
fn forge_stash_item_pays_and_upgrades() {
    let mut inv = Inventory::default();
    inv.push_stash(item(3, Rarity::Rare));
    inv.push_stash(item(9, Rarity::Common));
    let mut emeralds = 400;
    assert!(forge_stash_item(&mut inv, 0, &mut emeralds));
    assert_eq!(emeralds, 70);
    assert_eq!(inv.stash[0].power, 4);
    assert_eq!(inv.stash[1].power, 9);
    assert!(!forge_stash_item(&mut inv, 0, &mut emeralds));
    assert_eq!(emeralds, 70);
    assert!(!forge_stash_item(&mut inv, 2, &mut emeralds));
}

#[test]
fn buying_from_the_merchant() {
    let mut camp = Camp::new();
    camp.stock.push((item(5, Rarity::Common), 90));
    camp.stock.push((item(6, Rarity::Rare), 176));
    let mut inv = Inventory::starting();
    let mut emeralds = 100;
    assert!(!camp.buy(1, &mut emeralds, &mut inv));
    assert!(!camp.buy(2, &mut emeralds, &mut inv));
    assert!(camp.buy(0, &mut emeralds, &mut inv));
    assert_eq!(emeralds, 10);
    assert_eq!(camp.stock.len(), 1);
    assert_eq!(inv.melee.as_ref().unwrap().power, 5);
    assert_eq!(inv.stash.len(), 1);
}

#[test]
fn restock_fills_the_shelves() {
    let mut camp = Camp::default();
    assert!(camp.stock.is_empty() && camp.artifacts_stock.is_empty());
    camp.restock(4);
    assert_eq!(camp.stock.len(), 4);
    for (it, price) in &camp.stock {
        assert!(it.power == 5 || it.power == 6);
        assert_eq!(*price, it.price());
        assert!(it.enchants.is_empty());
    }
    assert_eq!(camp.artifacts_stock.len(), 2);
    for (it, price) in &camp.artifacts_stock {
        assert_eq!(it.power, 5);
        assert!(matches!(it.class, ItemClass::Art(_)));
        assert_eq!(*price, it.price());
    }
}

#[test]
fn unique_artifacts_carry_their_own_name() {
    for _ in 0..200 {
        let mut camp = Camp::new();
        camp.restock(1);
        for (it, _) in camp.stock.iter().chain(camp.artifacts_stock.iter()) {
            if it.rarity == Rarity::Unique {
                assert_eq!(it.name, mdungeons::items::unique_name(&it.class).unwrap());
            } else {
                assert!(it.name.is_empty());
            }
        }
    }
}

#[test]
fn buying_with_a_full_stash_keeps_the_displaced_item() {
    let mut camp = Camp::new();
    camp.stock.push((item(5, Rarity::Common), 90));
    let mut inv = Inventory::starting();
    for i in 0..mdungeons::inventory::STASH_CAP {
        inv.push_stash(item(i as u32, Rarity::Rare));
    }
    let mut emeralds = 100;
    assert!(camp.buy(0, &mut emeralds, &mut inv));
    assert_eq!(emeralds, 10);
    assert_eq!(inv.stash.len(), mdungeons::inventory::STASH_CAP + 1);
    assert_eq!(inv.stash.last().unwrap().class, ItemClass::M(MeleeClass::Sword));
}

#[test]
fn forge_price_grows_with_power() {
    let mut last = 0;
    for p in 0..100 {
        let f = forge_price(&item(p, Rarity::Rare));
        assert!(f >= last);
        last = f;
    }
}
