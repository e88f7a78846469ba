use mdungeons::combat::enemy_drops;
use mdungeons::inventory::{armor_class_idx, Inventory, STASH_CAP};
use mdungeons::items::{ArmorClass, Item, ItemClass, MeleeClass, Rarity};
use mdungeons::loot::{boss_enemy, chest_loot, collect_arrows, deliver_item, tracks_boss, Interaction};
use mdungeons::missions::BossKind;
use mdungeons::world::{Block, Decor, Level, Tile};

fn sword(power: u32) -> Item {
    Item { name: String::new(), class: ItemClass::M(MeleeClass::Sword), power, rarity: Rarity::Common, enchants: Vec::new() }
}

fn level_with(decor: Vec<(usize, Decor)>) -> Level {
    let mut tiles = vec![Tile { ground: Block::Grass, wall: 0, wall_block: Block::Log, decor: None }; 25];
    for (i, d) in decor {
        tiles[i].decor = Some(d);
    }
    tiles[3].wall = 2;
    Level {
        w: 5,
        h: 5,
        tiles,
        spawns: vec![(1, 1)],
        boss_spawn: None,
        portal: Some(((5, 5), false)),
        groups: Vec::new(),
        secret_tiles: vec![3],
        secret_opened: false,
        has_rune: true,
        lever: Some((5, 5)),
        biome: mdungeons::missions::Biome::Forest,
        captives: Vec::new(),
        chests: Vec::new(),
    }
}

/// Squared distances (in half tiles) of the 3 × 3 cells from a hero in the
/// middle of the centre cell.
fn centred() -> [Option<u32>; 9] {
    [Some(2), Some(1), Some(2), Some(1), Some(0), Some(1), Some(2), Some(1), Some(2)]
}

#[test]
fn nearest_interactable_is_used() {
    // lever under the hero, closed chest to the north-west
    let mut lvl = level_with(vec![(12, Decor::Lever { pulled: false }), (6, Decor::Chest { opened: false })]);
    assert_eq!(lvl.interact(2, 2, &centred(), false), (Interaction::OpenedSecret, 2, 2));
    assert_eq!(lvl.tiles[12].decor, Some(Decor::Lever { pulled: true }));
    assert_eq!(lvl.tiles[6].decor, Some(Decor::Chest { opened: false }));
    assert_eq!(lvl.interact(2, 2, &centred(), false), (Interaction::OpenedChest, 1, 1));
}

#[test]
fn chest_opens_once() {
    let mut lvl = level_with(vec![(12, Decor::Chest { opened: false })]);
    let r = lvl.interact(2, 2, &centred(), false);
    assert_eq!(r, (Interaction::OpenedChest, 2, 2));
    assert_eq!(lvl.tiles[12].decor, Some(Decor::Chest { opened: true }));
    let r = lvl.interact(2, 2, &centred(), true);
    assert_eq!(r.0, Interaction::Nothing);
}

#[test]
fn lever_opens_secret() {
    let mut lvl = level_with(vec![(7, Decor::Lever { pulled: false })]);
    let r = lvl.interact(2, 2, &centred(), false);
    assert_eq!(r, (Interaction::OpenedSecret, 2, 1));
    assert!(lvl.secret_opened);
    assert_eq!(lvl.tiles[3].wall, 0);
    assert_eq!(lvl.tiles[7].decor, Some(Decor::Lever { pulled: true }));
    assert_eq!(lvl.interact(2, 2, &centred(), false).0, Interaction::Nothing);
}

#[test]
fn scan_order_and_reach() {
    // rune north-west, fountain south-east, equally near: the north-west cell comes first
    let mut lvl = level_with(vec![(6, Decor::Rune { taken: false }), (18, Decor::Fountain { used: false })]);
    let mut reach = centred();
    reach[0] = None;
    // the rune is out of reach: the fountain is next
    assert_eq!(lvl.interact(2, 2, &reach, true), (Interaction::UsedFountain, 3, 3));
    assert_eq!(lvl.tiles[18].decor, Some(Decor::Fountain { used: true }));
    assert_eq!(lvl.interact(2, 2, &centred(), false), (Interaction::TookRune, 1, 1));
    assert_eq!(lvl.interact(2, 2, &centred(), false).0, Interaction::Nothing);
}

#[test]
fn fountain_at_full_health_and_portal() {
    let mut lvl = level_with(vec![(12, Decor::Fountain { used: false }), (13, Decor::Chest { opened: false })]);
    // a hero at full health stops at the fountain, which stays unused
    assert_eq!(lvl.interact(2, 2, &centred(), false), (Interaction::FountainNotNeeded, 2, 2));
    assert_eq!(lvl.tiles[12].decor, Some(Decor::Fountain { used: false }));
    assert_eq!(lvl.tiles[13].decor, Some(Decor::Chest { opened: false }));
    let mut lvl = level_with(vec![(12, Decor::Portal { active: true })]);
    assert_eq!(lvl.interact(2, 2, &centred(), false).0, Interaction::EnterPortal);
    assert_eq!(lvl.interact(2, 2, &centred(), false).0, Interaction::EnterPortal);
    // an inactive portal does nothing
    let mut lvl = level_with(vec![(12, Decor::Portal { active: false })]);
    assert_eq!(lvl.interact(2, 2, &centred(), false).0, Interaction::Nothing);
    // corner of the grid: cells outside are skipped
    let mut lvl = level_with(vec![(0, Decor::Chest { opened: false })]);
    assert_eq!(lvl.interact(0, 0, &centred(), false), (Interaction::OpenedChest, 0, 0));
}

#[test]
fn portal_opening() {
    let mut lvl = level_with(vec![]);
    // boss alive: stays closed
    assert!(!lvl.update_portal(true, Some(false), 10));
    assert_eq!(lvl.portal, Some(((5, 5), false)));
    // no boss, no group triggered yet
    assert!(!lvl.update_portal(false, None, 10));
    lvl.groups.push(mdungeons::world::SpawnGroup { pos: (0, 0), radius: 16, kinds: Vec::new(), count: 0, activated: true });
    assert_eq!(lvl.activated_groups(), 1);
    assert!(!lvl.update_portal(false, None, 2));
    assert!(lvl.update_portal(false, None, 3));
    assert_eq!(lvl.portal, Some(((5, 5), true)));
    // stays open, and opens only once
    assert!(!lvl.update_portal(true, Some(false), 0));
    assert_eq!(lvl.portal, Some(((5, 5), true)));
    let mut lvl = level_with(vec![]);
    assert!(lvl.update_portal(true, None, 0));
}

#[test]
fn bosses() {
    assert_eq!(boss_enemy(BossKind::CorruptedCauldron), "boss_cauldron");
    assert_eq!(boss_enemy(BossKind::MiniGolemHorde), "redstone_golem");
    assert_eq!(boss_enemy(BossKind::VengefulHeart), "boss_vengeful");
    assert!(tracks_boss(BossKind::ArchIllager));
    assert!(!tracks_boss(BossKind::MiniGolemHorde));
}

#[test]
fn chest_contents() {
    for _ in 0..50 {
        let loot = chest_loot(8);
        assert!((10..=28).contains(&loot.emeralds));
        assert!((1..=3).contains(&loot.items.len()));
        let p0 = loot.items[0].power;
        assert!((8..=10).contains(&p0));
        for (k, it) in loot.items.iter().enumerate() {
            assert_eq!(it.power, p0 + k as u32);
        }
        if let Some(a) = loot.arrows {
            assert!((5..=12).contains(&a));
        }
    }
    let loot = chest_loot(0);
    assert!(loot.items[0].power >= 1);
}

#[test]
fn enemy_drop_ranges() {
    for tier in 0..3usize {
        for _ in 0..50 {
            let d = enemy_drops(tier, 5);
            let ok: Vec<u32> = (1..=4u32).map(|n| n * (2 + tier as u32) / 2).collect();
            assert!(ok.contains(&d.emeralds));
            if let Some(a) = d.arrows {
                assert!((3..=8).contains(&a));
            }
            if let Some(it) = &d.item {
                assert!((5..=7).contains(&it.power));
            }
        }
    }
    // tier 1: 1.5 × the roll, rounded down
    let d = enemy_drops(1, 0);
    assert!([1, 3, 4, 6].contains(&d.emeralds));
}

#[test]
fn item_delivery() {
    let mut invs = vec![Inventory::starting(), Inventory::starting()];
    // the first hero is downed: the second one keeps the item
    assert_eq!(deliver_item(&mut invs, &vec![false, true], sword(3)), Some(1));
    assert_eq!(invs[1].stash.len(), 1);
    assert!(invs[0].stash.is_empty());
    // nobody standing: the first hero keeps it anyway
    assert_eq!(deliver_item(&mut invs, &vec![false, false], sword(4)), Some(0));
    assert_eq!(invs[0].stash[0].power, 4);
    // full stashes: nobody keeps it
    for inv in invs.iter_mut() {
        while inv.stash.len() < STASH_CAP {
            inv.stash.push(sword(1));
        }
    }
    assert_eq!(deliver_item(&mut invs, &vec![true, true], sword(5)), None);
    assert_eq!(invs[0].stash.len(), STASH_CAP);
    assert_eq!(deliver_item(&mut Vec::new(), &Vec::new(), sword(5)), None);
}

#[test]
fn arrows_are_capped() {
    assert_eq!(collect_arrows(60, 8), 68);
    assert_eq!(collect_arrows(995, 12), 999);
}

#[test]
fn armor_rows() {
    let mut inv = Inventory::starting();
    assert_eq!(armor_class_idx(&inv), Some(1));
    inv.armor.as_mut().unwrap().class = ItemClass::A(ArmorClass::Heavy);
    assert_eq!(armor_class_idx(&inv), Some(2));
    inv.armor.as_mut().unwrap().class = ItemClass::A(ArmorClass::Light);
    assert_eq!(armor_class_idx(&inv), Some(0));
    inv.armor = None;
    assert_eq!(armor_class_idx(&inv), None);
}
