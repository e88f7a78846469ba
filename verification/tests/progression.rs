use mdungeons::consts::xp_for_level;
use mdungeons::inventory::Inventory;
use mdungeons::progression::add_xp;

#[test]
fn xp_thresholds() {
    assert_eq!(xp_for_level(0), 20);
    assert_eq!(xp_for_level(1), 34);
    assert_eq!(xp_for_level(10), 160);
    for l in 0..100 {
        assert!(xp_for_level(l) < xp_for_level(l + 1));
    }
}

#[test]
fn xp_levels_up_and_earns_points() {
    let mut inv = Inventory::starting();
    let (mut level, mut xp) = (1u32, 0u32);
    assert!(!add_xp(&mut level, &mut xp, &mut inv, false, 33));
    assert_eq!((level, xp, inv.enchant_points), (1, 33, 1));
    assert!(add_xp(&mut level, &mut xp, &mut inv, false, 1));
    assert_eq!((level, xp, inv.enchant_points), (2, 0, 2));
    // 48 for level 2, 62 for level 3: 115 = 48 + 62 + 5
    assert!(add_xp(&mut level, &mut xp, &mut inv, false, 115));
    assert_eq!((level, xp, inv.enchant_points), (4, 5, 4));
}

#[test]
fn total_xp_is_conserved() {
    let mut inv = Inventory::default();
    let (mut level, mut xp) = (1u32, 10u32);
    let before: u32 = (1..level).map(xp_for_level).sum::<u32>() + xp;
    add_xp(&mut level, &mut xp, &mut inv, false, 1000);
    let after: u32 = (1..level).map(xp_for_level).sum::<u32>() + xp;
    assert_eq!(after, before + 1000);
    assert!(xp < xp_for_level(level));
    assert_eq!(inv.enchant_points, level - 1);
}

#[test]
fn downed_hero_gains_no_xp() {
    let mut inv = Inventory::starting();
    let (mut level, mut xp) = (1u32, 30u32);
    assert!(!add_xp(&mut level, &mut xp, &mut inv, true, 500));
    assert_eq!((level, xp, inv.enchant_points), (1, 30, 1));
}
