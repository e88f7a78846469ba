use mdungeons::missions::{
    biome_enemies, boss_name, mission, secret_unlocked_by_rune, total_threat, Biome, BossKind,
    MISSION_COUNT,
};
use mdungeons::progress::Save;

#[test]
fn new_save() {
    let s = Save::new();
    assert_eq!(s.seed, 123456789);
    assert_eq!(s.emeralds, 50);
    assert!(s.completed.is_empty() && s.secrets_found.is_empty());
    assert_eq!((s.tier, s.tier_unlocked), (0, 0));
    assert_eq!(s.players.len(), 1);
    assert_eq!(s.players[0].level, 1);
    assert_eq!(s.players[0].xp, 0);
    assert_eq!(s.players[0].inventory.enchant_points, 1);
    assert_eq!(s.missions_played, 0);
}

#[test]
fn unlocking_follows_the_tree() {
    let mut s = Save::new();
    assert!(s.is_unlocked(0));
    for m in 1..MISSION_COUNT {
        assert!(!s.is_unlocked(m));
    }
    assert_eq!(s.next_mission(), 0);
    s.completed.push(0);
    assert!(s.is_completed(0));
    assert!(s.is_unlocked(1));
    assert_eq!(s.next_mission(), 1);
    s.completed.extend([1, 2, 3]);
    assert!(s.is_unlocked(5));
    // the secret cave needs the swamp completed and its rune found
    assert!(!s.is_unlocked(4));
    s.secrets_found.push(3);
    assert!(s.is_unlocked(4));
    assert_eq!(s.next_mission(), 5);
    // the last island needs the three islands
    s.completed.extend([5, 6, 8, 9, 10, 11, 12, 13]);
    assert!(!s.is_unlocked(15));
    assert_eq!(s.next_mission(), 14);
    s.completed.push(14);
    assert!(s.is_unlocked(15));
    s.completed.push(15);
    // everything done: back to the first mission
    assert_eq!(s.next_mission(), 0);
}

#[test]
fn record_mission_bookkeeping() {
    let mut s = Save::new();
    s.record_mission(0, true, 30, false);
    assert_eq!(s.emeralds, 80);
    assert_eq!(s.completed, vec![0]);
    assert_eq!(s.missions_played, 1);
    s.record_mission(0, true, 5, false);
    assert_eq!(s.completed, vec![0]);
    assert_eq!(s.emeralds, 85);
    s.record_mission(1, false, 100, true);
    assert_eq!(s.emeralds, 85);
    assert_eq!(s.completed, vec![0]);
    assert!(s.secrets_found.is_empty());
    assert_eq!(s.missions_played, 3);
    s.record_mission(3, true, 0, true);
    assert_eq!(s.secrets_found, vec![3]);
    // final mission unlocks the next tier
    s.record_mission(11, true, 0, false);
    assert_eq!(s.tier_unlocked, 1);
    assert!(s.select_tier(1));
    assert_eq!(s.tier, 1);
    assert!(!s.select_tier(2));
    assert_eq!(s.tier, 1);
    s.record_mission(11, true, 0, false);
    assert_eq!(s.tier_unlocked, 2);
    assert!(s.select_tier(2));
    s.record_mission(11, true, 0, false);
    assert_eq!(s.tier_unlocked, 2);
}

#[test]
fn ensure_players_adds_fresh_heroes() {
    let mut s = Save::new();
    s.ensure_players(2);
    assert_eq!(s.players.len(), 2);
    assert_eq!(s.players[1].skin, 1);
    assert_eq!(s.players[1].level, 1);
    s.ensure_players(1);
    assert_eq!(s.players.len(), 2);
}

#[test]
fn mission_table() {
    let m = mission(0);
    assert_eq!(m.name, "Creeper Woods");
    assert_eq!(m.biome, Biome::Forest);
    assert_eq!(m.threat, 2);
    assert!(m.boss.is_none());
    assert!(m.requires.is_empty());
    let m = mission(4);
    assert!(m.is_secret);
    assert_eq!(m.requires, vec![3]);
    let m = mission(15);
    assert_eq!(m.name, "Écho du Vide");
    assert_eq!(m.requires, vec![12, 13, 14]);
    assert_eq!(m.boss, Some(BossKind::VengefulHeart));
    assert_eq!(total_threat(11), 23);
    for id in 0..MISSION_COUNT {
        let m = mission(id);
        assert_eq!(m.id, id);
        for r in &m.requires {
            assert!(*r < id);
        }
    }
}

#[test]
fn runes_and_secrets() {
    assert_eq!(secret_unlocked_by_rune(3), Some(4));
    assert_eq!(secret_unlocked_by_rune(6), Some(7));
    assert_eq!(secret_unlocked_by_rune(0), None);
    assert_eq!(secret_unlocked_by_rune(4), None);
    for m in 0..MISSION_COUNT {
        if let Some(s) = secret_unlocked_by_rune(m) {
            assert!(mission(s).is_secret);
            assert_eq!(mission(s).requires, vec![m]);
        }
    }
}

#[test]
fn names_and_tables() {
    assert_eq!(Biome::Desert.display(), "Désert");
    assert_eq!(Biome::Void.display(), "Vide");
    assert_eq!(boss_name(0), None);
    assert_eq!(boss_name(3), Some("Chaudron Corrompu"));
    assert_eq!(boss_name(9), Some("la Garde Golem"));
    assert_eq!(BossKind::VengefulHeart.name_fr(), "Cœur d'Ender Vengeur");
    let f = biome_enemies(Biome::Forest);
    assert_eq!(f.len(), 6);
    assert_eq!(f[0], ("zombie", 6));
    assert_eq!(f[5], ("enderman", 1));
    let n = biome_enemies(Biome::Nether);
    assert_eq!(n.len(), 12);
    assert_eq!(n.iter().map(|t| t.1).sum::<u32>(), 29);
}

#[test]
fn mission_seeds() {
    let mut s = Save::new();
    assert_eq!(s.mission_seed(0), 123456789);
    assert_eq!(s.mission_seed(3), 123456789 + 3 * 7919);
    s.missions_played = 2;
    assert_eq!(s.mission_seed(3), 123456789 + 3 * 7919 + 2 * 104729);
    s.seed = u64::MAX;
    s.missions_played = 0;
    assert_eq!(s.mission_seed(1), 7918);
}

#[test]
fn hero_power_follows_first_hero() {
    let mut s = Save::new();
    assert_eq!(s.hero_power(), 2);
    s.players[0].inventory.melee.as_mut().unwrap().power = 9;
    assert_eq!(s.hero_power(), 9);
    s.players.clear();
    assert_eq!(s.hero_power(), 1);
}

#[test]
fn secret_mission_needs_completion_and_rune() {
    let mut a = Save::new();
    a.secrets_found.push(3);
    assert!(!a.is_unlocked(4));
    let mut b = Save::new();
    b.completed.push(3);
    b.secrets_found.push(3);
    assert!(b.is_unlocked(4));
    let mut c = Save::new();
    c.completed.push(3);
    assert!(!c.is_unlocked(4));
}
