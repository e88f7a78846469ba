use mdungeons::gen::{biome_palette, generate};
use mdungeons::missions::{biome_enemies, mission, Biome};
use mdungeons::world::{Block, Decor};

#[test]
fn generated_level_is_deterministic() {
    let m = mission(0);
    let a = generate(&m, 1234);
    let b = generate(&m, 1234);
    assert_eq!(a.tiles, b.tiles);
    assert_eq!(a.portal, b.portal);
    assert_eq!(a.chests, b.chests);
    assert_eq!(a.captives, b.captives);
    assert_eq!(a.groups.len(), b.groups.len());
    for (x, y) in a.groups.iter().zip(b.groups.iter()) {
        assert_eq!(x.pos, y.pos);
        assert_eq!(x.kinds, y.kinds);
    }
    let c = generate(&m, 1235);
    assert_ne!(a.tiles, c.tiles);
}

#[test]
fn generated_level_layout() {
    for id in 0..16 {
        let m = mission(id);
        let lvl = generate(&m, 42 + id as u64);
        assert_eq!((lvl.w, lvl.h), (76, 76));
        assert_eq!(lvl.tiles.len(), 76 * 76);
        assert_eq!(lvl.biome, m.biome);
        // heroes start side by side south of the map
        assert_eq!(lvl.spawns, vec![(75, 137), (79, 137)]);
        // exit portal north of the arena (row 6), arena centre on row 10
        let ((px, py), active) = lvl.portal.unwrap();
        assert!(!active);
        assert_eq!(py, 12);
        assert!(px % 2 == 1 && (9..=143).contains(&px));
        let ax = (px - 1) / 2;
        assert_eq!(lvl.tiles[6 * 76 + ax as usize].decor, Some(Decor::Portal { active: false }));
        match m.boss {
            Some(_) => assert_eq!(lvl.boss_spawn, Some((px, 21))),
            None => assert_eq!(lvl.boss_spawn, None),
        }
        // the border ring stays walled
        for i in 0..76 {
            assert!(lvl.tiles[i].wall > 0);
            assert!(lvl.tiles[75 * 76 + i].wall > 0);
            assert!(lvl.tiles[i * 76].wall > 0);
            assert!(lvl.tiles[i * 76 + 75].wall > 0);
        }
        assert!(lvl.captives.len() <= 3);
        assert!(!lvl.secret_opened);
    }
}

#[test]
fn generated_secret_room() {
    for id in [3usize, 6] {
        let lvl = generate(&mission(id), 7);
        assert!(lvl.has_rune);
        assert!(lvl.lever.is_some());
        assert_eq!(lvl.secret_tiles.len(), 10);
        assert!(lvl.secret_tiles.iter().all(|&i| i < lvl.tiles.len()));
        assert_eq!(lvl.tiles.iter().filter(|t| t.decor == Some(Decor::Rune { taken: false })).count(), 1);
    }
    let lvl = generate(&mission(0), 7);
    assert!(!lvl.has_rune);
    assert!(lvl.lever.is_none());
    assert!(lvl.secret_tiles.is_empty());
}

#[test]
fn generated_groups() {
    for id in [0usize, 2, 7, 11] {
        let m = mission(id);
        let lvl = generate(&m, 99);
        let table: Vec<&str> = biome_enemies(m.biome).iter().map(|e| e.0).collect();
        let base = 4 + (m.threat / 5).min(5);
        for (k, g) in lvl.groups.iter().enumerate() {
            assert_eq!(g.radius, 16);
            assert!(!g.activated);
            assert_eq!(g.kinds.len() as u32, g.count);
            let arena_group = m.boss.is_none() && k + 1 == lvl.groups.len() && g.count == 8 + m.threat / 3;
            assert!(arena_group || (base..=base + 2).contains(&g.count));
            for kind in &g.kinds {
                assert!(table.contains(&kind.as_str()));
            }
        }
    }
}

#[test]
fn palettes() {
    let p = biome_palette(Biome::Forest);
    assert_eq!(p.grounds, vec![(Block::Grass, 8), (Block::Podzol, 2), (Block::Moss, 2), (Block::Dirt, 2)]);
    assert_eq!(p.wall, Block::Log);
    // tree 0.10, rock 0.02, bush 0.10, scaled by 2^24
    assert_eq!((p.tree_roll, p.rock_roll, p.bush_roll), (1677722, 2013266, 3690988));
    let p = biome_palette(Biome::Nether);
    assert_eq!(p.wall, Block::NetherBrick);
    assert_eq!(p.tree_roll, 0);
    assert_eq!(p.grounds.len(), 3);
}

#[test]
fn generated_secret_corridor_and_groups() {
    for id in 0..16 {
        let m = mission(id);
        let lvl = generate(&m, 42);
        assert_eq!(lvl.secret_tiles.len(), if lvl.has_rune { 10 } else { 0 });
        let c = 4 + (m.threat / 5).min(5);
        match m.boss {
            Some(_) => assert!(lvl.groups.iter().all(|g| c <= g.count && g.count <= c + 2)),
            None => {
                let (last, rest) = lvl.groups.split_last().unwrap();
                assert_eq!(last.count, 8 + m.threat / 3);
                assert!(rest.iter().all(|g| c <= g.count && g.count <= c + 2));
            }
        }
    }
}
