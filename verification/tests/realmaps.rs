use mdungeons::missions::{mission, secret_unlocked_by_rune};
use mdungeons::realmaps::{build, lookup, mk_ground};
use mdungeons::missions::Biome;
use mdungeons::world::{Block, Decor, Level, Tile};

/// Cells reached from `start` by 4-neighbour steps through tiles that
/// `blocks` lets through (a blocking tile is reached but not left).
fn flood(lvl: &Level, start: (i32, i32), blocks: fn(&Tile) -> bool) -> Vec<bool> {
    let w = lvl.w as i32;
    let mut seen = vec![false; lvl.tiles.len()];
    let mut stack = vec![start];
    while let Some((x, y)) = stack.pop() {
        if x < 0 || y < 0 || x >= w || y >= lvl.h as i32 {
            continue;
        }
        let i = (y * w + x) as usize;
        if seen[i] {
            continue;
        }
        seen[i] = true;
        if blocks(&lvl.tiles[i]) {
            continue;
        }
        stack.push((x + 1, y));
        stack.push((x - 1, y));
        stack.push((x, y + 1));
        stack.push((x, y - 1));
    }
    seen
}

/// `p` or one of its 4 neighbours is reached and lets the heroes stand.
fn near_reached(lvl: &Level, seen: &[bool], p: (i32, i32), blocks: fn(&Tile) -> bool) -> bool {
    [(0, 0), (1, 0), (-1, 0), (0, 1), (0, -1)].iter().any(|(dx, dy)| {
        let (x, y) = (p.0 + dx, p.1 + dy);
        if x < 0 || y < 0 || x >= lvl.w as i32 || y >= lvl.h as i32 {
            return false;
        }
        let i = (y * lvl.w as i32 + x) as usize;
        seen[i] && !blocks(&lvl.tiles[i])
    })
}

/// The authored maps are connected (spawn -> arena without walls).
#[test]
fn realmaps_are_connected() {
    for id in 0..4 {
        let m = mission(id);
        let map = lookup(id).expect("carte réelle manquante");
        let lvl = build(&m, 42, &map);
        // flood fill from the spawn
        let w = lvl.w as i32;
        let start = (map.spawns.0, map.spawns.1);
        let mut seen = vec![false; lvl.tiles.len()];
        let mut stack = vec![start];
        while let Some((x, y)) = stack.pop() {
            if x < 0 || y < 0 || x >= w || y >= lvl.h as i32 {
                continue;
            }
            let i = (y as u32 * lvl.w + x as u32) as usize;
            if seen[i] {
                continue;
            }
            seen[i] = true;
            if lvl.tiles[i].solid() {
                continue;
            }
            stack.push((x + 1, y));
            stack.push((x - 1, y));
            stack.push((x, y + 1));
            stack.push((x, y - 1));
        }
        let reach = |p: (i32, i32)| -> bool {
            [[0i32, 0], [1, 0], [-1, 0], [0, 1], [0, -1]].iter().any(|d: &[i32; 2]| {
                let (dx, dy) = (d[0], d[1]);
                let (x, y) = (p.0 + dx, p.1 + dy);
                if x < 0 || y < 0 || x >= w || y >= lvl.h as i32 {
                    return false;
                }
                let i = (y as u32 * lvl.w + x as u32) as usize;
                seen[i] && !lvl.tiles[i].solid()
            })
        };
        assert!(reach((map.portal.0, map.portal.1 + 1)), "mission {} : portail inaccessible", id);
        for (i2, c) in map.captives.iter().enumerate() {
            assert!(reach(*c), "mission {} : captif {} inaccessible", id, i2);
        }
        if lvl.has_rune {
            assert!(reach(map.lever), "mission {} : levier inaccessible", id);
        }
        for (i2, g) in map.groups.iter().enumerate() {
            if let Some(p) = map.path.get(g.0) {
                assert!(reach(*p), "mission {} : groupe {} inaccessible", id, i2);
            }
        }
        assert!(!lvl.groups.is_empty());
        assert_eq!(lvl.has_rune, secret_unlocked_by_rune(id).is_some());
    }
}

#[test]
fn lookup_has_the_four_first_missions() {
    for id in 0..4 {
        assert!(lookup(id).is_some());
    }
    assert!(lookup(4).is_none());
    assert!(lookup(15).is_none());
    let cw = lookup(0).unwrap();
    assert_eq!(cw.path.len(), 12);
    assert_eq!(cw.path[0], (32, 62));
    assert_eq!(cw.portal, (32, 8));
    assert_eq!(cw.lever, (44, 30));
    assert_eq!(cw.groups[4], (10, 8));
}

#[test]
fn build_places_entities_and_groups() {
    let m = mission(3);
    let map = lookup(3).unwrap();
    let lvl = build(&m, 7, &map);
    assert_eq!((lvl.w, lvl.h), (76, 76));
    assert_eq!(lvl.tiles.len(), 76 * 76);
    assert!(lvl.has_rune);
    assert!(!lvl.secret_opened);
    assert!(!lvl.secret_tiles.is_empty());
    assert_eq!(lvl.spawns, vec![(65, 125)]);
    assert_eq!(lvl.boss_spawn, Some((65, 25)));
    assert_eq!(lvl.portal, Some(((65, 21), false)));
    assert_eq!(lvl.lever, Some((89, 53)));
    assert_eq!(lvl.groups.len(), map.groups.len() + 1);
    let last = lvl.groups.last().unwrap();
    assert_eq!(last.count, 8 + m.threat / 3);
    assert_eq!(last.kinds.len() as u32, last.count);
    assert_eq!(last.pos, (65, 34));
    assert_eq!(last.radius, 16);
    // portal tile holds the inactive portal
    assert_eq!(lvl.tiles[(10 * 76 + 32) as usize].decor, Some(Decor::Portal { active: false }));
    // captives sit in cages
    for c in &map.captives {
        let i = (c.1 * 76 + c.0) as usize;
        assert_eq!(lvl.tiles[i].decor, Some(Decor::Cage));
    }
    // the border ring keeps its walls
    for x in 0..76usize {
        assert!(lvl.tiles[x].wall > 0);
        assert!(lvl.tiles[75 * 76 + x].wall > 0);
    }
}

/// Solid decor can close a corridor: on the third map, seed 132 draws edge
/// cacti beside the ruin at (39, 30), and the arena is cut off on foot,
/// though no wall closes the way.
#[test]
fn edge_decor_can_close_the_ruined_corridor() {
    let m = mission(2);
    let map = lookup(2).unwrap();
    let lvl = build(&m, 132, &map);
    assert_eq!(lvl.tiles[30 * 76 + 39].decor, Some(Decor::Ruin));
    assert!(lvl.tiles[31 * 76 + 38].solid());
    assert!(lvl.tiles[29 * 76 + 40].solid());
    let front = (map.portal.0, map.portal.1 + 1);
    let solid: fn(&Tile) -> bool = |t| t.solid();
    let walled: fn(&Tile) -> bool = |t| t.wall > 0;
    let on_foot = flood(&lvl, map.spawns, solid);
    assert!(!near_reached(&lvl, &on_foot, front, solid));
    let wall_free = flood(&lvl, map.spawns, walled);
    assert!(near_reached(&lvl, &wall_free, front, walled));
    // with the seed of the connectivity test the same map is connected
    let lvl = build(&m, 42, &map);
    let on_foot = flood(&lvl, map.spawns, solid);
    assert!(near_reached(&lvl, &on_foot, front, solid));
}

#[test]
fn build_skips_groups_on_missing_waypoints() {
    let m = mission(1);
    let mut map = lookup(1).unwrap();
    let n = map.groups.len();
    let far = map.path.len();
    map.groups.insert(1, (far, 4));
    map.groups.push((far + 10, 3));
    let lvl = build(&m, 11, &map);
    // only the groups on existing waypoints, then the arena guard
    assert_eq!(lvl.groups.len(), n + 1);
    let (wi, count) = map.groups[2];
    let p = map.path[wi];
    assert_eq!(lvl.groups[1].pos, (2 * p.0 + 1, 2 * p.1 + 1));
    assert_eq!(lvl.groups[1].count, count);
    assert_eq!(lvl.groups.last().unwrap().count, 8 + m.threat / 3);
}

#[test]
fn build_is_deterministic_for_a_seed() {
    let m = mission(0);
    let map = lookup(0).unwrap();
    let a = build(&m, 5, &map);
    let b = build(&m, 5, &map);
    assert!(a.tiles == b.tiles);
    assert_eq!(a.groups.len(), b.groups.len());
    for (g, h) in a.groups.iter().zip(b.groups.iter()) {
        assert_eq!(g.kinds, h.kinds);
    }
    assert!(!a.has_rune);
    assert!(a.secret_tiles.is_empty());
}

#[test]
fn open_secret_clears_the_secret_walls() {
    let m = mission(6);
    let map = lookup(3).unwrap();
    let mut lvl = build(&m, 1, &map);
    assert!(lvl.has_rune);
    let secret = lvl.secret_tiles.clone();
    let before = lvl.tiles.clone();
    lvl.open_secret();
    assert!(lvl.secret_opened);
    for (i, t) in lvl.tiles.iter().enumerate() {
        if secret.contains(&i) {
            assert_eq!(t.wall, 0);
        } else {
            assert_eq!(t.wall, before[i].wall);
        }
    }
    let snapshot = lvl.tiles.clone();
    lvl.open_secret();
    assert!(lvl.tiles == snapshot);
}

#[test]
fn mk_ground_uses_the_position_hash() {
    // h(0, 0) = 0 -> secondary ground (0 % 100 < 18)
    assert_eq!(mk_ground(Biome::Canyon, 0, 0), Block::Sand);
    assert_eq!(mk_ground(Biome::Forest, 0, 0), Block::Podzol);
    // h(1, 0) = 73856093 -> 93 -> main ground
    assert_eq!(mk_ground(Biome::Canyon, 1, 0), Block::RedSand);
    assert_eq!(mk_ground(Biome::Swamp, 1, 0), Block::Mud);
    assert_eq!(mk_ground(Biome::Nether, 1, 0), Block::Netherrack);
}

#[test]
fn level_idx_checks_bounds() {
    let m = mission(1);
    let map = lookup(1).unwrap();
    let lvl = build(&m, 3, &map);
    assert_eq!(lvl.idx(0, 0), Some(0));
    assert_eq!(lvl.idx(75, 75), Some(75 * 76 + 75));
    assert_eq!(lvl.idx(3, 2), Some(2 * 76 + 3));
    assert_eq!(lvl.idx(-1, 0), None);
    assert_eq!(lvl.idx(76, 0), None);
    assert_eq!(lvl.idx(0, 76), None);
    assert!(lvl.canopy_biome());
    let r = lvl.secret_room_bounds();
    assert_eq!((r.x, r.y, r.w, r.h), (0, 0, 0, 0));
}

#[test]
fn authored_secret_room_has_49_tiles() {
    for id in 0..4 {
        let m = mission(id);
        let map = lookup(id).unwrap();
        let lvl = build(&m, 42, &map);
        assert_eq!(lvl.secret_tiles.len(), if lvl.has_rune { 49 } else { 0 });
    }
    let lvl = build(&mission(3), 42, &lookup(3).unwrap());
    assert!(lvl.has_rune);
}
