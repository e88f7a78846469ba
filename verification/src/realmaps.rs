//! Authored mission maps: fixed layouts (main path waypoints, landmarks,
//! entity positions, enemy groups), the same at every run.

use vstd::prelude::*;
use crate::missions::{
    biome_enemies, secret_unlocked_by_rune, spec_biome_enemies, spec_secret_unlocked_by_rune, Biome,
    MissionDef,
};
use crate::rng::{seeded_ratio, seeded_rng, seeded_roll_below};
use crate::world::{Block, Decor, Level, SpawnGroup, Tile};

verus! {

/// Kind of an authored landmark.
#[derive(Clone, Copy, PartialEq, Eq, Debug, Structural)]
pub enum Lm {
    /// Round clearing of radius r
    Clearing(i32),
    /// Plank house (w × h, door to the south)
    House(i32, i32),
    /// Horizontal river of half-width r across the map, bridged on the path
    River(i32),
    /// Pumpkin field (w × h)
    Field(i32, i32),
    /// Ring of broken walls of radius 4
    Ruins,
    /// Fire bowl
    Campfire,
}

/// An authored landmark placed on the grid.
#[derive(Clone, Copy, PartialEq, Eq, Debug, Structural)]
pub struct Landmark {
    pub x: i32,
    pub y: i32,
    pub kind: Lm,
}

pub struct RealMap {
    /// waypoints (x, y) of the main path, from the spawn (south) to the arena (north)
    pub path: Vec<(i32, i32)>,
    pub landmarks: Vec<Landmark>,
    pub spawns: (i32, i32),
    pub arena: (i32, i32),
    pub portal: (i32, i32),
    pub captives: Vec<(i32, i32)>,
    pub chests: Vec<(i32, i32)>,
    pub lever: (i32, i32),
    /// enemy groups: (waypoint index, size)
    pub groups: Vec<(usize, u32)>,
}

/// Number of missions with an authored map (missions 0..4).
pub const REAL_MAP_COUNT: usize = 4;

pub open spec fn map_path(id: int) -> Seq<(i32, i32)> {
    if id == 0 { seq![(32i32, 62i32), (32i32, 56i32), (26i32, 52i32), (22i32, 46i32), (26i32, 41i32), (34i32, 38i32), (40i32, 34i32), (38i32, 27i32), (30i32, 24i32), (24i32, 20i32), (28i32, 14i32), (32i32, 10i32)] }
    else if id == 1 { seq![(32i32, 62i32), (30i32, 57i32), (36i32, 53i32), (40i32, 48i32), (36i32, 43i32), (28i32, 40i32), (24i32, 35i32), (30i32, 30i32), (38i32, 26i32), (32i32, 20i32), (30i32, 12i32)] }
    else if id == 2 { seq![(32i32, 62i32), (34i32, 56i32), (30i32, 51i32), (24i32, 47i32), (26i32, 41i32), (34i32, 37i32), (40i32, 32i32), (36i32, 26i32), (28i32, 22i32), (30i32, 15i32), (32i32, 11i32)] }
    else { seq![(32i32, 62i32), (28i32, 57i32), (24i32, 52i32), (30i32, 47i32), (38i32, 44i32), (40i32, 38i32), (34i32, 33i32), (26i32, 30i32), (22i32, 24i32), (28i32, 18i32), (32i32, 12i32)] }
}

pub open spec fn map_landmarks(id: int) -> Seq<Landmark> {
    if id == 0 { seq![Landmark { x: 32, y: 62, kind: Lm::Clearing(5) }, Landmark { x: 24, y: 48, kind: Lm::River(2) }, Landmark { x: 34, y: 38, kind: Lm::Clearing(5) }, Landmark { x: 30, y: 24, kind: Lm::Clearing(5) }, Landmark { x: 40, y: 22, kind: Lm::House(5, 4) }, Landmark { x: 22, y: 16, kind: Lm::House(5, 4) }, Landmark { x: 32, y: 10, kind: Lm::Clearing(8) }] }
    else if id == 1 { seq![Landmark { x: 32, y: 62, kind: Lm::Clearing(5) }, Landmark { x: 40, y: 54, kind: Lm::Field(7, 5) }, Landmark { x: 22, y: 44, kind: Lm::Field(6, 5) }, Landmark { x: 30, y: 30, kind: Lm::Clearing(5) }, Landmark { x: 42, y: 22, kind: Lm::House(5, 4) }, Landmark { x: 30, y: 12, kind: Lm::Clearing(8) }] }
    else if id == 2 { seq![Landmark { x: 32, y: 62, kind: Lm::Clearing(5) }, Landmark { x: 20, y: 50, kind: Lm::Ruins }, Landmark { x: 34, y: 37, kind: Lm::Clearing(6) }, Landmark { x: 42, y: 28, kind: Lm::Ruins }, Landmark { x: 32, y: 11, kind: Lm::Clearing(9) }] }
    else { seq![Landmark { x: 32, y: 62, kind: Lm::Clearing(5) }, Landmark { x: 26, y: 55, kind: Lm::River(2) }, Landmark { x: 38, y: 41, kind: Lm::River(2) }, Landmark { x: 34, y: 33, kind: Lm::Clearing(6) }, Landmark { x: 18, y: 30, kind: Lm::Ruins }, Landmark { x: 32, y: 12, kind: Lm::Clearing(9) }] }
}

pub open spec fn map_spawns(id: int) -> (i32, i32) {
    if id == 0 { (32i32, 62i32) }
    else if id == 1 { (32i32, 62i32) }
    else if id == 2 { (32i32, 62i32) }
    else { (32i32, 62i32) }
}

pub open spec fn map_arena(id: int) -> (i32, i32) {
    if id == 0 { (32i32, 10i32) }
    else if id == 1 { (30i32, 12i32) }
    else if id == 2 { (32i32, 11i32) }
    else { (32i32, 12i32) }
}

pub open spec fn map_portal(id: int) -> (i32, i32) {
    if id == 0 { (32i32, 8i32) }
    else if id == 1 { (30i32, 10i32) }
    else if id == 2 { (32i32, 9i32) }
    else { (32i32, 10i32) }
}

pub open spec fn map_lever(id: int) -> (i32, i32) {
    if id == 0 { (44i32, 30i32) }
    else if id == 1 { (44i32, 36i32) }
    else if id == 2 { (14i32, 40i32) }
    else { (44i32, 26i32) }
}

pub open spec fn map_captives(id: int) -> Seq<(i32, i32)> {
    if id == 0 { seq![(35i32, 39i32), (32i32, 37i32), (38i32, 36i32)] }
    else if id == 1 { seq![(39i32, 49i32), (25i32, 41i32), (31i32, 29i32)] }
    else if id == 2 { seq![(31i32, 38i32), (36i32, 36i32), (25i32, 44i32)] }
    else { seq![(31i32, 48i32), (37i32, 45i32), (27i32, 31i32)] }
}

pub open spec fn map_chests(id: int) -> Seq<(i32, i32)> {
    if id == 0 { seq![(20i32, 47i32), (41i32, 33i32), (26i32, 15i32)] }
    else if id == 1 { seq![(43i32, 53i32), (21i32, 34i32), (35i32, 27i32)] }
    else if id == 2 { seq![(23i32, 49i32), (43i32, 31i32), (31i32, 24i32)] }
    else { seq![(20i32, 53i32), (42i32, 39i32), (19i32, 31i32)] }
}

pub open spec fn map_groups(id: int) -> Seq<(usize, u32)> {
    if id == 0 { seq![(2usize, 6u32), (4usize, 6u32), (6usize, 7u32), (8usize, 7u32), (10usize, 8u32)] }
    else if id == 1 { seq![(2usize, 6u32), (4usize, 7u32), (6usize, 7u32), (8usize, 8u32), (10usize, 8u32)] }
    else if id == 2 { seq![(2usize, 7u32), (4usize, 7u32), (6usize, 8u32), (8usize, 8u32), (10usize, 9u32)] }
    else { seq![(2usize, 7u32), (4usize, 8u32), (6usize, 8u32), (8usize, 9u32), (10usize, 9u32)] }
}

/// The authored map of a mission, if it has one.
pub fn lookup(mission_id: usize) -> (r: Option<RealMap>)
    ensures
        r is Some == (mission_id < REAL_MAP_COUNT),
        r matches Some(m) ==> {
            let id = mission_id as int;
            &&& m.path@ == map_path(id)
            &&& m.landmarks@ == map_landmarks(id)
            &&& m.spawns == map_spawns(id)
            &&& m.arena == map_arena(id)
            &&& m.portal == map_portal(id)
            &&& m.captives@ == map_captives(id)
            &&& m.chests@ == map_chests(id)
            &&& m.lever == map_lever(id)
            &&& m.groups@ == map_groups(id)
            &&& m.well_formed()
            &&& m.laid_out_inside()
            &&& mission_id != 2 ==> secret_room_apart(m)
            &&& captives_apart(m)
            &&& chests_apart(m)
        },
{
    match mission_id {
        0 => Some(RealMap {
            path: vec![(32i32, 62i32), (32i32, 56i32), (26i32, 52i32), (22i32, 46i32), (26i32, 41i32), (34i32, 38i32), (40i32, 34i32), (38i32, 27i32), (30i32, 24i32), (24i32, 20i32), (28i32, 14i32), (32i32, 10i32)],
            landmarks: vec![Landmark { x: 32, y: 62, kind: Lm::Clearing(5) }, Landmark { x: 24, y: 48, kind: Lm::River(2) }, Landmark { x: 34, y: 38, kind: Lm::Clearing(5) }, Landmark { x: 30, y: 24, kind: Lm::Clearing(5) }, Landmark { x: 40, y: 22, kind: Lm::House(5, 4) }, Landmark { x: 22, y: 16, kind: Lm::House(5, 4) }, Landmark { x: 32, y: 10, kind: Lm::Clearing(8) }],
            spawns: (32, 62),
            arena: (32, 10),
            portal: (32, 8),
            captives: vec![(35i32, 39i32), (32i32, 37i32), (38i32, 36i32)],
            chests: vec![(20i32, 47i32), (41i32, 33i32), (26i32, 15i32)],
            lever: (44, 30),
            groups: vec![(2usize, 6u32), (4usize, 6u32), (6usize, 7u32), (8usize, 7u32), (10usize, 8u32)],
        }),
        1 => Some(RealMap {
            path: vec![(32i32, 62i32), (30i32, 57i32), (36i32, 53i32), (40i32, 48i32), (36i32, 43i32), (28i32, 40i32), (24i32, 35i32), (30i32, 30i32), (38i32, 26i32), (32i32, 20i32), (30i32, 12i32)],
            landmarks: vec![Landmark { x: 32, y: 62, kind: Lm::Clearing(5) }, Landmark { x: 40, y: 54, kind: Lm::Field(7, 5) }, Landmark { x: 22, y: 44, kind: Lm::Field(6, 5) }, Landmark { x: 30, y: 30, kind: Lm::Clearing(5) }, Landmark { x: 42, y: 22, kind: Lm::House(5, 4) }, Landmark { x: 30, y: 12, kind: Lm::Clearing(8) }],
            spawns: (32, 62),
            arena: (30, 12),
            portal: (30, 10),
            captives: vec![(39i32, 49i32), (25i32, 41i32), (31i32, 29i32)],
            chests: vec![(43i32, 53i32), (21i32, 34i32), (35i32, 27i32)],
            lever: (44, 36),
            groups: vec![(2usize, 6u32), (4usize, 7u32), (6usize, 7u32), (8usize, 8u32), (10usize, 8u32)],
        }),
        2 => Some(RealMap {
            path: vec![(32i32, 62i32), (34i32, 56i32), (30i32, 51i32), (24i32, 47i32), (26i32, 41i32), (34i32, 37i32), (40i32, 32i32), (36i32, 26i32), (28i32, 22i32), (30i32, 15i32), (32i32, 11i32)],
            landmarks: vec![Landmark { x: 32, y: 62, kind: Lm::Clearing(5) }, Landmark { x: 20, y: 50, kind: Lm::Ruins }, Landmark { x: 34, y: 37, kind: Lm::Clearing(6) }, Landmark { x: 42, y: 28, kind: Lm::Ruins }, Landmark { x: 32, y: 11, kind: Lm::Clearing(9) }],
            spawns: (32, 62),
            arena: (32, 11),
            portal: (32, 9),
            captives: vec![(31i32, 38i32), (36i32, 36i32), (25i32, 44i32)],
            chests: vec![(23i32, 49i32), (43i32, 31i32), (31i32, 24i32)],
            lever: (14, 40),
            groups: vec![(2usize, 7u32), (4usize, 7u32), (6usize, 8u32), (8usize, 8u32), (10usize, 9u32)],
        }),
        3 => Some(RealMap {
            path: vec![(32i32, 62i32), (28i32, 57i32), (24i32, 52i32), (30i32, 47i32), (38i32, 44i32), (40i32, 38i32), (34i32, 33i32), (26i32, 30i32), (22i32, 24i32), (28i32, 18i32), (32i32, 12i32)],
            landmarks: vec![Landmark { x: 32, y: 62, kind: Lm::Clearing(5) }, Landmark { x: 26, y: 55, kind: Lm::River(2) }, Landmark { x: 38, y: 41, kind: Lm::River(2) }, Landmark { x: 34, y: 33, kind: Lm::Clearing(6) }, Landmark { x: 18, y: 30, kind: Lm::Ruins }, Landmark { x: 32, y: 12, kind: Lm::Clearing(9) }],
            spawns: (32, 62),
            arena: (32, 12),
            portal: (32, 10),
            captives: vec![(31i32, 48i32), (37i32, 45i32), (27i32, 31i32)],
            chests: vec![(20i32, 53i32), (42i32, 39i32), (19i32, 31i32)],
            lever: (44, 26),
            groups: vec![(2usize, 7u32), (4usize, 8u32), (6usize, 8u32), (8usize, 9u32), (10usize, 9u32)],
        }),
        _ => None,
    }
}

/// Position hash deciding where the biome's secondary ground appears.
pub open spec fn ground_hash(x: i32, y: i32) -> u32 {
    (vstd::wrapping::u32_specs::wrapping_mul(x as u32, 73856093u32) ^ vstd::wrapping::u32_specs::wrapping_mul(y as u32, 19349663u32)) as u32
}

/// Ground block of an authored map: the biome's main ground, or its
/// secondary ground on 18 % of the positions (by position hash).
pub open spec fn spec_mk_ground(biome: Biome, x: i32, y: i32) -> Block {
    if ground_hash(x, y) % 100 < 18 {
        match biome {
            Biome::Canyon => Block::Sand,
            Biome::Swamp => Block::Grass,
            Biome::Mines => Block::Stone,
            Biome::Desert => Block::Sandstone,
            Biome::Nether => Block::SoulSand,
            _ => Block::Podzol,
        }
    } else {
        match biome {
            Biome::Canyon => Block::RedSand,
            Biome::Swamp => Block::Mud,
            Biome::Mines => Block::Deepslate,
            Biome::Desert => Block::Sand,
            Biome::Nether => Block::Netherrack,
            _ => Block::Grass,
        }
    }
}

/// Ground block of an authored map at (x, y).
pub fn mk_ground(biome: Biome, x: i32, y: i32) -> (b: Block)
    ensures
        b == spec_mk_ground(biome, x, y),
{
    let g = match biome {
        Biome::Canyon => Block::RedSand,
        Biome::Swamp => Block::Mud,
        Biome::Mines => Block::Deepslate,
        Biome::Desert => Block::Sand,
        Biome::Nether => Block::Netherrack,
        _ => Block::Grass,
    };
    let h = (x as u32).wrapping_mul(73856093) ^ (y as u32).wrapping_mul(19349663);
    if h % 100 < 18 {
        match biome {
            Biome::Canyon => Block::Sand,
            Biome::Swamp => Block::Grass,
            Biome::Mines => Block::Stone,
            Biome::Desert => Block::Sandstone,
            Biome::Nether => Block::SoulSand,
            _ => Block::Podzol,
        }
    } else {
        g
    }
}

// ----------------------------------------------------------------------
// Level building
// ----------------------------------------------------------------------

/// Tiles in a level grid (76 × 76).
pub const GRID_LEN: usize = 5776;

/// Row-major index of (x, y) in the 76-wide grid.
pub open spec fn cell(x: int, y: int) -> int {
    y * 76 + x
}

/// Inside the grid.
pub open spec fn in_grid(x: int, y: int) -> bool {
    0 <= x < 76 && 0 <= y < 76
}

/// Inside the grid, off its border ring.
pub open spec fn in_interior(x: int, y: int) -> bool {
    0 < x < 75 && 0 < y < 75
}

/// p and q are 4-neighbours.
pub open spec fn adjacent(p: (int, int), q: (int, int)) -> bool {
    ||| p.0 == q.0 && (p.1 == q.1 + 1 || q.1 == p.1 + 1)
    ||| p.1 == q.1 && (p.0 == q.0 + 1 || q.0 == p.0 + 1)
}

/// Cell p is in the grid and has no wall.
pub open spec fn open_cell(t: Seq<Tile>, p: (int, int)) -> bool {
    in_grid(p.0, p.1) && t[cell(p.0, p.1)].wall == 0
}

/// `w` is a walk through open cells, each a 4-neighbour of the one before.
pub open spec fn open_walk(t: Seq<Tile>, w: Seq<(int, int)>) -> bool {
    &&& w.len() >= 1
    &&& forall|i: int| 0 <= i < w.len() ==> open_cell(t, #[trigger] w[i])
    &&& forall|i: int| 0 <= i < w.len() - 1 ==> adjacent(#[trigger] w[i], w[i + 1])
}

/// Every tile without a wall in `a` has none in `b`.
pub open spec fn walls_kept(a: Seq<Tile>, b: Seq<Tile>) -> bool {
    &&& b.len() == a.len()
    &&& forall|j: int| 0 <= j < a.len() && (#[trigger] a[j]).wall == 0 ==> b[j].wall == 0
}

/// A walk through open cells stays open when no wall is added.
pub proof fn lemma_walk_kept(a: Seq<Tile>, b: Seq<Tile>, w: Seq<(int, int)>)
    requires
        a.len() == GRID_LEN,
        open_walk(a, w),
        walls_kept(a, b),
    ensures
        open_walk(b, w),
{
    assert forall|i: int| 0 <= i < w.len() implies open_cell(b, #[trigger] w[i]) by {
        assert(open_cell(a, w[i]));
        assert(0 <= cell(w[i].0, w[i].1) < GRID_LEN);
    }
}

/// Adding no wall twice adds no wall.
pub proof fn lemma_walls_kept_trans(a: Seq<Tile>, b: Seq<Tile>, c: Seq<Tile>)
    requires
        walls_kept(a, b),
        walls_kept(b, c),
    ensures
        walls_kept(a, c),
{
}

/// Offset (dx, dy) lies in the carving disk of radius r.
pub open spec fn in_disk(dx: int, dy: int, r: int) -> bool {
    -r <= dx <= r && -r <= dy <= r && dx * dx + dy * dy <= r * r + 1
}

/// An open tile of an authored map: biome ground, no wall, no decor.
pub open spec fn open_tile(biome: Biome, wall_block: Block, x: int, y: int) -> Tile {
    Tile { ground: spec_mk_ground(biome, x as i32, y as i32), wall: 0, wall_block, decor: None }
}

/// The full grid before carving: biome ground under a two-block wall everywhere.
fn fill_grid(biome: Biome, wall_block: Block) -> (tiles: Vec<Tile>)
    ensures
        tiles@.len() == GRID_LEN,
        forall|x: int, y: int|
            in_grid(x, y) ==> #[trigger] tiles@[cell(x, y)] == (Tile {
                ground: spec_mk_ground(biome, x as i32, y as i32),
                wall: 2,
                wall_block,
                decor: None,
            }),
{
    let mut tiles: Vec<Tile> = Vec::new();
    let mut y: i32 = 0;
    while y < 76
        invariant
            0 <= y <= 76,
            tiles@.len() == y * 76,
            forall|xx: int, yy: int|
                0 <= xx < 76 && 0 <= yy < y ==> #[trigger] tiles@[cell(xx, yy)] == (Tile {
                    ground: spec_mk_ground(biome, xx as i32, yy as i32),
                    wall: 2,
                    wall_block,
                    decor: None,
                }),
        decreases 76 - y,
    {
        let mut x: i32 = 0;
        while x < 76
            invariant
                0 <= x <= 76,
                0 <= y < 76,
                tiles@.len() == y * 76 + x,
                forall|xx: int, yy: int|
                    0 <= xx < 76 && 0 <= yy < 76 && cell(xx, yy) < y * 76 + x ==> #[trigger] tiles@[cell(xx, yy)]
                        == (Tile {
                        ground: spec_mk_ground(biome, xx as i32, yy as i32),
                        wall: 2,
                        wall_block,
                        decor: None,
                    }),
            decreases 76 - x,
        {
            tiles.push(Tile { ground: mk_ground(biome, x, y), wall: 2, wall_block, decor: None });
            x += 1;
        }
        y += 1;
    }
    tiles
}

/// Opens a disk of radius r around (x, y): every interior tile within it
/// becomes an open tile; the border ring is never touched.
fn carve(tiles: &mut Vec<Tile>, biome: Biome, wall_block: Block, x: i32, y: i32, r: i32)
    requires
        old(tiles)@.len() == GRID_LEN,
        -20_000 <= x <= 20_000,
        -20_000 <= y <= 20_000,
        0 <= r <= 46340,
    ensures
        final(tiles)@.len() == GRID_LEN,
        forall|xx: int, yy: int|
            in_grid(xx, yy) ==> #[trigger] final(tiles)@[cell(xx, yy)] == if in_interior(xx, yy) && in_disk(
                xx - x,
                yy - y,
                r as int,
            ) {
                open_tile(biome, wall_block, xx, yy)
            } else {
                old(tiles)@[cell(xx, yy)]
            },
        walls_kept(old(tiles)@, final(tiles)@),
{
    let mut dy: i32 = -r;
    while dy <= r
        invariant
            -r <= dy <= r + 1,
            0 <= r <= 46340,
            -20_000 <= x <= 20_000,
            -20_000 <= y <= 20_000,
            tiles@.len() == GRID_LEN,
            forall|xx: int, yy: int|
                in_grid(xx, yy) ==> #[trigger] tiles@[cell(xx, yy)] == if in_interior(xx, yy) && in_disk(
                    xx - x,
                    yy - y,
                    r as int,
                ) && yy - y < dy {
                    open_tile(biome, wall_block, xx, yy)
                } else {
                    old(tiles)@[cell(xx, yy)]
                },
        decreases r + 1 - dy,
    {
        let mut dx: i32 = -r;
        while dx <= r
            invariant
                -r <= dx <= r + 1,
                -r <= dy <= r,
                0 <= r <= 46340,
                -20_000 <= x <= 20_000,
                -20_000 <= y <= 20_000,
                tiles@.len() == GRID_LEN,
                forall|xx: int, yy: int|
                    in_grid(xx, yy) ==> #[trigger] tiles@[cell(xx, yy)] == if in_interior(xx, yy) && in_disk(
                        xx - x,
                        yy - y,
                        r as int,
                    ) && (yy - y < dy || (yy - y == dy && xx - x < dx)) {
                        open_tile(biome, wall_block, xx, yy)
                    } else {
                        old(tiles)@[cell(xx, yy)]
                    },
            decreases r + 1 - dx,
        {
            let xx = x + dx;
            let yy = y + dy;
            if !(xx <= 0 || yy <= 0 || xx >= 75 || yy >= 75) {
                assert(0 <= dx * dx <= 500_000_000 && 0 <= dy * dy <= 500_000_000 && 0 <= r * r <= 2_147_395_600) by (nonlinear_arith)
                    requires
                        -20_100 <= dx <= 20_100,
                        -20_100 <= dy <= 20_100,
                        0 <= r <= 46340,
                ;
                if dx * dx + dy * dy <= r * r + 1 {
                    let t = Tile { ground: mk_ground(biome, xx, yy), wall: 0, wall_block, decor: None };
                    tiles.set((yy * 76 + xx) as usize, t);
                    assert(xx - x == dx && yy - y == dy);
                }
            }
            dx += 1;
        }
        dy += 1;
    }
    proof {
        let t = tiles@;
        let o = old(tiles)@;
        assert forall|j: int| 0 <= j < o.len() && (#[trigger] o[j]).wall == 0 implies t[j].wall == 0 by {
            let xx = j % 76;
            let yy = j / 76;
            assert(in_grid(xx, yy) && cell(xx, yy) == j);
        }
    }
}

/// Coordinates small enough for every computation of `build` in `i32`: a
/// corridor from one such point to another steps through at most 64000
/// points, and its `(x1 - x0) * step` stays below 2^31.
pub open spec fn coord_ok(p: (i32, i32)) -> bool {
    -16000 <= p.0 <= 16000 && -16000 <= p.1 <= 16000
}

/// A landmark that `build` can lay: its centre satisfies `coord_ok`; a
/// clearing's radius is at most 46340, the largest for which the disk test
/// `dx * dx + dy * dy <= r * r + 1` stays within `i32`; houses, fields and
/// rivers span at most 10^6 cells, a bound of this library that keeps its
/// loop counters and sums well inside `i32` (no authored map comes near).
pub open spec fn landmark_ok(l: Landmark) -> bool {
    &&& coord_ok((l.x, l.y))
    &&& match l.kind {
        Lm::Clearing(r) => 0 <= r <= 46340,
        Lm::House(w, h) => 0 <= w <= 1_000_000 && 0 <= h <= 1_000_000,
        Lm::River(r) => 0 <= r <= 1_000_000,
        Lm::Field(w, h) => 0 <= w <= 1_000_000 && 0 <= h <= 1_000_000,
        _ => true,
    }
}

impl RealMap {
    /// The map can be built: a non-empty path, and coordinates and sizes
    /// small enough for the arithmetic of `build`.
    pub open spec fn well_formed(&self) -> bool {
        &&& 1 <= self.path@.len()
        &&& forall|i: int| 0 <= i < self.path@.len() ==> coord_ok(#[trigger] self.path@[i])
        &&& forall|i: int| 0 <= i < self.landmarks@.len() ==> landmark_ok(#[trigger] self.landmarks@[i])
        &&& forall|i: int| 0 <= i < self.captives@.len() ==> coord_ok(#[trigger] self.captives@[i])
        &&& forall|i: int| 0 <= i < self.chests@.len() ==> coord_ok(#[trigger] self.chests@[i])
        &&& coord_ok(self.spawns)
        &&& coord_ok(self.arena)
        &&& coord_ok(self.portal)
        &&& coord_ok(self.lever)
    }
}

/// Centre of tile p, in half tiles.
pub open spec fn half(p: (i32, i32)) -> (i32, i32) {
    ((2 * p.0 + 1) as i32, (2 * p.1 + 1) as i32)
}

fn half_of(p: (i32, i32)) -> (r: (i32, i32))
    requires
        coord_ok(p),
    ensures
        r == half(p),
{
    (2 * p.0 + 1, 2 * p.1 + 1)
}

/// Index that `y as u32 * 76 + x as u32` gives in wrapping `u32` arithmetic.
pub open spec fn wrapped_cell(x: i32, y: i32) -> u32 {
    vstd::wrapping::u32_specs::wrapping_add(
        vstd::wrapping::u32_specs::wrapping_mul(y as u32, 76u32),
        x as u32,
    )
}

/// Within the grid the wrapped index is the tile index.
pub proof fn lemma_wrapped_cell_in_grid(x: i32, y: i32)
    requires
        in_grid(x as int, y as int),
    ensures
        wrapped_cell(x, y) as int == cell(x as int, y as int),
{
    vstd::arithmetic::div_mod::lemma_small_mod((y as nat * 76) as nat, 0x1_0000_0000);
}

fn wrapped_index(x: i32, y: i32) -> (i: usize)
    ensures
        i == wrapped_cell(x, y),
{
    (y as u32).wrapping_mul(76).wrapping_add(x as u32) as usize
}

/// Replaces the tile at the wrapped index of (x, y), if that is in the grid.
fn put_tile(tiles: &mut Vec<Tile>, x: i32, y: i32, t: Tile)
    requires
        old(tiles)@.len() == GRID_LEN,
    ensures
        final(tiles)@ == if (wrapped_cell(x, y) as int) < GRID_LEN {
            old(tiles)@.update(wrapped_cell(x, y) as int, t)
        } else {
            old(tiles)@
        },
{
    let i = wrapped_index(x, y);
    if i < tiles.len() {
        tiles.set(i, t);
    }
}

/// Sets the decor of the tile at the wrapped index of (x, y), if in the grid.
fn put_decor(tiles: &mut Vec<Tile>, x: i32, y: i32, d: Option<Decor>)
    requires
        old(tiles)@.len() == GRID_LEN,
    ensures
        final(tiles)@.len() == GRID_LEN,
        forall|j: int| 0 <= j < GRID_LEN && j != wrapped_cell(x, y) ==> #[trigger] final(tiles)@[j] == old(tiles)@[j],
        (wrapped_cell(x, y) as int) < GRID_LEN ==> final(tiles)@[wrapped_cell(x, y) as int] == (Tile {
            decor: d,
            ..old(tiles)@[wrapped_cell(x, y) as int]
        }),
        walls_kept(old(tiles)@, final(tiles)@),
{
    let i = wrapped_index(x, y);
    if i < tiles.len() {
        let mut t = tiles[i];
        t.decor = d;
        tiles.set(i, t);
    }
    proof {
        let t = tiles@;
        let o = old(tiles)@;
        assert forall|j: int| 0 <= j < o.len() && (#[trigger] o[j]).wall == 0 implies t[j].wall == 0 by {
            assert(t[j] == t[j]);
        }
    }
}

/// Tile j of `o` once the plank floor of a house over w × h from (x, y) has
/// been laid on the positions before (cx, cy).
pub open spec fn floored(o: Seq<Tile>, wall_block: Block, x: int, y: int, w: int, h: int, cx: int, cy: int, j: int) -> Tile {
    if exists|xx: int, yy: int| rect_before(x, y, w, h, cx, cy, xx, yy) && #[trigger] at_index(xx, yy, j) {
        Tile { ground: Block::Planks, wall: 0, wall_block, decor: None }
    } else {
        o[j]
    }
}

/// (xx, e) is a fence position of a house of width w from column x visited
/// before (cx, ce): e = 0 is the row above the house, e = 1 the row below.
pub open spec fn fence_before(x: int, w: int, cx: int, ce: int, xx: int, e: int) -> bool {
    &&& x <= xx < x + w
    &&& 0 <= e < 2
    &&& xx < cx || (xx == cx && e < ce)
}

/// Row of fence side e of a house at row y of height h.
pub open spec fn fence_row(y: int, h: int, e: int) -> int {
    if e == 0 { y - 1 } else { y + h }
}

/// Tile j of `o` once a house over w × h from (x, y) has its whole floor and
/// the fences before (cx, ce): an open floored tile reached by a fence
/// position gets a fence.
pub open spec fn housed(o: Seq<Tile>, wall_block: Block, x: int, y: int, w: int, h: int, cx: int, ce: int, j: int) -> Tile {
    let f = floored(o, wall_block, x, y, w, h, x, y + h, j);
    if f.wall == 0 && exists|xx: int, e: int| fence_before(x, w, cx, ce, xx, e) && #[trigger] at_index(xx, fence_row(y, h, e), j) {
        Tile { decor: Some(Decor::Fence), ..f }
    } else {
        f
    }
}

/// Plank house: plank floor over w × h from (x, y), fences on the open
/// tiles of the rows just above and below it.
fn place_house(tiles: &mut Vec<Tile>, wall_block: Block, x: i32, y: i32, hw: i32, hh: i32)
    requires
        old(tiles)@.len() == GRID_LEN,
        coord_ok((x, y)),
        0 <= hw <= 1_000_000,
        0 <= hh <= 1_000_000,
    ensures
        final(tiles)@.len() == GRID_LEN,
        forall|j: int|
            0 <= j < GRID_LEN ==> #[trigger] final(tiles)@[j] == housed(
                old(tiles)@,
                wall_block,
                x as int,
                y as int,
                hw as int,
                hh as int,
                x + hw,
                0,
                j,
            ),
        walls_kept(old(tiles)@, final(tiles)@),
{
    let ghost o = tiles@;
    let mut yy = y;
    while yy < y + hh
        invariant
            tiles@.len() == GRID_LEN,
            o.len() == GRID_LEN,
            y <= yy <= y + hh,
            coord_ok((x, y)),
            0 <= hw <= 1_000_000,
            0 <= hh <= 1_000_000,
            forall|j: int|
                0 <= j < GRID_LEN ==> #[trigger] tiles@[j] == floored(o, wall_block, x as int, y as int, hw as int, hh as int, x as int, yy as int, j),
        decreases y + hh - yy,
    {
        let mut xx = x;
        while xx < x + hw
            invariant
                tiles@.len() == GRID_LEN,
                o.len() == GRID_LEN,
                x <= xx <= x + hw,
                coord_ok((x, y)),
                y <= yy < y + hh,
                0 <= hw <= 1_000_000,
                0 <= hh <= 1_000_000,
                forall|j: int|
                    0 <= j < GRID_LEN ==> #[trigger] tiles@[j] == floored(o, wall_block, x as int, y as int, hw as int, hh as int, xx as int, yy as int, j),
            decreases x + hw - xx,
        {
            let ghost before = tiles@;
            put_tile(tiles, xx, yy, Tile { ground: Block::Planks, wall: 0, wall_block, decor: None });
            proof {
                assert forall|j: int| 0 <= j < GRID_LEN implies #[trigger] tiles@[j] == floored(o, wall_block, x as int, y as int, hw as int, hh as int, xx + 1, yy as int, j) by {
                    assert(before[j] == floored(o, wall_block, x as int, y as int, hw as int, hh as int, xx as int, yy as int, j));
                    if j == wrapped_cell(xx, yy) as int {
                        assert(at_index(xx as int, yy as int, j));
                        assert(rect_before(x as int, y as int, hw as int, hh as int, xx + 1, yy as int, xx as int, yy as int));
                    } else {
                        assert(!at_index(xx as int, yy as int, j));
                    }
                }
            }
            xx += 1;
        }
        proof {
            assert forall|j: int| 0 <= j < GRID_LEN implies #[trigger] tiles@[j] == floored(o, wall_block, x as int, y as int, hw as int, hh as int, x as int, yy + 1, j) by {
                assert(tiles@[j] == floored(o, wall_block, x as int, y as int, hw as int, hh as int, xx as int, yy as int, j));
                assert forall|a: int, b: int| rect_before(x as int, y as int, hw as int, hh as int, xx as int, yy as int, a, b) == rect_before(x as int, y as int, hw as int, hh as int, x as int, yy + 1, a, b) by {}
            }
        }
        yy += 1;
    }
    proof {
        assert forall|j: int| 0 <= j < GRID_LEN implies #[trigger] tiles@[j] == housed(o, wall_block, x as int, y as int, hw as int, hh as int, x as int, 0, j) by {
            assert(tiles@[j] == floored(o, wall_block, x as int, y as int, hw as int, hh as int, x as int, yy as int, j));
        }
    }
    let mut xx = x;
    while xx < x + hw
        invariant
            tiles@.len() == GRID_LEN,
            o.len() == GRID_LEN,
            x <= xx <= x + hw,
            coord_ok((x, y)),
            0 <= hw <= 1_000_000,
            0 <= hh <= 1_000_000,
            forall|j: int|
                0 <= j < GRID_LEN ==> #[trigger] tiles@[j] == housed(o, wall_block, x as int, y as int, hw as int, hh as int, xx as int, 0, j),
        decreases x + hw - xx,
    {
        let mut e: usize = 0;
        while e < 2
            invariant
                tiles@.len() == GRID_LEN,
                o.len() == GRID_LEN,
                0 <= e <= 2,
                x <= xx < x + hw,
                coord_ok((x, y)),
                0 <= hw <= 1_000_000,
                0 <= hh <= 1_000_000,
                forall|j: int|
                    0 <= j < GRID_LEN ==> #[trigger] tiles@[j] == housed(o, wall_block, x as int, y as int, hw as int, hh as int, xx as int, e as int, j),
            decreases 2 - e,
        {
            let ghost before = tiles@;
            let edge_y = if e == 0 { y - 1 } else { y + hh };
            assert(edge_y == fence_row(y as int, hh as int, e as int));
            let i = wrapped_index(xx, edge_y);
            if i < tiles.len() && tiles[i].wall == 0 {
                put_decor(tiles, xx, edge_y, Some(Decor::Fence));
            }
            proof {
                assert forall|j: int| 0 <= j < GRID_LEN implies #[trigger] tiles@[j] == housed(o, wall_block, x as int, y as int, hw as int, hh as int, xx as int, e + 1, j) by {
                    assert(before[j] == housed(o, wall_block, x as int, y as int, hw as int, hh as int, xx as int, e as int, j));
                    if j == i as int {
                        assert(at_index(xx as int, fence_row(y as int, hh as int, e as int), j));
                        assert(fence_before(x as int, hw as int, xx as int, e + 1, xx as int, e as int));
                    } else {
                        assert(!at_index(xx as int, fence_row(y as int, hh as int, e as int), j));
                    }
                }
            }
            e += 1;
        }
        proof {
            assert forall|j: int| 0 <= j < GRID_LEN implies #[trigger] tiles@[j] == housed(o, wall_block, x as int, y as int, hw as int, hh as int, xx + 1, 0, j) by {
                assert(tiles@[j] == housed(o, wall_block, x as int, y as int, hw as int, hh as int, xx as int, e as int, j));
                assert forall|a: int, b: int| fence_before(x as int, hw as int, xx as int, e as int, a, b) == fence_before(x as int, hw as int, xx + 1, 0, a, b) by {}
            }
        }
        xx += 1;
    }
    proof {
        let t = tiles@;
        let o = old(tiles)@;
        assert forall|j: int| 0 <= j < o.len() && (#[trigger] o[j]).wall == 0 implies t[j].wall == 0 by {
            assert(t[j] == t[j]);
        }
    }
}

/// (xx, yy) is a position of the w × h rectangle from (x, y) visited before
/// (cx, cy) in row order.
pub open spec fn rect_before(x: int, y: int, w: int, h: int, cx: int, cy: int, xx: int, yy: int) -> bool {
    &&& x <= xx < x + w
    &&& y <= yy < y + h
    &&& yy < cy || (yy == cy && xx < cx)
}

/// (xx, yy) lies at wrapped index j.
pub open spec fn at_index(xx: int, yy: int, j: int) -> bool {
    wrapped_cell(xx as i32, yy as i32) as int == j
}

/// Tile j of `o` once a pumpkin field over w × h from (x, y) has been laid
/// on the positions before (cx, cy): an open tile reached gets dirt, and a
/// pumpkin if one of the positions reaching it lies on every third
/// diagonal; any other tile is unchanged.
pub open spec fn fielded(o: Seq<Tile>, x: int, y: int, w: int, h: int, cx: int, cy: int, j: int) -> Tile {
    let hit = exists|xx: int, yy: int| rect_before(x, y, w, h, cx, cy, xx, yy) && #[trigger] at_index(xx, yy, j);
    let pumpkin = exists|xx: int, yy: int|
        rect_before(x, y, w, h, cx, cy, xx, yy) && #[trigger] at_index(xx, yy, j) && (xx + yy) % 3 == 0;
    if o[j].wall == 0 && hit {
        Tile { ground: Block::Dirt, decor: if pumpkin { Some(Decor::PumpkinProp) } else { o[j].decor }, ..o[j] }
    } else {
        o[j]
    }
}

/// Pumpkin field: the open tiles of w × h from (x, y) get dirt, and a
/// pumpkin every third diagonal.
fn place_field(tiles: &mut Vec<Tile>, x: i32, y: i32, fw: i32, fh: i32)
    requires
        old(tiles)@.len() == GRID_LEN,
        coord_ok((x, y)),
        0 <= fw <= 1_000_000,
        0 <= fh <= 1_000_000,
    ensures
        final(tiles)@.len() == GRID_LEN,
        forall|j: int|
            0 <= j < GRID_LEN ==> #[trigger] final(tiles)@[j] == fielded(
                old(tiles)@,
                x as int,
                y as int,
                fw as int,
                fh as int,
                x as int,
                y + fh,
                j,
            ),
        walls_kept(old(tiles)@, final(tiles)@),
{
    let mut yy = y;
    while yy < y + fh
        invariant
            tiles@.len() == GRID_LEN,
            old(tiles)@.len() == GRID_LEN,
            y <= yy <= y + fh,
            coord_ok((x, y)),
            0 <= fw <= 1_000_000,
            0 <= fh <= 1_000_000,
            forall|j: int|
                0 <= j < GRID_LEN ==> #[trigger] tiles@[j] == fielded(old(tiles)@, x as int, y as int, fw as int, fh as int, x as int, yy as int, j),
        decreases y + fh - yy,
    {
        let mut xx = x;
        while xx < x + fw
            invariant
                tiles@.len() == GRID_LEN,
                old(tiles)@.len() == GRID_LEN,
                x <= xx <= x + fw,
                coord_ok((x, y)),
                y <= yy < y + fh,
                0 <= fw <= 1_000_000,
                0 <= fh <= 1_000_000,
                forall|j: int|
                    0 <= j < GRID_LEN ==> #[trigger] tiles@[j] == fielded(old(tiles)@, x as int, y as int, fw as int, fh as int, xx as int, yy as int, j),
            decreases x + fw - xx,
        {
            let ghost before = tiles@;
            let i = wrapped_index(xx, yy);
            if i < tiles.len() {
                let mut t = tiles[i];
                if t.wall == 0 {
                    t.ground = Block::Dirt;
                    if (xx + yy) % 3 == 0 {
                        t.decor = Some(Decor::PumpkinProp);
                    }
                    tiles.set(i, t);
                }
            }
            proof {
                assert forall|j: int| 0 <= j < GRID_LEN implies #[trigger] tiles@[j] == fielded(old(tiles)@, x as int, y as int, fw as int, fh as int, xx + 1, yy as int, j) by {
                    assert(before[j] == fielded(old(tiles)@, x as int, y as int, fw as int, fh as int, xx as int, yy as int, j));
                    if j == i as int {
                        assert(at_index(xx as int, yy as int, j));
                        assert(rect_before(x as int, y as int, fw as int, fh as int, xx + 1, yy as int, xx as int, yy as int));
                    } else {
                        assert(!at_index(xx as int, yy as int, j));
                    }
                }
            }
            xx += 1;
        }
        proof {
            assert forall|j: int| 0 <= j < GRID_LEN implies #[trigger] tiles@[j] == fielded(old(tiles)@, x as int, y as int, fw as int, fh as int, x as int, yy + 1, j) by {
                assert(tiles@[j] == fielded(old(tiles)@, x as int, y as int, fw as int, fh as int, xx as int, yy as int, j));
                assert forall|a: int, b: int| rect_before(x as int, y as int, fw as int, fh as int, xx as int, yy as int, a, b) == rect_before(x as int, y as int, fw as int, fh as int, x as int, yy + 1, a, b) by {}
            }
        }
        yy += 1;
    }
    proof {
        let t = tiles@;
        let o = old(tiles)@;
        assert forall|j: int| 0 <= j < o.len() && (#[trigger] o[j]).wall == 0 implies t[j].wall == 0 by {
            assert(t[j] == t[j]);
        }
    }
}

/// Distance from the row of p to row y.
pub open spec fn row_distance(p: (i32, i32), y: int) -> int {
    if p.1 >= y { p.1 - y } else { y - p.1 }
}

/// Waypoint k is the first of those whose row is closest to row y.
pub open spec fn first_nearest_row(path: Seq<(i32, i32)>, y: int, k: int) -> bool {
    &&& 0 <= k < path.len()
    &&& forall|i: int| 0 <= i < path.len() ==> row_distance(#[trigger] path[i], y) >= row_distance(path[k], y)
    &&& forall|i: int| 0 <= i < k ==> row_distance(#[trigger] path[i], y) > row_distance(path[k], y)
}

/// The first waypoint whose row is closest to row `y`.
fn nearest_by_row(path: &Vec<(i32, i32)>, y: i32) -> (best: (i32, i32))
    requires
        path@.len() >= 1,
        forall|i: int| 0 <= i < path@.len() ==> coord_ok(#[trigger] path@[i]),
        -16000 <= y <= 16000,
    ensures
        path@.contains(best),
        coord_ok(best),
        exists|k: int| #[trigger] first_nearest_row(path@, y as int, k) && path@[k] == best,
{
    let mut best = path[0];
    let mut bd: i32 = i32::MAX;
    let mut k: usize = 0;
    let ghost mut bi: int = 0;
    while k < path.len()
        invariant
            0 <= k <= path@.len(),
            path@.contains(best),
            coord_ok(best),
            forall|i: int| 0 <= i < path@.len() ==> coord_ok(#[trigger] path@[i]),
            -16000 <= y <= 16000,
            k == 0 ==> best == path@[0] && bd == i32::MAX,
            k > 0 ==> 0 <= bi < k && path@[bi] == best && bd == row_distance(best, y as int),
            forall|i: int| 0 <= i < k ==> row_distance(#[trigger] path@[i], y as int) >= bd,
            forall|i: int| 0 <= i < bi ==> row_distance(#[trigger] path@[i], y as int) > bd,
        decreases path@.len() - k,
    {
        let p = path[k];
        assert(coord_ok(path@[k as int]));
        let d = if p.1 >= y { p.1 - y } else { y - p.1 };
        if d < bd {
            bd = d;
            best = p;
            proof {
                bi = k as int;
            }
        }
        k += 1;
    }
    assert(first_nearest_row(path@, y as int, bi));
    best
}

/// Manhattan distance from p to (x, y).
pub open spec fn manhattan(p: (i32, i32), x: int, y: int) -> int {
    (if p.0 >= x { p.0 - x } else { x - p.0 }) + (if p.1 >= y { p.1 - y } else { y - p.1 })
}

/// Waypoint k is the first of those closest to (x, y) in Manhattan distance.
pub open spec fn first_nearest(path: Seq<(i32, i32)>, x: int, y: int, k: int) -> bool {
    &&& 0 <= k < path.len()
    &&& forall|i: int| 0 <= i < path.len() ==> manhattan(#[trigger] path[i], x, y) >= manhattan(path[k], x, y)
    &&& forall|i: int| 0 <= i < k ==> manhattan(#[trigger] path[i], x, y) > manhattan(path[k], x, y)
}

/// The first waypoint closest to (x, y) in Manhattan distance, with that distance.
fn nearest_by_manhattan(path: &Vec<(i32, i32)>, x: i32, y: i32) -> (r: ((i32, i32), i32))
    requires
        path@.len() >= 1,
        forall|i: int| 0 <= i < path@.len() ==> coord_ok(#[trigger] path@[i]),
        coord_ok((x, y)),
    ensures
        path@.contains(r.0),
        coord_ok(r.0),
        r.1 == (if r.0.0 >= x { r.0.0 - x } else { x - r.0.0 }) + (if r.0.1 >= y { r.0.1 - y } else { y - r.0.1 }),
        exists|k: int| #[trigger] first_nearest(path@, x as int, y as int, k) && path@[k] == r.0,
{
    let mut best = path[0];
    let mut bd: i32 = i32::MAX;
    let mut k: usize = 0;
    let ghost mut bi: int = 0;
    while k < path.len()
        invariant
            0 <= k <= path@.len(),
            path@.contains(best),
            coord_ok(best),
            forall|i: int| 0 <= i < path@.len() ==> coord_ok(#[trigger] path@[i]),
            coord_ok((x, y)),
            k == 0 ==> best == path@[0] && bd == i32::MAX,
            k > 0 ==> bd == (if best.0 >= x { best.0 - x } else { x - best.0 }) + (if best.1 >= y { best.1 - y } else { y - best.1 }),
            k > 0 ==> 0 <= bi < k && path@[bi] == best,
            forall|i: int| 0 <= i < k ==> manhattan(#[trigger] path@[i], x as int, y as int) >= bd,
            forall|i: int| 0 <= i < bi ==> manhattan(#[trigger] path@[i], x as int, y as int) > bd,
        decreases path@.len() - k,
    {
        let p = path[k];
        assert(coord_ok(path@[k as int]));
        let d = (if p.0 >= x { p.0 - x } else { x - p.0 }) + (if p.1 >= y { p.1 - y } else { y - p.1 });
        assert(d == manhattan(path@[k as int], x as int, y as int));
        if d < bd || k == 0 {
            if d < bd {
                bd = d;
                best = p;
                proof {
                    bi = k as int;
                }
            }
        }
        k += 1;
    }
    assert(first_nearest(path@, x as int, y as int, bi));
    (best, bd)
}

/// |trunc(a / b)| <= |a| for b >= 1.
proof fn lemma_trunc_div_small(a: int, b: int)
    requires
        b >= 1,
    ensures
        -(if a >= 0 { a } else { -a }) <= (if a >= 0 { a / b } else { -((-a) / b) }) <= (if a >= 0 { a } else { -a }),
{
    if a >= 0 {
        vstd::arithmetic::div_mod::lemma_div_is_ordered_by_denominator(a, 1, b);
    } else {
        vstd::arithmetic::div_mod::lemma_div_is_ordered_by_denominator(-a, 1, b);
    }
}

/// `n / d` rounded towards zero, as integer division does.
pub open spec fn trunc_div(n: int, d: int) -> int {
    if n >= 0 { n / d } else { -((-n) / d) }
}

/// Point st (of `steps`) of a straight line from (x0, y0) to (x1, y1):
/// `start + (end - start) · st / steps`, rounded towards zero.
pub open spec fn line_point(x0: int, y0: int, x1: int, y1: int, steps: int, st: int) -> (int, int) {
    (x0 + trunc_div((x1 - x0) * st, steps), y0 + trunc_div((y1 - y0) * st, steps))
}

/// (xx, yy) lies in the radius-1 disk around line point st.
pub open spec fn line_disk(x0: int, y0: int, x1: int, y1: int, steps: int, st: int, xx: int, yy: int) -> bool {
    in_disk(xx - line_point(x0, y0, x1, y1, steps, st).0, yy - line_point(x0, y0, x1, y1, steps, st).1, 1)
}

/// (xx, yy) is covered by the corridor from (x0, y0) to (x1, y1): it lies in
/// the disk of one of the points 0..`upto` of the line.
pub open spec fn on_line(x0: int, y0: int, x1: int, y1: int, steps: int, upto: int, xx: int, yy: int) -> bool {
    exists|st: int| 0 <= st < upto && #[trigger] line_disk(x0, y0, x1, y1, steps, st, xx, yy)
}

/// Carves a corridor of radius 1 from (x0, y0) to (x1, y1), one disk per step.
fn carve_line(tiles: &mut Vec<Tile>, biome: Biome, wall_block: Block, x0: i32, y0: i32, x1: i32, y1: i32, steps: i32)
    requires
        old(tiles)@.len() == GRID_LEN,
        coord_ok((x0, y0)),
        coord_ok((x1, y1)),
        1 <= steps <= 64000,
    ensures
        final(tiles)@.len() == GRID_LEN,
        forall|xx: int, yy: int|
            in_grid(xx, yy) ==> #[trigger] final(tiles)@[cell(xx, yy)] == if in_interior(xx, yy) && on_line(
                x0 as int,
                y0 as int,
                x1 as int,
                y1 as int,
                steps as int,
                steps + 1,
                xx,
                yy,
            ) {
                open_tile(biome, wall_block, xx, yy)
            } else {
                old(tiles)@[cell(xx, yy)]
            },
        walls_kept(old(tiles)@, final(tiles)@),
        inside2((x0 as int, y0 as int)) && inside2((x1 as int, y1 as int)) && -steps <= x1 - x0 <= steps && -steps <= y1
            - y0 <= steps ==> {
            &&& open_connected(final(tiles)@, (x0 as int, y0 as int), (x1 as int, y1 as int))
            &&& box_open(final(tiles)@, (x0 as int, y0 as int))
            &&& box_open(final(tiles)@, (x1 as int, y1 as int))
        },
{
    let mut st: i32 = 0;
    while st <= steps
        invariant
            tiles@.len() == GRID_LEN,
            old(tiles)@.len() == GRID_LEN,
            0 <= st <= steps + 1,
            coord_ok((x0, y0)),
            coord_ok((x1, y1)),
            1 <= steps <= 64000,
            forall|xx: int, yy: int|
                in_grid(xx, yy) ==> #[trigger] tiles@[cell(xx, yy)] == if in_interior(xx, yy) && on_line(
                    x0 as int,
                    y0 as int,
                    x1 as int,
                    y1 as int,
                    steps as int,
                    st as int,
                    xx,
                    yy,
                ) {
                    open_tile(biome, wall_block, xx, yy)
                } else {
                    old(tiles)@[cell(xx, yy)]
                },
        decreases steps + 1 - st,
    {
        assert(-2_048_000_000 <= (x1 - x0) * st <= 2_048_000_000 && -2_048_000_000 <= (y1 - y0) * st <= 2_048_000_000) by (nonlinear_arith)
            requires
                -32000 <= x1 - x0 <= 32000,
                -32000 <= y1 - y0 <= 32000,
                0 <= st <= 64000,
        ;
        let ax = (x1 - x0) * st;
        let ay = (y1 - y0) * st;
        proof {
            lemma_trunc_div_small(ax as int, steps as int);
            lemma_trunc_div_small(ay as int, steps as int);
            lemma_line_range((x1 - x0) as int, steps as int, st as int);
            lemma_line_range((y1 - y0) as int, steps as int, st as int);
        }
        let cx = x0 + ax / steps;
        let cy = y0 + ay / steps;
        assert((cx as int, cy as int) == line_point(x0 as int, y0 as int, x1 as int, y1 as int, steps as int, st as int));
        let ghost before = tiles@;
        carve(tiles, biome, wall_block, cx, cy, 1);
        proof {
            assert forall|xx: int, yy: int| in_grid(xx, yy) implies #[trigger] tiles@[cell(xx, yy)] == if in_interior(xx, yy) && on_line(
                x0 as int, y0 as int, x1 as int, y1 as int, steps as int, st + 1, xx, yy) {
                open_tile(biome, wall_block, xx, yy)
            } else {
                old(tiles)@[cell(xx, yy)]
            } by {
                assert(before[cell(xx, yy)] == if in_interior(xx, yy) && on_line(
                    x0 as int, y0 as int, x1 as int, y1 as int, steps as int, st as int, xx, yy) {
                    open_tile(biome, wall_block, xx, yy)
                } else {
                    old(tiles)@[cell(xx, yy)]
                });
                if line_disk(x0 as int, y0 as int, x1 as int, y1 as int, steps as int, st as int, xx, yy) {
                    assert(on_line(x0 as int, y0 as int, x1 as int, y1 as int, steps as int, st + 1, xx, yy));
                } else {
                    assert(on_line(x0 as int, y0 as int, x1 as int, y1 as int, steps as int, st + 1, xx, yy) == on_line(
                        x0 as int, y0 as int, x1 as int, y1 as int, steps as int, st as int, xx, yy));
                }
            }
        }
        st += 1;
    }
    proof {
        let t = tiles@;
        let o = old(tiles)@;
        assert(walls_kept(o, t)) by {
            assert forall|j: int| 0 <= j < o.len() && (#[trigger] o[j]).wall == 0 implies t[j].wall == 0 by {
                let xx = j % 76;
                let yy = j / 76;
                assert(in_grid(xx, yy) && cell(xx, yy) == j);
            }
        }
        if inside2((x0 as int, y0 as int)) && inside2((x1 as int, y1 as int)) && -steps <= x1 - x0 <= steps && -steps
            <= y1 - y0 <= steps {
            let n = steps as int;
            assert forall|s: int| 0 <= s <= n implies box_open(t, #[trigger] line_point(x0 as int, y0 as int, x1 as int, y1 as int, n, s)) by {
                let p = line_point(x0 as int, y0 as int, x1 as int, y1 as int, n, s);
                lemma_line_inside(x0 as int, y0 as int, x1 as int, y1 as int, n, s);
                assert forall|dx: int, dy: int| -1 <= dx <= 1 && -1 <= dy <= 1 implies #[trigger] open_cell(t, (p.0 + dx, p.1 + dy)) by {
                    assert(dx * dx + dy * dy <= 1 * 1 + 1) by (nonlinear_arith)
                        requires
                            -1 <= dx <= 1,
                            -1 <= dy <= 1,
                    ;
                    assert(line_disk(x0 as int, y0 as int, x1 as int, y1 as int, n, s, p.0 + dx, p.1 + dy));
                    assert(on_line(x0 as int, y0 as int, x1 as int, y1 as int, n, n + 1, p.0 + dx, p.1 + dy));
                    assert(in_grid(p.0 + dx, p.1 + dy));
                }
            }
            lemma_line_range(x1 - x0, n, n);
            lemma_line_range(y1 - y0, n, n);
            let w = lemma_line_walk(t, x0 as int, y0 as int, x1 as int, y1 as int, n, n);
            assert(line_point(x0 as int, y0 as int, x1 as int, y1 as int, n, 0) == (x0 as int, y0 as int));
            assert(line_point(x0 as int, y0 as int, x1 as int, y1 as int, n, n) == (x1 as int, y1 as int));
            assert(box_open(t, line_point(x0 as int, y0 as int, x1 as int, y1 as int, n, 0)));
            assert(box_open(t, line_point(x0 as int, y0 as int, x1 as int, y1 as int, n, n)));
        }
    }
}

/// Tile j of `o` once the river rows [y - rw, y + rw) have been laid over
/// columns 1..75 on the positions before (cx, cy): water, no wall, no decor.
pub open spec fn watered(o: Seq<Tile>, y: int, rw: int, cx: int, cy: int, j: int) -> Tile {
    if exists|xx: int, yy: int| rect_before(1, y - rw, 74, 2 * rw, cx, cy, xx, yy) && #[trigger] at_index(xx, yy, j) {
        Tile { ground: Block::Water, wall: 0, decor: None, ..o[j] }
    } else {
        o[j]
    }
}

/// Tile j of `o` once the whole river is laid and the plank bridge — 5
/// columns around column bx, rows y - rw - 1 ..= y + rw + 1 — is laid on
/// the positions before (cx, cy).
pub open spec fn rivered(o: Seq<Tile>, wall_block: Block, bx: int, y: int, rw: int, cx: int, cy: int, j: int) -> Tile {
    if exists|xx: int, yy: int| rect_before(bx - 2, y - rw - 1, 5, 2 * rw + 3, cx, cy, xx, yy) && #[trigger] at_index(xx, yy, j) {
        Tile { ground: Block::Planks, wall: 0, wall_block, decor: None }
    } else {
        watered(o, y, rw, 1, y + rw, j)
    }
}

/// p lies at least two cells inside the grid edge.
pub open spec fn inside2(p: (int, int)) -> bool {
    2 <= p.0 <= 73 && 2 <= p.1 <= 73
}

/// The 3 × 3 block around p is open.
pub open spec fn box_open(t: Seq<Tile>, p: (int, int)) -> bool {
    forall|dx: int, dy: int| -1 <= dx <= 1 && -1 <= dy <= 1 ==> #[trigger] open_cell(t, (p.0 + dx, p.1 + dy))
}

/// A walk through cells without a wall leads from p to q (decor on the
/// cells is not looked at).
pub open spec fn open_connected(t: Seq<Tile>, p: (int, int), q: (int, int)) -> bool {
    exists|w: Seq<(int, int)>| #[trigger] open_walk(t, w) && w[0] == p && w.last() == q
}

proof fn lemma_div_unit_step(u: int, a: int, n: int)
    requires
        n >= 1,
        0 <= a <= n,
        u >= 0,
    ensures
        u / n <= (u + a) / n <= u / n + 1,
{
    vstd::arithmetic::div_mod::lemma_div_is_ordered(u, u + a, n);
    vstd::arithmetic::div_mod::lemma_fundamental_div_mod(u, n);
    vstd::arithmetic::div_mod::lemma_fundamental_div_mod(u + a, n);
    vstd::arithmetic::div_mod::lemma_mod_bound(u, n);
    vstd::arithmetic::div_mod::lemma_mod_bound(u + a, n);
    let q1 = u / n;
    let q2 = (u + a) / n;
    let r1 = u % n;
    let r2 = (u + a) % n;
    assert(q2 <= q1 + 1) by (nonlinear_arith)
        requires
            u == n * q1 + r1,
            u + a == n * q2 + r2,
            0 <= r1 < n,
            0 <= r2 < n,
            0 <= a <= n,
            n >= 1,
    ;
}

/// A coordinate of a line point moves by at most one cell per step, in the
/// direction of the line, and stays between the line's ends.
proof fn lemma_line_coord(a: int, n: int, st: int)
    requires
        n >= 1,
        -n <= a <= n,
        0 <= st < n,
    ensures
        a >= 0 ==> trunc_div(a * st, n) <= trunc_div(a * (st + 1), n) <= trunc_div(a * st, n) + 1,
        a < 0 ==> trunc_div(a * st, n) - 1 <= trunc_div(a * (st + 1), n) <= trunc_div(a * st, n),
{
    if a >= 0 {
        assert(a * (st + 1) == a * st + a && a * st >= 0) by (nonlinear_arith)
            requires
                a >= 0,
                st >= 0,
        ;
        lemma_div_unit_step(a * st, a, n);
    } else {
        let b = -a;
        assert(a * (st + 1) == -(b * st + b) && a * st == -(b * st) && b * st >= 0) by (nonlinear_arith)
            requires
                b == -a,
                b > 0,
                st >= 0,
        ;
        lemma_div_unit_step(b * st, b, n);
    }
}

/// Line points stay between the line's ends; the first is the start and
/// the last the end.
proof fn lemma_line_range(a: int, n: int, st: int)
    requires
        n >= 1,
        0 <= st <= n,
    ensures
        a >= 0 ==> 0 <= trunc_div(a * st, n) <= a,
        a < 0 ==> a <= trunc_div(a * st, n) <= 0,
        trunc_div(a * 0, n) == 0,
        trunc_div(a * n, n) == a,
{
    if a >= 0 {
        assert(0 <= a * st <= a * n) by (nonlinear_arith)
            requires
                a >= 0,
                0 <= st <= n,
        ;
        vstd::arithmetic::div_mod::lemma_div_is_ordered(0, a * st, n);
        vstd::arithmetic::div_mod::lemma_div_is_ordered(a * st, a * n, n);
        vstd::arithmetic::div_mod::lemma_div_by_multiple(a, n);
        assert(a * n == n * a) by (nonlinear_arith);
    } else {
        let b = -a;
        assert(0 <= b * st <= b * n && a * st == -(b * st) && a * n == -(b * n)) by (nonlinear_arith)
            requires
                b == -a,
                b > 0,
                0 <= st <= n,
        ;
        vstd::arithmetic::div_mod::lemma_div_is_ordered(0, b * st, n);
        vstd::arithmetic::div_mod::lemma_div_is_ordered(b * st, b * n, n);
        vstd::arithmetic::div_mod::lemma_div_by_multiple(b, n);
    }
    assert(a * 0 == 0) by (nonlinear_arith);
    assert(0int / n == 0);
}

/// Every point of a line between two cells inside the grid lies inside too.
proof fn lemma_line_inside(x0: int, y0: int, x1: int, y1: int, n: int, st: int)
    requires
        n >= 1,
        -n <= x1 - x0 <= n,
        -n <= y1 - y0 <= n,
        0 <= st <= n,
        inside2((x0, y0)),
        inside2((x1, y1)),
    ensures
        inside2(line_point(x0, y0, x1, y1, n, st)),
{
    lemma_line_range(x1 - x0, n, st);
    lemma_line_range(y1 - y0, n, st);
}

/// Along a line whose disks are all open, a walk leads from the start to
/// line point `st`.
proof fn lemma_line_walk(t: Seq<Tile>, x0: int, y0: int, x1: int, y1: int, n: int, st: int) -> (w: Seq<(int, int)>)
    requires
        n >= 1,
        -n <= x1 - x0 <= n,
        -n <= y1 - y0 <= n,
        0 <= st <= n,
        forall|s: int| 0 <= s <= n ==> box_open(t, #[trigger] line_point(x0, y0, x1, y1, n, s)),
    ensures
        open_walk(t, w),
        w[0] == line_point(x0, y0, x1, y1, n, 0),
        w.last() == line_point(x0, y0, x1, y1, n, st),
    decreases st,
{
    let p0 = line_point(x0, y0, x1, y1, n, 0);
    assert(box_open(t, p0));
    assert(open_cell(t, (p0.0 + 0, p0.1 + 0)));
    if st == 0 {
        seq![p0]
    } else {
        let w0 = lemma_line_walk(t, x0, y0, x1, y1, n, st - 1);
        let p = line_point(x0, y0, x1, y1, n, st - 1);
        let q = line_point(x0, y0, x1, y1, n, st);
        lemma_line_coord(x1 - x0, n, st - 1);
        lemma_line_coord(y1 - y0, n, st - 1);
        assert(box_open(t, p));
        assert(box_open(t, q));
        let dx = q.0 - p.0;
        let dy = q.1 - p.1;
        assert(-1 <= dx <= 1 && -1 <= dy <= 1);
        assert(open_cell(t, (q.0 + 0, q.1 + 0)));
        if dx == 0 && dy == 0 {
            w0
        } else if dx == 0 || dy == 0 {
            let w = w0.push(q);
            assert(w[w0.len() - 1] == p);
            assert forall|i: int| 0 <= i < w.len() - 1 implies adjacent(#[trigger] w[i], w[i + 1]) by {
                if i < w0.len() - 1 {
                    assert(w[i] == w0[i] && w[i + 1] == w0[i + 1]);
                }
            }
            assert forall|i: int| 0 <= i < w.len() implies open_cell(t, #[trigger] w[i]) by {
                if i < w0.len() {
                    assert(w[i] == w0[i]);
                }
            }
            w
        } else {
            let m = (p.0 + dx, p.1);
            assert(open_cell(t, (p.0 + dx, p.1 + 0)));
            let w = w0.push(m).push(q);
            assert(w[w0.len() - 1] == p);
            assert(w[w0.len() as int] == m);
            assert forall|i: int| 0 <= i < w.len() - 1 implies adjacent(#[trigger] w[i], w[i + 1]) by {
                if i < w0.len() - 1 {
                    assert(w[i] == w0[i] && w[i + 1] == w0[i + 1]);
                }
            }
            assert forall|i: int| 0 <= i < w.len() implies open_cell(t, #[trigger] w[i]) by {
                if i < w0.len() {
                    assert(w[i] == w0[i]);
                }
            }
            w
        }
    }
}

/// Horizontal river of half-width rw across the map at row y (no wall,
/// no decor), bridged by planks on the waypoint whose row is nearest.
fn place_river(tiles: &mut Vec<Tile>, path: &Vec<(i32, i32)>, wall_block: Block, y: i32, rw: i32)
    requires
        old(tiles)@.len() == GRID_LEN,
        path@.len() >= 1,
        forall|i: int| 0 <= i < path@.len() ==> coord_ok(#[trigger] path@[i]),
        -16000 <= y <= 16000,
        0 <= rw <= 1_000_000,
    ensures
        final(tiles)@.len() == GRID_LEN,
        exists|k: int|
            #[trigger] first_nearest_row(path@, y as int, k) && forall|j: int|
                0 <= j < GRID_LEN ==> #[trigger] final(tiles)@[j] == rivered(
                    old(tiles)@,
                    wall_block,
                    path@[k].0 as int,
                    y as int,
                    rw as int,
                    path@[k].0 - 2,
                    y + rw + 2,
                    j,
                ),
        walls_kept(old(tiles)@, final(tiles)@),
{
    let ghost o = tiles@;
    let mut yy = y - rw;
    while yy < y + rw
        invariant
            tiles@.len() == GRID_LEN,
            o.len() == GRID_LEN,
            y - rw <= yy <= y + rw,
            -16000 <= y <= 16000,
            0 <= rw <= 1_000_000,
            forall|j: int| 0 <= j < GRID_LEN ==> #[trigger] tiles@[j] == watered(o, y as int, rw as int, 1, yy as int, j),
        decreases y + rw - yy,
    {
        let mut xx: i32 = 1;
        while xx < 75
            invariant
                tiles@.len() == GRID_LEN,
                o.len() == GRID_LEN,
                1 <= xx <= 75,
                y - rw <= yy < y + rw,
                -16000 <= y <= 16000,
                0 <= rw <= 1_000_000,
                forall|j: int| 0 <= j < GRID_LEN ==> #[trigger] tiles@[j] == watered(o, y as int, rw as int, xx as int, yy as int, j),
            decreases 75 - xx,
        {
            let ghost before = tiles@;
            let i = wrapped_index(xx, yy);
            if i < tiles.len() {
                let mut t = tiles[i];
                t.ground = Block::Water;
                t.wall = 0;
                t.decor = None;
                tiles.set(i, t);
            }
            proof {
                assert forall|j: int| 0 <= j < GRID_LEN implies #[trigger] tiles@[j] == watered(o, y as int, rw as int, xx + 1, yy as int, j) by {
                    assert(before[j] == watered(o, y as int, rw as int, xx as int, yy as int, j));
                    if j == i as int {
                        assert(at_index(xx as int, yy as int, j));
                        assert(rect_before(1, y - rw, 74, 2 * rw, xx + 1, yy as int, xx as int, yy as int));
                    } else {
                        assert(!at_index(xx as int, yy as int, j));
                    }
                }
            }
            xx += 1;
        }
        proof {
            assert forall|j: int| 0 <= j < GRID_LEN implies #[trigger] tiles@[j] == watered(o, y as int, rw as int, 1, yy + 1, j) by {
                assert(tiles@[j] == watered(o, y as int, rw as int, xx as int, yy as int, j));
                assert forall|a: int, b: int| #[trigger] rect_before(1, y - rw, 74, 2 * rw, xx as int, yy as int, a, b) == rect_before(1, y - rw, 74, 2 * rw, 1, yy + 1, a, b) by {}
            }
        }
        yy += 1;
    }
    let best = nearest_by_row(path, y);
    let ghost k = choose|k: int| #[trigger] first_nearest_row(path@, y as int, k) && path@[k] == best;
    let ghost bx = best.0 as int;
    proof {
        assert forall|j: int| 0 <= j < GRID_LEN implies #[trigger] tiles@[j] == rivered(o, wall_block, bx, y as int, rw as int, bx - 2, y - rw - 1, j) by {
            assert(tiles@[j] == watered(o, y as int, rw as int, 1, yy as int, j));
        }
    }
    let mut dy = -(rw + 1);
    while dy <= rw + 1
        invariant
            tiles@.len() == GRID_LEN,
            o.len() == GRID_LEN,
            -(rw + 1) <= dy <= rw + 2,
            coord_ok(best),
            bx == best.0,
            -16000 <= y <= 16000,
            0 <= rw <= 1_000_000,
            forall|j: int| 0 <= j < GRID_LEN ==> #[trigger] tiles@[j] == rivered(o, wall_block, bx, y as int, rw as int, bx - 2, y + dy, j),
        decreases rw + 2 - dy,
    {
        let mut dx: i32 = -2;
        while dx <= 2
            invariant
                tiles@.len() == GRID_LEN,
                o.len() == GRID_LEN,
                -2 <= dx <= 3,
                -(rw + 1) <= dy <= rw + 1,
                coord_ok(best),
                bx == best.0,
                -16000 <= y <= 16000,
                0 <= rw <= 1_000_000,
                forall|j: int| 0 <= j < GRID_LEN ==> #[trigger] tiles@[j] == rivered(o, wall_block, bx, y as int, rw as int, bx + dx, y + dy, j),
            decreases 3 - dx,
        {
            let ghost before = tiles@;
            put_tile(tiles, best.0 + dx, y + dy, Tile { ground: Block::Planks, wall: 0, wall_block, decor: None });
            proof {
                assert forall|j: int| 0 <= j < GRID_LEN implies #[trigger] tiles@[j] == rivered(o, wall_block, bx, y as int, rw as int, bx + dx + 1, y + dy, j) by {
                    assert(before[j] == rivered(o, wall_block, bx, y as int, rw as int, bx + dx, y + dy, j));
                    if j == wrapped_cell((best.0 + dx) as i32, (y + dy) as i32) as int {
                        assert(at_index(bx + dx, y + dy, j));
                        assert(rect_before(bx - 2, y - rw - 1, 5, 2 * rw + 3, bx + dx + 1, y + dy, bx + dx, y + dy));
                    } else {
                        assert(!at_index(bx + dx, y + dy, j));
                    }
                }
            }
            dx += 1;
        }
        proof {
            assert forall|j: int| 0 <= j < GRID_LEN implies #[trigger] tiles@[j] == rivered(o, wall_block, bx, y as int, rw as int, bx - 2, y + dy + 1, j) by {
                assert(tiles@[j] == rivered(o, wall_block, bx, y as int, rw as int, bx + dx, y + dy, j));
                assert forall|a: int, b: int| #[trigger] rect_before(bx - 2, y - rw - 1, 5, 2 * rw + 3, bx + dx, y + dy, a, b) == rect_before(bx - 2, y - rw - 1, 5, 2 * rw + 3, bx - 2, y + dy + 1, a, b) by {}
            }
        }
        dy += 1;
    }
    assert(first_nearest_row(path@, y as int, k));
    proof {
        let t = tiles@;
        let o = old(tiles)@;
        assert forall|j: int| 0 <= j < o.len() && (#[trigger] o[j]).wall == 0 implies t[j].wall == 0 by {
            assert(t[j] == t[j]);
        }
    }
}

/// Offsets of the 12 points of the ruins ring (radius 4): the integer parts
/// of 4·cos and 4·sin at multiples of 30°, as the `f32` computation of the
/// level design rounds them.
pub open spec fn ruin_ring(a: int) -> (i32, i32) {
    if a == 0 { (4i32, 0i32) }
    else if a == 1 { (3i32, 2i32) }
    else if a == 2 { (1i32, 3i32) }
    else if a == 3 { (0i32, 4i32) }
    else if a == 4 { (-2i32, 3i32) }
    else if a == 5 { (-3i32, 2i32) }
    else if a == 6 { (-4i32, 0i32) }
    else if a == 7 { (-3i32, -1i32) }
    else if a == 8 { (-1i32, -3i32) }
    else if a == 9 { (0i32, -4i32) }
    else if a == 10 { (1i32, -3i32) }
    else { (3i32, -1i32) }
}

fn ruin_offset(a: u32) -> (r: (i32, i32))
    requires
        a < 12,
    ensures
        r == ruin_ring(a as int),
{
    if a == 0 { (4, 0) }
    else if a == 1 { (3, 2) }
    else if a == 2 { (1, 3) }
    else if a == 3 { (0, 4) }
    else if a == 4 { (-2, 3) }
    else if a == 5 { (-3, 2) }
    else if a == 6 { (-4, 0) }
    else if a == 7 { (-3, -1) }
    else if a == 8 { (-1, -3) }
    else if a == 9 { (0, -4) }
    else if a == 10 { (1, -3) }
    else { (3, -1) }
}

/// Offsets of the 14 points of the arena ring (radius 8), as `ruin_ring`.
pub open spec fn arena_ring(a: int) -> (i32, i32) {
    if a == 0 { (8i32, 0i32) }
    else if a == 1 { (7i32, 3i32) }
    else if a == 2 { (4i32, 6i32) }
    else if a == 3 { (1i32, 7i32) }
    else if a == 4 { (-1i32, 7i32) }
    else if a == 5 { (-4i32, 6i32) }
    else if a == 6 { (-7i32, 3i32) }
    else if a == 7 { (-8i32, 0i32) }
    else if a == 8 { (-7i32, -3i32) }
    else if a == 9 { (-4i32, -6i32) }
    else if a == 10 { (-1i32, -7i32) }
    else if a == 11 { (1i32, -7i32) }
    else if a == 12 { (4i32, -6i32) }
    else { (7i32, -3i32) }
}

fn arena_offset(a: u32) -> (r: (i32, i32))
    requires
        a < 14,
    ensures
        r == arena_ring(a as int),
{
    if a == 0 { (8, 0) }
    else if a == 1 { (7, 3) }
    else if a == 2 { (4, 6) }
    else if a == 3 { (1, 7) }
    else if a == 4 { (-1, 7) }
    else if a == 5 { (-4, 6) }
    else if a == 6 { (-7, 3) }
    else if a == 7 { (-8, 0) }
    else if a == 8 { (-7, -3) }
    else if a == 9 { (-4, -6) }
    else if a == 10 { (-1, -7) }
    else if a == 11 { (1, -7) }
    else if a == 12 { (4, -6) }
    else { (7, -3) }
}

/// Ring point k of ruins around (x, y), kept at column and row 1 or more.
pub open spec fn ruin_point(x: i32, y: i32, k: int) -> (i32, i32) {
    let xx = (x + ruin_ring(k).0) as i32;
    let yy = (y + ruin_ring(k).1) as i32;
    (if xx > 1 { xx } else { 1i32 }, if yy > 1 { yy } else { 1i32 })
}

/// Ring point k (of the first `a`) of ruins around (x, y) gets a broken wall
/// (every point but each third one) and lies at wrapped index j.
pub open spec fn ruin_hits(x: i32, y: i32, k: int, j: int) -> bool {
    &&& 0 <= k < 12
    &&& k % 3 != 0
    &&& wrapped_cell(ruin_point(x, y, k).0, ruin_point(x, y, k).1) as int == j
}

/// Tile j after the first `a` ring points of ruins around (x, y).
pub open spec fn ruined_upto(o: Seq<Tile>, x: i32, y: i32, a: int, j: int) -> Tile {
    if exists|k: int| k < a && #[trigger] ruin_hits(x, y, k, j) {
        Tile { decor: Some(Decor::Ruin), ..o[j] }
    } else {
        o[j]
    }
}

/// Ruins: broken walls on 8 of the 12 ring points (every point but each third).
fn place_ruins(tiles: &mut Vec<Tile>, x: i32, y: i32)
    requires
        old(tiles)@.len() == GRID_LEN,
        coord_ok((x, y)),
    ensures
        final(tiles)@.len() == GRID_LEN,
        forall|j: int| 0 <= j < GRID_LEN ==> #[trigger] final(tiles)@[j] == ruined_upto(old(tiles)@, x, y, 12, j),
        walls_kept(old(tiles)@, final(tiles)@),
{
    let mut a: u32 = 0;
    while a < 12
        invariant
            tiles@.len() == GRID_LEN,
            0 <= a <= 12,
            coord_ok((x, y)),
            forall|j: int| 0 <= j < GRID_LEN ==> #[trigger] tiles@[j] == ruined_upto(old(tiles)@, x, y, a as int, j),
        decreases 12 - a,
    {
        let (ox, oy) = ruin_offset(a);
        let xx = x + ox;
        let yy = y + oy;
        let ghost before = tiles@;
        if a % 3 != 0 {
            let px = if xx > 1 { xx } else { 1 };
            let py = if yy > 1 { yy } else { 1 };
            assert((px, py) == ruin_point(x, y, a as int));
            put_decor(tiles, px, py, Some(Decor::Ruin));
            assert forall|j: int| 0 <= j < GRID_LEN implies #[trigger] tiles@[j] == ruined_upto(old(tiles)@, x, y, a + 1, j) by {
                if j == wrapped_cell(px, py) as int {
                    assert(ruin_hits(x, y, a as int, j));
                    assert(before[j] == ruined_upto(old(tiles)@, x, y, a as int, j));
                } else {
                    assert(before[j] == ruined_upto(old(tiles)@, x, y, a as int, j));
                    assert(!ruin_hits(x, y, a as int, j));
                    assert((exists|k: int| k < a + 1 && #[trigger] ruin_hits(x, y, k, j)) == (exists|k: int| k < a && #[trigger] ruin_hits(x, y, k, j)));
                }
            }
        } else {
            assert forall|j: int| 0 <= j < GRID_LEN implies #[trigger] tiles@[j] == ruined_upto(old(tiles)@, x, y, a + 1, j) by {
                assert(before[j] == ruined_upto(old(tiles)@, x, y, a as int, j));
                assert(!ruin_hits(x, y, a as int, j));
                assert((exists|k: int| k < a + 1 && #[trigger] ruin_hits(x, y, k, j)) == (exists|k: int| k < a && #[trigger] ruin_hits(x, y, k, j)));
            }
        }
        a += 1;
    }
    proof {
        let t = tiles@;
        let o = old(tiles)@;
        assert forall|j: int| 0 <= j < o.len() && (#[trigger] o[j]).wall == 0 implies t[j].wall == 0 by {
            assert(t[j] == t[j]);
        }
    }
}

/// Sets the decor of tile (x, y) if it lies in the grid.
fn put_decor_in_grid(tiles: &mut Vec<Tile>, x: i32, y: i32, d: Decor)
    requires
        old(tiles)@.len() == GRID_LEN,
        -20_000 <= x <= 20_000,
        -20_000 <= y <= 20_000,
    ensures
        final(tiles)@ == if in_grid(x as int, y as int) {
            old(tiles)@.update(cell(x as int, y as int), Tile { decor: Some(d), ..old(tiles)@[cell(x as int, y as int)] })
        } else {
            old(tiles)@
        },
        walls_kept(old(tiles)@, final(tiles)@),
{
    if x >= 0 && y >= 0 && x < 76 && y < 76 {
        let i = (y * 76 + x) as usize;
        let mut t = tiles[i];
        t.decor = Some(d);
        tiles.set(i, t);
    }
    proof {
        let t = tiles@;
        let o = old(tiles)@;
        assert forall|j: int| 0 <= j < o.len() && (#[trigger] o[j]).wall == 0 implies t[j].wall == 0 by {
            assert(t[j] == t[j]);
        }
    }
}

/// The tile at the wrapped index `y · 76 + x` (in `u32`) has a wall, or that
/// index is off the grid.
pub open spec fn wall_or_outside_at(t: Seq<Tile>, x: u32, y: u32) -> bool {
    let i = vstd::wrapping::u32_specs::wrapping_add(vstd::wrapping::u32_specs::wrapping_mul(y, 76u32), x) as int;
    if i < t.len() { t[i].wall > 0 } else { true }
}

/// Tile i lies next to a wall or to the edge of the grid (its four
/// neighbours taken by wrapped index).
pub open spec fn edge_near(t: Seq<Tile>, i: int) -> bool {
    let x = (i as u32) % 76;
    let y = (i as u32) / 76;
    ||| wall_or_outside_at(t, vstd::wrapping::u32_specs::wrapping_sub(x, 1), y)
    ||| wall_or_outside_at(t, (x + 1) as u32, y)
    ||| wall_or_outside_at(t, x, vstd::wrapping::u32_specs::wrapping_sub(y, 1))
    ||| wall_or_outside_at(t, x, (y + 1) as u32)
}

/// Tile j after edge decor: unchanged, or an open empty tile next to a wall
/// or the edge that got a tree (a cactus where `cactus`).
pub open spec fn edge_decor_ok(o: Seq<Tile>, j: int, t: Tile, cactus: bool) -> bool {
    ||| t == o[j]
    ||| {
        &&& o[j].wall == 0
        &&& o[j].decor is None
        &&& edge_near(o, j)
        &&& t == Tile { decor: Some(if cactus { Decor::CactusPlant } else { Decor::Tree }), ..o[j] }
    }
}

/// Walls alone decide `edge_near`.
proof fn lemma_edge_near_walls(a: Seq<Tile>, b: Seq<Tile>, i: int)
    requires
        a.len() == b.len(),
        forall|j: int| 0 <= j < a.len() ==> (#[trigger] a[j]).wall == b[j].wall,
    ensures
        edge_near(a, i) == edge_near(b, i),
{
    let x = (i as u32) % 76;
    let y = (i as u32) / 76;
    let w = |xx: u32, yy: u32| vstd::wrapping::u32_specs::wrapping_add(vstd::wrapping::u32_specs::wrapping_mul(yy, 76u32), xx) as int;
    let i1 = w(vstd::wrapping::u32_specs::wrapping_sub(x, 1), y);
    let i2 = w((x + 1) as u32, y);
    let i3 = w(x, vstd::wrapping::u32_specs::wrapping_sub(y, 1));
    let i4 = w(x, (y + 1) as u32);
    if 0 <= i1 < a.len() { assert(a[i1].wall == b[i1].wall); }
    if 0 <= i2 < a.len() { assert(a[i2].wall == b[i2].wall); }
    if 0 <= i3 < a.len() { assert(a[i3].wall == b[i3].wall); }
    if 0 <= i4 < a.len() { assert(a[i4].wall == b[i4].wall); }
}

/// Whether the tile at the wrapped index of (x, y) is a wall, or off the grid.
fn wall_or_outside(tiles: &Vec<Tile>, x: u32, y: u32) -> (b: bool)
    requires
        tiles@.len() == GRID_LEN,
    ensures
        b == wall_or_outside_at(tiles@, x, y),
{
    let i = y.wrapping_mul(76).wrapping_add(x) as usize;
    if i < tiles.len() {
        tiles[i].wall > 0
    } else {
        true
    }
}


/// Edge decor: each open, empty tile next to a wall gets a tree (a cactus
/// in canyons and deserts) with probability 1/10; nothing else changes.
fn scatter_edge_decor(tiles: &mut Vec<Tile>, rng: &mut rand::rngs::StdRng, cactus: bool)
    requires
        old(tiles)@.len() == GRID_LEN,
    ensures
        final(tiles)@.len() == GRID_LEN,
        forall|j: int| 0 <= j < GRID_LEN ==> {
            let t = #[trigger] final(tiles)@[j];
            let o = old(tiles)@[j];
            t.ground == o.ground && t.wall == o.wall && t.wall_block == o.wall_block
        },
        forall|j: int| 0 <= j < GRID_LEN ==> edge_decor_ok(old(tiles)@, j, #[trigger] final(tiles)@[j], cactus),
        walls_kept(old(tiles)@, final(tiles)@),
{
    let n = tiles.len();
    let mut i: usize = 0;
    while i < n
        invariant
            n == GRID_LEN,
            tiles@.len() == GRID_LEN,
            old(tiles)@.len() == GRID_LEN,
            0 <= i <= n,
            forall|j: int| 0 <= j < GRID_LEN ==> {
                let t = #[trigger] tiles@[j];
                let o = old(tiles)@[j];
                t.ground == o.ground && t.wall == o.wall && t.wall_block == o.wall_block
            },
            forall|j: int|
                0 <= j < GRID_LEN ==> if j < i {
                    edge_decor_ok(old(tiles)@, j, #[trigger] tiles@[j], cactus)
                } else {
                    tiles@[j] == old(tiles)@[j]
                },
        decreases n - i,
    {
        if tiles[i].wall == 0 && tiles[i].decor.is_none() {
            let x = (i as u32) % 76;
            let y = (i as u32) / 76;
            let near = wall_or_outside(tiles, x.wrapping_sub(1), y) || wall_or_outside(tiles, x + 1, y)
                || wall_or_outside(tiles, x, y.wrapping_sub(1)) || wall_or_outside(tiles, x, y + 1);
            proof {
                assert forall|j: int| 0 <= j < tiles@.len() implies (#[trigger] tiles@[j]).wall == old(tiles)@[j].wall by {}
                lemma_edge_near_walls(tiles@, old(tiles)@, i as int);
            }
            assert(near == edge_near(tiles@, i as int));
            if near && seeded_ratio(rng, 1, 10) {
                let mut t = tiles[i];
                t.decor = if cactus { Some(Decor::CactusPlant) } else { Some(Decor::Tree) };
                tiles.set(i, t);
            }
        }
        i += 1;
    }
    proof {
        let t = tiles@;
        let o = old(tiles)@;
        assert forall|j: int| 0 <= j < o.len() && (#[trigger] o[j]).wall == 0 implies t[j].wall == 0 by {
            assert(t[j] == t[j]);
        }
    }
}

/// Whether `k` names one of the biome's enemies.
pub open spec fn biome_enemy_name(biome: Biome, k: Seq<char>) -> bool {
    exists|j: int| 0 <= j < spec_biome_enemies(biome).len() && k == #[trigger] spec_biome_enemies(biome)[j].0
}

/// Draws an enemy kind, weighted by the biome table.
pub(crate) fn pick_kind_for(rng: &mut rand::rngs::StdRng, biome: Biome) -> (k: String)
    ensures
        biome_enemy_name(biome, k@),
{
    let table = biome_enemies(biome);
    let mut total: u32 = 0;
    let mut j: usize = 0;
    while j < table.len()
        invariant
            0 <= j <= table@.len(),
            1 <= table@.len() <= 12,
            forall|i: int| 0 <= i < table@.len() ==> 1 <= (#[trigger] table@[i]).1 <= 6,
            j <= total <= 6 * j,
        decreases table@.len() - j,
    {
        total = total + table[j].1;
        j += 1;
    }
    let mut roll = seeded_roll_below(rng, total);
    let mut j: usize = 0;
    while j < table.len()
        invariant
            0 <= j <= table@.len(),
            table@.len() == spec_biome_enemies(biome).len(),
            forall|i: int| 0 <= i < table@.len() ==> (#[trigger] table@[i]).0@ == spec_biome_enemies(biome)[i].0 && table@[i].1 == spec_biome_enemies(biome)[i].1,
        decreases table@.len() - j,
    {
        let (k, wt) = table[j];
        if roll < wt {
            assert(spec_biome_enemies(biome)[j as int].0 == k@);
            return String::from_str(k);
        }
        roll = roll - wt;
        j += 1;
    }
    let (k, _) = table[0];
    assert(spec_biome_enemies(biome)[0].0 == k@);
    String::from_str(k)
}

/// `count` enemy kinds drawn from the biome table.
pub(crate) fn pick_kinds_for(rng: &mut rand::rngs::StdRng, biome: Biome, count: u32) -> (v: Vec<String>)
    ensures
        v@.len() == count,
        forall|q: int| 0 <= q < v@.len() ==> biome_enemy_name(biome, (#[trigger] v@[q])@),
{
    let mut v: Vec<String> = Vec::new();
    let mut c: u32 = 0;
    while c < count
        invariant
            0 <= c <= count,
            v@.len() == c,
            forall|q: int| 0 <= q < v@.len() ==> biome_enemy_name(biome, (#[trigger] v@[q])@),
        decreases count - c,
    {
        let k = pick_kind_for(rng, biome);
        v.push(k);
        c += 1;
    }
    v
}

/// Tile (xx, yy) of `o` once linked to waypoint `best`: the radius-2 disk
/// around (px, py) and the corridor from `best` to (px, py), in
/// max(distance, 1) steps, are opened on the interior.
pub open spec fn linked_tile(
    o: Seq<Tile>,
    biome: Biome,
    wall_block: Block,
    best: (i32, i32),
    px: int,
    py: int,
    xx: int,
    yy: int,
) -> Tile {
    let d = manhattan(best, px, py);
    let steps = if d > 1 { d } else { 1 };
    if in_interior(xx, yy) && (in_disk(xx - px, yy - py, 2) || on_line(best.0 as int, best.1 as int, px, py, steps, steps + 1, xx, yy)) {
        open_tile(biome, wall_block, xx, yy)
    } else {
        o[cell(xx, yy)]
    }
}

/// `b` is `a` linked to waypoint `best` from (px, py).
pub open spec fn linked(a: Seq<Tile>, b: Seq<Tile>, biome: Biome, wall_block: Block, best: (i32, i32), px: int, py: int) -> bool {
    forall|xx: int, yy: int|
        in_grid(xx, yy) ==> #[trigger] b[cell(xx, yy)] == linked_tile(a, biome, wall_block, best, px, py, xx, yy)
}

/// Opens a disk of radius 2 at (px, py) and a corridor to the nearest waypoint.
fn link_to_path(tiles: &mut Vec<Tile>, biome: Biome, wall_block: Block, path: &Vec<(i32, i32)>, px: i32, py: i32)
    requires
        old(tiles)@.len() == GRID_LEN,
        path@.len() >= 1,
        forall|i: int| 0 <= i < path@.len() ==> coord_ok(#[trigger] path@[i]),
        coord_ok((px, py)),
    ensures
        final(tiles)@.len() == GRID_LEN,
        exists|k: int|
            #[trigger] first_nearest(path@, px as int, py as int, k) && linked(
                old(tiles)@,
                final(tiles)@,
                biome,
                wall_block,
                path@[k],
                px as int,
                py as int,
            ),
        walls_kept(old(tiles)@, final(tiles)@),
        inside2((px as int, py as int)) && (forall|i: int| 0 <= i < path@.len() ==> inside2(
            ((#[trigger] path@[i]).0 as int, path@[i].1 as int),
        )) ==> exists|k: int|
            0 <= k < path@.len() && #[trigger] open_connected(
                final(tiles)@,
                (path@[k].0 as int, path@[k].1 as int),
                (px as int, py as int),
            ),
{
    let (best, bd) = nearest_by_manhattan(path, px, py);
    let ghost k = choose|k: int| #[trigger] first_nearest(path@, px as int, py as int, k) && path@[k] == best;
    let ghost o = tiles@;
    carve(tiles, biome, wall_block, px, py, 2);
    let ghost mid = tiles@;
    let steps = if bd > 1 { bd } else { 1 };
    carve_line(tiles, biome, wall_block, best.0, best.1, px, py, steps);
    proof {
        lemma_walls_kept_trans(o, mid, tiles@);
        assert(open_connected(tiles@, (path@[k].0 as int, path@[k].1 as int), (px as int, py as int)) <== inside2((px as int, py as int)) && inside2((best.0 as int, best.1 as int)));
    }
    assert(linked(o, tiles@, biome, wall_block, path@[k], px as int, py as int)) by {
        assert forall|xx: int, yy: int| in_grid(xx, yy) implies #[trigger] tiles@[cell(xx, yy)] == linked_tile(o, biome, wall_block, best, px as int, py as int, xx, yy) by {
            assert(mid[cell(xx, yy)] == if in_interior(xx, yy) && in_disk(xx - px, yy - py, 2) {
                open_tile(biome, wall_block, xx, yy)
            } else {
                o[cell(xx, yy)]
            });
        }
    }
}

/// Column of the secret room of a lever at column `lx`: 10 columns east,
/// kept in 3..=72.
pub open spec fn secret_room_column(lx: i32) -> int {
    if lx + 10 < 3 { 3 } else if lx + 10 > 72 { 72 } else { lx + 10 }
}

/// The secret room lies east of the rest of the authored layout: its centre
/// more than two columns east of every waypoint, captive and chest (whose
/// corridors and clearings reach two cells out), and more than eight east of
/// the arena (whose pillars reach eight cells out).
pub open spec fn secret_room_apart(map: RealMap) -> bool {
    let rx = secret_room_column(map.lever.0);
    &&& east_of_layout(map, rx)
    &&& map.arena.0 + 8 < rx
}

/// Column `xx` lies more than two columns east of every waypoint, captive
/// and chest of `map`.
pub open spec fn east_of_layout(map: RealMap, xx: int) -> bool {
    &&& forall|i: int| 0 <= i < map.path@.len() ==> (#[trigger] map.path@[i]).0 + 2 < xx
    &&& forall|i: int| 0 <= i < map.captives@.len() ==> (#[trigger] map.captives@[i]).0 + 2 < xx
    &&& forall|i: int| 0 <= i < map.chests@.len() ==> (#[trigger] map.chests@[i]).0 + 2 < xx
}

/// A clearing and corridor joining (px, py) to `best` leave every tile more
/// than two columns east of both untouched.
proof fn lemma_link_spares_east(
    a: Seq<Tile>,
    b: Seq<Tile>,
    biome: Biome,
    wall_block: Block,
    best: (i32, i32),
    px: int,
    py: int,
    xx: int,
    yy: int,
)
    requires
        linked(a, b, biome, wall_block, best, px, py),
        in_grid(xx, yy),
        best.0 + 2 < xx,
        px + 2 < xx,
    ensures
        b[cell(xx, yy)] == a[cell(xx, yy)],
{
    let d = manhattan(best, px, py);
    let steps = if d > 1 { d } else { 1 };
    assert forall|st: int| 0 <= st < steps + 1 implies !#[trigger] line_disk(
        best.0 as int,
        best.1 as int,
        px,
        py,
        steps,
        st,
        xx,
        yy,
    ) by {
        lemma_line_range(px - best.0, steps, st);
    }
    assert(!on_line(best.0 as int, best.1 as int, px, py, steps, steps + 1, xx, yy));
    assert(b[cell(xx, yy)] == linked_tile(a, biome, wall_block, best, px, py, xx, yy));
}

/// No captive of `map` stands on the portal or where an arena prop goes.
pub open spec fn captives_apart(map: RealMap) -> bool {
    forall|i: int|
        0 <= i < map.captives@.len() ==> (#[trigger] map.captives@[i]) != map.portal && !arena_prop_cell(
            map.arena.0,
            map.arena.1,
            map.captives@[i].0 as int,
            map.captives@[i].1 as int,
        )
}

/// No chest of `map` stands on a captive, on the portal or where an arena
/// prop goes.
pub open spec fn chests_apart(map: RealMap) -> bool {
    forall|i: int|
        0 <= i < map.chests@.len() ==> {
            let c = #[trigger] map.chests@[i];
            &&& c != map.portal
            &&& !arena_prop_cell(map.arena.0, map.arena.1, c.0 as int, c.1 as int)
            &&& forall|j: int| 0 <= j < map.captives@.len() ==> c != #[trigger] map.captives@[j]
        }
}

/// Index that `y * 76 + x` gives for a marker, or 0 when that is not
/// positive.
pub open spec fn marker_index(p: (i32, i32)) -> int {
    if p.1 * 76 + p.0 > 0 { p.1 * 76 + p.0 } else { 0 }
}

/// Tile `j` is where a cage of `map` is put.
pub open spec fn captive_marker(map: RealMap, j: int) -> bool {
    exists|i: int| 0 <= i < map.captives@.len() && j == marker_index(#[trigger] map.captives@[i])
}

/// Tile `j` is where a cage, a chest or the portal of `map` is put.
pub open spec fn marker_at(map: RealMap, j: int) -> bool {
    ||| exists|i: int| 0 <= i < map.captives@.len() && j == marker_index(#[trigger] map.captives@[i])
    ||| exists|i: int| 0 <= i < map.chests@.len() && j == marker_index(#[trigger] map.chests@[i])
    ||| j == marker_index(map.portal)
}

/// The secret room of radius 4 beside the lever lies wholly in the interior.
pub open spec fn secret_room_inside(lever: (i32, i32)) -> bool {
    5 <= secret_room_column(lever.0) <= 70 && 5 <= lever.1 <= 70
}

/// Offset k of the 9 × 9 block (row by row, from (-4, -4)) lies in the
/// disk of radius 4.
pub open spec fn disk_pt(k: int) -> bool {
    let dx = k % 9 - 4;
    let dy = k / 9 - 4;
    dx * dx + dy * dy <= 16
}

/// Offsets among the first k of the 9 × 9 block that lie in the disk.
pub open spec fn disk_count(k: nat) -> nat
    decreases k,
{
    if k == 0 { 0 } else { disk_count((k - 1) as nat) + if disk_pt(k - 1) { 1nat } else { 0nat } }
}

/// The disk of radius 4 holds 49 offsets.
proof fn lemma_disk_count()
    ensures
        disk_count(81) == 49,
{
    assert(disk_count(0) == 0);
    assert(!disk_pt(0)) by {
        assert(0int % 9 == 0 && 0int / 9 == 0);
        assert((0int % 9 - 4) * (0int % 9 - 4) + (0int / 9 - 4) * (0int / 9 - 4) == 32) by (nonlinear_arith);
    }
    assert(disk_count(1) == 0);
    assert(!disk_pt(1)) by {
        assert(1int % 9 == 1 && 1int / 9 == 0);
        assert((1int % 9 - 4) * (1int % 9 - 4) + (1int / 9 - 4) * (1int / 9 - 4) == 25) by (nonlinear_arith);
    }
    assert(disk_count(2) == 0);
    assert(!disk_pt(2)) by {
        assert(2int % 9 == 2 && 2int / 9 == 0);
        assert((2int % 9 - 4) * (2int % 9 - 4) + (2int / 9 - 4) * (2int / 9 - 4) == 20) by (nonlinear_arith);
    }
    assert(disk_count(3) == 0);
    assert(!disk_pt(3)) by {
        assert(3int % 9 == 3 && 3int / 9 == 0);
        assert((3int % 9 - 4) * (3int % 9 - 4) + (3int / 9 - 4) * (3int / 9 - 4) == 17) by (nonlinear_arith);
    }
    assert(disk_count(4) == 0);
    assert(disk_pt(4)) by {
        assert(4int % 9 == 4 && 4int / 9 == 0);
        assert((4int % 9 - 4) * (4int % 9 - 4) + (4int / 9 - 4) * (4int / 9 - 4) == 16) by (nonlinear_arith);
    }
    assert(disk_count(5) == 1);
    assert(!disk_pt(5)) by {
        assert(5int % 9 == 5 && 5int / 9 == 0);
        assert((5int % 9 - 4) * (5int % 9 - 4) + (5int / 9 - 4) * (5int / 9 - 4) == 17) by (nonlinear_arith);
    }
    assert(disk_count(6) == 1);
    assert(!disk_pt(6)) by {
        assert(6int % 9 == 6 && 6int / 9 == 0);
        assert((6int % 9 - 4) * (6int % 9 - 4) + (6int / 9 - 4) * (6int / 9 - 4) == 20) by (nonlinear_arith);
    }
    assert(disk_count(7) == 1);
    assert(!disk_pt(7)) by {
        assert(7int % 9 == 7 && 7int / 9 == 0);
        assert((7int % 9 - 4) * (7int % 9 - 4) + (7int / 9 - 4) * (7int / 9 - 4) == 25) by (nonlinear_arith);
    }
    assert(disk_count(8) == 1);
    assert(!disk_pt(8)) by {
        assert(8int % 9 == 8 && 8int / 9 == 0);
        assert((8int % 9 - 4) * (8int % 9 - 4) + (8int / 9 - 4) * (8int / 9 - 4) == 32) by (nonlinear_arith);
    }
    assert(disk_count(9) == 1);
    assert(!disk_pt(9)) by {
        assert(9int % 9 == 0 && 9int / 9 == 1);
        assert((9int % 9 - 4) * (9int % 9 - 4) + (9int / 9 - 4) * (9int / 9 - 4) == 25) by (nonlinear_arith);
    }
    assert(disk_count(10) == 1);
    assert(!disk_pt(10)) by {
        assert(10int % 9 == 1 && 10int / 9 == 1);
        assert((10int % 9 - 4) * (10int % 9 - 4) + (10int / 9 - 4) * (10int / 9 - 4) == 18) by (nonlinear_arith);
    }
    assert(disk_count(11) == 1);
    assert(disk_pt(11)) by {
        assert(11int % 9 == 2 && 11int / 9 == 1);
        assert((11int % 9 - 4) * (11int % 9 - 4) + (11int / 9 - 4) * (11int / 9 - 4) == 13) by (nonlinear_arith);
    }
    assert(disk_count(12) == 2);
    assert(disk_pt(12)) by {
        assert(12int % 9 == 3 && 12int / 9 == 1);
        assert((12int % 9 - 4) * (12int % 9 - 4) + (12int / 9 - 4) * (12int / 9 - 4) == 10) by (nonlinear_arith);
    }
    assert(disk_count(13) == 3);
    assert(disk_pt(13)) by {
        assert(13int % 9 == 4 && 13int / 9 == 1);
        assert((13int % 9 - 4) * (13int % 9 - 4) + (13int / 9 - 4) * (13int / 9 - 4) == 9) by (nonlinear_arith);
    }
    assert(disk_count(14) == 4);
    assert(disk_pt(14)) by {
        assert(14int % 9 == 5 && 14int / 9 == 1);
        assert((14int % 9 - 4) * (14int % 9 - 4) + (14int / 9 - 4) * (14int / 9 - 4) == 10) by (nonlinear_arith);
    }
    assert(disk_count(15) == 5);
    assert(disk_pt(15)) by {
        assert(15int % 9 == 6 && 15int / 9 == 1);
        assert((15int % 9 - 4) * (15int % 9 - 4) + (15int / 9 - 4) * (15int / 9 - 4) == 13) by (nonlinear_arith);
    }
    assert(disk_count(16) == 6);
    assert(!disk_pt(16)) by {
        assert(16int % 9 == 7 && 16int / 9 == 1);
        assert((16int % 9 - 4) * (16int % 9 - 4) + (16int / 9 - 4) * (16int / 9 - 4) == 18) by (nonlinear_arith);
    }
    assert(disk_count(17) == 6);
    assert(!disk_pt(17)) by {
        assert(17int % 9 == 8 && 17int / 9 == 1);
        assert((17int % 9 - 4) * (17int % 9 - 4) + (17int / 9 - 4) * (17int / 9 - 4) == 25) by (nonlinear_arith);
    }
    assert(disk_count(18) == 6);
    assert(!disk_pt(18)) by {
        assert(18int % 9 == 0 && 18int / 9 == 2);
        assert((18int % 9 - 4) * (18int % 9 - 4) + (18int / 9 - 4) * (18int / 9 - 4) == 20) by (nonlinear_arith);
    }
    assert(disk_count(19) == 6);
    assert(disk_pt(19)) by {
        assert(19int % 9 == 1 && 19int / 9 == 2);
        assert((19int % 9 - 4) * (19int % 9 - 4) + (19int / 9 - 4) * (19int / 9 - 4) == 13) by (nonlinear_arith);
    }
    assert(disk_count(20) == 7);
    assert(disk_pt(20)) by {
        assert(20int % 9 == 2 && 20int / 9 == 2);
        assert((20int % 9 - 4) * (20int % 9 - 4) + (20int / 9 - 4) * (20int / 9 - 4) == 8) by (nonlinear_arith);
    }
    assert(disk_count(21) == 8);
    assert(disk_pt(21)) by {
        assert(21int % 9 == 3 && 21int / 9 == 2);
        assert((21int % 9 - 4) * (21int % 9 - 4) + (21int / 9 - 4) * (21int / 9 - 4) == 5) by (nonlinear_arith);
    }
    assert(disk_count(22) == 9);
    assert(disk_pt(22)) by {
        assert(22int % 9 == 4 && 22int / 9 == 2);
        assert((22int % 9 - 4) * (22int % 9 - 4) + (22int / 9 - 4) * (22int / 9 - 4) == 4) by (nonlinear_arith);
    }
    assert(disk_count(23) == 10);
    assert(disk_pt(23)) by {
        assert(23int % 9 == 5 && 23int / 9 == 2);
        assert((23int % 9 - 4) * (23int % 9 - 4) + (23int / 9 - 4) * (23int / 9 - 4) == 5) by (nonlinear_arith);
    }
    assert(disk_count(24) == 11);
    assert(disk_pt(24)) by {
        assert(24int % 9 == 6 && 24int / 9 == 2);
        assert((24int % 9 - 4) * (24int % 9 - 4) + (24int / 9 - 4) * (24int / 9 - 4) == 8) by (nonlinear_arith);
    }
    assert(disk_count(25) == 12);
    assert(disk_pt(25)) by {
        assert(25int % 9 == 7 && 25int / 9 == 2);
        assert((25int % 9 - 4) * (25int % 9 - 4) + (25int / 9 - 4) * (25int / 9 - 4) == 13) by (nonlinear_arith);
    }
    assert(disk_count(26) == 13);
    assert(!disk_pt(26)) by {
        assert(26int % 9 == 8 && 26int / 9 == 2);
        assert((26int % 9 - 4) * (26int % 9 - 4) + (26int / 9 - 4) * (26int / 9 - 4) == 20) by (nonlinear_arith);
    }
    assert(disk_count(27) == 13);
    assert(!disk_pt(27)) by {
        assert(27int % 9 == 0 && 27int / 9 == 3);
        assert((27int % 9 - 4) * (27int % 9 - 4) + (27int / 9 - 4) * (27int / 9 - 4) == 17) by (nonlinear_arith);
    }
    assert(disk_count(28) == 13);
    assert(disk_pt(28)) by {
        assert(28int % 9 == 1 && 28int / 9 == 3);
        assert((28int % 9 - 4) * (28int % 9 - 4) + (28int / 9 - 4) * (28int / 9 - 4) == 10) by (nonlinear_arith);
    }
    assert(disk_count(29) == 14);
    assert(disk_pt(29)) by {
        assert(29int % 9 == 2 && 29int / 9 == 3);
        assert((29int % 9 - 4) * (29int % 9 - 4) + (29int / 9 - 4) * (29int / 9 - 4) == 5) by (nonlinear_arith);
    }
    assert(disk_count(30) == 15);
    assert(disk_pt(30)) by {
        assert(30int % 9 == 3 && 30int / 9 == 3);
        assert((30int % 9 - 4) * (30int % 9 - 4) + (30int / 9 - 4) * (30int / 9 - 4) == 2) by (nonlinear_arith);
    }
    assert(disk_count(31) == 16);
    assert(disk_pt(31)) by {
        assert(31int % 9 == 4 && 31int / 9 == 3);
        assert((31int % 9 - 4) * (31int % 9 - 4) + (31int / 9 - 4) * (31int / 9 - 4) == 1) by (nonlinear_arith);
    }
    assert(disk_count(32) == 17);
    assert(disk_pt(32)) by {
        assert(32int % 9 == 5 && 32int / 9 == 3);
        assert((32int % 9 - 4) * (32int % 9 - 4) + (32int / 9 - 4) * (32int / 9 - 4) == 2) by (nonlinear_arith);
    }
    assert(disk_count(33) == 18);
    assert(disk_pt(33)) by {
        assert(33int % 9 == 6 && 33int / 9 == 3);
        assert((33int % 9 - 4) * (33int % 9 - 4) + (33int / 9 - 4) * (33int / 9 - 4) == 5) by (nonlinear_arith);
    }
    assert(disk_count(34) == 19);
    assert(disk_pt(34)) by {
        assert(34int % 9 == 7 && 34int / 9 == 3);
        assert((34int % 9 - 4) * (34int % 9 - 4) + (34int / 9 - 4) * (34int / 9 - 4) == 10) by (nonlinear_arith);
    }
    assert(disk_count(35) == 20);
    assert(!disk_pt(35)) by {
        assert(35int % 9 == 8 && 35int / 9 == 3);
        assert((35int % 9 - 4) * (35int % 9 - 4) + (35int / 9 - 4) * (35int / 9 - 4) == 17) by (nonlinear_arith);
    }
    assert(disk_count(36) == 20);
    assert(disk_pt(36)) by {
        assert(36int % 9 == 0 && 36int / 9 == 4);
        assert((36int % 9 - 4) * (36int % 9 - 4) + (36int / 9 - 4) * (36int / 9 - 4) == 16) by (nonlinear_arith);
    }
    assert(disk_count(37) == 21);
    assert(disk_pt(37)) by {
        assert(37int % 9 == 1 && 37int / 9 == 4);
        assert((37int % 9 - 4) * (37int % 9 - 4) + (37int / 9 - 4) * (37int / 9 - 4) == 9) by (nonlinear_arith);
    }
    assert(disk_count(38) == 22);
    assert(disk_pt(38)) by {
        assert(38int % 9 == 2 && 38int / 9 == 4);
        assert((38int % 9 - 4) * (38int % 9 - 4) + (38int / 9 - 4) * (38int / 9 - 4) == 4) by (nonlinear_arith);
    }
    assert(disk_count(39) == 23);
    assert(disk_pt(39)) by {
        assert(39int % 9 == 3 && 39int / 9 == 4);
        assert((39int % 9 - 4) * (39int % 9 - 4) + (39int / 9 - 4) * (39int / 9 - 4) == 1) by (nonlinear_arith);
    }
    assert(disk_count(40) == 24);
    assert(disk_pt(40)) by {
        assert(40int % 9 == 4 && 40int / 9 == 4);
        assert((40int % 9 - 4) * (40int % 9 - 4) + (40int / 9 - 4) * (40int / 9 - 4) == 0) by (nonlinear_arith);
    }
    assert(disk_count(41) == 25);
    assert(disk_pt(41)) by {
        assert(41int % 9 == 5 && 41int / 9 == 4);
        assert((41int % 9 - 4) * (41int % 9 - 4) + (41int / 9 - 4) * (41int / 9 - 4) == 1) by (nonlinear_arith);
    }
    assert(disk_count(42) == 26);
    assert(disk_pt(42)) by {
        assert(42int % 9 == 6 && 42int / 9 == 4);
        assert((42int % 9 - 4) * (42int % 9 - 4) + (42int / 9 - 4) * (42int / 9 - 4) == 4) by (nonlinear_arith);
    }
    assert(disk_count(43) == 27);
    assert(disk_pt(43)) by {
        assert(43int % 9 == 7 && 43int / 9 == 4);
        assert((43int % 9 - 4) * (43int % 9 - 4) + (43int / 9 - 4) * (43int / 9 - 4) == 9) by (nonlinear_arith);
    }
    assert(disk_count(44) == 28);
    assert(disk_pt(44)) by {
        assert(44int % 9 == 8 && 44int / 9 == 4);
        assert((44int % 9 - 4) * (44int % 9 - 4) + (44int / 9 - 4) * (44int / 9 - 4) == 16) by (nonlinear_arith);
    }
    assert(disk_count(45) == 29);
    assert(!disk_pt(45)) by {
        assert(45int % 9 == 0 && 45int / 9 == 5);
        assert((45int % 9 - 4) * (45int % 9 - 4) + (45int / 9 - 4) * (45int / 9 - 4) == 17) by (nonlinear_arith);
    }
    assert(disk_count(46) == 29);
    assert(disk_pt(46)) by {
        assert(46int % 9 == 1 && 46int / 9 == 5);
        assert((46int % 9 - 4) * (46int % 9 - 4) + (46int / 9 - 4) * (46int / 9 - 4) == 10) by (nonlinear_arith);
    }
    assert(disk_count(47) == 30);
    assert(disk_pt(47)) by {
        assert(47int % 9 == 2 && 47int / 9 == 5);
        assert((47int % 9 - 4) * (47int % 9 - 4) + (47int / 9 - 4) * (47int / 9 - 4) == 5) by (nonlinear_arith);
    }
    assert(disk_count(48) == 31);
    assert(disk_pt(48)) by {
        assert(48int % 9 == 3 && 48int / 9 == 5);
        assert((48int % 9 - 4) * (48int % 9 - 4) + (48int / 9 - 4) * (48int / 9 - 4) == 2) by (nonlinear_arith);
    }
    assert(disk_count(49) == 32);
    assert(disk_pt(49)) by {
        assert(49int % 9 == 4 && 49int / 9 == 5);
        assert((49int % 9 - 4) * (49int % 9 - 4) + (49int / 9 - 4) * (49int / 9 - 4) == 1) by (nonlinear_arith);
    }
    assert(disk_count(50) == 33);
    assert(disk_pt(50)) by {
        assert(50int % 9 == 5 && 50int / 9 == 5);
        assert((50int % 9 - 4) * (50int % 9 - 4) + (50int / 9 - 4) * (50int / 9 - 4) == 2) by (nonlinear_arith);
    }
    assert(disk_count(51) == 34);
    assert(disk_pt(51)) by {
        assert(51int % 9 == 6 && 51int / 9 == 5);
        assert((51int % 9 - 4) * (51int % 9 - 4) + (51int / 9 - 4) * (51int / 9 - 4) == 5) by (nonlinear_arith);
    }
    assert(disk_count(52) == 35);
    assert(disk_pt(52)) by {
        assert(52int % 9 == 7 && 52int / 9 == 5);
        assert((52int % 9 - 4) * (52int % 9 - 4) + (52int / 9 - 4) * (52int / 9 - 4) == 10) by (nonlinear_arith);
    }
    assert(disk_count(53) == 36);
    assert(!disk_pt(53)) by {
        assert(53int % 9 == 8 && 53int / 9 == 5);
        assert((53int % 9 - 4) * (53int % 9 - 4) + (53int / 9 - 4) * (53int / 9 - 4) == 17) by (nonlinear_arith);
    }
    assert(disk_count(54) == 36);
    assert(!disk_pt(54)) by {
        assert(54int % 9 == 0 && 54int / 9 == 6);
        assert((54int % 9 - 4) * (54int % 9 - 4) + (54int / 9 - 4) * (54int / 9 - 4) == 20) by (nonlinear_arith);
    }
    assert(disk_count(55) == 36);
    assert(disk_pt(55)) by {
        assert(55int % 9 == 1 && 55int / 9 == 6);
        assert((55int % 9 - 4) * (55int % 9 - 4) + (55int / 9 - 4) * (55int / 9 - 4) == 13) by (nonlinear_arith);
    }
    assert(disk_count(56) == 37);
    assert(disk_pt(56)) by {
        assert(56int % 9 == 2 && 56int / 9 == 6);
        assert((56int % 9 - 4) * (56int % 9 - 4) + (56int / 9 - 4) * (56int / 9 - 4) == 8) by (nonlinear_arith);
    }
    assert(disk_count(57) == 38);
    assert(disk_pt(57)) by {
        assert(57int % 9 == 3 && 57int / 9 == 6);
        assert((57int % 9 - 4) * (57int % 9 - 4) + (57int / 9 - 4) * (57int / 9 - 4) == 5) by (nonlinear_arith);
    }
    assert(disk_count(58) == 39);
    assert(disk_pt(58)) by {
        assert(58int % 9 == 4 && 58int / 9 == 6);
        assert((58int % 9 - 4) * (58int % 9 - 4) + (58int / 9 - 4) * (58int / 9 - 4) == 4) by (nonlinear_arith);
    }
    assert(disk_count(59) == 40);
    assert(disk_pt(59)) by {
        assert(59int % 9 == 5 && 59int / 9 == 6);
        assert((59int % 9 - 4) * (59int % 9 - 4) + (59int / 9 - 4) * (59int / 9 - 4) == 5) by (nonlinear_arith);
    }
    assert(disk_count(60) == 41);
    assert(disk_pt(60)) by {
        assert(60int % 9 == 6 && 60int / 9 == 6);
        assert((60int % 9 - 4) * (60int % 9 - 4) + (60int / 9 - 4) * (60int / 9 - 4) == 8) by (nonlinear_arith);
    }
    assert(disk_count(61) == 42);
    assert(disk_pt(61)) by {
        assert(61int % 9 == 7 && 61int / 9 == 6);
        assert((61int % 9 - 4) * (61int % 9 - 4) + (61int / 9 - 4) * (61int / 9 - 4) == 13) by (nonlinear_arith);
    }
    assert(disk_count(62) == 43);
    assert(!disk_pt(62)) by {
        assert(62int % 9 == 8 && 62int / 9 == 6);
        assert((62int % 9 - 4) * (62int % 9 - 4) + (62int / 9 - 4) * (62int / 9 - 4) == 20) by (nonlinear_arith);
    }
    assert(disk_count(63) == 43);
    assert(!disk_pt(63)) by {
        assert(63int % 9 == 0 && 63int / 9 == 7);
        assert((63int % 9 - 4) * (63int % 9 - 4) + (63int / 9 - 4) * (63int / 9 - 4) == 25) by (nonlinear_arith);
    }
    assert(disk_count(64) == 43);
    assert(!disk_pt(64)) by {
        assert(64int % 9 == 1 && 64int / 9 == 7);
        assert((64int % 9 - 4) * (64int % 9 - 4) + (64int / 9 - 4) * (64int / 9 - 4) == 18) by (nonlinear_arith);
    }
    assert(disk_count(65) == 43);
    assert(disk_pt(65)) by {
        assert(65int % 9 == 2 && 65int / 9 == 7);
        assert((65int % 9 - 4) * (65int % 9 - 4) + (65int / 9 - 4) * (65int / 9 - 4) == 13) by (nonlinear_arith);
    }
    assert(disk_count(66) == 44);
    assert(disk_pt(66)) by {
        assert(66int % 9 == 3 && 66int / 9 == 7);
        assert((66int % 9 - 4) * (66int % 9 - 4) + (66int / 9 - 4) * (66int / 9 - 4) == 10) by (nonlinear_arith);
    }
    assert(disk_count(67) == 45);
    assert(disk_pt(67)) by {
        assert(67int % 9 == 4 && 67int / 9 == 7);
        assert((67int % 9 - 4) * (67int % 9 - 4) + (67int / 9 - 4) * (67int / 9 - 4) == 9) by (nonlinear_arith);
    }
    assert(disk_count(68) == 46);
    assert(disk_pt(68)) by {
        assert(68int % 9 == 5 && 68int / 9 == 7);
        assert((68int % 9 - 4) * (68int % 9 - 4) + (68int / 9 - 4) * (68int / 9 - 4) == 10) by (nonlinear_arith);
    }
    assert(disk_count(69) == 47);
    assert(disk_pt(69)) by {
        assert(69int % 9 == 6 && 69int / 9 == 7);
        assert((69int % 9 - 4) * (69int % 9 - 4) + (69int / 9 - 4) * (69int / 9 - 4) == 13) by (nonlinear_arith);
    }
    assert(disk_count(70) == 48);
    assert(!disk_pt(70)) by {
        assert(70int % 9 == 7 && 70int / 9 == 7);
        assert((70int % 9 - 4) * (70int % 9 - 4) + (70int / 9 - 4) * (70int / 9 - 4) == 18) by (nonlinear_arith);
    }
    assert(disk_count(71) == 48);
    assert(!disk_pt(71)) by {
        assert(71int % 9 == 8 && 71int / 9 == 7);
        assert((71int % 9 - 4) * (71int % 9 - 4) + (71int / 9 - 4) * (71int / 9 - 4) == 25) by (nonlinear_arith);
    }
    assert(disk_count(72) == 48);
    assert(!disk_pt(72)) by {
        assert(72int % 9 == 0 && 72int / 9 == 8);
        assert((72int % 9 - 4) * (72int % 9 - 4) + (72int / 9 - 4) * (72int / 9 - 4) == 32) by (nonlinear_arith);
    }
    assert(disk_count(73) == 48);
    assert(!disk_pt(73)) by {
        assert(73int % 9 == 1 && 73int / 9 == 8);
        assert((73int % 9 - 4) * (73int % 9 - 4) + (73int / 9 - 4) * (73int / 9 - 4) == 25) by (nonlinear_arith);
    }
    assert(disk_count(74) == 48);
    assert(!disk_pt(74)) by {
        assert(74int % 9 == 2 && 74int / 9 == 8);
        assert((74int % 9 - 4) * (74int % 9 - 4) + (74int / 9 - 4) * (74int / 9 - 4) == 20) by (nonlinear_arith);
    }
    assert(disk_count(75) == 48);
    assert(!disk_pt(75)) by {
        assert(75int % 9 == 3 && 75int / 9 == 8);
        assert((75int % 9 - 4) * (75int % 9 - 4) + (75int / 9 - 4) * (75int / 9 - 4) == 17) by (nonlinear_arith);
    }
    assert(disk_count(76) == 48);
    assert(disk_pt(76)) by {
        assert(76int % 9 == 4 && 76int / 9 == 8);
        assert((76int % 9 - 4) * (76int % 9 - 4) + (76int / 9 - 4) * (76int / 9 - 4) == 16) by (nonlinear_arith);
    }
    assert(disk_count(77) == 49);
    assert(!disk_pt(77)) by {
        assert(77int % 9 == 5 && 77int / 9 == 8);
        assert((77int % 9 - 4) * (77int % 9 - 4) + (77int / 9 - 4) * (77int / 9 - 4) == 17) by (nonlinear_arith);
    }
    assert(disk_count(78) == 49);
    assert(!disk_pt(78)) by {
        assert(78int % 9 == 6 && 78int / 9 == 8);
        assert((78int % 9 - 4) * (78int % 9 - 4) + (78int / 9 - 4) * (78int / 9 - 4) == 20) by (nonlinear_arith);
    }
    assert(disk_count(79) == 49);
    assert(!disk_pt(79)) by {
        assert(79int % 9 == 7 && 79int / 9 == 8);
        assert((79int % 9 - 4) * (79int % 9 - 4) + (79int / 9 - 4) * (79int / 9 - 4) == 25) by (nonlinear_arith);
    }
    assert(disk_count(80) == 49);
    assert(!disk_pt(80)) by {
        assert(80int % 9 == 8 && 80int / 9 == 8);
        assert((80int % 9 - 4) * (80int % 9 - 4) + (80int / 9 - 4) * (80int / 9 - 4) == 32) by (nonlinear_arith);
    }
    assert(disk_count(81) == 49);
}

/// The enemy groups of `gs` whose waypoint index is below `n`, in order:
/// those that stand on an existing waypoint of a path of `n` waypoints.
pub open spec fn placed_groups(gs: Seq<(usize, u32)>, n: int) -> Seq<(usize, u32)>
    decreases gs.len(),
{
    if gs.len() == 0 {
        Seq::<(usize, u32)>::empty()
    } else {
        let rest = placed_groups(gs.drop_last(), n);
        if (gs.last().0 as int) < n { rest.push(gs.last()) } else { rest }
    }
}

impl RealMap {
    /// The map is laid out well inside the grid: at least two waypoints,
    /// every waypoint, captive, chest and the lever two cells or more from
    /// the edge; the spawn on the first waypoint, the arena on the last, and
    /// the portal two rows north of the arena.
    pub open spec fn laid_out_inside(&self) -> bool {
        &&& self.path@.len() >= 2
        &&& forall|i: int| 0 <= i < self.path@.len() ==> inside2(pt(#[trigger] self.path@[i]))
        &&& forall|i: int| 0 <= i < self.captives@.len() ==> inside2(pt(#[trigger] self.captives@[i]))
        &&& forall|i: int| 0 <= i < self.chests@.len() ==> inside2(pt(#[trigger] self.chests@[i]))
        &&& inside2(pt(self.lever))
        &&& self.spawns == self.path@[0]
        &&& self.arena == self.path@.last()
        &&& self.portal == (self.arena.0, (self.arena.1 - 2) as i32)
    }
}

/// A map coordinate pair as a cell.
pub open spec fn pt(p: (i32, i32)) -> (int, int) {
    (p.0 as int, p.1 as int)
}

/// What walks through cells without a wall join to the spawn of `map` in
/// tiles `t`: every waypoint, the cell in front of the portal, the lever
/// (where there is a rune), the first `nc` captives and the first `nch`
/// chests. Decor on the cells is not looked at: solid decor can close a
/// corridor on foot (edge decor drawn beside a ruin does, for some seeds).
#[verifier::opaque]
pub open spec fn open_reach_from_spawn(t: Seq<Tile>, map: RealMap, rune: bool, nc: int, nch: int) -> bool {
    let s = pt(map.spawns);
    &&& forall|i: int| 0 <= i < map.path@.len() ==> open_connected(t, s, pt(#[trigger] map.path@[i]))
    &&& open_connected(t, s, (map.portal.0 as int, map.portal.1 + 1))
    &&& rune ==> open_connected(t, s, pt(map.lever))
    &&& forall|i: int| 0 <= i < nc ==> open_connected(t, s, pt(#[trigger] map.captives@[i]))
    &&& forall|i: int| 0 <= i < nch ==> open_connected(t, s, pt(#[trigger] map.chests@[i]))
}

/// Connection survives when no wall is added.
proof fn lemma_open_connected_kept(a: Seq<Tile>, b: Seq<Tile>, p: (int, int), q: (int, int))
    requires
        a.len() == GRID_LEN,
        walls_kept(a, b),
        open_connected(a, p, q),
    ensures
        open_connected(b, p, q),
{
    let w = choose|w: Seq<(int, int)>| #[trigger] open_walk(a, w) && w[0] == p && w.last() == q;
    lemma_walk_kept(a, b, w);
}

/// Connection is transitive.
proof fn lemma_open_connected_trans(t: Seq<Tile>, p: (int, int), q: (int, int), r: (int, int))
    requires
        open_connected(t, p, q),
        open_connected(t, q, r),
    ensures
        open_connected(t, p, r),
{
    let w1 = choose|w: Seq<(int, int)>| #[trigger] open_walk(t, w) && w[0] == p && w.last() == q;
    let w2 = choose|w: Seq<(int, int)>| #[trigger] open_walk(t, w) && w[0] == q && w.last() == r;
    let w = w1 + w2.drop_first();
    assert forall|i: int| 0 <= i < w.len() implies open_cell(t, #[trigger] w[i]) by {
        if i < w1.len() {
            assert(w[i] == w1[i]);
        } else {
            assert(w[i] == w2[i - w1.len() + 1]);
        }
    }
    assert forall|i: int| 0 <= i < w.len() - 1 implies adjacent(#[trigger] w[i], w[i + 1]) by {
        if i < w1.len() - 1 {
            assert(w[i] == w1[i] && w[i + 1] == w1[i + 1]);
        } else if i == w1.len() - 1 {
            assert(w[i] == w1.last() && w2[0] == q);
            assert(w[i + 1] == w2[1]);
            assert(adjacent(w2[0], w2[1]));
        } else {
            assert(w[i] == w2[i - w1.len() + 1] && w[i + 1] == w2[i - w1.len() + 2]);
        }
    }
    if w2.len() == 1 {
        assert(w =~= w1);
    } else {
        assert(w.last() == w2.last());
    }
    assert(open_walk(t, w));
}

/// An open neighbour of a reached cell is reached.
proof fn lemma_open_connected_step(t: Seq<Tile>, p: (int, int), q: (int, int), r: (int, int))
    requires
        open_connected(t, p, q),
        adjacent(q, r),
        open_cell(t, q),
        open_cell(t, r),
    ensures
        open_connected(t, p, r),
{
    let w = seq![q, r];
    assert(open_walk(t, w));
    lemma_open_connected_trans(t, p, q, r);
}

/// What is reached stays reached when no wall is added.
proof fn lemma_reach_kept(a: Seq<Tile>, b: Seq<Tile>, map: RealMap, rune: bool, nc: int, nch: int)
    requires
        a.len() == GRID_LEN,
        walls_kept(a, b),
        map.laid_out_inside() ==> open_reach_from_spawn(a, map, rune, nc, nch),
    ensures
        map.laid_out_inside() ==> open_reach_from_spawn(b, map, rune, nc, nch),
{
    if map.laid_out_inside() {
        reveal(open_reach_from_spawn);
        let s = pt(map.spawns);
        assert forall|i: int| 0 <= i < map.path@.len() implies open_connected(b, s, pt(#[trigger] map.path@[i])) by {
            lemma_open_connected_kept(a, b, s, pt(map.path@[i]));
        }
        lemma_open_connected_kept(a, b, s, (map.portal.0 as int, map.portal.1 + 1));
        if rune {
            lemma_open_connected_kept(a, b, s, pt(map.lever));
        }
        assert forall|i: int| 0 <= i < nc implies open_connected(b, s, pt(#[trigger] map.captives@[i])) by {
            lemma_open_connected_kept(a, b, s, pt(map.captives@[i]));
        }
        assert forall|i: int| 0 <= i < nch implies open_connected(b, s, pt(#[trigger] map.chests@[i])) by {
            lemma_open_connected_kept(a, b, s, pt(map.chests@[i]));
        }
    }
}

/// Changing a tile's decor adds no wall.
proof fn lemma_set_kept(a: Seq<Tile>, i: int, t: Tile)
    requires
        0 <= i < a.len(),
        t.wall == a[i].wall,
    ensures
        walls_kept(a, a.update(i, t)),
{
}

/// Carves the corridors between consecutive waypoints of the map.
fn carve_path(tiles: &mut Vec<Tile>, biome: Biome, wall_block: Block, map: &RealMap)
    requires
        old(tiles)@.len() == GRID_LEN,
        map.well_formed(),
    ensures
        final(tiles)@.len() == GRID_LEN,
        map.laid_out_inside() ==> open_reach_from_spawn(final(tiles)@, *map, false, 0, 0),
{
    // main path: corridors between consecutive waypoints
    let np = map.path.len();
    let mut k: usize = 0;
    while k + 1 < np
        invariant
            tiles@.len() == GRID_LEN,
            0 <= k < np,
            np == map.path@.len(),
            map.well_formed(),
            map.laid_out_inside() ==> (k >= 1 ==> (forall|i: int|
                0 <= i <= k ==> open_connected(tiles@, pt(map.spawns), pt(#[trigger] map.path@[i])))
                && box_open(tiles@, pt(map.path@[k as int]))),
        decreases np - k,
    {
        let ghost before = tiles@;
        let (x0, y0) = map.path[k];
        let (x1, y1) = map.path[k + 1];
        let ddx = if x1 >= x0 { x1 - x0 } else { x0 - x1 };
        let ddy = if y1 >= y0 { y1 - y0 } else { y0 - y1 };
        let steps = if ddx + ddy > 1 { ddx + ddy } else { 1 };
        carve_line(tiles, biome, wall_block, x0, y0, x1, y1, steps);
        proof {
            if map.laid_out_inside() {
                let sp = pt(map.spawns);
                assert(inside2(pt(map.path@[k as int])) && inside2(pt(map.path@[k + 1])));
                assert forall|i: int| 0 <= i <= k implies open_connected(tiles@, sp, pt(#[trigger] map.path@[i])) by {
                    if k >= 1 {
                        lemma_open_connected_kept(before, tiles@, sp, pt(map.path@[i]));
                    } else {
                        assert(open_cell(tiles@, (x0 + 0, y0 + 0)));
                        let w = seq![(x0 as int, y0 as int)];
                        assert(open_walk(tiles@, w));
                    }
                }
                lemma_open_connected_trans(tiles@, sp, pt(map.path@[k as int]), pt(map.path@[k + 1]));
                assert forall|i: int| 0 <= i <= k + 1 implies open_connected(tiles@, sp, pt(#[trigger] map.path@[i])) by {}
            }
        }
        k += 1;
    }
    proof {
        if map.laid_out_inside() {
            reveal(open_reach_from_spawn);
            let sp = pt(map.spawns);
            let last = pt(map.path@[k as int]);
            assert(open_cell(tiles@, (last.0 + 0, last.1 + -1)));
            assert(open_cell(tiles@, (last.0 + 0, last.1 + 0)));
            assert(open_connected(tiles@, sp, last));
            lemma_open_connected_step(tiles@, sp, last, (map.portal.0 as int, map.portal.1 + 1));
            assert(open_reach_from_spawn(tiles@, *map, false, 0, 0));
        }
    }
}

/// Lays the authored landmarks of the map.
fn lay_landmarks(tiles: &mut Vec<Tile>, biome: Biome, wall_block: Block, map: &RealMap)
    requires
        old(tiles)@.len() == GRID_LEN,
        map.well_formed(),
        map.laid_out_inside() ==> open_reach_from_spawn(old(tiles)@, *map, false, 0, 0),
    ensures
        final(tiles)@.len() == GRID_LEN,
        map.laid_out_inside() ==> open_reach_from_spawn(final(tiles)@, *map, false, 0, 0),
{
    // authored landmarks
    let nl = map.landmarks.len();
    let mut k: usize = 0;
    while k < nl
        invariant
            tiles@.len() == GRID_LEN,
            nl == map.landmarks@.len(),
            map.well_formed(),
            map.laid_out_inside() ==> open_reach_from_spawn(tiles@, *map, false, 0, 0),
        decreases nl - k,
    {
        let ghost before = tiles@;
        let lm = map.landmarks[k];
        assert(landmark_ok(map.landmarks@[k as int]));
        match lm.kind {
            Lm::Clearing(r) => carve(tiles, biome, wall_block, lm.x, lm.y, r),
            Lm::House(hw, hh) => place_house(tiles, wall_block, lm.x, lm.y, hw, hh),
            Lm::Field(fw, fh) => place_field(tiles, lm.x, lm.y, fw, fh),
            Lm::River(rw) => place_river(tiles, &map.path, wall_block, lm.y, rw),
            Lm::Ruins => place_ruins(tiles, lm.x, lm.y),
            Lm::Campfire => put_decor(tiles, lm.x, lm.y, Some(Decor::Brazier)),
        }
        proof {
            lemma_reach_kept(before, tiles@, *map, false, 0, 0);
        }
        k += 1;
    }
}

/// Where the level holds a rune: an open clearing with the lever, linked
/// to the nearest waypoint, and the rune pedestal in the middle of a
/// secret room 10 columns east; returns the room's tiles.
fn place_lever(tiles: &mut Vec<Tile>, biome: Biome, wall_block: Block, map: &RealMap, has_rune: bool) -> (secret_tiles: Vec<usize>)
    requires
        old(tiles)@.len() == GRID_LEN,
        map.well_formed(),
        map.laid_out_inside() ==> open_reach_from_spawn(old(tiles)@, *map, false, 0, 0),
    ensures
        final(tiles)@.len() == GRID_LEN,
        map.laid_out_inside() ==> open_reach_from_spawn(final(tiles)@, *map, has_rune, 0, 0),
        !has_rune ==> secret_tiles@.len() == 0,
        secret_tiles@.len() <= 49,
        has_rune && secret_room_inside(map.lever) ==> secret_tiles@.len() == 49,
        forall|q: int| 0 <= q < secret_tiles@.len() ==> #[trigger] secret_tiles@[q] < GRID_LEN,
        has_rune && 0 <= map.lever.1 < 76 ==> final(tiles)@[cell(secret_room_column(map.lever.0), map.lever.1 as int)].decor
            == Some(Decor::Rune { taken: false }),
{
    // lever in an open clearing linked to the path, walled secret room 10
    // tiles east with the rune pedestal in its middle
    let mut secret_tiles: Vec<usize> = Vec::new();
    if has_rune {
        let (lx, ly) = map.lever;
        let ghost t0 = tiles@;
        carve(tiles, biome, wall_block, lx, ly, 2);
        let (best, bd) = nearest_by_manhattan(&map.path, lx, ly);
        let ghost kb = choose|kb: int| #[trigger] first_nearest(map.path@, lx as int, ly as int, kb) && map.path@[kb] == best;
        let steps = if bd > 1 { bd } else { 1 };
        let ghost t1 = tiles@;
        carve_line(tiles, biome, wall_block, best.0, best.1, lx, ly, steps);
        let ghost t2 = tiles@;
        put_decor(tiles, lx, ly, Some(Decor::Lever { pulled: false }));
        proof {
            lemma_walls_kept_trans(t0, t1, t2);
            lemma_walls_kept_trans(t0, t2, tiles@);
            lemma_reach_kept(t0, tiles@, *map, false, 0, 0);
            if map.laid_out_inside() {
                reveal(open_reach_from_spawn);
                let sp = pt(map.spawns);
                assert(inside2(pt(map.path@[kb])));
                assert(open_connected(t2, pt(best), pt(map.lever)));
                lemma_open_connected_kept(t2, tiles@, pt(best), pt(map.lever));
                assert(open_connected(tiles@, sp, pt(map.path@[kb])));
                lemma_open_connected_trans(tiles@, sp, pt(best), pt(map.lever));
                assert(open_reach_from_spawn(tiles@, *map, true, 0, 0));
            }
        }
        let sx = if lx + 10 < 3 { 3 } else if lx + 10 > 72 { 72 } else { lx + 10 };
        let sy = ly;
        assert(sx == secret_room_column(map.lever.0));
        let mut dy: i32 = -4;
        while dy <= 4
            invariant
                -4 <= dy <= 5,
                3 <= sx <= 72,
                -16000 <= sy <= 16000,
                sx == secret_room_column(map.lever.0),
                sy == map.lever.1,
                secret_tiles@.len() <= disk_count(((dy + 4) * 9) as nat),
                secret_room_inside(map.lever) ==> secret_tiles@.len() == disk_count(((dy + 4) * 9) as nat),
                forall|q: int| 0 <= q < secret_tiles@.len() ==> #[trigger] secret_tiles@[q] < GRID_LEN,
            decreases 5 - dy,
        {
            let mut dx: i32 = -4;
            while dx <= 4
                invariant
                    -4 <= dx <= 5,
                    -4 <= dy <= 4,
                    3 <= sx <= 72,
                    -16000 <= sy <= 16000,
                    sx == secret_room_column(map.lever.0),
                    sy == map.lever.1,
                    secret_tiles@.len() <= disk_count(((dy + 4) * 9 + dx + 4) as nat),
                    secret_room_inside(map.lever) ==> secret_tiles@.len() == disk_count(((dy + 4) * 9 + dx + 4) as nat),
                    forall|q: int| 0 <= q < secret_tiles@.len() ==> #[trigger] secret_tiles@[q] < GRID_LEN,
                decreases 5 - dx,
            {
                assert(disk_pt((dy + 4) * 9 + dx + 4) == (dx * dx + dy * dy <= 16)) by {
                    assert(((dy + 4) * 9 + dx + 4) % 9 == dx + 4 && ((dy + 4) * 9 + dx + 4) / 9 == dy + 4) by (nonlinear_arith)
                        requires
                            -4 <= dx <= 4,
                            -4 <= dy <= 4,
                    ;
                }
                assert(0 <= dx * dx <= 16 && 0 <= dy * dy <= 16) by (nonlinear_arith)
                    requires
                        -4 <= dx <= 4,
                        -4 <= dy <= 4,
                ;
                if dx * dx + dy * dy <= 16 {
                    let xx = sx + dx;
                    let yy = sy + dy;
                    if xx > 0 && yy > 0 && xx < 75 && yy < 75 {
                        secret_tiles.push((yy * 76 + xx) as usize);
                    }
                }
                dx += 1;
            }
            dy += 1;
        }
        proof {
            lemma_disk_count();
        }
        let ghost t3 = tiles@;
        put_decor(tiles, sx, sy, Some(Decor::Rune { taken: false }));
        proof {
            lemma_reach_kept(t3, tiles@, *map, true, 0, 0);
            if 0 <= sy < 76 {
                lemma_wrapped_cell_in_grid(sx, sy);
            }
        }
    }
    secret_tiles
}

/// Joins every captive and every chest of the map to the path by a
/// clearing and a corridor.
#[verifier::spinoff_prover]
#[verifier::rlimit(40)]
fn link_points(tiles: &mut Vec<Tile>, biome: Biome, wall_block: Block, map: &RealMap, has_rune: bool)
    requires
        old(tiles)@.len() == GRID_LEN,
        map.well_formed(),
        map.laid_out_inside() ==> open_reach_from_spawn(old(tiles)@, *map, has_rune, 0, 0),
    ensures
        final(tiles)@.len() == GRID_LEN,
        map.laid_out_inside() ==> open_reach_from_spawn(
            final(tiles)@,
            *map,
            has_rune,
            map.captives@.len() as int,
            map.chests@.len() as int,
        ),
        forall|xx: int, yy: int|
            in_grid(xx, yy) && east_of_layout(*map, xx) ==> #[trigger] final(tiles)@[cell(xx, yy)] == old(tiles)@[cell(
                xx,
                yy,
            )],        forall|i: int|
            0 <= i < map.chests@.len() && in_interior((#[trigger] map.chests@[i]).0 as int, map.chests@[i].1 as int)
                ==> final(tiles)@[cell(map.chests@[i].0 as int, map.chests@[i].1 as int)].decor is None,
{
    // every captive and chest joined to the path by a clearing and corridor
    let mut k: usize = 0;
    while k < map.captives.len()
        invariant
            tiles@.len() == GRID_LEN,
            map.well_formed(),
            old(tiles)@.len() == GRID_LEN,
            forall|xx: int, yy: int|
                in_grid(xx, yy) && east_of_layout(*map, xx) ==> #[trigger] tiles@[cell(xx, yy)] == old(tiles)@[cell(
                    xx,
                    yy,
                )],
            0 <= k <= map.captives@.len(),
            map.laid_out_inside() ==> open_reach_from_spawn(tiles@, *map, has_rune, k as int, 0),
        decreases map.captives@.len() - k,
    {
        let ghost before = tiles@;
        let (cx, cy) = map.captives[k];
        link_to_path(tiles, biome, wall_block, &map.path, cx, cy);
        proof {
            let kb = choose|kb: int|
                #[trigger] first_nearest(map.path@, cx as int, cy as int, kb) && linked(
                    before,
                    tiles@,
                    biome,
                    wall_block,
                    map.path@[kb],
                    cx as int,
                    cy as int,
                );
            assert forall|xx: int, yy: int| in_grid(xx, yy) && east_of_layout(*map, xx) implies #[trigger] tiles@[cell(
                xx,
                yy,
            )] == old(tiles)@[cell(xx, yy)] by {
                assert(map.path@[kb].0 + 2 < xx);
                assert(map.captives@[k as int].0 + 2 < xx);
                lemma_link_spares_east(before, tiles@, biome, wall_block, map.path@[kb], cx as int, cy as int, xx, yy);
            }
            lemma_reach_kept(before, tiles@, *map, has_rune, k as int, 0);
            if map.laid_out_inside() {
                reveal(open_reach_from_spawn);
                let sp = pt(map.spawns);
                assert(inside2(pt(map.captives@[k as int])));
                assert forall|i: int| 0 <= i < map.path@.len() implies inside2(((#[trigger] map.path@[i]).0 as int, map.path@[i].1 as int)) by {
                    assert(inside2(pt(map.path@[i])));
                }
                let kk = choose|kk: int| 0 <= kk < map.path@.len() && #[trigger] open_connected(tiles@, (map.path@[kk].0 as int, map.path@[kk].1 as int), (cx as int, cy as int));
                assert(open_connected(tiles@, sp, pt(map.path@[kk])));
                lemma_open_connected_trans(tiles@, sp, pt(map.path@[kk]), pt(map.captives@[k as int]));
                assert forall|i: int| 0 <= i < k + 1 implies open_connected(tiles@, sp, pt(#[trigger] map.captives@[i])) by {}
                assert(open_reach_from_spawn(tiles@, *map, has_rune, k + 1, 0));
            }
        }
        k += 1;
    }
    let mut k: usize = 0;
    while k < map.chests.len()
        invariant
            tiles@.len() == GRID_LEN,
            map.well_formed(),
            old(tiles)@.len() == GRID_LEN,
            forall|xx: int, yy: int|
                in_grid(xx, yy) && east_of_layout(*map, xx) ==> #[trigger] tiles@[cell(xx, yy)] == old(tiles)@[cell(
                    xx,
                    yy,
                )],
            0 <= k <= map.chests@.len(),
            forall|i: int|
                0 <= i < k && in_interior((#[trigger] map.chests@[i]).0 as int, map.chests@[i].1 as int) ==> tiles@[cell(
                    map.chests@[i].0 as int,
                    map.chests@[i].1 as int,
                )].decor is None,
            map.laid_out_inside() ==> open_reach_from_spawn(tiles@, *map, has_rune, map.captives@.len() as int, k as int),
        decreases map.chests@.len() - k,
    {
        let ghost before = tiles@;
        let (cx, cy) = map.chests[k];
        link_to_path(tiles, biome, wall_block, &map.path, cx, cy);
        proof {
            let kb = choose|kb: int|
                #[trigger] first_nearest(map.path@, cx as int, cy as int, kb) && linked(
                    before,
                    tiles@,
                    biome,
                    wall_block,
                    map.path@[kb],
                    cx as int,
                    cy as int,
                );
            assert forall|xx: int, yy: int| in_grid(xx, yy) && east_of_layout(*map, xx) implies #[trigger] tiles@[cell(
                xx,
                yy,
            )] == old(tiles)@[cell(xx, yy)] by {
                assert(map.path@[kb].0 + 2 < xx);
                assert(map.chests@[k as int].0 + 2 < xx);
                lemma_link_spares_east(before, tiles@, biome, wall_block, map.path@[kb], cx as int, cy as int, xx, yy);
            }
            assert forall|i: int|
                0 <= i < k + 1 && in_interior((#[trigger] map.chests@[i]).0 as int, map.chests@[i].1 as int) implies tiles@[cell(
                map.chests@[i].0 as int,
                map.chests@[i].1 as int,
            )].decor is None by {
                let c = map.chests@[i];
                assert(tiles@[cell(c.0 as int, c.1 as int)] == linked_tile(
                    before,
                    biome,
                    wall_block,
                    map.path@[kb],
                    cx as int,
                    cy as int,
                    c.0 as int,
                    c.1 as int,
                ));
                if i == k {
                    assert(in_disk(0, 0, 2));
                }
            }
            lemma_reach_kept(before, tiles@, *map, has_rune, map.captives@.len() as int, k as int);
            if map.laid_out_inside() {
                reveal(open_reach_from_spawn);
                let sp = pt(map.spawns);
                assert(inside2(pt(map.chests@[k as int])));
                assert forall|i: int| 0 <= i < map.path@.len() implies inside2(((#[trigger] map.path@[i]).0 as int, map.path@[i].1 as int)) by {
                    assert(inside2(pt(map.path@[i])));
                }
                let kk = choose|kk: int| 0 <= kk < map.path@.len() && #[trigger] open_connected(tiles@, (map.path@[kk].0 as int, map.path@[kk].1 as int), (cx as int, cy as int));
                assert(open_connected(tiles@, sp, pt(map.path@[kk])));
                lemma_open_connected_trans(tiles@, sp, pt(map.path@[kk]), pt(map.chests@[k as int]));
                assert forall|i: int| 0 <= i < k + 1 implies open_connected(tiles@, sp, pt(#[trigger] map.chests@[i])) by {}
                assert(open_reach_from_spawn(tiles@, *map, has_rune, map.captives@.len() as int, k + 1));
            }
        }
        k += 1;
    }
}

/// Puts the chests, the captive cages and the portal on the map, and
/// returns the captives and chests (in half tiles).
fn place_markers(tiles: &mut Vec<Tile>, map: &RealMap) -> (r: (Vec<(i32, i32)>, Vec<(i32, i32)>))
    requires
        old(tiles)@.len() == GRID_LEN,
        map.well_formed(),
    ensures
        final(tiles)@.len() == GRID_LEN,
        walls_kept(old(tiles)@, final(tiles)@),
        r.0@.len() == map.captives@.len(),
        forall|i: int| 0 <= i < map.captives@.len() ==> #[trigger] r.0@[i] == half(map.captives@[i]),
        r.1@.len() == map.chests@.len(),
        forall|i: int| 0 <= i < map.chests@.len() ==> #[trigger] r.1@[i] == half(map.chests@[i]),
        forall|j: int| 0 <= j < GRID_LEN && !marker_at(*map, j) ==> #[trigger] final(tiles)@[j] == old(tiles)@[j],
        forall|i: int|
            0 <= i < map.captives@.len() && in_grid((#[trigger] map.captives@[i]).0 as int, map.captives@[i].1 as int)
                && cell(map.captives@[i].0 as int, map.captives@[i].1 as int) != marker_index(map.portal)
                ==> final(tiles)@[cell(map.captives@[i].0 as int, map.captives@[i].1 as int)].decor == Some(Decor::Cage),
        forall|i: int|
            0 <= i < map.chests@.len() && in_grid((#[trigger] map.chests@[i]).0 as int, map.chests@[i].1 as int) && old(tiles)@[cell(map.chests@[i].0 as int, map.chests@[i].1 as int)].decor is None && !captive_marker(
                *map,
                cell(map.chests@[i].0 as int, map.chests@[i].1 as int),
            ) && cell(map.chests@[i].0 as int, map.chests@[i].1 as int) != marker_index(map.portal) ==> final(tiles)@[cell(map.chests@[i].0 as int, map.chests@[i].1 as int)].decor == Some(Decor::Chest { opened: false }),
        in_grid(map.portal.0 as int, map.portal.1 as int) ==> final(tiles)@[cell(
            map.portal.0 as int,
            map.portal.1 as int,
        )].decor == Some(Decor::Portal { active: false }),
{
    // chests, captive cages and portal are placed after the carving
    let mut captives: Vec<(i32, i32)> = Vec::new();
    let mut k: usize = 0;
    while k < map.captives.len()
        invariant
            tiles@.len() == GRID_LEN,
            old(tiles)@.len() == GRID_LEN,
            walls_kept(old(tiles)@, tiles@),
            map.well_formed(),
            forall|j: int| 0 <= j < GRID_LEN && !marker_at(*map, j) ==> #[trigger] tiles@[j] == old(tiles)@[j],
            0 <= k <= map.captives@.len(),
            captives@.len() == k,
            forall|i: int| 0 <= i < k ==> #[trigger] captives@[i] == half(map.captives@[i]),
        decreases map.captives@.len() - k,
    {
        captives.push(half_of(map.captives[k]));
        k += 1;
    }
    let mut chests: Vec<(i32, i32)> = Vec::new();
    let mut k: usize = 0;
    while k < map.chests.len()
        invariant
            tiles@.len() == GRID_LEN,
            old(tiles)@.len() == GRID_LEN,
            walls_kept(old(tiles)@, tiles@),
            map.well_formed(),
            forall|j: int| 0 <= j < GRID_LEN && !marker_at(*map, j) ==> #[trigger] tiles@[j] == old(tiles)@[j],
            0 <= k <= map.chests@.len(),
            chests@.len() == k,
            forall|j: int| 0 <= j < GRID_LEN && #[trigger] tiles@[j] != old(tiles)@[j] ==> tiles@[j].decor == Some(
                Decor::Chest { opened: false },
            ),
            forall|i: int|
                0 <= i < k && in_grid((#[trigger] map.chests@[i]).0 as int, map.chests@[i].1 as int) && old(tiles)@[cell(map.chests@[i].0 as int, map.chests@[i].1 as int)].decor is None ==> tiles@[cell(
                    map.chests@[i].0 as int,
                    map.chests@[i].1 as int,
                )].decor == Some(Decor::Chest { opened: false }),
            forall|i: int| 0 <= i < k ==> #[trigger] chests@[i] == half(map.chests@[i]),
        decreases map.chests@.len() - k,
    {
        let (cx, cy) = map.chests[k];
        let i = cy * 76 + cx;
        let i = if i > 0 { i as usize } else { 0 };
        if i < tiles.len() && tiles[i].decor.is_none() {
            let ghost before = tiles@;
            let mut t = tiles[i];
            t.decor = Some(Decor::Chest { opened: false });
            tiles.set(i, t);
            proof {
                assert(marker_index(map.chests@[k as int]) == i);
                assert(marker_at(*map, i as int));
                lemma_set_kept(before, i as int, t);
                lemma_walls_kept_trans(old(tiles)@, before, tiles@);
            }
        }
        chests.push(half_of(map.chests[k]));
        k += 1;
    }
    let ghost after_chests = tiles@;
    let mut k: usize = 0;
    while k < map.captives.len()
        invariant
            tiles@.len() == GRID_LEN,
            old(tiles)@.len() == GRID_LEN,
            walls_kept(old(tiles)@, tiles@),
            map.well_formed(),
            forall|j: int| 0 <= j < GRID_LEN && !marker_at(*map, j) ==> #[trigger] tiles@[j] == old(tiles)@[j],
            after_chests.len() == GRID_LEN,
            forall|j: int| 0 <= j < GRID_LEN && !captive_marker(*map, j) ==> #[trigger] tiles@[j] == after_chests[j],
            0 <= k <= map.captives@.len(),
            forall|i: int|
                0 <= i < k && in_grid((#[trigger] map.captives@[i]).0 as int, map.captives@[i].1 as int) ==> tiles@[cell(
                    map.captives@[i].0 as int,
                    map.captives@[i].1 as int,
                )].decor == Some(Decor::Cage),
        decreases map.captives@.len() - k,
    {
        let (cx, cy) = map.captives[k];
        let i = cy * 76 + cx;
        let i = if i > 0 { i as usize } else { 0 };
        if i < tiles.len() {
            let ghost before = tiles@;
            let mut t = tiles[i];
            t.decor = Some(Decor::Cage);
            tiles.set(i, t);
            proof {
                assert(marker_index(map.captives@[k as int]) == i);
                assert(marker_at(*map, i as int));
                assert(captive_marker(*map, i as int));
                lemma_set_kept(before, i as int, t);
                lemma_walls_kept_trans(old(tiles)@, before, tiles@);
            }
        }
        k += 1;
    }
    let (px, py) = map.portal;
    let pi = py * 76 + px;
    let pi = if pi > 0 { pi as usize } else { 0 };
    if pi < tiles.len() {
        let ghost before = tiles@;
        let mut t = tiles[pi];
        t.decor = Some(Decor::Portal { active: false });
        tiles.set(pi, t);
        proof {
            assert(marker_at(*map, pi as int));
            lemma_set_kept(before, pi as int, t);
            lemma_walls_kept_trans(old(tiles)@, before, tiles@);
        }
    }
    (captives, chests)
}

/// (xx, yy) is where the arena props of the arena at (ax, ay) go: a pillar
/// on every other ring point, a brazier on either side in front.
pub open spec fn arena_prop_cell(ax: i32, ay: i32, xx: int, yy: int) -> bool {
    ||| exists|a: int| 0 <= a < 14 && a % 2 == 0 && xx == ax + (#[trigger] arena_ring(a)).0 && yy == ay + arena_ring(a).1
    ||| xx == ax - 3 && yy == ay + 6
    ||| xx == ax + 3 && yy == ay + 6
}

/// Arena props: pillars on every other ring point, two braziers in front.
fn place_arena_props(tiles: &mut Vec<Tile>, ax: i32, ay: i32)
    requires
        old(tiles)@.len() == GRID_LEN,
        coord_ok((ax, ay)),
    ensures
        final(tiles)@.len() == GRID_LEN,
        walls_kept(old(tiles)@, final(tiles)@),
        forall|xx: int, yy: int|
            in_grid(xx, yy) && ax + 8 < xx ==> #[trigger] final(tiles)@[cell(xx, yy)] == old(tiles)@[cell(xx, yy)],
        forall|xx: int, yy: int|
            in_grid(xx, yy) && !arena_prop_cell(ax, ay, xx, yy) ==> #[trigger] final(tiles)@[cell(xx, yy)] == old(tiles)@[cell(xx, yy)],
{
    // arena: pillars on every other ring point, two braziers in front
    let mut a: u32 = 0;
    while a < 14
        invariant
            0 <= a <= 14,
            tiles@.len() == GRID_LEN,
            old(tiles)@.len() == GRID_LEN,
            walls_kept(old(tiles)@, tiles@),
            coord_ok((ax, ay)),
            forall|xx: int, yy: int|
                in_grid(xx, yy) && ax + 8 < xx ==> #[trigger] tiles@[cell(xx, yy)] == old(tiles)@[cell(xx, yy)],
            forall|xx: int, yy: int|
                in_grid(xx, yy) && !arena_prop_cell(ax, ay, xx, yy) ==> #[trigger] tiles@[cell(xx, yy)] == old(tiles)@[cell(xx, yy)],
        decreases 14 - a,
    {
        let (ox, oy) = arena_offset(a);
        if a % 2 == 0 {
            let ghost before = tiles@;
            put_decor_in_grid(tiles, ax + ox, ay + oy, Decor::Pillar);
            proof {
                assert(ox <= 8);
                assert forall|xx: int, yy: int| in_grid(xx, yy) && ax + 8 < xx implies #[trigger] tiles@[cell(xx, yy)]
                    == old(tiles)@[cell(xx, yy)] by {
                    assert(before[cell(xx, yy)] == old(tiles)@[cell(xx, yy)]);
                }
                assert(arena_prop_cell(ax, ay, (ax + ox) as int, (ay + oy) as int));
                assert forall|xx: int, yy: int| in_grid(xx, yy) && !arena_prop_cell(ax, ay, xx, yy) implies #[trigger] tiles@[cell(
                    xx,
                    yy,
                )] == old(tiles)@[cell(xx, yy)] by {
                    assert(before[cell(xx, yy)] == old(tiles)@[cell(xx, yy)]);
                }
                lemma_walls_kept_trans(old(tiles)@, before, tiles@);
            }
        }
        a += 1;
    }
    let ghost t1 = tiles@;
    put_decor_in_grid(tiles, ax - 3, ay + 6, Decor::Brazier);
    let ghost t2 = tiles@;
    put_decor_in_grid(tiles, ax + 3, ay + 6, Decor::Brazier);
    proof {
        lemma_walls_kept_trans(old(tiles)@, t1, t2);
        lemma_walls_kept_trans(old(tiles)@, t2, tiles@);
    }
}

/// Builds the authored level of a mission from its map, with the random
/// stream of `seed` (edge decor and enemy kinds).
pub fn build(mission: &MissionDef, seed: u64, map: &RealMap) -> (level: Level)
    requires
        map.well_formed(),
    ensures
        level.w == 76,
        level.h == 76,
        level.tiles@.len() == GRID_LEN,
        level.well_formed(),
        level.biome == mission.biome,
        level.has_rune == (spec_secret_unlocked_by_rune(mission.id as int) is Some),
        !level.secret_opened,
        !level.has_rune ==> level.secret_tiles@.len() == 0,
        level.secret_tiles@.len() <= 49,
        level.has_rune && secret_room_inside(map.lever) ==> level.secret_tiles@.len() == 49,
        map.laid_out_inside() && captives_apart(*map) ==> forall|i: int|
            0 <= i < map.captives@.len() ==> level.tiles@[cell(
                (#[trigger] map.captives@[i]).0 as int,
                map.captives@[i].1 as int,
            )].decor == Some(Decor::Cage),
        map.laid_out_inside() && chests_apart(*map) ==> forall|i: int|
            0 <= i < map.chests@.len() ==> level.tiles@[cell(
                (#[trigger] map.chests@[i]).0 as int,
                map.chests@[i].1 as int,
            )].decor == Some(Decor::Chest { opened: false }),
        map.laid_out_inside() ==> level.tiles@[cell(map.portal.0 as int, map.portal.1 as int)].decor == Some(
            Decor::Portal { active: false },
        ),
        level.has_rune && map.laid_out_inside() && secret_room_apart(*map) ==> level.tiles@[cell(
            secret_room_column(map.lever.0),
            map.lever.1 as int,
        )].decor == Some(Decor::Rune { taken: false }),
        level.spawns@ == seq![half(map.spawns)],
        map.laid_out_inside() ==> open_reach_from_spawn(
            level.tiles@,
            *map,
            level.has_rune,
            map.captives@.len() as int,
            map.chests@.len() as int,
        ),
        level.boss_spawn == (if mission.boss is Some { Some(half(map.arena)) } else { None::<(i32, i32)> }),
        level.portal == Some((half(map.portal), false)),
        level.lever == Some(half(map.lever)),
        level.captives@.len() == map.captives@.len(),
        forall|i: int| 0 <= i < map.captives@.len() ==> #[trigger] level.captives@[i] == half(map.captives@[i]),
        level.chests@.len() == map.chests@.len(),
        forall|i: int| 0 <= i < map.chests@.len() ==> #[trigger] level.chests@[i] == half(map.chests@[i]),
        level.groups@.len() == placed_groups(map.groups@, map.path@.len() as int).len() + 1,
        forall|g: int| 0 <= g < placed_groups(map.groups@, map.path@.len() as int).len() ==> {
            let grp = #[trigger] level.groups@[g];
            let (wi, count) = placed_groups(map.groups@, map.path@.len() as int)[g];
            &&& grp.pos == half(map.path@[wi as int])
            &&& grp.radius == 16
            &&& grp.count == count
            &&& grp.kinds@.len() == count
            &&& !grp.activated
            &&& forall|q: int| 0 <= q < grp.kinds@.len() ==> biome_enemy_name(mission.biome, (#[trigger] grp.kinds@[q])@)
        },
        ({
            let grp = level.groups@[placed_groups(map.groups@, map.path@.len() as int).len() as int];
            &&& grp.pos == ((2 * map.arena.0 + 1) as i32, (2 * (map.arena.1 + 5)) as i32)
            &&& grp.radius == 16
            &&& grp.count == 8 + mission.threat / 3
            &&& grp.kinds@.len() == grp.count
            &&& !grp.activated
            &&& forall|q: int| 0 <= q < grp.kinds@.len() ==> biome_enemy_name(mission.biome, (#[trigger] grp.kinds@[q])@)
        }),
{
    let mut rng = seeded_rng(seed);
    let biome = mission.biome;
    let wall_block = match biome {
        Biome::Canyon | Biome::Desert => Block::Sandstone,
        Biome::Mines => Block::Deepslate,
        _ => Block::Log,
    };
    let mut tiles = fill_grid(biome, wall_block);

    // main path, landmarks, light edge decor (never on the path)
    carve_path(&mut tiles, biome, wall_block, map);
    lay_landmarks(&mut tiles, biome, wall_block, map);
    // light edge decor, never on the path
    let ghost before = tiles@;
    scatter_edge_decor(&mut tiles, &mut rng, biome == Biome::Canyon || biome == Biome::Desert);
    proof {
        lemma_reach_kept(before, tiles@, *map, false, 0, 0);
    }

    // lever and secret room, then every captive and chest joined to the path
    let has_rune = secret_unlocked_by_rune(mission.id).is_some();
    let secret_tiles = place_lever(&mut tiles, biome, wall_block, map, has_rune);
    let ghost lever_tiles = tiles@;
    link_points(&mut tiles, biome, wall_block, map, has_rune);
    let ghost linked_tiles = tiles@;
    let (captives, chests) = place_markers(&mut tiles, map);
    let ghost marked_tiles = tiles@;

    // authored enemy groups on the listed waypoints, then the arena guard
    let mut groups: Vec<SpawnGroup> = Vec::new();
    let ghost np = map.path@.len() as int;
    let mut k: usize = 0;
    while k < map.groups.len()
        invariant
            map.well_formed(),
            np == map.path@.len(),
            0 <= k <= map.groups@.len(),
            groups@.len() == placed_groups(map.groups@.take(k as int), np).len(),
            forall|g: int| 0 <= g < groups@.len() ==> {
                let grp = #[trigger] groups@[g];
                let (wi, count) = placed_groups(map.groups@.take(k as int), np)[g];
                &&& grp.pos == half(map.path@[wi as int])
                &&& grp.radius == 16
                &&& grp.count == count
                &&& grp.kinds@.len() == count
                &&& !grp.activated
                &&& forall|q: int| 0 <= q < grp.kinds@.len() ==> biome_enemy_name(biome, (#[trigger] grp.kinds@[q])@)
            },
        decreases map.groups@.len() - k,
    {
        let (wi, count) = map.groups[k];
        let ghost before = groups@;
        proof {
            assert(map.groups@.take(k + 1).drop_last() == map.groups@.take(k as int));
            assert(map.groups@.take(k + 1).last() == map.groups@[k as int]);
        }
        if wi < map.path.len() {
            let p = map.path[wi];
            let kinds = pick_kinds_for(&mut rng, biome, count);
            groups.push(SpawnGroup { pos: half_of(p), radius: 16, kinds, count, activated: false });
            assert forall|g: int| 0 <= g < groups@.len() implies {
                let grp = #[trigger] groups@[g];
                let (wi, count) = placed_groups(map.groups@.take(k + 1), np)[g];
                &&& grp.pos == half(map.path@[wi as int])
                &&& grp.radius == 16
                &&& grp.count == count
                &&& grp.kinds@.len() == count
                &&& !grp.activated
                &&& forall|q: int| 0 <= q < grp.kinds@.len() ==> biome_enemy_name(biome, (#[trigger] grp.kinds@[q])@)
            } by {
                if g < before.len() {
                    assert(groups@[g] == before[g]);
                }
            }
        }
        k += 1;
    }
    proof {
        assert(map.groups@.take(map.groups@.len() as int) == map.groups@);
    }
    let n = 8 + mission.threat / 3;
    let kinds = pick_kinds_for(&mut rng, biome, n);
    let (ax, ay) = map.arena;
    groups.push(SpawnGroup { pos: (2 * ax + 1, 2 * (ay + 5)), radius: 16, kinds, count: n, activated: false });

    place_arena_props(&mut tiles, ax, ay);
    proof {
        lemma_walls_kept_trans(linked_tiles, marked_tiles, tiles@);
        lemma_reach_kept(linked_tiles, tiles@, *map, has_rune, map.captives@.len() as int, map.chests@.len() as int);
        if map.laid_out_inside() {
            assert(inside2(pt(map.path@[map.path@.len() - 1])));
            assert(!arena_prop_cell(ax, ay, map.portal.0 as int, map.portal.1 as int));
            assert(tiles@[cell(map.portal.0 as int, map.portal.1 as int)] == marked_tiles[cell(
                map.portal.0 as int,
                map.portal.1 as int,
            )]);
        }
        if map.laid_out_inside() && captives_apart(*map) {
            assert forall|i: int| 0 <= i < map.captives@.len() implies tiles@[cell(
                (#[trigger] map.captives@[i]).0 as int,
                map.captives@[i].1 as int,
            )].decor == Some(Decor::Cage) by {
                let c = map.captives@[i];
                assert(inside2(pt(c)));
                assert(cell(c.0 as int, c.1 as int) != marker_index(map.portal));
                assert(!arena_prop_cell(ax, ay, c.0 as int, c.1 as int));
            }
        }
        if map.laid_out_inside() && chests_apart(*map) {
            assert forall|i: int| 0 <= i < map.chests@.len() implies tiles@[cell(
                (#[trigger] map.chests@[i]).0 as int,
                map.chests@[i].1 as int,
            )].decor == Some(Decor::Chest { opened: false }) by {
                let c = map.chests@[i];
                assert(inside2(pt(c)));
                assert(linked_tiles[cell(c.0 as int, c.1 as int)].decor is None);
                assert(!captive_marker(*map, cell(c.0 as int, c.1 as int))) by {
                    assert forall|j: int| 0 <= j < map.captives@.len() implies cell(c.0 as int, c.1 as int) != marker_index(
                        #[trigger] map.captives@[j],
                    ) by {
                        assert(inside2(pt(map.captives@[j])));
                        assert(c != map.captives@[j]);
                    }
                }
                assert(cell(c.0 as int, c.1 as int) != marker_index(map.portal));
                assert(!arena_prop_cell(ax, ay, c.0 as int, c.1 as int));
            }
        }
        if has_rune && map.laid_out_inside() && secret_room_apart(*map) {
            let rx = secret_room_column(map.lever.0);
            let ry = map.lever.1 as int;
            assert(inside2(pt(map.lever)));
            assert(in_grid(rx, ry));
            assert(linked_tiles[cell(rx, ry)] == lever_tiles[cell(rx, ry)]);
            assert(!marker_at(*map, cell(rx, ry))) by {
                assert forall|i: int| 0 <= i < map.captives@.len() implies cell(rx, ry) != marker_index(
                    #[trigger] map.captives@[i],
                ) by {
                    assert(inside2(pt(map.captives@[i])));
                }
                assert forall|i: int| 0 <= i < map.chests@.len() implies cell(rx, ry) != marker_index(
                    #[trigger] map.chests@[i],
                ) by {
                    assert(inside2(pt(map.chests@[i])));
                }
                assert(inside2(pt(map.path@[map.path@.len() - 1])));
            }
            assert(marked_tiles[cell(rx, ry)] == linked_tiles[cell(rx, ry)]);
            assert(tiles@[cell(rx, ry)] == marked_tiles[cell(rx, ry)]);
        }
    }

    let boss_spawn = match mission.boss {
        Some(_) => Some(half_of(map.arena)),
        None => None,
    };
    let mut spawns: Vec<(i32, i32)> = Vec::new();
    spawns.push(half_of(map.spawns));
    let level = Level {
        w: 76,
        h: 76,
        tiles,
        spawns,
        boss_spawn,
        portal: Some((half_of(map.portal), false)),
        groups,
        secret_tiles,
        secret_opened: false,
        has_rune,
        lever: Some(half_of(map.lever)),
        biome,
        captives,
        chests,
    };

    level
}

} // verus!
