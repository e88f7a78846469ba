//! Procedural level generation per biome: a wandering path of rooms from
//! the south to the arena in the north, side pockets, a secret room behind
//! a lever, decor scatter, terrain dressing, props and enemy groups.

use vstd::prelude::*;
use crate::missions::{biome_enemies, secret_unlocked_by_rune, spec_secret_unlocked_by_rune, Biome, MissionDef};
use crate::realmaps::{
    adjacent, biome_enemy_name, cell, half, in_grid, in_interior, lemma_walk_kept, open_cell, open_walk, trunc_div,
    lemma_wrapped_cell_in_grid, walls_kept, wrapped_cell, GRID_LEN,
};
use crate::rng::{
    next_u32, range_i32, range_i32_inclusive, range_usize, seeded_ratio, seeded_rng, seeded_roll_below,
};
use crate::world::{Block, Decor, Level, SpawnGroup, Tile};

verus! {

/// Ground and decor palette of a biome.
pub struct Palette {
    /// ground blocks with their weights
    pub grounds: Vec<(Block, u32)>,
    pub wall: Block,
    /// decor roll thresholds (out of 2^24): a tree below `tree_roll`, a rock
    /// below `rock_roll`, a bush below `bush_roll`
    pub tree_roll: u32,
    pub rock_roll: u32,
    pub bush_roll: u32,
}

impl Palette {
    /// At least one ground, with small positive weights.
    pub open spec fn well_formed(&self) -> bool {
        &&& 1 <= self.grounds@.len() <= 8
        &&& forall|i: int| 0 <= i < self.grounds@.len() ==> 1 <= (#[trigger] self.grounds@[i]).1 <= 16
    }
}

/// Ground blocks of a biome with their weights.
pub open spec fn palette_grounds(b: Biome) -> Seq<(Block, u32)> {
    match b {
        Biome::Forest => seq![(Block::Grass, 8u32), (Block::Podzol, 2u32), (Block::Moss, 2u32), (Block::Dirt, 2u32)],
        Biome::Plains => seq![(Block::Grass, 9u32), (Block::Dirt, 2u32), (Block::Gravel, 1u32)],
        Biome::Canyon => seq![(Block::RedSand, 7u32), (Block::Sand, 3u32), (Block::Sandstone, 2u32)],
        Biome::Swamp => seq![(Block::Mud, 5u32), (Block::Grass, 4u32), (Block::Water, 3u32)],
        Biome::Cave => seq![(Block::Cobble, 6u32), (Block::Stone, 4u32), (Block::Water, 2u32)],
        Biome::Mines => seq![(Block::Deepslate, 5u32), (Block::Stone, 4u32), (Block::RedstoneOre, 2u32), (Block::Gravel, 1u32)],
        Biome::Desert => seq![(Block::Sand, 7u32), (Block::Sandstone, 4u32)],
        Biome::Haven => seq![(Block::Grass, 8u32), (Block::Moss, 3u32), (Block::Snow, 1u32)],
        Biome::Jungle => seq![(Block::Grass, 6u32), (Block::Podzol, 3u32), (Block::Moss, 3u32), (Block::Water, 2u32)],
        Biome::Stronghold => seq![(Block::StoneBrick, 8u32), (Block::CrackedBrick, 3u32), (Block::MossyBrick, 2u32)],
        Biome::Nether => seq![(Block::Netherrack, 8u32), (Block::SoulSand, 3u32), (Block::Lava, 1u32)],
        Biome::Pinnacle => seq![(Block::Obsidian, 7u32), (Block::Purpur, 3u32), (Block::Endstone, 2u32), (Block::Sculk, 1u32)],
        Biome::Winter => seq![(Block::Snow, 8u32), (Block::Ice, 2u32), (Block::Grass, 2u32), (Block::Water, 1u32)],
        Biome::Peaks => seq![(Block::Snow, 5u32), (Block::Stone, 5u32), (Block::Gravel, 2u32), (Block::Ice, 1u32)],
        Biome::Depths => seq![(Block::Clay, 5u32), (Block::Sand, 4u32), (Block::Water, 4u32), (Block::MossyBrick, 1u32)],
        Biome::Void => seq![(Block::Endstone, 6u32), (Block::Obsidian, 4u32), (Block::Sculk, 3u32)],
    }
}

/// Wall block of a biome.
pub open spec fn palette_wall(b: Biome) -> Block {
    match b {
        Biome::Forest => Block::Log,
        Biome::Plains => Block::Planks,
        Biome::Canyon => Block::Sandstone,
        Biome::Swamp => Block::Log,
        Biome::Cave => Block::Cobble,
        Biome::Mines => Block::Deepslate,
        Biome::Desert => Block::Sandstone,
        Biome::Haven => Block::StoneBrick,
        Biome::Jungle => Block::Log,
        Biome::Stronghold => Block::StoneBrick,
        Biome::Nether => Block::NetherBrick,
        Biome::Pinnacle => Block::Obsidian,
        Biome::Winter => Block::Snow,
        Biome::Peaks => Block::Stone,
        Biome::Depths => Block::StoneBrick,
        Biome::Void => Block::Obsidian,
    }
}

/// Decor roll thresholds of a biome (out of `ROLL_SCALE`): tree, tree or
/// rock, tree or rock or bush. They are the `f32` densities of the level
/// design (tree, + rock, + bush, summed in `f32`) scaled by 2^24, rounded up.
pub open spec fn palette_rolls(b: Biome) -> (u32, u32, u32) {
    match b {
        Biome::Forest => (1677722u32, 2013266u32, 3690988u32),
        Biome::Plains => (503317u32, 838861u32, 1845494u32),
        Biome::Canyon => (0u32, 503317u32, 503317u32),
        Biome::Swamp => (1174406u32, 1509950u32, 3523216u32),
        Biome::Cave => (0u32, 1006633u32, 1342178u32),
        Biome::Mines => (0u32, 838861u32, 838861u32),
        Biome::Desert => (0u32, 503317u32, 503317u32),
        Biome::Haven => (1006633u32, 1342178u32, 3019899u32),
        Biome::Jungle => (2348811u32, 2684355u32, 4697621u32),
        Biome::Stronghold => (0u32, 503317u32, 503317u32),
        Biome::Nether => (0u32, 838861u32, 838861u32),
        Biome::Pinnacle => (0u32, 503317u32, 503317u32),
        Biome::Winter => (1174406u32, 1677722u32, 2516583u32),
        Biome::Peaks => (0u32, 1342178u32, 1342178u32),
        Biome::Depths => (0u32, 671089u32, 1677722u32),
        Biome::Void => (0u32, 671089u32, 671089u32),
    }
}

/// The palette of a biome.
pub fn biome_palette(biome: Biome) -> (p: Palette)
    ensures
        p.grounds@ == palette_grounds(biome),
        p.wall == palette_wall(biome),
        (p.tree_roll, p.rock_roll, p.bush_roll) == palette_rolls(biome),
{
    let (grounds, wall, tree_roll, rock_roll, bush_roll): (Vec<(Block, u32)>, Block, u32, u32, u32) = match biome {
        Biome::Forest => (vec![(Block::Grass, 8u32), (Block::Podzol, 2u32), (Block::Moss, 2u32), (Block::Dirt, 2u32)], Block::Log, 1677722, 2013266, 3690988),
        Biome::Plains => (vec![(Block::Grass, 9u32), (Block::Dirt, 2u32), (Block::Gravel, 1u32)], Block::Planks, 503317, 838861, 1845494),
        Biome::Canyon => (vec![(Block::RedSand, 7u32), (Block::Sand, 3u32), (Block::Sandstone, 2u32)], Block::Sandstone, 0, 503317, 503317),
        Biome::Swamp => (vec![(Block::Mud, 5u32), (Block::Grass, 4u32), (Block::Water, 3u32)], Block::Log, 1174406, 1509950, 3523216),
        Biome::Cave => (vec![(Block::Cobble, 6u32), (Block::Stone, 4u32), (Block::Water, 2u32)], Block::Cobble, 0, 1006633, 1342178),
        Biome::Mines => (vec![(Block::Deepslate, 5u32), (Block::Stone, 4u32), (Block::RedstoneOre, 2u32), (Block::Gravel, 1u32)], Block::Deepslate, 0, 838861, 838861),
        Biome::Desert => (vec![(Block::Sand, 7u32), (Block::Sandstone, 4u32)], Block::Sandstone, 0, 503317, 503317),
        Biome::Haven => (vec![(Block::Grass, 8u32), (Block::Moss, 3u32), (Block::Snow, 1u32)], Block::StoneBrick, 1006633, 1342178, 3019899),
        Biome::Jungle => (vec![(Block::Grass, 6u32), (Block::Podzol, 3u32), (Block::Moss, 3u32), (Block::Water, 2u32)], Block::Log, 2348811, 2684355, 4697621),
        Biome::Stronghold => (vec![(Block::StoneBrick, 8u32), (Block::CrackedBrick, 3u32), (Block::MossyBrick, 2u32)], Block::StoneBrick, 0, 503317, 503317),
        Biome::Nether => (vec![(Block::Netherrack, 8u32), (Block::SoulSand, 3u32), (Block::Lava, 1u32)], Block::NetherBrick, 0, 838861, 838861),
        Biome::Pinnacle => (vec![(Block::Obsidian, 7u32), (Block::Purpur, 3u32), (Block::Endstone, 2u32), (Block::Sculk, 1u32)], Block::Obsidian, 0, 503317, 503317),
        Biome::Winter => (vec![(Block::Snow, 8u32), (Block::Ice, 2u32), (Block::Grass, 2u32), (Block::Water, 1u32)], Block::Snow, 1174406, 1677722, 2516583),
        Biome::Peaks => (vec![(Block::Snow, 5u32), (Block::Stone, 5u32), (Block::Gravel, 2u32), (Block::Ice, 1u32)], Block::Stone, 0, 1342178, 1342178),
        Biome::Depths => (vec![(Block::Clay, 5u32), (Block::Sand, 4u32), (Block::Water, 4u32), (Block::MossyBrick, 1u32)], Block::StoneBrick, 0, 671089, 1677722),
        Biome::Void => (vec![(Block::Endstone, 6u32), (Block::Obsidian, 4u32), (Block::Sculk, 3u32)], Block::Obsidian, 0, 671089, 671089),
    };
    Palette { grounds, wall, tree_roll, rock_roll, bush_roll }
}


/// Draws a ground block of the palette, by weight.
fn pick_ground(rng: &mut rand::rngs::StdRng, pal: &Palette) -> (b: Block)
    requires
        pal.well_formed(),
    ensures
        exists|j: int| 0 <= j < pal.grounds@.len() && b == (#[trigger] pal.grounds@[j]).0,
{
    let mut total: u32 = 0;
    let mut j: usize = 0;
    while j < pal.grounds.len()
        invariant
            pal.well_formed(),
            0 <= j <= pal.grounds@.len(),
            total <= 16 * j,
        decreases pal.grounds@.len() - j,
    {
        total = total + pal.grounds[j].1;
        j += 1;
    }
    let mut roll = seeded_roll_below(rng, if total > 1 { total } else { 1 });
    let mut j: usize = 0;
    while j < pal.grounds.len()
        invariant
            pal.well_formed(),
            0 <= j <= pal.grounds@.len(),
        decreases pal.grounds@.len() - j,
    {
        let (b, w) = pal.grounds[j];
        if roll < w {
            return b;
        }
        roll = roll - w;
        j += 1;
    }
    pal.grounds[0].0
}

/// Small enough for every computation of `generate`.
pub open spec fn small(v: int) -> bool {
    -1_000_000 <= v <= 1_000_000
}

/// Remainder of `n / d` rounded towards zero: it has the sign of `n`.
pub open spec fn trunc_rem(n: int, d: int) -> int {
    n - d * trunc_div(n, d)
}

/// Offset (dx, dy) lies in the rough carving disk of radius r: the disk
/// widened by one on odd offsets of positive sum, narrowed by one on those
/// of negative sum.
pub open spec fn in_rough_disk(dx: int, dy: int, r: int) -> bool {
    -r <= dx <= r && -r <= dy <= r && dx * dx + dy * dy <= r * r + trunc_rem(dx + dy, 2)
}

/// A freshly opened tile: a palette ground, no wall (of the palette's wall
/// block), no decor.
pub open spec fn opened(t: Tile, pal: &Palette) -> bool {
    &&& exists|j: int| 0 <= j < pal.grounds@.len() && t.ground == (#[trigger] pal.grounds@[j]).0
    &&& t.wall == 0
    &&& t.wall_block == pal.wall
    &&& t.decor is None
}

/// `b` is `a` with the rough disk of radius r around (x, y) opened on the
/// interior: each of its tiles freshly opened, every other tile unchanged.
#[verifier::opaque]
pub open spec fn rough_carved(a: Seq<Tile>, b: Seq<Tile>, pal: &Palette, x: int, y: int, r: int) -> bool {
    forall|xx: int, yy: int|
        in_grid(xx, yy) ==> if in_interior(xx, yy) && in_rough_disk(xx - x, yy - y, r) {
            opened(#[trigger] b[cell(xx, yy)], pal)
        } else {
            b[cell(xx, yy)] == a[cell(xx, yy)]
        }
}

/// Opens a rough disk of radius r around (x, y) (the border ring is never
/// touched), drawing a palette ground for every opened tile.
fn carve_rough(tiles: &mut Vec<Tile>, rng: &mut rand::rngs::StdRng, pal: &Palette, x: i32, y: i32, r: i32)
    requires
        old(tiles)@.len() == GRID_LEN,
        border_walled(old(tiles)@),
        pal.well_formed(),
        small(x as int),
        small(y as int),
        0 <= r <= 20,
    ensures
        final(tiles)@.len() == GRID_LEN,
        border_walled(final(tiles)@),
        rough_carved(old(tiles)@, final(tiles)@, pal, x as int, y as int, r as int),
{
    proof {
        reveal(rough_carved);
    }
    let mut dy: i32 = -r;
    while dy <= r
        invariant
            -r <= dy <= r + 1,
            0 <= r <= 20,
            small(x as int),
            small(y as int),
            pal.well_formed(),
            tiles@.len() == GRID_LEN,
            border_walled(tiles@),
            forall|xx: int, yy: int|
                in_grid(xx, yy) ==> if in_interior(xx, yy) && in_rough_disk(xx - x, yy - y, r as int) && yy - y < dy {
                    opened(#[trigger] tiles@[cell(xx, yy)], pal)
                } else {
                    tiles@[cell(xx, yy)] == old(tiles)@[cell(xx, yy)]
                },
        decreases r + 1 - dy,
    {
        let mut dx: i32 = -r;
        while dx <= r
            invariant
                -r <= dx <= r + 1,
                -r <= dy <= r,
                0 <= r <= 20,
                small(x as int),
                small(y as int),
                pal.well_formed(),
                tiles@.len() == GRID_LEN,
                border_walled(tiles@),
                forall|xx: int, yy: int|
                    in_grid(xx, yy) ==> if in_interior(xx, yy) && in_rough_disk(xx - x, yy - y, r as int) && (yy - y
                        < dy || (yy - y == dy && xx - x < dx)) {
                        opened(#[trigger] tiles@[cell(xx, yy)], pal)
                    } else {
                        tiles@[cell(xx, yy)] == old(tiles)@[cell(xx, yy)]
                    },
            decreases r + 1 - dx,
        {
            let xx = x + dx;
            let yy = y + dy;
            if !(xx <= 0 || yy <= 0 || xx >= 75 || yy >= 75) {
                assert(0 <= dx * dx <= 400 && 0 <= dy * dy <= 400 && 0 <= r * r <= 400) by (nonlinear_arith)
                    requires
                        -20 <= dx <= 20,
                        -20 <= dy <= 20,
                        0 <= r <= 20,
                ;
                let d2 = dx * dx + dy * dy;
                if d2 <= r * r + (dx + dy) % 2 {
                    let g = pick_ground(rng, pal);
                    tiles.set((yy * 76 + xx) as usize, Tile { ground: g, wall: 0, wall_block: pal.wall, decor: None });
                    assert(xx - x == dx && yy - y == dy);
                }
            }
            dx += 1;
        }
        dy += 1;
    }
}

/// Every tile of the border ring has a wall: the level is closed.
pub open spec fn border_walled(t: Seq<Tile>) -> bool {
    forall|x: int, y: int| in_grid(x, y) && !in_interior(x, y) ==> #[trigger] t[cell(x, y)].wall > 0
}

/// `b` dresses `a`: as many tiles, walls stay walls and open tiles stay
/// open, and decor once placed stays.
pub open spec fn dressed(a: Seq<Tile>, b: Seq<Tile>) -> bool {
    &&& b.len() == a.len()
    &&& forall|i: int| 0 <= i < a.len() ==> ((#[trigger] b[i]).wall > 0) == (a[i].wall > 0)
    &&& forall|i: int| 0 <= i < a.len() && (#[trigger] a[i]).decor is Some ==> b[i].decor == a[i].decor
}

proof fn lemma_dressed_border(a: Seq<Tile>, b: Seq<Tile>)
    requires
        dressed(a, b),
        border_walled(a),
        a.len() == GRID_LEN,
    ensures
        border_walled(b),
{
    assert forall|x: int, y: int| in_grid(x, y) && !in_interior(x, y) implies #[trigger] b[cell(x, y)].wall > 0 by {
        assert(a[cell(x, y)].wall > 0);
        assert((b[cell(x, y)].wall > 0) == (a[cell(x, y)].wall > 0));
    }
}

/// Waypoints of a generated path: inside the playable band.
pub open spec fn on_band(p: (i32, i32)) -> bool {
    4 <= p.0 <= 71 && 10 <= p.1 <= 68
}

/// Carving adds no wall.
proof fn lemma_rough_kept(a: Seq<Tile>, b: Seq<Tile>, pal: &Palette, x: int, y: int, r: int)
    requires
        a.len() == GRID_LEN,
        b.len() == GRID_LEN,
        rough_carved(a, b, pal, x, y, r),
    ensures
        walls_kept(a, b),
{
    reveal(rough_carved);
    assert forall|j: int| 0 <= j < a.len() && (#[trigger] a[j]).wall == 0 implies b[j].wall == 0 by {
        let xx = j % 76;
        let yy = j / 76;
        assert(in_grid(xx, yy) && cell(xx, yy) == j);
    }
}

/// Dressing adds no wall.
proof fn lemma_dressed_kept(a: Seq<Tile>, b: Seq<Tile>)
    requires
        dressed(a, b),
    ensures
        walls_kept(a, b),
{
    assert forall|j: int| 0 <= j < a.len() && (#[trigger] a[j]).wall == 0 implies b[j].wall == 0 by {
        assert((b[j].wall > 0) == (a[j].wall > 0));
    }
}

/// A carved rough disk leaves its interior cells open.
proof fn lemma_rough_opens(a: Seq<Tile>, b: Seq<Tile>, pal: &Palette, x: int, y: int, r: int, p: (int, int))
    requires
        rough_carved(a, b, pal, x, y, r),
        in_interior(p.0, p.1),
        in_rough_disk(p.0 - x, p.1 - y, r),
    ensures
        open_cell(b, p),
{
    reveal(rough_carved);
    assert(in_grid(p.0, p.1));
    assert(opened(b[cell(p.0, p.1)], pal));
}

/// The walk of the main path: through open cells, from a cell next to the
/// start (row 67, columns 37..=39) to the portal cell (the arena's column,
/// row 6), passing every waypoint but the start.
#[verifier::opaque]
pub open spec fn main_walk(t: Seq<Tile>, w: Seq<(int, int)>, pts: Seq<(i32, i32)>) -> bool {
    &&& open_walk(t, w)
    &&& w[0].1 == 67 && 37 <= w[0].0 <= 39
    &&& w.last() == (pts.last().0 as int, 6int)
    &&& forall|i: int| 1 <= i < pts.len() ==> w.contains(((#[trigger] pts[i]).0 as int, pts[i].1 as int))
}

/// The walk of the main path stays open when no wall is added.
proof fn lemma_main_walk_kept(a: Seq<Tile>, b: Seq<Tile>, w: Seq<(int, int)>, pts: Seq<(i32, i32)>)
    requires
        a.len() == GRID_LEN,
        main_walk(a, w, pts),
        walls_kept(a, b),
    ensures
        main_walk(b, w, pts),
{
    reveal(main_walk);
    lemma_walk_kept(a, b, w);
}

/// The main path from (38, 68) north to the arena row 10: legs of 4..7
/// steps wandering one column at a time, each ending in a room of radius
/// 3..5, then the arena (radius 9). Returns the room centres (start first,
/// arena last) and an open walk along the corridor from next to the start
/// to the portal cell; every tile of the corridor's 3 × 3 brush is
/// recorded.
fn main_path(
    tiles: &mut Vec<Tile>,
    rng: &mut rand::rngs::StdRng,
    pal: &Palette,
    corridor: &mut Vec<(i32, i32)>,
) -> (r: (Vec<(i32, i32)>, Ghost<Seq<(int, int)>>))
    requires
        old(tiles)@.len() == GRID_LEN,
        border_walled(old(tiles)@),
        pal.well_formed(),
        palette_tiles(old(tiles)@, pal),
    ensures
        final(tiles)@.len() == GRID_LEN,
        palette_tiles(final(tiles)@, pal),
        border_walled(final(tiles)@),
        2 <= r.0@.len() <= 60,
        r.0@[0] == (38i32, 68i32),
        r.0@.last().1 == 10,
        forall|i: int| 0 <= i < r.0@.len() ==> on_band(#[trigger] r.0@[i]),
        main_walk(final(tiles)@, r.1@, r.0@),
{
    let mut px: i32 = 38;
    let mut py: i32 = 68;
    let mut pts: Vec<(i32, i32)> = Vec::new();
    pts.push((px, py));
    let ghost mut walk: Seq<(int, int)> = Seq::empty();
    while py > 10
        invariant
            tiles@.len() == GRID_LEN,
            border_walled(tiles@),
            palette_tiles(tiles@, pal),
            pal.well_formed(),
            4 <= px <= 71,
            10 <= py <= 68,
            1 <= pts@.len() <= 69 - py,
            pts@[0] == (38i32, 68i32),
            forall|i: int| 0 <= i < pts@.len() ==> on_band(#[trigger] pts@[i]),
            py == 68 ==> px == 38 && pts@.len() == 1,
            py < 68 ==> open_walk(tiles@, walk) && walk[0].1 == 67 && 37 <= walk[0].0 <= 39 && walk.last() == (px as int, py as int),
            forall|i: int| 1 <= i < pts@.len() ==> walk.contains(((#[trigger] pts@[i]).0 as int, pts@[i].1 as int)),
        decreases py,
    {
        let steps = range_i32(rng, 4, 8);
        let ghost py0 = py;
        let mut s: i32 = 0;
        while s < steps && py > 10
            invariant
                tiles@.len() == GRID_LEN,
                border_walled(tiles@),
                palette_tiles(tiles@, pal),
                pal.well_formed(),
                4 <= px <= 71,
                10 <= py <= py0,
                py0 <= 68,
                py0 > 10,
                4 <= steps,
                0 <= s <= steps,
                py < py0 || s == 0,
                py == 68 ==> px == 38 && pts@.len() == 1,
                py < 68 ==> open_walk(tiles@, walk) && walk[0].1 == 67 && 37 <= walk[0].0 <= 39 && walk.last() == (px as int, py as int),
                forall|i: int| 1 <= i < pts@.len() ==> walk.contains(((#[trigger] pts@[i]).0 as int, pts@[i].1 as int)),
            decreases steps - s,
        {
            let ghost ox = px as int;
            let ghost oy = py as int;
            let ghost before = tiles@;
            py -= 1;
            let np = px + range_i32_inclusive(rng, -1, 1);
            px = if np < 4 { 4 } else if np > 71 { 71 } else { np };
            carve_rough(tiles, rng, pal, px, py, 1);
            proof {
                lemma_rough_kept(before, tiles@, pal, px as int, py as int, 1);
                lemma_rough_palette(before, tiles@, pal, px as int, py as int, 1);
                let c = (px as int, py as int);
                assert(in_rough_disk(0, 0, 1));
                lemma_rough_opens(before, tiles@, pal, px as int, py as int, 1, c);
                assert(in_rough_disk(1, 0, 1));
                lemma_rough_opens(before, tiles@, pal, px as int, py as int, 1, (px + 1, py as int));
                assert(in_rough_disk(0, 1, 1));
                lemma_rough_opens(before, tiles@, pal, px as int, py as int, 1, (px as int, py + 1));
                let ghost w0 = walk;
                if oy == 68 {
                    walk = seq![c];
                } else {
                    lemma_walk_kept(before, tiles@, walk);
                    if px == ox {
                        walk = walk.push(c);
                    } else if px == ox + 1 {
                        walk = walk.push((px as int, py + 1)).push(c);
                    } else {
                        walk = walk.push((ox, py as int)).push(c);
                    }
                    assert forall|i: int| 0 <= i < w0.len() implies walk[i] == w0[i] by {}
                    assert forall|v: (int, int)| w0.contains(v) implies walk.contains(v) by {
                        let k = choose|k: int| 0 <= k < w0.len() && w0[k] == v;
                        assert(walk[k] == v);
                    }
                }
            }
            let mut dy: i32 = -1;
            while dy <= 1
                invariant
                    -1 <= dy <= 2,
                    4 <= px <= 71,
                    10 <= py <= 68,
                decreases 2 - dy,
            {
                let mut dx: i32 = -1;
                while dx <= 1
                    invariant
                        -1 <= dx <= 2,
                        -1 <= dy <= 1,
                        4 <= px <= 71,
                        10 <= py <= 68,
                    decreases 2 - dx,
                {
                    corridor.push((px + dx, py + dy));
                    dx += 1;
                }
                dy += 1;
            }
            s += 1;
        }
        let room_r = range_i32(rng, 3, 6);
        let ghost before = tiles@;
        carve_rough(tiles, rng, pal, px, py, room_r);
        proof {
            lemma_rough_kept(before, tiles@, pal, px as int, py as int, room_r as int);
            lemma_rough_palette(before, tiles@, pal, px as int, py as int, room_r as int);
            lemma_walk_kept(before, tiles@, walk);
        }
        pts.push((px, py));
        proof {
            assert(walk[walk.len() - 1] == (px as int, py as int));
        }
    }
    let ghost before = tiles@;
    carve_rough(tiles, rng, pal, px, 10, 9);
    proof {
        lemma_rough_kept(before, tiles@, pal, px as int, 10, 9);
        lemma_rough_palette(before, tiles@, pal, px as int, 10, 9);
        lemma_walk_kept(before, tiles@, walk);
        let ghost w0 = walk;
        assert(in_rough_disk(0, -1, 9));
        assert(in_rough_disk(0, -2, 9));
        assert(in_rough_disk(0, -3, 9));
        assert(in_rough_disk(0, -4, 9));
        lemma_rough_opens(before, tiles@, pal, px as int, 10, 9, (px as int, 9));
        lemma_rough_opens(before, tiles@, pal, px as int, 10, 9, (px as int, 8));
        lemma_rough_opens(before, tiles@, pal, px as int, 10, 9, (px as int, 7));
        lemma_rough_opens(before, tiles@, pal, px as int, 10, 9, (px as int, 6));
        walk = walk.push((px as int, 9)).push((px as int, 8)).push((px as int, 7)).push((px as int, 6));
        assert forall|i: int| 0 <= i < w0.len() implies walk[i] == w0[i] by {}
        assert forall|v: (int, int)| w0.contains(v) implies walk.contains(v) by {
            let k = choose|k: int| 0 <= k < w0.len() && w0[k] == v;
            assert(walk[k] == v);
        }
    }
    pts.push((px, 10));
    proof {
        assert(walk.contains((px as int, 10)));
        reveal(main_walk);
    }
    (pts, Ghost(walk))
}

/// `v` brought into `lo..=hi`.
pub open spec fn clamp(v: int, lo: int, hi: int) -> int {
    if v < lo { lo } else if v > hi { hi } else { v }
}

/// Room r lies beside inner waypoint k: `off` columns east or west of it and
/// `dy` rows off its row, brought into 5..=70.
pub open spec fn pocket_beside_at(pts: Seq<(i32, i32)>, r: (i32, i32), k: int, off: int, dy: int) -> bool {
    &&& 1 <= k < pts.len() - 1
    &&& 8 <= off <= 11
    &&& -4 <= dy <= 4
    &&& r.0 == clamp(pts[k].0 + off, 5, 70) || r.0 == clamp(pts[k].0 - off, 5, 70)
    &&& r.1 == clamp(pts[k].1 + dy, 5, 70)
}

/// Room r lies 8..11 columns beside an inner waypoint, at most 4 rows off it.
pub open spec fn pocket_beside(pts: Seq<(i32, i32)>, r: (i32, i32)) -> bool {
    exists|k: int, off: int, dy: int| #[trigger] pocket_beside_at(pts, r, k, off, dy)
}

/// Side pockets: three rooms (none on a path of fewer than three
/// waypoints) 8..11 columns beside a random inner waypoint, each joined to
/// it by a corridor; the centre of every room is open.
fn side_pockets(tiles: &mut Vec<Tile>, rng: &mut rand::rngs::StdRng, pal: &Palette, pts: &Vec<(i32, i32)>) -> (rooms: Vec<(i32, i32)>)
    requires
        old(tiles)@.len() == GRID_LEN,
        border_walled(old(tiles)@),
        pal.well_formed(),
        palette_tiles(old(tiles)@, pal),
        pts@.len() >= 2,
        forall|i: int| 0 <= i < pts@.len() ==> on_band(#[trigger] pts@[i]),
    ensures
        final(tiles)@.len() == GRID_LEN,
        palette_tiles(final(tiles)@, pal),
        border_walled(final(tiles)@),
        walls_kept(old(tiles)@, final(tiles)@),
        rooms@.len() == (if pts@.len() < 3 { 0int } else { 3int }),
        forall|i: int| 0 <= i < rooms@.len() ==> 5 <= (#[trigger] rooms@[i]).0 <= 70 && 5 <= rooms@[i].1 <= 70,
        forall|i: int| 0 <= i < rooms@.len() ==> pocket_beside(pts@, #[trigger] rooms@[i]),
        forall|i: int|
            0 <= i < rooms@.len() ==> final(tiles)@[cell((#[trigger] rooms@[i]).0 as int, rooms@[i].1 as int)].wall == 0,
{
    let mut rooms: Vec<(i32, i32)> = Vec::new();
    if pts.len() < 3 {
        return rooms;
    }
    let mut n: u32 = 0;
    while n < 3
        invariant
            tiles@.len() == GRID_LEN,
            border_walled(tiles@),
            palette_tiles(tiles@, pal),
            pal.well_formed(),
            pts@.len() >= 3,
            walls_kept(old(tiles)@, tiles@),
            old(tiles)@.len() == GRID_LEN,
            forall|i: int| 0 <= i < pts@.len() ==> on_band(#[trigger] pts@[i]),
            0 <= n <= 3,
            rooms@.len() == n,
            forall|i: int| 0 <= i < rooms@.len() ==> 5 <= (#[trigger] rooms@[i]).0 <= 70 && 5 <= rooms@[i].1 <= 70,
            forall|i: int| 0 <= i < rooms@.len() ==> pocket_beside(pts@, #[trigger] rooms@[i]),
            forall|i: int|
                0 <= i < rooms@.len() ==> tiles@[cell((#[trigger] rooms@[i]).0 as int, rooms@[i].1 as int)].wall == 0,
        decreases 3 - n,
    {
        let ki = range_usize(rng, 1, pts.len() - 1);
        let pp = pts[ki];
        assert(on_band(pp));
        let dir: i32 = if seeded_ratio(rng, 1, 2) { 1 } else { -1 };
        let off = range_i32(rng, 8, 12);
        let sx0 = pp.0 + if dir == 1 { off } else { -off };
        let sx = if sx0 < 5 { 5 } else if sx0 > 70 { 70 } else { sx0 };
        let dyv = range_i32_inclusive(rng, -4, 4);
        let sy0 = pp.1 + dyv;
        let sy = if sy0 < 5 { 5 } else if sy0 > 70 { 70 } else { sy0 };
        assert(pocket_beside_at(pts@, (sx, sy), ki as int, off as int, dyv as int));
        let mut s: i32 = 0;
        while s < 10
            invariant
                tiles@.len() == GRID_LEN,
                border_walled(tiles@),
                palette_tiles(tiles@, pal),
                pal.well_formed(),
                0 <= s <= 10,
                on_band(pp),
                5 <= sx <= 70,
                5 <= sy <= 70,
                walls_kept(old(tiles)@, tiles@),
                old(tiles)@.len() == GRID_LEN,
                rooms@.len() == n,
                forall|i: int| 0 <= i < rooms@.len() ==> 5 <= (#[trigger] rooms@[i]).0 <= 70 && 5 <= rooms@[i].1 <= 70,
                forall|i: int|
                    0 <= i < rooms@.len() ==> tiles@[cell((#[trigger] rooms@[i]).0 as int, rooms@[i].1 as int)].wall == 0,
            decreases 10 - s,
        {
            let (cx, cy) = corridor_step(pp, (sx, sy), s);
            let ghost before = tiles@;
            carve_rough(tiles, rng, pal, cx, cy, 1);
            proof {
                lemma_rough_kept(before, tiles@, pal, cx as int, cy as int, 1);
                lemma_rough_palette(before, tiles@, pal, cx as int, cy as int, 1);
                reveal(rough_carved);
                assert forall|i: int| 0 <= i < rooms@.len() implies tiles@[cell((#[trigger] rooms@[i]).0 as int, rooms@[i].1 as int)].wall == 0 by {
                    assert(in_grid(rooms@[i].0 as int, rooms@[i].1 as int));
                }
            }
            s += 1;
        }
        let ghost before = tiles@;
        carve_rough(tiles, rng, pal, sx, sy, 4);
        proof {
            lemma_rough_kept(before, tiles@, pal, sx as int, sy as int, 4);
            lemma_rough_palette(before, tiles@, pal, sx as int, sy as int, 4);
            reveal(rough_carved);
            assert(in_rough_disk(0, 0, 4));
            assert(tiles@[cell(sx as int, sy as int)].wall == 0);
            assert forall|i: int| 0 <= i < rooms@.len() implies tiles@[cell((#[trigger] rooms@[i]).0 as int, rooms@[i].1 as int)].wall == 0 by {
                assert(in_grid(rooms@[i].0 as int, rooms@[i].1 as int));
            }
        }
        rooms.push((sx, sy));
        n += 1;
    }
    rooms
}

/// Moving from a towards b by the truncated fraction s / 10 of the way
/// stays between a and b.
proof fn lemma_step_between(d: int, s: int)
    requires
        -200 <= d <= 200,
        0 <= s <= 10,
    ensures
        d >= 0 ==> 0 <= (d * s) / 10 <= d,
        d < 0 ==> d <= -((-(d * s)) / 10) <= 0,
{
    if d >= 0 {
        assert(0 <= d * s <= d * 10) by (nonlinear_arith)
            requires
                d >= 0,
                0 <= s <= 10,
        ;
    } else {
        assert(0 <= -(d * s) <= -d * 10) by (nonlinear_arith)
            requires
                d < 0,
                0 <= s <= 10,
        ;
    }
}

/// Step s (of 10) of a straight corridor from a to b:
/// `a + (b - a) · s / 10` in each coordinate, truncated towards zero.
fn corridor_step(a: (i32, i32), b: (i32, i32), s: i32) -> (c: (i32, i32))
    requires
        -100 <= a.0 <= 100,
        -100 <= a.1 <= 100,
        -100 <= b.0 <= 100,
        -100 <= b.1 <= 100,
        0 <= s <= 10,
    ensures
        c.0 == a.0 + trunc_div((b.0 - a.0) * s, 10),
        c.1 == a.1 + trunc_div((b.1 - a.1) * s, 10),
        a.0 <= c.0 <= b.0 || b.0 <= c.0 <= a.0,
        a.1 <= c.1 <= b.1 || b.1 <= c.1 <= a.1,
        a.1 == b.1 ==> c.1 == a.1,
{
    proof {
        lemma_step_between((b.0 - a.0) as int, s as int);
        lemma_step_between((b.1 - a.1) as int, s as int);
        assert(-2000 <= (b.0 - a.0) * s <= 2000) by (nonlinear_arith)
            requires
                -200 <= b.0 - a.0 <= 200,
                0 <= s <= 10,
        ;
        assert(-2000 <= (b.1 - a.1) * s <= 2000) by (nonlinear_arith)
            requires
                -200 <= b.1 - a.1 <= 200,
                0 <= s <= 10,
        ;
    }
    let px = (b.0 - a.0) * s;
    let py = (b.1 - a.1) * s;
    (a.0 + px / 10, a.1 + py / 10)
}

/// Tile index `y as u32 * 76 + x as u32` in wrapping `u32` arithmetic.
fn windex(x: i32, y: i32) -> (i: usize)
    ensures
        i == wrapped_cell(x, y),
{
    (y as u32).wrapping_mul(76).wrapping_add(x as u32) as usize
}

/// Whether (x, y) is an interior tile without a wall.
fn open_at(tiles: &Vec<Tile>, x: i32, y: i32) -> (b: bool)
    requires
        tiles@.len() == GRID_LEN,
    ensures
        b == (in_interior(x as int, y as int) && tiles@[cell(x as int, y as int)].wall == 0),
{
    x > 0 && y > 0 && x < 75 && y < 75 && tiles[(y * 76 + x) as usize].wall == 0
}

/// The secret room: a walled corridor of 10 tiles from the middle waypoint
/// towards a room 10 columns east or west (rune pedestal in its centre),
/// and the lever in a random side room (else on the second waypoint).
/// Returns the corridor tiles and the lever tile.
fn secret_room(
    tiles: &mut Vec<Tile>,
    rng: &mut rand::rngs::StdRng,
    pal: &Palette,
    pts: &Vec<(i32, i32)>,
    rooms: &Vec<(i32, i32)>,
) -> (r: (Vec<usize>, (i32, i32)))
    requires
        old(tiles)@.len() == GRID_LEN,
        border_walled(old(tiles)@),
        pal.well_formed(),
        palette_tiles(old(tiles)@, pal),
        pts@.len() >= 2,
        forall|i: int| 0 <= i < pts@.len() ==> on_band(#[trigger] pts@[i]),
        forall|i: int| 0 <= i < rooms@.len() ==> 5 <= (#[trigger] rooms@[i]).0 <= 70 && 5 <= rooms@[i].1 <= 70,
    ensures
        final(tiles)@.len() == GRID_LEN,
        palette_tiles(final(tiles)@, pal),
        border_walled(final(tiles)@),
        r.0@.len() == 10,
        walls_kept(old(tiles)@, final(tiles)@),
        forall|q: int| 0 <= q < r.0@.len() ==> #[trigger] r.0@[q] < GRID_LEN,
        0 <= r.1.0 < 76 && 0 <= r.1.1 < 76,
        exists|ri: int| 760 <= ri < GRID_LEN && (#[trigger] final(tiles)@[ri]).decor == Some(Decor::Rune { taken: false }),
{
    let pp = pts[pts.len() / 2];
    let dir: i32 = if seeded_ratio(rng, 1, 2) { 1 } else { -1 };
    let sx0 = pp.0 + dir * 10;
    let sx = if sx0 < 4 { 4 } else if sx0 > 71 { 71 } else { sx0 };
    let sy = pp.1;
    let mut secret: Vec<usize> = Vec::new();
    let mut s: i32 = 0;
    while s < 10
        invariant
            0 <= s <= 10,
            on_band(pp),
            4 <= sx <= 71,
            sy == pp.1,
            secret@.len() == s,
            forall|q: int| 0 <= q < secret@.len() ==> #[trigger] secret@[q] < GRID_LEN,
        decreases 10 - s,
    {
        let (cx, cy) = corridor_step(pp, (sx, sy), s);
        secret.push((cy * 76 + cx) as usize);
        s += 1;
    }
    let ghost before = tiles@;
    carve_rough(tiles, rng, pal, sx, sy, 4);
    proof {
        lemma_rough_kept(before, tiles@, pal, sx as int, sy as int, 4);
        lemma_rough_palette(before, tiles@, pal, sx as int, sy as int, 4);
    }
    let ri = (sy * 76 + sx) as usize;
    let ghost carved = tiles@;
    let mut t = tiles[ri];
    t.decor = Some(Decor::Rune { taken: false });
    tiles.set(ri, t);
    proof {
        lemma_decor_palette(carved, ri as int, t.decor, pal);
    }
    let lp = if rooms.len() > 0 {
        rooms[range_usize(rng, 0, rooms.len())]
    } else {
        pts[1]
    };
    let li = (lp.1 * 76 + lp.0) as usize;
    if tiles[li].decor.is_none() {
        let ghost runed = tiles@;
        let mut t = tiles[li];
        t.decor = Some(Decor::Lever { pulled: false });
        tiles.set(li, t);
        proof {
            lemma_decor_palette(runed, li as int, t.decor, pal);
        }
    }
    assert(tiles@[ri as int].decor == Some(Decor::Rune { taken: false }));
    (secret, lp)
}

/// Decor that a tile with roll r (out of 2^24) gets in the biome.
pub open spec fn scatter_pick(pal: &Palette, biome: Biome, r: u32) -> Option<Decor> {
    if r < pal.tree_roll {
        Some(Decor::Tree)
    } else if r < pal.rock_roll {
        Some(Decor::Rock)
    } else if r < pal.bush_roll {
        Some(Decor::Bush)
    } else if biome == Biome::Canyon && r < 1006633 {
        Some(Decor::CactusPlant)
    } else if biome == Biome::Desert && r < 671089 {
        Some(Decor::CactusPlant)
    } else if biome == Biome::Cave && r < 838861 {
        Some(Decor::CrystalCluster)
    } else if biome == Biome::Pinnacle && r < 671089 {
        Some(Decor::CrystalCluster)
    } else {
        None
    }
}

/// (x, y) lies in the 3 × 3 around waypoint p.
pub open spec fn near_pt(p: (i32, i32), x: int, y: int) -> bool {
    p.0 - 2 < x < p.0 + 2 && p.1 - 2 < y < p.1 + 2
}

/// `b` is `a` with decor scattered: each changed tile was open and empty,
/// lies off the 3 × 3 around every waypoint, and got the decor that some
/// roll below 2^24 picks; nothing else changed.
#[verifier::opaque]
pub open spec fn scattered(a: Seq<Tile>, b: Seq<Tile>, pal: &Palette, biome: Biome, pts: Seq<(i32, i32)>) -> bool {
    forall|i: int|
        0 <= i < GRID_LEN ==> {
            let o = a[i];
            let t = #[trigger] b[i];
            ||| t == o
            ||| {
                &&& o.wall == 0
                &&& o.decor is None
                &&& !exists|k: int| 0 <= k < pts.len() && #[trigger] near_pt(pts[k], i % 76, i / 76)
                &&& t == Tile { decor: t.decor, ..o }
                &&& t.decor is Some
                &&& exists|r: u32| r < 0x100_0000 && #[trigger] scatter_pick(pal, biome, r) == t.decor
            }
        }
}

/// Random decor on every open empty tile, by the palette's roll
/// thresholds (cacti in canyons and deserts, crystals in caves and on the
/// pinnacle), kept off the 3 × 3 around every waypoint. The roll of a tile
/// is the uniform `f32` of rand in units of 2^-24: rand draws that float
/// as `(next_u32 >> 8) · 2^-24`, and the roll is its numerator.
fn scatter_decor(tiles: &mut Vec<Tile>, rng: &mut rand::rngs::StdRng, pal: &Palette, biome: Biome, pts: &Vec<(i32, i32)>)
    requires
        old(tiles)@.len() == GRID_LEN,
        forall|i: int| 0 <= i < pts@.len() ==> on_band(#[trigger] pts@[i]),
    ensures
        final(tiles)@.len() == GRID_LEN,
        dressed(old(tiles)@, final(tiles)@),
        scattered(old(tiles)@, final(tiles)@, pal, biome, pts@),
{
    let mut i: usize = 0;
    while i < GRID_LEN
        invariant
            tiles@.len() == GRID_LEN,
            old(tiles)@.len() == GRID_LEN,
            dressed(old(tiles)@, tiles@),
            0 <= i <= GRID_LEN,
            forall|k: int| 0 <= k < pts@.len() ==> on_band(#[trigger] pts@[k]),
            forall|j: int| i <= j < GRID_LEN ==> #[trigger] tiles@[j] == old(tiles)@[j],
            forall|j: int|
                0 <= j < i ==> {
                    let o = old(tiles)@[j];
                    let t = #[trigger] tiles@[j];
                    ||| t == o
                    ||| {
                        &&& o.wall == 0
                        &&& o.decor is None
                        &&& !exists|k: int| 0 <= k < pts@.len() && #[trigger] near_pt(pts@[k], j % 76, j / 76)
                        &&& t == Tile { decor: t.decor, ..o }
                        &&& t.decor is Some
                        &&& exists|r: u32| r < 0x100_0000 && #[trigger] scatter_pick(pal, biome, r) == t.decor
                    }
                },
        decreases GRID_LEN - i,
    {
        let x = (i % 76) as i32;
        let y = (i / 76) as i32;
        if tiles[i].wall == 0 && tiles[i].decor.is_none() {
            let raw = next_u32(rng);
            let roll = raw >> 8;
            assert(raw >> 8 < 0x100_0000) by (bit_vector);
            let d = if roll < pal.tree_roll {
                Some(Decor::Tree)
            } else if roll < pal.rock_roll {
                Some(Decor::Rock)
            } else if roll < pal.bush_roll {
                Some(Decor::Bush)
            } else if biome == Biome::Canyon && roll < 1006633 {
                Some(Decor::CactusPlant)
            } else if biome == Biome::Desert && roll < 671089 {
                Some(Decor::CactusPlant)
            } else if biome == Biome::Cave && roll < 838861 {
                Some(Decor::CrystalCluster)
            } else if biome == Biome::Pinnacle && roll < 671089 {
                Some(Decor::CrystalCluster)
            } else {
                None
            };
            assert(d == scatter_pick(pal, biome, roll));
            if d.is_some() {
                let mut near = false;
                let mut k: usize = 0;
                while k < pts.len()
                    invariant
                        0 <= k <= pts@.len(),
                        forall|j: int| 0 <= j < pts@.len() ==> on_band(#[trigger] pts@[j]),
                        0 <= x < 76,
                        0 <= y < 76,
                        near == exists|j: int| 0 <= j < k && #[trigger] near_pt(pts@[j], x as int, y as int),
                    decreases pts@.len() - k,
                {
                    let p = pts[k];
                    assert(on_band(pts@[k as int]));
                    let ax = if p.0 >= x { p.0 - x } else { x - p.0 };
                    let ay = if p.1 >= y { p.1 - y } else { y - p.1 };
                    if ax < 2 && ay < 2 {
                        near = true;
                        assert(near_pt(pts@[k as int], x as int, y as int));
                    }
                    k += 1;
                }
                if !near {
                    let mut t = tiles[i];
                    t.decor = d;
                    tiles.set(i, t);
                }
            }
        }
        i += 1;
    }
    proof {
        reveal(scattered);
    }
}

/// Tile t is tile o, or o was open and empty and t is o with decor d.
pub open spec fn gained(o: Tile, t: Tile, d: Decor) -> bool {
    ||| t == o
    ||| o.wall == 0 && o.decor is None && t == Tile { decor: Some(d), ..o }
}

/// (x, y) is one of the four diagonal corners (±3, ±3) of waypoint p.
pub open spec fn corner_of(p: (i32, i32), x: int, y: int) -> bool {
    &&& x == p.0 - 3 || x == p.0 + 3
    &&& y == p.1 - 3 || y == p.1 + 3
}

/// `b` is `a` with torches on some open empty interior tiles at diagonal
/// corners of waypoints, and nothing else changed.
#[verifier::opaque]
pub open spec fn torched(a: Seq<Tile>, b: Seq<Tile>, pts: Seq<(i32, i32)>) -> bool {
    forall|x: int, y: int|
        in_grid(x, y) ==> {
            &&& gained(a[cell(x, y)], #[trigger] b[cell(x, y)], Decor::Torch)
            &&& b[cell(x, y)] != a[cell(x, y)] ==> in_interior(x, y) && exists|k: int| 0 <= k < pts.len() && #[trigger] corner_of(pts[k], x, y)
        }
}

/// Torches: at the four diagonal corners (±3, ±3) of every waypoint, on
/// open empty tiles, with probability 0.4 each.
fn torches(tiles: &mut Vec<Tile>, rng: &mut rand::rngs::StdRng, pts: &Vec<(i32, i32)>)
    requires
        old(tiles)@.len() == GRID_LEN,
        forall|i: int| 0 <= i < pts@.len() ==> on_band(#[trigger] pts@[i]),
    ensures
        final(tiles)@.len() == GRID_LEN,
        dressed(old(tiles)@, final(tiles)@),
        torched(old(tiles)@, final(tiles)@, pts@),
{
    proof {
        reveal(torched);
    }
    let mut k: usize = 0;
    while k < pts.len()
        invariant
            tiles@.len() == GRID_LEN,
            dressed(old(tiles)@, tiles@),
            torched(old(tiles)@, tiles@, pts@),
            0 <= k <= pts@.len(),
            forall|i: int| 0 <= i < pts@.len() ==> on_band(#[trigger] pts@[i]),
        decreases pts@.len() - k,
    {
        let pp = pts[k];
        let mut c: u32 = 0;
        while c < 4
            invariant
                tiles@.len() == GRID_LEN,
                dressed(old(tiles)@, tiles@),
                torched(old(tiles)@, tiles@, pts@),
                0 <= c <= 4,
                0 <= k < pts@.len(),
                pp == pts@[k as int],
                on_band(pp),
            decreases 4 - c,
        {
            let (dx, dy): (i32, i32) = if c == 0 { (-3, -3) } else if c == 1 { (3, -3) } else if c == 2 { (-3, 3) } else { (3, 3) };
            proof {
                reveal(torched);
            }
            let x = pp.0 + dx;
            let y = pp.1 + dy;
            if open_at(tiles, x, y) {
                let i = (y * 76 + x) as usize;
                assert(i as int == cell(x as int, y as int));
                if tiles[i].decor.is_none() && seeded_ratio(rng, 2, 5) {
                    let ghost before = tiles@;
                    assert(gained(old(tiles)@[cell(x as int, y as int)], tiles@[cell(x as int, y as int)], Decor::Torch));
                    assert(before[cell(x as int, y as int)] == old(tiles)@[cell(x as int, y as int)]);
                    let mut t = tiles[i];
                    t.decor = Some(Decor::Torch);
                    tiles.set(i, t);
                    assert(corner_of(pts@[k as int], x as int, y as int));
                    assert forall|xx: int, yy: int| in_grid(xx, yy) implies {
                        &&& gained(old(tiles)@[cell(xx, yy)], #[trigger] tiles@[cell(xx, yy)], Decor::Torch)
                        &&& tiles@[cell(xx, yy)] != old(tiles)@[cell(xx, yy)] ==> in_interior(xx, yy) && exists|k: int| 0 <= k < pts@.len() && #[trigger] corner_of(pts@[k], xx, yy)
                    } by {
                        if xx != x || yy != y {
                            assert(cell(xx, yy) != cell(x as int, y as int));
                            assert(tiles@[cell(xx, yy)] == before[cell(xx, yy)]);
                        }
                    }
                }
            }
            c += 1;
        }
        k += 1;
    }
}

/// Block b is one of the palette's grounds.
pub open spec fn palette_ground(pal: &Palette, b: Block) -> bool {
    exists|j: int| 0 <= j < pal.grounds@.len() && b == (#[trigger] pal.grounds@[j]).0
}

/// Every tile has a palette ground and the palette's wall block.
#[verifier::opaque]
pub open spec fn palette_tiles(t: Seq<Tile>, pal: &Palette) -> bool {
    forall|j: int| 0 <= j < t.len() ==> palette_ground(pal, (#[trigger] t[j]).ground) && t[j].wall_block == pal.wall
}

/// Every tile has a palette ground, one of the biome's path blocks or
/// planks, and the palette's wall block.
#[verifier::opaque]
pub open spec fn biome_tiles(t: Seq<Tile>, pal: &Palette, biome: Biome) -> bool {
    forall|j: int|
        0 <= j < t.len() ==> {
            let g = (#[trigger] t[j]).ground;
            &&& palette_ground(pal, g) || path_blocks_of(biome).contains(g) || g == Block::Planks
            &&& t[j].wall_block == pal.wall
        }
}

/// Setting one tile's decor keeps palette tiles.
proof fn lemma_decor_palette(a: Seq<Tile>, i: int, d: Option<Decor>, pal: &Palette)
    requires
        palette_tiles(a, pal),
        0 <= i < a.len(),
    ensures
        palette_tiles(a.update(i, Tile { decor: d, ..a[i] }), pal),
{
    reveal(palette_tiles);
    let b = a.update(i, Tile { decor: d, ..a[i] });
    assert forall|j: int| 0 <= j < b.len() implies palette_ground(pal, (#[trigger] b[j]).ground) && b[j].wall_block == pal.wall by {
        assert(palette_ground(pal, a[j].ground));
    }
}

/// Carving keeps palette tiles.
proof fn lemma_rough_palette(a: Seq<Tile>, b: Seq<Tile>, pal: &Palette, x: int, y: int, r: int)
    requires
        a.len() == GRID_LEN,
        b.len() == GRID_LEN,
        palette_tiles(a, pal),
        rough_carved(a, b, pal, x, y, r),
    ensures
        palette_tiles(b, pal),
{
    reveal(rough_carved);
    reveal(palette_tiles);
    assert forall|j: int| 0 <= j < b.len() implies palette_ground(pal, (#[trigger] b[j]).ground) && b[j].wall_block == pal.wall by {
        let xx = j % 76;
        let yy = j / 76;
        assert(in_grid(xx, yy) && cell(xx, yy) == j);
        assert(palette_ground(pal, a[j].ground));
    }
}

/// Tile (x, y) after the ground patches: unchanged, or an open interior
/// tile whose ground became one of the palette's grounds.
pub open spec fn repatched(a: Seq<Tile>, pal: &Palette, x: int, y: int, t: Tile) -> bool {
    let o = a[cell(x, y)];
    ||| t == o
    ||| in_interior(x, y) && o.wall == 0 && t == Tile { ground: t.ground, ..o } && palette_ground(pal, t.ground)
}

/// `b` is `a` with ground patches laid.
#[verifier::opaque]
pub open spec fn patched(a: Seq<Tile>, b: Seq<Tile>, pal: &Palette) -> bool {
    forall|x: int, y: int| in_grid(x, y) ==> repatched(a, pal, x, y, #[trigger] b[cell(x, y)])
}

/// Ground patches: 55 random diamonds (radius 2..4) of palette grounds;
/// every open interior tile takes the ground of the nearest patch that
/// covers it (the first one on ties).
fn ground_patches(tiles: &mut Vec<Tile>, rng: &mut rand::rngs::StdRng, pal: &Palette)
    requires
        old(tiles)@.len() == GRID_LEN,
        pal.well_formed(),
    ensures
        final(tiles)@.len() == GRID_LEN,
        dressed(old(tiles)@, final(tiles)@),
        patched(old(tiles)@, final(tiles)@, pal),
{
    let mut patches: Vec<(i32, i32, i32, Block)> = Vec::new();
    let mut n: u32 = 0;
    while n < 55
        invariant
            0 <= n <= 55,
            pal.well_formed(),
            patches@.len() == n,
            forall|i: int| 0 <= i < patches@.len() ==> palette_ground(pal, (#[trigger] patches@[i]).3),
            forall|i: int| 0 <= i < patches@.len() ==> 2 <= (#[trigger] patches@[i]).0 < 74 && 2 <= patches@[i].1 < 74,
        decreases 55 - n,
    {
        let b = pick_ground(rng, pal);
        let qx = range_i32(rng, 2, 74);
        let qy = range_i32(rng, 2, 74);
        let qr = range_i32(rng, 2, 5);
        patches.push((qx, qy, qr, b));
        n += 1;
    }
    let mut y: i32 = 1;
    while y < 75
        invariant
            tiles@.len() == GRID_LEN,
            old(tiles)@.len() == GRID_LEN,
            dressed(old(tiles)@, tiles@),
            1 <= y <= 75,
            forall|i: int| 0 <= i < patches@.len() ==> palette_ground(pal, (#[trigger] patches@[i]).3),
            forall|xx: int, yy: int|
                in_grid(xx, yy) ==> if yy < y {
                    repatched(old(tiles)@, pal, xx, yy, #[trigger] tiles@[cell(xx, yy)])
                } else {
                    tiles@[cell(xx, yy)] == old(tiles)@[cell(xx, yy)]
                },
            forall|i: int| 0 <= i < patches@.len() ==> 2 <= (#[trigger] patches@[i]).0 < 74 && 2 <= patches@[i].1 < 74,
        decreases 75 - y,
    {
        let mut x: i32 = 1;
        while x < 75
            invariant
                tiles@.len() == GRID_LEN,
                old(tiles)@.len() == GRID_LEN,
                dressed(old(tiles)@, tiles@),
                1 <= x <= 75,
                1 <= y < 75,
                forall|i: int| 0 <= i < patches@.len() ==> palette_ground(pal, (#[trigger] patches@[i]).3),
                forall|xx: int, yy: int|
                    in_grid(xx, yy) ==> if yy < y || (yy == y && xx < x) {
                        repatched(old(tiles)@, pal, xx, yy, #[trigger] tiles@[cell(xx, yy)])
                    } else {
                        tiles@[cell(xx, yy)] == old(tiles)@[cell(xx, yy)]
                    },
                forall|i: int| 0 <= i < patches@.len() ==> 2 <= (#[trigger] patches@[i]).0 < 74 && 2 <= patches@[i].1 < 74,
            decreases 75 - x,
        {
            let i = (y * 76 + x) as usize;
            assert(i as int == cell(x as int, y as int));
            assert(tiles@[cell(x as int, y as int)] == old(tiles)@[cell(x as int, y as int)]);
            if tiles[i].wall == 0 {
                let mut best: Option<(i32, Block)> = None;
                let mut k: usize = 0;
                while k < patches.len()
                    invariant
                        0 <= k <= patches@.len(),
                        1 <= x < 75,
                        1 <= y < 75,
                        forall|j: int| 0 <= j < patches@.len() ==> 2 <= (#[trigger] patches@[j]).0 < 74 && 2 <= patches@[j].1 < 74,
                        forall|j: int| 0 <= j < patches@.len() ==> palette_ground(pal, (#[trigger] patches@[j]).3),
                        best matches Some(bb) ==> palette_ground(pal, bb.1),
                    decreases patches@.len() - k,
                {
                    let (qx, qy, qr, qb) = patches[k];
                    assert(palette_ground(pal, patches@[k as int].3));
                    let d = (if qx >= x { qx - x } else { x - qx }) + (if qy >= y { qy - y } else { y - qy });
                    if d <= qr {
                        let closer = match best {
                            Some((bd, _)) => d < bd,
                            None => true,
                        };
                        if closer {
                            best = Some((d, qb));
                        }
                    }
                    k += 1;
                }
                if let Some((_, b)) = best {
                    let mut t = tiles[i];
                    t.ground = b;
                    tiles.set(i, t);
                }
            }
            x += 1;
        }
        y += 1;
    }
    proof {
        reveal(patched);
        assert forall|xx: int, yy: int| in_grid(xx, yy) implies repatched(old(tiles)@, pal, xx, yy, #[trigger] tiles@[cell(xx, yy)]) by {
            if yy >= 75 {
                assert(tiles@[cell(xx, yy)] == old(tiles)@[cell(xx, yy)]);
            }
        }
    }
}

/// Tile (x, y) of `a` after bridging: an open interior water tile on the
/// corridor becomes planks; any other tile is unchanged.
pub open spec fn bridged_tile(a: Seq<Tile>, corridor: Seq<(i32, i32)>, x: int, y: int) -> Tile {
    let o = a[cell(x, y)];
    if in_interior(x, y) && o.wall == 0 && o.ground == Block::Water && corridor.contains((x as i32, y as i32)) {
        Tile { ground: Block::Planks, ..o }
    } else {
        o
    }
}

/// `b` is `a` with every tile bridged.
#[verifier::opaque]
pub open spec fn bridged(a: Seq<Tile>, b: Seq<Tile>, corridor: Seq<(i32, i32)>) -> bool {
    forall|x: int, y: int| in_grid(x, y) ==> #[trigger] b[cell(x, y)] == bridged_tile(a, corridor, x, y)
}

/// Plank bridges: open water tiles under the main corridor become planks.
fn bridges(tiles: &mut Vec<Tile>, corridor: &Vec<(i32, i32)>)
    requires
        old(tiles)@.len() == GRID_LEN,
    ensures
        final(tiles)@.len() == GRID_LEN,
        dressed(old(tiles)@, final(tiles)@),
        bridged(old(tiles)@, final(tiles)@, corridor@),
{
    proof {
        reveal(bridged);
    }
    let mut y: i32 = 1;
    while y < 75
        invariant
            tiles@.len() == GRID_LEN,
            dressed(old(tiles)@, tiles@),
            1 <= y <= 75,
            forall|xx: int, yy: int|
                in_grid(xx, yy) ==> #[trigger] tiles@[cell(xx, yy)] == if yy < y {
                    bridged_tile(old(tiles)@, corridor@, xx, yy)
                } else {
                    old(tiles)@[cell(xx, yy)]
                },
        decreases 75 - y,
    {
        let mut x: i32 = 1;
        while x < 75
            invariant
                tiles@.len() == GRID_LEN,
                dressed(old(tiles)@, tiles@),
                1 <= x <= 75,
                1 <= y < 75,
                forall|xx: int, yy: int|
                    in_grid(xx, yy) ==> #[trigger] tiles@[cell(xx, yy)] == if yy < y || (yy == y && xx < x) {
                        bridged_tile(old(tiles)@, corridor@, xx, yy)
                    } else {
                        old(tiles)@[cell(xx, yy)]
                    },
            decreases 75 - x,
        {
            let i = (y * 76 + x) as usize;
            assert(tiles@[cell(x as int, y as int)] == old(tiles)@[cell(x as int, y as int)]);
            if tiles[i].wall == 0 && tiles[i].ground == Block::Water {
                let mut on = false;
                let mut k: usize = 0;
                while k < corridor.len()
                    invariant
                        0 <= k <= corridor@.len(),
                        on == exists|j: int| 0 <= j < k && corridor@[j] == (x, y),
                    decreases corridor@.len() - k,
                {
                    if corridor[k].0 == x && corridor[k].1 == y {
                        on = true;
                    }
                    k += 1;
                }
                assert(on == corridor@.contains((x, y)));
                if on {
                    let mut t = tiles[i];
                    t.ground = Block::Planks;
                    tiles.set(i, t);
                }
            }
            x += 1;
        }
        proof {
            assert forall|xx: int, yy: int| in_grid(xx, yy) && yy == y && !(1 <= xx < 75) implies #[trigger] tiles@[cell(xx, yy)] == bridged_tile(old(tiles)@, corridor@, xx, yy) by {}
        }
        y += 1;
    }
}

/// Tile (x, y) is in the grid and has a wall (`walled`) or has none.
pub open spec fn neighbour_is(t: Seq<Tile>, x: int, y: int, walled: bool) -> bool {
    in_grid(x, y) && if walled { t[cell(x, y)].wall > 0 } else { t[cell(x, y)].wall == 0 }
}

/// One of the four neighbours of (x, y) is in the grid and has a wall
/// (`walled`) or has none.
pub open spec fn has_neighbour(t: Seq<Tile>, x: int, y: int, walled: bool) -> bool {
    neighbour_is(t, x - 1, y, walled) || neighbour_is(t, x + 1, y, walled) || neighbour_is(t, x, y - 1, walled)
        || neighbour_is(t, x, y + 1, walled)
}

/// Whether a 4-neighbour of (x, y) inside the grid has a wall (`walled`)
/// or has none (`!walled`).
fn neighbour_with(tiles: &Vec<Tile>, x: i32, y: i32, walled: bool) -> (found: bool)
    requires
        tiles@.len() == GRID_LEN,
        0 <= x < 76,
        0 <= y < 76,
    ensures
        found == has_neighbour(tiles@, x as int, y as int, walled),
{
    let mut found = false;
    let mut c: u32 = 0;
    while c < 4
        invariant
            0 <= c <= 4,
            0 <= x < 76,
            0 <= y < 76,
            tiles@.len() == GRID_LEN,
            found == ((c > 0 && neighbour_is(tiles@, x - 1, y as int, walled))
                || (c > 1 && neighbour_is(tiles@, x + 1, y as int, walled))
                || (c > 2 && neighbour_is(tiles@, x as int, y - 1, walled))
                || (c > 3 && neighbour_is(tiles@, x as int, y + 1, walled))),
        decreases 4 - c,
    {
        let (dx, dy): (i32, i32) = if c == 0 { (-1, 0) } else if c == 1 { (1, 0) } else if c == 2 { (0, -1) } else { (0, 1) };
        let xx = x + dx;
        let yy = y + dy;
        if xx >= 0 && yy >= 0 && xx < 76 && yy < 76 {
            let w = tiles[(yy * 76 + xx) as usize].wall;
            if (walled && w > 0) || (!walled && w == 0) {
                found = true;
            }
        }
        c += 1;
    }
    found
}

/// The two path blocks of a biome's trampled shoulders.
pub open spec fn path_blocks_of(biome: Biome) -> Seq<Block> {
    match biome {
        Biome::Stronghold | Biome::Pinnacle => seq![Block::CrackedBrick, Block::MossyBrick],
        Biome::Nether => seq![Block::SoulSand, Block::Netherrack],
        Biome::Canyon | Biome::Desert => seq![Block::Sandstone, Block::Gravel],
        Biome::Winter | Biome::Peaks => seq![Block::Gravel, Block::Stone],
        _ => seq![Block::Gravel, Block::Cobble],
    }
}

/// Tile (x, y) after trampling: unchanged, or an open dry interior tile
/// next to a wall that took one of the biome's path blocks as ground.
pub open spec fn trampled(a: Seq<Tile>, biome: Biome, x: int, y: int, t: Tile) -> bool {
    let o = a[cell(x, y)];
    ||| t == o
    ||| {
        &&& in_interior(x, y)
        &&& o.wall == 0
        &&& o.ground != Block::Water
        &&& has_neighbour(a, x, y, true)
        &&& t == Tile { ground: t.ground, ..o }
        &&& path_blocks_of(biome).contains(t.ground)
    }
}

/// `b` is `a` with trampled shoulders.
#[verifier::opaque]
pub open spec fn shouldered(a: Seq<Tile>, b: Seq<Tile>, biome: Biome) -> bool {
    forall|x: int, y: int| in_grid(x, y) ==> trampled(a, biome, x, y, #[trigger] b[cell(x, y)])
}

/// Trampled shoulders: open dry tiles next to a wall get one of the biome's
/// two path blocks with probability 1/2.
fn shoulders(tiles: &mut Vec<Tile>, rng: &mut rand::rngs::StdRng, biome: Biome)
    requires
        old(tiles)@.len() == GRID_LEN,
    ensures
        final(tiles)@.len() == GRID_LEN,
        dressed(old(tiles)@, final(tiles)@),
        shouldered(old(tiles)@, final(tiles)@, biome),
{
    let path_blocks: Vec<Block> = match biome {
        Biome::Stronghold | Biome::Pinnacle => vec![Block::CrackedBrick, Block::MossyBrick],
        Biome::Nether => vec![Block::SoulSand, Block::Netherrack],
        Biome::Canyon | Biome::Desert => vec![Block::Sandstone, Block::Gravel],
        Biome::Winter | Biome::Peaks => vec![Block::Gravel, Block::Stone],
        _ => vec![Block::Gravel, Block::Cobble],
    };
    assert(path_blocks@ == path_blocks_of(biome));
    let mut y: i32 = 1;
    while y < 75
        invariant
            tiles@.len() == GRID_LEN,
            old(tiles)@.len() == GRID_LEN,
            dressed(old(tiles)@, tiles@),
            1 <= y <= 75,
            path_blocks@ == path_blocks_of(biome),
            forall|xx: int, yy: int|
                in_grid(xx, yy) ==> if yy < y {
                    trampled(old(tiles)@, biome, xx, yy, #[trigger] tiles@[cell(xx, yy)])
                } else {
                    tiles@[cell(xx, yy)] == old(tiles)@[cell(xx, yy)]
                },
        decreases 75 - y,
    {
        let mut x: i32 = 1;
        while x < 75
            invariant
                tiles@.len() == GRID_LEN,
                old(tiles)@.len() == GRID_LEN,
                dressed(old(tiles)@, tiles@),
                1 <= x <= 75,
                1 <= y < 75,
                path_blocks@ == path_blocks_of(biome),
                forall|xx: int, yy: int|
                    in_grid(xx, yy) ==> if yy < y || (yy == y && xx < x) {
                        trampled(old(tiles)@, biome, xx, yy, #[trigger] tiles@[cell(xx, yy)])
                    } else {
                        tiles@[cell(xx, yy)] == old(tiles)@[cell(xx, yy)]
                    },
            decreases 75 - x,
        {
            let i = (y * 76 + x) as usize;
            assert(i as int == cell(x as int, y as int));
            assert(tiles@[cell(x as int, y as int)] == old(tiles)@[cell(x as int, y as int)]);
            if !(tiles[i].wall > 0 || tiles[i].ground == Block::Water) {
                proof {
                    lemma_dressed_neighbours(old(tiles)@, tiles@, x as int, y as int, true);
                }
                if neighbour_with(tiles, x, y, true) && seeded_ratio(rng, 1, 2) {
                    let b = path_blocks[range_usize(rng, 0, path_blocks.len())];
                    let mut t = tiles[i];
                    t.ground = b;
                    tiles.set(i, t);
                }
            }
            x += 1;
        }
        y += 1;
    }
    proof {
        reveal(shouldered);
        assert forall|xx: int, yy: int| in_grid(xx, yy) implies trampled(old(tiles)@, biome, xx, yy, #[trigger] tiles@[cell(xx, yy)]) by {
            if yy >= 75 {
                assert(tiles@[cell(xx, yy)] == old(tiles)@[cell(xx, yy)]);
            }
        }
    }
}

/// Height a wall tile of `o` may take at (x, y): a low kerb of 1 or 2
/// blocks facing an open tile, else the full height of 2 blocks; open
/// tiles keep their 0.
pub open spec fn wall_height_ok(o: Seq<Tile>, x: int, y: int, h: u8) -> bool {
    if o[cell(x, y)].wall == 0 {
        h == 0
    } else if has_neighbour(o, x, y, false) {
        1 <= h <= 2
    } else {
        h == 2
    }
}

/// `b` is `a` with only the wall heights changed, each as `wall_height_ok`
/// allows.
#[verifier::opaque]
pub open spec fn heights_set(a: Seq<Tile>, b: Seq<Tile>) -> bool {
    forall|x: int, y: int|
        in_grid(x, y) ==> {
            let t = #[trigger] b[cell(x, y)];
            &&& t == Tile { wall: t.wall, ..a[cell(x, y)] }
            &&& wall_height_ok(a, x, y, t.wall)
        }
}

/// Heights set as `wall_height_ok` allows are at most 2.
proof fn lemma_heights_low(a: Seq<Tile>, b: Seq<Tile>)
    requires
        a.len() == GRID_LEN,
        b.len() == GRID_LEN,
        heights_set(a, b),
    ensures
        low_walls(b),
{
    reveal(heights_set);
    assert forall|j: int| 0 <= j < b.len() implies (#[trigger] b[j]).wall <= 2 by {
        let x = j % 76;
        let y = j / 76;
        assert(in_grid(x, y) && cell(x, y) == j);
    }
}

/// Neighbour tests read only whether tiles are open, which dressing keeps.
proof fn lemma_dressed_neighbours(a: Seq<Tile>, b: Seq<Tile>, x: int, y: int, walled: bool)
    requires
        dressed(a, b),
        a.len() == GRID_LEN,
    ensures
        has_neighbour(a, x, y, walled) == has_neighbour(b, x, y, walled),
{
    if in_grid(x - 1, y) {
        assert((b[cell(x - 1, y)].wall > 0) == (a[cell(x - 1, y)].wall > 0));
    }
    if in_grid(x + 1, y) {
        assert((b[cell(x + 1, y)].wall > 0) == (a[cell(x + 1, y)].wall > 0));
    }
    if in_grid(x, y - 1) {
        assert((b[cell(x, y - 1)].wall > 0) == (a[cell(x, y - 1)].wall > 0));
    }
    if in_grid(x, y + 1) {
        assert((b[cell(x, y + 1)].wall > 0) == (a[cell(x, y + 1)].wall > 0));
    }
}

/// Wall heights: walls facing an open tile become low kerbs (1 block, or 2
/// with probability 1/4); the deep wall mass stands at the full 2 blocks.
/// Only the heights change.
#[verifier::spinoff_prover]
#[verifier::rlimit(30)]
fn wall_heights(tiles: &mut Vec<Tile>, rng: &mut rand::rngs::StdRng)
    requires
        old(tiles)@.len() == GRID_LEN,
    ensures
        final(tiles)@.len() == GRID_LEN,
        dressed(old(tiles)@, final(tiles)@),
        heights_set(old(tiles)@, final(tiles)@),
{
    proof {
        reveal(heights_set);
    }
    let mut y: i32 = 0;
    while y < 76
        invariant
            tiles@.len() == GRID_LEN,
            dressed(old(tiles)@, tiles@),
            0 <= y <= 76,
            forall|xx: int, yy: int|
                in_grid(xx, yy) ==> {
                    let t = #[trigger] tiles@[cell(xx, yy)];
                    if yy < y {
                        t == Tile { wall: t.wall, ..old(tiles)@[cell(xx, yy)] } && wall_height_ok(old(tiles)@, xx, yy, t.wall)
                    } else {
                        t == old(tiles)@[cell(xx, yy)]
                    }
                },
        decreases 76 - y,
    {
        let mut x: i32 = 0;
        while x < 76
            invariant
                tiles@.len() == GRID_LEN,
                dressed(old(tiles)@, tiles@),
                0 <= x <= 76,
                0 <= y < 76,
                forall|xx: int, yy: int|
                    in_grid(xx, yy) ==> {
                        let t = #[trigger] tiles@[cell(xx, yy)];
                        if yy < y || (yy == y && xx < x) {
                            t == Tile { wall: t.wall, ..old(tiles)@[cell(xx, yy)] } && wall_height_ok(
                                old(tiles)@,
                                xx,
                                yy,
                                t.wall,
                            )
                        } else {
                            t == old(tiles)@[cell(xx, yy)]
                        }
                    },
            decreases 76 - x,
        {
            let i = (y * 76 + x) as usize;
            assert(tiles@[cell(x as int, y as int)] == old(tiles)@[cell(x as int, y as int)]);
            if tiles[i].wall != 0 {
                proof {
                    lemma_dressed_neighbours(old(tiles)@, tiles@, x as int, y as int, false);
                }
                let h: u8 = if neighbour_with(tiles, x, y, false) {
                    if seeded_ratio(rng, 3, 4) { 1 } else { 2 }
                } else {
                    2
                };
                let mut t = tiles[i];
                t.wall = h;
                tiles.set(i, t);
            }
            x += 1;
        }
        y += 1;
    }
}

/// Tiles, chests and cages after putting decor `d` at the wrapped index of
/// (x, y): only an open empty tile there takes it, and a chest or a cage
/// placed is recorded by its centre (in half tiles).
#[verifier::opaque]
pub open spec fn placed(
    t: Seq<Tile>,
    chests: Seq<(i32, i32)>,
    captives: Seq<(i32, i32)>,
    x: i32,
    y: i32,
    d: Decor,
) -> (Seq<Tile>, Seq<(i32, i32)>, Seq<(i32, i32)>) {
    let i = wrapped_cell(x, y) as int;
    let c = ((2 * x + 1) as i32, (2 * y + 1) as i32);
    if i < t.len() && t[i].wall == 0 && t[i].decor is None {
        (
            t.update(i, Tile { decor: Some(d), ..t[i] }),
            if d is Chest { chests.push(c) } else { chests },
            if d is Cage { captives.push(c) } else { captives },
        )
    } else {
        (t, chests, captives)
    }
}

/// `c` (in half tiles) is the centre of a grid tile that holds a closed
/// chest.
pub open spec fn closed_chest_at(t: Seq<Tile>, c: (i32, i32)) -> bool {
    exists|x: int, y: int|
        in_grid(x, y) && c == ((2 * x + 1) as i32, (2 * y + 1) as i32) && #[trigger] t[cell(x, y)].decor == Some(
            Decor::Chest { opened: false },
        )
}

/// Every listed chest position is the centre of a tile with a closed chest.
pub open spec fn closed_chests(t: Seq<Tile>, cs: Seq<(i32, i32)>) -> bool {
    forall|k: int| 0 <= k < cs.len() ==> closed_chest_at(t, #[trigger] cs[k])
}

/// `c` (in half tiles) is the centre of a grid tile that holds a cage.
pub open spec fn cage_at(t: Seq<Tile>, c: (i32, i32)) -> bool {
    exists|x: int, y: int|
        in_grid(x, y) && c == ((2 * x + 1) as i32, (2 * y + 1) as i32) && #[trigger] t[cell(x, y)].decor == Some(
            Decor::Cage,
        )
}

/// Every listed captive position is the centre of a tile with a cage.
pub open spec fn caged(t: Seq<Tile>, cs: Seq<(i32, i32)>) -> bool {
    forall|k: int| 0 <= k < cs.len() ==> cage_at(t, #[trigger] cs[k])
}

/// Decor once placed stays, so cages stay.
proof fn lemma_caged_dressed(a: Seq<Tile>, b: Seq<Tile>, cs: Seq<(i32, i32)>)
    requires
        a.len() == GRID_LEN,
        dressed(a, b),
        caged(a, cs),
    ensures
        caged(b, cs),
{
    assert forall|k: int| 0 <= k < cs.len() implies cage_at(b, #[trigger] cs[k]) by {
        let (x, y) = choose|x: int, y: int|
            in_grid(x, y) && cs[k] == ((2 * x + 1) as i32, (2 * y + 1) as i32) && #[trigger] a[cell(x, y)].decor == Some(
                Decor::Cage,
            );
        assert(0 <= cell(x, y) < GRID_LEN);
        assert(b[cell(x, y)].decor == Some(Decor::Cage));
    }
}

/// Every chest listed in a level whose chests are closed can be opened for
/// its loot, once: using its tile opens it, and using it again does nothing.
pub proof fn law_listed_chests_open(t: Seq<Tile>, cs: Seq<(i32, i32)>, k: int, hurt: bool, hurt_again: bool)
    requires
        closed_chests(t, cs),
        0 <= k < cs.len(),
    ensures
        exists|x: int, y: int|
            in_grid(x, y) && cs[k] == ((2 * x + 1) as i32, (2 * y + 1) as i32) && crate::loot::interaction_of(
                #[trigger] t[cell(x, y)].decor,
                hurt,
            ) == crate::loot::Interaction::OpenedChest && crate::loot::interaction_of(
                crate::loot::decor_after(t[cell(x, y)].decor, hurt),
                hurt_again,
            ) == crate::loot::Interaction::Nothing,
{
    assert(closed_chest_at(t, cs[k]));
}

/// Decor once placed stays, so closed chests stay closed.
proof fn lemma_closed_chests_dressed(a: Seq<Tile>, b: Seq<Tile>, cs: Seq<(i32, i32)>)
    requires
        a.len() == GRID_LEN,
        dressed(a, b),
        closed_chests(a, cs),
    ensures
        closed_chests(b, cs),
{
    assert forall|k: int| 0 <= k < cs.len() implies closed_chest_at(b, #[trigger] cs[k]) by {
        let (x, y) = choose|x: int, y: int|
            in_grid(x, y) && cs[k] == ((2 * x + 1) as i32, (2 * y + 1) as i32) && #[trigger] a[cell(x, y)].decor == Some(
                Decor::Chest { opened: false },
            );
        assert(0 <= cell(x, y) < GRID_LEN);
        assert(b[cell(x, y)].decor == Some(Decor::Chest { opened: false }));
    }
}

/// Puts decor `d` on the tile at the wrapped index of (x, y) when that tile
/// is open and empty; chests and cages are recorded (in half tiles).
fn place(
    tiles: &mut Vec<Tile>,
    x: i32,
    y: i32,
    d: Decor,
    chests: &mut Vec<(i32, i32)>,
    captives: &mut Vec<(i32, i32)>,
)
    requires
        old(tiles)@.len() == GRID_LEN,
        -1000 <= x <= 1000,
        -1000 <= y <= 1000,
    ensures
        final(tiles)@.len() == GRID_LEN,
        dressed(old(tiles)@, final(tiles)@),
        final(chests)@.len() <= old(chests)@.len() + 1,
        final(captives)@.len() <= old(captives)@.len() + 1,
        !(d is Cage) ==> final(captives)@ == old(captives)@,
        (final(tiles)@, final(chests)@, final(captives)@) == placed(old(tiles)@, old(chests)@, old(captives)@, x, y, d),
        same_but_decor(old(tiles)@, final(tiles)@),
        !(d is Chest) ==> final(chests)@ == old(chests)@,
        closed_chests(old(tiles)@, old(chests)@) && (d is Chest ==> d == Decor::Chest { opened: false } && in_grid(
            x as int,
            y as int,
        )) ==> closed_chests(final(tiles)@, final(chests)@),
        caged(old(tiles)@, old(captives)@) && (d is Cage ==> in_grid(x as int, y as int)) ==> caged(
            final(tiles)@,
            final(captives)@,
        ),
{
    proof {
        reveal(placed);
        if in_grid(x as int, y as int) {
            lemma_wrapped_cell_in_grid(x, y);
        }
    }
    let ghost t0 = tiles@;
    let ghost c0 = chests@;
    let ghost k0 = captives@;
    let i = windex(x, y);
    if i < tiles.len() && tiles[i].wall == 0 && tiles[i].decor.is_none() {
        let mut t = tiles[i];
        t.decor = Some(d);
        tiles.set(i, t);
        if let Decor::Chest { .. } = d {
            chests.push((2 * x + 1, 2 * y + 1));
        }
        if let Decor::Cage = d {
            captives.push((2 * x + 1, 2 * y + 1));
        }
    }
    proof {
        if closed_chests(t0, c0) && (d is Chest ==> d == Decor::Chest { opened: false } && in_grid(x as int, y as int)) {
            lemma_closed_chests_dressed(t0, tiles@, c0);
            if chests@.len() > c0.len() {
                let k = c0.len() as int;
                assert(tiles@[cell(x as int, y as int)].decor == Some(Decor::Chest { opened: false }));
                assert(closed_chest_at(tiles@, chests@[k]));
                assert forall|j: int| 0 <= j < chests@.len() implies closed_chest_at(tiles@, #[trigger] chests@[j]) by {
                    if j < k {
                        assert(chests@[j] == c0[j]);
                    }
                }
            } else {
                assert(chests@ == c0);
            }
        }
        if caged(t0, k0) && (d is Cage ==> in_grid(x as int, y as int)) {
            lemma_caged_dressed(t0, tiles@, k0);
            if captives@.len() > k0.len() {
                let k = k0.len() as int;
                assert(tiles@[cell(x as int, y as int)].decor == Some(Decor::Cage));
                assert(cage_at(tiles@, captives@[k]));
                assert forall|j: int| 0 <= j < captives@.len() implies cage_at(tiles@, #[trigger] captives@[j]) by {
                    if j < k {
                        assert(captives@[j] == k0[j]);
                    }
                }
            } else {
                assert(captives@ == k0);
            }
        }
    }
}

/// `t` with decor `d` on interior tile (x, y) if that tile is open and empty.
pub open spec fn prop_placed(t: Seq<Tile>, x: int, y: int, d: Decor) -> Seq<Tile> {
    if in_interior(x, y) && t[cell(x, y)].wall == 0 && t[cell(x, y)].decor is None {
        t.update(cell(x, y), Tile { decor: Some(d), ..t[cell(x, y)] })
    } else {
        t
    }
}

/// Puts decor `d` on interior tile (x, y) when it is open and empty.
fn prop_at(tiles: &mut Vec<Tile>, x: i32, y: i32, d: Decor)
    requires
        old(tiles)@.len() == GRID_LEN,
    ensures
        final(tiles)@.len() == GRID_LEN,
        dressed(old(tiles)@, final(tiles)@),
        final(tiles)@ == prop_placed(old(tiles)@, x as int, y as int, d),
        same_but_decor(old(tiles)@, final(tiles)@),
{
    if x <= 0 || y <= 0 || x >= 75 || y >= 75 {
        return;
    }
    let i = (y * 76 + x) as usize;
    if tiles[i].wall == 0 && tiles[i].decor.is_none() {
        let mut t = tiles[i];
        t.decor = Some(d);
        tiles.set(i, t);
    }
}

/// (x, y) is an interior water tile of `a`.
pub open spec fn water_at(a: Seq<Tile>, x: int, y: int) -> bool {
    in_interior(x, y) && a[cell(x, y)].ground == Block::Water
}

/// (x, y) is an open interior plank tile of `a` beside interior water.
pub open spec fn plank_by_water(a: Seq<Tile>, x: int, y: int) -> bool {
    &&& in_interior(x, y)
    &&& a[cell(x, y)].wall == 0
    &&& a[cell(x, y)].ground == Block::Planks
    &&& water_at(a, x - 1, y) || water_at(a, x + 1, y) || water_at(a, x, y - 1) || water_at(a, x, y + 1)
}

/// (x, y) lies beside a plank tile that touches water.
pub open spec fn fence_spot(a: Seq<Tile>, x: int, y: int) -> bool {
    plank_by_water(a, x - 1, y) || plank_by_water(a, x + 1, y) || plank_by_water(a, x, y - 1) || plank_by_water(a, x, y + 1)
}

/// Indices of the tiles that differ between `a` and `b`.
pub open spec fn changed_cells(a: Seq<Tile>, b: Seq<Tile>) -> Set<int> {
    Set::new(|j: int| 0 <= j < GRID_LEN && b[j] != a[j])
}

/// `b` is `a` with fence rails on some open empty interior water tiles
/// beside a plank tile that touches water, and nothing else changed.
#[verifier::opaque]
pub open spec fn fenced(a: Seq<Tile>, b: Seq<Tile>) -> bool {
    forall|x: int, y: int|
        in_grid(x, y) ==> {
            &&& gained(a[cell(x, y)], #[trigger] b[cell(x, y)], Decor::Fence)
            &&& b[cell(x, y)] != a[cell(x, y)] ==> water_at(a, x, y) && fence_spot(a, x, y)
        }
}

/// Fence rails: on the open water tiles beside a plank tile that touches
/// water, with probability 0.6 each, at most 46 in all.
fn fences(tiles: &mut Vec<Tile>, rng: &mut rand::rngs::StdRng)
    requires
        old(tiles)@.len() == GRID_LEN,
    ensures
        final(tiles)@.len() == GRID_LEN,
        dressed(old(tiles)@, final(tiles)@),
        fenced(old(tiles)@, final(tiles)@),
        same_but_decor(old(tiles)@, final(tiles)@),
        changed_cells(old(tiles)@, final(tiles)@).finite(),
        changed_cells(old(tiles)@, final(tiles)@).len() <= 46,
{
    proof {
        reveal(fenced);
        assert forall|x: int, y: int| in_grid(x, y) implies #[trigger] tiles@[cell(x, y)] == old(tiles)@[cell(x, y)] by {}
    }
    let mut count: u32 = 0;
    proof {
        assert(changed_cells(old(tiles)@, tiles@) =~= Set::<int>::empty());
    }
    let mut y: i32 = 1;
    while y < 75
        invariant
            tiles@.len() == GRID_LEN,
            dressed(old(tiles)@, tiles@),
            fenced(old(tiles)@, tiles@),
            old(tiles)@.len() == GRID_LEN,
            forall|j: int| 0 <= j < GRID_LEN ==> (#[trigger] tiles@[j]).ground == old(tiles)@[j].ground && tiles@[j].wall == old(tiles)@[j].wall,
            same_but_decor(old(tiles)@, tiles@),
            1 <= y <= 75,
            count <= 46,
            changed_cells(old(tiles)@, tiles@).finite(),
            changed_cells(old(tiles)@, tiles@).len() == count,
        decreases 75 - y,
    {
        let mut x: i32 = 1;
        while x < 75
            invariant
                tiles@.len() == GRID_LEN,
                dressed(old(tiles)@, tiles@),
                fenced(old(tiles)@, tiles@),
                old(tiles)@.len() == GRID_LEN,
                forall|j: int| 0 <= j < GRID_LEN ==> (#[trigger] tiles@[j]).ground == old(tiles)@[j].ground && tiles@[j].wall == old(tiles)@[j].wall,
                same_but_decor(old(tiles)@, tiles@),
                1 <= x <= 75,
                1 <= y < 75,
                count <= 46,
                changed_cells(old(tiles)@, tiles@).finite(),
                changed_cells(old(tiles)@, tiles@).len() == count,
            decreases 75 - x,
        {
            let i = (y * 76 + x) as usize;
            if tiles[i].wall == 0 && tiles[i].ground == Block::Planks {
                let mut nb_water = false;
                let mut c: u32 = 0;
                while c < 4
                    invariant
                        0 <= c <= 4,
                        1 <= x < 75,
                        1 <= y < 75,
                        tiles@.len() == GRID_LEN,
                        dressed(old(tiles)@, tiles@),
                        fenced(old(tiles)@, tiles@),
                        old(tiles)@.len() == GRID_LEN,
                        forall|j: int| 0 <= j < GRID_LEN ==> (#[trigger] tiles@[j]).ground == old(tiles)@[j].ground && tiles@[j].wall == old(tiles)@[j].wall,
                        same_but_decor(old(tiles)@, tiles@),
                        nb_water == ((c > 0 && water_at(old(tiles)@, x - 1, y as int))
                            || (c > 1 && water_at(old(tiles)@, x + 1, y as int))
                            || (c > 2 && water_at(old(tiles)@, x as int, y - 1))
                            || (c > 3 && water_at(old(tiles)@, x as int, y + 1))),
                    decreases 4 - c,
                {
                    let (dx, dy): (i32, i32) = if c == 0 { (-1, 0) } else if c == 1 { (1, 0) } else if c == 2 { (0, -1) } else { (0, 1) };
                    let xx = x + dx;
                    let yy = y + dy;
                    if xx > 0 && yy > 0 && xx < 75 && yy < 75 && tiles[(yy * 76 + xx) as usize].ground == Block::Water {
                        nb_water = true;
                    }
                    c += 1;
                }
                if nb_water {
                    assert(plank_by_water(old(tiles)@, x as int, y as int));
                    let mut c: u32 = 0;
                    while c < 4
                        invariant
                            0 <= c <= 4,
                            1 <= x < 75,
                            1 <= y < 75,
                            tiles@.len() == GRID_LEN,
                            dressed(old(tiles)@, tiles@),
                            fenced(old(tiles)@, tiles@),
                            old(tiles)@.len() == GRID_LEN,
                            forall|j: int| 0 <= j < GRID_LEN ==> (#[trigger] tiles@[j]).ground == old(tiles)@[j].ground && tiles@[j].wall == old(tiles)@[j].wall,
                            same_but_decor(old(tiles)@, tiles@),
                            plank_by_water(old(tiles)@, x as int, y as int),
                            count <= 46,
                            changed_cells(old(tiles)@, tiles@).finite(),
                            changed_cells(old(tiles)@, tiles@).len() == count,
                        decreases 4 - c,
                    {
                        proof {
                            reveal(fenced);
                        }
                        let (dx, dy): (i32, i32) = if c == 0 { (-1, 0) } else if c == 1 { (1, 0) } else if c == 2 { (0, -1) } else { (0, 1) };
                        let xx = x + dx;
                        let yy = y + dy;
                        if !(xx <= 0 || yy <= 0 || xx >= 75 || yy >= 75) {
                            let j = (yy * 76 + xx) as usize;
                            assert(j as int == cell(xx as int, yy as int));
                            if tiles[j].ground == Block::Water && tiles[j].wall == 0 && tiles[j].decor.is_none() && count < 46
                                && seeded_ratio(rng, 3, 5) {
                                let ghost before = tiles@;
                                assert(gained(old(tiles)@[cell(xx as int, yy as int)], tiles@[cell(xx as int, yy as int)], Decor::Fence));
                                assert(before[j as int] == old(tiles)@[j as int]);
                                assert(fence_spot(old(tiles)@, xx as int, yy as int));
                                let mut t = tiles[j];
                                t.decor = Some(Decor::Fence);
                                tiles.set(j, t);
                                count += 1;
                                assert(changed_cells(old(tiles)@, tiles@) =~= changed_cells(old(tiles)@, before).insert(j as int));
                                assert forall|x2: int, y2: int| in_grid(x2, y2) implies {
                                    &&& gained(old(tiles)@[cell(x2, y2)], #[trigger] tiles@[cell(x2, y2)], Decor::Fence)
                                    &&& tiles@[cell(x2, y2)] != old(tiles)@[cell(x2, y2)] ==> water_at(old(tiles)@, x2, y2) && fence_spot(old(tiles)@, x2, y2)
                                } by {
                                    if x2 != xx || y2 != yy {
                                        assert(cell(x2, y2) != cell(xx as int, yy as int));
                                        assert(tiles@[cell(x2, y2)] == before[cell(x2, y2)]);
                                    }
                                }
                            }
                        }
                        c += 1;
                    }
                }
            }
            x += 1;
        }
        y += 1;
    }
}

/// Decor that room clutter puts down.
pub open spec fn clutter_kind(d: Decor) -> bool {
    d is Barrel || d is Crate || d is Lantern || d is Ruin
}

/// (x, y) lies within 3 tiles of waypoint p in both directions.
pub open spec fn near3(p: (i32, i32), x: int, y: int) -> bool {
    p.0 - 3 <= x <= p.0 + 3 && p.1 - 3 <= y <= p.1 + 3
}

/// `b` is `a` with clutter on some open empty interior tiles within 3 of a
/// waypoint other than the first, and nothing else changed.
#[verifier::opaque]
pub open spec fn cluttered(a: Seq<Tile>, b: Seq<Tile>, pts: Seq<(i32, i32)>) -> bool {
    forall|x: int, y: int|
        in_grid(x, y) ==> {
            let o = a[cell(x, y)];
            let t = #[trigger] b[cell(x, y)];
            ||| t == o
            ||| {
                &&& in_interior(x, y)
                &&& o.wall == 0
                &&& o.decor is None
                &&& t == Tile { decor: t.decor, ..o }
                &&& t.decor matches Some(d) && clutter_kind(d)
                &&& exists|k: int| 1 <= k < pts.len() && #[trigger] near3(pts[k], x, y)
            }
        }
}

proof fn lemma_clutter_step(a: Seq<Tile>, t: Seq<Tile>, pts: Seq<(i32, i32)>, x: int, y: int, d: Decor, k: int)
    requires
        a.len() == GRID_LEN,
        t.len() == GRID_LEN,
        cluttered(a, t, pts),
        clutter_kind(d),
        1 <= k < pts.len(),
        near3(pts[k], x, y),
    ensures
        cluttered(a, prop_placed(t, x, y, d), pts),
{
    reveal(cluttered);
    let n = prop_placed(t, x, y, d);
    assert forall|xx: int, yy: int| in_grid(xx, yy) implies {
        let o = a[cell(xx, yy)];
        let u = #[trigger] n[cell(xx, yy)];
        ||| u == o
        ||| {
            &&& in_interior(xx, yy)
            &&& o.wall == 0
            &&& o.decor is None
            &&& u == Tile { decor: u.decor, ..o }
            &&& u.decor matches Some(d) && clutter_kind(d)
            &&& exists|k: int| 1 <= k < pts.len() && #[trigger] near3(pts[k], xx, yy)
        }
    } by {
        assert(t[cell(xx, yy)] == t[cell(xx, yy)]);
        if xx == x && yy == y {
            assert(near3(pts[k], xx, yy));
        } else {
            if in_interior(x, y) {
                assert(cell(xx, yy) != cell(x, y));
            }
        }
    }
}

/// Room clutter around every waypoint but the first: barrels or crates
/// (1..3, with probability 1/2), a lantern (0.4), a broken wall (0.3).
fn clutter(tiles: &mut Vec<Tile>, rng: &mut rand::rngs::StdRng, pts: &Vec<(i32, i32)>)
    requires
        old(tiles)@.len() == GRID_LEN,
        forall|i: int| 0 <= i < pts@.len() ==> on_band(#[trigger] pts@[i]),
    ensures
        final(tiles)@.len() == GRID_LEN,
        dressed(old(tiles)@, final(tiles)@),
        cluttered(old(tiles)@, final(tiles)@, pts@),
        same_but_decor(old(tiles)@, final(tiles)@),
{
    proof {
        reveal(cluttered);
        assert forall|x: int, y: int| in_grid(x, y) implies #[trigger] tiles@[cell(x, y)] == old(tiles)@[cell(x, y)] by {}
    }
    let mut k: usize = 1;
    while k < pts.len()
        invariant
            tiles@.len() == GRID_LEN,
            old(tiles)@.len() == GRID_LEN,
            dressed(old(tiles)@, tiles@),
            same_but_decor(old(tiles)@, tiles@),
            cluttered(old(tiles)@, tiles@, pts@),
            1 <= k <= pts@.len() || pts@.len() == 0,
            forall|i: int| 0 <= i < pts@.len() ==> on_band(#[trigger] pts@[i]),
        decreases pts@.len() - k,
    {
        let pp = pts[k];
        if seeded_ratio(rng, 1, 2) {
            let n = range_i32_inclusive(rng, 1, 3);
            let mut c: i32 = 0;
            while c < n
                invariant
                    tiles@.len() == GRID_LEN,
                    old(tiles)@.len() == GRID_LEN,
                    dressed(old(tiles)@, tiles@),
                    same_but_decor(old(tiles)@, tiles@),
                    cluttered(old(tiles)@, tiles@, pts@),
                    0 <= c <= n,
                    1 <= k < pts@.len(),
                    pp == pts@[k as int],
                    on_band(pp),
                decreases n - c,
            {
                let x = pp.0 + range_i32_inclusive(rng, -3, 3);
                let y = pp.1 + range_i32_inclusive(rng, -3, 3);
                let d = if seeded_ratio(rng, 1, 2) { Decor::Barrel } else { Decor::Crate };
                let ghost before = tiles@;
                prop_at(tiles, x, y, d);
                proof {
                    lemma_clutter_step(old(tiles)@, before, pts@, x as int, y as int, d, k as int);
                }
                c += 1;
            }
        }
        if seeded_ratio(rng, 2, 5) {
            let x = pp.0 + range_i32_inclusive(rng, -2, 2);
            let y = pp.1 + range_i32_inclusive(rng, -2, 2);
            let ghost before = tiles@;
            prop_at(tiles, x, y, Decor::Lantern);
            proof {
                lemma_clutter_step(old(tiles)@, before, pts@, x as int, y as int, Decor::Lantern, k as int);
            }
        }
        if seeded_ratio(rng, 3, 10) {
            let x = pp.0 + range_i32_inclusive(rng, -3, 3);
            let y = pp.1 + range_i32_inclusive(rng, -3, 3);
            let ghost before = tiles@;
            prop_at(tiles, x, y, Decor::Ruin);
            proof {
                lemma_clutter_step(old(tiles)@, before, pts@, x as int, y as int, Decor::Ruin, k as int);
            }
        }
        k += 1;
    }
}

/// Offsets of the 8 arena pillars: 7.5·cos and 7.5·sin at multiples of 45°,
/// rounded to the nearest integer as the `f32` computation of the level
/// design gives them.
pub open spec fn pillar_ring(k: int) -> (i32, i32) {
    if k == 0 { (8i32, 0i32) }
    else if k == 1 { (5i32, 5i32) }
    else if k == 2 { (0i32, 8i32) }
    else if k == 3 { (-5i32, 5i32) }
    else if k == 4 { (-8i32, 0i32) }
    else if k == 5 { (-5i32, -5i32) }
    else if k == 6 { (0i32, -8i32) }
    else { (5i32, -5i32) }
}

fn pillar_offset(k: u32) -> (r: (i32, i32))
    requires
        k < 8,
    ensures
        r == pillar_ring(k as int),
{
    if k == 0 { (8, 0) }
    else if k == 1 { (5, 5) }
    else if k == 2 { (0, 8) }
    else if k == 3 { (-5, 5) }
    else if k == 4 { (-8, 0) }
    else if k == 5 { (-5, -5) }
    else if k == 6 { (0, -8) }
    else { (5, -5) }
}

/// `b` is `a` with at most the decor changed, tile for tile.
pub open spec fn same_but_decor(a: Seq<Tile>, b: Seq<Tile>) -> bool {
    &&& b.len() == a.len()
    &&& forall|j: int| 0 <= j < a.len() ==> (#[trigger] b[j]) == Tile { decor: b[j].decor, ..a[j] }
}

/// Setting one tile's decor changes nothing else.
proof fn lemma_set_decor_same(a: Seq<Tile>, i: int, d: Option<Decor>)
    requires
        0 <= i < a.len(),
    ensures
        same_but_decor(a, a.update(i, Tile { decor: d, ..a[i] })),
{
}

/// Decor-only changes compose.
proof fn lemma_same_but_decor_trans(a: Seq<Tile>, b: Seq<Tile>, c: Seq<Tile>)
    requires
        same_but_decor(a, b),
        same_but_decor(b, c),
    ensures
        same_but_decor(a, c),
{
    assert forall|j: int| 0 <= j < a.len() implies (#[trigger] c[j]) == Tile { decor: c[j].decor, ..a[j] } by {
        assert(b[j] == Tile { decor: b[j].decor, ..a[j] });
        assert(c[j] == Tile { decor: c[j].decor, ..b[j] });
    }
}

/// No wall is higher than 2 blocks.
pub open spec fn low_walls(t: Seq<Tile>) -> bool {
    forall|j: int| 0 <= j < t.len() ==> (#[trigger] t[j]).wall <= 2
}

/// Every tile of a level of `biome` has one of the biome's palette
/// grounds, one of its two path blocks or planks (bridges), and the
/// biome's wall block.
pub open spec fn biome_level_tiles(t: Seq<Tile>, biome: Biome) -> bool {
    forall|j: int|
        0 <= j < t.len() ==> {
            let g = (#[trigger] t[j]).ground;
            &&& (exists|k: int| 0 <= k < palette_grounds(biome).len() && g == (#[trigger] palette_grounds(biome)[k]).0)
                || path_blocks_of(biome).contains(g) || g == Block::Planks
            &&& t[j].wall_block == palette_wall(biome)
        }
}

/// Changing decor keeps the tiles of a biome.
proof fn lemma_biome_level_tiles(a: Seq<Tile>, b: Seq<Tile>, pal: &Palette, biome: Biome)
    requires
        biome_tiles(a, pal, biome),
        same_but_decor(a, b),
        pal.grounds@ == palette_grounds(biome),
        pal.wall == palette_wall(biome),
    ensures
        biome_level_tiles(b, biome),
{
    reveal(biome_tiles);
    assert forall|j: int| 0 <= j < b.len() implies {
        let g = (#[trigger] b[j]).ground;
        &&& (exists|k: int| 0 <= k < palette_grounds(biome).len() && g == (#[trigger] palette_grounds(biome)[k]).0)
            || path_blocks_of(biome).contains(g) || g == Block::Planks
        &&& b[j].wall_block == palette_wall(biome)
    } by {
        assert(b[j] == Tile { decor: b[j].decor, ..a[j] });
        if palette_ground(pal, a[j].ground) {
            let k = choose|k: int| 0 <= k < pal.grounds@.len() && a[j].ground == (#[trigger] pal.grounds@[k]).0;
            assert(palette_grounds(biome)[k] == pal.grounds@[k]);
        }
    }
}

/// The exit portal of an arena centred on column `ax` (in half tiles).
pub open spec fn arena_portal(ax: i32) -> Option<((i32, i32), bool)> {
    Some((((2 * ax + 1) as i32, 12i32), false))
}

/// Size of a waypoint group: 4 + min(threat / 5, 5), plus 0..2 more.
pub open spec fn group_count_ok(count: u32, threat: u32) -> bool {
    let base = 4 + if threat / 5 < 5 { threat / 5 } else { 5 };
    base <= count <= base + 2
}

/// Carves the rooms and corridors of a level: the grid filled solid with
/// one palette ground, the main path, the side pockets and, where the
/// level holds a rune, the secret room and its lever. Returns the tiles,
/// the corridor cells, the waypoints, the side rooms, the secret corridor,
/// the lever (in half tiles) and the open walk of the main path.
#[verifier::spinoff_prover]
fn carve_level(rng: &mut rand::rngs::StdRng, pal: &Palette, has_rune: bool) -> (r: (
    Vec<Tile>,
    Vec<(i32, i32)>,
    Vec<(i32, i32)>,
    Vec<(i32, i32)>,
    Vec<usize>,
    Option<(i32, i32)>,
    Ghost<Seq<(int, int)>>,
))
    requires
        pal.well_formed(),
    ensures
        r.0@.len() == GRID_LEN,
        border_walled(r.0@),
        palette_tiles(r.0@, pal),
        2 <= r.2@.len() <= 60,
        r.2@[0] == (38i32, 68i32),
        r.2@.last().1 == 10,
        forall|i: int| 0 <= i < r.2@.len() ==> on_band(#[trigger] r.2@[i]),
        forall|i: int| 0 <= i < r.3@.len() ==> 5 <= (#[trigger] r.3@[i]).0 <= 70 && 5 <= r.3@[i].1 <= 70,
        main_walk(r.0@, r.6@, r.2@),
        r.4@.len() == if has_rune { 10int } else { 0int },
        forall|q: int| 0 <= q < r.4@.len() ==> #[trigger] r.4@[q] < GRID_LEN,
        has_rune == r.5 is Some,
        has_rune ==> exists|ri: int| 760 <= ri < GRID_LEN && (#[trigger] r.0@[ri]).decor == Some(Decor::Rune { taken: false }),
{
    // fill solid, with one ground drawn for the whole grid
    let g = pick_ground(rng, &pal);
    let mut tiles: Vec<Tile> = Vec::new();
    let mut i: usize = 0;
    while i < GRID_LEN
        invariant
            0 <= i <= GRID_LEN,
            tiles@.len() == i,
            forall|j: int| 0 <= j < i ==> (#[trigger] tiles@[j]).wall == 2,
            forall|j: int| 0 <= j < i ==> palette_ground(pal, (#[trigger] tiles@[j]).ground) && tiles@[j].wall_block == pal.wall,
            palette_ground(pal, g),
        decreases GRID_LEN - i,
    {
        tiles.push(Tile { ground: g, wall: 2, wall_block: pal.wall, decor: None });
        i += 1;
    }
    assert(palette_tiles(tiles@, pal)) by {
        reveal(palette_tiles);
    }
    assert(border_walled(tiles@)) by {
        assert forall|x: int, y: int| in_grid(x, y) && !in_interior(x, y) implies #[trigger] tiles@[cell(x, y)].wall > 0 by {
            assert(0 <= cell(x, y) < GRID_LEN);
        }
    }

    let mut corridor: Vec<(i32, i32)> = Vec::new();
    let (pts, Ghost(walk)) = main_path(&mut tiles, rng, &pal, &mut corridor);
    let arena = pts[pts.len() - 1];
    let ghost after_main = tiles@;
    let rooms = side_pockets(&mut tiles, rng, &pal, &pts);
    proof {
        lemma_main_walk_kept(after_main, tiles@, walk, pts@);
    }

    // secret room (hidden behind the lever)
    let mut secret_tiles: Vec<usize> = Vec::new();
    let mut lever: Option<(i32, i32)> = None;
    let ghost mut rune_at: int = 0;
    if has_rune {
        let ghost before = tiles@;
        let (s, lp) = secret_room(&mut tiles, rng, &pal, &pts, &rooms);
        proof {
            lemma_main_walk_kept(before, tiles@, walk, pts@);
            rune_at = choose|ri: int| 760 <= ri < GRID_LEN && (#[trigger] tiles@[ri]).decor == Some(Decor::Rune { taken: false });
        }
        secret_tiles = s;
        lever = Some((2 * lp.0 + 1, 2 * lp.1 + 1));
    }
    assert(has_rune ==> 760 <= rune_at < GRID_LEN && tiles@[rune_at].decor == Some(Decor::Rune { taken: false }));
    (tiles, corridor, pts, rooms, secret_tiles, lever, Ghost(walk))
}

/// The dressing steps keep every ground a palette ground, a path block or
/// planks, and every wall block the palette's.
proof fn lemma_dress_biome(
    t0: Seq<Tile>,
    t1: Seq<Tile>,
    t2: Seq<Tile>,
    t3: Seq<Tile>,
    t4: Seq<Tile>,
    t5: Seq<Tile>,
    t6: Seq<Tile>,
    pal: &Palette,
    biome: Biome,
    pts: Seq<(i32, i32)>,
    corridor: Seq<(i32, i32)>,
)
    requires
        t0.len() == GRID_LEN,
        t1.len() == GRID_LEN,
        t2.len() == GRID_LEN,
        t3.len() == GRID_LEN,
        t4.len() == GRID_LEN,
        t5.len() == GRID_LEN,
        t6.len() == GRID_LEN,
        palette_tiles(t0, pal),
        scattered(t0, t1, pal, biome, pts),
        torched(t1, t2, pts),
        patched(t2, t3, pal),
        bridged(t3, t4, corridor),
        shouldered(t4, t5, biome),
        heights_set(t5, t6),
    ensures
        biome_tiles(t6, pal, biome),
{
    reveal(palette_tiles);
    reveal(biome_tiles);
    reveal(scattered);
    reveal(torched);
    reveal(patched);
    reveal(bridged);
    reveal(shouldered);
    reveal(heights_set);
    assert forall|j: int| 0 <= j < t6.len() implies {
        let g = (#[trigger] t6[j]).ground;
        &&& palette_ground(pal, g) || path_blocks_of(biome).contains(g) || g == Block::Planks
        &&& t6[j].wall_block == pal.wall
    } by {
        let x = j % 76;
        let y = j / 76;
        assert(in_grid(x, y) && cell(x, y) == j);
        assert(palette_ground(pal, t0[j].ground) && t0[j].wall_block == pal.wall);
        assert(t1[j].ground == t0[j].ground && t1[j].wall_block == t0[j].wall_block);
        assert(gained(t1[cell(x, y)], t2[cell(x, y)], Decor::Torch));
        assert(repatched(t2, pal, x, y, t3[cell(x, y)]));
        assert(t4[cell(x, y)] == bridged_tile(t3, corridor, x, y));
        assert(trampled(t4, biome, x, y, t5[cell(x, y)]));
    }
}

/// Dresses a carved level: decor, torches, ground patches, plank bridges,
/// trampled shoulders and wall heights.
fn dress_level(
    tiles: &mut Vec<Tile>,
    rng: &mut rand::rngs::StdRng,
    pal: &Palette,
    biome: Biome,
    pts: &Vec<(i32, i32)>,
    corridor: &Vec<(i32, i32)>,
)
    requires
        old(tiles)@.len() == GRID_LEN,
        pal.well_formed(),
        palette_tiles(old(tiles)@, pal),
        forall|i: int| 0 <= i < pts@.len() ==> on_band(#[trigger] pts@[i]),
    ensures
        final(tiles)@.len() == GRID_LEN,
        dressed(old(tiles)@, final(tiles)@),
        low_walls(final(tiles)@),
        biome_tiles(final(tiles)@, pal, biome),
{
    let ghost t0 = tiles@;
    scatter_decor(tiles, rng, &pal, biome, &pts);
    let ghost t1 = tiles@;
    torches(tiles, rng, &pts);
    let ghost t2 = tiles@;
    ground_patches(tiles, rng, &pal);
    let ghost t3 = tiles@;
    bridges(tiles, &corridor);
    let ghost t4 = tiles@;
    shoulders(tiles, rng, biome);
    let ghost before_heights = tiles@;
    wall_heights(tiles, rng);
    proof {
        lemma_heights_low(before_heights, tiles@);
        lemma_dress_biome(t0, t1, t2, t3, t4, before_heights, tiles@, pal, biome, pts@, corridor@);
    }
    assert(dressed(old(tiles)@, tiles@));
}

/// Chests, emerald piles, captives, the fountain, camps, fence rails, room
/// clutter, arena pillars and braziers. Returns the chests and the captives
/// (in half tiles).
fn place_props(
    tiles: &mut Vec<Tile>,
    rng: &mut rand::rngs::StdRng,
    pts: &Vec<(i32, i32)>,
    rooms: &Vec<(i32, i32)>,
) -> (r: (Vec<(i32, i32)>, Vec<(i32, i32)>))
    requires
        old(tiles)@.len() == GRID_LEN,
        2 <= pts@.len() <= 60,
        forall|i: int| 0 <= i < pts@.len() ==> on_band(#[trigger] pts@[i]),
        forall|i: int| 0 <= i < rooms@.len() ==> 5 <= (#[trigger] rooms@[i]).0 <= 70 && 5 <= rooms@[i].1 <= 70,
    ensures
        final(tiles)@.len() == GRID_LEN,
        dressed(old(tiles)@, final(tiles)@),
        same_but_decor(old(tiles)@, final(tiles)@),
        r.1@.len() <= 3,
        closed_chests(final(tiles)@, r.0@),
        caged(final(tiles)@, r.1@),
{
    let ghost portal_set = tiles@;
    let start = pts[0];
    let arena = pts[pts.len() - 1];
    // chests, emerald piles, captives, fountain, camps
    let mut chests: Vec<(i32, i32)> = Vec::new();
    let mut captives: Vec<(i32, i32)> = Vec::new();
    assert(closed_chests(tiles@, chests@));
    assert(caged(tiles@, captives@));
    let mut k: usize = 0;
    while k < rooms.len()
        invariant
            tiles@.len() == GRID_LEN,
            dressed(portal_set, tiles@),
            same_but_decor(portal_set, tiles@),
            closed_chests(tiles@, chests@),
            caged(tiles@, captives@),
            0 <= k <= rooms@.len(),
            forall|i: int| 0 <= i < rooms@.len() ==> 5 <= (#[trigger] rooms@[i]).0 <= 70 && 5 <= rooms@[i].1 <= 70,
            captives@.len() == 0,
        decreases rooms@.len() - k,
    {
        let (sx, sy) = rooms[k];
        place(tiles, sx + 1, sy, Decor::Chest { opened: false }, &mut chests, &mut captives);
        if seeded_ratio(rng, 1, 2) {
            place(tiles, sx - 1, sy + 1, Decor::EmeraldPile, &mut chests, &mut captives);
        }
        k += 1;
    }
    let mut k: usize = 1;
    while k < pts.len()
        invariant
            tiles@.len() == GRID_LEN,
            dressed(portal_set, tiles@),
            same_but_decor(portal_set, tiles@),
            closed_chests(tiles@, chests@),
            caged(tiles@, captives@),
            1 <= k <= pts@.len() + 1,
            pts@.len() <= 60,
            forall|i: int| 0 <= i < pts@.len() ==> on_band(#[trigger] pts@[i]),
            captives@.len() == 0,
        decreases pts@.len() + 2 - k,
    {
        let pp = pts[k];
        let dx = range_i32_inclusive(rng, -2, 2);
        let dy = range_i32_inclusive(rng, -2, 2);
        place(tiles, pp.0 + dx, pp.1 + dy, Decor::Chest { opened: false }, &mut chests, &mut captives);
        k += 2;
    }
    let n_captives = 2 + range_i32(rng, 0, 2);
    let mut c: i32 = 0;
    while c < n_captives
        invariant
            tiles@.len() == GRID_LEN,
            dressed(portal_set, tiles@),
            same_but_decor(portal_set, tiles@),
            closed_chests(tiles@, chests@),
            caged(tiles@, captives@),
            0 <= c <= n_captives <= 3,
            pts@.len() >= 2,
            forall|i: int| 0 <= i < pts@.len() ==> on_band(#[trigger] pts@[i]),
            captives@.len() <= c,
        decreases n_captives - c,
    {
        let pp = pts[range_usize(rng, 1, pts.len())];
        let x0 = pp.0 + range_i32_inclusive(rng, -3, 3);
        let x = if x0 < 2 { 2 } else if x0 > 73 { 73 } else { x0 };
        let y0 = pp.1 + range_i32_inclusive(rng, -3, 3);
        let y = if y0 < 2 { 2 } else if y0 > 73 { 73 } else { y0 };
        place(tiles, x, y, Decor::Cage, &mut chests, &mut captives);
        place(tiles, x, y + 1, Decor::EmeraldPile, &mut chests, &mut captives);
        c += 1;
    }
    let mid = pts[pts.len() / 2];
    place(tiles, mid.0 + 2, mid.1, Decor::Fountain { used: false }, &mut chests, &mut captives);
    place(tiles, start.0 + 2, start.1 - 2, Decor::Campfire, &mut chests, &mut captives);
    let mut b: u32 = 0;
    while b < 2
        invariant
            tiles@.len() == GRID_LEN,
            dressed(portal_set, tiles@),
            same_but_decor(portal_set, tiles@),
            closed_chests(tiles@, chests@),
            caged(tiles@, captives@),
            0 <= b <= 2,
            on_band(arena),
        decreases 2 - b,
    {
        let x = arena.0 + if b == 0 { -4i32 } else { 4i32 };
        let y = arena.1 + 2;
        if open_at(&tiles, x, y) {
            let i = (y * 76 + x) as usize;
            if tiles[i].decor.is_none() {
                let ghost before = tiles@;
                let mut t = tiles[i];
                t.decor = Some(Decor::Banner);
                tiles.set(i, t);
                proof {
                    assert(dressed(before, tiles@));
                    lemma_closed_chests_dressed(before, tiles@, chests@);
                    lemma_caged_dressed(before, tiles@, captives@);
                }
            }
        }
        b += 1;
    }
    place(tiles, arena.0 - 7, arena.1 - 3, Decor::Tent, &mut chests, &mut captives);
    place(tiles, arena.0 - 9, arena.1 - 1, Decor::Campfire, &mut chests, &mut captives);
    place(tiles, arena.0 + 7, arena.1 - 4, Decor::Tent, &mut chests, &mut captives);
    let mut k: usize = 6;
    while k < pts.len()
        invariant
            tiles@.len() == GRID_LEN,
            dressed(portal_set, tiles@),
            same_but_decor(portal_set, tiles@),
            closed_chests(tiles@, chests@),
            caged(tiles@, captives@),
            6 <= k <= pts@.len() + 6,
            pts@.len() <= 60,
            forall|i: int| 0 <= i < pts@.len() ==> on_band(#[trigger] pts@[i]),
        decreases pts@.len() + 6 - k,
    {
        let pp = pts[k];
        let x = pp.0 + 2;
        let y = pp.1 - 2;
        if open_at(&tiles, x, y) {
            let i = (y * 76 + x) as usize;
            if tiles[i].decor.is_none() {
                let ghost before = tiles@;
                let mut t = tiles[i];
                t.decor = Some(Decor::Campfire);
                tiles.set(i, t);
                proof {
                    assert(dressed(before, tiles@));
                    lemma_closed_chests_dressed(before, tiles@, chests@);
                    lemma_caged_dressed(before, tiles@, captives@);
                }
            }
        }
        k += 6;
    }

    // props: bridge rails, room clutter, arena pillars and braziers
    let ghost before_props = tiles@;
    fences(tiles, rng);
    proof {
        lemma_closed_chests_dressed(before_props, tiles@, chests@);
        lemma_caged_dressed(before_props, tiles@, captives@);
    }
    let ghost before_clutter = tiles@;
    clutter(tiles, rng, &pts);
    proof {
        lemma_closed_chests_dressed(before_clutter, tiles@, chests@);
        lemma_caged_dressed(before_clutter, tiles@, captives@);
    }
    let mut k: u32 = 0;
    while k < 8
        invariant
            tiles@.len() == GRID_LEN,
            dressed(portal_set, tiles@),
            same_but_decor(portal_set, tiles@),
            closed_chests(tiles@, chests@),
            caged(tiles@, captives@),
            0 <= k <= 8,
            on_band(arena),
        decreases 8 - k,
    {
        let (ox, oy) = pillar_offset(k);
        let ghost before = tiles@;
        prop_at(tiles, arena.0 + ox, arena.1 + oy, Decor::Pillar);
        proof {
            lemma_closed_chests_dressed(before, tiles@, chests@);
                    lemma_caged_dressed(before, tiles@, captives@);
        }
        k += 1;
    }
    let ghost b1 = tiles@;
    prop_at(tiles, arena.0 - 3, arena.1 + 6, Decor::Brazier);
    let ghost b2 = tiles@;
    prop_at(tiles, arena.0 + 3, arena.1 + 6, Decor::Brazier);
    proof {
        lemma_closed_chests_dressed(b1, b2, chests@);
        lemma_closed_chests_dressed(b2, tiles@, chests@);
        lemma_caged_dressed(b1, b2, captives@);
        lemma_caged_dressed(b2, tiles@, captives@);
    }
    (chests, captives)
}

/// Enemy trigger groups: one on most waypoints from the third on (4 +
/// min(threat / 5, 5) enemies, plus 0..2), and, without a boss, a last one
/// of 8 + threat / 3 at the arena.
fn spawn_groups(rng: &mut rand::rngs::StdRng, mission: &MissionDef, biome: Biome, pts: &Vec<(i32, i32)>, arena: (i32, i32)) -> (groups: Vec<SpawnGroup>)
    requires
        forall|i: int| 0 <= i < pts@.len() ==> on_band(#[trigger] pts@[i]),
        on_band(arena),
        biome == mission.biome,
    ensures
        forall|g: int| 0 <= g < groups@.len() ==> {
            let grp = #[trigger] groups@[g];
            &&& grp.radius == 16
            &&& grp.kinds@.len() == grp.count
            &&& !grp.activated
            &&& forall|q: int| 0 <= q < grp.kinds@.len() ==> biome_enemy_name(mission.biome, (#[trigger] grp.kinds@[q])@)
        },
        mission.boss is Some ==> forall|g: int| 0 <= g < groups@.len() ==> group_count_ok(#[trigger] groups@[g].count, mission.threat),
        mission.boss is None ==> {
            &&& groups@.len() >= 1
            &&& groups@.last().count == 8 + mission.threat / 3
            &&& forall|g: int| 0 <= g < groups@.len() - 1 ==> group_count_ok(#[trigger] groups@[g].count, mission.threat)
        },
{
    // enemy trigger groups along the path, and at the arena without a boss
    let mut groups: Vec<SpawnGroup> = Vec::new();
    let mut k: usize = 2;
    while k < pts.len()
        invariant
            2 <= k,
            forall|i: int| 0 <= i < pts@.len() ==> on_band(#[trigger] pts@[i]),
            forall|g: int| 0 <= g < groups@.len() ==> {
                let grp = #[trigger] groups@[g];
                &&& grp.radius == 16
                &&& grp.kinds@.len() == grp.count
                &&& !grp.activated
                &&& group_count_ok(grp.count, mission.threat)
                &&& forall|q: int| 0 <= q < grp.kinds@.len() ==> biome_enemy_name(biome, (#[trigger] grp.kinds@[q])@)
            },
        decreases pts@.len() + 2 - k,
    {
        let pp = pts[k];
        if seeded_ratio(rng, 9, 10) {
            let count = 4 + (if mission.threat / 5 < 5 { mission.threat / 5 } else { 5 }) + seeded_roll_below(rng, 3);
            let kinds = pick_kinds_for(rng, biome, count);
            groups.push(SpawnGroup { pos: half_point(pp), radius: 16, kinds, count, activated: false });
        }
        k += 1;
    }
    if mission.boss.is_none() {
        let n = 8 + mission.threat / 3;
        let kinds = pick_kinds_for(rng, biome, n);
        groups.push(SpawnGroup { pos: (2 * arena.0 + 1, 2 * (arena.1 + 7)), radius: 16, kinds, count: n, activated: false });
    }
    groups
}

/// A walk through cells without walls leads from a cell next to the
/// spawn points (row 67, columns 37..=39) to the portal cell (column `ax`,
/// row 6).
pub open spec fn reaches_portal(t: Seq<Tile>, ax: i32) -> bool {
    exists|w: Seq<(int, int)>|
        #[trigger] open_walk(t, w) && w[0].1 == 67 && 37 <= w[0].0 <= 39 && w.last() == (ax as int, 6int)
}

/// The walk of the main path leads to the portal cell.
proof fn lemma_main_walk_reaches(t: Seq<Tile>, w: Seq<(int, int)>, pts: Seq<(i32, i32)>)
    requires
        main_walk(t, w, pts),
    ensures
        reaches_portal(t, pts.last().0),
{
    reveal(main_walk);
}

/// Tiles that keep their walls add none.
proof fn lemma_same_walls_kept(a: Seq<Tile>, b: Seq<Tile>)
    requires
        b.len() == a.len(),
        forall|j: int| 0 <= j < a.len() ==> (#[trigger] b[j]).wall == a[j].wall,
    ensures
        walls_kept(a, b),
{
    assert forall|j: int| 0 <= j < a.len() && (#[trigger] a[j]).wall == 0 implies b[j].wall == 0 by {
        assert(b[j].wall == a[j].wall);
    }
}

/// Generates the level of a mission from `seed`.
#[verifier::spinoff_prover]
#[verifier::rlimit(40)]
pub fn generate(mission: &MissionDef, seed: u64) -> (level: Level)
    ensures
        level.w == 76,
        level.h == 76,
        level.tiles@.len() == GRID_LEN,
        level.well_formed(),
        level.biome == mission.biome,
        level.has_rune == (spec_secret_unlocked_by_rune(mission.id as int) is Some),
        level.has_rune == level.lever is Some,
        !level.secret_opened,
        level.secret_tiles@.len() == if level.has_rune { 10int } else { 0int },
        level.spawns@ == seq![(75i32, 137i32), (79i32, 137i32)],
        border_walled(level.tiles@),
        low_walls(level.tiles@),
        biome_level_tiles(level.tiles@, mission.biome),
        exists|ax: i32| 4 <= ax <= 71 && level.portal == #[trigger] arena_portal(ax)
            && level.boss_spawn == (if mission.boss is Some { Some(((2 * ax + 1) as i32, 21i32)) } else { None::<(i32, i32)> })
            && level.tiles@[cell(ax as int, 6)].decor == Some(Decor::Portal { active: false })
            && reaches_portal(level.tiles@, ax),
        level.has_rune ==> exists|ri: int| 0 <= ri < GRID_LEN && (#[trigger] level.tiles@[ri]).decor == Some(Decor::Rune { taken: false }),
        level.captives@.len() <= 3,
        closed_chests(level.tiles@, level.chests@),
        caged(level.tiles@, level.captives@),
        forall|g: int| 0 <= g < level.groups@.len() ==> {
            let grp = #[trigger] level.groups@[g];
            &&& grp.radius == 16
            &&& grp.kinds@.len() == grp.count
            &&& !grp.activated
            &&& forall|q: int| 0 <= q < grp.kinds@.len() ==> biome_enemy_name(mission.biome, (#[trigger] grp.kinds@[q])@)
        },
        mission.boss is Some ==> forall|g: int| 0 <= g < level.groups@.len() ==> group_count_ok(#[trigger] level.groups@[g].count, mission.threat),
        mission.boss is None ==> {
            &&& level.groups@.len() >= 1
            &&& level.groups@.last().count == 8 + mission.threat / 3
            &&& forall|g: int| 0 <= g < level.groups@.len() - 1 ==> group_count_ok(#[trigger] level.groups@[g].count, mission.threat)
        },
{
    let mut rng = seeded_rng(seed);
    let pal = biome_palette(mission.biome);
    let biome = mission.biome;

    // rooms and corridors (with the secret room where there is a rune)
    let has_rune = secret_unlocked_by_rune(mission.id).is_some();
    let (mut tiles, corridor, pts, rooms, secret_tiles, lever, Ghost(walk)) = carve_level(&mut rng, &pal, has_rune);
    let arena = pts[pts.len() - 1];

    let ghost carved = tiles@;
    dress_level(&mut tiles, &mut rng, &pal, biome, &pts, &corridor);
    assert(dressed(carved, tiles@));
    proof {
        lemma_dressed_kept(carved, tiles@);
        lemma_main_walk_kept(carved, tiles@, walk, pts@);
    }

    // spawns / exit / boss
    let start = pts[0];
    let mut spawns: Vec<(i32, i32)> = Vec::new();
    spawns.push((2 * start.0 - 1, 2 * start.1 + 1));
    spawns.push((2 * start.0 + 3, 2 * start.1 + 1));
    let boss_spawn = match mission.boss {
        Some(_) => Some((2 * arena.0 + 1, 2 * arena.1 + 1)),
        None => None,
    };
    let portal_row = if arena.1 - 4 > 6 { arena.1 - 4 } else { 6 };
    let portal = Some(((2 * arena.0 + 1, 2 * portal_row), false));
    assert(portal == arena_portal(arena.0));
    let pi = (portal_row * 76 + arena.0) as usize;
    proof {
        lemma_dressed_border(carved, tiles@);
    }
    let ghost dressed_tiles = tiles@;
    let mut t = tiles[pi];
    t.decor = Some(Decor::Portal { active: false });
    tiles.set(pi, t);
    let ghost portal_set = tiles@;
    proof {
        lemma_set_decor_same(dressed_tiles, pi as int, t.decor);
        lemma_same_walls_kept(dressed_tiles, portal_set);
        lemma_main_walk_kept(dressed_tiles, portal_set, walk, pts@);
        assert(pi == cell(arena.0 as int, 6));
        assert forall|x: int, y: int| in_grid(x, y) && !in_interior(x, y) implies #[trigger] tiles@[cell(x, y)].wall > 0 by {
            assert(dressed_tiles[cell(x, y)].wall > 0);
        }
        if has_rune {
            let ri = choose|ri: int| 760 <= ri < GRID_LEN && (#[trigger] carved[ri]).decor == Some(Decor::Rune { taken: false });
            assert(dressed_tiles[ri].decor == Some(Decor::Rune { taken: false }));
            assert(tiles@[ri].decor == Some(Decor::Rune { taken: false }));
        }
    }

    // chests, emerald piles, captives, fountain, camps, fences, clutter, arena props
    let (chests, captives) = place_props(&mut tiles, &mut rng, &pts, &rooms);

    // enemy trigger groups along the path, and at the arena without a boss
    let groups = spawn_groups(&mut rng, mission, biome, &pts, arena);
    proof {
        lemma_dressed_border(portal_set, tiles@);
        lemma_dressed_kept(portal_set, tiles@);
        lemma_main_walk_kept(portal_set, tiles@, walk, pts@);
        lemma_main_walk_reaches(tiles@, walk, pts@);
        lemma_same_but_decor_trans(dressed_tiles, portal_set, tiles@);
        lemma_biome_level_tiles(dressed_tiles, tiles@, &pal, biome);
    }

    Level {
        w: 76,
        h: 76,
        tiles,
        spawns,
        boss_spawn,
        portal,
        groups,
        secret_tiles,
        secret_opened: false,
        has_rune,
        lever,
        biome,
        captives,
        chests,
    }
}

fn half_point(p: (i32, i32)) -> (r: (i32, i32))
    requires
        on_band(p),
    ensures
        r == half(p),
{
    (2 * p.0 + 1, 2 * p.1 + 1)
}

fn pick_kinds_for(rng: &mut rand::rngs::StdRng, biome: Biome, count: u32) -> (v: Vec<String>)
    ensures
        v@.len() == count,
        forall|q: int| 0 <= q < v@.len() ==> biome_enemy_name(biome, (#[trigger] v@[q])@),
{
    crate::realmaps::pick_kinds_for(rng, biome, count)
}

} // verus!
