//! Level tiles: ground blocks, walls, decor, collision flags.

use vstd::prelude::*;
use crate::missions::Biome;

verus! {

#[derive(Clone, Copy, PartialEq, Eq, Debug, Hash, Structural)]
pub enum Block {
    Grass, Dirt, Stone, Cobble, Mossy, Planks, Log, Leaves, Sand, Sandstone,
    StoneBrick, MossyBrick, CrackedBrick, Water, Lava, Netherrack, NetherBrick,
    Obsidian, Purpur, Endstone, RedstoneOre, Glowstone, Mud, Deepslate, Sculk,
    Cactus, Pumpkin, Snow, Ice, Gravel, Clay, Moss, Crystal, SoulSand, Podzol, RedSand,
}

/// Atlas keys (top, side, bottom) of a block.
pub open spec fn spec_tex(b: Block) -> (Seq<char>, Seq<char>, Seq<char>) {
    match b {
        Block::Grass => ("grass_top"@, "grass_side"@, "dirt"@),
        Block::Dirt => ("dirt"@, "dirt"@, "dirt"@),
        Block::Stone => ("stone"@, "stone"@, "stone"@),
        Block::Cobble => ("cobble"@, "cobble"@, "cobble"@),
        Block::Mossy => ("mossy"@, "mossy"@, "mossy"@),
        Block::Planks => ("planks_oak"@, "planks_oak"@, "planks_oak"@),
        Block::Log => ("log_top"@, "log_side"@, "log_top"@),
        Block::Leaves => ("leaves_oak"@, "leaves_oak"@, "leaves_oak"@),
        Block::Sand => ("sand"@, "sand"@, "sand"@),
        Block::Sandstone => ("sandstone"@, "sandstone"@, "sandstone"@),
        Block::StoneBrick => ("stonebrick"@, "stonebrick"@, "stonebrick"@),
        Block::MossyBrick => ("mossy_stonebrick"@, "mossy_stonebrick"@, "mossy_stonebrick"@),
        Block::CrackedBrick => ("cracked_stonebrick"@, "cracked_stonebrick"@, "cracked_stonebrick"@),
        Block::Water => ("water"@, "water"@, "water"@),
        Block::Lava => ("lava"@, "lava"@, "lava"@),
        Block::Netherrack => ("netherrack"@, "netherrack"@, "netherrack"@),
        Block::NetherBrick => ("netherbrick"@, "netherbrick"@, "netherbrick"@),
        Block::Obsidian => ("obsidian"@, "obsidian"@, "obsidian"@),
        Block::Purpur => ("purpur"@, "purpur"@, "purpur"@),
        Block::Endstone => ("endstone"@, "endstone"@, "endstone"@),
        Block::RedstoneOre => ("redstone_ore"@, "redstone_ore"@, "redstone_ore"@),
        Block::Glowstone => ("glowstone"@, "glowstone"@, "glowstone"@),
        Block::Mud => ("mud"@, "mud"@, "mud"@),
        Block::Deepslate => ("deepslate"@, "deepslate"@, "deepslate"@),
        Block::Sculk => ("sculk"@, "sculk"@, "sculk"@),
        Block::Cactus => ("cactus_top"@, "cactus_side"@, "cactus_top"@),
        Block::Pumpkin => ("pumpkin_top"@, "pumpkin_side"@, "pumpkin_top"@),
        Block::Snow => ("snow"@, "snow"@, "snow"@),
        Block::Ice => ("ice"@, "ice"@, "ice"@),
        Block::Gravel => ("gravel"@, "gravel"@, "gravel"@),
        Block::Clay => ("clay"@, "clay"@, "clay"@),
        Block::Moss => ("moss"@, "moss"@, "moss"@),
        Block::Crystal => ("crystal"@, "crystal"@, "crystal"@),
        Block::SoulSand => ("soul_sand"@, "soul_sand"@, "soul_sand"@),
        Block::Podzol => ("podzol"@, "podzol"@, "dirt"@),
        Block::RedSand => ("red_sand"@, "red_sand"@, "red_sand"@),
    }
}

impl Block {
    /// (top, side, bottom) atlas keys
    pub fn tex(&self) -> (r: (&'static str, &'static str, &'static str))
        ensures
            r.0@ == spec_tex(*self).0,
            r.1@ == spec_tex(*self).1,
            r.2@ == spec_tex(*self).2,
    {
        match self {
            Block::Grass => ("grass_top", "grass_side", "dirt"),
            Block::Dirt => ("dirt", "dirt", "dirt"),
            Block::Stone => ("stone", "stone", "stone"),
            Block::Cobble => ("cobble", "cobble", "cobble"),
            Block::Mossy => ("mossy", "mossy", "mossy"),
            Block::Planks => ("planks_oak", "planks_oak", "planks_oak"),
            Block::Log => ("log_top", "log_side", "log_top"),
            Block::Leaves => ("leaves_oak", "leaves_oak", "leaves_oak"),
            Block::Sand => ("sand", "sand", "sand"),
            Block::Sandstone => ("sandstone", "sandstone", "sandstone"),
            Block::StoneBrick => ("stonebrick", "stonebrick", "stonebrick"),
            Block::MossyBrick => ("mossy_stonebrick", "mossy_stonebrick", "mossy_stonebrick"),
            Block::CrackedBrick => ("cracked_stonebrick", "cracked_stonebrick", "cracked_stonebrick"),
            Block::Water => ("water", "water", "water"),
            Block::Lava => ("lava", "lava", "lava"),
            Block::Netherrack => ("netherrack", "netherrack", "netherrack"),
            Block::NetherBrick => ("netherbrick", "netherbrick", "netherbrick"),
            Block::Obsidian => ("obsidian", "obsidian", "obsidian"),
            Block::Purpur => ("purpur", "purpur", "purpur"),
            Block::Endstone => ("endstone", "endstone", "endstone"),
            Block::RedstoneOre => ("redstone_ore", "redstone_ore", "redstone_ore"),
            Block::Glowstone => ("glowstone", "glowstone", "glowstone"),
            Block::Mud => ("mud", "mud", "mud"),
            Block::Deepslate => ("deepslate", "deepslate", "deepslate"),
            Block::Sculk => ("sculk", "sculk", "sculk"),
            Block::Cactus => ("cactus_top", "cactus_side", "cactus_top"),
            Block::Pumpkin => ("pumpkin_top", "pumpkin_side", "pumpkin_top"),
            Block::Snow => ("snow", "snow", "snow"),
            Block::Ice => ("ice", "ice", "ice"),
            Block::Gravel => ("gravel", "gravel", "gravel"),
            Block::Clay => ("clay", "clay", "clay"),
            Block::Moss => ("moss", "moss", "moss"),
            Block::Crystal => ("crystal", "crystal", "crystal"),
            Block::SoulSand => ("soul_sand", "soul_sand", "soul_sand"),
            Block::Podzol => ("podzol", "podzol", "dirt"),
            Block::RedSand => ("red_sand", "red_sand", "red_sand"),
        }
    }
}

#[derive(Clone, Copy, PartialEq, Eq, Debug, Structural)]
pub enum Decor {
    Tree,
    Rock,
    Bush,
    CactusPlant,
    CrystalCluster,
    Torch,
    PumpkinProp,
    Chest { opened: bool },
    EmeraldPile,
    Lever { pulled: bool },
    Rune { taken: bool },
    Fountain { used: bool },
    Portal { active: bool },
    Banner,
    Cage,
    /// Warm campfire with ground light pool.
    Campfire,
    /// Illager camp tent.
    Tent,
    /// Barrel prop — solid.
    Barrel,
    /// Wooden crate prop — solid.
    Crate,
    /// Post lantern (warm glow, walkable).
    Lantern,
    /// Broken wall segment — solid.
    Ruin,
    /// Tall stone pillar — solid.
    Pillar,
    /// Fire bowl on a pedestal — walkable, emits light.
    Brazier,
    /// Thin wooden rail post — walkable.
    Fence,
}

/// Decor that blocks movement.
pub open spec fn spec_decor_solid(d: Decor) -> bool {
    match d {
        Decor::Tree | Decor::Rock | Decor::CactusPlant | Decor::CrystalCluster | Decor::Chest { .. }
        | Decor::Cage | Decor::Portal { .. } | Decor::Tent | Decor::Barrel | Decor::Crate | Decor::Ruin
        | Decor::Pillar => true,
        _ => false,
    }
}

impl Decor {
    pub fn solid(&self) -> (b: bool)
        ensures
            b == spec_decor_solid(*self),
    {
        match self {
            Decor::Tree | Decor::Rock | Decor::CactusPlant | Decor::CrystalCluster | Decor::Chest { .. }
            | Decor::Cage | Decor::Portal { .. } | Decor::Tent | Decor::Barrel | Decor::Crate
            | Decor::Ruin | Decor::Pillar => true,
            _ => false,
        }
    }
}

#[derive(Clone, Copy, PartialEq, Eq, Debug, Structural)]
pub struct Tile {
    pub ground: Block,
    /// 0..=2 stacked blocks above ground
    pub wall: u8,
    pub wall_block: Block,
    pub decor: Option<Decor>,
}

/// A tile blocks movement: it has a wall, or solid decor.
pub open spec fn spec_tile_solid(t: Tile) -> bool {
    t.wall > 0 || (t.decor matches Some(d) && spec_decor_solid(d))
}

impl Tile {
    pub fn solid(&self) -> (b: bool)
        ensures
            b == spec_tile_solid(*self),
    {
        self.wall > 0 || match self.decor {
            Some(d) => d.solid(),
            None => false,
        }
    }

    pub fn is_water(&self) -> (b: bool)
        ensures
            b == (self.ground == Block::Water),
    {
        self.ground == Block::Water
    }
}

#[derive(Clone, Copy, PartialEq, Eq, Debug, Structural)]
pub struct RectI {
    pub x: i32,
    pub y: i32,
    pub w: i32,
    pub h: i32,
}

/// A group of enemies that spawns when a hero comes near. Positions are in
/// half tiles (world coordinate × 2): the centre of tile (x, y) is
/// (2x + 1, 2y + 1).
pub struct SpawnGroup {
    pub pos: (i32, i32),
    /// trigger radius, in half tiles
    pub radius: i32,
    pub kinds: Vec<String>,
    pub count: u32,
    pub activated: bool,
}

/// A mission level: a `w × h` grid of tiles (row-major) and the positions
/// of its entities, in half tiles (see `SpawnGroup`).
pub struct Level {
    pub w: u32,
    pub h: u32,
    pub tiles: Vec<Tile>,
    pub spawns: Vec<(i32, i32)>,
    pub boss_spawn: Option<(i32, i32)>,
    /// position, active
    pub portal: Option<((i32, i32), bool)>,
    pub groups: Vec<SpawnGroup>,
    pub secret_tiles: Vec<usize>,
    pub secret_opened: bool,
    pub has_rune: bool,
    pub lever: Option<(i32, i32)>,
    pub biome: Biome,
    pub captives: Vec<(i32, i32)>,
    pub chests: Vec<(i32, i32)>,
}

/// Row-major index of (x, y) in a `w × h` grid, if inside it.
pub open spec fn spec_idx(w: int, h: int, x: int, y: int) -> Option<usize> {
    if x < 0 || y < 0 || x >= w || y >= h {
        None
    } else {
        Some((y * w + x) as usize)
    }
}

/// The biomes whose deep wall mass is capped with a leaf canopy.
pub open spec fn spec_canopy_biome(b: Biome) -> bool {
    b == Biome::Forest || b == Biome::Jungle || b == Biome::Swamp || b == Biome::Plains || b == Biome::Haven
}

/// `a` and `b` have the same size and the same entities (all but the
/// tiles and whether the secret is open).
pub open spec fn same_entities(a: Level, b: Level) -> bool {
    &&& b.w == a.w && b.h == a.h
    &&& b.spawns == a.spawns && b.boss_spawn == a.boss_spawn && b.portal == a.portal
    &&& b.groups == a.groups && b.secret_tiles == a.secret_tiles
    &&& b.has_rune == a.has_rune && b.lever == a.lever && b.biome == a.biome
    &&& b.captives == a.captives && b.chests == a.chests
}

impl Level {
    /// The grid holds `w × h` tiles and every secret tile is one of them.
    pub open spec fn well_formed(&self) -> bool {
        &&& self.tiles@.len() == self.w * self.h
        &&& self.w <= 0x7fff_ffff
        &&& self.h <= 0x7fff_ffff
        &&& forall|k: int| 0 <= k < self.secret_tiles@.len() ==> #[trigger] self.secret_tiles@[k] < self.tiles@.len()
    }

    /// Overgrown biomes whose deep wall mass is capped with a leaf canopy.
    pub fn canopy_biome(&self) -> (b: bool)
        ensures
            b == spec_canopy_biome(self.biome),
    {
        match self.biome {
            Biome::Forest | Biome::Jungle | Biome::Swamp | Biome::Plains | Biome::Haven => true,
            _ => false,
        }
    }

    /// Index of tile (x, y), if it lies in the grid.
    pub fn idx(&self, x: i32, y: i32) -> (r: Option<usize>)
        requires
            self.well_formed(),
        ensures
            r == spec_idx(self.w as int, self.h as int, x as int, y as int),
            r matches Some(i) ==> i < self.tiles@.len(),
    {
        if x < 0 || y < 0 || x as u32 >= self.w || y as u32 >= self.h {
            return None;
        }
        let n = self.tiles.len();
        proof {
            assert((y as int) * (self.w as int) + x < self.w * self.h) by (nonlinear_arith)
                requires
                    0 <= x < self.w,
                    0 <= y < self.h,
            ;
        }
        proof {
            assert((y as int) * (self.w as int) <= (y as int) * (self.w as int) + x);
        }
        Some((y as u32 as usize) * (self.w as usize) + x as u32 as usize)
    }

    /// Opens the secret room (lever pulled): its tiles lose their walls.
    pub fn open_secret(&mut self)
        requires
            old(self).well_formed(),
        ensures
            final(self).well_formed(),
            final(self).secret_opened,
            final(self).tiles@.len() == old(self).tiles@.len(),
            old(self).secret_opened ==> final(self).tiles@ == old(self).tiles@,
            !old(self).secret_opened ==> forall|i: int| 0 <= i < final(self).tiles@.len() ==> {
                let t = #[trigger] final(self).tiles@[i];
                let o = old(self).tiles@[i];
                &&& t.ground == o.ground
                &&& t.wall_block == o.wall_block
                &&& t.decor == o.decor
                &&& t.wall == if exists|q: int| 0 <= q < old(self).secret_tiles@.len() && #[trigger] old(self).secret_tiles@[q] == i { 0 } else { o.wall }
            },
            same_entities(*old(self), *final(self)),
    {
        if self.secret_opened {
            return;
        }
        self.secret_opened = true;
        let n = self.secret_tiles.len();
        let mut k: usize = 0;
        while k < n
            invariant
                n == self.secret_tiles@.len(),
                0 <= k <= n,
                same_entities(*old(self), *self),
                self.secret_opened,
                self.well_formed(),
                self.tiles@.len() == old(self).tiles@.len(),
                forall|i: int| 0 <= i < self.tiles@.len() ==> {
                    let t = #[trigger] self.tiles@[i];
                    let o = old(self).tiles@[i];
                    &&& t.ground == o.ground
                    &&& t.wall_block == o.wall_block
                    &&& t.decor == o.decor
                    &&& t.wall == if exists|q: int| 0 <= q < k && #[trigger] self.secret_tiles@[q] == i { 0 } else { o.wall }
                },
            decreases n - k,
        {
            let i = self.secret_tiles[k];
            let mut t = self.tiles[i];
            t.wall = 0;
            self.tiles.set(i, t);
            k += 1;
        }
    }

    /// Bounds of the secret room (unused by the minimap of this version:
    /// always the empty rectangle at the origin).
    pub fn secret_room_bounds(&self) -> (r: RectI)
        ensures
            r == (RectI { x: 0, y: 0, w: 0, h: 0 }),
    {
        RectI { x: 0, y: 0, w: 0, h: 0 }
    }
}

} // verus!
