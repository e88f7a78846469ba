# mdungeons

The rules of an isometric dungeon-crawler campaign (one or two heroes,
sixteen missions, loot, enchantments, a merchant and a blacksmith), written
in Verus: the library's functions carry contracts that Verus proves (a few
small private helpers have none), and the calls into `rand` are the only
trusted code.

## Layout

- `src/missions.rs` — the mission tree, bosses, biome enemy tables.
- `src/progress.rs` — the save: unlocking, tiers, recording a mission.
- `src/items.rs`, `src/inventory.rs` — items, rarity, enchantments, prices,
  random item rolls; equipment slots, stash, equip / salvage / enchant.
- `src/shop.rs` — the merchant's stock and the blacksmith.
- `src/progression.rs`, `src/consts.rs` — hero levels and balance numbers.
- `src/world.rs` — tiles, decor, levels, the secret corridor.
- `src/gen.rs` — procedural levels; `src/realmaps.rs` — authored maps.
- `src/loot.rs`, `src/combat.rs` — chests, levers, runes, fountains, the
  exit portal, picked-up items, enemy drops.
- `src/menu.rs`, `src/inventory_screen.rs`, `src/input.rs` — the menus as
  a state machine: each frame of keys gives the next state and the work
  left to the front end.
- `src/rounding.rs` — single-precision rounding in integers, for the
  prices and salvage shares that the campaign computes in `f32`.
- `src/rng.rs` — the calls into `rand`, with what rand documents of them.
- `app/` — a text front end (save file in JSON, standard input as keys).

The laws of the library are the `law_*` proof functions.
