//! Balance constants of the campaign (integer ones).

use vstd::prelude::*;

verus! {

/// XP needed to go from level `level` to `level + 1`.
pub open spec fn spec_xp_for_level(level: nat) -> nat {
    20 + level * 14
}

/// XP needed for level n -> n+1.
pub fn xp_for_level(level: u32) -> (r: u32)
    requires
        level <= 306783376,
    ensures
        r == spec_xp_for_level(level as nat),
{
    20 + level * 14
}

/// Width of a level, in tiles.
pub const LEVEL_W: u32 = 76;
/// Height of a level, in tiles.
pub const LEVEL_H: u32 = 76;
/// Enchantment points earned per hero level.
pub const ENCHANT_POINT_PER_LEVEL: u32 = 1;
/// Highest level the HUD displays.
pub const MAX_DISPLAY_LEVEL: u32 = 55;
/// Shop items are sold at player power + this bonus (+ 0 or 1).
pub const SHOP_POWER_BONUS: u32 = 1;
/// Emeralds dropped by an enemy: between these bounds.
pub const EMERALD_DROP_MIN: u32 = 1;
pub const EMERALD_DROP_MAX: u32 = 4;
/// Emeralds in a chest: between these bounds.
pub const CHEST_EMERALDS_MIN: u32 = 10;
pub const CHEST_EMERALDS_MAX: u32 = 28;
/// Share of an item's price paid back on salvage, in percent.
pub const SALVAGE_PCT: u32 = 35;
/// Arrows at the start of a mission.
pub const START_ARROWS: u32 = 60;
/// Health potions per mission.
pub const POTIONS_PER_MISSION: u32 = 3;
/// Highest melee combo counter.
pub const COMBO_MAX: u32 = 10;

} // verus!
