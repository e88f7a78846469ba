//! Combat vocabulary: teams, projectile kinds, status effects, pickups.

use vstd::prelude::*;
use crate::consts::{EMERALD_DROP_MAX, EMERALD_DROP_MIN};
use crate::items::{gen_item, rolled_item, Item};
use crate::loot::chest_power;
use crate::rng::{roll_below, thread_range_u32_inclusive, thread_ratio, thread_rng};

verus! {

#[derive(Clone, Copy, PartialEq, Eq, Debug, Structural)]
pub enum Team {
    Player,
    Enemy,
}

#[derive(Clone, Copy, PartialEq, Eq, Debug, Structural)]
pub enum ProjKind {
    Arrow,
    Magic,
    Fire,
    Slime,
    Firework,
    Seeds,
    /// Iceologer / Wretched Wraith frost shard — chills the target.
    Ice,
}

#[derive(Clone, Copy, PartialEq, Eq, Debug, Structural)]
pub enum StatusKind {
    Poison,
    Burn,
    Slow,
}

pub enum PickupKind {
    Emerald(u32),
    Arrows(u32),
    Heart,
    Item(Item),
}

/// What a fallen enemy drops (besides the XP every hero gets).
pub struct EnemyDrops {
    pub emeralds: u32,
    /// a few arrows, some of the time
    pub arrows: Option<u32>,
    /// a healing heart, rarely
    pub heart: bool,
    /// an item, some of the time
    pub item: Option<Item>,
}

/// Emeralds dropped by an enemy for a base roll `n` at threat tier `tier`:
/// n × (1 + tier / 2), rounded down.
pub open spec fn tier_emeralds(n: u32, tier: usize) -> int {
    (n * (2 + tier)) / 2
}

/// Draws the drops of an enemy that fell in a mission of threat `threat`
/// at threat tier `tier`: 1..=4 emeralds scaled by the tier; 3..=8 arrows
/// with probability 9/50; a heart with probability 3/50; with probability
/// (5 + tier)/50 an item of the mission's threat plus 0..2 (at least 1),
/// without luck.
pub fn enemy_drops(tier: usize, threat: u32) -> (d: EnemyDrops)
    requires
        tier <= 44,
        threat <= u32::MAX - 3,
    ensures
        exists|n: u32| EMERALD_DROP_MIN <= n <= EMERALD_DROP_MAX && d.emeralds == #[trigger] tier_emeralds(n, tier),
        d.arrows matches Some(a) ==> 3 <= a <= 8,
        d.item matches Some(it) ==> exists|extra: u32| extra < 3 && rolled_item(it, #[trigger] chest_power(threat, extra), 0),
{
    let mut rng = thread_rng();
    let n = thread_range_u32_inclusive(&mut rng, EMERALD_DROP_MIN, EMERALD_DROP_MAX);
    let t = tier as u32;
    let emeralds = n * (2 + t) / 2;
    assert(emeralds == tier_emeralds(n, tier));
    let arrows = if thread_ratio(&mut rng, 9, 50) {
        Some(thread_range_u32_inclusive(&mut rng, 3, 8))
    } else {
        None
    };
    let heart = thread_ratio(&mut rng, 3, 50);
    let item = if thread_ratio(&mut rng, 5 + t, 50) {
        let extra = roll_below(&mut rng, 3);
        let power = if threat + extra < 1 { 1 } else { threat + extra };
        assert(power == chest_power(threat, extra));
        Some(gen_item(&mut rng, power, 0))
    } else {
        None
    };
    EnemyDrops { emeralds, arrows, heart, item }
}

} // verus!
