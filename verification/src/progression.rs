//! Hero experience and levels.

use vstd::prelude::*;
use crate::consts::{spec_xp_for_level, xp_for_level};
use crate::inventory::Inventory;

verus! {

/// Total XP needed to reach `level` from level 0.
pub open spec fn xp_before(level: nat) -> nat
    decreases level,
{
    if level == 0 {
        0
    } else {
        xp_before((level - 1) as nat) + spec_xp_for_level((level - 1) as nat)
    }
}

/// Levels that `x` XP buys from `level` on, each level spending its
/// threshold.
pub open spec fn levels_gained(level: nat, x: nat) -> nat
    decreases x,
{
    if x >= spec_xp_for_level(level) {
        1 + levels_gained(level + 1, (x - spec_xp_for_level(level)) as nat)
    } else {
        0
    }
}

/// Gives `amount` XP to a hero at `level` with `xp`: every time the XP
/// reaches the threshold of the current level it is spent, the level goes
/// up and the hero earns one enchantment point. A downed hero gains
/// nothing. Returns whether a level was gained.
pub fn add_xp(level: &mut u32, xp: &mut u32, inventory: &mut Inventory, downed: bool, amount: u32) -> (leveled: bool)
    requires
        !downed ==> *old(xp) + amount <= u32::MAX,
        !downed ==> *old(level) + levels_gained(*old(level) as nat, (*old(xp) + amount) as nat) <= 306783376,
        !downed ==> old(inventory).enchant_points + levels_gained(*old(level) as nat, (*old(xp) + amount) as nat)
            <= u32::MAX,
    ensures
        downed ==> !leveled && *final(level) == *old(level) && *final(xp) == *old(xp) && *final(inventory)
            == *old(inventory),
        !downed ==> xp_before(*final(level) as nat) + *final(xp) == xp_before(*old(level) as nat) + *old(xp) + amount,
        !downed ==> *final(level) == *old(level) + levels_gained(*old(level) as nat, (*old(xp) + amount) as nat),
        !downed ==> *final(xp) < spec_xp_for_level(*final(level) as nat),
        *final(level) >= *old(level),
        final(inventory).enchant_points == old(inventory).enchant_points + (*final(level) - *old(level)),
        leveled == (*final(level) > *old(level)),
        final(inventory).same_equipment(*old(inventory)),
        final(inventory).stash@ == old(inventory).stash@,
{
    if downed {
        return false;
    }
    *xp = *xp + amount;
    let ghost l0 = *old(level);
    let ghost x0: int = *old(xp) + amount;
    let ghost p0 = old(inventory).enchant_points;
    let ghost g = levels_gained(l0 as nat, x0 as nat);
    let mut leveled = false;
    while *xp >= xp_for_level(*level)
        invariant
            l0 <= *level,
            *level + levels_gained(*level as nat, *xp as nat) == l0 + g,
            l0 + g <= 306783376,
            p0 + g <= u32::MAX,
            xp_before(*level as nat) + *xp == xp_before(l0 as nat) + x0,
            inventory.enchant_points == p0 + (*level - l0),
            leveled == (*level > l0),
            inventory.same_equipment(*old(inventory)),
            inventory.stash@ == old(inventory).stash@,
        decreases *xp,
    {
        let need = xp_for_level(*level);
        *xp = *xp - need;
        *level = *level + 1;
        inventory.enchant_points = inventory.enchant_points + 1;
        leveled = true;
    }
    leveled
}

/// Each level needs strictly more XP than the one before.
pub proof fn law_xp_thresholds_increase(a: nat, b: nat)
    requires
        a < b,
    ensures
        spec_xp_for_level(a) < spec_xp_for_level(b),
{
    assert(a * 14 < b * 14) by (nonlinear_arith)
        requires
            a < b,
    ;
}

/// The total XP a hero has earned determines the level: more total XP never
/// means a lower level.
pub proof fn law_xp_before_increases(a: nat, b: nat)
    requires
        a < b,
    ensures
        xp_before(a) < xp_before(b),
    decreases b,
{
    if a + 1 < b {
        law_xp_before_increases(a, (b - 1) as nat);
    }
}

} // verus!
