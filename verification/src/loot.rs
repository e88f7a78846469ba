//! World interactions: what using a chest, the lever, the rune, a fountain
//! or the exit portal does to a level, what a chest holds, and when the
//! exit portal opens.

use vstd::prelude::*;
use crate::consts::{CHEST_EMERALDS_MAX, CHEST_EMERALDS_MIN};
use crate::inventory::{Inventory, STASH_CAP};
use crate::items::{gen_item, rolled_item, Item};
use crate::missions::BossKind;
use crate::rng::{roll_below, thread_range_u32_inclusive, thread_ratio, thread_rng};
use crate::world::{same_entities, spec_idx, Decor, Level, Tile};

verus! {

/// What an interaction did.
#[derive(Clone, Copy, PartialEq, Eq, Debug, Structural)]
pub enum Interaction {
    /// Nothing to use on the tile.
    Nothing,
    /// A closed chest was opened: its loot drops.
    OpenedChest,
    /// The lever was pulled: the secret corridor opened.
    OpenedSecret,
    /// The rune was taken.
    TookRune,
    /// An unused fountain healed the hero, and is now used.
    UsedFountain,
    /// An unused fountain was reached by a hero at full health: nothing
    /// happens, but the interaction stops there.
    FountainNotNeeded,
    /// The hero stepped into the active exit portal: the mission is won.
    EnterPortal,
}

/// What using a tile with decor `d` does (`hurt`: the hero is below full
/// health).
pub open spec fn interaction_of(d: Option<Decor>, hurt: bool) -> Interaction {
    match d {
        Some(Decor::Chest { opened: false }) => Interaction::OpenedChest,
        Some(Decor::Lever { pulled: false }) => Interaction::OpenedSecret,
        Some(Decor::Rune { taken: false }) => Interaction::TookRune,
        Some(Decor::Fountain { used: false }) => if hurt {
            Interaction::UsedFountain
        } else {
            Interaction::FountainNotNeeded
        },
        Some(Decor::Portal { active: true }) => Interaction::EnterPortal,
        _ => Interaction::Nothing,
    }
}

/// The decor of a tile after it was used.
pub open spec fn decor_after(d: Option<Decor>, hurt: bool) -> Option<Decor> {
    match d {
        Some(Decor::Chest { opened: false }) => Some(Decor::Chest { opened: true }),
        Some(Decor::Lever { pulled: false }) => Some(Decor::Lever { pulled: true }),
        Some(Decor::Rune { taken: false }) => Some(Decor::Rune { taken: true }),
        Some(Decor::Fountain { used: false }) => if hurt {
            Some(Decor::Fountain { used: true })
        } else {
            d
        },
        _ => d,
    }
}

/// Tile `j` of `b` is tile `j` of `a` with decor `d` when `j == i`, and
/// the secret corridor opened when `open` (and it was still closed in `a`).
pub open spec fn tile_after(a: Level, i: int, d: Option<Decor>, open: bool, j: int) -> Tile {
    let o = a.tiles@[j];
    let in_secret = exists|q: int| 0 <= q < a.secret_tiles@.len() && #[trigger] a.secret_tiles@[q] == j;
    Tile {
        ground: o.ground,
        wall: if open && !a.secret_opened && in_secret { 0u8 } else { o.wall },
        wall_block: o.wall_block,
        decor: if j == i { d } else { o.decor },
    }
}

/// `b` is `a` after using tile `i` (hero `hurt` or not).
pub open spec fn used_tile(a: Level, b: Level, i: int, hurt: bool) -> bool {
    let open = interaction_of(a.tiles@[i].decor, hurt) == Interaction::OpenedSecret;
    &&& b.tiles@.len() == a.tiles@.len()
    &&& forall|j: int| 0 <= j < b.tiles@.len() ==> #[trigger] b.tiles@[j] == tile_after(a, i, decor_after(a.tiles@[i].decor, hurt), open, j)
    &&& b.secret_opened == (a.secret_opened || open)
    &&& same_entities(a, b)
}

/// Whether cell `k` (0..9, row by row from the north-west) of the 3 × 3
/// block around (tx, ty) holds something to use for a hero in reach of it
/// (`reach[k]` is its distance, `None` when out of reach).
pub open spec fn usable_cell(lvl: Level, tx: i32, ty: i32, k: int, reach: Seq<Option<u32>>, hurt: bool) -> bool {
    let x = tx + k % 3 - 1;
    let y = ty + k / 3 - 1;
    &&& spec_idx(lvl.w as int, lvl.h as int, x, y) is Some
    &&& reach[k] is Some
    &&& interaction_of(lvl.tiles@[spec_idx(lvl.w as int, lvl.h as int, x, y)->0 as int].decor, hurt) != Interaction::Nothing
}

/// Cell `k` is the nearest usable cell of the block (the first in row
/// order among equally near ones).
pub open spec fn nearest_usable(lvl: Level, tx: i32, ty: i32, k: int, reach: Seq<Option<u32>>, hurt: bool) -> bool {
    &&& 0 <= k < 9
    &&& usable_cell(lvl, tx, ty, k, reach, hurt)
    &&& forall|k2: int| 0 <= k2 < 9 && #[trigger] usable_cell(lvl, tx, ty, k2, reach, hurt) ==> reach[k]->0 <= reach[k2]->0
    &&& forall|k2: int| 0 <= k2 < k && #[trigger] usable_cell(lvl, tx, ty, k2, reach, hurt) ==> reach[k2]->0 > reach[k]->0
}

impl Level {
    /// What using tile `i` would do (the level is left as it is).
    pub fn interaction_at(&self, i: usize, hurt: bool) -> (r: Interaction)
        requires
            i < self.tiles@.len(),
        ensures
            r == interaction_of(self.tiles@[i as int].decor, hurt),
    {
        match self.tiles[i].decor {
            Some(Decor::Chest { opened: false }) => Interaction::OpenedChest,
            Some(Decor::Lever { pulled: false }) => Interaction::OpenedSecret,
            Some(Decor::Rune { taken: false }) => Interaction::TookRune,
            Some(Decor::Fountain { used: false }) => if hurt {
                Interaction::UsedFountain
            } else {
                Interaction::FountainNotNeeded
            },
            Some(Decor::Portal { active: true }) => Interaction::EnterPortal,
            _ => Interaction::Nothing,
        }
    }

    /// Uses tile `i`: opens a closed chest, pulls the lever (which opens
    /// the secret corridor), takes the rune, drinks from an unused fountain
    /// when `hurt`, or enters the active portal.
    pub fn use_tile(&mut self, i: usize, hurt: bool) -> (r: Interaction)
        requires
            old(self).well_formed(),
            i < old(self).tiles@.len(),
        ensures
            r == interaction_of(old(self).tiles@[i as int].decor, hurt),
            final(self).well_formed(),
            used_tile(*old(self), *final(self), i as int, hurt),
    {
        let r = self.interaction_at(i, hurt);
        let d = match self.tiles[i].decor {
            Some(Decor::Chest { opened: false }) => Some(Decor::Chest { opened: true }),
            Some(Decor::Lever { pulled: false }) => Some(Decor::Lever { pulled: true }),
            Some(Decor::Rune { taken: false }) => Some(Decor::Rune { taken: true }),
            Some(Decor::Fountain { used: false }) => if hurt {
                Some(Decor::Fountain { used: true })
            } else {
                self.tiles[i].decor
            },
            other => other,
        };
        let mut t = self.tiles[i];
        t.decor = d;
        self.tiles.set(i, t);
        let ghost mid = *self;
        if r == Interaction::OpenedSecret {
            self.open_secret();
        }
        proof {
            assert forall|j: int| 0 <= j < self.tiles@.len() implies #[trigger] self.tiles@[j] == tile_after(
                *old(self),
                i as int,
                d,
                r == Interaction::OpenedSecret,
                j,
            ) by {
                assert(mid.tiles@[j].wall == old(self).tiles@[j].wall);
            }
        }
        r
    }

    /// A hero on tile (tx, ty) interacts with the nearest interactable in
    /// reach: among the cells of the 3 × 3 block around it that are in reach
    /// (`reach`, row by row from the north-west: the distance of the cell
    /// from the hero, `None` when out of reach) and hold something to use,
    /// the nearest is used (the first in row order among equally near
    /// ones). Returns what happened and the cell used.
    pub fn interact(&mut self, tx: i32, ty: i32, reach: &[Option<u32>; 9], hurt: bool) -> (r: (Interaction, i32, i32))
        requires
            old(self).well_formed(),
        ensures
            final(self).well_formed(),
            r.0 == Interaction::Nothing <==> forall|k: int| 0 <= k < 9 ==> !usable_cell(*old(self), tx, ty, k, reach@, hurt),
            r.0 == Interaction::Nothing ==> *final(self) == *old(self),
            r.0 != Interaction::Nothing ==> exists|k: int| {
                &&& r.1 == tx + k % 3 - 1 && r.2 == ty + k / 3 - 1
                &&& #[trigger] nearest_usable(*old(self), tx, ty, k, reach@, hurt)
                &&& r.0 == interaction_of(old(self).tiles@[spec_idx(old(self).w as int, old(self).h as int, r.1 as int, r.2 as int)->0 as int].decor, hurt)
                &&& used_tile(*old(self), *final(self), spec_idx(old(self).w as int, old(self).h as int, r.1 as int, r.2 as int)->0 as int, hurt)
            },
    {
        let mut best: Option<(usize, usize, u32, i32, i32)> = None;
        let mut k: usize = 0;
        while k < 9
            invariant
                0 <= k <= 9,
                *self == *old(self),
                self.well_formed(),
                best is None ==> forall|k2: int| 0 <= k2 < k ==> !usable_cell(*old(self), tx, ty, k2, reach@, hurt),
                best matches Some(b) ==> {
                    &&& b.0 < k
                    &&& b.1 < old(self).tiles@.len()
                    &&& usable_cell(*old(self), tx, ty, b.0 as int, reach@, hurt)
                    &&& reach@[b.0 as int] == Some(b.2)
                    &&& b.3 == tx + b.0 % 3 - 1 && b.4 == ty + b.0 / 3 - 1
                    &&& spec_idx(old(self).w as int, old(self).h as int, b.3 as int, b.4 as int) == Some(b.1)
                    &&& forall|k2: int| 0 <= k2 < k && #[trigger] usable_cell(*old(self), tx, ty, k2, reach@, hurt) ==> b.2 <= reach@[k2]->0
                    &&& forall|k2: int| 0 <= k2 < b.0 && #[trigger] usable_cell(*old(self), tx, ty, k2, reach@, hurt) ==> reach@[k2]->0 > b.2
                },
            decreases 9 - k,
        {
            let dx = (k % 3) as i32 - 1;
            let dy = (k / 3) as i32 - 1;
            let x = tx as i64 + dx as i64;
            let y = ty as i64 + dy as i64;
            if x >= i32::MIN as i64 && x <= i32::MAX as i64 && y >= i32::MIN as i64 && y <= i32::MAX as i64 {
                let xi = x as i32;
                let yi = y as i32;
                match self.idx(xi, yi) {
                    Some(i) => {
                        match reach[k] {
                            Some(d) => {
                                if self.interaction_at(i, hurt) != Interaction::Nothing {
                                    assert(usable_cell(*old(self), tx, ty, k as int, reach@, hurt));
                                    let closer = match best {
                                        Some(b) => d < b.2,
                                        None => true,
                                    };
                                    if closer {
                                        best = Some((k, i, d, xi, yi));
                                    }
                                }
                            },
                            None => {},
                        }
                    },
                    None => {},
                }
            }
            k += 1;
        }
        match best {
            Some(b) => {
                assert(nearest_usable(*old(self), tx, ty, b.0 as int, reach@, hurt));
                let res = self.use_tile(b.1, hurt);
                (res, b.3, b.4)
            },
            None => (Interaction::Nothing, tx, ty),
        }
    }
}

/// What an opened chest drops.
pub struct ChestLoot {
    pub emeralds: u32,
    pub items: Vec<Item>,
    /// a bundle of arrows, some of the time
    pub arrows: Option<u32>,
}

/// Power of the items of a chest: the mission's threat plus 0..2, at
/// least 1.
pub open spec fn chest_power(threat: u32, extra: u32) -> u32 {
    if threat + extra < 1 { 1 } else { (threat + extra) as u32 }
}

/// Luck of chest items, in hundredths.
pub const CHEST_LUCK: i32 = 5;

/// Draws the loot of a chest in a mission of threat `threat`: 10..=28
/// emeralds; 1 to 3 items of rising power (the k-th has the chest's power
/// plus k) at luck 0.05; with probability 0.4, 5..=12 arrows.
pub fn chest_loot(threat: u32) -> (loot: ChestLoot)
    requires
        threat <= u32::MAX - 5,
    ensures
        CHEST_EMERALDS_MIN <= loot.emeralds <= CHEST_EMERALDS_MAX,
        1 <= loot.items@.len() <= 3,
        exists|extra: u32| #![trigger chest_power(threat, extra)] extra < 3 && forall|k: int| 0 <= k < loot.items@.len() ==> rolled_item(
            #[trigger] loot.items@[k],
            (chest_power(threat, extra) + k) as u32,
            CHEST_LUCK,
        ),
        loot.arrows matches Some(n) ==> 5 <= n <= 12,
{
    let mut rng = thread_rng();
    let emeralds = thread_range_u32_inclusive(&mut rng, CHEST_EMERALDS_MIN, CHEST_EMERALDS_MAX);
    let extra = roll_below(&mut rng, 3);
    let power = if threat + extra < 1 { 1 } else { threat + extra };
    let n_items = 1 + thread_range_u32_inclusive(&mut rng, 0, 2);
    let mut items: Vec<Item> = Vec::new();
    let mut k: u32 = 0;
    while k < n_items
        invariant
            0 <= k <= n_items <= 3,
            power == chest_power(threat, extra),
            power <= u32::MAX - 3,
            items@.len() == k,
            forall|j: int| 0 <= j < items@.len() ==> rolled_item(#[trigger] items@[j], (power + j) as u32, CHEST_LUCK),
        decreases n_items - k,
    {
        let item = gen_item(&mut rng, power + k, CHEST_LUCK);
        items.push(item);
        k += 1;
    }
    let arrows = if thread_ratio(&mut rng, 2, 5) {
        Some(thread_range_u32_inclusive(&mut rng, 5, 12))
    } else {
        None
    };
    ChestLoot { emeralds, items, arrows }
}

/// Enemy id of a mission's boss (the golem horde is led by a plain
/// redstone golem).
pub open spec fn spec_boss_enemy(b: BossKind) -> Seq<char> {
    match b {
        BossKind::CorruptedCauldron => "boss_cauldron"@,
        BossKind::RedstoneMonstrosity => "boss_monstrosity"@,
        BossKind::NamelessOne => "boss_nameless"@,
        BossKind::ArchIllager => "boss_arch"@,
        BossKind::MiniGolemHorde => "redstone_golem"@,
        BossKind::JungleAbomination => "boss_jungle"@,
        BossKind::WretchedWraith => "boss_wretched"@,
        BossKind::TempestGolem => "boss_tempest"@,
        BossKind::AncientGuardian => "boss_ancient"@,
        BossKind::Wildfire => "boss_wildfire"@,
        BossKind::VengefulHeart => "boss_vengeful"@,
    }
}

/// Enemy id spawned at the boss spawn of a mission with boss `b`.
pub fn boss_enemy(b: BossKind) -> (s: &'static str)
    ensures
        s@ == spec_boss_enemy(b),
{
    match b {
        BossKind::CorruptedCauldron => "boss_cauldron",
        BossKind::RedstoneMonstrosity => "boss_monstrosity",
        BossKind::NamelessOne => "boss_nameless",
        BossKind::ArchIllager => "boss_arch",
        BossKind::MiniGolemHorde => "redstone_golem",
        BossKind::JungleAbomination => "boss_jungle",
        BossKind::WretchedWraith => "boss_wretched",
        BossKind::TempestGolem => "boss_tempest",
        BossKind::AncientGuardian => "boss_ancient",
        BossKind::Wildfire => "boss_wildfire",
        BossKind::VengefulHeart => "boss_vengeful",
    }
}

/// Whether the spawned boss is tracked as the mission's boss (its health
/// opens the portal): every boss but the golem horde's leader.
pub fn tracks_boss(b: BossKind) -> (r: bool)
    ensures
        r == (b != BossKind::MiniGolemHorde),
{
    match b {
        BossKind::MiniGolemHorde => false,
        _ => true,
    }
}

/// When the exit portal opens: with a tracked boss, once the boss is dead
/// (`boss_dead`, or the boss is gone: `None`); without one, once a group
/// was triggered and three enemies fell.
pub open spec fn spec_portal_opens(tracked_boss: bool, boss_dead: Option<bool>, activated_groups: nat, kills: u32) -> bool {
    if tracked_boss {
        match boss_dead {
            Some(d) => d,
            None => true,
        }
    } else {
        activated_groups >= 1 && kills >= 3
    }
}

/// Number of triggered groups of a level.
pub open spec fn activated_count(groups: Seq<crate::world::SpawnGroup>) -> nat
    decreases groups.len(),
{
    if groups.len() == 0 {
        0
    } else {
        activated_count(groups.drop_last()) + if groups.last().activated { 1nat } else { 0nat }
    }
}

impl Level {
    /// Number of triggered enemy groups.
    pub fn activated_groups(&self) -> (n: usize)
        ensures
            n == activated_count(self.groups@),
    {
        let mut n: usize = 0;
        let mut k: usize = 0;
        while k < self.groups.len()
            invariant
                0 <= k <= self.groups@.len(),
                n == activated_count(self.groups@.subrange(0, k as int)),
                n <= k,
            decreases self.groups@.len() - k,
        {
            assert(self.groups@.subrange(0, k + 1).drop_last() == self.groups@.subrange(0, k as int));
            if self.groups[k].activated {
                n += 1;
            }
            k += 1;
        }
        assert(self.groups@.subrange(0, self.groups@.len() as int) == self.groups@);
        n
    }

    /// Opens the exit portal when the mission's goal is met (see
    /// `spec_portal_opens`); an open portal stays open. Returns whether it
    /// opened just now.
    pub fn update_portal(&mut self, tracked_boss: bool, boss_dead: Option<bool>, kills: u32) -> (opened: bool)
        ensures
            opened == (old(self).portal matches Some((_, false))
                && spec_portal_opens(tracked_boss, boss_dead, activated_count(old(self).groups@), kills)),
            final(self).portal == (match old(self).portal {
                Some((p, a)) => Some((p, a || opened)),
                None => None::<((i32, i32), bool)>,
            }),
            old(self).portal matches Some((_, true)) ==> final(self).portal == old(self).portal,
            tracked_boss && boss_dead == Some(true) && (old(self).portal matches Some((_, false))) ==> opened
                && (final(self).portal matches Some((_, true))),
            tracked_boss && boss_dead == Some(false) ==> !opened && final(self).portal == old(self).portal,
            final(self).tiles == old(self).tiles,
            final(self).secret_opened == old(self).secret_opened,
            final(self).groups == old(self).groups,
            final(self).w == old(self).w && final(self).h == old(self).h,
            final(self).secret_tiles == old(self).secret_tiles,
    {
        let open = if tracked_boss {
            match boss_dead {
                Some(d) => d,
                None => true,
            }
        } else {
            self.activated_groups() >= 1 && kills >= 3
        };
        match self.portal {
            Some((p, false)) => {
                if open {
                    self.portal = Some((p, true));
                    true
                } else {
                    false
                }
            },
            _ => false,
        }
    }
}

/// Using a chest, the lever, the rune or a fountain works once: using the
/// same tile again afterwards does nothing, whoever uses it.
pub proof fn law_interaction_happens_once(d: Option<Decor>, hurt: bool, hurt_again: bool)
    requires
        interaction_of(d, hurt) != Interaction::Nothing,
        interaction_of(d, hurt) != Interaction::EnterPortal,
        interaction_of(d, hurt) != Interaction::FountainNotNeeded,
    ensures
        interaction_of(decor_after(d, hurt), hurt_again) == Interaction::Nothing,
{
}

/// With a tracked boss the exit portal opens exactly when the boss is dead
/// (or gone), whatever the groups and kills; without one it opens exactly
/// when a group was triggered and at least three enemies fell.
pub proof fn law_portal_follows_the_boss(boss_dead: Option<bool>, groups: nat, kills: u32, groups2: nat, kills2: u32)
    ensures
        boss_dead matches Some(d) ==> spec_portal_opens(true, boss_dead, groups, kills) == d,
        boss_dead is None ==> spec_portal_opens(true, boss_dead, groups, kills),
        spec_portal_opens(true, boss_dead, groups, kills) == spec_portal_opens(true, boss_dead, groups2, kills2),
        spec_portal_opens(false, boss_dead, groups, kills) == (groups >= 1 && kills >= 3),
{
}

/// The active exit portal stays usable: entering it changes nothing, and
/// it can be entered again.
pub proof fn law_portal_stays_usable(d: Option<Decor>, hurt: bool, hurt_again: bool)
    requires
        interaction_of(d, hurt) == Interaction::EnterPortal,
    ensures
        decor_after(d, hurt) == d,
        interaction_of(decor_after(d, hurt), hurt_again) == Interaction::EnterPortal,
{
}

/// Hero `k` can take a picked-up item: standing, with room in the stash.
pub open spec fn can_take(invs: Seq<Inventory>, alive: Seq<bool>, k: int) -> bool {
    alive[k] && invs[k].stash@.len() < STASH_CAP
}

/// Who keeps a picked-up item: the first standing hero with room in the
/// stash; else the first hero (downed or not) if there is room; else no
/// one (the item is salvaged on the spot).
pub open spec fn item_receiver(invs: Seq<Inventory>, alive: Seq<bool>, r: Option<usize>) -> bool {
    match r {
        Some(k) => {
            &&& 0 <= k < invs.len()
            &&& invs[k as int].stash@.len() < STASH_CAP
            &&& (can_take(invs, alive, k as int) || k == 0)
            &&& forall|j: int| 0 <= j < k ==> !#[trigger] can_take(invs, alive, j)
            &&& !can_take(invs, alive, k as int) ==> forall|j: int| 0 <= j < invs.len() ==> !#[trigger] can_take(invs, alive, j)
        },
        None => {
            &&& forall|j: int| 0 <= j < invs.len() ==> !#[trigger] can_take(invs, alive, j)
            &&& (invs.len() == 0 || invs[0].stash@.len() >= STASH_CAP)
        },
    }
}

/// Emeralds a picked-up item is worth when no hero can keep it.
pub const FULL_STASH_EMERALDS: u32 = 5;

/// A picked-up item goes to the stash of its receiver (see
/// `item_receiver`); returns the receiver, or `None` when every stash
/// refused it (the heroes then get `FULL_STASH_EMERALDS` instead).
pub fn deliver_item(invs: &mut Vec<Inventory>, alive: &Vec<bool>, item: Item) -> (r: Option<usize>)
    requires
        alive@.len() == old(invs)@.len(),
    ensures
        item_receiver(old(invs)@, alive@, r),
        final(invs)@.len() == old(invs)@.len(),
        r is None ==> final(invs)@ == old(invs)@,
        r matches Some(k) ==> {
            &&& final(invs)@[k as int].stash@ == old(invs)@[k as int].stash@.push(item)
            &&& final(invs)@[k as int].same_equipment(old(invs)@[k as int])
            &&& final(invs)@[k as int].enchant_points == old(invs)@[k as int].enchant_points
            &&& forall|j: int| 0 <= j < final(invs)@.len() && j != k ==> #[trigger] final(invs)@[j] == old(invs)@[j]
        },
{
    let n = invs.len();
    let mut k: usize = 0;
    while k < n
        invariant
            n == invs@.len(),
            alive@.len() == n,
            invs@ == old(invs)@,
            0 <= k <= n,
            forall|j: int| 0 <= j < k ==> !#[trigger] can_take(old(invs)@, alive@, j),
        decreases n - k,
    {
        if alive[k] && invs[k].stash.len() < STASH_CAP {
            let mut inv = invs.remove(k);
            let ok = inv.push_stash(item);
            invs.insert(k, inv);
            assert(invs@ =~= old(invs)@.update(k as int, inv));
            return Some(k);
        }
        k += 1;
    }
    if n > 0 && invs[0].stash.len() < STASH_CAP {
        let mut inv = invs.remove(0);
        let ok = inv.push_stash(item);
        invs.insert(0, inv);
        assert(invs@ =~= old(invs)@.update(0, inv));
        return Some(0);
    }
    None
}

/// Arrows after picking up a bundle of `n`: at most 999 are carried.
pub fn collect_arrows(arrows: u32, n: u32) -> (r: u32)
    requires
        arrows + n <= u32::MAX,
    ensures
        r == if arrows + n < 999 { arrows + n } else { 999 },
{
    if arrows + n < 999 { arrows + n } else { 999 }
}

} // verus!
