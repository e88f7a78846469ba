//! Campaign progress: what the save file holds, mission unlocking, and the
//! bookkeeping at the end of a mission.

use vstd::prelude::*;
use crate::inventory::Inventory;
use crate::missions::{mission, mission_is_secret, mission_requires, MISSION_COUNT};

verus! {

#[derive(Clone)]
pub struct PlayerSave {
    pub inventory: Inventory,
    pub level: u32,
    pub xp: u32,
    /// selected hero skin (index into the skin catalog)
    pub skin: usize,
}

#[derive(Clone)]
pub struct Save {
    pub seed: u64,
    pub emeralds: u32,
    pub completed: Vec<usize>,
    pub secrets_found: Vec<usize>,
    /// selected threat tier 0=Default 1=Aventure 2=Apocalypse
    pub tier: usize,
    /// highest tier unlocked
    pub tier_unlocked: usize,
    pub players: Vec<PlayerSave>,
    pub missions_played: u32,
}

/// Whether mission `m` is unlocked: every required mission completed and,
/// for a secret mission, every required mission's rune found too.
pub open spec fn spec_is_unlocked(completed: Seq<usize>, secrets: Seq<usize>, m: int) -> bool {
    let req = mission_requires(m);
    &&& forall|k: int| 0 <= k < req.len() ==> completed.contains(#[trigger] req[k])
    &&& mission_is_secret(m) ==> forall|k: int| 0 <= k < req.len() ==> secrets.contains(#[trigger] req[k])
}

/// First non-secret mission from `i` on that is unlocked and not completed, else 0.
pub open spec fn first_open_mission(completed: Seq<usize>, secrets: Seq<usize>, i: int) -> usize
    decreases MISSION_COUNT - i,
{
    if i < 0 || i >= MISSION_COUNT {
        0
    } else if !mission_is_secret(i) && spec_is_unlocked(completed, secrets, i) && !completed.contains(
        i as usize,
    ) {
        i as usize
    } else {
        first_open_mission(completed, secrets, i + 1)
    }
}

/// The list with `x` appended unless it is already there.
pub open spec fn add_once(s: Seq<usize>, x: usize) -> Seq<usize> {
    if s.contains(x) {
        s
    } else {
        s.push(x)
    }
}

fn vec_contains(v: &Vec<usize>, x: usize) -> (b: bool)
    ensures
        b == v@.contains(x),
{
    let mut k: usize = 0;
    while k < v.len()
        invariant
            0 <= k <= v@.len(),
            forall|j: int| 0 <= j < k ==> v@[j] != x,
        decreases v@.len() - k,
    {
        if v[k] == x {
            return true;
        }
        k += 1;
    }
    false
}

impl PlayerSave {
    /// A fresh hero: starting inventory, level 1, no xp.
    pub fn fresh(skin: usize) -> (p: PlayerSave)
        ensures
            p.level == 1,
            p.xp == 0,
            p.skin == skin,
            p.inventory.is_starting(),
            p.inventory.enchant_points == 1,
            p.inventory.stash@.len() == 0,
    {
        PlayerSave { inventory: Inventory::starting(), level: 1, xp: 0, skin }
    }
}

impl Default for Save {
    fn default() -> (s: Save)
        ensures
            s.seed == 0,
            s.emeralds == 0,
            s.completed@.len() == 0,
            s.secrets_found@.len() == 0,
            s.tier == 0,
            s.tier_unlocked == 0,
            s.players@.len() == 0,
            s.missions_played == 0,
    {
        Save {
            seed: 0,
            emeralds: 0,
            completed: Vec::new(),
            secrets_found: Vec::new(),
            tier: 0,
            tier_unlocked: 0,
            players: Vec::new(),
            missions_played: 0,
        }
    }
}

impl Save {
    /// A new campaign: one hero with the starting inventory and 50 emeralds.
    pub fn new() -> (s: Save)
        ensures
            s.seed == 123456789,
            s.emeralds == 50,
            s.completed@.len() == 0,
            s.secrets_found@.len() == 0,
            s.tier == 0,
            s.tier_unlocked == 0,
            s.players@.len() == 1,
            s.players@[0].level == 1,
            s.players@[0].xp == 0,
            s.players@[0].skin == 0,
            s.players@[0].inventory.is_starting(),
            s.players@[0].inventory.enchant_points == 1,
            s.players@[0].inventory.stash@.len() == 0,
            s.missions_played == 0,
    {
        let mut players = Vec::new();
        players.push(PlayerSave::fresh(0));
        Save {
            seed: 123456789,
            emeralds: 50,
            completed: Vec::new(),
            secrets_found: Vec::new(),
            tier: 0,
            tier_unlocked: 0,
            players,
            missions_played: 0,
        }
    }

    pub fn is_completed(&self, mission_id: usize) -> (b: bool)
        ensures
            b == self.completed@.contains(mission_id),
    {
        vec_contains(&self.completed, mission_id)
    }

    /// Whether a mission is unlocked (see `spec_is_unlocked`).
    pub fn is_unlocked(&self, mission_id: usize) -> (b: bool)
        requires
            mission_id < MISSION_COUNT,
        ensures
            b == spec_is_unlocked(self.completed@, self.secrets_found@, mission_id as int),
    {
        let def = mission(mission_id);
        let req = &def.requires;
        let mut k: usize = 0;
        while k < req.len()
            invariant
                req@ == mission_requires(mission_id as int),
                def.is_secret == mission_is_secret(mission_id as int),
                0 <= k <= req@.len(),
                def.is_secret ==> forall|j: int| 0 <= j < k ==> self.secrets_found@.contains(#[trigger] req@[j]),
                forall|j: int| 0 <= j < k ==> self.completed@.contains(#[trigger] req@[j]),
            decreases req@.len() - k,
        {
            let r = req[k];
            if !vec_contains(&self.completed, r) {
                return false;
            }
            if def.is_secret && !vec_contains(&self.secrets_found, r) {
                return false;
            }
            k += 1;
        }
        true
    }

    /// First unlocked-but-not-completed non-secret mission (camp preselection), else 0.
    pub fn next_mission(&self) -> (m: usize)
        ensures
            m == first_open_mission(self.completed@, self.secrets_found@, 0),
    {
        let mut i: usize = 0;
        while i < MISSION_COUNT
            invariant
                0 <= i <= MISSION_COUNT,
                first_open_mission(self.completed@, self.secrets_found@, 0) == first_open_mission(
                    self.completed@,
                    self.secrets_found@,
                    i as int,
                ),
            decreases MISSION_COUNT - i,
        {
            let secret = i == 4 || i == 7;
            if !secret && self.is_unlocked(i) && !self.is_completed(i) {
                return i;
            }
            i += 1;
        }
        0
    }

    /// Selects a threat tier if it is unlocked.
    pub fn select_tier(&mut self, tier: usize) -> (ok: bool)
        ensures
            ok == (tier <= old(self).tier_unlocked),
            final(self).tier == if ok { tier } else { old(self).tier },
            final(self).tier_unlocked == old(self).tier_unlocked,
            final(self).completed@ == old(self).completed@,
            final(self).secrets_found@ == old(self).secrets_found@,
            final(self).emeralds == old(self).emeralds,
    {
        if tier <= self.tier_unlocked {
            self.tier = tier;
            true
        } else {
            false
        }
    }

    /// Adds fresh heroes (skin 1) until there are `n` of them.
    pub fn ensure_players(&mut self, n: usize)
        ensures
            final(self).players@.len() == (if old(self).players@.len() < n { n as nat } else { old(self).players@.len() }),
            forall|i: int| 0 <= i < old(self).players@.len() ==> #[trigger] final(self).players@[i] == old(self).players@[i],
            forall|i: int| old(self).players@.len() <= i < final(self).players@.len()
                ==> (#[trigger] final(self).players@[i]).level == 1 && final(self).players@[i].xp == 0
                    && final(self).players@[i].skin == 1 && final(self).players@[i].inventory.is_starting(),
            final(self).completed@ == old(self).completed@,
            final(self).secrets_found@ == old(self).secrets_found@,
            final(self).emeralds == old(self).emeralds,
            final(self).tier == old(self).tier,
            final(self).tier_unlocked == old(self).tier_unlocked,
            final(self).seed == old(self).seed,
            final(self).missions_played == old(self).missions_played,
    {
        while self.players.len() < n
            invariant
                self.players@.len() >= old(self).players@.len(),
                self.players@.len() <= n || self.players@.len() == old(self).players@.len(),
                forall|i: int| 0 <= i < old(self).players@.len() ==> #[trigger] self.players@[i]
                    == old(self).players@[i],
                forall|i: int|
                    old(self).players@.len() <= i < self.players@.len() ==> (#[trigger] self.players@[i]).level
                        == 1 && self.players@[i].xp == 0 && self.players@[i].skin == 1
                        && self.players@[i].inventory.is_starting(),
                self.completed@ == old(self).completed@,
                self.secrets_found@ == old(self).secrets_found@,
                self.emeralds == old(self).emeralds,
                self.tier == old(self).tier,
                self.tier_unlocked == old(self).tier_unlocked,
                self.seed == old(self).seed,
                self.missions_played == old(self).missions_played,
            decreases n - self.players@.len(),
        {
            let p = PlayerSave::fresh(1);
            self.players.push(p);
        }
    }

    /// Records the end of a mission: on a victory, the emeralds earned, the
    /// mission completed, its rune if found, and the next tier unlocked
    /// after the final mission (Obsidian Pinnacle); always one more mission played.
    pub fn record_mission(&mut self, mission_id: usize, victory: bool, emeralds: u32, rune_found: bool)
        requires
            victory ==> old(self).emeralds + emeralds <= u32::MAX,
            old(self).missions_played < u32::MAX,
        ensures
            final(self).emeralds == if victory { old(self).emeralds + emeralds } else { old(self).emeralds as int },
            final(self).completed@ == if victory { add_once(old(self).completed@, mission_id) } else {
                old(self).completed@
            },
            final(self).secrets_found@ == if victory && rune_found {
                add_once(old(self).secrets_found@, mission_id)
            } else {
                old(self).secrets_found@
            },
            final(self).tier_unlocked == tier_unlocked_after(old(self).tier, old(self).tier_unlocked, mission_id, victory),
            final(self).tier == old(self).tier,
            final(self).missions_played == old(self).missions_played + 1,
            final(self).players@ == old(self).players@,
            final(self).seed == old(self).seed,
    {
        if victory {
            self.emeralds += emeralds;
            if !vec_contains(&self.completed, mission_id) {
                self.completed.push(mission_id);
            }
            if rune_found {
                if !vec_contains(&self.secrets_found, mission_id) {
                    self.secrets_found.push(mission_id);
                }
            }
            if mission_id == 11 {
                let t = if self.tier < 2 { self.tier } else { 2 };
                let next = if t + 1 < 2 { t + 1 } else { 2 };
                if self.tier_unlocked < next {
                    self.tier_unlocked = next;
                }
            }
        }
        self.missions_played += 1;
    }
}

// ----------------------------------------------------------------------
// Laws of the campaign tree
// ----------------------------------------------------------------------

/// Highest unlocked tier after a mission played at `tier`: a victory in the
/// final mission (Obsidian Pinnacle) unlocks the tier after the one played
/// (the highest being 2).
pub open spec fn tier_unlocked_after(tier: usize, unlocked: usize, mission_id: usize, victory: bool) -> int {
    if victory && mission_id == 11 {
        let t = if tier < 2 { tier } else { 2 };
        let next = if t + 1 < 2 { t + 1 } else { 2 };
        if unlocked > next { unlocked as int } else { next }
    } else {
        unlocked as int
    }
}

/// Tiers unlock one at a time, by winning the final mission on the highest
/// tier unlocked so far; a win on a lower tier unlocks nothing, a win never
/// unlocks more than the tier after the one played, none is ever locked
/// again, and there are three.
/// (The selected tier is always an unlocked one: `Save::new` starts at 0
/// and `select_tier` refuses the others.)
pub proof fn law_tiers_unlock_in_order(tier: usize, unlocked: usize, mission_id: usize, victory: bool)
    requires
        tier <= unlocked <= 2,
    ensures
        unlocked <= tier_unlocked_after(tier, unlocked, mission_id, victory) <= 2,
        tier_unlocked_after(tier, unlocked, mission_id, victory) <= unlocked + 1,
        victory && mission_id == 11 && tier == unlocked && unlocked < 2
            ==> tier_unlocked_after(tier, unlocked, mission_id, victory) == unlocked + 1,
        !(victory && mission_id == 11) ==> tier_unlocked_after(tier, unlocked, mission_id, victory) == unlocked,
        tier < unlocked ==> tier_unlocked_after(tier, unlocked, mission_id, victory) == unlocked,
        tier_unlocked_after(tier, unlocked, mission_id, victory) <= if unlocked > tier + 1 { unlocked as int } else { tier + 1 },
{
}

/// The first mission is always unlocked.
pub proof fn law_first_mission_unlocked(completed: Seq<usize>, secrets: Seq<usize>)
    ensures
        spec_is_unlocked(completed, secrets, 0),
{
}

/// Completing missions or finding runes never locks a mission again.
pub proof fn law_unlock_is_monotone(c1: Seq<usize>, s1: Seq<usize>, c2: Seq<usize>, s2: Seq<usize>, m: int)
    requires
        forall|x: usize| c1.contains(x) ==> c2.contains(x),
        forall|x: usize| s1.contains(x) ==> s2.contains(x),
        spec_is_unlocked(c1, s1, m),
    ensures
        spec_is_unlocked(c2, s2, m),
{
    let req = mission_requires(m);
    assert forall|k: int| 0 <= k < req.len() implies (if mission_is_secret(m) {
        s2.contains(#[trigger] req[k])
    } else {
        c2.contains(req[k])
    }) by {
        if mission_is_secret(m) {
            assert(s1.contains(req[k]));
        } else {
            assert(c1.contains(req[k]));
        }
    }
}

/// Every mission only requires missions that come before it: the campaign
/// is a tree with no cycle.
pub proof fn law_requirements_come_first(m: int, k: int)
    requires
        0 <= m < MISSION_COUNT,
        0 <= k < mission_requires(m).len(),
    ensures
        mission_requires(m)[k] < m,
        !mission_is_secret(mission_requires(m)[k] as int),
{
}

/// A rune unlocks exactly one secret mission, which requires the rune of
/// that very mission; and every secret mission is unlocked by such a rune.
pub proof fn law_runes_unlock_secrets(m: int)
    requires
        0 <= m < MISSION_COUNT,
    ensures
        crate::missions::spec_secret_unlocked_by_rune(m) matches Some(s) ==> mission_is_secret(
            s as int,
        ) && mission_requires(s as int) == seq![m as usize],
        mission_is_secret(m) ==> mission_requires(m).len() == 1
            && crate::missions::spec_secret_unlocked_by_rune(mission_requires(m)[0] as int) == Some(
            m as usize,
        ),
{
    assert(seq![3usize] =~= seq![3usize]);
}

/// Completing every earlier non-secret mission unlocks a non-secret
/// mission: the whole main campaign can be played through in order.
pub proof fn law_campaign_completable(completed: Seq<usize>, secrets: Seq<usize>, m: int)
    requires
        0 <= m < MISSION_COUNT,
        !mission_is_secret(m),
        forall|j: int| 0 <= j < m && !mission_is_secret(j) ==> completed.contains(j as usize),
    ensures
        spec_is_unlocked(completed, secrets, m),
{
    let req = mission_requires(m);
    assert forall|k: int| 0 <= k < req.len() implies completed.contains(#[trigger] req[k]) by {
        law_requirements_come_first(m, k);
        let j = req[k] as int;
        assert(completed.contains(j as usize));
    }
}

/// After a won mission, the mission counts as completed and every mission
/// unlocked before stays unlocked.
pub proof fn law_victory_completes(c: Seq<usize>, s: Seq<usize>, mission_id: usize, rune: bool, m: int)
    requires
        spec_is_unlocked(c, s, m),
    ensures
        add_once(c, mission_id).contains(mission_id),
        spec_is_unlocked(add_once(c, mission_id), if rune { add_once(s, mission_id) } else { s }, m),
{
    let c2 = add_once(c, mission_id);
    let s2 = if rune { add_once(s, mission_id) } else { s };
    if !c.contains(mission_id) {
        assert(c2[c.len() as int] == mission_id);
    }
    assert forall|x: usize| c.contains(x) implies c2.contains(x) by {
        if !c.contains(mission_id) {
            let i = choose|i: int| 0 <= i < c.len() && c[i] == x;
            assert(c2[i] == x);
        }
    }
    assert forall|x: usize| s.contains(x) implies s2.contains(x) by {
        if rune && !s.contains(mission_id) {
            let i = choose|i: int| 0 <= i < s.len() && s[i] == x;
            assert(s2[i] == x);
        }
    }
    law_unlock_is_monotone(c, s, c2, s2, m);
}

/// Seed of a mission's level: the save's seed, plus the mission id × 7919,
/// plus the number of missions played × 104729, wrapping at 2^64 (so that
/// replaying a mission gives a new level).
pub open spec fn spec_mission_seed(seed: u64, mission_id: int, played: int) -> u64 {
    ((seed + mission_id * 7919 + played * 104729) % 0x1_0000_0000_0000_0000) as u64
}

impl Save {
    /// The seed of the level of mission `mission_id`, this time round.
    pub fn mission_seed(&self, mission_id: usize) -> (r: u64)
        requires
            mission_id * 7919 <= u64::MAX,
        ensures
            r == spec_mission_seed(self.seed, mission_id as int, self.missions_played as int),
    {
        let a = self.seed.wrapping_add(mission_id as u64 * 7919);
        let b = a.wrapping_add(self.missions_played as u64 * 104729);
        b
    }

    /// Power of the first hero (1 without heroes): shop stock and forge
    /// prices follow it.
    pub fn hero_power(&self) -> (p: u32)
        ensures
            self.players@.len() == 0 ==> p == 1,
            self.players@.len() > 0 ==> self.players@[0].inventory.power_is(p),
    {
        if self.players.len() == 0 {
            1
        } else {
            self.players[0].inventory.power()
        }
    }
}

} // verus!
