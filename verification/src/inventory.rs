//! Per-player inventory: equipment slots + stash + enchantment points.

use vstd::prelude::*;
use vstd::multiset::Multiset;
use crate::rounding::{f32_share_035, share_035};
use crate::items::{
    has_enchant, spec_applies_to, spec_base_name, spec_price, spec_slot_of, spec_slots, ArmorClass,
    ArtifactKind, Enchant, Item, ItemClass, MeleeClass, RangedClass, Rarity, Slot,
};

verus! {

/// Capacity of the stash.
pub const STASH_CAP: usize = 21;

#[derive(Clone)]
pub struct Inventory {
    pub melee: Option<Item>,
    pub ranged: Option<Item>,
    pub armor: Option<Item>,
    pub artifacts: [Option<Item>; 3],
    pub stash: Vec<Item>,
    pub enchant_points: u32,
}

/// The items an optional slot holds.
pub open spec fn opt_items(o: Option<Item>) -> Seq<Item> {
    match o {
        Some(i) => seq![i],
        None => Seq::empty(),
    }
}

/// A borrowed optional item designates `o`.
pub open spec fn opt_ref_is(r: Option<&Item>, o: Option<Item>) -> bool {
    match r {
        Some(x) => o == Some(*x),
        None => o is None,
    }
}

/// Sum of the tiers of an enchantment list (= the enchantment points spent on it).
pub open spec fn tier_total(s: Seq<(Enchant, u8)>) -> nat
    decreases s.len(),
{
    if s.len() == 0 {
        0
    } else {
        tier_total(s.drop_last()) + s.last().1 as nat
    }
}

/// Enchantment points spent on a sequence of items.
pub open spec fn items_tier_total(s: Seq<Item>) -> nat
    decreases s.len(),
{
    if s.len() == 0 {
        0
    } else {
        items_tier_total(s.drop_last()) + tier_total(s.last().enchants@)
    }
}

/// The item's enchantment list matches its rarity: no more enchantments than
/// slots, and no enchantment twice.
pub open spec fn item_well_formed(it: Item) -> bool {
    &&& it.enchants@.len() <= spec_slots(it.rarity)
    &&& forall|i: int, j: int|
        0 <= i < j < it.enchants@.len() ==> #[trigger] it.enchants@[i].0 != #[trigger] it.enchants@[j].0
}

/// `b` is `a` with `(e, tier)` added to its enchantments.
pub open spec fn item_with_enchant(a: Item, b: Item, e: Enchant, tier: u8) -> bool {
    &&& b.name == a.name
    &&& b.class == a.class
    &&& b.power == a.power
    &&& b.rarity == a.rarity
    &&& b.enchants@ == a.enchants@.push((e, tier))
}

/// Index of the artifact slot that `equip` fills: the first free one, else 0.
pub open spec fn first_free_artifact(arts: [Option<Item>; 3]) -> int {
    if arts[0] is None {
        0
    } else if arts[1] is None {
        1
    } else if arts[2] is None {
        2
    } else {
        0
    }
}

/// Equipment slot behind a selection index 0..=5.
pub open spec fn equipment_slot(i: int) -> (Slot, int) {
    if i == 0 {
        (Slot::Melee, 0)
    } else if i == 1 {
        (Slot::Ranged, 0)
    } else if i == 2 {
        (Slot::Armor, 0)
    } else {
        (Slot::Artifact, i - 3)
    }
}

/// Whether `inv` may enchant `item` with `e` at `tier`.
pub open spec fn spec_can_enchant(points: u32, item: Item, e: Enchant, tier: u8) -> bool {
    &&& points >= tier
    &&& item.enchants@.len() < spec_slots(item.rarity)
    &&& !has_enchant(item.enchants@, e)
    &&& spec_applies_to(e, spec_slot_of(item.class))
}

impl Default for Inventory {
    fn default() -> (inv: Inventory)
        ensures
            inv.melee is None,
            inv.ranged is None,
            inv.armor is None,
            inv.artifacts[0] is None,
            inv.artifacts[1] is None,
            inv.artifacts[2] is None,
            inv.stash@.len() == 0,
            inv.enchant_points == 0,
    {
        Inventory {
            melee: None,
            ranged: None,
            armor: None,
            artifacts: [None, None, None],
            stash: Vec::new(),
            enchant_points: 0,
        }
    }
}

impl Inventory {
    /// Equipped items in slot order (melee, ranged, armor, artifacts).
    pub open spec fn equipped_items(&self) -> Seq<Item> {
        opt_items(self.melee) + opt_items(self.ranged) + opt_items(self.armor) + opt_items(
            self.artifacts[0],
        ) + opt_items(self.artifacts[1]) + opt_items(self.artifacts[2])
    }

    /// Every item owned: equipment first, then the stash.
    pub open spec fn spec_all_items(&self) -> Seq<Item> {
        self.equipped_items() + self.stash@
    }

    /// Enchantment points held plus those spent on owned items.
    pub open spec fn point_budget(&self) -> nat {
        self.enchant_points as nat + items_tier_total(self.spec_all_items())
    }

    /// Content of an equipment slot (`art` picks the artifact slot).
    pub open spec fn spec_slot(&self, slot: Slot, art: int) -> Option<Item> {
        match slot {
            Slot::Melee => self.melee,
            Slot::Ranged => self.ranged,
            Slot::Armor => self.armor,
            Slot::Artifact => if 0 <= art < 3 { self.artifacts[art] } else { None },
        }
    }

    /// Same equipment in every slot.
    pub open spec fn same_equipment(&self, other: Inventory) -> bool {
        &&& self.melee == other.melee
        &&& self.ranged == other.ranged
        &&& self.armor == other.armor
        &&& self.artifacts == other.artifacts
    }

    /// Same equipment in every slot except `(slot, art)`, same points.
    pub open spec fn same_except_slot(&self, other: Inventory, slot: Slot, art: int) -> bool {
        &&& (slot != Slot::Melee ==> self.melee == other.melee)
        &&& (slot != Slot::Ranged ==> self.ranged == other.ranged)
        &&& (slot != Slot::Armor ==> self.armor == other.armor)
        &&& forall|j: int|
            0 <= j < 3 && !(slot == Slot::Artifact && j == art) ==> #[trigger] self.artifacts[j]
                == other.artifacts[j]
        &&& self.enchant_points == other.enchant_points
    }

    /// `b` is `a` with `item` equipped, the displaced item (if any) added to
    /// `base_stash`.
    pub open spec fn equip_step(a: Inventory, base_stash: Seq<Item>, item: Item, b: Inventory) -> bool {
        let s = spec_slot_of(item.class);
        let ai = if s == Slot::Artifact { first_free_artifact(a.artifacts) } else { 0 };
        let displaced = a.spec_slot(s, ai);
        &&& b.spec_slot(s, ai) == Some(item)
        &&& b.same_except_slot(a, s, ai)
        &&& b.stash@ == if displaced is Some { base_stash.push(displaced.unwrap()) } else { base_stash }
    }

    /// `b` is `a` after taking off the item of equipment slot `slot_idx`
    /// (0 melee, 1 ranged, 2 armor, 3..=5 artifacts): the slot is empty and
    /// the item is in the stash if it had room (else it is lost).
    pub open spec fn unequip_step(a: Inventory, b: Inventory, slot_idx: int) -> bool {
        let (s, ai) = equipment_slot(slot_idx);
        let taken = a.spec_slot(s, ai);
        &&& b.spec_slot(s, ai) is None
        &&& b.same_except_slot(a, s, ai)
        &&& b.stash@ == if taken is Some && a.stash@.len() < STASH_CAP {
            a.stash@.push(taken.unwrap())
        } else {
            a.stash@
        }
    }

    /// `b` is `a` after a successful `enchant(idx, e, tier)`.
    pub open spec fn enchant_step(a: Inventory, b: Inventory, idx: int, e: Enchant, tier: u8) -> bool {
        &&& 0 <= idx < a.stash@.len()
        &&& spec_can_enchant(a.enchant_points, a.stash@[idx], e, tier)
        &&& b.same_equipment(a)
        &&& b.stash@.len() == a.stash@.len()
        &&& forall|j: int| 0 <= j < a.stash@.len() && j != idx ==> #[trigger] b.stash@[j] == a.stash@[j]
        &&& item_with_enchant(a.stash@[idx], b.stash@[idx], e, tier)
        &&& b.enchant_points == a.enchant_points - tier
    }

    /// `b` is `a` after `salvage(idx)`.
    pub open spec fn salvage_step(a: Inventory, b: Inventory, idx: int) -> bool {
        &&& 0 <= idx < a.stash@.len()
        &&& b.same_equipment(a)
        &&& b.stash@ == a.stash@.remove(idx)
        &&& b.enchant_points == a.enchant_points + tier_total(a.stash@[idx].enchants@)
    }

    /// The inventory every new hero starts with.
    /// The starting kit: a common sword (Sharpness I), bow, medium armour
    /// and totem, all of power 2; empty stash; one enchantment point.
    pub open spec fn is_starting(&self) -> bool {
        &&& self.melee matches Some(m) && m.name@ == Seq::<char>::empty() && m.class == ItemClass::M(MeleeClass::Sword)
            && m.power == 2 && m.rarity == Rarity::Common && m.enchants@ == seq![(Enchant::Sharpness, 1u8)]
        &&& self.ranged matches Some(r) && r.name@ == Seq::<char>::empty() && r.class == ItemClass::R(RangedClass::Bow)
            && r.power == 2 && r.rarity == Rarity::Common && r.enchants@.len() == 0
        &&& self.armor matches Some(a) && a.name@ == Seq::<char>::empty() && a.class == ItemClass::A(ArmorClass::Medium)
            && a.power == 2 && a.rarity == Rarity::Common && a.enchants@.len() == 0
        &&& self.artifacts[0] matches Some(t) && t.name@ == Seq::<char>::empty() && t.class == ItemClass::Art(
            ArtifactKind::Totem,
        ) && t.power == 2 && t.rarity == Rarity::Common && t.enchants@.len() == 0
        &&& self.artifacts[1] is None
        &&& self.artifacts[2] is None
        &&& self.stash@.len() == 0
        &&& self.enchant_points == 1
    }

    pub fn starting() -> (inv: Inventory)
        ensures
            inv.is_starting(),
    {
        let mut ench = Vec::new();
        ench.push((Enchant::Sharpness, 1u8));
        Inventory {
            melee: Some(
                Item {
                    name: String::new(),
                    class: ItemClass::M(MeleeClass::Sword),
                    power: 2,
                    rarity: Rarity::Common,
                    enchants: ench,
                },
            ),
            ranged: Some(
                Item {
                    name: String::new(),
                    class: ItemClass::R(RangedClass::Bow),
                    power: 2,
                    rarity: Rarity::Common,
                    enchants: Vec::new(),
                },
            ),
            armor: Some(
                Item {
                    name: String::new(),
                    class: ItemClass::A(ArmorClass::Medium),
                    power: 2,
                    rarity: Rarity::Common,
                    enchants: Vec::new(),
                },
            ),
            artifacts: [
                Some(
                    Item {
                        name: String::new(),
                        class: ItemClass::Art(ArtifactKind::Totem),
                        power: 2,
                        rarity: Rarity::Common,
                        enchants: Vec::new(),
                    },
                ),
                None,
                None,
            ],
            stash: Vec::new(),
            enchant_points: 1,
        }
    }

    /// Name shown for an item: its own name, else its class's base name.
    pub fn display_name(item: &Item) -> (s: String)
        ensures
            s@ == if item.name@.len() == 0 { spec_base_name(item.class) } else { item.name@ },
    {
        if item.name.as_str().is_empty() {
            String::from_str(item.base_name())
        } else {
            item.name.clone()
        }
    }

    /// `p` is the power of the inventory: the highest power of any item
    /// owned, at least 1.
    pub open spec fn power_is(&self, p: u32) -> bool {
        &&& p >= 1
        &&& forall|i: int| 0 <= i < self.spec_all_items().len() ==> p >= #[trigger] self.spec_all_items()[i].power
        &&& (p == 1 || exists|i: int| 0 <= i < self.spec_all_items().len() && #[trigger] self.spec_all_items()[i].power == p)
    }

    /// Player power = highest power of any item owned, at least 1.
    pub fn power(&self) -> (p: u32)
        ensures
            self.power_is(p),
    {
        let items = self.all_items();
        let ghost all = self.spec_all_items();
        let mut p: u32 = 1;
        let mut k: usize = 0;
        while k < items.len()
            invariant
                items@.len() == all.len(),
                forall|i: int| 0 <= i < all.len() ==> *items@[i] == all[i],
                0 <= k <= items.len(),
                p >= 1,
                forall|i: int| 0 <= i < k ==> p >= #[trigger] all[i].power,
                p == 1 || exists|i: int| 0 <= i < k && #[trigger] all[i].power == p,
            decreases items.len() - k,
        {
            let pw = items[k].power;
            if pw > p {
                p = pw;
                assert(all[k as int].power == p);
            }
            k += 1;
        }
        p
    }

    /// References to every item owned: equipment (melee, ranged, armor,
    /// artifacts), then the stash.
    pub fn all_items(&self) -> (v: Vec<&Item>)
        ensures
            v@.len() == self.spec_all_items().len(),
            forall|i: int| 0 <= i < v@.len() ==> *v@[i] == self.spec_all_items()[i],
    {
        let mut v: Vec<&Item> = Vec::new();
        let ghost mut acc: Seq<Item> = Seq::empty();
        if let Some(i) = &self.melee {
            v.push(i);
        }
        proof { acc = opt_items(self.melee); }
        assert(v@.len() == acc.len() && forall|i: int| 0 <= i < v@.len() ==> *v@[i] == acc[i]);
        if let Some(i) = &self.ranged {
            v.push(i);
        }
        proof { acc = acc + opt_items(self.ranged); }
        assert(v@.len() == acc.len() && forall|i: int| 0 <= i < v@.len() ==> *v@[i] == acc[i]);
        if let Some(i) = &self.armor {
            v.push(i);
        }
        proof { acc = acc + opt_items(self.armor); }
        assert(v@.len() == acc.len() && forall|i: int| 0 <= i < v@.len() ==> *v@[i] == acc[i]);
        if let Some(i) = &self.artifacts[0] {
            v.push(i);
        }
        proof { acc = acc + opt_items(self.artifacts[0]); }
        assert(v@.len() == acc.len() && forall|i: int| 0 <= i < v@.len() ==> *v@[i] == acc[i]);
        if let Some(i) = &self.artifacts[1] {
            v.push(i);
        }
        proof { acc = acc + opt_items(self.artifacts[1]); }
        assert(v@.len() == acc.len() && forall|i: int| 0 <= i < v@.len() ==> *v@[i] == acc[i]);
        if let Some(i) = &self.artifacts[2] {
            v.push(i);
        }
        proof { acc = acc + opt_items(self.artifacts[2]); }
        assert(acc == self.equipped_items());
        let n = self.stash.len();
        let mut k: usize = 0;
        while k < n
            invariant
                n == self.stash@.len(),
                0 <= k <= n,
                acc == self.equipped_items(),
                v@.len() == acc.len() + k,
                forall|i: int| 0 <= i < acc.len() ==> *v@[i] == acc[i],
                forall|i: int| 0 <= i < k ==> *v@[acc.len() + i] == self.stash@[i],
            decreases n - k,
        {
            v.push(&self.stash[k]);
            k += 1;
        }
        assert forall|i: int| 0 <= i < v@.len() implies *v@[i] == self.spec_all_items()[i] by {
            if i >= acc.len() {
                assert(*v@[acc.len() + (i - acc.len())] == self.stash@[i - acc.len()]);
            }
        }
        v
    }

    /// Content of an equipment slot (`art` picks the artifact slot).
    pub fn slot_ref(&self, slot: Slot, art: usize) -> (r: Option<&Item>)
        ensures
            opt_ref_is(r, self.spec_slot(slot, art as int)),
    {
        match slot {
            Slot::Melee => self.melee.as_ref(),
            Slot::Ranged => self.ranged.as_ref(),
            Slot::Armor => self.armor.as_ref(),
            Slot::Artifact => if art < 3 {
                self.artifacts[art].as_ref()
            } else {
                None
            },
        }
    }

    /// Puts `item` in a slot and returns what was there. An artifact index
    /// past the three slots changes nothing and returns `None`.
    fn slot_set(&mut self, slot: Slot, art: usize, item: Option<Item>) -> (old_item: Option<Item>)
        ensures
            old_item == old(self).spec_slot(slot, art as int),
            slot == Slot::Artifact && art >= 3 ==> *final(self) == *old(self),
            !(slot == Slot::Artifact && art >= 3) ==> final(self).spec_slot(slot, art as int) == item,
            final(self).same_except_slot(*old(self), slot, art as int),
            final(self).stash@ == old(self).stash@,
    {
        match slot {
            Slot::Melee => {
                let o = self.melee.take();
                self.melee = item;
                o
            },
            Slot::Ranged => {
                let o = self.ranged.take();
                self.ranged = item;
                o
            },
            Slot::Armor => {
                let o = self.armor.take();
                self.armor = item;
                o
            },
            Slot::Artifact => {
                if art < 3 {
                    let o = self.artifacts[art].take();
                    self.artifacts[art] = item;
                    o
                } else {
                    None
                }
            },
        }
    }

    /// Equips `item` in its slot (artifacts go to the first free artifact
    /// slot, else slot 0); the displaced item goes back into the stash.
    pub fn equip(&mut self, item: Item)
        ensures
            Inventory::equip_step(*old(self), old(self).stash@, item, *final(self)),
            final(self).stash@.len() <= old(self).stash@.len() + 1,
    {
        let slot = item.slot();
        let art: usize = if slot == Slot::Artifact {
            if self.artifacts[0].is_none() {
                0
            } else if self.artifacts[1].is_none() {
                1
            } else if self.artifacts[2].is_none() {
                2
            } else {
                0
            }
        } else {
            0
        };
        let old_item = self.slot_set(slot, art, Some(item));
        if let Some(o) = old_item {
            self.stash.push(o);
        }
    }

    /// Moves stash item `idx` to its equipment slot (see `equip`); false
    /// when there is no such stash item.
    pub fn equip_from_stash(&mut self, idx: usize) -> (ok: bool)
        ensures
            ok == (idx < old(self).stash@.len()),
            ok ==> Inventory::equip_step(
                *old(self),
                old(self).stash@.remove(idx as int),
                old(self).stash@[idx as int],
                *final(self),
            ),
            !ok ==> *final(self) == *old(self),
            old(self).stash@.len() <= STASH_CAP ==> final(self).stash@.len() <= STASH_CAP,
    {
        if idx >= self.stash.len() {
            return false;
        }
        let it = self.stash.remove(idx);
        self.equip(it);
        true
    }

    /// Takes the item out of equipment slot `slot_idx` (0 melee, 1 ranged,
    /// 2 armor, 3..=5 artifacts) into the stash; when the stash is full the
    /// item is lost.
    pub fn unequip(&mut self, slot_idx: usize)
        requires
            slot_idx < 6,
        ensures
            Inventory::unequip_step(*old(self), *final(self), slot_idx as int),
            old(self).stash@.len() <= STASH_CAP ==> final(self).stash@.len() <= STASH_CAP,
    {
        let taken = match slot_idx {
            0 => self.slot_set(Slot::Melee, 0, None),
            1 => self.slot_set(Slot::Ranged, 0, None),
            2 => self.slot_set(Slot::Armor, 0, None),
            3 => self.slot_set(Slot::Artifact, 0, None),
            4 => self.slot_set(Slot::Artifact, 1, None),
            _ => self.slot_set(Slot::Artifact, 2, None),
        };
        if let Some(t) = taken {
            self.push_stash(t);
        }
    }

    /// Adds an item to the stash; refuses (returns false) when the stash is full.
    pub fn push_stash(&mut self, item: Item) -> (ok: bool)
        ensures
            ok == (old(self).stash@.len() < STASH_CAP),
            ok ==> final(self).stash@ == old(self).stash@.push(item),
            !ok ==> final(self).stash@ == old(self).stash@,
            final(self).same_equipment(*old(self)),
            final(self).enchant_points == old(self).enchant_points,
            old(self).stash@.len() <= STASH_CAP ==> final(self).stash@.len() <= STASH_CAP,
    {
        if self.stash.len() >= STASH_CAP {
            return false;
        }
        self.stash.push(item);
        true
    }

    /// Salvage a stash item: emeralds (35 % of its price, computed in single
    /// precision as `price as f32 * 0.35` truncated, + 5 per enchant tier)
    /// and a refund of the enchantment points spent on it.
    pub fn salvage(&mut self, idx: usize) -> (r: Option<(u32, u32)>)
        requires
            idx < old(self).stash@.len(),
            old(self).enchant_points + tier_total(old(self).stash@[idx as int].enchants@) <= u32::MAX,
            f32_share_035(spec_price(old(self).stash@[idx as int].rarity, old(self).stash@[idx as int].power) as u32)
                + 5 * tier_total(old(self).stash@[idx as int].enchants@) <= u32::MAX,
        ensures
            ({
                let it = old(self).stash@[idx as int];
                let pts = tier_total(it.enchants@);
                r == Some(((f32_share_035(spec_price(it.rarity, it.power) as u32) + 5 * pts) as u32, pts as u32))
            }),
            Inventory::salvage_step(*old(self), *final(self), idx as int),
            final(self).stash@.len() == old(self).stash@.len() - 1,
    {
        let item = self.stash.remove(idx);
        let ghost s = item.enchants@;
        let price = item.price();
        let share = share_035(price);
        let mut emeralds: u32 = share;
        let mut points: u32 = 0;
        let n = item.enchants.len();
        let mut k: usize = 0;
        while k < n
            invariant
                n == s.len(),
                s == item.enchants@,
                0 <= k <= n,
                points == tier_total(s.take(k as int)),
                emeralds == share + 5 * points,
                share + 5 * tier_total(s) <= u32::MAX,
                share == f32_share_035(price),
                price == spec_price(item.rarity, item.power),
            decreases n - k,
        {
            let (_e, t) = item.enchants[k];
            proof {
                assert(s.take(k + 1).drop_last() =~= s.take(k as int));
                lemma_tier_total_prefix(s, k + 1);
            }
            points += t as u32;
            emeralds += 5 * (t as u32);
            k += 1;
        }
        assert(s.take(n as int) =~= s);
        self.enchant_points += points;
        Some((emeralds, points))
    }

    /// Whether `item` can receive enchantment `e` at `tier`: enough points,
    /// a free enchantment slot, `e` not already on it, and `e` fits its slot.
    pub fn can_enchant(&self, item: &Item, e: Enchant, tier: u8) -> (b: bool)
        ensures
            b == spec_can_enchant(self.enchant_points, *item, e, tier),
    {
        if self.enchant_points < Enchant::cost(tier) {
            return false;
        }
        if item.enchants.len() >= item.rarity.slots() {
            return false;
        }
        let n = item.enchants.len();
        let mut k: usize = 0;
        while k < n
            invariant
                n == item.enchants@.len(),
                0 <= k <= n,
                forall|j: int| 0 <= j < k ==> item.enchants@[j].0 != e,
            decreases n - k,
        {
            if item.enchants[k].0 == e {
                return false;
            }
            k += 1;
        }
        if !e.applies_to(item.slot()) {
            return false;
        }
        true
    }

    /// Enchants stash item `stash_idx` with `e` at `tier`, paying `tier`
    /// points; returns false and changes nothing when not allowed.
    pub fn enchant(&mut self, stash_idx: usize, e: Enchant, tier: u8) -> (ok: bool)
        ensures
            ok == (stash_idx < old(self).stash@.len() && spec_can_enchant(
                old(self).enchant_points,
                old(self).stash@[stash_idx as int],
                e,
                tier,
            )),
            ok ==> Inventory::enchant_step(*old(self), *final(self), stash_idx as int, e, tier),
            !ok ==> *final(self) == *old(self),
    {
        if stash_idx >= self.stash.len() {
            return false;
        }
        if !self.can_enchant(&self.stash[stash_idx], e, tier) {
            return false;
        }
        let ghost before = self.stash@;
        let mut it = self.stash.remove(stash_idx);
        it.enchants.push((e, tier));
        self.stash.insert(stash_idx, it);
        assert forall|j: int| 0 <= j < before.len() && j != stash_idx implies #[trigger] self.stash@[j] == before[j] by {
            if j < stash_idx {
            } else {
                assert(self.stash@[j] == before.remove(stash_idx as int)[j - 1]);
            }
        }
        self.enchant_points -= Enchant::cost(tier);
        true
    }

    /// Stash item at `idx`, if any.
    pub fn stash_get(&self, idx: usize) -> (r: Option<&Item>)
        ensures
            opt_ref_is(r, if idx < self.stash@.len() { Some(self.stash@[idx as int]) } else { None }),
    {
        if idx < self.stash.len() {
            Some(&self.stash[idx])
        } else {
            None
        }
    }
}

/// Sum of the tiers of an enchantment list when it is at most `cap`
/// (`None` when it is more).
pub fn tier_sum_upto(v: &Vec<(Enchant, u8)>, cap: u64) -> (r: Option<u64>)
    requires
        cap <= u32::MAX,
    ensures
        r matches Some(t) ==> t == tier_total(v@) && t <= cap,
        r is None ==> tier_total(v@) > cap,
{
    let n = v.len();
    let mut t: u64 = 0;
    let mut k: usize = 0;
    while k < n
        invariant
            n == v@.len(),
            0 <= k <= n,
            t == tier_total(v@.take(k as int)),
            t <= cap,
            cap <= u32::MAX,
        decreases n - k,
    {
        proof {
            lemma_tier_total_prefix(v@, k + 1);
        }
        t = t + v[k].1 as u64;
        if t > cap {
            return None;
        }
        k += 1;
    }
    assert(v@.take(n as int) =~= v@);
    Some(t)
}

/// Prefix sums of tiers step by one element.
proof fn lemma_tier_total_prefix(s: Seq<(Enchant, u8)>, k: int)
    requires
        0 < k <= s.len(),
    ensures
        tier_total(s.take(k)) == tier_total(s.take(k - 1)) + s[k - 1].1,
        tier_total(s.take(k)) <= tier_total(s),
    decreases s.len() - k,
{
    assert(s.take(k).drop_last() =~= s.take(k - 1));
    if k < s.len() {
        lemma_tier_total_prefix(s, k + 1);
    } else {
        assert(s.take(k) =~= s);
    }
}


// ----------------------------------------------------------------------
// Enchantment offers
// ----------------------------------------------------------------------

/// Every enchantment, in the order the enchant menu lists them.
pub open spec fn enchant_order() -> Seq<Enchant> {
    seq![
        Enchant::Sharpness,
        Enchant::CriticalHit,
        Enchant::Swirling,
        Enchant::Thundering,
        Enchant::Radiance,
        Enchant::FireAspect,
        Enchant::PoisonCloud,
        Enchant::Gravity,
    ]
}

/// Whether the enchant menu offers `e` for `item`: it fits the slot, is not
/// on the item yet, and the item has a free enchantment slot.
pub open spec fn offers(item: Item, e: Enchant) -> bool {
    &&& spec_applies_to(e, spec_slot_of(item.class))
    &&& !has_enchant(item.enchants@, e)
    &&& item.enchants@.len() < spec_slots(item.rarity)
}

/// Menu entries `(enchant, tier, cost)` for the first `i` enchantments of
/// `enchant_order`: tiers 1, 2, 3 of each offered one.
pub open spec fn offers_upto(item: Item, i: int) -> Seq<(Enchant, u8, u32)>
    decreases i,
{
    if i <= 0 {
        Seq::empty()
    } else {
        let e = enchant_order()[i - 1];
        if offers(item, e) {
            offers_upto(item, i - 1) + seq![(e, 1u8, 1u32), (e, 2u8, 2u32), (e, 3u8, 3u32)]
        } else {
            offers_upto(item, i - 1)
        }
    }
}

impl Inventory {
    /// The enchant menu for `item`: `(enchant, tier, cost)` for tiers 1..=3
    /// of every enchantment that fits its slot and is not on it yet, empty
    /// when the item has no free enchantment slot.
    pub fn enchant_options(item: &Item) -> (v: Vec<(Enchant, u8, u32)>)
        ensures
            v@ == offers_upto(*item, 8),
    {
        let order: [Enchant; 8] = [
            Enchant::Sharpness,
            Enchant::CriticalHit,
            Enchant::Swirling,
            Enchant::Thundering,
            Enchant::Radiance,
            Enchant::FireAspect,
            Enchant::PoisonCloud,
            Enchant::Gravity,
        ];
        assert(order@ == enchant_order());
        let mut v: Vec<(Enchant, u8, u32)> = Vec::new();
        let mut i: usize = 0;
        while i < 8
            invariant
                0 <= i <= 8,
                order@ == enchant_order(),
                v@ == offers_upto(*item, i as int),
            decreases 8 - i,
        {
            let e = order[i];
            let mut present = false;
            let n = item.enchants.len();
            let mut k: usize = 0;
            while k < n
                invariant
                    n == item.enchants@.len(),
                    0 <= k <= n,
                    present == exists|j: int| 0 <= j < k && #[trigger] item.enchants@[j].0 == e,
                decreases n - k,
            {
                if item.enchants[k].0 == e {
                    present = true;
                }
                k += 1;
            }
            if e.applies_to(item.slot()) && !present && item.enchants.len() < item.rarity.slots() {
                let mut t: u8 = 1;
                while t <= 3
                    invariant
                        1 <= t <= 4,
                        v@ == offers_upto(*item, i as int) + Seq::new(
                            (t - 1) as nat,
                            |j: int| (e, (j + 1) as u8, (j + 1) as u32),
                        ),
                    decreases 4 - t,
                {
                    v.push((e, t, Enchant::cost(t)));
                    t += 1;
                }
                assert(v@ =~= offers_upto(*item, i + 1));
            } else {
                assert(offers_upto(*item, i + 1) == offers_upto(*item, i as int));
            }
            i += 1;
        }
        v
    }
}

/// Every entry of the enchant menu would be accepted by `can_enchant` given
/// enough points, and its listed cost is `Enchant::cost` of its tier.
pub proof fn law_offered_enchants_are_allowed(item: Item, points: u32, k: int)
    requires
        0 <= k < offers_upto(item, 8).len(),
        points >= 3,
    ensures
        spec_can_enchant(points, item, offers_upto(item, 8)[k].0, offers_upto(item, 8)[k].1),
        offers_upto(item, 8)[k].2 == offers_upto(item, 8)[k].1,
        1 <= offers_upto(item, 8)[k].1 <= 3,
{
    lemma_offers_allowed(item, 8);
}

#[verifier::spinoff_prover]
proof fn lemma_offers_allowed(item: Item, i: int)
    requires
        0 <= i <= 8,
    ensures
        forall|k: int|
            0 <= k < offers_upto(item, i).len() ==> {
                let o = #[trigger] offers_upto(item, i)[k];
                &&& offers(item, o.0)
                &&& 1 <= o.1 <= 3
                &&& o.2 == o.1
            },
    decreases i,
{
    if i > 0 {
        lemma_offers_allowed(item, i - 1);
        let e = enchant_order()[i - 1];
        if offers(item, e) {
            let pre = offers_upto(item, i - 1);
            let blk = seq![(e, 1u8, 1u32), (e, 2u8, 2u32), (e, 3u8, 3u32)];
            assert forall|k: int| 0 <= k < offers_upto(item, i).len() implies {
                let o = #[trigger] offers_upto(item, i)[k];
                &&& offers(item, o.0)
                &&& 1 <= o.1 <= 3
                &&& o.2 == o.1
            } by {
                if k < pre.len() {
                    assert(offers_upto(item, i)[k] == pre[k]);
                } else {
                    assert(offers_upto(item, i)[k] == blk[k - pre.len()]);
                }
            }
        } else {
            assert(offers_upto(item, i) == offers_upto(item, i - 1));
        }
    }
}

// ----------------------------------------------------------------------
// Laws
// ----------------------------------------------------------------------

proof fn lemma_items_total_concat(a: Seq<Item>, b: Seq<Item>)
    ensures
        items_tier_total(a + b) == items_tier_total(a) + items_tier_total(b),
    decreases b.len(),
{
    if b.len() == 0 {
        assert(a + b =~= a);
    } else {
        assert((a + b).drop_last() =~= a + b.drop_last());
        lemma_items_total_concat(a, b.drop_last());
    }
}

proof fn lemma_items_total_single(x: Item)
    ensures
        items_tier_total(seq![x]) == tier_total(x.enchants@),
{
    assert(seq![x].drop_last() =~= Seq::<Item>::empty());
    assert(items_tier_total(Seq::<Item>::empty()) == 0);
    assert(seq![x].last() == x);
}

proof fn lemma_items_total_remove(s: Seq<Item>, i: int)
    requires
        0 <= i < s.len(),
    ensures
        items_tier_total(s) == items_tier_total(s.remove(i)) + tier_total(s[i].enchants@),
{
    let a = s.take(i);
    let b = s.skip(i + 1);
    assert(s =~= a + seq![s[i]] + b);
    assert(s.remove(i) =~= a + b);
    lemma_items_total_concat(a + seq![s[i]], b);
    lemma_items_total_concat(a, seq![s[i]]);
    lemma_items_total_concat(a, b);
    lemma_items_total_single(s[i]);
}

proof fn lemma_items_total_update(s: Seq<Item>, i: int, x: Item)
    requires
        0 <= i < s.len(),
    ensures
        items_tier_total(s.update(i, x)) + tier_total(s[i].enchants@) == items_tier_total(s)
            + tier_total(x.enchants@),
{
    lemma_items_total_remove(s, i);
    lemma_items_total_remove(s.update(i, x), i);
    assert(s.update(i, x).remove(i) =~= s.remove(i));
}

/// Enchanting moves points from the pool onto the item: the points held
/// plus the points spent on owned items stay the same.
pub proof fn law_enchant_keeps_point_budget(a: Inventory, b: Inventory, idx: int, e: Enchant, tier: u8)
    requires
        Inventory::enchant_step(a, b, idx, e, tier),
    ensures
        b.point_budget() == a.point_budget(),
{
    let x = b.stash@[idx];
    assert(b.stash@ =~= a.stash@.update(idx, x));
    assert(x.enchants@.drop_last() =~= a.stash@[idx].enchants@);
    assert(tier_total(x.enchants@) == tier_total(a.stash@[idx].enchants@) + tier);
    lemma_items_total_update(a.stash@, idx, x);
    assert(b.equipped_items() == a.equipped_items());
    lemma_items_total_concat(a.equipped_items(), a.stash@);
    lemma_items_total_concat(b.equipped_items(), b.stash@);
}

/// Salvaging an item right after enchanting it refunds the points the
/// enchantment cost together with those spent on it before: the hero ends
/// with the points held before enchanting plus the item's earlier ones.
pub proof fn law_salvage_refunds_enchant(a: Inventory, b: Inventory, c: Inventory, idx: int, e: Enchant, tier: u8)
    requires
        Inventory::enchant_step(a, b, idx, e, tier),
        Inventory::salvage_step(b, c, idx),
    ensures
        c.enchant_points == a.enchant_points + tier_total(a.stash@[idx].enchants@),
{
    let x = b.stash@[idx];
    assert(x.enchants@.drop_last() =~= a.stash@[idx].enchants@);
    assert(tier_total(x.enchants@) == tier_total(a.stash@[idx].enchants@) + tier);
}

/// Salvaging refunds exactly the points spent on the salvaged item: the
/// points held plus the points spent on owned items stay the same.
pub proof fn law_salvage_keeps_point_budget(a: Inventory, b: Inventory, idx: int)
    requires
        Inventory::salvage_step(a, b, idx),
    ensures
        b.point_budget() == a.point_budget(),
{
    lemma_items_total_remove(a.stash@, idx);
    assert(b.equipped_items() == a.equipped_items());
    lemma_items_total_concat(a.equipped_items(), a.stash@);
    lemma_items_total_concat(b.equipped_items(), b.stash@);
}

/// Enchanting keeps an item within its rarity's enchantment slots and never
/// puts the same enchantment on it twice.
pub proof fn law_enchant_keeps_item_well_formed(a: Inventory, b: Inventory, idx: int, e: Enchant, tier: u8)
    requires
        Inventory::enchant_step(a, b, idx, e, tier),
        item_well_formed(a.stash@[idx]),
    ensures
        item_well_formed(b.stash@[idx]),
{
    let old_e = a.stash@[idx].enchants@;
    let new_e = b.stash@[idx].enchants@;
    assert forall|i: int, j: int| 0 <= i < j < new_e.len() implies #[trigger] new_e[i].0 != #[trigger] new_e[j].0 by {
        if j == old_e.len() {
            assert(new_e[i] == old_e[i]);
            assert(!has_enchant(old_e, e));
        } else {
            assert(new_e[i] == old_e[i] && new_e[j] == old_e[j]);
        }
    }
}

/// Index of the equipped armour's weight class (light 0, medium 1, heavy 2),
/// the row of the armour layer drawn on the hero.
pub open spec fn spec_armor_class_idx(inv: Inventory) -> Option<usize> {
    match inv.armor {
        Some(a) => match a.class {
            ItemClass::A(ArmorClass::Light) => Some(0usize),
            ItemClass::A(ArmorClass::Medium) => Some(1usize),
            ItemClass::A(ArmorClass::Heavy) => Some(2usize),
            _ => None,
        },
        None => None,
    }
}

pub fn armor_class_idx(inv: &Inventory) -> (r: Option<usize>)
    ensures
        r == spec_armor_class_idx(*inv),
{
    match &inv.armor {
        Some(a) => match a.class {
            ItemClass::A(ArmorClass::Light) => Some(0),
            ItemClass::A(ArmorClass::Medium) => Some(1),
            ItemClass::A(ArmorClass::Heavy) => Some(2),
            _ => None,
        },
        None => None,
    }
}

/// The items an optional slot holds, as a multiset.
pub open spec fn opt_ms(o: Option<Item>) -> Multiset<Item> {
    match o {
        Some(i) => Multiset::singleton(i),
        None => Multiset::empty(),
    }
}

/// The equipped items, as a multiset.
pub open spec fn equipment_ms(inv: Inventory) -> Multiset<Item> {
    opt_ms(inv.melee).add(opt_ms(inv.ranged)).add(opt_ms(inv.armor)).add(opt_ms(inv.artifacts[0])).add(
        opt_ms(inv.artifacts[1]),
    ).add(opt_ms(inv.artifacts[2]))
}

proof fn lemma_opt_ms(o: Option<Item>)
    ensures
        opt_items(o).to_multiset() == opt_ms(o),
{
    broadcast use vstd::seq_lib::group_to_multiset_ensures;
    broadcast use vstd::multiset::group_multiset_axioms;

    match o {
        Some(i) => {
            assert(opt_items(o) == Seq::<Item>::empty().push(i));
            assert(Seq::<Item>::empty().to_multiset() =~= Multiset::empty());
            assert(opt_items(o).to_multiset() =~= opt_ms(o));
        },
        None => {
            assert(opt_items(o).to_multiset() =~= opt_ms(o));
        },
    }
}

proof fn lemma_all_items_ms(inv: Inventory)
    ensures
        inv.spec_all_items().to_multiset() == equipment_ms(inv).add(inv.stash@.to_multiset()),
{
    broadcast use vstd::seq_lib::lemma_multiset_commutative;

    lemma_opt_ms(inv.melee);
    lemma_opt_ms(inv.ranged);
    lemma_opt_ms(inv.armor);
    lemma_opt_ms(inv.artifacts[0]);
    lemma_opt_ms(inv.artifacts[1]);
    lemma_opt_ms(inv.artifacts[2]);
    let s1 = opt_items(inv.melee);
    let s2 = s1 + opt_items(inv.ranged);
    let s3 = s2 + opt_items(inv.armor);
    let s4 = s3 + opt_items(inv.artifacts[0]);
    let s5 = s4 + opt_items(inv.artifacts[1]);
    let s6 = s5 + opt_items(inv.artifacts[2]);
    assert(s2.to_multiset() == s1.to_multiset().add(opt_items(inv.ranged).to_multiset()));
    assert(s3.to_multiset() == s2.to_multiset().add(opt_items(inv.armor).to_multiset()));
    assert(s4.to_multiset() == s3.to_multiset().add(opt_items(inv.artifacts[0]).to_multiset()));
    assert(s5.to_multiset() == s4.to_multiset().add(opt_items(inv.artifacts[1]).to_multiset()));
    assert(s6.to_multiset() == s5.to_multiset().add(opt_items(inv.artifacts[2]).to_multiset()));
    assert(inv.equipped_items() == s6);
    assert((s6 + inv.stash@).to_multiset() == s6.to_multiset().add(inv.stash@.to_multiset()));
}

/// How often `x` lies in equipment slot `j` (0 melee, 1 ranged, 2 armor,
/// 3..=5 artifacts).
spec fn slot_count(inv: Inventory, j: int, x: Item) -> nat {
    if j == 0 {
        opt_ms(inv.melee).count(x)
    } else if j == 1 {
        opt_ms(inv.ranged).count(x)
    } else if j == 2 {
        opt_ms(inv.armor).count(x)
    } else {
        opt_ms(inv.artifacts[j - 3]).count(x)
    }
}

/// Replacing the content `old_item` of one slot by `new_item` changes the
/// equipment multiset by exactly that exchange.
#[verifier::spinoff_prover]
#[verifier::rlimit(30)]
proof fn lemma_slot_exchange(a: Inventory, b: Inventory, s: Slot, ai: int, old_item: Option<Item>, new_item: Option<Item>)
    requires
        s != Slot::Artifact || 0 <= ai < 3,
        b.same_except_slot(a, s, ai),
        a.spec_slot(s, ai) == old_item,
        b.spec_slot(s, ai) == new_item,
    ensures
        equipment_ms(b).add(opt_ms(old_item)) == equipment_ms(a).add(opt_ms(new_item)),
{
    broadcast use vstd::multiset::group_multiset_axioms;

    let lhs = equipment_ms(b).add(opt_ms(old_item));
    let rhs = equipment_ms(a).add(opt_ms(new_item));
    let k = if s == Slot::Melee { 0 } else if s == Slot::Ranged { 1 } else if s == Slot::Armor { 2 } else { 3 + ai };
    assert forall|x: Item| #[trigger] lhs.count(x) == rhs.count(x) by {
        assert(equipment_ms(b).count(x) == slot_count(b, 0, x) + slot_count(b, 1, x) + slot_count(b, 2, x) + slot_count(b, 3, x) + slot_count(b, 4, x) + slot_count(b, 5, x));
        assert(equipment_ms(a).count(x) == slot_count(a, 0, x) + slot_count(a, 1, x) + slot_count(a, 2, x) + slot_count(a, 3, x) + slot_count(a, 4, x) + slot_count(a, 5, x));
        assert forall|j: int| 0 <= j < 6 && j != k implies #[trigger] slot_count(b, j, x) == slot_count(a, j, x) by {
            if j >= 3 {
                assert(b.artifacts[j - 3] == a.artifacts[j - 3]);
            }
        }
        assert(slot_count(b, k, x) == opt_ms(new_item).count(x));
        assert(slot_count(a, k, x) == opt_ms(old_item).count(x));
    }
    assert(lhs =~= rhs);
}

/// Equipping an item from the stash neither loses nor duplicates an item:
/// the item displaced from its slot goes back into the stash.
pub proof fn law_equip_from_stash_keeps_items(a: Inventory, b: Inventory, idx: int)
    requires
        0 <= idx < a.stash@.len(),
        Inventory::equip_step(a, a.stash@.remove(idx), a.stash@[idx], b),
    ensures
        b.spec_all_items().to_multiset() == a.spec_all_items().to_multiset(),
{
    broadcast use vstd::multiset::group_multiset_axioms;
    broadcast use vstd::seq_lib::group_to_multiset_ensures;

    let item = a.stash@[idx];
    let s = spec_slot_of(item.class);
    let ai = if s == Slot::Artifact { first_free_artifact(a.artifacts) } else { 0 };
    let d = a.spec_slot(s, ai);
    let base = a.stash@.remove(idx);
    lemma_all_items_ms(a);
    lemma_all_items_ms(b);
    lemma_slot_exchange(a, b, s, ai, d, Some(item));
    vstd::seq_lib::to_multiset_remove(a.stash@, idx);
    assert(b.stash@.to_multiset() == base.to_multiset().add(opt_ms(d))) by {
        match d {
            Some(x) => {
                vstd::seq_lib::to_multiset_build(base, x);
                assert(b.stash@.to_multiset() =~= base.to_multiset().add(opt_ms(d)));
            },
            None => {
                assert(b.stash@.to_multiset() =~= base.to_multiset().add(opt_ms(d)));
            },
        }
    }
    assert(a.stash@.to_multiset().count(item) >= 1) by {
        assert(a.stash@.contains(item));
    }
    assert(b.spec_all_items().to_multiset() =~= a.spec_all_items().to_multiset());
}

/// Equipping a new item (a purchase) adds exactly that item to what the
/// hero owns: the displaced item is kept in the stash, full or not.
pub proof fn law_equip_keeps_items(a: Inventory, b: Inventory, item: Item)
    requires
        Inventory::equip_step(a, a.stash@, item, b),
    ensures
        b.spec_all_items().to_multiset() == a.spec_all_items().to_multiset().insert(item),
{
    broadcast use vstd::multiset::group_multiset_axioms;
    broadcast use vstd::seq_lib::group_to_multiset_ensures;

    let s = spec_slot_of(item.class);
    let ai = if s == Slot::Artifact { first_free_artifact(a.artifacts) } else { 0 };
    let d = a.spec_slot(s, ai);
    lemma_all_items_ms(a);
    lemma_all_items_ms(b);
    lemma_slot_exchange(a, b, s, ai, d, Some(item));
    assert(b.stash@.to_multiset() == a.stash@.to_multiset().add(opt_ms(d))) by {
        match d {
            Some(x) => {
                vstd::seq_lib::to_multiset_build(a.stash@, x);
                assert(b.stash@.to_multiset() =~= a.stash@.to_multiset().add(opt_ms(d)));
            },
            None => {
                assert(b.stash@.to_multiset() =~= a.stash@.to_multiset().add(opt_ms(d)));
            },
        }
    }
    assert(b.spec_all_items().to_multiset() =~= a.spec_all_items().to_multiset().insert(item));
}

/// Taking an item off into a stash with room neither loses nor duplicates
/// an item.
pub proof fn law_unequip_keeps_items(a: Inventory, b: Inventory, slot_idx: int)
    requires
        0 <= slot_idx < 6,
        a.stash@.len() < STASH_CAP,
        Inventory::unequip_step(a, b, slot_idx),
    ensures
        b.spec_all_items().to_multiset() == a.spec_all_items().to_multiset(),
{
    broadcast use vstd::multiset::group_multiset_axioms;
    broadcast use vstd::seq_lib::group_to_multiset_ensures;

    let (s, ai) = equipment_slot(slot_idx);
    let taken = a.spec_slot(s, ai);
    lemma_all_items_ms(a);
    lemma_all_items_ms(b);
    lemma_slot_exchange(a, b, s, ai, taken, None);
    assert(b.stash@.to_multiset() == a.stash@.to_multiset().add(opt_ms(taken))) by {
        match taken {
            Some(x) => {
                vstd::seq_lib::to_multiset_build(a.stash@, x);
                assert(b.stash@.to_multiset() =~= a.stash@.to_multiset().add(opt_ms(taken)));
            },
            None => {
                assert(b.stash@.to_multiset() =~= a.stash@.to_multiset().add(opt_ms(taken)));
            },
        }
    }
    assert(b.spec_all_items().to_multiset() =~= a.spec_all_items().to_multiset());
}

} // verus!
