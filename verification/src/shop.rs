//! Camp vendors: merchant stock + blacksmith upgrade pricing.

use vstd::prelude::*;
use crate::inventory::Inventory;
use crate::items::{
    forge_cost_rarity, gen_item, pick_artifact, spec_price, spec_rarity_base, spec_unique_name, unique_name,
    Item, ItemClass, Rarity,
};
use crate::rng::{roll_below, thread_rng};

verus! {

pub struct Camp {
    /// (item, price) — restocked after each completed mission
    pub stock: Vec<(Item, u32)>,
    pub artifacts_stock: Vec<(Item, u32)>,
}

/// A freshly generated shop entry: no enchantment, power in `lo..=hi`,
/// named by its own class's unique name when unique (else unnamed), and
/// priced at `Item::price`.
pub open spec fn fresh_offer(entry: (Item, u32), lo: int, hi: int) -> bool {
    let it = entry.0;
    &&& lo <= it.power <= hi
    &&& it.enchants@.len() == 0
    &&& it.name@ == if it.rarity == Rarity::Unique { spec_unique_name(it.class) } else { Seq::empty() }
    &&& entry.1 == spec_price(it.rarity, it.power)
}

/// Blacksmith price: rarity base × current power.
pub open spec fn spec_forge_price(rarity: Rarity, power: u32) -> nat {
    spec_rarity_base(rarity) * (power as nat)
}

/// `b`, `e1`, `inv1` are the merchant, the emeralds and the inventory
/// after buying entry `i` of `a` with `e0` emeralds and inventory `inv0`
/// (`ok`: the purchase happened): the price is paid, the entry leaves the
/// stock and the item is equipped (see `Inventory::equip`); nothing
/// changes when there is no such entry or not enough emeralds.
pub open spec fn bought(a: Camp, b: Camp, e0: u32, e1: u32, inv0: Inventory, inv1: Inventory, i: int, ok: bool) -> bool {
    &&& ok == (0 <= i < a.stock@.len() && e0 >= a.stock@[i].1)
    &&& b.artifacts_stock@ == a.artifacts_stock@
    &&& ok ==> {
        &&& e1 == e0 - a.stock@[i].1
        &&& b.stock@ == a.stock@.remove(i)
        &&& Inventory::equip_step(inv0, inv0.stash@, a.stock@[i].0, inv1)
    }
    &&& !ok ==> e1 == e0 && b.stock@ == a.stock@ && inv1 == inv0
}

/// The blacksmith's price and the upgrade of stash item `i` fit in a `u32`.
pub open spec fn forge_affordable_limits(inv: Inventory, i: int) -> bool {
    0 <= i < inv.stash@.len() ==> spec_forge_price(inv.stash@[i].rarity, inv.stash@[i].power) <= u32::MAX
        && inv.stash@[i].power < u32::MAX
}

/// `inv1`, `e1` are the inventory and emeralds after the blacksmith
/// service on stash item `i` (`ok`: it happened): the price is paid and
/// the item gains one power, the rest unchanged; nothing changes when
/// there is no such item or not enough emeralds.
pub open spec fn forged(inv0: Inventory, inv1: Inventory, e0: u32, e1: u32, i: int, ok: bool) -> bool {
    &&& ok == (0 <= i < inv0.stash@.len() && e0 >= spec_forge_price(inv0.stash@[i].rarity, inv0.stash@[i].power))
    &&& ok ==> {
        &&& e1 == e0 - spec_forge_price(inv0.stash@[i].rarity, inv0.stash@[i].power)
        &&& inv1.stash@.len() == inv0.stash@.len()
        &&& forall|j: int| 0 <= j < inv0.stash@.len() && j != i ==> #[trigger] inv1.stash@[j] == inv0.stash@[j]
        &&& ({
            let a = inv0.stash@[i];
            let b = inv1.stash@[i];
            b.power == a.power + 1 && b.name == a.name && b.class == a.class && b.rarity == a.rarity
                && b.enchants == a.enchants
        })
        &&& inv1.same_equipment(inv0) && inv1.enchant_points == inv0.enchant_points
    }
    &&& !ok ==> e1 == e0 && inv1 == inv0
}

impl Default for Camp {
    fn default() -> (c: Camp)
        ensures
            c.stock@.len() == 0,
            c.artifacts_stock@.len() == 0,
    {
        Camp::new()
    }
}

impl Camp {
    pub fn new() -> (c: Camp)
        ensures
            c.stock@.len() == 0,
            c.artifacts_stock@.len() == 0,
    {
        Camp { stock: Vec::new(), artifacts_stock: Vec::new() }
    }

    /// Restocks the merchant: four random items of power `player_power + 1`
    /// or `+ 2` (luck 2 %), and two random artifacts of power
    /// `player_power + 1` (luck 50 %), each priced at `Item::price`; a
    /// unique artifact carries the name of its artifact kind.
    pub fn restock(&mut self, player_power: u32)
        requires
            player_power <= u32::MAX - 2,
        ensures
            final(self).stock@.len() == 4,
            forall|i: int|
                0 <= i < 4 ==> fresh_offer(
                    #[trigger] final(self).stock@[i],
                    player_power + 1,
                    player_power + 2,
                ),
            final(self).artifacts_stock@.len() == 2,
            forall|i: int|
                0 <= i < 2 ==> fresh_offer(
                    #[trigger] final(self).artifacts_stock@[i],
                    player_power + 1,
                    player_power + 1,
                ) && final(self).artifacts_stock@[i].0.class is Art,
    {
        let mut rng = thread_rng();
        self.stock = Vec::new();
        let mut k: u32 = 0;
        while k < 4
            invariant
                0 <= k <= 4,
                player_power <= u32::MAX - 2,
                self.stock@.len() == k,
                forall|i: int|
                    0 <= i < k ==> fresh_offer(#[trigger] self.stock@[i], player_power + 1, player_power + 2),
            decreases 4 - k,
        {
            let power = player_power + 1 + roll_below(&mut rng, 2);
            let item = gen_item(&mut rng, if power < 1 { 1 } else { power }, 2);
            let price = item.price();
            self.stock.push((item, price));
            k += 1;
        }
        self.artifacts_stock = Vec::new();
        let mut k: u32 = 0;
        while k < 2
            invariant
                0 <= k <= 2,
                player_power <= u32::MAX - 2,
                self.artifacts_stock@.len() == k,
                self.stock@.len() == 4,
                forall|i: int|
                    0 <= i < 4 ==> fresh_offer(#[trigger] self.stock@[i], player_power + 1, player_power + 2),
                forall|i: int|
                    0 <= i < k ==> fresh_offer(
                        #[trigger] self.artifacts_stock@[i],
                        player_power + 1,
                        player_power + 1,
                    ) && self.artifacts_stock@[i].0.class is Art,
            decreases 2 - k,
        {
            let power = player_power + 1;
            let mut item = gen_item(&mut rng, power, 50);
            item.class = ItemClass::Art(pick_artifact(roll_below(&mut rng, 6)));
            if item.rarity == Rarity::Unique {
                let n = unique_name(&item.class);
                item.name = match n {
                    Some(s) => String::from_str(s),
                    None => String::from_str("Relique"),
                };
            }
            let price = item.price();
            self.artifacts_stock.push((item, price));
            k += 1;
        }
    }

    /// Buys merchant entry `i`: pays its price and equips the item (see
    /// `Inventory::equip`); false and nothing changes when there is no such
    /// entry or not enough emeralds.
    pub fn buy(&mut self, i: usize, emeralds: &mut u32, inv: &mut Inventory) -> (ok: bool)
        ensures
            bought(*old(self), *final(self), *old(emeralds), *final(emeralds), *old(inv), *final(inv), i as int, ok),
    {
        if i >= self.stock.len() {
            return false;
        }
        let price = self.stock[i].1;
        if *emeralds < price {
            return false;
        }
        *emeralds = *emeralds - price;
        let (item, _p) = self.stock.remove(i);
        inv.equip(item);
        true
    }
}

/// Whether the blacksmith's price of `item` fits in a `u32`.
pub fn forge_price_fits(item: &Item) -> (b: bool)
    ensures
        b == (spec_forge_price(item.rarity, item.power) <= u32::MAX),
{
    let base = forge_cost_rarity(item.rarity) as u64;
    let k = item.power as u64;
    assert(base * k <= 190 * 0x1_0000_0000) by (nonlinear_arith)
        requires
            base <= 190,
            k < 0x1_0000_0000,
    ;
    base * k <= u32::MAX as u64
}

/// Blacksmith upgrade cost: the rarity's base cost × the current power.
pub fn forge_price(item: &Item) -> (p: u32)
    requires
        spec_forge_price(item.rarity, item.power) <= u32::MAX,
    ensures
        p == spec_forge_price(item.rarity, item.power),
{
    let base = forge_cost_rarity(item.rarity);
    base * item.power
}

/// Blacksmith: upgrade item power by 1.
pub fn forge_upgrade(item: &mut Item)
    requires
        old(item).power < u32::MAX,
    ensures
        final(item).power == old(item).power + 1,
        final(item).name == old(item).name,
        final(item).class == old(item).class,
        final(item).rarity == old(item).rarity,
        final(item).enchants == old(item).enchants,
{
    item.power += 1;
}

/// Blacksmith service on stash item `i`: pays `forge_price` and upgrades
/// it; false and nothing changes when there is no such item or not enough
/// emeralds.
pub fn forge_stash_item(inv: &mut Inventory, i: usize, emeralds: &mut u32) -> (ok: bool)
    requires
        forge_affordable_limits(*old(inv), i as int),
    ensures
        forged(*old(inv), *final(inv), *old(emeralds), *final(emeralds), i as int, ok),
{
    if i >= inv.stash.len() {
        return false;
    }
    let price = forge_price(&inv.stash[i]);
    if *emeralds < price {
        return false;
    }
    *emeralds = *emeralds - price;
    let ghost before = inv.stash@;
    let mut it = inv.stash.remove(i);
    forge_upgrade(&mut it);
    inv.stash.insert(i, it);
    assert forall|j: int| 0 <= j < before.len() && j != i implies #[trigger] inv.stash@[j] == before[j] by {
        if j > i {
            assert(inv.stash@[j] == before.remove(i as int)[j - 1]);
        }
    }
    true
}

/// A more powerful item never costs less at the merchant.
pub proof fn law_price_grows_with_power(r: Rarity, p1: u32, p2: u32)
    requires
        p1 <= p2,
    ensures
        spec_price(r, p1) <= spec_price(r, p2),
{
    crate::rounding::lemma_f32_price_mono(spec_rarity_base(r), p1, p2);
}

/// Forging never makes the next upgrade cheaper.
pub proof fn law_forge_price_grows_with_power(r: Rarity, p1: u32, p2: u32)
    requires
        p1 <= p2,
    ensures
        spec_forge_price(r, p1) <= spec_forge_price(r, p2),
{
    let b = spec_rarity_base(r);
    assert(b * (p1 as nat) <= b * (p2 as nat)) by (nonlinear_arith)
        requires
            p1 <= p2,
    ;
}

} // verus!
