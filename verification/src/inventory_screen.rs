//! The inventory overlay of the camp and of a paused or running mission:
//! moving over the equipment slots, the stash, the action buttons (take
//! off / equip, enchant, salvage) and the enchant list, and what
//! activating them does to the shown hero's inventory.

use vstd::prelude::*;
use crate::game::Screen;
use crate::input::{enchant_nav, inventory_nav, sat_sub, spec_enchant_nav, spec_inventory_nav, UINav};
use crate::inventory::{offers_upto, spec_can_enchant, tier_total, Inventory};
use crate::items::{spec_price, Enchant};
use crate::menu::{hero_with, same_campaign, Menu, MenuAction};
use crate::progress::{PlayerSave, Save};

verus! {

/// Keys the inventory overlay reads besides the navigation keys.
#[derive(Clone, Copy, PartialEq, Eq, Debug, Structural)]
pub struct InventoryKeys {
    /// closes the overlay (Escape)
    pub escape: bool,
    /// activates the cursor (I)
    pub toggle: bool,
    /// activates the cursor during a mission (E)
    pub quick: bool,
}

/// The hero whose inventory is shown (the last one if `inv_player` is
/// past them).
pub open spec fn active_hero(m: Menu, s: Save) -> int {
    let last = s.players@.len() - 1;
    if m.inv_player < last { m.inv_player as int } else { last }
}

/// The enchant list, when shown, is not empty and its cursor is on it.
pub open spec fn enchant_list_ok(m: Menu) -> bool {
    m.inv_enchant matches Some(l) ==> 1 <= l@.len() <= usize::MAX - 200 && 200 <= m.inv_sel < 200 + l@.len()
}

/// The entries of the enchant list shown (empty when none is).
pub open spec fn shown_list(m: Menu) -> Seq<(Enchant, u8, u32)> {
    match m.inv_enchant {
        Some(l) => l@,
        None => Seq::empty(),
    }
}

/// One frame of the inventory overlay's navigation. With the enchant list
/// shown: up / down move in it and cancel closes it (cursor back on the
/// first action button); confirm then activates. Otherwise: the cursor
/// moves (see `spec_inventory_nav`), an item slot under it becomes the
/// slot the buttons work on, Escape or cancel close the overlay (and in
/// the camp go back to the map tab); confirm or I then activate, and E
/// once more during a mission.
pub open spec fn inventory_nav_step(m: Menu, s: Save, nav: UINav, keys: InventoryKeys) -> (Menu, int) {
    match m.inv_enchant {
        Some(l) => {
            let sel = spec_enchant_nav(m.inv_sel as int, l@.len() as int, nav);
            let m1 = if nav.cancel {
                Menu { inv_enchant: None, inv_sel: 100, ..m }
            } else {
                Menu { inv_sel: sel as usize, ..m }
            };
            (m1, if nav.confirm { 1int } else { 0int })
        },
        None => {
            let stash = s.players@[active_hero(m, s)].inventory.stash@.len();
            let sel = spec_inventory_nav(m.inv_sel as int, stash as int, nav);
            let m1 = Menu { inv_sel: sel as usize, inv_item_sel: if sel < 100 { sel as usize } else { m.inv_item_sel }, ..m };
            let m2 = if keys.escape || nav.cancel {
                Menu { inv_open: false, tab: if m.screen == Screen::Playing { m.tab } else { 0 }, inv_enchant: None, ..m1 }
            } else {
                m1
            };
            let n = (if nav.confirm || keys.toggle { 1int } else { 0int }) + (if keys.quick && m.screen
                == Screen::Playing { 1int } else { 0int });
            (m2, n)
        },
    }
}

/// The choice of entry `inv_sel - 200` of the enchant list: the stash item
/// the buttons work on gets that enchantment when the hero has the points
/// and the item takes it (see `Inventory::enchant`); the list then closes.
pub open spec fn enchant_chosen(m0: Menu, s0: Save, m1: Menu, s1: Save) -> bool {
    let k = active_hero(m0, s0);
    let inv0 = s0.players@[k].inventory;
    let list = shown_list(m0);
    let i = m0.inv_sel - 200;
    let idx = sat_sub(m0.inv_item_sel as int, 6);
    let ok = m0.inv_sel >= 200 && i < list.len() && inv0.enchant_points >= list[i].2 && idx < inv0.stash@.len()
        && spec_can_enchant(inv0.enchant_points, inv0.stash@[idx], list[i].0, list[i].1);
    if ok {
        &&& m1 == (Menu { inv_enchant: None, ..m0 })
        &&& s1.emeralds == s0.emeralds && same_campaign(s0, s1)
        &&& exists|inv: Inventory| #![trigger hero_with(s0, s1, k, inv)]
            hero_with(s0, s1, k, inv) && Inventory::enchant_step(inv0, inv, idx, list[i].0, list[i].1)
    } else {
        m1 == m0 && s1 == s0
    }
}

/// Emeralds paid back for salvaging `it`.
pub open spec fn salvage_value(it: crate::items::Item) -> nat {
    crate::rounding::f32_share_035(spec_price(it.rarity, it.power) as u32) + 5 * tier_total(it.enchants@)
}

/// Pressing action button `inv_sel` (100 take off / equip, 101 enchant,
/// 102 salvage) on the item slot the buttons work on.
pub open spec fn button_pressed(m0: Menu, s0: Save, m1: Menu, s1: Save, acts: Seq<MenuAction>) -> bool {
    let k = active_hero(m0, s0);
    let inv0 = s0.players@[k].inventory;
    let item = m0.inv_item_sel as int;
    let idx = sat_sub(item, 6);
    if m0.inv_sel == 100 {
        &&& acts == seq![MenuAction::RefreshArmor]
        &&& if item < 6 {
            &&& m1 == (Menu { inv_sel: 100, ..m0 })
            &&& s1.emeralds == s0.emeralds && same_campaign(s0, s1)
            &&& exists|inv: Inventory| #![trigger hero_with(s0, s1, k, inv)]
                hero_with(s0, s1, k, inv) && Inventory::unequip_step(inv0, inv, item)
        } else if idx < inv0.stash@.len() {
            &&& m1 == (Menu { inv_sel: 100, inv_item_sel: 5, ..m0 })
            &&& s1.emeralds == s0.emeralds && same_campaign(s0, s1)
            &&& exists|inv: Inventory| #![trigger hero_with(s0, s1, k, inv)]
                hero_with(s0, s1, k, inv) && Inventory::equip_step(inv0, inv0.stash@.remove(idx), inv0.stash@[idx], inv)
        } else {
            m1 == (Menu { inv_sel: 100, ..m0 }) && s1 == s0
        }
    } else if m0.inv_sel == 101 {
        &&& acts.len() == 0
        &&& s1 == s0
        &&& if idx < inv0.stash@.len() && offers_upto(inv0.stash@[idx], 8).len() > 0 {
            &&& m1 == (Menu { inv_enchant: m1.inv_enchant, inv_sel: 200, ..m0 })
            &&& shown_list(m1) == offers_upto(inv0.stash@[idx], 8)
            &&& m1.inv_enchant is Some
        } else {
            m1 == m0
        }
    } else if m0.inv_sel == 102 {
        if idx < inv0.stash@.len() {
            &&& m1 == (Menu { inv_sel: 102, inv_item_sel: (if sat_sub(item, 1) > 6 { sat_sub(item, 1) } else { 6 }) as usize, ..m0 })
            &&& acts == seq![MenuAction::Store, MenuAction::RefreshArmor]
            &&& s1.emeralds == s0.emeralds + salvage_value(inv0.stash@[idx]) && same_campaign(s0, s1)
            &&& exists|inv: Inventory| #![trigger hero_with(s0, s1, k, inv)]
                hero_with(s0, s1, k, inv) && Inventory::salvage_step(inv0, inv, idx)
        } else {
            m1 == (Menu { inv_sel: 102, ..m0 }) && s1 == s0 && acts.len() == 0
        }
    } else {
        m1 == m0 && s1 == s0 && acts.len() == 0
    }
}

/// Activating item slot `inv_sel` (0..6 equipment, then the stash): it
/// becomes the slot the buttons work on; an equipment slot is taken off,
/// a stash item equipped.
pub open spec fn slot_activated(m0: Menu, s0: Save, m1: Menu, s1: Save, acts: Seq<MenuAction>) -> bool {
    let k = active_hero(m0, s0);
    let inv0 = s0.players@[k].inventory;
    let sel = m0.inv_sel as int;
    let idx = sel - 6;
    &&& m1 == (Menu { inv_item_sel: m0.inv_sel, ..m0 })
    &&& acts == seq![MenuAction::RefreshArmor, MenuAction::Store]
    &&& if sel < 6 {
        &&& s1.emeralds == s0.emeralds && same_campaign(s0, s1)
        &&& exists|inv: Inventory| #![trigger hero_with(s0, s1, k, inv)]
            hero_with(s0, s1, k, inv) && Inventory::unequip_step(inv0, inv, sel)
    } else if idx < inv0.stash@.len() {
        &&& s1.emeralds == s0.emeralds && same_campaign(s0, s1)
        &&& exists|inv: Inventory| #![trigger hero_with(s0, s1, k, inv)]
            hero_with(s0, s1, k, inv) && Inventory::equip_step(inv0, inv0.stash@.remove(idx), inv0.stash@[idx], inv)
    } else {
        s1 == s0
    }
}

/// Activating the cursor of the inventory overlay: an entry of the enchant
/// list if shown, else an action button, else an item slot.
pub open spec fn inventory_activated(m0: Menu, s0: Save, m1: Menu, s1: Save, acts: Seq<MenuAction>) -> bool {
    if m0.inv_enchant is Some {
        enchant_chosen(m0, s0, m1, s1) && acts.len() == 0
    } else if m0.inv_sel >= 100 {
        button_pressed(m0, s0, m1, s1, acts)
    } else {
        slot_activated(m0, s0, m1, s1, acts)
    }
}

/// What activating the cursor needs: a hero to show, and salvage numbers
/// that fit.
pub open spec fn activation_ok(m: Menu, s: Save) -> bool {
    &&& s.players@.len() > 0
    &&& {
        let inv = s.players@[active_hero(m, s)].inventory;
        let idx = sat_sub(m.inv_item_sel as int, 6);
        m.inv_enchant is None && m.inv_sel == 102 && idx < inv.stash@.len() ==> {
            &&& inv.enchant_points + tier_total(inv.stash@[idx].enchants@) <= u32::MAX
            &&& s.emeralds + salvage_value(inv.stash@[idx]) <= u32::MAX
        }
    }
}

/// Index of the shown hero.
fn active_index(m: &Menu, s: &Save) -> (k: usize)
    requires
        s.players@.len() > 0,
    ensures
        k == active_hero(*m, *s),
        k < s.players@.len(),
{
    let last = s.players.len() - 1;
    if m.inv_player < last { m.inv_player } else { last }
}

/// Replaces the inventory of hero `k` (taken out, changed, put back).
fn take_hero(save: &mut Save, k: usize) -> (p: PlayerSave)
    requires
        k < old(save).players@.len(),
    ensures
        p == old(save).players@[k as int],
        final(save).players@ == old(save).players@.remove(k as int),
        final(save).emeralds == old(save).emeralds,
        same_campaign(*old(save), *final(save)),
{
    save.players.remove(k)
}

fn put_hero(save: &mut Save, k: usize, p: PlayerSave)
    requires
        k <= old(save).players@.len(),
    ensures
        final(save).players@ == old(save).players@.insert(k as int, p),
        final(save).emeralds == old(save).emeralds,
        same_campaign(*old(save), *final(save)),
{
    save.players.insert(k, p);
}

impl Menu {
    /// One frame of the inventory overlay's navigation (see
    /// `inventory_nav_step`); returns how many times the cursor is then to
    /// be activated (`inventory_activate`).
    pub fn inventory_frame(&mut self, nav: UINav, keys: InventoryKeys, save: &Save) -> (n: usize)
        requires
            save.players@.len() > 0,
            enchant_list_ok(*old(self)),
            old(self).inv_sel < usize::MAX - 3,
            save.players@[active_hero(*old(self), *save)].inventory.stash@.len() <= usize::MAX - 6,
        ensures
            (*final(self), n as int) == inventory_nav_step(*old(self), *save, nav, keys),
    {
        let shown = match &self.inv_enchant {
            Some(l) => Some(l.len()),
            None => None,
        };
        match shown {
            Some(len) => {
                let sel = enchant_nav(self.inv_sel, len, nav);
                if nav.cancel {
                    self.inv_enchant = None;
                    self.inv_sel = 100;
                } else {
                    self.inv_sel = sel;
                }
                if nav.confirm { 1 } else { 0 }
            },
            None => {
                let k = active_index(self, save);
                let stash = save.players[k].inventory.stash.len();
                self.inv_sel = inventory_nav(self.inv_sel, stash, nav);
                if self.inv_sel < 100 {
                    self.inv_item_sel = self.inv_sel;
                }
                if keys.escape || nav.cancel {
                    self.inv_open = false;
                    if self.screen != Screen::Playing {
                        self.tab = 0;
                    }
                    self.inv_enchant = None;
                }
                let a: usize = if nav.confirm || keys.toggle { 1 } else { 0 };
                let b: usize = if keys.quick && self.screen == Screen::Playing { 1 } else { 0 };
                a + b
            },
        }
    }

    fn choose_enchant(&mut self, save: &mut Save)
        requires
            old(save).players@.len() > 0,
            old(self).inv_enchant is Some,
        ensures
            enchant_chosen(*old(self), *old(save), *final(self), *final(save)),
    {
        let k = active_index(self, save);
        let idx = if self.inv_item_sel >= 6 { self.inv_item_sel - 6 } else { 0 };
        let pick = match &self.inv_enchant {
            Some(l) => if self.inv_sel >= 200 && self.inv_sel - 200 < l.len() {
                Some(l[self.inv_sel - 200])
            } else {
                None
            },
            None => None,
        };
        match pick {
            Some((e, tier, cost)) => {
                let inv = &save.players[k].inventory;
                if inv.enchant_points >= cost && idx < inv.stash.len() && inv.can_enchant(&inv.stash[idx], e, tier) {
                    let p = take_hero(save, k);
                    let ghost p0 = p;
                    let mut inv = p.inventory;
                    let ok = inv.enchant(idx, e, tier);
                    let ghost inv1 = inv;
                    put_hero(save, k, PlayerSave { inventory: inv, ..p });
                    assert(save.players@ =~= old(save).players@.update(k as int, PlayerSave { inventory: inv1, ..p0 }));
                    assert(hero_with(*old(save), *save, k as int, inv1));
                    self.inv_enchant = None;
                }
            },
            None => {},
        }
    }

    fn press_button(&mut self, save: &mut Save) -> (acts: Vec<MenuAction>)
        requires
            activation_ok(*old(self), *old(save)),
            old(self).inv_enchant is None,
            old(self).inv_sel >= 100,
        ensures
            button_pressed(*old(self), *old(save), *final(self), *final(save), acts@),
    {
        let mut acts: Vec<MenuAction> = Vec::new();
        let k = active_index(self, save);
        let item = self.inv_item_sel;
        let idx = if item >= 6 { item - 6 } else { 0 };
        if self.inv_sel == 100 {
            if item < 6 {
                let p = take_hero(save, k);
                let ghost p0 = p;
                let mut inv = p.inventory;
                inv.unequip(item);
                let ghost inv1 = inv;
                put_hero(save, k, PlayerSave { inventory: inv, ..p });
                assert(save.players@ =~= old(save).players@.update(k as int, PlayerSave { inventory: inv1, ..p0 }));
                assert(hero_with(*old(save), *save, k as int, inv1));
            } else if idx < save.players[k].inventory.stash.len() {
                let p = take_hero(save, k);
                let ghost p0 = p;
                let mut inv = p.inventory;
                let ok = inv.equip_from_stash(idx);
                let ghost inv1 = inv;
                put_hero(save, k, PlayerSave { inventory: inv, ..p });
                assert(save.players@ =~= old(save).players@.update(k as int, PlayerSave { inventory: inv1, ..p0 }));
                assert(hero_with(*old(save), *save, k as int, inv1));
                self.inv_item_sel = 5;
            }
            self.inv_sel = 100;
            acts.push(MenuAction::RefreshArmor);
            assert(acts@ =~= seq![MenuAction::RefreshArmor]);
        } else if self.inv_sel == 101 {
            if idx < save.players[k].inventory.stash.len() {
                let list = Inventory::enchant_options(&save.players[k].inventory.stash[idx]);
                if list.len() > 0 {
                    self.inv_enchant = Some(list);
                    self.inv_sel = 200;
                }
            }
        } else if self.inv_sel == 102 {
            if idx < save.players[k].inventory.stash.len() {
                let p = take_hero(save, k);
                let ghost p0 = p;
                let mut inv = p.inventory;
                let r = inv.salvage(idx);
                let ghost inv1 = inv;
                put_hero(save, k, PlayerSave { inventory: inv, ..p });
                assert(save.players@ =~= old(save).players@.update(k as int, PlayerSave { inventory: inv1, ..p0 }));
                assert(hero_with(*old(save), *save, k as int, inv1));
                match r {
                    Some((em, _pts)) => {
                        save.emeralds = save.emeralds + em;
                    },
                    None => {},
                }
                assert(hero_with(*old(save), *save, k as int, inv1));
                acts.push(MenuAction::Store);
                self.inv_item_sel = if item >= 1 && item - 1 > 6 { item - 1 } else { 6 };
                acts.push(MenuAction::RefreshArmor);
                assert(acts@ =~= seq![MenuAction::Store, MenuAction::RefreshArmor]);
            }
            self.inv_sel = 102;
        }
        acts
    }

    fn activate_slot(&mut self, save: &mut Save) -> (acts: Vec<MenuAction>)
        requires
            old(save).players@.len() > 0,
            old(self).inv_sel < 100,
        ensures
            slot_activated(*old(self), *old(save), *final(self), *final(save), acts@),
    {
        let k = active_index(self, save);
        let sel = self.inv_sel;
        self.inv_item_sel = sel;
        if sel < 6 {
            let p = take_hero(save, k);
            let ghost p0 = p;
            let mut inv = p.inventory;
            inv.unequip(sel);
            let ghost inv1 = inv;
            put_hero(save, k, PlayerSave { inventory: inv, ..p });
            assert(save.players@ =~= old(save).players@.update(k as int, PlayerSave { inventory: inv1, ..p0 }));
            assert(hero_with(*old(save), *save, k as int, inv1));
        } else if sel - 6 < save.players[k].inventory.stash.len() {
            let p = take_hero(save, k);
            let ghost p0 = p;
            let mut inv = p.inventory;
            let ok = inv.equip_from_stash(sel - 6);
            let ghost inv1 = inv;
            put_hero(save, k, PlayerSave { inventory: inv, ..p });
            assert(save.players@ =~= old(save).players@.update(k as int, PlayerSave { inventory: inv1, ..p0 }));
            assert(hero_with(*old(save), *save, k as int, inv1));
        }
        let mut acts: Vec<MenuAction> = Vec::new();
        acts.push(MenuAction::RefreshArmor);
        acts.push(MenuAction::Store);
        assert(acts@ =~= seq![MenuAction::RefreshArmor, MenuAction::Store]);
        acts
    }

    /// Activates the cursor of the inventory overlay (see
    /// `inventory_activated`).
    pub fn inventory_activate(&mut self, save: &mut Save) -> (acts: Vec<MenuAction>)
        requires
            activation_ok(*old(self), *old(save)),
        ensures
            inventory_activated(*old(self), *old(save), *final(self), *final(save), acts@),
    {
        if self.inv_enchant.is_some() {
            self.choose_enchant(save);
            Vec::new()
        } else if self.inv_sel >= 100 {
            self.press_button(save)
        } else {
            self.activate_slot(save)
        }
    }

    /// Whether `inventory_frame` may be called: a hero to show, the
    /// enchant list (if shown) with its cursor on it, cursor and stash far
    /// from the end of `usize`.
    pub fn inventory_frame_possible(&self, save: &Save) -> (b: bool)
        ensures
            b == (save.players@.len() > 0 && enchant_list_ok(*self) && self.inv_sel < usize::MAX - 3
                && save.players@[active_hero(*self, *save)].inventory.stash@.len() <= usize::MAX - 6),
    {
        if save.players.len() == 0 || self.inv_sel >= usize::MAX - 3 {
            return false;
        }
        let list_ok = match &self.inv_enchant {
            Some(l) => 1 <= l.len() && l.len() <= usize::MAX - 200 && 200 <= self.inv_sel && self.inv_sel - 200 < l.len(),
            None => true,
        };
        let k = active_index(self, save);
        list_ok && save.players[k].inventory.stash.len() <= usize::MAX - 6
    }

    /// Whether the cursor may be activated (see `activation_ok`).
    pub fn activation_possible(&self, save: &Save) -> (b: bool)
        ensures
            b == activation_ok(*self, *save),
    {
        if save.players.len() == 0 {
            return false;
        }
        let k = active_index(self, save);
        let inv = &save.players[k].inventory;
        let idx = if self.inv_item_sel >= 6 { self.inv_item_sel - 6 } else { 0 };
        if self.inv_enchant.is_none() && self.inv_sel == 102 && idx < inv.stash.len() {
            let it = &inv.stash[idx];
            match crate::inventory::tier_sum_upto(&it.enchants, u32::MAX as u64) {
                Some(pts) => {
                    let value = crate::rounding::share_035(it.price()) as u64 + 5 * pts;
                    inv.enchant_points as u64 + pts <= u32::MAX as u64 && save.emeralds as u64 + value <= u32::MAX as u64
                },
                None => false,
            }
        } else {
            true
        }
    }
}

} // verus!
