//! Menu navigation: the inventory grid and the enchant list.

use vstd::prelude::*;

verus! {

#[derive(Clone, Copy, PartialEq, Eq, Debug, Structural)]
pub struct UINav {
    pub up: bool,
    pub down: bool,
    pub left: bool,
    pub right: bool,
    pub confirm: bool,
    pub cancel: bool,
}

impl Default for UINav {
    fn default() -> (n: UINav)
        ensures
            !n.up && !n.down && !n.left && !n.right && !n.confirm && !n.cancel,
    {
        UINav { up: false, down: false, left: false, right: false, confirm: false, cancel: false }
    }
}

/// First action button of the inventory screen (Ôter/Équiper); 101 is
/// Enchanter, 102 Rebattre. Item slots are 0..6 (equipment) then 6.. (stash).
pub const ACTION_FIRST: usize = 100;
pub const ACTION_LAST: usize = 102;

pub open spec fn sat_sub(a: int, b: int) -> int {
    if a >= b { a - b } else { 0 }
}

pub open spec fn nav_left(sel: int, item_max: int) -> int {
    if sel >= 100 {
        if sel == 100 { sat_sub(item_max, 1) } else { sel - 1 }
    } else {
        sat_sub(sel, 1)
    }
}

pub open spec fn nav_right(sel: int, item_max: int) -> int {
    if sel >= 100 {
        if sel + 1 < 102 { sel + 1 } else { 102 }
    } else if sel + 1 >= item_max {
        100
    } else {
        sel + 1
    }
}

pub open spec fn nav_up(sel: int, item_max: int) -> int {
    if sel >= 100 { sat_sub(item_max, 1) } else { sat_sub(sel, 3) }
}

pub open spec fn nav_down(sel: int, item_max: int) -> int {
    if sel >= 100 { sel } else if sel + 3 >= item_max { 100 } else { sel + 3 }
}

pub open spec fn nav_clamp(sel: int, item_max: int) -> int {
    let cap = if sel >= 100 { 102 } else { sat_sub(item_max, 1) };
    if sel < cap { sel } else { cap }
}

/// The inventory cursor after one frame of navigation: left, right, up and
/// down applied in that order, then clamped to the slots and buttons.
pub open spec fn spec_inventory_nav(sel: int, stash_len: int, nav: UINav) -> int {
    let item_max = 6 + stash_len;
    let s1 = if nav.left { nav_left(sel, item_max) } else { sel };
    let s2 = if nav.right { nav_right(s1, item_max) } else { s1 };
    let s3 = if nav.up { nav_up(s2, item_max) } else { s2 };
    let s4 = if nav.down { nav_down(s3, item_max) } else { s3 };
    nav_clamp(s4, item_max)
}

/// Moves the inventory cursor (item slots `0..6 + stash_len`, buttons 100..=102).
pub fn inventory_nav(sel: usize, stash_len: usize, nav: UINav) -> (r: usize)
    requires
        sel < usize::MAX - 3,
        stash_len <= usize::MAX - 6,
    ensures
        r == spec_inventory_nav(sel as int, stash_len as int, nav),
{
    let item_max = 6 + stash_len;
    let mut sel = sel;
    if nav.left {
        sel = if sel >= 100 {
            if sel == 100 { item_max - 1 } else { sel - 1 }
        } else {
            if sel >= 1 { sel - 1 } else { 0 }
        };
    }
    if nav.right {
        sel = if sel >= 100 {
            if sel + 1 < 102 { sel + 1 } else { 102 }
        } else if sel + 1 >= item_max {
            100
        } else {
            sel + 1
        };
    }
    if nav.up {
        if sel >= 100 {
            sel = item_max - 1;
        } else {
            sel = if sel >= 3 { sel - 3 } else { 0 };
        }
    }
    if nav.down {
        if sel < 100 {
            let n = sel + 3;
            sel = if n >= item_max { 100 } else { n };
        }
    }
    let cap = if sel >= 100 { 102 } else { item_max - 1 };
    if sel < cap { sel } else { cap }
}

/// Whatever the key presses, the inventory cursor stays on an item slot or
/// an action button (with a stash of at most 94 items, so that slots and
/// buttons do not overlap).
pub proof fn law_inventory_nav_stays_in_range(sel: int, stash_len: int, nav: UINav)
    requires
        0 <= stash_len <= 94,
        0 <= sel,
    ensures
        ({
            let r = spec_inventory_nav(sel, stash_len, nav);
            (0 <= r < 6 + stash_len) || (100 <= r <= 102)
        }),
{
}

/// The enchant-list cursor (entries 200..200 + len) after up/down.
pub open spec fn spec_enchant_nav(sel: int, len: int, nav: UINav) -> int {
    let s1 = if nav.up {
        let i = sat_sub(sel - 200, 1);
        (if i < len - 1 { i } else { len - 1 }) + 200
    } else {
        sel
    };
    if nav.down {
        let i = s1 - 200 + 1;
        200 + if i < len - 1 { i } else { len - 1 }
    } else {
        s1
    }
}

/// Moves the cursor of the enchant list (entries `200..200 + len`).
pub fn enchant_nav(sel: usize, len: usize, nav: UINav) -> (r: usize)
    requires
        200 <= sel < usize::MAX,
        1 <= len <= usize::MAX - 200,
    ensures
        r == spec_enchant_nav(sel as int, len as int, nav),
{
    let mut sel = sel;
    if nav.up {
        let i = if sel - 200 >= 1 { sel - 200 - 1 } else { 0 };
        sel = (if i < len - 1 { i } else { len - 1 }) + 200;
    }
    if nav.down {
        let i = sel - 200 + 1;
        sel = 200 + if i < len - 1 { i } else { len - 1 };
    }
    sel
}

/// The enchant cursor never leaves the list once inside it.
pub proof fn law_enchant_nav_stays_in_list(sel: int, len: int, nav: UINav)
    requires
        200 <= sel < 200 + len,
        len >= 1,
    ensures
        200 <= spec_enchant_nav(sel, len, nav) < 200 + len,
{
}

} // verus!
