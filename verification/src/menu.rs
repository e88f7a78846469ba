//! The menus between missions: main menu with its hero editor, the camp
//! (missions, merchant, blacksmith), the pause menu and the end screen.
//! Every frame the front end hands the navigation keys to one of the
//! `*_frame` functions below, which update the menu state (and the save)
//! and answer with the work left to the front end, in order.

use vstd::prelude::*;
use crate::audio::{Music, Sfx};
use crate::game::Screen;
use crate::input::{sat_sub, UINav};
use crate::missions::{mission_is_secret, MISSION_COUNT};
use crate::progress::{spec_is_unlocked, Save};
use crate::inventory::Inventory;
use crate::items::Enchant;
use crate::progress::{tier_unlocked_after, add_once, PlayerSave};
use crate::shop::{bought, forge_affordable_limits, forge_stash_item, forged, fresh_offer, Camp};

verus! {

/// Where the menus stand.
pub struct Menu {
    pub screen: Screen,
    /// cursor of the current screen
    pub sel: usize,
    /// camp tab: 0 map, 1 merchant, 2 blacksmith
    pub tab: usize,
    /// the controls overlay of the main menu is shown
    pub show_controls: bool,
    /// the hero editor is open
    pub hero_open: bool,
    /// skin previewed in the hero editor
    pub hero_sel: usize,
    /// hero editor cursor: 0 previous, 1 next, 2 apply, 3 back
    pub hero_cursor: usize,
    /// the inventory overlay is open
    pub inv_open: bool,
    /// hero whose inventory is shown
    pub inv_player: usize,
    /// inventory cursor: item slots 0..6 (equipment) and 6.. (stash),
    /// action buttons 100..=102, enchant list entries from 200
    pub inv_sel: usize,
    /// last item slot selected (the action buttons work on it)
    pub inv_item_sel: usize,
    /// the enchant list shown: (enchantment, tier, cost)
    pub inv_enchant: Option<Vec<(Enchant, u8, u32)>>,
    /// the mission is paused
    pub paused: bool,
    /// mission launched by the camp's launch button
    pub selected_mission: Option<usize>,
    /// the last mission was won (end screen)
    pub end_victory: bool,
}

/// Work the menus leave to the front end.
#[derive(Clone, Copy, PartialEq, Eq, Debug, Structural)]
pub enum MenuAction {
    /// show skin `i` on the menu hero
    PreviewSkin(usize),
    /// make skin `i` the first hero's skin
    ApplySkin(usize),
    /// start mission `m`
    StartMission(usize),
    /// end the running mission (won or not)
    FinishMission(bool),
    /// toggle split-screen co-op
    ToggleCoop,
    /// re-dress the heroes in their equipped armour
    RefreshArmor,
    /// write the save file
    Store,
    /// forget the finished mission
    DropGame,
    PlayMusic(Music),
    PlaySound(Sfx),
    /// write the save file and leave the game
    Quit,
}

/// Keys the menus read besides the navigation keys.
#[derive(Clone, Copy, PartialEq, Eq, Debug, Structural)]
pub struct MenuKeys {
    /// opens the hero editor from the main menu (H)
    pub hero_editor: bool,
    /// shows the controls (F1 / F2)
    pub controls: bool,
    /// pauses a mission (Escape)
    pub escape: bool,
    /// opens the inventory during a mission (I / Tab)
    pub inventory: bool,
    /// opens the inventory during a mission from a gamepad (F1)
    pub pad_inventory: bool,
}

/// Skin `idx`, or the last of `n` skins if there is no such skin.
pub open spec fn clamp_skin(idx: int, n: int) -> int {
    if idx > sat_sub(n, 1) { sat_sub(n, 1) } else { idx }
}

/// The skin `dir` steps away from `cur` in a carousel of `n` skins.
pub open spec fn cycled_skin(cur: int, dir: int, n: int) -> int {
    (cur + dir) % n
}

impl Menu {
    /// Validity: cursors in their ranges.
    pub open spec fn well_formed(&self) -> bool {
        &&& self.hero_cursor <= 3
        &&& self.sel <= 1_000_000
        &&& self.tab <= 3
    }

    /// Whether the cursors are in their ranges (see `well_formed`).
    pub fn valid(&self) -> (b: bool)
        ensures
            b == self.well_formed(),
    {
        self.hero_cursor <= 3 && self.sel <= 1_000_000 && self.tab <= 3
    }

    /// The menus at start-up: main menu, nothing open.
    pub fn new() -> (m: Menu)
        ensures
            m.well_formed(),
            m.screen == Screen::MainMenu,
            m.sel == 0 && m.tab == 0 && m.hero_sel == 0 && m.hero_cursor == 0,
            !m.show_controls && !m.hero_open && !m.inv_open && !m.paused,
            m.inv_player == 0 && m.inv_sel == 0 && m.inv_item_sel == 0,
            m.inv_enchant is None,
            m.selected_mission is None,
            !m.end_victory,
    {
        Menu {
            screen: Screen::MainMenu,
            sel: 0,
            tab: 0,
            show_controls: false,
            hero_open: false,
            hero_sel: 0,
            hero_cursor: 0,
            inv_open: false,
            inv_player: 0,
            inv_sel: 0,
            inv_item_sel: 0,
            inv_enchant: None,
            paused: false,
            selected_mission: None,
            end_victory: false,
        }
    }

    /// Previews skin `idx` (the last skin if there is no such skin).
    fn preview_skin(&mut self, idx: usize, n_skins: usize) -> (a: MenuAction)
        ensures
            final(self).hero_sel == clamp_skin(idx as int, n_skins as int),
            a == MenuAction::PreviewSkin(final(self).hero_sel),
            *final(self) == (Menu { hero_sel: final(self).hero_sel, ..*old(self) }),
    {
        let n = if n_skins >= 1 { n_skins - 1 } else { 0 };
        self.hero_sel = if idx > n { n } else { idx };
        MenuAction::PreviewSkin(self.hero_sel)
    }

    /// Opens the hero editor on the first hero's saved skin, cursor on
    /// "apply".
    pub fn open_hero_editor(&mut self, saved_skin: usize, n_skins: usize) -> (a: MenuAction)
        ensures
            final(self).hero_open,
            final(self).hero_cursor == 2,
            final(self).hero_sel == clamp_skin(saved_skin as int, n_skins as int),
            a == MenuAction::PreviewSkin(final(self).hero_sel),
            *final(self) == (Menu { hero_open: true, hero_cursor: 2, hero_sel: final(self).hero_sel, ..*old(self) }),
    {
        self.hero_open = true;
        self.hero_cursor = 2;
        let n = if n_skins >= 1 { n_skins - 1 } else { 0 };
        let saved = if saved_skin > n { n } else { saved_skin };
        self.preview_skin(saved, n_skins)
    }

    /// Closes the hero editor without applying: the saved skin comes back
    /// on the menu hero if another one was previewed.
    pub fn close_hero_editor(&mut self, saved_skin: usize, n_skins: usize) -> (a: Option<MenuAction>)
        ensures
            !final(self).hero_open,
            old(self).hero_sel == clamp_skin(saved_skin as int, n_skins as int) ==> a is None
                && final(self).hero_sel == old(self).hero_sel,
            old(self).hero_sel != clamp_skin(saved_skin as int, n_skins as int) ==> a == Some(
                MenuAction::PreviewSkin(final(self).hero_sel),
            ) && final(self).hero_sel == clamp_skin(saved_skin as int, n_skins as int),
            *final(self) == (Menu { hero_open: false, hero_sel: final(self).hero_sel, ..*old(self) }),
    {
        let n = if n_skins >= 1 { n_skins - 1 } else { 0 };
        let saved = if saved_skin > n { n } else { saved_skin };
        let a = if self.hero_sel != saved {
            Some(self.preview_skin(saved, n_skins))
        } else {
            None
        };
        self.hero_open = false;
        a
    }

    /// Previews the skin `dir` steps away in the carousel of `n_skins`.
    pub fn cycle_skin(&mut self, dir: i32, n_skins: usize) -> (a: MenuAction)
        requires
            0 < n_skins <= i32::MAX,
            old(self).hero_sel < n_skins,
            -1 <= dir <= 1,
        ensures
            final(self).hero_sel == cycled_skin(old(self).hero_sel as int, dir as int, n_skins as int),
            final(self).hero_sel < n_skins,
            a == MenuAction::PreviewSkin(final(self).hero_sel),
            *final(self) == (Menu { hero_sel: final(self).hero_sel, ..*old(self) }),
    {
        let n = n_skins as i32;
        let cur = self.hero_sel as i32;
        let s = cur + dir;
        let next = if s < 0 { s + n } else if s >= n { s - n } else { s };
        proof {
            let q: int = if s < 0 { -1 } else if s >= n { 1 } else { 0 };
            vstd::arithmetic::div_mod::lemma_fundamental_div_mod_converse(s as int, n as int, q, next as int);
        }
        self.preview_skin(next as usize, n_skins)
    }

    /// Applies the previewed skin and closes the hero editor.
    pub fn apply_hero_skin(&mut self) -> (acts: Vec<MenuAction>)
        ensures
            acts@ == seq![MenuAction::ApplySkin(old(self).hero_sel), MenuAction::Store],
            *final(self) == (Menu { hero_open: false, ..*old(self) }),
    {
        let mut acts: Vec<MenuAction> = Vec::new();
        acts.push(MenuAction::ApplySkin(self.hero_sel));
        acts.push(MenuAction::Store);
        self.hero_open = false;
        acts
    }
}

/// Cursor of the hero editor after up / down (0..=3).
pub open spec fn hero_cursor_after(c: int, nav: UINav) -> int {
    let c1 = if nav.up { sat_sub(c, 1) } else { c };
    if nav.down { if c1 + 1 < 3 { c1 + 1 } else { 3 } } else { c1 }
}

/// Left / right turn the hero carousel.
pub open spec fn carousel(m: Menu, nav: UINav, n: int) -> (Menu, Seq<MenuAction>) {
    let h1 = if nav.left { cycled_skin(m.hero_sel as int, -1, n) } else { m.hero_sel as int };
    let h2 = if nav.right { cycled_skin(h1, 1, n) } else { h1 };
    let a1 = if nav.left { seq![MenuAction::PreviewSkin(h1 as usize)] } else { Seq::empty() };
    let a2 = if nav.right { a1.push(MenuAction::PreviewSkin(h2 as usize)) } else { a1 };
    (Menu { hero_sel: h2 as usize, ..m }, a2)
}

/// Cancel closes the hero editor (the saved skin comes back if another
/// one is previewed); else confirm activates the button under the cursor:
/// previous, next, apply or back.
pub open spec fn hero_buttons(m: Menu, nav: UINav, saved_skin: int, n: int) -> (Menu, Seq<MenuAction>) {
    let c = m.hero_cursor;
    let saved = clamp_skin(saved_skin, n);
    if nav.cancel || (nav.confirm && c >= 3) {
        let back = if m.hero_sel != saved { seq![MenuAction::PreviewSkin(saved as usize)] } else { Seq::empty() };
        (Menu { hero_sel: saved as usize, hero_open: false, ..m }, back)
    } else if nav.confirm && c == 2 {
        (Menu { hero_open: false, ..m }, seq![MenuAction::ApplySkin(m.hero_sel), MenuAction::Store])
    } else if nav.confirm {
        let h = cycled_skin(m.hero_sel as int, if c == 0 { -1 } else { 1 }, n);
        (Menu { hero_sel: h as usize, ..m }, seq![MenuAction::PreviewSkin(h as usize)])
    } else {
        (m, Seq::empty())
    }
}

/// One frame of the hero editor: the carousel turns, the cursor moves,
/// then a button may be activated. Returns the new menu state and the
/// work for the front end.
pub open spec fn hero_frame(m: Menu, nav: UINav, saved_skin: int, n: int) -> (Menu, Seq<MenuAction>) {
    let (m1, a1) = carousel(m, nav, n);
    let m2 = Menu { hero_cursor: hero_cursor_after(m1.hero_cursor as int, nav) as usize, ..m1 };
    let (m3, a3) = hero_buttons(m2, nav, saved_skin, n);
    (m3, a1 + a3)
}

/// Cursor of the main menu (0..=4) after up / down / left / right.
pub open spec fn main_cursor_after(s: int, nav: UINav) -> int {
    let s1 = if nav.up { sat_sub(s, 1) } else { s };
    let s2 = if nav.down { if s1 + 1 < 4 { s1 + 1 } else { 4 } } else { s1 };
    let s3 = if nav.left { sat_sub(s2, 1) } else { s2 };
    if nav.right { if s3 + 1 < 4 { s3 + 1 } else { 4 } } else { s3 }
}

impl Menu {
    fn carousel_step(&mut self, nav: UINav, n_skins: usize) -> (acts: Vec<MenuAction>)
        requires
            0 < n_skins <= i32::MAX,
            old(self).hero_sel < n_skins,
        ensures
            (*final(self), acts@) == carousel(*old(self), nav, n_skins as int),
            final(self).hero_sel < n_skins,
    {
        let mut acts: Vec<MenuAction> = Vec::new();
        if nav.left {
            let a = self.cycle_skin(-1, n_skins);
            acts.push(a);
        }
        if nav.right {
            let a = self.cycle_skin(1, n_skins);
            acts.push(a);
        }
        proof {
            let (m2, a2) = carousel(*old(self), nav, n_skins as int);
            assert(acts@ =~= a2);
        }
        acts
    }

    fn hero_button_step(&mut self, nav: UINav, saved_skin: usize, n_skins: usize) -> (acts: Vec<MenuAction>)
        requires
            0 < n_skins <= i32::MAX,
            old(self).hero_sel < n_skins,
        ensures
            (*final(self), acts@) == hero_buttons(*old(self), nav, saved_skin as int, n_skins as int),
            final(self).hero_sel < n_skins,
    {
        let mut acts: Vec<MenuAction> = Vec::new();
        if nav.cancel || (nav.confirm && self.hero_cursor >= 3) {
            match self.close_hero_editor(saved_skin, n_skins) {
                Some(a) => acts.push(a),
                None => {},
            }
        } else if nav.confirm && self.hero_cursor == 2 {
            acts = self.apply_hero_skin();
        } else if nav.confirm {
            let a = self.cycle_skin(if self.hero_cursor == 0 { -1 } else { 1 }, n_skins);
            acts.push(a);
        }
        proof {
            let (m2, a2) = hero_buttons(*old(self), nav, saved_skin as int, n_skins as int);
            assert(acts@ =~= a2);
        }
        acts
    }

    /// One frame of the hero editor (see `hero_frame`).
    #[verifier::spinoff_prover]
    #[verifier::rlimit(40)]
    pub fn hero_editor_frame(&mut self, nav: UINav, saved_skin: usize, n_skins: usize) -> (acts: Vec<MenuAction>)
        requires
            old(self).well_formed(),
            0 < n_skins <= i32::MAX,
            old(self).hero_sel < n_skins,
        ensures
            (*final(self), acts@) == hero_frame(*old(self), nav, saved_skin as int, n_skins as int),
            final(self).well_formed(),
            final(self).hero_sel < n_skins,
    {
        let mut acts = self.carousel_step(nav, n_skins);
        if nav.up {
            self.hero_cursor = if self.hero_cursor >= 1 { self.hero_cursor - 1 } else { 0 };
        }
        if nav.down {
            self.hero_cursor = if self.hero_cursor + 1 < 3 { self.hero_cursor + 1 } else { 3 };
        }
        let mut more = self.hero_button_step(nav, saved_skin, n_skins);
        acts.append(&mut more);
        acts
    }
}

/// H opens the hero editor and F1 / F2 show the controls, unless the
/// controls are shown.
pub open spec fn main_keys(m: Menu, keys: MenuKeys, saved_skin: int, n: int) -> (Menu, Seq<MenuAction>) {
    let skin = clamp_skin(saved_skin, n) as usize;
    let key_editor = !m.show_controls && keys.hero_editor;
    let m1 = if key_editor { Menu { hero_open: true, hero_cursor: 2, hero_sel: skin, ..m } } else { m };
    let m2 = if !m.show_controls && keys.controls { Menu { show_controls: true, ..m1 } } else { m1 };
    (m2, if key_editor { seq![MenuAction::PreviewSkin(skin)] } else { Seq::empty() })
}

/// Confirm (controls hidden) clicks and activates the main-menu button
/// under the cursor: the camp (on the next mission to play), the hero
/// editor, the controls (two buttons) or quit.
pub open spec fn main_confirm(m: Menu, nav: UINav, next_mission: usize, saved_skin: int, n: int) -> (Menu, Seq<MenuAction>) {
    let skin = clamp_skin(saved_skin, n) as usize;
    let click = seq![MenuAction::PlaySound(Sfx::UiClick)];
    if nav.confirm && !m.show_controls {
        if m.sel == 0 {
            (Menu { screen: Screen::Camp, sel: 0, selected_mission: Some(next_mission), ..m }, click.push(
                MenuAction::PlayMusic(Music::Menu),
            ))
        } else if m.sel == 1 {
            (Menu { hero_open: true, hero_cursor: 2, hero_sel: skin, ..m }, click.push(MenuAction::PreviewSkin(skin)))
        } else if m.sel == 2 || m.sel == 3 {
            (Menu { show_controls: true, ..m }, click)
        } else {
            (m, click.push(MenuAction::Quit))
        }
    } else {
        (m, Seq::empty())
    }
}

/// One frame of the main menu (hero editor closed): the cursor moves over
/// its five buttons, then the keys, then confirm act (see `main_keys` and
/// `main_confirm`); confirm or cancel hide the controls in the end.
pub open spec fn main_menu(m: Menu, nav: UINav, keys: MenuKeys, next_mission: usize, saved_skin: int, n: int) -> (Menu, Seq<MenuAction>) {
    let m1 = Menu { sel: main_cursor_after(m.sel as int, nav) as usize, ..m };
    let (m2, a2) = main_keys(m1, keys, saved_skin, n);
    let (m3, a3) = main_confirm(m2, nav, next_mission, saved_skin, n);
    (Menu { show_controls: m3.show_controls && !nav.confirm && !nav.cancel, ..m3 }, a2 + a3)
}

impl Menu {
    fn main_keys_step(&mut self, keys: MenuKeys, saved_skin: usize, n_skins: usize) -> (acts: Vec<MenuAction>)
        ensures
            (*final(self), acts@) == main_keys(*old(self), keys, saved_skin as int, n_skins as int),
    {
        let mut acts: Vec<MenuAction> = Vec::new();
        let shown = self.show_controls;
        if !shown && keys.hero_editor {
            let a = self.open_hero_editor(saved_skin, n_skins);
            acts.push(a);
        }
        if !shown && keys.controls {
            self.show_controls = true;
        }
        proof {
            let (m2, a2) = main_keys(*old(self), keys, saved_skin as int, n_skins as int);
            assert(acts@ =~= a2);
        }
        acts
    }

    fn main_confirm_step(&mut self, nav: UINav, next_mission: usize, saved_skin: usize, n_skins: usize) -> (acts: Vec<MenuAction>)
        ensures
            (*final(self), acts@) == main_confirm(*old(self), nav, next_mission, saved_skin as int, n_skins as int),
    {
        let mut acts: Vec<MenuAction> = Vec::new();
        if nav.confirm && !self.show_controls {
            acts.push(MenuAction::PlaySound(Sfx::UiClick));
            if self.sel == 0 {
                self.screen = Screen::Camp;
                self.sel = 0;
                self.selected_mission = Some(next_mission);
                acts.push(MenuAction::PlayMusic(Music::Menu));
            } else if self.sel == 1 {
                let a = self.open_hero_editor(saved_skin, n_skins);
                acts.push(a);
            } else if self.sel == 2 || self.sel == 3 {
                self.show_controls = true;
            } else {
                acts.push(MenuAction::Quit);
            }
        }
        proof {
            let (m2, a2) = main_confirm(*old(self), nav, next_mission, saved_skin as int, n_skins as int);
            assert(acts@ =~= a2);
        }
        acts
    }

    fn main_cursor_step(&mut self, nav: UINav)
        requires
            old(self).well_formed(),
        ensures
            *final(self) == (Menu { sel: main_cursor_after(old(self).sel as int, nav) as usize, ..*old(self) }),
    {
        let mut sel = self.sel;
        if nav.up {
            sel = if sel >= 1 { sel - 1 } else { 0 };
        }
        if nav.down {
            sel = if sel + 1 < 4 { sel + 1 } else { 4 };
        }
        if nav.left {
            sel = if sel >= 1 { sel - 1 } else { 0 };
        }
        if nav.right {
            sel = if sel + 1 < 4 { sel + 1 } else { 4 };
        }
        self.sel = sel;
    }

    /// One frame of the main menu (see `main_menu`).
    pub fn main_menu_frame(&mut self, nav: UINav, keys: MenuKeys, next_mission: usize, saved_skin: usize, n_skins: usize) -> (acts: Vec<MenuAction>)
        requires
            old(self).well_formed(),
            !old(self).hero_open,
        ensures
            (*final(self), acts@) == main_menu(*old(self), nav, keys, next_mission, saved_skin as int, n_skins as int),
            final(self).well_formed(),
    {
        self.main_cursor_step(nav);
        let ghost m1 = *self;
        let mut acts = self.main_keys_step(keys, saved_skin, n_skins);
        let ghost m2 = *self;
        let ghost a2 = acts@;
        let mut more = self.main_confirm_step(nav, next_mission, saved_skin, n_skins);
        let ghost m3 = *self;
        let ghost a3 = more@;
        acts.append(&mut more);
        if self.show_controls && (nav.confirm || nav.cancel) {
            self.show_controls = false;
        }
        proof {
            assert((m2, a2) == main_keys(m1, keys, saved_skin as int, n_skins as int));
            assert((m3, a3) == main_confirm(m2, nav, next_mission, saved_skin as int, n_skins as int));
            assert(acts@ == a2 + a3);
        }
        acts
    }
}

/// Number of entries of the camp screen: the 4 tab buttons, then the
/// missions, the 3 tiers, the co-op switch and the launch button (map
/// tab), the merchant's stock, or the first hero's stash (blacksmith).
pub open spec fn spec_camp_entries(tab: int, stock_len: int, stash_len: int) -> int {
    4 + if tab == 0 {
        MISSION_COUNT + 5
    } else if tab == 1 {
        stock_len
    } else if tab == 2 {
        stash_len
    } else {
        0
    }
}

pub fn camp_entries(tab: usize, stock_len: usize, stash_len: usize) -> (n: usize)
    requires
        stock_len <= usize::MAX - 4,
        stash_len <= usize::MAX - 4,
    ensures
        n == spec_camp_entries(tab as int, stock_len as int, stash_len as int),
{
    4 + if tab == 0 {
        MISSION_COUNT + 5
    } else if tab == 1 {
        stock_len
    } else if tab == 2 {
        stash_len
    } else {
        0
    }
}

/// Everything of the save but the emeralds and the heroes is the same.
pub open spec fn same_campaign(a: Save, b: Save) -> bool {
    &&& b.seed == a.seed
    &&& b.completed@ == a.completed@
    &&& b.secrets_found@ == a.secrets_found@
    &&& b.tier == a.tier
    &&& b.tier_unlocked == a.tier_unlocked
    &&& b.missions_played == a.missions_played
}

/// The heroes of `b` are those of `a`, hero `k` with inventory `inv`.
pub open spec fn hero_with(a: Save, b: Save, k: int, inv: Inventory) -> bool {
    &&& 0 <= k < a.players@.len()
    &&& b.players@ == a.players@.update(k, PlayerSave { inventory: inv, ..a.players@[k] })
}

/// The click of a camp entry.
pub open spec fn click() -> Seq<MenuAction> {
    seq![MenuAction::PlaySound(Sfx::UiClick)]
}

/// Activating map entry `sel` (missions from 4, then the 3 tiers, the
/// co-op switch, the launch button): an unlocked mission starts; an
/// unlocked tier is selected; the co-op switch toggles; the launch button
/// starts the selected mission if it is unlocked.
pub open spec fn map_activated(m: Menu, s0: Save, s1: Save, acts: Seq<MenuAction>) -> bool {
    let i = m.sel - 4;
    if i < MISSION_COUNT {
        s1 == s0 && acts == if spec_is_unlocked(s0.completed@, s0.secrets_found@, i) {
            click().push(MenuAction::StartMission(i as usize))
        } else {
            click()
        }
    } else if i < MISSION_COUNT + 3 {
        let t = i - MISSION_COUNT;
        if t <= s0.tier_unlocked {
            s1 == (Save { tier: t as usize, ..s0 }) && acts == click().push(MenuAction::Store)
        } else {
            s1 == s0 && acts == click()
        }
    } else if i == MISSION_COUNT + 3 {
        s1 == s0 && acts == click() + seq![MenuAction::ToggleCoop, MenuAction::Store]
    } else {
        s1 == s0 && acts == match m.selected_mission {
            Some(mid) => if spec_is_unlocked(s0.completed@, s0.secrets_found@, mid as int) {
                click().push(MenuAction::StartMission(mid))
            } else {
                click()
            },
            None => click(),
        }
    }
}

/// Whether merchant entry `sel - 4` is bought: it exists and the
/// emeralds suffice.
pub open spec fn buys(m: Menu, s: Save, c: Camp) -> bool {
    let i = m.sel - 4;
    i < c.stock@.len() && s.emeralds >= c.stock@[i].1
}

/// Activating merchant entry `sel - 4`: bought and equipped by the first
/// hero when the emeralds suffice (see `Camp::buy`).
pub open spec fn merchant_activated(m: Menu, s0: Save, c0: Camp, s1: Save, c1: Camp, acts: Seq<MenuAction>) -> bool {
    let ok = buys(m, s0, c0);
    &&& same_campaign(s0, s1)
    &&& ok ==> exists|inv: Inventory| #![trigger hero_with(s0, s1, 0, inv)]
        hero_with(s0, s1, 0, inv) && bought(c0, c1, s0.emeralds, s1.emeralds, s0.players@[0].inventory, inv, m.sel - 4, true)
    &&& !ok ==> s1 == s0 && c1 == c0
    &&& acts == if ok { click() + seq![MenuAction::Store, MenuAction::RefreshArmor] } else { click() }
}

/// Activating blacksmith entry `sel - 4`: the first hero's stash item is
/// upgraded when the emeralds suffice (see `forge_stash_item`).
pub open spec fn forge_activated(m: Menu, s0: Save, s1: Save, acts: Seq<MenuAction>) -> bool {
    let i = m.sel - 4;
    let inv0 = s0.players@[0].inventory;
    let ok = i < inv0.stash@.len() && s0.emeralds >= crate::shop::spec_forge_price(inv0.stash@[i].rarity, inv0.stash@[i].power);
    &&& same_campaign(s0, s1)
    &&& ok ==> exists|inv: Inventory| #![trigger hero_with(s0, s1, 0, inv)]
        hero_with(s0, s1, 0, inv) && forged(inv0, inv, s0.emeralds, s1.emeralds, i, true)
    &&& !ok ==> s1 == s0
    &&& acts == if ok { click().push(MenuAction::Store) } else { click() }
}

impl Menu {
    /// Validity of the camp's selected mission.
    pub open spec fn camp_ready(&self) -> bool {
        self.selected_mission matches Some(mid) ==> mid < MISSION_COUNT
    }

    fn map_activate(&mut self, save: &mut Save) -> (acts: Vec<MenuAction>)
        requires
            old(self).sel >= 4,
            old(self).camp_ready(),
        ensures
            *final(self) == *old(self),
            map_activated(*old(self), *old(save), *final(save), acts@),
    {
        let mut acts: Vec<MenuAction> = Vec::new();
        acts.push(MenuAction::PlaySound(Sfx::UiClick));
        assert(acts@ =~= click());
        let i = self.sel - 4;
        if i < MISSION_COUNT {
            if save.is_unlocked(i) {
                acts.push(MenuAction::StartMission(i));
            }
        } else if i < MISSION_COUNT + 3 {
            let tier = i - MISSION_COUNT;
            if tier <= save.tier_unlocked {
                save.tier = tier;
                acts.push(MenuAction::Store);
            }
        } else if i == MISSION_COUNT + 3 {
            acts.push(MenuAction::ToggleCoop);
            acts.push(MenuAction::Store);
            assert(acts@ =~= click() + seq![MenuAction::ToggleCoop, MenuAction::Store]);
        } else {
            match self.selected_mission {
                Some(mid) => {
                    if save.is_unlocked(mid) {
                        acts.push(MenuAction::StartMission(mid));
                    }
                },
                None => {},
            }
        }
        acts
    }

    fn merchant_activate(&mut self, save: &mut Save, camp: &mut Camp) -> (acts: Vec<MenuAction>)
        requires
            old(self).sel >= 4,
            buys(*old(self), *old(save), *old(camp)) ==> old(save).players@.len() > 0,
        ensures
            *final(self) == *old(self),
            merchant_activated(*old(self), *old(save), *old(camp), *final(save), *final(camp), acts@),
    {
        let mut acts: Vec<MenuAction> = Vec::new();
        acts.push(MenuAction::PlaySound(Sfx::UiClick));
        let i = self.sel - 4;
        if i < camp.stock.len() && save.emeralds >= camp.stock[i].1 {
            let mut p = save.players.remove(0);
            let ghost p0 = p;
            let mut inv = p.inventory;
            let mut emeralds = save.emeralds;
            let ok = camp.buy(i, &mut emeralds, &mut inv);
            save.emeralds = emeralds;
            let ghost inv1 = inv;
            p = PlayerSave { inventory: inv, ..p };
            save.players.insert(0, p);
            proof {
                assert(save.players@ =~= old(save).players@.update(0, PlayerSave { inventory: inv1, ..p0 }));
                assert(hero_with(*old(save), *save, 0, inv1));
            }
            acts.push(MenuAction::Store);
            acts.push(MenuAction::RefreshArmor);
            proof {
                assert(acts@ =~= click() + seq![MenuAction::Store, MenuAction::RefreshArmor]);
            }
        }
        acts
    }

    fn forge_activate(&mut self, save: &mut Save) -> (acts: Vec<MenuAction>)
        requires
            old(self).sel >= 4,
            old(save).players@.len() > 0,
            forge_affordable_limits(old(save).players@[0].inventory, old(self).sel - 4),
        ensures
            *final(self) == *old(self),
            forge_activated(*old(self), *old(save), *final(save), acts@),
    {
        let mut acts: Vec<MenuAction> = Vec::new();
        acts.push(MenuAction::PlaySound(Sfx::UiClick));
        let i = self.sel - 4;
        let afford = if i < save.players[0].inventory.stash.len() {
            save.emeralds >= crate::shop::forge_price(&save.players[0].inventory.stash[i])
        } else {
            false
        };
        if afford {
            let mut p = save.players.remove(0);
            let ghost p0 = p;
            let mut inv = p.inventory;
            let mut emeralds = save.emeralds;
            let ok = forge_stash_item(&mut inv, i, &mut emeralds);
            save.emeralds = emeralds;
            let ghost inv1 = inv;
            p = PlayerSave { inventory: inv, ..p };
            save.players.insert(0, p);
            proof {
                assert(save.players@ =~= old(save).players@.update(0, PlayerSave { inventory: inv1, ..p0 }));
                assert(hero_with(*old(save), *save, 0, inv1));
            }
            acts.push(MenuAction::Store);
        }
        acts
    }
}

/// Activating camp entry `sel`: a tab button (the fourth opens the
/// inventory), or an entry of the current tab (see `map_activated`,
/// `merchant_activated`, `forge_activated`).
pub open spec fn camp_activated(m0: Menu, s0: Save, c0: Camp, m1: Menu, s1: Save, c1: Camp, acts: Seq<MenuAction>) -> bool {
    if m0.sel < 4 {
        &&& s1 == s0 && c1 == c0 && acts == click()
        &&& m1 == if m0.sel == 3 {
            Menu { inv_open: true, inv_player: 0, inv_sel: 0, ..m0 }
        } else {
            Menu { tab: m0.sel, sel: 4, ..m0 }
        }
    } else if m0.tab == 0 {
        m1 == m0 && c1 == c0 && map_activated(m0, s0, s1, acts)
    } else if m0.tab == 1 {
        m1 == m0 && merchant_activated(m0, s0, c0, s1, c1, acts)
    } else if m0.tab == 2 {
        m1 == m0 && c1 == c0 && forge_activated(m0, s0, s1, acts)
    } else {
        m1 == m0 && s1 == s0 && c1 == c0 && acts == click()
    }
}

/// What activating a camp entry needs: a first hero to buy for or whose
/// stash goes to the blacksmith, and blacksmith numbers that fit.
pub open spec fn camp_activation_ok(m: Menu, s: Save, c: Camp) -> bool {
    &&& m.camp_ready()
    &&& m.sel >= 4 && m.tab == 1 && buys(m, s, c) ==> s.players@.len() > 0
    &&& m.sel >= 4 && m.tab == 2 ==> s.players@.len() > 0 && forge_affordable_limits(s.players@[0].inventory, m.sel - 4)
}

/// Number of camp entries (see `spec_camp_entries`).
pub open spec fn camp_count(m: Menu, s: Save, c: Camp) -> int {
    spec_camp_entries(
        m.tab as int,
        c.stock@.len() as int,
        if m.tab == 2 { s.players@[0].inventory.stash@.len() as int } else { 0 },
    )
}

/// Camp cursor after left / right / up / down among `n` entries.
pub open spec fn camp_cursor_after(sel: int, n: int, nav: UINav) -> int {
    let last = sat_sub(n, 1);
    let s1 = if nav.left { sat_sub(sel, 1) } else { sel };
    let s2 = if nav.right { if s1 + 1 < last { s1 + 1 } else { last } } else { s1 };
    let s3 = if nav.up { sat_sub(s2, 1) } else { s2 };
    if nav.down { if s3 + 1 < last { s3 + 1 } else { last } } else { s3 }
}

/// Camp navigation: the cursor moves; on the map, a mission under the
/// cursor becomes the selected one; cancel goes back to the map tab, or
/// from the map to the main menu.
pub open spec fn camp_nav(m: Menu, nav: UINav, n: int) -> (Menu, Seq<MenuAction>) {
    let s = camp_cursor_after(m.sel as int, n, nav);
    let picked = if m.tab == 0 && 4 <= s < 4 + MISSION_COUNT { Some((s - 4) as usize) } else { m.selected_mission };
    let m1 = Menu { sel: s as usize, selected_mission: picked, ..m };
    if nav.cancel {
        if m.tab != 0 {
            (Menu { tab: 0, sel: 0, ..m1 }, Seq::empty())
        } else {
            (Menu { screen: Screen::MainMenu, sel: 0, ..m1 }, seq![MenuAction::PlayMusic(Music::Menu)])
        }
    } else {
        (m1, Seq::empty())
    }
}

/// Moves the camp cursor (see `camp_cursor_after`).
fn camp_cursor(sel: usize, n: usize, nav: UINav) -> (r: usize)
    ensures
        r == camp_cursor_after(sel as int, n as int, nav),
{
    let last = if n >= 1 { n - 1 } else { 0 };
    let mut sel = sel;
    if nav.left {
        sel = if sel >= 1 { sel - 1 } else { 0 };
    }
    if nav.right {
        sel = if sel < last { sel + 1 } else { last };
    }
    if nav.up {
        sel = if sel >= 1 { sel - 1 } else { 0 };
    }
    if nav.down {
        sel = if sel < last { sel + 1 } else { last };
    }
    sel
}

impl Menu {
    /// Activates the camp entry under the cursor (see `camp_activated`).
    pub fn camp_activate(&mut self, save: &mut Save, camp: &mut Camp) -> (acts: Vec<MenuAction>)
        requires
            camp_activation_ok(*old(self), *old(save), *old(camp)),
        ensures
            camp_activated(*old(self), *old(save), *old(camp), *final(self), *final(save), *final(camp), acts@),
    {
        if self.sel < 4 {
            let mut acts: Vec<MenuAction> = Vec::new();
            acts.push(MenuAction::PlaySound(Sfx::UiClick));
            assert(acts@ =~= click());
            if self.sel == 3 {
                self.inv_open = true;
                self.inv_player = 0;
                self.inv_sel = 0;
            } else {
                self.tab = self.sel;
                self.sel = 4;
            }
            return acts;
        }
        if self.tab == 0 {
            self.map_activate(save)
        } else if self.tab == 1 {
            self.merchant_activate(save, camp)
        } else if self.tab == 2 {
            self.forge_activate(save)
        } else {
            let mut acts: Vec<MenuAction> = Vec::new();
            acts.push(MenuAction::PlaySound(Sfx::UiClick));
            assert(acts@ =~= click());
            acts
        }
    }

    fn camp_nav_step(&mut self, nav: UINav, n: usize) -> (acts: Vec<MenuAction>)
        ensures
            (*final(self), acts@) == camp_nav(*old(self), nav, n as int),
    {
        self.sel = camp_cursor(self.sel, n, nav);
        if self.tab == 0 && self.sel >= 4 && self.sel < 4 + MISSION_COUNT {
            self.selected_mission = Some(self.sel - 4);
        }
        let mut acts: Vec<MenuAction> = Vec::new();
        if nav.cancel {
            if self.tab != 0 {
                self.tab = 0;
                self.sel = 0;
            } else {
                self.screen = Screen::MainMenu;
                self.sel = 0;
                acts.push(MenuAction::PlayMusic(Music::Menu));
            }
        }
        proof {
            let (m2, a2) = camp_nav(*old(self), nav, n as int);
            assert(acts@ =~= a2);
        }
        acts
    }

    /// One frame of the camp (inventory closed): navigation among the
    /// entries of the current tab (see `camp_nav`). Confirm then activates
    /// the entry under the cursor (`camp_activate`).
    pub fn camp_frame(&mut self, nav: UINav, save: &Save, camp: &Camp) -> (acts: Vec<MenuAction>)
        requires
            old(self).tab == 2 ==> save.players@.len() > 0,
            camp.stock@.len() <= usize::MAX - 4,
            old(self).tab == 2 ==> save.players@[0].inventory.stash@.len() <= usize::MAX - 4,
        ensures
            (*final(self), acts@) == camp_nav(*old(self), nav, camp_count(*old(self), *save, *camp)),
    {
        let stash_len = if self.tab == 2 { save.players[0].inventory.stash.len() } else { 0 };
        let n = camp_entries(self.tab, camp.stock.len(), stash_len);
        self.camp_nav_step(nav, n)
    }

    /// Whether `camp_frame` may be called: a first hero on the blacksmith
    /// tab, and entry counts far from the end of `usize`.
    pub fn camp_frame_possible(&self, save: &Save, camp: &Camp) -> (b: bool)
        ensures
            b == ((self.tab == 2 ==> save.players@.len() > 0) && camp.stock@.len() <= usize::MAX - 4 && (self.tab == 2
                ==> save.players@[0].inventory.stash@.len() <= usize::MAX - 4)),
    {
        if camp.stock.len() > usize::MAX - 4 {
            return false;
        }
        if self.tab == 2 {
            save.players.len() > 0 && save.players[0].inventory.stash.len() <= usize::MAX - 4
        } else {
            true
        }
    }

    /// Whether activating the camp entry under the cursor is possible (see
    /// `camp_activation_ok`).
    pub fn camp_activation_possible(&self, save: &Save, camp: &Camp) -> (b: bool)
        ensures
            b == camp_activation_ok(*self, *save, *camp),
    {
        let ready = match self.selected_mission {
            Some(mid) => mid < MISSION_COUNT,
            None => true,
        };
        if !ready {
            return false;
        }
        if self.sel >= 4 && self.tab == 1 {
            let i = self.sel - 4;
            if i < camp.stock.len() && save.emeralds >= camp.stock[i].1 && save.players.len() == 0 {
                return false;
            }
        }
        if self.sel >= 4 && self.tab == 2 {
            if save.players.len() == 0 {
                return false;
            }
            let i = self.sel - 4;
            let inv = &save.players[0].inventory;
            if i < inv.stash.len() {
                let it = &inv.stash[i];
                if it.power == u32::MAX || !crate::shop::forge_price_fits(it) {
                    return false;
                }
            }
        }
        true
    }
}

/// One frame of the pause menu: the cursor moves over resume, inventory
/// and abandon; confirm activates; cancel resumes.
pub open spec fn pause_menu(m: Menu, nav: UINav) -> (Menu, Seq<MenuAction>) {
    let s1 = if nav.up { sat_sub(m.sel as int, 1) } else { m.sel as int };
    let s2 = if nav.down { if s1 + 1 < 2 { s1 + 1 } else { 2 } } else { s1 };
    let m1 = Menu { sel: s2 as usize, ..m };
    let (m2, acts) = if nav.confirm {
        if s2 == 0 {
            (Menu { paused: false, ..m1 }, Seq::empty())
        } else if s2 == 1 {
            (Menu { inv_open: true, inv_player: 0, inv_sel: 0, ..m1 }, Seq::empty())
        } else {
            (m1, seq![MenuAction::FinishMission(false)])
        }
    } else {
        (m1, Seq::empty())
    };
    (if nav.cancel { Menu { paused: false, ..m2 } } else { m2 }, acts)
}

/// Confirming an entry of the pause menu (the cursor on it, no other key):
/// "resume" lifts the pause; "inventory" opens the first hero's inventory
/// on its first entry and keeps the mission paused; "abandon" ends the
/// mission as a defeat. Nothing else of the menus changes.
pub proof fn law_pause_entries(m: Menu, nav: UINav)
    requires
        m.sel <= 2,
        nav.confirm,
        !nav.up && !nav.down && !nav.cancel,
    ensures
        ({
            let (r, acts) = pause_menu(m, nav);
            &&& m.sel == 0 ==> r == Menu { paused: false, ..m } && acts.len() == 0
            &&& m.sel == 1 ==> r.inv_open && r.inv_player == 0 && r.inv_sel == 0 && r.paused == m.paused
                && r == Menu { inv_open: true, inv_player: 0, inv_sel: 0, ..m } && acts.len() == 0
            &&& m.sel == 2 ==> r == m && acts == seq![MenuAction::FinishMission(false)]
        }),
{
}

/// Keys during a mission (not paused, inventory closed): Escape pauses on
/// "resume"; I / Tab open the first hero's inventory; the gamepad key
/// opens the inventory as it stands.
pub open spec fn playing_keys(m: Menu, keys: MenuKeys) -> (Menu, Seq<MenuAction>) {
    let m1 = if keys.escape { Menu { paused: true, sel: 0, ..m } } else { m };
    let m2 = if keys.inventory { Menu { inv_open: true, inv_player: 0, inv_sel: 0, ..m1 } } else { m1 };
    let a2 = if keys.inventory { seq![MenuAction::PlaySound(Sfx::UiOpen)] } else { Seq::empty() };
    if keys.pad_inventory {
        (Menu { inv_open: true, ..m2 }, a2.push(MenuAction::PlaySound(Sfx::UiOpen)))
    } else {
        (m2, a2)
    }
}

/// What a hero brings back from a mission.
pub struct HeroProgress {
    pub inventory: Inventory,
    pub level: u32,
    pub xp: u32,
}

/// All the items of `inv` have a power of at most `bound`.
pub open spec fn powers_at_most(inv: Inventory, bound: u32) -> bool {
    forall|i: int| 0 <= i < inv.spec_all_items().len() ==> #[trigger] inv.spec_all_items()[i].power <= bound
}

/// The heroes of `b` after writing back `heroes` into those of `a`: the
/// first heroes take the inventories, levels and XP brought back (keeping
/// their skins); missing heroes are added (skin 1); the others stay.
pub open spec fn heroes_written_back(a: Seq<PlayerSave>, heroes: Seq<HeroProgress>, b: Seq<PlayerSave>) -> bool {
    &&& b.len() == if a.len() < heroes.len() { heroes.len() } else { a.len() }
    &&& forall|i: int| 0 <= i < heroes.len() ==> {
        &&& (#[trigger] b[i]).inventory == heroes[i].inventory
        &&& b[i].level == heroes[i].level
        &&& b[i].xp == heroes[i].xp
        &&& b[i].skin == if i < a.len() { a[i].skin } else { 1 }
    }
    &&& forall|i: int| heroes.len() <= i < a.len() ==> #[trigger] b[i] == a[i]
}

impl Menu {
    /// One frame of the pause menu (see `pause_menu`).
    pub fn pause_frame(&mut self, nav: UINav) -> (acts: Vec<MenuAction>)
        requires
            old(self).well_formed(),
        ensures
            (*final(self), acts@) == pause_menu(*old(self), nav),
            final(self).well_formed(),
            old(self).sel == 1 && nav.confirm && !nav.up && !nav.down && !nav.cancel ==> final(self).inv_open
                && final(self).inv_player == 0 && final(self).inv_sel == 0 && final(self).paused == old(self).paused,
    {
        if nav.up {
            self.sel = if self.sel >= 1 { self.sel - 1 } else { 0 };
        }
        if nav.down {
            self.sel = if self.sel + 1 < 2 { self.sel + 1 } else { 2 };
        }
        let mut acts: Vec<MenuAction> = Vec::new();
        if nav.confirm {
            if self.sel == 0 {
                self.paused = false;
            } else if self.sel == 1 {
                self.inv_open = true;
                self.inv_player = 0;
                self.inv_sel = 0;
            } else {
                acts.push(MenuAction::FinishMission(false));
            }
        }
        if nav.cancel {
            self.paused = false;
        }
        proof {
            let (m2, a2) = pause_menu(*old(self), nav);
            assert(acts@ =~= a2);
        }
        acts
    }

    /// Keys during a mission (see `playing_keys`).
    pub fn playing_frame(&mut self, keys: MenuKeys) -> (acts: Vec<MenuAction>)
        requires
            old(self).well_formed(),
        ensures
            (*final(self), acts@) == playing_keys(*old(self), keys),
            final(self).well_formed(),
    {
        let mut acts: Vec<MenuAction> = Vec::new();
        if keys.escape {
            self.paused = true;
            self.sel = 0;
        }
        if keys.inventory {
            self.inv_open = true;
            self.inv_player = 0;
            self.inv_sel = 0;
            acts.push(MenuAction::PlaySound(Sfx::UiOpen));
        }
        if keys.pad_inventory {
            self.inv_open = true;
            acts.push(MenuAction::PlaySound(Sfx::UiOpen));
        }
        proof {
            let (m2, a2) = playing_keys(*old(self), keys);
            assert(acts@ =~= a2);
        }
        acts
    }

    /// One frame of the end screen: confirm goes back to the camp.
    pub fn end_frame(&mut self, nav: UINav) -> (acts: Vec<MenuAction>)
        ensures
            nav.confirm ==> *final(self) == (Menu { screen: Screen::Camp, sel: 0, ..*old(self) })
                && acts@ == seq![MenuAction::DropGame, MenuAction::PlayMusic(Music::Menu)],
            !nav.confirm ==> *final(self) == *old(self) && acts@.len() == 0,
    {
        let mut acts: Vec<MenuAction> = Vec::new();
        if nav.confirm {
            self.screen = Screen::Camp;
            self.sel = 0;
            acts.push(MenuAction::DropGame);
            acts.push(MenuAction::PlayMusic(Music::Menu));
        }
        acts
    }

    /// A mission starts: overlays closed, exploration music.
    pub fn enter_mission(&mut self) -> (acts: Vec<MenuAction>)
        ensures
            *final(self) == (Menu { screen: Screen::Playing, inv_open: false, inv_enchant: None, paused: false, ..*old(self) }),
            acts@ == seq![MenuAction::PlayMusic(Music::Exploration)],
    {
        self.inv_open = false;
        self.inv_enchant = None;
        self.paused = false;
        self.screen = Screen::Playing;
        let mut acts: Vec<MenuAction> = Vec::new();
        acts.push(MenuAction::PlayMusic(Music::Exploration));
        acts
    }

    /// The end of a mission: the heroes' progress is written back into the
    /// save, the mission recorded (see `Save::record_mission`), the
    /// merchant restocked for the first hero's power after a victory, and
    /// the end screen shown.
    pub fn finish_mission(
        &mut self,
        save: &mut Save,
        camp: &mut Camp,
        mission_id: usize,
        victory: bool,
        emeralds: u32,
        rune_found: bool,
        heroes: Vec<HeroProgress>,
    ) -> (acts: Vec<MenuAction>)
        requires
            finish_ok(*old(save), victory, emeralds, heroes@),
        ensures
            heroes_written_back(old(save).players@, heroes@, final(save).players@),
            final(save).emeralds == if victory { old(save).emeralds + emeralds } else { old(save).emeralds as int },
            final(save).completed@ == if victory { add_once(old(save).completed@, mission_id) } else {
                old(save).completed@
            },
            final(save).secrets_found@ == if victory && rune_found {
                add_once(old(save).secrets_found@, mission_id)
            } else {
                old(save).secrets_found@
            },
            final(save).tier_unlocked == tier_unlocked_after(old(save).tier, old(save).tier_unlocked, mission_id, victory),
            final(save).tier == old(save).tier,
            final(save).seed == old(save).seed,
            final(save).missions_played == old(save).missions_played + 1,
            victory ==> final(camp).stock@.len() == 4 && final(camp).artifacts_stock@.len() == 2,
            victory ==> exists|p: u32| {
                &&& #[trigger] restocked_for(*final(camp), p)
                &&& (if final(save).players@.len() == 0 { p == 1 } else { final(save).players@[0].inventory.power_is(p) })
            },
            !victory ==> *final(camp) == *old(camp),
            *final(self) == (Menu { screen: Screen::End, sel: 0, end_victory: victory, ..*old(self) }),
            acts@ == seq![MenuAction::Store, MenuAction::PlayMusic(if victory { Music::Victory } else { Music::Menu })],
    {
        let n = heroes.len();
        save.ensure_players(n);
        let ghost grown = save.players@;
        let mut k: usize = 0;
        let mut heroes = heroes;
        let ghost hs = heroes@;
        while k < n
            invariant
                n == hs.len(),
                0 <= k <= n,
                heroes@ == hs.subrange(k as int, n as int),
                save.players@.len() == grown.len(),
                grown.len() >= n,
                forall|i: int| 0 <= i < k ==> {
                    &&& (#[trigger] save.players@[i]).inventory == hs[i].inventory
                    &&& save.players@[i].level == hs[i].level
                    &&& save.players@[i].xp == hs[i].xp
                    &&& save.players@[i].skin == grown[i].skin
                },
                forall|i: int| k <= i < grown.len() ==> #[trigger] save.players@[i] == grown[i],
                save.emeralds == old(save).emeralds,
                save.completed@ == old(save).completed@,
                save.secrets_found@ == old(save).secrets_found@,
                save.tier == old(save).tier,
                save.tier_unlocked == old(save).tier_unlocked,
                save.seed == old(save).seed,
                save.missions_played == old(save).missions_played,
            decreases n - k,
        {
            let h = heroes.remove(0);
            assert(h == hs[k as int]);
            let old_p = save.players.remove(k);
            let p = PlayerSave { inventory: h.inventory, level: h.level, xp: h.xp, skin: old_p.skin };
            save.players.insert(k, p);
            assert(heroes@ =~= hs.subrange(k + 1, n as int));
            k += 1;
        }
        save.record_mission(mission_id, victory, emeralds, rune_found);
        if victory {
            let power = save.hero_power();
            camp.restock(power);
            assert(restocked_for(*camp, power));
        }
        self.end_victory = victory;
        self.screen = Screen::End;
        self.sel = 0;
        let mut acts: Vec<MenuAction> = Vec::new();
        acts.push(MenuAction::Store);
        acts.push(MenuAction::PlayMusic(if victory { Music::Victory } else { Music::Menu }));
        acts
    }
}

/// The merchant holds a fresh restock for a hero of power `p`: four items
/// of power `p + 1` or `p + 2` and two artifacts of power `p + 1`, each a
/// fresh offer (see `Camp::restock`).
pub open spec fn restocked_for(c: Camp, p: u32) -> bool {
    &&& c.stock@.len() == 4
    &&& forall|i: int| 0 <= i < 4 ==> fresh_offer(#[trigger] c.stock@[i], p + 1, p + 2)
    &&& c.artifacts_stock@.len() == 2
    &&& forall|i: int| 0 <= i < 2 ==> fresh_offer(#[trigger] c.artifacts_stock@[i], p + 1, p + 1) && c.artifacts_stock@[i].0.class is Art
}

/// What `Menu::finish_mission` needs: the emeralds and the mission count
/// fit, and after a victory the first hero's power leaves room for the
/// merchant's bonus.
pub open spec fn finish_ok(save: Save, victory: bool, emeralds: u32, heroes: Seq<HeroProgress>) -> bool {
    &&& victory ==> save.emeralds + emeralds <= u32::MAX
    &&& save.missions_played < u32::MAX
    &&& victory && heroes.len() > 0 ==> powers_at_most(heroes[0].inventory, (u32::MAX - 3) as u32)
    &&& victory && heroes.len() == 0 && save.players@.len() > 0 ==> powers_at_most(
        save.players@[0].inventory,
        (u32::MAX - 3) as u32,
    )
}

/// Whether `Menu::finish_mission` may be called (see `finish_ok`).
pub fn finish_possible(save: &Save, victory: bool, emeralds: u32, heroes: &Vec<HeroProgress>) -> (b: bool)
    ensures
        b == finish_ok(*save, victory, emeralds, heroes@),
{
    if victory && save.emeralds > u32::MAX - emeralds {
        return false;
    }
    if save.missions_played == u32::MAX {
        return false;
    }
    if victory && heroes.len() > 0 {
        let p = heroes[0].inventory.power();
        return p <= u32::MAX - 3;
    }
    if victory && heroes.len() == 0 && save.players.len() > 0 {
        let p = save.players[0].inventory.power();
        return p <= u32::MAX - 3;
    }
    true
}

/// Which part of the menus reads the keys this frame.
#[derive(Clone, Copy, PartialEq, Eq, Debug, Structural)]
pub enum MenuRoute {
    HeroEditor,
    MainMenu,
    Inventory,
    Camp,
    Pause,
    Mission,
    End,
}

/// The part of the menus of a state: the hero editor over the main menu,
/// the inventory over the camp or a mission, the pause menu over a
/// mission.
pub open spec fn spec_route(m: Menu) -> MenuRoute {
    match m.screen {
        Screen::MainMenu => if m.hero_open { MenuRoute::HeroEditor } else { MenuRoute::MainMenu },
        Screen::Camp => if m.inv_open { MenuRoute::Inventory } else { MenuRoute::Camp },
        Screen::Playing => if m.inv_open {
            MenuRoute::Inventory
        } else if m.paused {
            MenuRoute::Pause
        } else {
            MenuRoute::Mission
        },
        Screen::End => MenuRoute::End,
    }
}

impl Menu {
    /// The part of the menus that reads the keys (see `spec_route`).
    pub fn route(&self) -> (r: MenuRoute)
        ensures
            r == spec_route(*self),
    {
        match self.screen {
            Screen::MainMenu => if self.hero_open { MenuRoute::HeroEditor } else { MenuRoute::MainMenu },
            Screen::Camp => if self.inv_open { MenuRoute::Inventory } else { MenuRoute::Camp },
            Screen::Playing => if self.inv_open {
                MenuRoute::Inventory
            } else if self.paused {
                MenuRoute::Pause
            } else {
                MenuRoute::Mission
            },
            Screen::End => MenuRoute::End,
        }
    }

    /// The mission runs this frame: playing, neither paused nor in the
    /// inventory.
    pub fn mission_runs(&self) -> (b: bool)
        ensures
            b == (self.screen == Screen::Playing && !self.paused && !self.inv_open),
    {
        self.screen == Screen::Playing && !self.paused && !self.inv_open
    }
}

/// The menu cursors never leave their ranges: the hero editor's cursor
/// stays on its four buttons and the carousel on the skins; the main
/// menu's cursor on its five buttons, the pause menu's on its three, the
/// camp's on the entries of its tab.
pub proof fn law_menu_cursors_stay_in_range(
    m: Menu,
    nav: UINav,
    keys: MenuKeys,
    next_mission: usize,
    saved_skin: int,
    n_skins: int,
    n_entries: int,
)
    requires
        m.well_formed(),
        0 <= m.hero_sel < n_skins,
        0 <= saved_skin,
    ensures
        hero_frame(m, nav, saved_skin, n_skins).0.hero_cursor <= 3,
        hero_frame(m, nav, saved_skin, n_skins).0.hero_sel < n_skins,
        m.sel <= 4 ==> main_menu(m, nav, keys, next_mission, saved_skin, n_skins).0.sel <= 4,
        m.sel <= 2 ==> pause_menu(m, nav).0.sel <= 2,
        m.sel < n_entries ==> camp_nav(m, nav, n_entries).0.sel < n_entries,
{
}

} // verus!
