use mdungeons::audio::{Music, Sfx};
use mdungeons::game::Screen;
use mdungeons::input::UINav;
use mdungeons::inventory::Inventory;
use mdungeons::inventory_screen::InventoryKeys;
use mdungeons::items::{Item, ItemClass, MeleeClass, Rarity};
use mdungeons::menu::{camp_entries, finish_possible, HeroProgress, Menu, MenuAction, MenuKeys, MenuRoute};
use mdungeons::progress::Save;
use mdungeons::shop::Camp;

fn nav() -> UINav {
    UINav::default()
}

fn keys() -> MenuKeys {
    MenuKeys { hero_editor: false, controls: false, escape: false, inventory: false, pad_inventory: false }
}

fn sword(power: u32) -> Item {
    Item { name: String::new(), class: ItemClass::M(MeleeClass::Sword), power, rarity: Rarity::Common, enchants: Vec::new() }
}

#[test]
fn main_menu_to_camp() {
    let mut m = Menu::new();
    assert_eq!(m.route(), MenuRoute::MainMenu);
    let acts = m.main_menu_frame(UINav { confirm: true, ..nav() }, keys(), 3, 0, 8);
    assert_eq!(acts, vec![MenuAction::PlaySound(Sfx::UiClick), MenuAction::PlayMusic(Music::Menu)]);
    assert_eq!(m.screen, Screen::Camp);
    assert_eq!(m.sel, 0);
    assert_eq!(m.selected_mission, Some(3));
    assert_eq!(m.route(), MenuRoute::Camp);
}

#[test]
fn main_menu_cursor_and_quit() {
    let mut m = Menu::new();
    for _ in 0..6 {
        m.main_menu_frame(UINav { down: true, ..nav() }, keys(), 0, 0, 8);
    }
    assert_eq!(m.sel, 4);
    m.main_menu_frame(UINav { up: true, right: true, ..nav() }, keys(), 0, 0, 8);
    assert_eq!(m.sel, 4);
    let acts = m.main_menu_frame(UINav { confirm: true, ..nav() }, keys(), 0, 0, 8);
    assert_eq!(acts, vec![MenuAction::PlaySound(Sfx::UiClick), MenuAction::Quit]);
    assert_eq!(m.screen, Screen::MainMenu);
}

#[test]
fn controls_overlay() {
    let mut m = Menu::new();
    m.main_menu_frame(nav(), MenuKeys { controls: true, ..keys() }, 0, 0, 8);
    assert!(m.show_controls);
    // while shown, confirm only hides it
    let acts = m.main_menu_frame(UINav { confirm: true, ..nav() }, keys(), 0, 0, 8);
    assert!(acts.is_empty());
    assert!(!m.show_controls);
    assert_eq!(m.screen, Screen::MainMenu);
}

#[test]
fn hero_editor() {
    let mut m = Menu::new();
    let acts = m.main_menu_frame(nav(), MenuKeys { hero_editor: true, ..keys() }, 0, 12, 8);
    // the saved skin is past the catalog: the last skin is shown
    assert_eq!(acts, vec![MenuAction::PreviewSkin(7)]);
    assert!(m.hero_open);
    assert_eq!(m.hero_cursor, 2);
    assert_eq!(m.route(), MenuRoute::HeroEditor);
    // right wraps around the carousel
    let acts = m.hero_editor_frame(UINav { right: true, ..nav() }, 7, 8);
    assert_eq!(acts, vec![MenuAction::PreviewSkin(0)]);
    let acts = m.hero_editor_frame(UINav { left: true, ..nav() }, 7, 8);
    assert_eq!(acts, vec![MenuAction::PreviewSkin(7)]);
    let acts = m.hero_editor_frame(UINav { left: true, ..nav() }, 7, 8);
    assert_eq!(acts, vec![MenuAction::PreviewSkin(6)]);
    // apply
    let acts = m.hero_editor_frame(UINav { confirm: true, ..nav() }, 7, 8);
    assert_eq!(acts, vec![MenuAction::ApplySkin(6), MenuAction::Store]);
    assert!(!m.hero_open);
    // reopen, preview another skin, cancel: the saved skin comes back
    m.open_hero_editor(6, 8);
    m.hero_editor_frame(UINav { right: true, ..nav() }, 6, 8);
    let acts = m.hero_editor_frame(UINav { cancel: true, ..nav() }, 6, 8);
    assert_eq!(acts, vec![MenuAction::PreviewSkin(6)]);
    assert_eq!(m.hero_sel, 6);
    // cursor moves and clamps; "previous" button
    m.open_hero_editor(0, 8);
    m.hero_editor_frame(UINav { up: true, ..nav() }, 0, 8);
    m.hero_editor_frame(UINav { up: true, ..nav() }, 0, 8);
    m.hero_editor_frame(UINav { up: true, ..nav() }, 0, 8);
    assert_eq!(m.hero_cursor, 0);
    let acts = m.hero_editor_frame(UINav { confirm: true, ..nav() }, 0, 8);
    assert_eq!(acts, vec![MenuAction::PreviewSkin(7)]);
    assert!(m.hero_open);
}

#[test]
fn camp_tabs_and_missions() {
    let mut save = Save::new();
    let camp = Camp::new();
    let mut camp_mut = Camp::new();
    let mut m = Menu::new();
    m.screen = Screen::Camp;
    assert_eq!(camp_entries(0, 0, 0), 25);
    // map tab: first mission open, second locked
    m.sel = 4;
    m.camp_frame(nav(), &save, &camp);
    assert_eq!(m.selected_mission, Some(0));
    let acts = m.camp_activate(&mut save, &mut camp_mut);
    assert_eq!(acts, vec![MenuAction::PlaySound(Sfx::UiClick), MenuAction::StartMission(0)]);
    m.camp_frame(UINav { right: true, ..nav() }, &save, &camp);
    assert_eq!(m.selected_mission, Some(1));
    let acts = m.camp_activate(&mut save, &mut camp_mut);
    assert_eq!(acts, vec![MenuAction::PlaySound(Sfx::UiClick)]);
    // tiers: only the first is unlocked
    m.sel = 4 + 16 + 1;
    let acts = m.camp_activate(&mut save, &mut camp_mut);
    assert_eq!(acts, vec![MenuAction::PlaySound(Sfx::UiClick)]);
    assert_eq!(save.tier, 0);
    save.tier_unlocked = 2;
    let acts = m.camp_activate(&mut save, &mut camp_mut);
    assert_eq!(acts, vec![MenuAction::PlaySound(Sfx::UiClick), MenuAction::Store]);
    assert_eq!(save.tier, 1);
    // co-op switch, then the launch button starts the selected mission
    m.sel = 4 + 19;
    let acts = m.camp_activate(&mut save, &mut camp_mut);
    assert_eq!(acts, vec![MenuAction::PlaySound(Sfx::UiClick), MenuAction::ToggleCoop, MenuAction::Store]);
    m.sel = 4 + 20;
    m.selected_mission = Some(0);
    let acts = m.camp_activate(&mut save, &mut camp_mut);
    assert_eq!(acts, vec![MenuAction::PlaySound(Sfx::UiClick), MenuAction::StartMission(0)]);
    // the cursor stops at the last entry
    for _ in 0..10 {
        m.camp_frame(UINav { down: true, ..nav() }, &save, &camp);
    }
    assert_eq!(m.sel, 24);
    // tab buttons; cancel goes back to the map tab, then to the main menu
    m.sel = 1;
    m.camp_activate(&mut save, &mut camp_mut);
    assert_eq!((m.tab, m.sel), (1, 4));
    let acts = m.camp_frame(UINav { cancel: true, ..nav() }, &save, &camp);
    assert!(acts.is_empty());
    assert_eq!((m.tab, m.sel), (0, 0));
    let acts = m.camp_frame(UINav { cancel: true, ..nav() }, &save, &camp);
    assert_eq!(acts, vec![MenuAction::PlayMusic(Music::Menu)]);
    assert_eq!(m.screen, Screen::MainMenu);
    // the fourth tab button opens the inventory
    m.screen = Screen::Camp;
    m.sel = 3;
    m.camp_activate(&mut save, &mut camp_mut);
    assert!(m.inv_open);
    assert_eq!(m.route(), MenuRoute::Inventory);
}

#[test]
fn merchant_and_blacksmith() {
    let mut save = Save::new();
    let mut camp = Camp::new();
    camp.restock(3);
    let mut m = Menu::new();
    m.screen = Screen::Camp;
    m.tab = 1;
    m.sel = 4;
    let price = camp.stock[0].1;
    save.emeralds = price - 1;
    assert!(m.camp_activation_possible(&save, &camp));
    let acts = m.camp_activate(&mut save, &mut camp);
    assert_eq!(acts, vec![MenuAction::PlaySound(Sfx::UiClick)]);
    assert_eq!(camp.stock.len(), 4);
    save.emeralds = price + 10;
    let acts = m.camp_activate(&mut save, &mut camp);
    assert_eq!(acts, vec![MenuAction::PlaySound(Sfx::UiClick), MenuAction::Store, MenuAction::RefreshArmor]);
    assert_eq!(camp.stock.len(), 3);
    assert_eq!(save.emeralds, 10);
    // blacksmith on a stash item: 60 × 3 = 180 emeralds for a common item of power 3
    save.players[0].inventory.stash.push(sword(3));
    let last = save.players[0].inventory.stash.len() - 1;
    m.tab = 2;
    m.sel = 4 + last;
    save.emeralds = 190;
    let acts = m.camp_activate(&mut save, &mut camp);
    assert_eq!(acts, vec![MenuAction::PlaySound(Sfx::UiClick), MenuAction::Store]);
    assert_eq!(save.players[0].inventory.stash[last].power, 4);
    assert_eq!(save.emeralds, 10);
    // no hero: nothing can be forged
    let mut empty = Save::new();
    empty.players.clear();
    assert!(!m.camp_activation_possible(&empty, &camp));
}

#[test]
fn pause_and_end() {
    let mut m = Menu::new();
    let acts = m.enter_mission();
    assert_eq!(acts, vec![MenuAction::PlayMusic(Music::Exploration)]);
    assert!(m.mission_runs());
    m.playing_frame(MenuKeys { escape: true, ..keys() });
    assert!(m.paused && m.sel == 0);
    assert_eq!(m.route(), MenuRoute::Pause);
    assert!(!m.mission_runs());
    m.pause_frame(UINav { down: true, ..nav() });
    m.pause_frame(UINav { down: true, ..nav() });
    m.pause_frame(UINav { down: true, ..nav() });
    assert_eq!(m.sel, 2);
    let acts = m.pause_frame(UINav { confirm: true, ..nav() });
    assert_eq!(acts, vec![MenuAction::FinishMission(false)]);
    let acts = m.pause_frame(UINav { cancel: true, ..nav() });
    assert!(acts.is_empty());
    assert!(!m.paused);
    let acts = m.playing_frame(MenuKeys { inventory: true, ..keys() });
    assert_eq!(acts, vec![MenuAction::PlaySound(Sfx::UiOpen)]);
    assert!(m.inv_open);
    m.screen = Screen::End;
    let acts = m.end_frame(UINav { confirm: true, ..nav() });
    assert_eq!(acts, vec![MenuAction::DropGame, MenuAction::PlayMusic(Music::Menu)]);
    assert_eq!(m.screen, Screen::Camp);
}

#[test]
fn finishing_missions() {
    let mut save = Save::new();
    let mut camp = Camp::new();
    let mut m = Menu::new();
    let mut inv = Inventory::starting();
    inv.stash.push(sword(7));
    let heroes = vec![
        HeroProgress { inventory: inv, level: 3, xp: 12 },
        HeroProgress { inventory: Inventory::starting(), level: 2, xp: 5 },
    ];
    assert!(finish_possible(&save, true, 40, &heroes));
    let acts = m.finish_mission(&mut save, &mut camp, 0, true, 40, false, heroes);
    assert_eq!(acts, vec![MenuAction::Store, MenuAction::PlayMusic(Music::Victory)]);
    assert_eq!(m.screen, Screen::End);
    assert!(m.end_victory);
    assert_eq!(save.players.len(), 2);
    assert_eq!((save.players[0].level, save.players[0].xp, save.players[0].skin), (3, 12, 0));
    assert_eq!((save.players[1].level, save.players[1].skin), (2, 1));
    assert_eq!(save.emeralds, 90);
    assert_eq!(save.completed, vec![0]);
    assert_eq!(save.missions_played, 1);
    // the merchant restocks for the new power (7): items of power 8 or 9
    assert_eq!(camp.stock.len(), 4);
    assert!(camp.stock.iter().all(|(it, _)| it.power == 8 || it.power == 9));
    // a defeat keeps the emeralds and the merchant
    let before = camp.stock.len();
    let acts = m.finish_mission(&mut save, &mut camp, 1, false, 40, false, Vec::new());
    assert_eq!(acts, vec![MenuAction::Store, MenuAction::PlayMusic(Music::Menu)]);
    assert_eq!(save.emeralds, 90);
    assert_eq!(save.completed, vec![0]);
    assert_eq!(camp.stock.len(), before);
    assert_eq!(save.missions_played, 2);
    assert!(!finish_possible(&save, true, u32::MAX, &Vec::new()));
}

#[test]
fn inventory_overlay() {
    let mut save = Save::new();
    save.players[0].inventory.stash.push(sword(5));
    let mut m = Menu::new();
    m.screen = Screen::Camp;
    m.inv_open = true;
    let ik = InventoryKeys { escape: false, toggle: false, quick: false };
    // move to the first stash slot (6) and equip it: the starting sword goes to the stash
    for _ in 0..6 {
        m.inventory_frame(UINav { right: true, ..nav() }, ik, &save);
    }
    assert_eq!(m.inv_sel, 6);
    let n = m.inventory_frame(UINav { confirm: true, ..nav() }, ik, &save);
    assert_eq!(n, 1);
    assert!(m.activation_possible(&save));
    let acts = m.inventory_activate(&mut save);
    assert_eq!(acts, vec![MenuAction::RefreshArmor, MenuAction::Store]);
    assert_eq!(save.players[0].inventory.melee.as_ref().unwrap().power, 5);
    assert_eq!(save.players[0].inventory.stash.len(), 1);
    assert_eq!(save.players[0].inventory.stash[0].power, 2);
    assert_eq!(m.inv_item_sel, 6);
    // the enchant button on a common item that already has its enchantment: no list
    m.inv_sel = 101;
    let acts = m.inventory_activate(&mut save);
    assert!(acts.is_empty());
    assert_eq!(m.inv_sel, 101);
    assert!(m.inv_enchant.is_none());
    // a rare sword of power 5 in the second stash slot (7)
    save.players[0].inventory.stash.push(Item { rarity: Rarity::Rare, ..sword(5) });
    m.inv_sel = 7;
    m.inventory_activate(&mut save);
    // equipping it puts the sword of power 5 back in the stash slot 7
    assert_eq!(m.inv_item_sel, 7);
    assert_eq!(save.players[0].inventory.melee.as_ref().unwrap().rarity, Rarity::Rare);
    assert_eq!(save.players[0].inventory.stash[1].rarity, Rarity::Common);
    // take the rare one off: it goes to the end of the stash
    m.inv_sel = 0;
    m.inventory_activate(&mut save);
    assert!(save.players[0].inventory.melee.is_none());
    assert_eq!(save.players[0].inventory.stash[2].rarity, Rarity::Rare);
    // enchant list of the rare sword (slot 8): 6 melee enchantments × 3 tiers
    m.inv_item_sel = 8;
    m.inv_sel = 101;
    let acts = m.inventory_activate(&mut save);
    assert!(acts.is_empty());
    assert_eq!(m.inv_sel, 200);
    assert_eq!(m.inv_enchant.as_ref().unwrap().len(), 18);
    // down then up: back on Sharpness tier 1, which costs the hero's only point
    m.inventory_frame(UINav { down: true, ..nav() }, ik, &save);
    assert_eq!(m.inv_sel, 201);
    m.inventory_frame(UINav { up: true, ..nav() }, ik, &save);
    assert_eq!(m.inv_sel, 200);
    let acts = m.inventory_activate(&mut save);
    assert!(acts.is_empty());
    assert!(m.inv_enchant.is_none());
    assert_eq!(save.players[0].inventory.stash[2].enchants.len(), 1);
    assert_eq!(save.players[0].inventory.enchant_points, 0);
    // salvage it (button 102): 35 % of 165 emeralds, plus 5 for its tier-1 enchantment
    m.inv_sel = 102;
    let emeralds = save.emeralds;
    let acts = m.inventory_activate(&mut save);
    assert_eq!(acts, vec![MenuAction::Store, MenuAction::RefreshArmor]);
    assert_eq!(save.players[0].inventory.stash.len(), 2);
    assert_eq!(save.emeralds, emeralds + 57 + 5);
    assert_eq!(save.players[0].inventory.enchant_points, 1);
    assert_eq!(m.inv_item_sel, 7);
    // the list cancel path
    m.inv_item_sel = 7;
    m.inv_enchant = Some(vec![(mdungeons::items::Enchant::Sharpness, 1, 1)]);
    m.inv_sel = 200;
    m.inventory_frame(UINav { cancel: true, ..nav() }, ik, &save);
    assert!(m.inv_enchant.is_none());
    assert_eq!(m.inv_sel, 100);
    // escape closes the overlay and, in the camp, goes back to the map tab
    m.tab = 2;
    m.inventory_frame(nav(), InventoryKeys { escape: true, ..ik }, &save);
    assert!(!m.inv_open);
    assert_eq!(m.tab, 0);
}
