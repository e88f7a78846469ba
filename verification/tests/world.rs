use mdungeons::input::{enchant_nav, inventory_nav, UINav};
use mdungeons::text::push_decimal;
use mdungeons::world::{Block, Decor, Tile};

#[test]
fn block_textures() {
    assert_eq!(Block::Grass.tex(), ("grass_top", "grass_side", "dirt"));
    assert_eq!(Block::Podzol.tex(), ("podzol", "podzol", "dirt"));
    assert_eq!(Block::Log.tex(), ("log_top", "log_side", "log_top"));
    assert_eq!(Block::RedSand.tex(), ("red_sand", "red_sand", "red_sand"));
}

#[test]
fn solidity() {
    assert!(Decor::Tree.solid());
    assert!(Decor::Chest { opened: true }.solid());
    assert!(Decor::Portal { active: false }.solid());
    assert!(!Decor::Torch.solid());
    assert!(!Decor::Lever { pulled: false }.solid());
    assert!(!Decor::Fence.solid());
    let open = Tile { ground: Block::Water, wall: 0, wall_block: Block::Log, decor: None };
    assert!(!open.solid());
    assert!(open.is_water());
    let wall = Tile { ground: Block::Grass, wall: 1, wall_block: Block::Log, decor: None };
    assert!(wall.solid());
    assert!(!wall.is_water());
    let rock = Tile { decor: Some(Decor::Rock), ..open };
    assert!(rock.solid());
    let bush = Tile { decor: Some(Decor::Bush), ..open };
    assert!(!bush.solid());
}

#[test]
fn decimal_rendering() {
    let mut s = String::from("n=");
    push_decimal(&mut s, 0);
    assert_eq!(s, "n=0");
    let mut s = String::new();
    push_decimal(&mut s, 4294967295);
    assert_eq!(s, "4294967295");
    let mut s = String::new();
    push_decimal(&mut s, 1020);
    assert_eq!(s, "1020");
}

fn nav(up: bool, down: bool, left: bool, right: bool) -> UINav {
    UINav { up, down, left, right, confirm: false, cancel: false }
}

#[test]
fn inventory_cursor_moves() {
    // 6 equipment slots + 2 stash items: slots 0..8, buttons 100..=102
    assert_eq!(inventory_nav(0, 2, nav(false, false, false, true)), 1);
    assert_eq!(inventory_nav(7, 2, nav(false, false, false, true)), 100);
    assert_eq!(inventory_nav(100, 2, nav(false, false, true, false)), 7);
    assert_eq!(inventory_nav(101, 2, nav(false, false, true, false)), 100);
    assert_eq!(inventory_nav(102, 2, nav(false, false, false, true)), 102);
    assert_eq!(inventory_nav(4, 2, nav(false, true, false, false)), 7);
    assert_eq!(inventory_nav(5, 2, nav(false, true, false, false)), 100);
    assert_eq!(inventory_nav(101, 2, nav(true, false, false, false)), 7);
    assert_eq!(inventory_nav(2, 2, nav(true, false, false, false)), 0);
    assert_eq!(inventory_nav(0, 2, nav(false, false, true, false)), 0);
    assert_eq!(inventory_nav(30, 2, nav(false, false, false, false)), 7);
    assert_eq!(inventory_nav(205, 2, nav(false, false, false, false)), 102);
    assert_eq!(UINav::default(), nav(false, false, false, false));
}

#[test]
fn enchant_cursor_moves() {
    assert_eq!(enchant_nav(200, 3, nav(true, false, false, false)), 200);
    assert_eq!(enchant_nav(201, 3, nav(true, false, false, false)), 200);
    assert_eq!(enchant_nav(201, 3, nav(false, true, false, false)), 202);
    assert_eq!(enchant_nav(202, 3, nav(false, true, false, false)), 202);
    assert_eq!(enchant_nav(202, 3, nav(false, false, false, false)), 202);
}
