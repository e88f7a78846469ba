use vstd::prelude::*;

pub mod audio;
pub mod combat;
pub mod consts;
pub mod game;
pub mod gen;
pub mod input;
pub mod inventory;
pub mod inventory_screen;
pub mod items;
pub mod loot;
pub mod menu;
pub mod missions;
pub mod models;
pub mod progress;
pub mod progression;
pub mod realmaps;
pub mod rng;
pub mod rounding;
pub mod shop;
pub mod text;
pub mod world;
