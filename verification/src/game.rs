//! Session states of a mission run and of the application screens.

use vstd::prelude::*;

verus! {

#[derive(Clone, Copy, PartialEq, Eq, Debug, Structural)]
pub enum RunState {
    Running,
    Victory,
    Failed,
}

#[derive(Clone, Copy, PartialEq, Eq, Debug, Structural)]
pub enum Screen {
    MainMenu,
    Camp,
    Playing,
    End,
}

} // verus!
