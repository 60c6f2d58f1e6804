//! Core logic of an isometric tower-defense game: the tile map, the
//! enemy-path validator and the mode state machines.

use vstd::prelude::*;

pub mod cam_ctrl;
pub mod editor;
pub mod enemy;
pub mod path;
pub mod path_laws;
pub mod tilemap;
pub mod ui;

verus! {

/// Top-level mode of the application.
#[derive(Debug, Clone, Copy, PartialEq, Eq, Hash, Structural)]
pub enum AppState {
    StartMenu,
    InGame,
    InEditor,
    PauseMenu,
    Settings,
    ToEditor,
    ToGame,
    Exit,
}

impl Default for AppState {
    fn default() -> (state: Self)
        ensures
            state == AppState::StartMenu,
    {
        AppState::StartMenu
    }
}

} // verus!
