//! Menu buttons and the application state machine that they drive.

use crate::cam_ctrl::{CamMoveDir, CamState};
use crate::tilemap::TileType;
use crate::AppState;
use vstd::prelude::*;

verus! {

/// What the pointer does to a button.
#[derive(Debug, Clone, Copy, PartialEq, Eq, Hash, Structural)]
pub enum Interaction {
    Pressed,
    Hovered,
    /// The pointer is elsewhere.
    Idle,
}

/// Entry of a menu.
#[derive(Debug, Clone, Copy, PartialEq, Eq, Hash, Structural)]
pub enum MenuType {
    StartGame,
    Settings,
    LevelEdit,
    Save,
    Load,
    Exit,
    Clear,
}

/// What a button stands for: a menu entry, or a tile classification of the
/// editor's palette.
#[derive(Debug, Clone, Copy, PartialEq, Eq, Hash, Structural)]
pub enum ButtonType {
    Menu(MenuType),
    Editor(TileType),
}

/// The interaction that a button showed in the frame before.
#[derive(Debug, Clone, Copy, PartialEq, Eq, Hash, Structural)]
pub struct PreviousButtonState(pub Interaction);

/// Appearance class of a button; the renderer turns it into a colour.
#[derive(Debug, Clone, Copy, PartialEq, Eq, Hash, Structural)]
pub enum ButtonColor {
    Normal,
    Hovered,
    Pressed,
}

/// What the menu does about one button whose interaction changed.
#[derive(Debug, Clone, Copy, PartialEq, Eq, Hash, Structural)]
pub struct MenuOutcome {
    /// The button's new colour.
    pub color: ButtonColor,
    /// The application state to change to, if any.
    pub next_state: Option<AppState>,
    /// Whether the start of a game is announced.
    pub start_game: bool,
    /// Whether the menu is hidden.
    pub hide_menu: bool,
    /// Whether the application is asked to quit.
    pub exit: bool,
}

impl Default for Interaction {
    fn default() -> (interaction: Self)
        ensures
            interaction == Interaction::Idle,
    {
        Interaction::Idle
    }
}

impl Default for PreviousButtonState {
    fn default() -> (previous: Self)
        ensures
            previous == PreviousButtonState(Interaction::Idle),
    {
        PreviousButtonState(Interaction::Idle)
    }
}

/// The colour that a button shows under `interaction`.
pub open spec fn button_color(interaction: Interaction) -> ButtonColor {
    match interaction {
        Interaction::Pressed => ButtonColor::Pressed,
        Interaction::Hovered => ButtonColor::Hovered,
        Interaction::Idle => ButtonColor::Normal,
    }
}

/// The application states in which the menu's buttons react.
pub open spec fn menu_active(app_state: AppState) -> bool {
    app_state == AppState::StartMenu || app_state == AppState::PauseMenu || app_state
        == AppState::InEditor
}

/// The outcome for a button of type `button_type` under `interaction`. Only
/// a press of one of the four entries of the main menu does more than
/// recolour the button.
pub open spec fn menu_outcome(interaction: Interaction, button_type: ButtonType) -> MenuOutcome {
    let pressed = interaction == Interaction::Pressed;
    let color = button_color(interaction);
    if pressed && button_type == ButtonType::Menu(MenuType::StartGame) {
        MenuOutcome {
            color,
            next_state: Some(AppState::ToGame),
            start_game: true,
            hide_menu: true,
            exit: false,
        }
    } else if pressed && button_type == ButtonType::Menu(MenuType::Settings) {
        MenuOutcome {
            color,
            next_state: Some(AppState::Settings),
            start_game: false,
            hide_menu: true,
            exit: false,
        }
    } else if pressed && button_type == ButtonType::Menu(MenuType::LevelEdit) {
        MenuOutcome {
            color,
            next_state: Some(AppState::ToEditor),
            start_game: false,
            hide_menu: true,
            exit: false,
        }
    } else if pressed && button_type == ButtonType::Menu(MenuType::Exit) {
        MenuOutcome {
            color,
            next_state: Some(AppState::Exit),
            start_game: false,
            hide_menu: false,
            exit: true,
        }
    } else {
        MenuOutcome { color, next_state: None, start_game: false, hide_menu: false, exit: false }
    }
}

/// The application state to which leaving the pause menu returns, read off
/// the camera: the state of the view that it shows, or the state of
/// transition toward the view to which it moves.
pub open spec fn resumed(cam_state: CamState) -> AppState {
    match cam_state {
        CamState::EditorView => AppState::InEditor,
        CamState::GameView => AppState::InGame,
        CamState::Moving(CamMoveDir::MoveToEditor) => AppState::ToEditor,
        CamState::Moving(CamMoveDir::MoveToGame) => AppState::ToGame,
    }
}

/// Decides what happens about one button whose interaction changed.
/// `None` in the application states in which the menu does not react.
pub fn menu_button_system(
    app_state: &AppState,
    interaction: &Interaction,
    button_type: &ButtonType,
) -> (outcome: Option<MenuOutcome>)
    ensures
        outcome == (if menu_active(*app_state) {
            Some(menu_outcome(*interaction, *button_type))
        } else {
            None
        }),
{
    match app_state {
        AppState::StartMenu | AppState::PauseMenu | AppState::InEditor => {},
        _ => {
            return None;
        },
    }
    let mut outcome = MenuOutcome {
        color: ButtonColor::Normal,
        next_state: None,
        start_game: false,
        hide_menu: false,
        exit: false,
    };
    match interaction {
        Interaction::Pressed => {
            outcome.color = ButtonColor::Pressed;
            match button_type {
                ButtonType::Menu(MenuType::StartGame) => {
                    outcome.next_state = Some(AppState::ToGame);
                    outcome.start_game = true;
                    outcome.hide_menu = true;
                },
                ButtonType::Menu(MenuType::Settings) => {
                    outcome.next_state = Some(AppState::Settings);
                    outcome.hide_menu = true;
                },
                ButtonType::Menu(MenuType::LevelEdit) => {
                    outcome.next_state = Some(AppState::ToEditor);
                    outcome.hide_menu = true;
                },
                ButtonType::Menu(MenuType::Exit) => {
                    outcome.next_state = Some(AppState::Exit);
                    outcome.exit = true;
                },
                _ => {},
            }
        },
        Interaction::Hovered => {
            outcome.color = ButtonColor::Hovered;
        },
        Interaction::Idle => {},
    }
    Some(outcome)
}

/// The pause key. `Some(PauseMenu)` opens the pause menu; `None` where
/// pausing is not allowed: in the pause menu itself and in the start menu.
pub fn pause_menu(app_state: &AppState) -> (next: Option<AppState>)
    ensures
        next == (if *app_state == AppState::PauseMenu || *app_state == AppState::StartMenu {
            None
        } else {
            Some(AppState::PauseMenu)
        }),
{
    match app_state {
        AppState::PauseMenu | AppState::StartMenu => None,
        _ => Some(AppState::PauseMenu),
    }
}

/// The pause key while the pause menu is open. `Some(state)` closes the menu
/// and resumes in `state`, which follows the camera; `None` in every other
/// application state.
pub fn escape_active_menu(app_state: &AppState, cam_state: &CamState) -> (next: Option<AppState>)
    ensures
        next == (if *app_state == AppState::PauseMenu {
            Some(resumed(*cam_state))
        } else {
            None
        }),
{
    match app_state {
        AppState::PauseMenu => {},
        _ => {
            return None;
        },
    }
    Some(
        match cam_state {
            CamState::EditorView => AppState::InEditor,
            CamState::GameView => AppState::InGame,
            CamState::Moving(CamMoveDir::MoveToEditor) => AppState::ToEditor,
            CamState::Moving(CamMoveDir::MoveToGame) => AppState::ToGame,
        },
    )
}

/// Records the interaction that a button shows, for the frame that follows.
pub fn update_prev_button_state(previous: &mut PreviousButtonState, interaction: &Interaction)
    ensures
        *final(previous) == PreviousButtonState(*interaction),
{
    previous.0 = *interaction;
}

/// No button of the menu commits `InEditor` or `InGame`: a press asks for
/// the state of transition, and the camera commits the view's state once
/// its move has ended.
pub proof fn lemma_menu_commits_no_view(interaction: Interaction, button_type: ButtonType)
    ensures
        menu_outcome(interaction, button_type).next_state != Some(AppState::InEditor),
        menu_outcome(interaction, button_type).next_state != Some(AppState::InGame),
{
}

/// Leaving the pause menu lands in `InEditor` or `InGame` only where the
/// camera shows the view of that state.
pub proof fn lemma_resume_follows_camera(cam_state: CamState)
    ensures
        resumed(cam_state) == AppState::InEditor <==> cam_state == CamState::EditorView,
        resumed(cam_state) == AppState::InGame <==> cam_state == CamState::GameView,
{
}

} // verus!
