//! The camera's state machine: which of the two fixed views it shows, or
//! toward which it is moving.

use crate::AppState;
use vstd::prelude::*;

verus! {

/// Direction of a camera move.
#[derive(Debug, Clone, Copy, PartialEq, Eq, Hash, Structural)]
pub enum CamMoveDir {
    MoveToEditor,
    MoveToGame,
}

/// What the camera shows.
#[derive(Debug, Clone, Copy, PartialEq, Eq, Hash, Structural)]
pub enum CamState {
    GameView,
    EditorView,
    Moving(CamMoveDir),
}

impl Default for CamState {
    fn default() -> (state: Self)
        ensures
            state == CamState::GameView,
    {
        CamState::GameView
    }
}

impl CamMoveDir {
    /// The view from which a move in this direction sets out.
    pub open spec fn origin(self) -> CamState {
        match self {
            CamMoveDir::MoveToEditor => CamState::GameView,
            CamMoveDir::MoveToGame => CamState::EditorView,
        }
    }

    /// The view at which a move in this direction ends.
    pub open spec fn target(self) -> CamState {
        match self {
            CamMoveDir::MoveToEditor => CamState::EditorView,
            CamMoveDir::MoveToGame => CamState::GameView,
        }
    }

    /// The application state that belongs to the view at the end of the move.
    pub open spec fn landing(self) -> AppState {
        match self {
            CamMoveDir::MoveToEditor => AppState::InEditor,
            CamMoveDir::MoveToGame => AppState::InGame,
        }
    }

    /// Place of this direction's clip among the camera's animations, which
    /// are registered as the move to the game view, then the move to the
    /// editor view.
    pub fn clip_index(&self) -> (index: usize)
        ensures
            index == (match *self {
                CamMoveDir::MoveToEditor => 1usize,
                CamMoveDir::MoveToGame => 0usize,
            }),
    {
        match self {
            CamMoveDir::MoveToEditor => 1,
            CamMoveDir::MoveToGame => 0,
        }
    }
}

/// What a request for a move in direction `dir` does in state `state`: the
/// state of the move that begins, or nothing where the request is ignored.
/// A move begins only from the view opposite to its target.
pub open spec fn requested(state: CamState, dir: CamMoveDir) -> Option<CamState> {
    if state == dir.origin() {
        Some(CamState::Moving(dir))
    } else {
        None
    }
}

/// What the end of the camera's animation does in state `state`: the view
/// and the application state that are committed, or nothing where no move
/// was under way or the animation still runs.
pub open spec fn finished(state: CamState, all_finished: bool) -> Option<(CamState, AppState)> {
    match state {
        CamState::Moving(dir) => if all_finished {
            Some((dir.target(), dir.landing()))
        } else {
            None
        },
        _ => None,
    }
}

/// How many clips are played when a move in direction `dir` is requested
/// `times` times in a row, starting in state `state`.
pub open spec fn playbacks(state: CamState, dir: CamMoveDir, times: nat) -> nat
    decreases times,
{
    if times == 0 {
        0
    } else {
        match requested(state, dir) {
            Some(moving) => 1 + playbacks(moving, dir, (times - 1) as nat),
            None => playbacks(state, dir, (times - 1) as nat),
        }
    }
}

/// Request for the editor view. `Some(state)` begins the move: the caller
/// takes `state` as the camera's state, stops the running clips and plays
/// the clip of the move. `None` leaves everything as it is.
pub fn cam_move_edit(cam_state: &CamState) -> (next: Option<CamState>)
    ensures
        next == requested(*cam_state, CamMoveDir::MoveToEditor),
{
    match cam_state {
        CamState::GameView => Some(CamState::Moving(CamMoveDir::MoveToEditor)),
        _ => None,
    }
}

/// Request for the game view; see `cam_move_edit`.
pub fn cam_move_game(cam_state: &CamState) -> (next: Option<CamState>)
    ensures
        next == requested(*cam_state, CamMoveDir::MoveToGame),
{
    match cam_state {
        CamState::EditorView => Some(CamState::Moving(CamMoveDir::MoveToGame)),
        _ => None,
    }
}

/// Called while the camera moves, with whether all of its animation has
/// finished. `Some` commits the view that was reached and the application
/// state that belongs to it.
pub fn cam_finished(cam_state: &CamState, all_finished: bool) -> (done: Option<(CamState, AppState)>)
    ensures
        done == finished(*cam_state, all_finished),
{
    if !all_finished {
        return None;
    }
    match cam_state {
        CamState::Moving(CamMoveDir::MoveToEditor) => Some(
            (CamState::EditorView, AppState::InEditor),
        ),
        CamState::Moving(CamMoveDir::MoveToGame) => Some((CamState::GameView, AppState::InGame)),
        _ => None,
    }
}

/// While the camera moves, every request is ignored.
pub proof fn lemma_request_ignored_while_moving(under_way: CamMoveDir, dir: CamMoveDir)
    ensures
        requested(CamState::Moving(under_way), dir) is None,
{
}

/// However often a move toward one view is requested in a row, at most one
/// clip is played, and exactly one where the first request was accepted.
pub proof fn lemma_repeated_request_plays_once(state: CamState, dir: CamMoveDir, times: nat)
    ensures
        playbacks(state, dir, times) <= 1,
        times >= 1 && state == dir.origin() ==> playbacks(state, dir, times) == 1,
        state != dir.origin() ==> playbacks(state, dir, times) == 0,
    decreases times,
{
    if times > 0 {
        match requested(state, dir) {
            Some(moving) => {
                lemma_repeated_request_plays_once(moving, dir, (times - 1) as nat);
            },
            None => {
                lemma_repeated_request_plays_once(state, dir, (times - 1) as nat);
            },
        }
    }
}

/// A move that was begun by a request ends, once its animation has
/// finished, in the view that was asked for and in the application state of
/// that view, never in a state of transition; before that, nothing is
/// committed.
pub proof fn lemma_move_lands_in_target(state: CamState, dir: CamMoveDir)
    requires
        requested(state, dir) is Some,
    ensures
        finished(requested(state, dir)->0, true) == Some((dir.target(), dir.landing())),
        finished(requested(state, dir)->0, false) is None,
        dir == CamMoveDir::MoveToEditor ==> dir.landing() == AppState::InEditor,
        dir == CamMoveDir::MoveToGame ==> dir.landing() == AppState::InGame,
{
}

/// Whatever the camera's state, the end of a move commits the application
/// state `InEditor` together with the editor view or `InGame` together with
/// the game view, and nothing else.
pub proof fn lemma_finish_commits_matching_states(state: CamState, all_finished: bool)
    ensures
        finished(state, all_finished) matches Some((view, app)) ==> (view == CamState::EditorView
            && app == AppState::InEditor) || (view == CamState::GameView && app
            == AppState::InGame),
{
}

} // verus!
