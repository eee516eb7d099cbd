//! Top-level game states and the game mode.

use vstd::prelude::*;

verus! {

/// Top-level application state.
#[derive(Clone, Copy, Debug, PartialEq, Eq, Hash, Structural)]
pub enum GameState {
    MainMenu,
    Playing,
    GameOver,
}

/// Phase of a run while `Playing`.
#[derive(Clone, Copy, Debug, PartialEq, Eq, Hash, Structural)]
pub enum PlayPhase {
    Building,
    Defending,
}

/// Classic (wave-based) or endless play.
#[derive(Clone, Copy, Debug, PartialEq, Eq, Hash, Structural)]
pub enum GameMode {
    Classic,
    Endless,
}

impl Default for GameState {
    fn default() -> (s: GameState)
        ensures
            s == GameState::MainMenu,
    {
        GameState::MainMenu
    }
}

impl Default for PlayPhase {
    fn default() -> (p: PlayPhase)
        ensures
            p == PlayPhase::Building,
    {
        PlayPhase::Building
    }
}

impl Default for GameMode {
    fn default() -> (m: GameMode)
        ensures
            m == GameMode::Classic,
    {
        GameMode::Classic
    }
}

} // verus!
