//! Game client logic: application states, the loading transition, chat and cursor handling.
use vstd::prelude::*;

pub mod chat;
pub mod cursor;
pub mod input;
pub mod loading;
pub mod voxel;

verus! {

/// The main application state, controlling e.g. whether we are in game or in the main menu.
#[derive(Clone, Copy, Debug, PartialEq, Eq, Structural)]
pub enum ClientAppState {
    /// The main menu for the game.
    MainMenu,
    /// The transition state that sets up the internal game state while streaming bootstrap
    /// data from the network.
    LoadingGame,
    /// The actual game, everything needed to run it is fully loaded at this point.
    InGame,
}

/// The tag for systems that should run in the main menu.
#[derive(Clone, Copy, Debug, PartialEq, Eq, Structural)]
pub struct MainMenuSystemSet;

/// The tag for systems that should run while loading a game.
#[derive(Clone, Copy, Debug, PartialEq, Eq, Structural)]
pub struct LoadingGameSystemSet;

impl MainMenuSystemSet {
    /// The set runs in the main menu only.
    pub fn runs_in(&self, state: ClientAppState) -> (r: bool)
        ensures
            r == (state == ClientAppState::MainMenu),
    {
        state == ClientAppState::MainMenu
    }
}

impl LoadingGameSystemSet {
    /// The set runs while loading a game only.
    pub fn runs_in(&self, state: ClientAppState) -> (r: bool)
        ensures
            r == (state == ClientAppState::LoadingGame),
    {
        state == ClientAppState::LoadingGame
    }
}

/// Whether the client's packet and entity processing runs: while loading or in game, with an
/// authenticated connection and its network thread present.
pub fn network_processing_runs(state: ClientAppState, authenticated: bool, has_network_thread: bool) -> (r: bool)
    ensures
        r == ((state == ClientAppState::LoadingGame || state == ClientAppState::InGame) && authenticated
            && has_network_thread),
{
    (state == ClientAppState::LoadingGame || state == ClientAppState::InGame) && authenticated && has_network_thread
}

} // verus!
