//! What the user decided at startup: begin a new session with chosen
//! parameters, or resume the session restored from a saved state. The
//! interactive prompts and the file reading live with the caller; the
//! decision arrives here as a plain value.

use vstd::prelude::*;

use crate::gameconfig::GameConfig;
use crate::gamestate::Gamestate;

verus! {

/// The user's startup choice. `LoadGame` carries the restored session
/// state, already read and decoded by the caller.
pub enum StartupAction {
    NewGame(GameConfig),
    LoadGame(Gamestate),
}

} // verus!
