//! Multiplayer session orchestration for a physics-based minigolf game.
//!
//! The crate models the lobby directory, the lobby/game-server broker
//! protocol, the credential-based session authenticator, the nested
//! game/course/hole progression state machine, and the input-validation and
//! power-up engine that gates client commands before they may affect the
//! shared simulation.

pub mod auth;
pub mod broker;
pub mod client;
pub mod codec;
pub mod directory;
pub mod effects;
pub mod geom;
pub mod input;
pub mod lobby;
pub mod player;
pub mod power_ups;
pub mod progression;
pub mod protocol;

use vstd::prelude::*;

verus! {

/// Whether the game is currently being simulated or not.
#[derive(Debug, Clone, Copy, PartialEq, Eq, Structural)]
pub enum GameState {
    /// Game is not being simulated.
    Idle,
    /// Game is being simulated.
    Playing,
}

} // verus!
