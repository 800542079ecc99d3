//! Player identity, credentials, score, and the authentication messages.

use vstd::prelude::*;

use crate::lobby::{fresh_id_bits, PlayerId};

verus! {

/// A player in the game: a stable identity plus the server-held flag that
/// gates movement commands.
#[derive(Debug, Clone, Copy, PartialEq, Eq, Structural)]
pub struct Player {
    pub id: PlayerId,
    pub can_move: bool,
}

impl Player {
    /// A brand-new player: fresh identity, not yet allowed to move.
    pub fn new() -> (r: Self)
        ensures
            !r.can_move,
    {
        Player { id: PlayerId::new(), can_move: false }
    }
}

impl Player {
    /// Grants or revokes movement: granted when the ball settles outside
    /// a hole sensor, revoked the moment a movement command is applied and
    /// while the ball is still in motion.
    pub fn set_can_move(&mut self, can_move: bool)
        ensures
            final(self).id == old(self).id,
            final(self).can_move == can_move,
    {
        self.can_move = can_move;
    }
}

impl From<PlayerId> for Player {
    /// Wraps a known identity; the player starts out unable to move.
    fn from(id: PlayerId) -> (r: Player) {
        Player { id, can_move: false }
    }
}

impl vstd::std_specs::convert::FromSpecImpl<PlayerId> for Player {
    open spec fn obeys_from_spec() -> bool {
        true
    }

    open spec fn from_spec(id: PlayerId) -> Player {
        Player { id, can_move: false }
    }
}

/// The opaque secret bound to a player identity at first contact.
/// Credential equality is the sole proof of identity on reconnect.
#[derive(Debug, Clone, Copy, PartialEq, Eq, Structural)]
pub struct PlayerCredentials {
    pub secret: u128,
}

impl Default for PlayerCredentials {
    /// A freshly generated secret, drawn from the UUID generator.
    fn default() -> Self {
        PlayerCredentials { secret: fresh_id_bits() }
    }
}

/// How many strokes a player has taken in the current game.
#[derive(Debug, Clone, Copy, PartialEq, Eq, Structural)]
pub struct PlayerScore {
    pub score: u32,
}

impl Default for PlayerScore {
    fn default() -> (r: Self)
        ensures
            r.score == 0,
    {
        PlayerScore { score: 0 }
    }
}

impl PlayerScore {
    /// Counts one more stroke; the count saturates at its maximum rather
    /// than wrapping.
    pub fn increment(&mut self)
        ensures
            old(self).score < u32::MAX ==> final(self).score == old(self).score + 1,
            old(self).score == u32::MAX ==> final(self).score == u32::MAX,
    {
        if self.score < u32::MAX {
            self.score = self.score + 1;
        }
    }
}

/// Client-to-server request to bind this connection to a known player.
#[derive(Debug, Clone, Copy, PartialEq, Eq, Structural)]
pub struct AuthenticatePlayer {
    pub id: PlayerId,
    pub credentials: PlayerCredentials,
}

/// Server-to-client prompt sent right after a game connection is accepted.
#[derive(Debug, Clone, Copy, PartialEq, Eq, Structural)]
pub struct RequestAuthentication;

} // verus!
