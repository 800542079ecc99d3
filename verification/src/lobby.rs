//! Player and lobby identities.
//!
//! Identifiers are opaque 128-bit values drawn from the system's UUID
//! generator; lobby identifiers are the upper 64 bits of such a value.

use vstd::prelude::*;

verus! {

/// A globally unique, opaque 128-bit identifier.
#[derive(Debug, Clone, Copy, PartialEq, Eq, Structural, Hash)]
pub struct UniqueId {
    id: u128,
}

/// Relies on `uuid::Uuid::new_v4`: returns the 128 bits of a freshly
/// generated version-4 UUID. The value is random; nothing is assumed of it.
#[verifier::external_body]
pub(crate) fn fresh_id_bits() -> u128 {
    uuid::Uuid::new_v4().as_u128()
}

impl UniqueId {
    /// The bits this identifier holds.
    pub closed spec fn spec_bits(self) -> u128 {
        self.id
    }

    /// Draws a fresh identifier from the UUID generator.
    pub fn new() -> Self {
        UniqueId { id: fresh_id_bits() }
    }

    /// Builds the identifier holding exactly the given bits.
    pub fn from_bits(bits: u128) -> (r: Self)
        ensures
            r.spec_bits() == bits,
    {
        UniqueId { id: bits }
    }

    /// The raw 128 bits of this identifier.
    pub fn bits(&self) -> (r: u128)
        ensures
            r == self.spec_bits(),
    {
        self.id
    }
}

/// An identifier is nothing but its bits: identifiers with equal bits are
/// equal.
pub proof fn lemma_unique_id_bits(a: UniqueId, b: UniqueId)
    ensures
        a.spec_bits() == b.spec_bits() <==> a == b,
{
}

pub type PlayerId = UniqueId;

pub type LobbyId = u64;

/// Names one player as a member of one lobby; carried by join and leave
/// notifications.
#[derive(Debug, Clone, Copy, PartialEq, Eq, Structural)]
pub struct PlayerInLobby {
    pub lobby_id: LobbyId,
    pub player_id: PlayerId,
}

impl PlayerInLobby {
    pub fn new(lobby_id: LobbyId, player_id: PlayerId) -> (r: Self)
        ensures
            r.lobby_id == lobby_id,
            r.player_id == player_id,
    {
        PlayerInLobby { lobby_id, player_id }
    }
}

/// Marks a session or record as belonging to one lobby.
#[derive(Debug, Clone, Copy, PartialEq, Eq, Structural)]
pub struct LobbyMember {
    pub lobby_id: LobbyId,
}

impl LobbyMember {
    /// A membership record for a freshly drawn lobby id: the upper 64 bits
    /// of a new 128-bit identifier.
    pub fn new() -> Self {
        let bits: u128 = fresh_id_bits();
        LobbyMember { lobby_id: (bits >> 64) as u64 }
    }
}

impl From<LobbyId> for LobbyMember {
    fn from(value: LobbyId) -> (r: LobbyMember) {
        LobbyMember { lobby_id: value }
    }
}

impl vstd::std_specs::convert::FromSpecImpl<LobbyId> for LobbyMember {
    open spec fn obeys_from_spec() -> bool {
        true
    }

    open spec fn from_spec(value: LobbyId) -> LobbyMember {
        LobbyMember { lobby_id: value }
    }
}

} // verus!
