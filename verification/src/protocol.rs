//! The wire messages of the lobby service: one set spoken with players'
//! clients, one spoken with game-simulation processes.
//!
//! Each message kind has an explicit binary encoding, defined here as a
//! fixed schema: a tag byte followed by fixed-width little-endian integers
//! and length-prefixed byte strings. Decoding is total: malformed bytes are
//! rejected, and decoding an encoded packet gives the packet back.

use vstd::prelude::*;

use crate::lobby::{LobbyId, PlayerId, PlayerInLobby};
use crate::player::PlayerCredentials;

verus! {

/// Names one course; opaque bytes chosen by the course catalogue.
pub type CourseId = Vec<u8>;

/// What a player's client sends to the lobby service.
#[derive(Debug, Clone, PartialEq, Eq)]
pub enum UserClientPacket {
    Hello,
    CreateLobby,
    ListLobbies,
    JoinLobby(LobbyId),
    LeaveLobby,
    StartGame,
}

/// What the lobby service sends to a player's client. Addresses are carried
/// as opaque bytes.
#[derive(Debug, Clone, PartialEq, Eq)]
pub enum UserServerPacket {
    Hello(PlayerId, PlayerCredentials),
    LobbyCreated(LobbyId),
    AvailableLobbies(Vec<LobbyId>),
    LobbyJoined(LobbyId, Vec<PlayerId>),
    PlayerJoined(PlayerInLobby),
    PlayerLeft(PlayerInLobby),
    GameStarted(Vec<u8>),
}

/// What a game-simulation process sends to the lobby service.
#[derive(Debug, Clone, PartialEq, Eq)]
pub enum GameClientPacket {
    Hello,
    /// The process is idle and publishes the address clients should join.
    Available(Vec<u8>),
    /// The process is occupied; it must not be assigned a lobby.
    Busy,
    /// The assigned game is up and running.
    GameCreated(LobbyId),
}

/// One lobby's play-through, handed to a game-simulation process: the
/// lobby, every member with the credential it will authenticate with, and
/// the ordered course roster.
#[derive(Debug, Clone, PartialEq, Eq)]
pub struct CreateGameRequest {
    pub lobby_id: LobbyId,
    pub players: Vec<(PlayerId, PlayerCredentials)>,
    pub courses: Vec<CourseId>,
}

/// What the lobby service sends to a game-simulation process.
#[derive(Debug, Clone, PartialEq, Eq)]
pub enum GameServerPacket {
    Hello,
    CreateGame(CreateGameRequest),
}

} // verus!
