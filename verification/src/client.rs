//! The client's session orchestration: which view a player's client is on,
//! the identity it replays on every reconnect, and how each lobby-service
//! packet moves it along.

use vstd::prelude::*;

use crate::lobby::{LobbyId, PlayerId};
use crate::player::{AuthenticatePlayer, PlayerCredentials};
use crate::protocol::UserServerPacket;

verus! {

/// Which server the client is dealing with right now.
#[derive(Debug, Clone, Copy, PartialEq, Eq, Structural)]
pub enum ServerState {
    /// Choosing a lobby service to connect to.
    LobbyServer,
    /// Browsing the lobby list.
    Lobbies,
    /// Sitting in one lobby.
    Lobby,
    /// Connected to a game-simulation process.
    GameServer,
}

/// The identity a client holds on to and replays on every reconnect.
#[derive(Debug, Clone, Copy, PartialEq, Eq, Structural)]
pub struct Authentication {
    pub id: PlayerId,
    pub credentials: PlayerCredentials,
}

impl Authentication {
    pub fn new(id: PlayerId, credentials: PlayerCredentials) -> (r: Self)
        ensures
            r == (Authentication { id, credentials }),
    {
        Authentication { id, credentials }
    }
}

/// The client's view of the lobby it is sitting in.
#[derive(Debug, Clone)]
pub struct LobbyUi {
    pub lobby_id: LobbyId,
    pub player_ids: Vec<PlayerId>,
}

impl LobbyUi {
    /// The view of a lobby this client just created: nobody else in it.
    pub fn new_lobby(lobby_id: LobbyId) -> (r: Self)
        ensures
            r.lobby_id == lobby_id,
            r.player_ids@ == Seq::<PlayerId>::empty(),
    {
        let r = LobbyUi { lobby_id, player_ids: Vec::new() };
        proof {
            assert(r.player_ids@ =~= Seq::<PlayerId>::empty());
        }
        r
    }

    /// The view of a lobby this client joined, with the members it was
    /// told of.
    pub fn new_existing_lobby(lobby_id: LobbyId, player_ids: Vec<PlayerId>) -> (r: Self)
        ensures
            r.lobby_id == lobby_id,
            r.player_ids@ == player_ids@,
    {
        LobbyUi { lobby_id, player_ids }
    }

    /// Notes a player that joined the lobby.
    pub fn add_player(&mut self, player: PlayerId)
        ensures
            final(self).lobby_id == old(self).lobby_id,
            final(self).player_ids@ == old(self).player_ids@.push(player),
    {
        self.player_ids.push(player);
    }

    /// Notes a player that left the lobby: every entry naming it is
    /// dropped.
    pub fn remove_player(&mut self, player: PlayerId)
        ensures
            final(self).lobby_id == old(self).lobby_id,
            final(self).player_ids@ == old(self).player_ids@.filter(
                |p: PlayerId| p != player,
            ),
    {
        let ghost pred = |p: PlayerId| p != player;
        let ghost s = self.player_ids@;
        let mut kept: Vec<PlayerId> = Vec::new();
        proof {
            reveal(Seq::filter);
            assert(s.subrange(0, 0) =~= Seq::<PlayerId>::empty());
            assert(kept@ =~= s.subrange(0, 0).filter(pred));
        }
        let mut i: usize = 0;
        while i < self.player_ids.len()
            invariant
                pred == (|p: PlayerId| p != player),
                s == self.player_ids@,
                i <= s.len(),
                kept@ == s.subrange(0, i as int).filter(pred),
            decreases s.len() - i,
        {
            if self.player_ids[i] != player {
                kept.push(self.player_ids[i]);
            }
            proof {
                reveal(Seq::filter);
                let shorter = s.subrange(0, i as int);
                let longer = s.subrange(0, i + 1);
                assert(longer.drop_last() =~= shorter);
                assert(longer.last() == s[i as int]);
                if pred(s[i as int]) {
                    assert(longer.filter(pred) == shorter.filter(pred).push(s[i as int]));
                } else {
                    assert(longer.filter(pred) == shorter.filter(pred));
                }
            }
            i = i + 1;
        }
        proof {
            reveal(Seq::filter);
            assert(s.subrange(0, s.len() as int) =~= s);
        }
        self.player_ids = kept;
    }
}

/// One client's whole orchestration state.
#[derive(Debug, Clone)]
pub struct ClientSession {
    pub state: ServerState,
    pub authentication: Option<Authentication>,
    pub lobby: Option<LobbyUi>,
}

impl ClientSession {
    /// A client that has not spoken to any server yet.
    pub fn new() -> (r: Self)
        ensures
            r.state == ServerState::LobbyServer,
            r.authentication is None,
            r.lobby is None,
    {
        ClientSession { state: ServerState::LobbyServer, authentication: None, lobby: None }
    }

    /// Applies one packet from the lobby service.
    ///
    /// The greeting stores the identity to replay on reconnects; lobby
    /// creation and joining move the client into its lobby view; join and
    /// leave notifications keep that view current; and a game start hands
    /// back the address of the game-simulation process to connect to.
    pub fn handle_lobby_server_packet(&mut self, packet: &UserServerPacket) -> (r: Option<Vec<u8>>)
        ensures
            match packet {
                UserServerPacket::Hello(id, credentials) => *final(self) == (ClientSession {
                    authentication: Some(Authentication { id: *id, credentials: *credentials }),
                    ..*old(self)
                }) && r is None,
                UserServerPacket::LobbyCreated(lobby_id) => final(self).state == ServerState::Lobby
                    && final(self).authentication == old(self).authentication
                    && (match final(self).lobby {
                    Option::Some(view) => view.lobby_id == lobby_id && view.player_ids@
                        == Seq::<PlayerId>::empty(),
                    Option::None => false,
                }) && r is None,
                UserServerPacket::AvailableLobbies(_) => *final(self) == *old(self) && r is None,
                UserServerPacket::LobbyJoined(lobby_id, players) => final(self).state
                    == ServerState::Lobby && final(self).authentication == old(self).authentication
                    && (match final(self).lobby {
                    Option::Some(view) => view.lobby_id == lobby_id && view.player_ids@
                        == players@,
                    Option::None => false,
                }) && r is None,
                UserServerPacket::PlayerJoined(joined) => final(self).state == old(self).state
                    && final(self).authentication == old(self).authentication && (match (
                    old(self).lobby,
                    final(self).lobby,
                ) {
                    (Option::Some(before), Option::Some(after)) => after.lobby_id
                        == before.lobby_id && after.player_ids@ == before.player_ids@.push(
                        joined.player_id,
                    ),
                    (Option::None, Option::None) => true,
                    _ => false,
                }) && r is None,
                UserServerPacket::PlayerLeft(left) => final(self).state == old(self).state
                    && final(self).authentication == old(self).authentication && (match (
                    old(self).lobby,
                    final(self).lobby,
                ) {
                    (Option::Some(before), Option::Some(after)) => after.lobby_id
                        == before.lobby_id && after.player_ids@ == before.player_ids@.filter(
                        |p: PlayerId| p != left.player_id,
                    ),
                    (Option::None, Option::None) => true,
                    _ => false,
                }) && r is None,
                UserServerPacket::GameStarted(address) => final(self).state
                    == ServerState::GameServer
                    && final(self).authentication == old(self).authentication
                    && final(self).lobby == old(self).lobby && (match r {
                    Option::Some(target) => target@ == address@,
                    Option::None => false,
                }),
            },
    {
        match packet {
            UserServerPacket::Hello(id, credentials) => {
                self.authentication = Some(Authentication::new(*id, *credentials));
                None
            },
            UserServerPacket::LobbyCreated(lobby_id) => {
                self.state = ServerState::Lobby;
                self.lobby = Some(LobbyUi::new_lobby(*lobby_id));
                None
            },
            UserServerPacket::AvailableLobbies(_) => None,
            UserServerPacket::LobbyJoined(lobby_id, players) => {
                let mut members: Vec<PlayerId> = Vec::new();
                let mut k: usize = 0;
                while k < players.len()
                    invariant
                        k <= players@.len(),
                        members@ == players@.subrange(0, k as int),
                    decreases players@.len() - k,
                {
                    members.push(players[k]);
                    proof {
                        assert(members@ =~= players@.subrange(0, k + 1));
                    }
                    k = k + 1;
                }
                proof {
                    assert(members@ =~= players@);
                }
                self.state = ServerState::Lobby;
                self.lobby = Some(LobbyUi::new_existing_lobby(*lobby_id, members));
                None
            },
            UserServerPacket::PlayerJoined(joined) => {
                let taken = self.lobby.take();
                match taken {
                    Some(mut view) => {
                        view.add_player(joined.player_id);
                        self.lobby = Some(view);
                    },
                    None => {},
                }
                None
            },
            UserServerPacket::PlayerLeft(left) => {
                let taken = self.lobby.take();
                match taken {
                    Some(mut view) => {
                        view.remove_player(left.player_id);
                        self.lobby = Some(view);
                    },
                    None => {},
                }
                None
            },
            UserServerPacket::GameStarted(address) => {
                let mut target: Vec<u8> = Vec::new();
                let mut k: usize = 0;
                while k < address.len()
                    invariant
                        k <= address@.len(),
                        target@ == address@.subrange(0, k as int),
                    decreases address@.len() - k,
                {
                    target.push(address[k]);
                    proof {
                        assert(target@ =~= address@.subrange(0, k + 1));
                    }
                    k = k + 1;
                }
                proof {
                    assert(target@ =~= address@);
                }
                self.state = ServerState::GameServer;
                Some(target)
            },
        }
    }

    /// Answers the game server's authentication prompt: the stored
    /// identity and credential are replayed — the same pair on every
    /// reconnect — or, on a client that never got a greeting, a fresh
    /// identity is presented.
    pub fn authentication_reply(&self) -> (r: AuthenticatePlayer)
        ensures
            self.authentication matches Some(held) ==> r.id == held.id && r.credentials
                == held.credentials,
    {
        match &self.authentication {
            Some(held) => AuthenticatePlayer { id: held.id, credentials: held.credentials },
            None => AuthenticatePlayer {
                id: PlayerId::new(),
                credentials: PlayerCredentials::default(),
            },
        }
    }
}

} // verus!
