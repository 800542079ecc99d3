//! The game-session broker: matches a lobby that wants to start a game to
//! one free game-simulation process.
//!
//! Registrations are modelled as a sequence of [`RegistrationModel`]
//! values. Assignment picks the first available process and marks it busy
//! for exactly the one lobby, atomically with building the assignment
//! message; when only one process is available, a second assignment cannot
//! succeed.

use vstd::prelude::*;

use crate::lobby::{LobbyId, PlayerId};
use crate::player::PlayerCredentials;
use crate::protocol::{CourseId, CreateGameRequest, GameClientPacket, GameServerPacket};

verus! {

/// What the broker knows of one registered game-simulation process.
#[derive(Debug, Clone)]
pub enum GameServerStatus {
    /// Connected, but neither available nor assigned.
    Unknown,
    /// Idle; holds the address the process publishes for clients.
    Available(Vec<u8>),
    /// Assigned to the one given lobby; the publish address is kept for
    /// the moment the game reports in.
    Busy(LobbyId, Vec<u8>),
}

/// The mathematical model of a registration's status.
pub enum StatusModel {
    Unknown,
    Available(Seq<u8>),
    Busy(LobbyId, Seq<u8>),
}

impl View for GameServerStatus {
    type V = StatusModel;

    open spec fn view(&self) -> StatusModel {
        match self {
            GameServerStatus::Unknown => StatusModel::Unknown,
            GameServerStatus::Available(a) => StatusModel::Available(a@),
            GameServerStatus::Busy(l, a) => StatusModel::Busy(*l, a@),
        }
    }
}

/// One registered game-simulation process: its connection handle and its
/// status.
#[derive(Debug, Clone)]
pub struct GameServerRegistration {
    pub server: u64,
    pub status: GameServerStatus,
}

/// The mathematical model of one registration.
pub struct RegistrationModel {
    pub server: u64,
    pub status: StatusModel,
}

impl View for GameServerRegistration {
    type V = RegistrationModel;

    open spec fn view(&self) -> RegistrationModel {
        RegistrationModel { server: self.server, status: self.status@ }
    }
}

/// Whether a process with the given handle is registered.
pub open spec fn has_server(s: Seq<RegistrationModel>, server: u64) -> bool {
    exists|i: int| 0 <= i < s.len() && s[i].server == server
}

/// The position of the registration with the given handle.
pub open spec fn server_index(s: Seq<RegistrationModel>, server: u64) -> int {
    choose|i: int| 0 <= i < s.len() && s[i].server == server
}

/// Registration well-formedness: connection handles are unique.
pub open spec fn wf_servers(s: Seq<RegistrationModel>) -> bool {
    forall|i: int, j: int|
        0 <= i < s.len() && 0 <= j < s.len() && i != j ==> #[trigger] s[i].server
            != #[trigger] s[j].server
}

/// Whether some registered process is available.
pub open spec fn has_available(s: Seq<RegistrationModel>) -> bool {
    exists|i: int| 0 <= i < s.len() && s[i].status is Available
}

/// Whether position `i` holds the first available process.
pub open spec fn is_first_available(s: Seq<RegistrationModel>, i: int) -> bool {
    &&& 0 <= i < s.len()
    &&& s[i].status is Available
    &&& forall|j: int| 0 <= j < i ==> !(#[trigger] s[j].status is Available)
}

/// The model after position `i` is assigned to the given lobby: that
/// process is busy for exactly that one lobby, its address kept; every
/// other registration is untouched.
pub open spec fn spec_assign(s: Seq<RegistrationModel>, i: int, lobby: LobbyId) -> Seq<
    RegistrationModel,
> {
    s.update(
        i,
        RegistrationModel {
            server: s[i].server,
            status: StatusModel::Busy(lobby, s[i].status->Available_0),
        },
    )
}

/// The model after the registration at position `i` takes the given
/// status.
pub open spec fn spec_set_status(
    s: Seq<RegistrationModel>,
    i: int,
    status: StatusModel,
) -> Seq<RegistrationModel> {
    s.update(i, RegistrationModel { server: s[i].server, status })
}

/// Assigning the only available process leaves none available: with one
/// process free, one assignment succeeds and a second in the same state
/// must be refused for want of capacity.
pub proof fn lemma_single_capacity(s: Seq<RegistrationModel>, i: int, lobby: LobbyId)
    requires
        is_first_available(s, i),
        forall|j: int| 0 <= j < s.len() && #[trigger] s[j].status is Available ==> j == i,
    ensures
        !has_available(spec_assign(s, i, lobby)),
{
    let s2 = spec_assign(s, i, lobby);
    assert forall|j: int| 0 <= j < s2.len() implies !(#[trigger] s2[j].status is Available) by {
        if j != i {
            assert(s2[j] == s[j]);
        }
    }
}

/// An assignment binds one process to one lobby and touches nothing else:
/// every other registration keeps its status, and the assigned process is
/// busy for exactly the given lobby.
pub proof fn lemma_assign_binds_one(s: Seq<RegistrationModel>, i: int, lobby: LobbyId)
    requires
        is_first_available(s, i),
    ensures
        spec_assign(s, i, lobby).len() == s.len(),
        spec_assign(s, i, lobby)[i].status == StatusModel::Busy(lobby, s[i].status->Available_0),
        forall|j: int|
            0 <= j < s.len() && j != i ==> #[trigger] spec_assign(s, i, lobby)[j] == s[j],
{
}

/// Announced when an assigned game reports that it is up: tells the lobby's
/// members which address to join.
#[derive(Debug, Clone, PartialEq, Eq)]
pub struct GameStarted {
    pub lobby_id: LobbyId,
    pub server: Vec<u8>,
}

/// The errors the broker reports.
#[derive(Debug, Clone, Copy, PartialEq, Eq, Structural)]
pub enum BrokerError {
    /// No game-simulation process is available right now; the lobby may
    /// retry.
    NoCapacity,
    /// The named process is not registered.
    UnknownServer,
}

/// The broker's directory of game-simulation processes.
pub struct Broker {
    servers: Vec<GameServerRegistration>,
}

impl View for Broker {
    type V = Seq<RegistrationModel>;

    closed spec fn view(&self) -> Seq<RegistrationModel> {
        self.servers@.map_values(|r: GameServerRegistration| r@)
    }
}

impl Broker {
    /// A broker that knows no processes yet.
    pub fn new() -> (r: Self)
        ensures
            r@ == Seq::<RegistrationModel>::empty(),
            wf_servers(r@),
    {
        let r = Broker { servers: Vec::new() };
        proof {
            assert(r@ =~= Seq::<RegistrationModel>::empty());
        }
        r
    }

    /// Finds the position of the registration with the given handle.
    fn find_server(&self, server: u64) -> (r: Option<usize>)
        ensures
            match r {
                Option::Some(i) => i < self@.len() && self@[i as int].server == server,
                Option::None => !has_server(self@, server),
            },
    {
        let mut i: usize = 0;
        while i < self.servers.len()
            invariant
                i <= self.servers@.len(),
                self@.len() == self.servers@.len(),
                forall|k: int| 0 <= k < self@.len() ==> #[trigger] self@[k] == self.servers@[k]@,
                forall|k: int| 0 <= k < i ==> #[trigger] self@[k].server != server,
            decreases self.servers@.len() - i,
        {
            if self.servers[i].server == server {
                return Some(i);
            }
            i = i + 1;
        }
        None
    }

    /// Records a newly connected game-simulation process, with nothing yet
    /// known of it.
    pub fn register_server(&mut self, server: u64)
        requires
            wf_servers(old(self)@),
            !has_server(old(self)@, server),
        ensures
            wf_servers(final(self)@),
            final(self)@ == old(self)@.push(
                RegistrationModel { server, status: StatusModel::Unknown },
            ),
    {
        self.servers.push(GameServerRegistration { server, status: GameServerStatus::Unknown });
        proof {
            assert(self@ =~= old(self)@.push(
                RegistrationModel { server, status: StatusModel::Unknown },
            ));
            assert forall|i: int, j: int|
                0 <= i < self@.len() && 0 <= j < self@.len() && i != j implies #[trigger] self@[
                i].server != #[trigger] self@[j].server by {
                let n = old(self)@.len() as int;
                if i < n && j < n {
                } else if i == n {
                    assert(self@[j] == old(self)@[j]);
                } else {
                    assert(self@[i] == old(self)@[i]);
                }
            }
        }
    }

    /// Forgets a disconnected process. A process that disconnects while
    /// assigned takes its game down with it: the lobby it was bound to is
    /// returned so the game can be treated as failed, the lobby staying
    /// joinable for a retry.
    pub fn deregister_server(&mut self, server: u64) -> (r: Option<LobbyId>)
        requires
            wf_servers(old(self)@),
        ensures
            wf_servers(final(self)@),
            !has_server(old(self)@, server) ==> final(self)@ == old(self)@ && r is None,
            has_server(old(self)@, server) ==> {
                let i = server_index(old(self)@, server);
                &&& final(self)@ == old(self)@.remove(i)
                &&& r == (match old(self)@[i].status {
                    StatusModel::Busy(lobby, _) => Some(lobby),
                    _ => None::<LobbyId>,
                })
            },
    {
        let found = self.find_server(server);
        match found {
            None => None,
            Some(i) => {
                proof {
                    assert(has_server(self@, server));
                    assert(server_index(self@, server) == i) by {
                        let i2 = server_index(self@, server);
                        assert(0 <= i2 < self@.len() && self@[i2].server == server);
                    }
                }
                let registration = self.servers.remove(i);
                proof {
                    assert(self@ =~= old(self)@.remove(i as int));
                    assert forall|a: int, b: int|
                        0 <= a < self@.len() && 0 <= b < self@.len() && a != b implies #[trigger] self@[
                        a].server != #[trigger] self@[b].server by {}
                }
                match registration.status {
                    GameServerStatus::Busy(lobby, _) => Some(lobby),
                    _ => None,
                }
            },
        }
    }

    /// Applies one message from a registered game-simulation process.
    ///
    /// `Hello` draws a `Hello` reply; `Available` records the published
    /// address; any other message clears the process's availability. A
    /// game reporting in (`GameCreated`) additionally announces
    /// [`GameStarted`] with the address on record, so the lobby's members
    /// learn where to connect.
    pub fn handle_game_packet(&mut self, server: u64, packet: &GameClientPacket) -> (r: (
        Option<GameServerPacket>,
        Option<GameStarted>,
    ))
        requires
            wf_servers(old(self)@),
            has_server(old(self)@, server),
        ensures
            wf_servers(final(self)@),
            ({
                let i = server_index(old(self)@, server);
                match packet {
                    GameClientPacket::Hello => final(self)@ == spec_set_status(
                        old(self)@,
                        i,
                        StatusModel::Unknown,
                    ) && r.0 == Some(GameServerPacket::Hello) && r.1 is None,
                    GameClientPacket::Available(a) => final(self)@ == spec_set_status(
                        old(self)@,
                        i,
                        StatusModel::Available(a@),
                    ) && r.0 is None && r.1 is None,
                    GameClientPacket::Busy => final(self)@ == spec_set_status(
                        old(self)@,
                        i,
                        StatusModel::Unknown,
                    ) && r.0 is None && r.1 is None,
                    GameClientPacket::GameCreated(lobby) => final(self)@ == spec_set_status(
                        old(self)@,
                        i,
                        StatusModel::Unknown,
                    ) && r.0 is None && (match old(self)@[i].status {
                        StatusModel::Available(addr) => r.1 matches Some(g) && g.lobby_id == lobby
                            && g.server@ == addr,
                        StatusModel::Busy(_, addr) => r.1 matches Some(g) && g.lobby_id == lobby
                            && g.server@ == addr,
                        StatusModel::Unknown => r.1 is None,
                    }),
                }
            }),
    {
        let found = self.find_server(server);
        let i = match found {
            Some(i) => i,
            None => {
                proof {
                    assert(false);
                }
                0
            },
        };
        proof {
            assert(server_index(self@, server) == i) by {
                let i2 = server_index(self@, server);
                assert(0 <= i2 < self@.len() && self@[i2].server == server);
            }
        }
        let mut registration = self.servers.remove(i);
        let ghost old_status = registration.status@;
        let mut reply: Option<GameServerPacket> = None;
        let mut event: Option<GameStarted> = None;
        match packet {
            GameClientPacket::Hello => {
                registration.status = GameServerStatus::Unknown;
                reply = Some(GameServerPacket::Hello);
            },
            GameClientPacket::Available(a) => {
                let mut address: Vec<u8> = Vec::new();
                let mut k: usize = 0;
                while k < a.len()
                    invariant
                        k <= a@.len(),
                        address@ == a@.subrange(0, k as int),
                    decreases a@.len() - k,
                {
                    address.push(a[k]);
                    k = k + 1;
                }
                proof {
                    assert(address@ =~= a@);
                }
                registration.status = GameServerStatus::Available(address);
            },
            GameClientPacket::Busy => {
                registration.status = GameServerStatus::Unknown;
            },
            GameClientPacket::GameCreated(lobby) => {
                let previous = registration.status;
                registration.status = GameServerStatus::Unknown;
                match previous {
                    GameServerStatus::Available(addr) => {
                        event = Some(GameStarted { lobby_id: *lobby, server: addr });
                    },
                    GameServerStatus::Busy(_, addr) => {
                        event = Some(GameStarted { lobby_id: *lobby, server: addr });
                    },
                    GameServerStatus::Unknown => {},
                }
            },
        }
        self.servers.insert(i, registration);
        proof {
            assert(self@ =~= spec_set_status(old(self)@, i as int, registration.status@));
            assert forall|a: int, b: int|
                0 <= a < self@.len() && 0 <= b < self@.len() && a != b implies #[trigger] self@[
                a].server != #[trigger] self@[b].server by {
                assert(self@[a].server == old(self)@[a].server);
                assert(self@[b].server == old(self)@[b].server);
            }
        }
        (reply, event)
    }

    /// Serves a lobby owner's request to start a game: picks the first
    /// available process, marks it busy for exactly this lobby, and builds
    /// the assignment request carrying the roster and the course list. With
    /// no process available the request is refused — never silently
    /// dropped — and nothing changes.
    pub fn start_game(
        &mut self,
        lobby: LobbyId,
        players: Vec<(PlayerId, PlayerCredentials)>,
        courses: Vec<CourseId>,
    ) -> (r: Result<(u64, CreateGameRequest), BrokerError>)
        requires
            wf_servers(old(self)@),
        ensures
            wf_servers(final(self)@),
            !has_available(old(self)@) ==> r == Err::<(u64, CreateGameRequest), BrokerError>(
                BrokerError::NoCapacity,
            ) && final(self)@ == old(self)@,
            has_available(old(self)@) ==> match r {
                Result::Ok((srv, request)) => exists|i: int|
                    {
                        &&& #[trigger] is_first_available(old(self)@, i)
                        &&& srv == old(self)@[i].server
                        &&& final(self)@ == spec_assign(old(self)@, i, lobby)
                        &&& request.lobby_id == lobby
                        &&& request.players == players
                        &&& request.courses == courses
                    },
                Result::Err(_) => false,
            },
    {
        let mut i: usize = 0;
        while i < self.servers.len()
            invariant
                wf_servers(self@),
                self@ == old(self)@,
                i <= self.servers@.len(),
                self@.len() == self.servers@.len(),
                forall|k: int| 0 <= k < self@.len() ==> #[trigger] self@[k] == self.servers@[k]@,
                forall|k: int| 0 <= k < i ==> !(#[trigger] self@[k].status is Available),
            decreases self.servers@.len() - i,
        {
            let is_available = match &self.servers[i].status {
                GameServerStatus::Available(_) => true,
                _ => false,
            };
            if is_available {
                let mut registration = self.servers.remove(i);
                let address = match registration.status {
                    GameServerStatus::Available(a) => a,
                    _ => {
                        proof {
                            assert(false);
                        }
                        Vec::new()
                    },
                };
                registration.status = GameServerStatus::Busy(lobby, address);
                let server = registration.server;
                self.servers.insert(i, registration);
                let request = CreateGameRequest { lobby_id: lobby, players, courses };
                proof {
                    assert(is_first_available(old(self)@, i as int));
                    assert(self@ =~= spec_assign(old(self)@, i as int, lobby));
                    assert forall|a: int, b: int|
                        0 <= a < self@.len() && 0 <= b < self@.len() && a != b implies #[trigger] self@[
                        a].server != #[trigger] self@[b].server by {
                        assert(self@[a].server == old(self)@[a].server);
                        assert(self@[b].server == old(self)@[b].server);
                    }
                }
                return Ok((server, request));
            }
            i = i + 1;
        }
        proof {
            assert(!has_available(self@));
        }
        Err(BrokerError::NoCapacity)
    }

    /// How many processes are currently available.
    pub fn available_count(&self) -> (r: usize)
        ensures
            r == 0 <==> !has_available(self@),
    {
        let mut count: usize = 0;
        let mut i: usize = 0;
        while i < self.servers.len()
            invariant
                i <= self.servers@.len(),
                self@.len() == self.servers@.len(),
                forall|k: int| 0 <= k < self@.len() ==> #[trigger] self@[k] == self.servers@[k]@,
                count <= i,
                count == 0 ==> forall|k: int|
                    0 <= k < i ==> !(#[trigger] self@[k].status is Available),
                count > 0 ==> has_available(self@),
            decreases self.servers@.len() - i,
        {
            let is_available = match &self.servers[i].status {
                GameServerStatus::Available(_) => true,
                _ => false,
            };
            if is_available {
                proof {
                    assert(self@[i as int].status is Available);
                }
                count = count + 1;
            }
            i = i + 1;
        }
        count
    }
}

} // verus!
