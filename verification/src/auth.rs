//! The session authenticator a game-simulation process runs: it re-binds
//! each connecting client to a known player record, by credential equality
//! and nothing else.

use vstd::prelude::*;

use crate::lobby::PlayerId;
use crate::player::{Player, PlayerCredentials, PlayerScore};
use crate::power_ups::{PlayerPowerUps, PowerUpType};
use crate::protocol::CreateGameRequest;

verus! {

/// Everything the game server holds for one expected player.
#[derive(Debug, Clone)]
pub struct PlayerRecord {
    /// The player's identity and movement flag.
    pub player: Player,
    /// The credential the client must present.
    pub credentials: PlayerCredentials,
    /// The simulation entity the player's ball lives in; stable across
    /// reconnects.
    pub entity: u64,
    /// Strokes taken so far.
    pub score: PlayerScore,
    /// The player's power-up inventory.
    pub power_ups: PlayerPowerUps,
    /// The transport session currently bound to this player, if any.
    pub session: Option<u64>,
}

/// The mathematical model of one player record.
pub struct PlayerRecordModel {
    pub id: PlayerId,
    pub can_move: bool,
    pub credentials: PlayerCredentials,
    pub entity: u64,
    pub score: u32,
    pub power_ups: Seq<PowerUpType>,
    pub session: Option<u64>,
}

impl View for PlayerRecord {
    type V = PlayerRecordModel;

    open spec fn view(&self) -> PlayerRecordModel {
        PlayerRecordModel {
            id: self.player.id,
            can_move: self.player.can_move,
            credentials: self.credentials,
            entity: self.entity,
            score: self.score.score,
            power_ups: self.power_ups@,
            session: self.session,
        }
    }
}

/// Whether a record with the given identity exists.
pub open spec fn has_record(s: Seq<PlayerRecordModel>, id: PlayerId) -> bool {
    exists|i: int| 0 <= i < s.len() && s[i].id == id
}

/// The position of the record with the given identity.
pub open spec fn record_index(s: Seq<PlayerRecordModel>, id: PlayerId) -> int {
    choose|i: int| 0 <= i < s.len() && s[i].id == id
}

/// Roster well-formedness: player identities and entity handles are
/// unique.
pub open spec fn wf_roster(s: Seq<PlayerRecordModel>) -> bool {
    &&& forall|i: int, j: int|
        0 <= i < s.len() && 0 <= j < s.len() && i != j ==> #[trigger] s[i].id != #[trigger] s[j].id
    &&& forall|i: int, j: int|
        0 <= i < s.len() && 0 <= j < s.len() && i != j ==> #[trigger] s[i].entity
            != #[trigger] s[j].entity
}

/// The model after the record at `i` is bound to a transport session.
/// Identity, entity, score and inventory are untouched.
pub open spec fn spec_bind(s: Seq<PlayerRecordModel>, i: int, session: u64) -> Seq<
    PlayerRecordModel,
> {
    s.update(
        i,
        PlayerRecordModel {
            id: s[i].id,
            can_move: s[i].can_move,
            credentials: s[i].credentials,
            entity: s[i].entity,
            score: s[i].score,
            power_ups: s[i].power_ups,
            session: Some(session),
        },
    )
}

/// Re-authentication is stable: binding a session never moves the player
/// to another entity nor touches score or inventory, so a client that
/// presents the same identity and credential after a disconnect finds the
/// state it left.
pub proof fn lemma_rebind_preserves_state(s: Seq<PlayerRecordModel>, i: int, session: u64)
    requires
        0 <= i < s.len(),
    ensures
        spec_bind(s, i, session)[i].entity == s[i].entity,
        spec_bind(s, i, session)[i].score == s[i].score,
        spec_bind(s, i, session)[i].power_ups == s[i].power_ups,
        spec_bind(s, i, session)[i].id == s[i].id,
        forall|j: int| 0 <= j < s.len() && j != i ==> #[trigger] spec_bind(s, i, session)[j]
            == s[j],
{
}

/// How an authentication attempt ended.
#[derive(Debug, Clone, Copy, PartialEq, Eq, Structural)]
pub enum AuthOutcome {
    /// The client is bound to its player's simulation entity.
    Authenticated(u64),
    /// No player with the presented identity is expected here; the
    /// connection is to be closed.
    NotFound,
    /// The presented credential does not equal the stored one; the
    /// connection is to be closed.
    Unauthorized,
}

/// The roster of players one game-simulation process expects, with the
/// authenticator that admits them.
pub struct GameRoster {
    players: Vec<PlayerRecord>,
}

impl View for GameRoster {
    type V = Seq<PlayerRecordModel>;

    closed spec fn view(&self) -> Seq<PlayerRecordModel> {
        self.players@.map_values(|r: PlayerRecord| r@)
    }
}

impl GameRoster {
    /// Builds the roster from an assignment request: one record per listed
    /// player, entity handles assigned in order starting at
    /// `first_entity`, nobody yet connected, nobody yet allowed to move,
    /// score zero and an empty inventory each.
    pub fn from_request(request: &CreateGameRequest, first_entity: u64) -> (r: Self)
        requires
            first_entity + request.players@.len() <= u64::MAX,
        ensures
            r@.len() == request.players@.len(),
            forall|i: int|
                0 <= i < r@.len() ==> {
                    &&& (#[trigger] r@[i]).id == request.players@[i].0
                    &&& r@[i].credentials == request.players@[i].1
                    &&& r@[i].entity == first_entity + i
                    &&& r@[i].session is None
                    &&& !r@[i].can_move
                    &&& r@[i].score == 0
                    &&& r@[i].power_ups == Seq::<PowerUpType>::empty()
                },
    {
        let mut players: Vec<PlayerRecord> = Vec::new();
        let mut i: usize = 0;
        while i < request.players.len()
            invariant
                i <= request.players@.len(),
                first_entity + request.players@.len() <= u64::MAX,
                players@.len() == i,
                forall|k: int|
                    0 <= k < i ==> {
                        &&& (#[trigger] players@[k]@).id == request.players@[k].0
                        &&& players@[k]@.credentials == request.players@[k].1
                        &&& players@[k]@.entity == first_entity + k
                        &&& players@[k]@.session is None
                        &&& !players@[k]@.can_move
                        &&& players@[k]@.score == 0
                        &&& players@[k]@.power_ups == Seq::<PowerUpType>::empty()
                    },
            decreases request.players@.len() - i,
        {
            let (id, credentials) = (request.players[i].0, request.players[i].1);
            players.push(
                PlayerRecord {
                    player: Player::from(id),
                    credentials,
                    entity: first_entity + (i as u64),
                    score: PlayerScore { score: 0 },
                    power_ups: PlayerPowerUps::default(),
                    session: None,
                },
            );
            i = i + 1;
        }
        GameRoster { players }
    }

    /// How many players this game expects.
    pub fn len(&self) -> (r: usize)
        ensures
            r == self@.len(),
    {
        self.players.len()
    }

    /// Authenticates one client against the roster.
    ///
    /// An unknown identity draws `NotFound`; a known identity with an
    /// unequal credential draws `Unauthorized`; in both cases no player
    /// state of any kind changes. Only the matching identity-and-credential
    /// pair is admitted: its record is bound to the presenting session —
    /// re-binding to the same entity on every reconnect, score and
    /// inventory untouched.
    pub fn authenticate(&mut self, session: u64, id: PlayerId, credentials: PlayerCredentials)
        -> (r: AuthOutcome)
        requires
            wf_roster(old(self)@),
        ensures
            wf_roster(final(self)@),
            !has_record(old(self)@, id) ==> r == AuthOutcome::NotFound && final(self)@ == old(
                self,
            )@,
            has_record(old(self)@, id) ==> {
                let i = record_index(old(self)@, id);
                &&& old(self)@[i].credentials != credentials ==> r == AuthOutcome::Unauthorized
                    && final(self)@ == old(self)@
                &&& old(self)@[i].credentials == credentials ==> r == AuthOutcome::Authenticated(
                    old(self)@[i].entity,
                ) && final(self)@ == spec_bind(old(self)@, i, session)
            },
    {
        let ghost s = self@;
        let mut i: usize = 0;
        while i < self.players.len()
            invariant
                s == old(self)@,
                wf_roster(s),
                self@ == s,
                self.players@.len() == s.len(),
                forall|k: int| 0 <= k < s.len() ==> #[trigger] s[k] == self.players@[k]@,
                i <= s.len(),
                forall|k: int| 0 <= k < i ==> #[trigger] s[k].id != id,
            decreases s.len() - i,
        {
            if self.players[i].player.id == id {
                proof {
                    assert(s[i as int].id == id);
                    assert(record_index(s, id) == i) by {
                        let i2 = record_index(s, id);
                        assert(0 <= i2 < s.len() && s[i2].id == id);
                    }
                }
                if self.players[i].credentials == credentials {
                    let mut record = self.players.remove(i);
                    let entity = record.entity;
                    record.session = Some(session);
                    self.players.insert(i, record);
                    proof {
                        assert(self@ =~= spec_bind(s, i as int, session));
                        assert forall|a: int, b: int|
                            0 <= a < self@.len() && 0 <= b < self@.len() && a != b implies
                            #[trigger] self@[a].id != #[trigger] self@[b].id by {
                            assert(self@[a].id == s[a].id);
                            assert(self@[b].id == s[b].id);
                        }
                        assert forall|a: int, b: int|
                            0 <= a < self@.len() && 0 <= b < self@.len() && a != b implies
                            #[trigger] self@[a].entity != #[trigger] self@[b].entity by {
                            assert(self@[a].entity == s[a].entity);
                            assert(self@[b].entity == s[b].entity);
                        }
                    }
                    return AuthOutcome::Authenticated(entity);
                } else {
                    return AuthOutcome::Unauthorized;
                }
            }
            i = i + 1;
        }
        proof {
            assert(!has_record(s, id));
        }
        AuthOutcome::NotFound
    }

    /// Whether every expected player has a session bound: the signal that
    /// lets the game leave its waiting state.
    pub fn all_players_joined(&self) -> (r: bool)
        ensures
            r == forall|i: int| 0 <= i < self@.len() ==> (#[trigger] self@[i].session) is Some,
    {
        let mut i: usize = 0;
        while i < self.players.len()
            invariant
                i <= self.players@.len(),
                self@.len() == self.players@.len(),
                forall|k: int| 0 <= k < self@.len() ==> #[trigger] self@[k] == self.players@[k]@,
                forall|k: int| 0 <= k < i ==> (#[trigger] self@[k].session) is Some,
            decreases self.players@.len() - i,
        {
            if self.players[i].session.is_none() {
                proof {
                    assert(!(self@[i as int].session is Some));
                }
                return false;
            }
            i = i + 1;
        }
        true
    }

    /// Unbinds whatever player the given transport session was bound to,
    /// reporting the player's entity so the simulation can drop it from
    /// the active set. A session bound to nobody changes nothing.
    pub fn disconnect_session(&mut self, session: u64) -> (r: Option<u64>)
        requires
            wf_roster(old(self)@),
        ensures
            wf_roster(final(self)@),
            match r {
                Option::Some(entity) => exists|i: int|
                    {
                        &&& 0 <= i < old(self)@.len()
                        &&& (#[trigger] old(self)@[i].session) == Some(session)
                        &&& entity == old(self)@[i].entity
                        &&& final(self)@ == old(self)@.update(
                            i,
                            PlayerRecordModel {
                                id: old(self)@[i].id,
                                can_move: old(self)@[i].can_move,
                                credentials: old(self)@[i].credentials,
                                entity: old(self)@[i].entity,
                                score: old(self)@[i].score,
                                power_ups: old(self)@[i].power_ups,
                                session: None,
                            },
                        )
                    },
                Option::None => final(self)@ == old(self)@ && forall|i: int|
                    0 <= i < old(self)@.len() ==> (#[trigger] old(self)@[i].session) != Some(
                        session,
                    ),
            },
    {
        let ghost s = self@;
        let mut i: usize = 0;
        while i < self.players.len()
            invariant
                s == old(self)@,
                wf_roster(s),
                self@ == s,
                self.players@.len() == s.len(),
                forall|k: int| 0 <= k < s.len() ==> #[trigger] s[k] == self.players@[k]@,
                i <= s.len(),
                forall|k: int| 0 <= k < i ==> (#[trigger] s[k].session) != Some(session),
            decreases s.len() - i,
        {
            let is_bound = match self.players[i].session {
                Some(bound) => bound == session,
                None => false,
            };
            if is_bound {
                let mut record = self.players.remove(i);
                let entity = record.entity;
                record.session = None;
                self.players.insert(i, record);
                proof {
                    assert(s[i as int].session == Some(session));
                    assert(self@ =~= s.update(
                        i as int,
                        PlayerRecordModel {
                            id: s[i as int].id,
                            can_move: s[i as int].can_move,
                            credentials: s[i as int].credentials,
                            entity: s[i as int].entity,
                            score: s[i as int].score,
                            power_ups: s[i as int].power_ups,
                            session: None,
                        },
                    ));
                    assert forall|a: int, b: int|
                        0 <= a < self@.len() && 0 <= b < self@.len() && a != b implies
                        #[trigger] self@[a].id != #[trigger] self@[b].id by {
                        assert(self@[a].id == s[a].id);
                        assert(self@[b].id == s[b].id);
                    }
                    assert forall|a: int, b: int|
                        0 <= a < self@.len() && 0 <= b < self@.len() && a != b implies
                        #[trigger] self@[a].entity != #[trigger] self@[b].entity by {
                        assert(self@[a].entity == s[a].entity);
                        assert(self@[b].entity == s[b].entity);
                    }
                }
                return Some(entity);
            }
            i = i + 1;
        }
        None
    }
}

/// How many times a game-simulation process will retry the handshake with
/// the lobby service before giving up.
pub const MAX_CONNECT_ATTEMPTS: u32 = 5;

/// The error raised when the handshake retry budget is spent: fatal to the
/// process that was retrying, by design.
#[derive(Debug, Clone, Copy, PartialEq, Eq, Structural)]
pub struct RetryBudgetExhausted;

/// Tracks the bounded retry loop a game-simulation process runs while
/// connecting to the lobby service.
#[derive(Debug, Clone, Copy, PartialEq, Eq, Structural)]
pub struct LobbyServerConnector {
    pub attempts: u32,
}

impl LobbyServerConnector {
    /// A connector that has not retried yet.
    pub fn new() -> (r: Self)
        ensures
            r.attempts == 0,
    {
        LobbyServerConnector { attempts: 0 }
    }

    /// Spends one retry. Once [`MAX_CONNECT_ATTEMPTS`] retries are spent
    /// the budget is exhausted and the caller must abort startup instead
    /// of hanging.
    pub fn retry(&mut self) -> (r: Result<(), RetryBudgetExhausted>)
        ensures
            old(self).attempts < MAX_CONNECT_ATTEMPTS ==> r is Ok && final(self).attempts == old(
                self,
            ).attempts + 1,
            old(self).attempts >= MAX_CONNECT_ATTEMPTS ==> r is Err && *final(self) == *old(self),
    {
        if self.attempts >= MAX_CONNECT_ATTEMPTS {
            Err(RetryBudgetExhausted)
        } else {
            self.attempts = self.attempts + 1;
            Ok(())
        }
    }
}

} // verus!
