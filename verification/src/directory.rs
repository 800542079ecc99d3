//! The lobby directory: creates, joins and destroys lobbies, and tracks
//! their memberships.
//!
//! The directory's contents are modelled as a sequence of [`LobbyModel`]
//! values; each operation's contract states the new model in terms of the
//! old one, and the well-formedness invariant — unique lobby ids, no empty
//! lobby, every player in at most one lobby — is preserved by every
//! operation.

use vstd::prelude::*;

use crate::lobby::{LobbyId, PlayerId, PlayerInLobby};

verus! {

/// One lobby: its id, the player that created it, and its members.
#[derive(Debug, Clone)]
pub struct Lobby {
    pub id: LobbyId,
    pub owner: PlayerId,
    pub members: Vec<PlayerId>,
}

/// The mathematical model of one lobby.
pub struct LobbyModel {
    pub id: LobbyId,
    pub owner: PlayerId,
    pub members: Seq<PlayerId>,
}

impl View for Lobby {
    type V = LobbyModel;

    open spec fn view(&self) -> LobbyModel {
        LobbyModel { id: self.id, owner: self.owner, members: self.members@ }
    }
}

/// Whether a lobby with the given id is present.
pub open spec fn has_lobby(s: Seq<LobbyModel>, id: LobbyId) -> bool {
    exists|i: int| 0 <= i < s.len() && s[i].id == id
}

/// The position of the lobby with the given id.
pub open spec fn lobby_index(s: Seq<LobbyModel>, id: LobbyId) -> int {
    choose|i: int| 0 <= i < s.len() && s[i].id == id
}

/// The members of the lobby with the given id.
pub open spec fn members_of(s: Seq<LobbyModel>, id: LobbyId) -> Seq<PlayerId> {
    s[lobby_index(s, id)].members
}

/// Whether the player belongs to some lobby.
pub open spec fn in_some_lobby(s: Seq<LobbyModel>, player: PlayerId) -> bool {
    exists|i: int| 0 <= i < s.len() && s[i].members.contains(player)
}

/// The position of the lobby the player belongs to.
pub open spec fn lobby_of_player(s: Seq<LobbyModel>, player: PlayerId) -> int {
    choose|i: int| 0 <= i < s.len() && s[i].members.contains(player)
}

/// The ids of all lobbies, in directory order.
pub open spec fn lobby_ids(s: Seq<LobbyModel>) -> Seq<LobbyId> {
    s.map_values(|l: LobbyModel| l.id)
}

/// Directory well-formedness: lobby ids are unique, no lobby is empty, no
/// member is listed twice, and a player belongs to at most one lobby.
pub open spec fn wf_lobbies(s: Seq<LobbyModel>) -> bool {
    &&& forall|i: int, j: int|
        0 <= i < s.len() && 0 <= j < s.len() && i != j ==> #[trigger] s[i].id != #[trigger] s[j].id
    &&& forall|i: int| 0 <= i < s.len() ==> #[trigger] s[i].members.len() >= 1
    &&& forall|i: int| 0 <= i < s.len() ==> (#[trigger] s[i].members).no_duplicates()
    &&& forall|i: int, j: int, p: PlayerId|
        0 <= i < s.len() && 0 <= j < s.len() && i != j && #[trigger] s[i].members.contains(p)
            ==> !(#[trigger] s[j].members.contains(p))
}

/// The model after a new lobby is created: the new lobby is appended, with
/// the owner as its sole member.
pub open spec fn spec_create(s: Seq<LobbyModel>, id: LobbyId, owner: PlayerId) -> Seq<LobbyModel> {
    s.push(LobbyModel { id, owner, members: seq![owner] })
}

/// The model after a player joins the lobby with the given id: that lobby
/// gains the player as its last member; every other lobby is untouched.
pub open spec fn spec_join(s: Seq<LobbyModel>, id: LobbyId, player: PlayerId) -> Seq<LobbyModel> {
    let i = lobby_index(s, id);
    s.update(
        i,
        LobbyModel { id: s[i].id, owner: s[i].owner, members: s[i].members.push(player) },
    )
}

/// The model after a player leaves (or disconnects): the player is removed
/// from its lobby, and a lobby left with no member is destroyed.
pub open spec fn spec_leave(s: Seq<LobbyModel>, player: PlayerId) -> Seq<LobbyModel> {
    if !in_some_lobby(s, player) {
        s
    } else {
        let i = lobby_of_player(s, player);
        let remaining = s[i].members.remove_value(player);
        if remaining.len() == 0 {
            s.remove(i)
        } else {
            s.update(i, LobbyModel { id: s[i].id, owner: s[i].owner, members: remaining })
        }
    }
}

/// No lobby is ever empty: a lobby whose last member leaves is destroyed,
/// so a well-formed directory holds members in every lobby it lists.
pub proof fn lemma_no_empty_lobby(s: Seq<LobbyModel>, i: int)
    requires
        wf_lobbies(s),
        0 <= i < s.len(),
    ensures
        s[i].members.len() >= 1,
{
}

/// A successful join grows exactly the joined lobby's membership, by the
/// one new member; every other lobby keeps its members.
pub proof fn lemma_join_counts(s: Seq<LobbyModel>, id: LobbyId, player: PlayerId)
    requires
        wf_lobbies(s),
        has_lobby(s, id),
    ensures
        spec_join(s, id, player).len() == s.len(),
        members_of(spec_join(s, id, player), id).len() == members_of(s, id).len() + 1,
        forall|j: int|
            0 <= j < s.len() && s[j].id != id ==> #[trigger] spec_join(s, id, player)[j].members
                == s[j].members,
{
    let i = lobby_index(s, id);
    let s2 = spec_join(s, id, player);
    assert(0 <= i < s.len() && s[i].id == id);
    assert(forall|j: int| 0 <= j < s2.len() && j != i ==> s2[j] == s[j]);
    assert(s2[i].id == id);
    assert(lobby_index(s2, id) == i) by {
        let i2 = lobby_index(s2, id);
        assert(0 <= i2 < s2.len() && s2[i2].id == id);
        if i2 != i {
            assert(s[i2].id == id);
        }
    }
}

/// A leave shrinks the left lobby's membership by exactly one, destroying
/// the lobby when that member was the last; every other lobby keeps its
/// members.
pub proof fn lemma_leave_counts(s: Seq<LobbyModel>, player: PlayerId)
    requires
        wf_lobbies(s),
        in_some_lobby(s, player),
    ensures
        ({
            let i = lobby_of_player(s, player);
            let s2 = spec_leave(s, player);
            &&& s[i].members.len() == 1 ==> s2.len() == s.len() - 1 && !has_lobby(s2, s[i].id)
            &&& s[i].members.len() > 1 ==> s2.len() == s.len() && members_of(s2, s[i].id).len()
                == s[i].members.len() - 1
        }),
{
    let i = lobby_of_player(s, player);
    let s2 = spec_leave(s, player);
    assert(0 <= i < s.len() && s[i].members.contains(player));
    s[i].members.index_of_first_ensures(player);
    let remaining = s[i].members.remove_value(player);
    assert(remaining.len() == s[i].members.len() - 1);
    if s[i].members.len() == 1 {
        assert(s2 == s.remove(i));
        assert forall|j: int| 0 <= j < s2.len() implies #[trigger] s2[j].id != s[i].id by {
            if j < i {
                assert(s2[j] == s[j]);
            } else {
                assert(s2[j] == s[j + 1]);
            }
        }
    } else {
        assert(s2 == s.update(i, LobbyModel { id: s[i].id, owner: s[i].owner, members: remaining }));
        assert(s2[i].id == s[i].id);
        assert(lobby_index(s2, s[i].id) == i) by {
            let i2 = lobby_index(s2, s[i].id);
            assert(0 <= i2 < s2.len() && s2[i2].id == s[i].id);
            if i2 != i {
                assert(s[i2].id == s[i].id);
            }
        }
    }
}

/// Creating a lobby under a fresh id, for an owner in no other lobby,
/// keeps the directory well-formed.
pub proof fn lemma_create_preserves_wf(s: Seq<LobbyModel>, id: LobbyId, owner: PlayerId)
    requires
        wf_lobbies(s),
        !has_lobby(s, id),
        !in_some_lobby(s, owner),
    ensures
        wf_lobbies(spec_create(s, id, owner)),
{
    let s2 = spec_create(s, id, owner);
    let n = s.len() as int;
    assert forall|i: int, j: int|
        0 <= i < s2.len() && 0 <= j < s2.len() && i != j implies #[trigger] s2[i].id
        != #[trigger] s2[j].id by {
        if i < n && j < n {
        } else if i == n {
            assert(s2[j] == s[j]);
        } else {
            assert(s2[i] == s[i]);
        }
    }
    assert forall|i: int, j: int, p: PlayerId|
        0 <= i < s2.len() && 0 <= j < s2.len() && i != j && #[trigger] s2[i].members.contains(p)
        implies !(#[trigger] s2[j].members.contains(p)) by {
        if i < n && j < n {
        } else if i == n {
            assert(s2[i].members == seq![owner]);
            assert(s2[i].members[0] == owner);
            assert(p == owner);
            assert(s2[j] == s[j]);
        } else {
            assert(s2[i] == s[i]);
            if j == n {
                assert(s2[j].members == seq![owner]);
            }
        }
    }
    assert(s2[n].members.len() == 1);
    assert(s2[n].members.no_duplicates());
}

/// A player in no lobby joining an existing lobby keeps the directory
/// well-formed.
pub proof fn lemma_join_preserves_wf(s: Seq<LobbyModel>, id: LobbyId, player: PlayerId)
    requires
        wf_lobbies(s),
        has_lobby(s, id),
        !in_some_lobby(s, player),
    ensures
        wf_lobbies(spec_join(s, id, player)),
{
    let i = lobby_index(s, id);
    let s2 = spec_join(s, id, player);
    assert(0 <= i < s.len() && s[i].id == id);
    assert(!s[i].members.contains(player));
    assert(s2[i].members == s[i].members.push(player));
    assert forall|k: int| 0 <= k < s2.len() implies (#[trigger] s2[k].members).no_duplicates() by {
        if k == i {
            assert(forall|m: int|
                0 <= m < s[i].members.len() ==> s2[i].members[m] == s[i].members[m]);
            assert(s2[i].members[s[i].members.len() as int] == player);
        } else {
            assert(s2[k] == s[k]);
        }
    }
    assert forall|a: int, b: int, p: PlayerId|
        0 <= a < s2.len() && 0 <= b < s2.len() && a != b && #[trigger] s2[a].members.contains(p)
        implies !(#[trigger] s2[b].members.contains(p)) by {
        if a == i {
            let m = choose|m: int| 0 <= m < s2[a].members.len() && s2[a].members[m] == p;
            if m < s[i].members.len() {
                assert(s[a].members[m] == p);
                assert(s[a].members.contains(p));
                assert(s2[b] == s[b]);
            } else {
                assert(p == player);
                assert(s2[b] == s[b]);
            }
        } else if b == i {
            assert(s2[a] == s[a]);
            if s2[b].members.contains(p) {
                let m = choose|m: int| 0 <= m < s2[b].members.len() && s2[b].members[m] == p;
                if m < s[i].members.len() {
                    assert(s[b].members.contains(p));
                    assert(false);
                } else {
                    assert(p == player);
                    assert(false);
                }
            }
        } else {
            assert(s2[a] == s[a]);
            assert(s2[b] == s[b]);
        }
    }
}

/// A leave keeps the directory well-formed.
pub proof fn lemma_leave_preserves_wf(s: Seq<LobbyModel>, player: PlayerId)
    requires
        wf_lobbies(s),
    ensures
        wf_lobbies(spec_leave(s, player)),
{
    if !in_some_lobby(s, player) {
    } else {
        let i = lobby_of_player(s, player);
        assert(0 <= i < s.len() && s[i].members.contains(player));
        s[i].members.index_of_first_ensures(player);
        let fi = s[i].members.index_of_first(player).unwrap();
        let remaining = s[i].members.remove_value(player);
        let s2 = spec_leave(s, player);
        assert forall|m: int| 0 <= m < remaining.len() implies #[trigger] remaining[m]
            == (if m < fi {
            s[i].members[m]
        } else {
            s[i].members[m + 1]
        }) by {}
        assert(remaining.no_duplicates());
        assert forall|p: PlayerId| remaining.contains(p) implies s[i].members.contains(p) by {
            let m = choose|m: int| 0 <= m < remaining.len() && remaining[m] == p;
            if m < fi {
                assert(s[i].members[m] == p);
            } else {
                assert(s[i].members[m + 1] == p);
            }
        }
        if remaining.len() == 0 {
            let sr = s.remove(i);
            assert forall|j: int| 0 <= j < sr.len() implies #[trigger] sr[j] == (if j < i {
                s[j]
            } else {
                s[j + 1]
            }) by {}
            assert(wf_lobbies(sr));
        } else {
            assert(s2 == s.update(
                i,
                LobbyModel { id: s[i].id, owner: s[i].owner, members: remaining },
            ));
            assert forall|a: int, b: int, p: PlayerId|
                0 <= a < s2.len() && 0 <= b < s2.len() && a != b
                    && #[trigger] s2[a].members.contains(p) implies !(#[trigger] s2[
                    b].members.contains(p)) by {
                if a == i {
                    assert(s[a].members.contains(p));
                    assert(s2[b] == s[b]);
                } else if b == i {
                    assert(s2[a] == s[a]);
                    if s2[b].members.contains(p) {
                        assert(s[b].members.contains(p));
                        assert(false);
                    }
                } else {
                    assert(s2[a] == s[a]);
                    assert(s2[b] == s[b]);
                }
            }
        }
    }
}

/// The errors the directory reports.
#[derive(Debug, Clone, Copy, PartialEq, Eq, Structural)]
pub enum LobbyError {
    /// The named lobby does not exist (it may have been destroyed).
    NotFound,
}

/// The position of the player's first occurrence in a member list.
fn index_of_player(members: &Vec<PlayerId>, player: PlayerId) -> (r: Option<usize>)
    ensures
        match r {
            Option::Some(j) => j < members@.len() && members@[j as int] == player && forall|m: int|
                0 <= m < j ==> #[trigger] members@[m] != player,
            Option::None => !members@.contains(player),
        },
{
    let mut j: usize = 0;
    while j < members.len()
        invariant
            j <= members@.len(),
            forall|m: int| 0 <= m < j ==> #[trigger] members@[m] != player,
        decreases members@.len() - j,
    {
        if members[j] == player {
            return Some(j);
        }
        j = j + 1;
    }
    None
}

/// The lobby directory held by the lobby service.
pub struct LobbyDirectory {
    lobbies: Vec<Lobby>,
    next_id: LobbyId,
}

impl View for LobbyDirectory {
    type V = Seq<LobbyModel>;

    closed spec fn view(&self) -> Seq<LobbyModel> {
        self.lobbies@.map_values(|l: Lobby| l@)
    }
}

impl LobbyDirectory {
    /// The next id this directory will hand out.
    pub closed spec fn spec_next_id(self) -> LobbyId {
        self.next_id
    }

    /// An empty directory.
    pub fn new() -> (r: Self)
        ensures
            r@ == Seq::<LobbyModel>::empty(),
            wf_lobbies(r@),
            r.spec_next_id() == 0,
    {
        let r = LobbyDirectory { lobbies: Vec::new(), next_id: 0 };
        proof {
            assert(r@ =~= Seq::<LobbyModel>::empty());
        }
        r
    }

    /// Finds the position of the lobby with the given id.
    fn find_lobby(&self, id: LobbyId) -> (r: Option<usize>)
        ensures
            match r {
                Option::Some(i) => i < self@.len() && self@[i as int].id == id,
                Option::None => !has_lobby(self@, id),
            },
    {
        let mut i: usize = 0;
        while i < self.lobbies.len()
            invariant
                i <= self.lobbies@.len(),
                self@.len() == self.lobbies@.len(),
                forall|k: int| 0 <= k < self@.len() ==> #[trigger] self@[k] == self.lobbies@[k]@,
                forall|k: int| 0 <= k < i ==> #[trigger] self@[k].id != id,
            decreases self.lobbies@.len() - i,
        {
            if self.lobbies[i].id == id {
                return Some(i);
            }
            i = i + 1;
        }
        None
    }

    /// Allocates a fresh id, registers the owner as the new lobby's sole
    /// member, and returns the id. Cannot fail.
    pub fn create_lobby(&mut self, owner: PlayerId) -> (r: LobbyId)
        requires
            wf_lobbies(old(self)@),
            !in_some_lobby(old(self)@, owner),
            old(self).spec_next_id() < LobbyId::MAX,
            forall|i: int|
                0 <= i < old(self)@.len()
                    ==> #[trigger] old(self)@[i].id < old(self).spec_next_id(),
        ensures
            wf_lobbies(final(self)@),
            !has_lobby(old(self)@, r),
            final(self)@ == spec_create(old(self)@, r, owner),
            r == old(self).spec_next_id(),
            final(self).spec_next_id() == r + 1,
            forall|i: int|
                0 <= i < final(self)@.len()
                    ==> #[trigger] final(self)@[i].id < final(self).spec_next_id(),
    {
        let id = self.next_id;
        self.next_id = self.next_id + 1;
        let mut members: Vec<PlayerId> = Vec::new();
        members.push(owner);
        let lobby = Lobby { id, owner, members };
        proof {
            assert(lobby@.members =~= seq![owner]);
            assert(!has_lobby(self@, id));
        }
        self.lobbies.push(lobby);
        proof {
            assert(self@ =~= spec_create(old(self)@, id, owner));
            lemma_create_preserves_wf(old(self)@, id, owner);
        }
        id
    }

    /// Adds the player to the named lobby and returns the members it had
    /// before the join — the roster the new member is shown, and the set
    /// to notify. An unknown id draws `NotFound` and changes nothing.
    pub fn join_lobby(&mut self, id: LobbyId, player: PlayerId) -> (r: Result<
        Vec<PlayerId>,
        LobbyError,
    >)
        requires
            wf_lobbies(old(self)@),
            !in_some_lobby(old(self)@, player),
        ensures
            wf_lobbies(final(self)@),
            !has_lobby(old(self)@, id) ==> r == Err::<Vec<PlayerId>, LobbyError>(
                LobbyError::NotFound,
            ) && final(self)@ == old(self)@,
            has_lobby(old(self)@, id) ==> match r {
                Result::Ok(before) => before@ == members_of(old(self)@, id) && final(self)@
                    == spec_join(old(self)@, id, player),
                Result::Err(_) => false,
            },
            final(self).spec_next_id() == old(self).spec_next_id(),
    {
        let found = self.find_lobby(id);
        match found {
            None => Err(LobbyError::NotFound),
            Some(i) => {
                proof {
                    assert(has_lobby(self@, id));
                    assert(lobby_index(self@, id) == i) by {
                        let i2 = lobby_index(self@, id);
                        assert(0 <= i2 < self@.len() && self@[i2].id == id);
                    }
                }
                let mut lobby = self.lobbies.remove(i);
                let mut before: Vec<PlayerId> = Vec::new();
                let mut k: usize = 0;
                while k < lobby.members.len()
                    invariant
                        k <= lobby.members@.len(),
                        before@ == lobby.members@.subrange(0, k as int),
                    decreases lobby.members@.len() - k,
                {
                    before.push(lobby.members[k]);
                    k = k + 1;
                }
                proof {
                    assert(before@ =~= lobby.members@);
                }
                lobby.members.push(player);
                self.lobbies.insert(i, lobby);
                proof {
                    assert(self@ =~= spec_join(old(self)@, id, player));
                    lemma_join_preserves_wf(old(self)@, id, player);
                }
                Ok(before)
            },
        }
    }

    /// Removes the player from its lobby, destroying the lobby when it was
    /// the last member, and reports which lobby was left. A player in no
    /// lobby changes nothing. A transport disconnect is reported here too:
    /// it is an implicit leave.
    pub fn leave_lobby(&mut self, player: PlayerId) -> (r: Option<PlayerInLobby>)
        requires
            wf_lobbies(old(self)@),
        ensures
            wf_lobbies(final(self)@),
            final(self)@ == spec_leave(old(self)@, player),
            !in_some_lobby(old(self)@, player) ==> r is None && final(self)@ == old(self)@,
            in_some_lobby(old(self)@, player) ==> r == Some(
                PlayerInLobby {
                    lobby_id: old(self)@[lobby_of_player(old(self)@, player)].id,
                    player_id: player,
                },
            ),
            final(self).spec_next_id() == old(self).spec_next_id(),
    {
        let ghost s = self@;
        let mut i: usize = 0;
        while i < self.lobbies.len()
            invariant
                s == old(self)@,
                wf_lobbies(s),
                self@ == s,
                self.spec_next_id() == old(self).spec_next_id(),
                self.lobbies@.len() == s.len(),
                forall|k: int| 0 <= k < s.len() ==> #[trigger] s[k] == self.lobbies@[k]@,
                i <= s.len(),
                forall|k: int| 0 <= k < i ==> !(#[trigger] s[k].members.contains(player)),
            decreases s.len() - i,
        {
            let mut lobby = self.lobbies.remove(i);
            let found = index_of_player(&lobby.members, player);
            if let Some(j) = found {
                proof {
                    assert(s[i as int].members.contains(player));
                    assert(in_some_lobby(s, player));
                    assert(lobby_of_player(s, player) == i) by {
                        let i2 = lobby_of_player(s, player);
                        assert(0 <= i2 < s.len() && s[i2].members.contains(player));
                        if i2 != i {
                            assert(s[i as int].members.contains(player));
                        }
                    }
                    lobby.members@.index_of_first_ensures(player);
                }
                let left = PlayerInLobby { lobby_id: lobby.id, player_id: player };
                lobby.members.remove(j);
                if lobby.members.len() > 0 {
                    self.lobbies.insert(i, lobby);
                    proof {
                        assert(self@ =~= spec_leave(s, player));
                        lemma_leave_preserves_wf(s, player);
                    }
                } else {
                    proof {
                        assert(self@ =~= spec_leave(s, player));
                        lemma_leave_preserves_wf(s, player);
                    }
                }
                return Some(left);
            }
            self.lobbies.insert(i, lobby);
            proof {
                assert(self@ =~= s);
            }
            i = i + 1;
        }
        proof {
            assert(!in_some_lobby(s, player));
        }
        None
    }

    /// A snapshot of all lobby ids. Every listed lobby is non-empty.
    pub fn list_lobbies(&self) -> (r: Vec<LobbyId>)
        ensures
            r@ == lobby_ids(self@),
    {
        let mut ids: Vec<LobbyId> = Vec::new();
        let mut i: usize = 0;
        while i < self.lobbies.len()
            invariant
                i <= self.lobbies@.len(),
                self@.len() == self.lobbies@.len(),
                forall|k: int| 0 <= k < self@.len() ==> #[trigger] self@[k] == self.lobbies@[k]@,
                ids@.len() == i,
                forall|k: int| 0 <= k < i ==> #[trigger] ids@[k] == self@[k].id,
            decreases self.lobbies@.len() - i,
        {
            ids.push(self.lobbies[i].id);
            i = i + 1;
        }
        proof {
            assert(ids@ =~= lobby_ids(self@));
        }
        ids
    }

    /// The members of the named lobby, or `NotFound`.
    pub fn members(&self, id: LobbyId) -> (r: Result<Vec<PlayerId>, LobbyError>)
        requires
            wf_lobbies(self@),
        ensures
            !has_lobby(self@, id) ==> r == Err::<Vec<PlayerId>, LobbyError>(LobbyError::NotFound),
            has_lobby(self@, id) ==> match r {
                Result::Ok(members) => members@ == members_of(self@, id),
                Result::Err(_) => false,
            },
    {
        let found = self.find_lobby(id);
        match found {
            None => Err(LobbyError::NotFound),
            Some(i) => {
                proof {
                    assert(has_lobby(self@, id));
                    assert(lobby_index(self@, id) == i) by {
                        let i2 = lobby_index(self@, id);
                        assert(0 <= i2 < self@.len() && self@[i2].id == id);
                    }
                }
                let lobby = &self.lobbies[i];
                let mut members: Vec<PlayerId> = Vec::new();
                let mut k: usize = 0;
                while k < lobby.members.len()
                    invariant
                        k <= lobby.members@.len(),
                        members@ == lobby.members@.subrange(0, k as int),
                    decreases lobby.members@.len() - k,
                {
                    members.push(lobby.members[k]);
                    k = k + 1;
                }
                proof {
                    assert(members@ =~= lobby.members@);
                }
                Ok(members)
            },
        }
    }
}

} // verus!
