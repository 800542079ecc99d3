//! The explicit wire schema: a fixed table of message kinds with encode
//! and decode functions.
//!
//! Every packet is one tag byte followed by its fields: integers as
//! fixed-width little-endian bytes, byte strings and lists with a 32-bit
//! count in front. Decoding is exact: it accepts precisely the encodings
//! this module produces, consuming the whole message, and decoding an
//! encoded packet gives the packet back.

use vstd::prelude::*;

use crate::lobby::{PlayerId, PlayerInLobby};
use crate::player::PlayerCredentials;
use crate::protocol::{
    CreateGameRequest, GameClientPacket, GameServerPacket, UserClientPacket, UserServerPacket,
};

verus! {

/// The little-endian bytes of a 32-bit value.
pub open spec fn spec_u32_bytes(v: u32) -> Seq<u8> {
    seq![
        (v & 0xff) as u8,
        ((v >> 8) & 0xff) as u8,
        ((v >> 16) & 0xff) as u8,
        ((v >> 24) & 0xff) as u8,
    ]
}

/// The 32-bit value read at `off`, little-endian.
pub open spec fn spec_u32_at(s: Seq<u8>, off: int) -> u32 {
    (s[off] as u32) | ((s[off + 1] as u32) << 8) | ((s[off + 2] as u32) << 16) | ((s[off + 3]
        as u32) << 24)
}

/// The little-endian bytes of a 64-bit value.
pub open spec fn spec_u64_bytes(v: u64) -> Seq<u8> {
    seq![
        (v & 0xff) as u8,
        ((v >> 8) & 0xff) as u8,
        ((v >> 16) & 0xff) as u8,
        ((v >> 24) & 0xff) as u8,
        ((v >> 32) & 0xff) as u8,
        ((v >> 40) & 0xff) as u8,
        ((v >> 48) & 0xff) as u8,
        ((v >> 56) & 0xff) as u8,
    ]
}

/// The 64-bit value read at `off`, little-endian.
pub open spec fn spec_u64_at(s: Seq<u8>, off: int) -> u64 {
    (s[off] as u64) | ((s[off + 1] as u64) << 8) | ((s[off + 2] as u64) << 16) | ((s[off + 3]
        as u64) << 24) | ((s[off + 4] as u64) << 32) | ((s[off + 5] as u64) << 40) | ((s[off + 6]
        as u64) << 48) | ((s[off + 7] as u64) << 56)
}

/// The little-endian bytes of a 128-bit value: low half, then high half.
pub open spec fn spec_u128_bytes(v: u128) -> Seq<u8> {
    spec_u64_bytes(v as u64) + spec_u64_bytes((v >> 64) as u64)
}

/// The 128-bit value read at `off`, little-endian.
pub open spec fn spec_u128_at(s: Seq<u8>, off: int) -> u128 {
    (spec_u64_at(s, off) as u128) | ((spec_u64_at(s, off + 8) as u128) << 64)
}

/// Reading back the bytes of a 32-bit value gives the value.
proof fn lemma_u32_round(s: Seq<u8>, off: int, v: u32)
    requires
        0 <= off,
        off + 4 <= s.len(),
        forall|k: int| 0 <= k < 4 ==> s[off + k] == #[trigger] spec_u32_bytes(v)[k],
    ensures
        spec_u32_at(s, off) == v,
{
    let b0 = s[off];
    let b1 = s[off + 1];
    let b2 = s[off + 2];
    let b3 = s[off + 3];
    assert(b0 == spec_u32_bytes(v)[0] && b1 == spec_u32_bytes(v)[1] && b2 == spec_u32_bytes(v)[2]
        && b3 == spec_u32_bytes(v)[3]);
    assert((b0 as u32) | ((b1 as u32) << 8) | ((b2 as u32) << 16) | ((b3 as u32) << 24) == v)
        by (bit_vector)
        requires
            b0 == (v & 0xff) as u8,
            b1 == ((v >> 8) & 0xff) as u8,
            b2 == ((v >> 16) & 0xff) as u8,
            b3 == ((v >> 24) & 0xff) as u8,
    ;
}

/// Reading back the bytes of a 64-bit value gives the value.
proof fn lemma_u64_round(s: Seq<u8>, off: int, v: u64)
    requires
        0 <= off,
        off + 8 <= s.len(),
        forall|k: int| 0 <= k < 8 ==> s[off + k] == #[trigger] spec_u64_bytes(v)[k],
    ensures
        spec_u64_at(s, off) == v,
{
    let b0 = s[off];
    let b1 = s[off + 1];
    let b2 = s[off + 2];
    let b3 = s[off + 3];
    let b4 = s[off + 4];
    let b5 = s[off + 5];
    let b6 = s[off + 6];
    let b7 = s[off + 7];
    assert(b0 == spec_u64_bytes(v)[0] && b1 == spec_u64_bytes(v)[1] && b2 == spec_u64_bytes(v)[2]
        && b3 == spec_u64_bytes(v)[3] && b4 == spec_u64_bytes(v)[4] && b5 == spec_u64_bytes(v)[5]
        && b6 == spec_u64_bytes(v)[6] && b7 == spec_u64_bytes(v)[7]);
    assert((b0 as u64) | ((b1 as u64) << 8) | ((b2 as u64) << 16) | ((b3 as u64) << 24) | ((b4
        as u64) << 32) | ((b5 as u64) << 40) | ((b6 as u64) << 48) | ((b7 as u64) << 56) == v)
        by (bit_vector)
        requires
            b0 == (v & 0xff) as u8,
            b1 == ((v >> 8) & 0xff) as u8,
            b2 == ((v >> 16) & 0xff) as u8,
            b3 == ((v >> 24) & 0xff) as u8,
            b4 == ((v >> 32) & 0xff) as u8,
            b5 == ((v >> 40) & 0xff) as u8,
            b6 == ((v >> 48) & 0xff) as u8,
            b7 == ((v >> 56) & 0xff) as u8,
    ;
}

/// Reading back the bytes of a 128-bit value gives the value.
proof fn lemma_u128_round(s: Seq<u8>, off: int, v: u128)
    requires
        0 <= off,
        off + 16 <= s.len(),
        forall|k: int| 0 <= k < 16 ==> s[off + k] == #[trigger] spec_u128_bytes(v)[k],
    ensures
        spec_u128_at(s, off) == v,
{
    let lo = v as u64;
    let hi = (v >> 64) as u64;
    assert forall|k: int| 0 <= k < 8 implies s[off + k] == #[trigger] spec_u64_bytes(lo)[k] by {
        assert(spec_u128_bytes(v)[k] == spec_u64_bytes(lo)[k]);
    }
    assert forall|k: int| 0 <= k < 8 implies s[off + 8 + k] == #[trigger] spec_u64_bytes(hi)[
        k] by {
        assert(spec_u128_bytes(v)[8 + k] == spec_u64_bytes(hi)[k]);
        assert(s[off + (8 + k)] == spec_u128_bytes(v)[8 + k]);
    }
    lemma_u64_round(s, off, lo);
    lemma_u64_round(s, off + 8, hi);
    assert((lo as u128) | ((hi as u128) << 64) == v) by (bit_vector)
        requires
            lo == v as u64,
            hi == (v >> 64) as u64,
    ;
}

/// Appends the little-endian bytes of a 32-bit value.
fn push_u32(out: &mut Vec<u8>, v: u32)
    ensures
        final(out)@ == old(out)@ + spec_u32_bytes(v),
{
    out.push((v & 0xff) as u8);
    out.push(((v >> 8) & 0xff) as u8);
    out.push(((v >> 16) & 0xff) as u8);
    out.push(((v >> 24) & 0xff) as u8);
    proof {
        assert(out@ =~= old(out)@ + spec_u32_bytes(v));
    }
}

/// Appends the little-endian bytes of a 64-bit value.
fn push_u64(out: &mut Vec<u8>, v: u64)
    ensures
        final(out)@ == old(out)@ + spec_u64_bytes(v),
{
    out.push((v & 0xff) as u8);
    out.push(((v >> 8) & 0xff) as u8);
    out.push(((v >> 16) & 0xff) as u8);
    out.push(((v >> 24) & 0xff) as u8);
    out.push(((v >> 32) & 0xff) as u8);
    out.push(((v >> 40) & 0xff) as u8);
    out.push(((v >> 48) & 0xff) as u8);
    out.push(((v >> 56) & 0xff) as u8);
    proof {
        assert(out@ =~= old(out)@ + spec_u64_bytes(v));
    }
}

/// Appends the little-endian bytes of a 128-bit value.
fn push_u128(out: &mut Vec<u8>, v: u128)
    ensures
        final(out)@ == old(out)@ + spec_u128_bytes(v),
{
    push_u64(out, v as u64);
    push_u64(out, (v >> 64) as u64);
    proof {
        assert(out@ =~= old(out)@ + spec_u128_bytes(v));
    }
}

/// Reads the 32-bit value at `off`.
fn read_u32(bytes: &[u8], off: usize) -> (r: u32)
    requires
        off + 4 <= bytes@.len(),
    ensures
        r == spec_u32_at(bytes@, off as int),
{
    (bytes[off] as u32) | ((bytes[off + 1] as u32) << 8) | ((bytes[off + 2] as u32) << 16) | ((
    bytes[off + 3] as u32) << 24)
}

/// Reads the 64-bit value at `off`.
fn read_u64(bytes: &[u8], off: usize) -> (r: u64)
    requires
        off + 8 <= bytes@.len(),
    ensures
        r == spec_u64_at(bytes@, off as int),
{
    (bytes[off] as u64) | ((bytes[off + 1] as u64) << 8) | ((bytes[off + 2] as u64) << 16) | ((
    bytes[off + 3] as u64) << 24) | ((bytes[off + 4] as u64) << 32) | ((bytes[off + 5] as u64)
        << 40) | ((bytes[off + 6] as u64) << 48) | ((bytes[off + 7] as u64) << 56)
}

/// Reads the 128-bit value at `off`.
fn read_u128(bytes: &[u8], off: usize) -> (r: u128)
    requires
        off + 16 <= bytes@.len(),
    ensures
        r == spec_u128_at(bytes@, off as int),
{
    let total = bytes.len();
    proof {
        assert(off + 16 <= total);
    }
    let lo = read_u64(bytes, off);
    let hi = read_u64(bytes, off + 8);
    (lo as u128) | ((hi as u128) << 64)
}

/// The mathematical model of a game-process-to-lobby packet.
pub enum GameClientPacketModel {
    Hello,
    Available(Seq<u8>),
    Busy,
    GameCreated(u64),
}

impl View for GameClientPacket {
    type V = GameClientPacketModel;

    open spec fn view(&self) -> GameClientPacketModel {
        match self {
            GameClientPacket::Hello => GameClientPacketModel::Hello,
            GameClientPacket::Available(a) => GameClientPacketModel::Available(a@),
            GameClientPacket::Busy => GameClientPacketModel::Busy,
            GameClientPacket::GameCreated(l) => GameClientPacketModel::GameCreated(*l),
        }
    }
}

/// Whether the packet fits the schema's length prefixes.
pub open spec fn wf_game_client(m: GameClientPacketModel) -> bool {
    match m {
        GameClientPacketModel::Available(a) => a.len() <= u32::MAX,
        _ => true,
    }
}

/// The encoding of a game-process-to-lobby packet.
pub open spec fn spec_encode_game_client(m: GameClientPacketModel) -> Seq<u8> {
    match m {
        GameClientPacketModel::Hello => seq![0u8],
        GameClientPacketModel::Available(a) => seq![1u8] + spec_u32_bytes(a.len() as u32) + a,
        GameClientPacketModel::Busy => seq![2u8],
        GameClientPacketModel::GameCreated(l) => seq![3u8] + spec_u64_bytes(l),
    }
}

/// The exact decoding of a game-process-to-lobby packet: `None` unless the
/// whole input is one well-formed encoding.
pub open spec fn spec_decode_game_client(s: Seq<u8>) -> Option<GameClientPacketModel> {
    if s.len() < 1 {
        None
    } else if s[0] == 0u8 {
        if s.len() == 1 {
            Some(GameClientPacketModel::Hello)
        } else {
            None
        }
    } else if s[0] == 1u8 {
        if s.len() >= 5 && s.len() == 5 + spec_u32_at(s, 1) {
            Some(GameClientPacketModel::Available(s.subrange(5, s.len() as int)))
        } else {
            None
        }
    } else if s[0] == 2u8 {
        if s.len() == 1 {
            Some(GameClientPacketModel::Busy)
        } else {
            None
        }
    } else if s[0] == 3u8 {
        if s.len() == 9 {
            Some(GameClientPacketModel::GameCreated(spec_u64_at(s, 1)))
        } else {
            None
        }
    } else {
        None
    }
}

/// Decoding an encoded game-process packet gives the packet back.
pub proof fn lemma_game_client_round_trip(m: GameClientPacketModel)
    requires
        wf_game_client(m),
    ensures
        spec_decode_game_client(spec_encode_game_client(m)) == Some(m),
{
    let s = spec_encode_game_client(m);
    match m {
        GameClientPacketModel::Hello => {},
        GameClientPacketModel::Busy => {},
        GameClientPacketModel::GameCreated(l) => {
            assert forall|k: int| 0 <= k < 8 implies s[1 + k] == #[trigger] spec_u64_bytes(l)[
                k] by {}
            lemma_u64_round(s, 1, l);
        },
        GameClientPacketModel::Available(a) => {
            let n = a.len() as u32;
            assert forall|k: int| 0 <= k < 4 implies s[1 + k] == #[trigger] spec_u32_bytes(n)[
                k] by {}
            lemma_u32_round(s, 1, n);
            assert(s.len() == 5 + a.len());
            assert(s.subrange(5, s.len() as int) =~= a);
        },
    }
}

/// Encodes a game-process-to-lobby packet.
pub fn encode_game_client(p: &GameClientPacket) -> (r: Vec<u8>)
    requires
        wf_game_client(p@),
    ensures
        r@ == spec_encode_game_client(p@),
        spec_decode_game_client(r@) == Some(p@),
{
    let mut out: Vec<u8> = Vec::new();
    match p {
        GameClientPacket::Hello => {
            out.push(0);
        },
        GameClientPacket::Available(a) => {
            out.push(1);
            push_u32(&mut out, a.len() as u32);
            let mut k: usize = 0;
            while k < a.len()
                invariant
                    k <= a@.len(),
                    out@ == seq![1u8] + spec_u32_bytes(a@.len() as u32) + a@.subrange(0, k as int),
                decreases a@.len() - k,
            {
                out.push(a[k]);
                proof {
                    assert(out@ =~= seq![1u8] + spec_u32_bytes(a@.len() as u32) + a@.subrange(
                        0,
                        k + 1,
                    ));
                }
                k = k + 1;
            }
            proof {
                assert(a@.subrange(0, a@.len() as int) =~= a@);
            }
        },
        GameClientPacket::Busy => {
            out.push(2);
        },
        GameClientPacket::GameCreated(l) => {
            out.push(3);
            push_u64(&mut out, *l);
        },
    }
    proof {
        assert(out@ =~= spec_encode_game_client(p@));
        lemma_game_client_round_trip(p@);
    }
    out
}

/// Decodes a game-process-to-lobby packet; `None` for anything but a
/// whole, well-formed encoding — a malformed message is fatal for its
/// connection.
pub fn decode_game_client(bytes: &[u8]) -> (r: Option<GameClientPacket>)
    ensures
        match spec_decode_game_client(bytes@) {
            Option::Some(m) => r matches Some(p) && p@ == m,
            Option::None => r is None,
        },
{
    if bytes.len() < 1 {
        return None;
    }
    let tag = bytes[0];
    if tag == 0 {
        if bytes.len() == 1 {
            Some(GameClientPacket::Hello)
        } else {
            None
        }
    } else if tag == 1 {
        if bytes.len() < 5 {
            return None;
        }
        let n = read_u32(bytes, 1);
        if n as u64 != (bytes.len() as u64) - 5 {
            return None;
        }
        let mut a: Vec<u8> = Vec::new();
        let mut k: usize = 5;
        while k < bytes.len()
            invariant
                5 <= k <= bytes@.len(),
                a@ == bytes@.subrange(5, k as int),
            decreases bytes@.len() - k,
        {
            a.push(bytes[k]);
            proof {
                assert(a@ =~= bytes@.subrange(5, k + 1));
            }
            k = k + 1;
        }
        Some(GameClientPacket::Available(a))
    } else if tag == 2 {
        if bytes.len() == 1 {
            Some(GameClientPacket::Busy)
        } else {
            None
        }
    } else if tag == 3 {
        if bytes.len() == 9 {
            Some(GameClientPacket::GameCreated(read_u64(bytes, 1)))
        } else {
            None
        }
    } else {
        None
    }
}

} // verus!

verus! {

/// The mathematical model of the assignment request: identities and
/// credentials as their raw 128-bit values.
pub struct CreateGameRequestModel {
    pub lobby_id: u64,
    pub players: Seq<(u128, u128)>,
    pub courses: Seq<Seq<u8>>,
}

impl View for CreateGameRequest {
    type V = CreateGameRequestModel;

    open spec fn view(&self) -> CreateGameRequestModel {
        CreateGameRequestModel {
            lobby_id: self.lobby_id,
            players: self.players@.map_values(
                |p: (PlayerId, PlayerCredentials)| (p.0.spec_bits(), p.1.secret),
            ),
            courses: self.courses@.map_values(|c: Vec<u8>| c@),
        }
    }
}

/// The mathematical model of a lobby-to-game-process packet.
pub enum GameServerPacketModel {
    Hello,
    CreateGame(CreateGameRequestModel),
}

impl View for GameServerPacket {
    type V = GameServerPacketModel;

    open spec fn view(&self) -> GameServerPacketModel {
        match self {
            GameServerPacket::Hello => GameServerPacketModel::Hello,
            GameServerPacket::CreateGame(r) => GameServerPacketModel::CreateGame(r@),
        }
    }
}

/// The encoding of a player list: 32 bytes per entry, identity then
/// credential.
pub open spec fn spec_encode_players(ps: Seq<(u128, u128)>) -> Seq<u8>
    decreases ps.len(),
{
    if ps.len() == 0 {
        Seq::empty()
    } else {
        spec_u128_bytes(ps[0].0) + spec_u128_bytes(ps[0].1) + spec_encode_players(ps.drop_first())
    }
}

/// A player list encodes to 32 bytes per entry.
pub proof fn lemma_encode_players_len(ps: Seq<(u128, u128)>)
    ensures
        spec_encode_players(ps).len() == 32 * ps.len(),
    decreases ps.len(),
{
    if ps.len() > 0 {
        lemma_encode_players_len(ps.drop_first());
    }
}

/// Reads `n` players at `off`: the parsed entries and the next offset,
/// or `None` when the input is short.
pub open spec fn spec_decode_players(s: Seq<u8>, off: int, n: nat) -> Option<
    (Seq<(u128, u128)>, int),
>
    decreases n,
{
    if n == 0 {
        Some((Seq::empty(), off))
    } else if 0 <= off && off + 32 <= s.len() {
        let id = spec_u128_at(s, off);
        let secret = spec_u128_at(s, off + 16);
        match spec_decode_players(s, off + 32, (n - 1) as nat) {
            Some((rest, end)) => Some((seq![(id, secret)] + rest, end)),
            None => None,
        }
    } else {
        None
    }
}

/// Reading back an encoded player list gives the list.
pub proof fn lemma_players_round(s: Seq<u8>, off: int, ps: Seq<(u128, u128)>)
    requires
        0 <= off,
        off + 32 * ps.len() <= s.len(),
        forall|k: int|
            0 <= k < 32 * ps.len() ==> s[off + k] == #[trigger] spec_encode_players(ps)[k],
    ensures
        spec_decode_players(s, off, ps.len() as nat) == Some((ps, off + 32 * ps.len())),
    decreases ps.len(),
{
    lemma_encode_players_len(ps);
    if ps.len() == 0 {
        assert(spec_decode_players(s, off, 0) == Some((Seq::<(u128, u128)>::empty(), off)));
        assert(ps =~= Seq::<(u128, u128)>::empty());
    } else {
        let enc = spec_encode_players(ps);
        let head0 = spec_u128_bytes(ps[0].0);
        let head1 = spec_u128_bytes(ps[0].1);
        let tail = spec_encode_players(ps.drop_first());
        lemma_encode_players_len(ps.drop_first());
        assert forall|k: int| 0 <= k < 16 implies s[off + k] == #[trigger] spec_u128_bytes(
            ps[0].0,
        )[k] by {
            assert(enc[k] == head0[k]);
        }
        assert forall|k: int| 0 <= k < 16 implies s[off + 16 + k] == #[trigger] spec_u128_bytes(
            ps[0].1,
        )[k] by {
            assert(enc[16 + k] == head1[k]);
            assert(s[off + (16 + k)] == enc[16 + k]);
        }
        lemma_u128_round(s, off, ps[0].0);
        lemma_u128_round(s, off + 16, ps[0].1);
        assert forall|k: int|
            0 <= k < 32 * ps.drop_first().len() implies s[(off + 32) + k]
            == #[trigger] spec_encode_players(ps.drop_first())[k] by {
            assert(enc[32 + k] == tail[k]);
            assert(s[off + (32 + k)] == enc[32 + k]);
        }
        lemma_players_round(s, off + 32, ps.drop_first());
        assert(seq![(ps[0].0, ps[0].1)] + ps.drop_first() =~= ps);
    }
}

/// The encoding of a course list: each course as a 32-bit length followed
/// by its bytes.
pub open spec fn spec_encode_courses(cs: Seq<Seq<u8>>) -> Seq<u8>
    decreases cs.len(),
{
    if cs.len() == 0 {
        Seq::empty()
    } else {
        spec_u32_bytes(cs[0].len() as u32) + cs[0] + spec_encode_courses(cs.drop_first())
    }
}

/// Whether every course id fits its length prefix.
pub open spec fn wf_courses(cs: Seq<Seq<u8>>) -> bool {
    forall|i: int| 0 <= i < cs.len() ==> (#[trigger] cs[i]).len() <= u32::MAX
}

/// Reads `n` courses at `off`: the parsed ids and the next offset, or
/// `None` when the input is short.
pub open spec fn spec_decode_courses(s: Seq<u8>, off: int, n: nat) -> Option<(Seq<Seq<u8>>, int)>
    decreases n,
{
    if n == 0 {
        Some((Seq::empty(), off))
    } else if 0 <= off && off + 4 <= s.len() {
        let len = spec_u32_at(s, off) as int;
        if off + 4 + len <= s.len() {
            let course = s.subrange(off + 4, off + 4 + len);
            match spec_decode_courses(s, off + 4 + len, (n - 1) as nat) {
                Some((rest, end)) => Some((seq![course] + rest, end)),
                None => None,
            }
        } else {
            None
        }
    } else {
        None
    }
}

/// Reading back an encoded course list gives the list.
pub proof fn lemma_courses_round(s: Seq<u8>, off: int, cs: Seq<Seq<u8>>)
    requires
        wf_courses(cs),
        0 <= off,
        off + spec_encode_courses(cs).len() <= s.len(),
        forall|k: int|
            0 <= k < spec_encode_courses(cs).len() ==> s[off + k]
                == #[trigger] spec_encode_courses(cs)[k],
    ensures
        spec_decode_courses(s, off, cs.len() as nat) == Some(
            (cs, off + spec_encode_courses(cs).len()),
        ),
    decreases cs.len(),
{
    if cs.len() == 0 {
        assert(cs =~= Seq::<Seq<u8>>::empty());
    } else {
        let enc = spec_encode_courses(cs);
        let head = cs[0];
        let n = head.len() as u32;
        let tail = spec_encode_courses(cs.drop_first());
        assert(enc.len() == 4 + head.len() + tail.len());
        assert forall|k: int| 0 <= k < 4 implies s[off + k] == #[trigger] spec_u32_bytes(n)[k] by {
            assert(enc[k] == spec_u32_bytes(n)[k]);
        }
        lemma_u32_round(s, off, n);
        assert(spec_u32_at(s, off) as int == head.len());
        assert(s.subrange(off + 4, off + 4 + head.len()) =~= head) by {
            assert forall|k: int| 0 <= k < head.len() implies s[off + 4 + k] == head[k] by {
                assert(enc[4 + k] == head[k]);
                assert(s[off + (4 + k)] == enc[4 + k]);
            }
        }
        assert(wf_courses(cs.drop_first())) by {
            assert forall|i: int| 0 <= i < cs.drop_first().len() implies (#[trigger] cs.drop_first()[
                i]).len() <= u32::MAX by {
                assert(cs.drop_first()[i] == cs[i + 1]);
            }
        }
        assert forall|k: int|
            0 <= k < tail.len() implies s[(off + 4 + head.len()) + k] == #[trigger] tail[k] by {
            assert(enc[4 + head.len() + k] == tail[k]);
            assert(s[off + (4 + head.len() + k)] == enc[4 + head.len() + k]);
        }
        lemma_courses_round(s, off + 4 + head.len(), cs.drop_first());
        assert(seq![head] + cs.drop_first() =~= cs);
    }
}

/// Whether the request fits the schema's length prefixes.
pub open spec fn wf_create_game(m: CreateGameRequestModel) -> bool {
    &&& m.players.len() <= u32::MAX
    &&& m.courses.len() <= u32::MAX
    &&& wf_courses(m.courses)
}

/// Whether the packet fits the schema's length prefixes.
pub open spec fn wf_game_server(m: GameServerPacketModel) -> bool {
    match m {
        GameServerPacketModel::Hello => true,
        GameServerPacketModel::CreateGame(r) => wf_create_game(r),
    }
}

/// The encoding of a lobby-to-game-process packet.
pub open spec fn spec_encode_game_server(m: GameServerPacketModel) -> Seq<u8> {
    match m {
        GameServerPacketModel::Hello => seq![0u8],
        GameServerPacketModel::CreateGame(r) => seq![1u8] + spec_u64_bytes(r.lobby_id)
            + spec_u32_bytes(r.players.len() as u32) + spec_encode_players(r.players)
            + spec_u32_bytes(r.courses.len() as u32) + spec_encode_courses(r.courses),
    }
}

/// The exact decoding of a lobby-to-game-process packet.
pub open spec fn spec_decode_game_server(s: Seq<u8>) -> Option<GameServerPacketModel> {
    if s.len() < 1 {
        None
    } else if s[0] == 0u8 {
        if s.len() == 1 {
            Some(GameServerPacketModel::Hello)
        } else {
            None
        }
    } else if s[0] == 1u8 {
        if s.len() < 13 {
            None
        } else {
            let lobby_id = spec_u64_at(s, 1);
            let n_players = spec_u32_at(s, 9) as nat;
            match spec_decode_players(s, 13, n_players) {
                Some((players, after_players)) => {
                    if after_players + 4 <= s.len() {
                        let n_courses = spec_u32_at(s, after_players) as nat;
                        match spec_decode_courses(s, after_players + 4, n_courses) {
                            Some((courses, end)) => {
                                if end == s.len() {
                                    Some(
                                        GameServerPacketModel::CreateGame(
                                            CreateGameRequestModel { lobby_id, players, courses },
                                        ),
                                    )
                                } else {
                                    None
                                }
                            },
                            None => None,
                        }
                    } else {
                        None
                    }
                },
                None => None,
            }
        }
    } else {
        None
    }
}

/// Decoding an encoded lobby-to-game-process packet gives the packet back.
#[verifier::rlimit(30)]
pub proof fn lemma_game_server_round_trip(m: GameServerPacketModel)
    requires
        wf_game_server(m),
    ensures
        spec_decode_game_server(spec_encode_game_server(m)) == Some(m),
{
    let s = spec_encode_game_server(m);
    match m {
        GameServerPacketModel::Hello => {},
        GameServerPacketModel::CreateGame(r) => {
            lemma_encode_players_len(r.players);
            let penc = spec_encode_players(r.players);
            let cenc = spec_encode_courses(r.courses);
            let after_players = 13 + penc.len() as int;
            assert(s.len() == 13 + penc.len() + 4 + cenc.len());
            assert forall|k: int| 0 <= k < 8 implies s[1 + k] == #[trigger] spec_u64_bytes(
                r.lobby_id,
            )[k] by {}
            lemma_u64_round(s, 1, r.lobby_id);
            assert forall|k: int| 0 <= k < 4 implies s[9 + k] == #[trigger] spec_u32_bytes(
                r.players.len() as u32,
            )[k] by {}
            lemma_u32_round(s, 9, r.players.len() as u32);
            assert forall|k: int| 0 <= k < 32 * r.players.len() implies s[13 + k]
                == #[trigger] penc[k] by {}
            lemma_players_round(s, 13, r.players);
            assert forall|k: int| 0 <= k < 4 implies s[after_players + k]
                == #[trigger] spec_u32_bytes(r.courses.len() as u32)[k] by {}
            lemma_u32_round(s, after_players, r.courses.len() as u32);
            assert forall|k: int| 0 <= k < cenc.len() implies s[(after_players + 4) + k]
                == #[trigger] cenc[k] by {}
            lemma_courses_round(s, after_players + 4, r.courses);
        },
    }
}

} // verus!

verus! {

/// Encoding distributes over appending one player.
proof fn lemma_encode_players_push(ps: Seq<(u128, u128)>, x: (u128, u128))
    ensures
        spec_encode_players(ps.push(x)) == spec_encode_players(ps) + spec_u128_bytes(x.0)
            + spec_u128_bytes(x.1),
    decreases ps.len(),
{
    if ps.len() == 0 {
        assert(ps.push(x)[0] == x);
        assert(ps.push(x).drop_first() =~= Seq::<(u128, u128)>::empty());
        assert(ps =~= Seq::<(u128, u128)>::empty());
        assert(spec_encode_players(ps.push(x)) =~= spec_encode_players(ps) + spec_u128_bytes(x.0)
            + spec_u128_bytes(x.1));
    } else {
        assert(ps.push(x).drop_first() =~= ps.drop_first().push(x));
        lemma_encode_players_push(ps.drop_first(), x);
        assert(ps.push(x)[0] == ps[0]);
        assert(spec_encode_players(ps.push(x)) =~= spec_encode_players(ps) + spec_u128_bytes(x.0)
            + spec_u128_bytes(x.1));
    }
}

/// Encoding distributes over appending one course.
proof fn lemma_encode_courses_push(cs: Seq<Seq<u8>>, x: Seq<u8>)
    ensures
        spec_encode_courses(cs.push(x)) == spec_encode_courses(cs) + spec_u32_bytes(x.len() as u32)
            + x,
    decreases cs.len(),
{
    if cs.len() == 0 {
        assert(cs.push(x)[0] == x);
        assert(cs.push(x).drop_first() =~= Seq::<Seq<u8>>::empty());
        assert(cs =~= Seq::<Seq<u8>>::empty());
        assert(spec_encode_courses(cs.push(x)) =~= spec_encode_courses(cs) + spec_u32_bytes(
            x.len() as u32,
        ) + x);
    } else {
        assert(cs.push(x).drop_first() =~= cs.drop_first().push(x));
        lemma_encode_courses_push(cs.drop_first(), x);
        assert(cs.push(x)[0] == cs[0]);
        assert(spec_encode_courses(cs.push(x)) =~= spec_encode_courses(cs) + spec_u32_bytes(
            x.len() as u32,
        ) + x);
    }
}

/// Appends one course's bytes after its length prefix.
fn push_course(out: &mut Vec<u8>, course: &Vec<u8>)
    requires
        course@.len() <= u32::MAX,
    ensures
        final(out)@ == old(out)@ + spec_u32_bytes(course@.len() as u32) + course@,
{
    push_u32(out, course.len() as u32);
    let mut k: usize = 0;
    while k < course.len()
        invariant
            k <= course@.len(),
            out@ == old(out)@ + spec_u32_bytes(course@.len() as u32) + course@.subrange(
                0,
                k as int,
            ),
        decreases course@.len() - k,
    {
        out.push(course[k]);
        proof {
            assert(out@ =~= old(out)@ + spec_u32_bytes(course@.len() as u32) + course@.subrange(
                0,
                k + 1,
            ));
        }
        k = k + 1;
    }
    proof {
        assert(course@.subrange(0, course@.len() as int) =~= course@);
        assert(out@ =~= old(out)@ + spec_u32_bytes(course@.len() as u32) + course@);
    }
}

/// Encodes a lobby-to-game-process packet.
pub fn encode_game_server(p: &GameServerPacket) -> (r: Vec<u8>)
    requires
        wf_game_server(p@),
    ensures
        r@ == spec_encode_game_server(p@),
        spec_decode_game_server(r@) == Some(p@),
{
    let mut out: Vec<u8> = Vec::new();
    match p {
        GameServerPacket::Hello => {
            out.push(0);
        },
        GameServerPacket::CreateGame(request) => {
            out.push(1);
            push_u64(&mut out, request.lobby_id);
            push_u32(&mut out, request.players.len() as u32);
            let ghost players_model = request@.players;
            let mut k: usize = 0;
            while k < request.players.len()
                invariant
                    k <= request.players@.len(),
                    players_model == request@.players,
                    request@.players.len() == request.players@.len(),
                    forall|j: int|
                        0 <= j < request.players@.len() ==> #[trigger] players_model[j] == (
                        request.players@[j].0.spec_bits(), request.players@[j].1.secret),
                    out@ == seq![1u8] + spec_u64_bytes(request.lobby_id) + spec_u32_bytes(
                        request.players@.len() as u32,
                    ) + spec_encode_players(players_model.subrange(0, k as int)),
                decreases request.players@.len() - k,
            {
                let (id, credentials) = (request.players[k].0, request.players[k].1);
                push_u128(&mut out, id.bits());
                push_u128(&mut out, credentials.secret);
                proof {
                    lemma_encode_players_push(
                        players_model.subrange(0, k as int),
                        players_model[k as int],
                    );
                    assert(players_model.subrange(0, k + 1) =~= players_model.subrange(
                        0,
                        k as int,
                    ).push(players_model[k as int]));
                    assert(out@ =~= seq![1u8] + spec_u64_bytes(request.lobby_id) + spec_u32_bytes(
                        request.players@.len() as u32,
                    ) + spec_encode_players(players_model.subrange(0, k + 1)));
                }
                k = k + 1;
            }
            proof {
                assert(players_model.subrange(0, players_model.len() as int) =~= players_model);
            }
            push_u32(&mut out, request.courses.len() as u32);
            let ghost courses_model = request@.courses;
            let ghost prefix = out@;
            let mut c: usize = 0;
            while c < request.courses.len()
                invariant
                    c <= request.courses@.len(),
                    courses_model == request@.courses,
                    request@.courses.len() == request.courses@.len(),
                    wf_courses(courses_model),
                    forall|j: int|
                        0 <= j < request.courses@.len() ==> #[trigger] courses_model[j]
                            == request.courses@[j]@,
                    out@ == prefix + spec_encode_courses(courses_model.subrange(0, c as int)),
                decreases request.courses@.len() - c,
            {
                proof {
                    assert(courses_model[c as int] == request.courses@[c as int]@);
                }
                push_course(&mut out, &request.courses[c]);
                proof {
                    lemma_encode_courses_push(
                        courses_model.subrange(0, c as int),
                        courses_model[c as int],
                    );
                    assert(courses_model.subrange(0, c + 1) =~= courses_model.subrange(
                        0,
                        c as int,
                    ).push(courses_model[c as int]));
                    assert(out@ =~= prefix + spec_encode_courses(
                        courses_model.subrange(0, c + 1),
                    ));
                }
                c = c + 1;
            }
            proof {
                assert(courses_model.subrange(0, courses_model.len() as int) =~= courses_model);
                assert(out@ =~= spec_encode_game_server(p@));
            }
        },
    }
    proof {
        assert(out@ =~= spec_encode_game_server(p@));
        lemma_game_server_round_trip(p@);
    }
    out
}

/// Decodes a lobby-to-game-process packet; `None` for anything but a
/// whole, well-formed encoding.
pub fn decode_game_server(bytes: &[u8]) -> (r: Option<GameServerPacket>)
    ensures
        match spec_decode_game_server(bytes@) {
            Option::Some(m) => r matches Some(p) && p@ == m,
            Option::None => r is None,
        },
{
    if bytes.len() < 1 {
        return None;
    }
    let tag = bytes[0];
    if tag == 0 {
        if bytes.len() == 1 {
            Some(GameServerPacket::Hello)
        } else {
            None
        }
    } else if tag == 1 {
        if bytes.len() < 13 {
            return None;
        }
        let lobby_id = read_u64(bytes, 1);
        let n_players = read_u32(bytes, 9);
        let ghost n = spec_u32_at(bytes@, 9) as nat;
        let mut players: Vec<(PlayerId, PlayerCredentials)> = Vec::new();
        let mut cur: usize = 13;
        let mut i: u32 = 0;
        proof {
            assert(players@.map_values(
                |p: (PlayerId, PlayerCredentials)| (p.0.spec_bits(), p.1.secret),
            ) =~= Seq::<(u128, u128)>::empty());
        }
        while i < n_players
            invariant
                i <= n_players,
                13 <= cur <= bytes@.len(),
                bytes@.len() <= usize::MAX,
                bytes@[0] == 1u8,
                n == n_players,
                n == spec_u32_at(bytes@, 9) as nat,
                lobby_id == spec_u64_at(bytes@, 1),
                ({
                    let acc = players@.map_values(
                        |p: (PlayerId, PlayerCredentials)| (p.0.spec_bits(), p.1.secret),
                    );
                    match spec_decode_players(bytes@, cur as int, (n - i) as nat) {
                        Some((rest, end)) => spec_decode_players(bytes@, 13, n) == Some(
                            (acc + rest, end),
                        ),
                        None => spec_decode_players(bytes@, 13, n) is None,
                    }
                }),
            decreases n_players - i,
        {
            if bytes.len() - cur < 32 {
                proof {
                    assert(spec_decode_players(bytes@, cur as int, (n - i) as nat) is None);
                }
                return None;
            }
            let id_bits = read_u128(bytes, cur);
            let secret = read_u128(bytes, cur + 16);
            let ghost acc_before = players@.map_values(
                |p: (PlayerId, PlayerCredentials)| (p.0.spec_bits(), p.1.secret),
            );
            players.push((PlayerId::from_bits(id_bits), PlayerCredentials { secret }));
            proof {
                let acc_after = players@.map_values(
                    |p: (PlayerId, PlayerCredentials)| (p.0.spec_bits(), p.1.secret),
                );
                assert(acc_after =~= acc_before.push((id_bits, secret)));
                match spec_decode_players(bytes@, cur as int + 32, (n - i - 1) as nat) {
                    Some((rest2, end2)) => {
                        assert(acc_before + (seq![(id_bits, secret)] + rest2) =~= acc_after
                            + rest2);
                    },
                    None => {},
                }
            }
            cur = cur + 32;
            i = i + 1;
        }
        proof {
            let acc = players@.map_values(
                |p: (PlayerId, PlayerCredentials)| (p.0.spec_bits(), p.1.secret),
            );
            assert(spec_decode_players(bytes@, cur as int, 0) == Some(
                (Seq::<(u128, u128)>::empty(), cur as int),
            ));
            assert(acc + Seq::<(u128, u128)>::empty() =~= acc);
        }
        if bytes.len() - cur < 4 {
            return None;
        }
        let n_courses = read_u32(bytes, cur);
        let ghost nc = spec_u32_at(bytes@, cur as int) as nat;
        let ghost after_players = cur as int;
        let ghost decoded_players = players@.map_values(
            |p: (PlayerId, PlayerCredentials)| (p.0.spec_bits(), p.1.secret),
        );
        let mut courses: Vec<Vec<u8>> = Vec::new();
        cur = cur + 4;
        let mut c: u32 = 0;
        proof {
            assert(courses@.map_values(|v: Vec<u8>| v@) =~= Seq::<Seq<u8>>::empty());
        }
        while c < n_courses
            invariant
                c <= n_courses,
                0 <= cur <= bytes@.len(),
                bytes@.len() >= 13,
                bytes@.len() <= usize::MAX,
                bytes@[0] == 1u8,
                n == spec_u32_at(bytes@, 9) as nat,
                lobby_id == spec_u64_at(bytes@, 1),
                spec_decode_players(bytes@, 13, n) == Some((decoded_players, after_players)),
                players@.map_values(
                    |p: (PlayerId, PlayerCredentials)| (p.0.spec_bits(), p.1.secret),
                ) == decoded_players,
                after_players + 4 <= bytes@.len(),
                nc == n_courses,
                nc == spec_u32_at(bytes@, after_players) as nat,
                ({
                    let acc = courses@.map_values(|v: Vec<u8>| v@);
                    match spec_decode_courses(bytes@, cur as int, (nc - c) as nat) {
                        Some((rest, end)) => spec_decode_courses(bytes@, after_players + 4, nc)
                            == Some((acc + rest, end)),
                        None => spec_decode_courses(bytes@, after_players + 4, nc) is None,
                    }
                }),
            decreases n_courses - c,
        {
            if bytes.len() - cur < 4 {
                proof {
                    assert(spec_decode_courses(bytes@, cur as int, (nc - c) as nat) is None);
                }
                return None;
            }
            let len = read_u32(bytes, cur);
            if ((bytes.len() - cur - 4) as u64) < (len as u64) {
                proof {
                    assert(spec_decode_courses(bytes@, cur as int, (nc - c) as nat) is None);
                }
                return None;
            }
            let len = len as usize;
            let mut course: Vec<u8> = Vec::new();
            let start = cur + 4;
            let mut k: usize = 0;
            while k < len
                invariant
                    k <= len,
                    start + len <= bytes@.len(),
                    bytes@.len() <= usize::MAX,
                    course@ == bytes@.subrange(start as int, start + k),
                decreases len - k,
            {
                course.push(bytes[start + k]);
                proof {
                    assert(course@ =~= bytes@.subrange(start as int, start + k + 1));
                }
                k = k + 1;
            }
            let ghost acc_before = courses@.map_values(|v: Vec<u8>| v@);
            courses.push(course);
            proof {
                let acc_after = courses@.map_values(|v: Vec<u8>| v@);
                let elem = bytes@.subrange(cur + 4 as int, cur + 4 + len as int);
                assert(acc_after =~= acc_before.push(elem));
                match spec_decode_courses(bytes@, cur + 4 + len as int, (nc - c - 1) as nat) {
                    Some((rest2, end2)) => {
                        assert(acc_before + (seq![elem] + rest2) =~= acc_after + rest2);
                    },
                    None => {},
                }
            }
            cur = cur + 4 + len;
            c = c + 1;
        }
        proof {
            let acc = courses@.map_values(|v: Vec<u8>| v@);
            assert(spec_decode_courses(bytes@, cur as int, 0) == Some(
                (Seq::<Seq<u8>>::empty(), cur as int),
            ));
            assert(acc + Seq::<Seq<u8>>::empty() =~= acc);
        }
        if cur != bytes.len() {
            return None;
        }
        let request = CreateGameRequest { lobby_id, players, courses };
        Some(GameServerPacket::CreateGame(request))
    } else {
        None
    }
}

} // verus!

verus! {

/// The encoding of a lobby-id list: 8 bytes per entry.
pub open spec fn spec_encode_u64_list(xs: Seq<u64>) -> Seq<u8>
    decreases xs.len(),
{
    if xs.len() == 0 {
        Seq::empty()
    } else {
        spec_u64_bytes(xs[0]) + spec_encode_u64_list(xs.drop_first())
    }
}

/// A lobby-id list encodes to 8 bytes per entry.
pub proof fn lemma_encode_u64_list_len(xs: Seq<u64>)
    ensures
        spec_encode_u64_list(xs).len() == 8 * xs.len(),
    decreases xs.len(),
{
    if xs.len() > 0 {
        lemma_encode_u64_list_len(xs.drop_first());
    }
}

/// Encoding distributes over appending one entry.
proof fn lemma_encode_u64_list_push(xs: Seq<u64>, x: u64)
    ensures
        spec_encode_u64_list(xs.push(x)) == spec_encode_u64_list(xs) + spec_u64_bytes(x),
    decreases xs.len(),
{
    if xs.len() == 0 {
        assert(xs.push(x)[0] == x);
        assert(xs.push(x).drop_first() =~= Seq::<u64>::empty());
        assert(xs =~= Seq::<u64>::empty());
        assert(spec_encode_u64_list(xs.push(x)) =~= spec_encode_u64_list(xs) + spec_u64_bytes(x));
    } else {
        assert(xs.push(x).drop_first() =~= xs.drop_first().push(x));
        lemma_encode_u64_list_push(xs.drop_first(), x);
        assert(xs.push(x)[0] == xs[0]);
        assert(spec_encode_u64_list(xs.push(x)) =~= spec_encode_u64_list(xs) + spec_u64_bytes(x));
    }
}

/// Reads `n` lobby ids at `off`.
pub open spec fn spec_decode_u64_list(s: Seq<u8>, off: int, n: nat) -> Option<(Seq<u64>, int)>
    decreases n,
{
    if n == 0 {
        Some((Seq::empty(), off))
    } else if 0 <= off && off + 8 <= s.len() {
        let v = spec_u64_at(s, off);
        match spec_decode_u64_list(s, off + 8, (n - 1) as nat) {
            Some((rest, end)) => Some((seq![v] + rest, end)),
            None => None,
        }
    } else {
        None
    }
}

/// Reading back an encoded lobby-id list gives the list.
pub proof fn lemma_u64_list_round(s: Seq<u8>, off: int, xs: Seq<u64>)
    requires
        0 <= off,
        off + 8 * xs.len() <= s.len(),
        forall|k: int|
            0 <= k < 8 * xs.len() ==> s[off + k] == #[trigger] spec_encode_u64_list(xs)[k],
    ensures
        spec_decode_u64_list(s, off, xs.len() as nat) == Some((xs, off + 8 * xs.len())),
    decreases xs.len(),
{
    lemma_encode_u64_list_len(xs);
    if xs.len() == 0 {
        assert(xs =~= Seq::<u64>::empty());
    } else {
        let enc = spec_encode_u64_list(xs);
        let tail = spec_encode_u64_list(xs.drop_first());
        lemma_encode_u64_list_len(xs.drop_first());
        assert forall|k: int| 0 <= k < 8 implies s[off + k] == #[trigger] spec_u64_bytes(xs[0])[
            k] by {
            assert(enc[k] == spec_u64_bytes(xs[0])[k]);
        }
        lemma_u64_round(s, off, xs[0]);
        assert forall|k: int| 0 <= k < 8 * xs.drop_first().len() implies s[(off + 8) + k]
            == #[trigger] tail[k] by {
            assert(enc[8 + k] == tail[k]);
            assert(s[off + (8 + k)] == enc[8 + k]);
        }
        lemma_u64_list_round(s, off + 8, xs.drop_first());
        assert(seq![xs[0]] + xs.drop_first() =~= xs);
    }
}

/// The encoding of a player-id list: 16 bytes per entry.
pub open spec fn spec_encode_u128_list(xs: Seq<u128>) -> Seq<u8>
    decreases xs.len(),
{
    if xs.len() == 0 {
        Seq::empty()
    } else {
        spec_u128_bytes(xs[0]) + spec_encode_u128_list(xs.drop_first())
    }
}

/// A player-id list encodes to 16 bytes per entry.
pub proof fn lemma_encode_u128_list_len(xs: Seq<u128>)
    ensures
        spec_encode_u128_list(xs).len() == 16 * xs.len(),
    decreases xs.len(),
{
    if xs.len() > 0 {
        lemma_encode_u128_list_len(xs.drop_first());
    }
}

/// Encoding distributes over appending one entry.
proof fn lemma_encode_u128_list_push(xs: Seq<u128>, x: u128)
    ensures
        spec_encode_u128_list(xs.push(x)) == spec_encode_u128_list(xs) + spec_u128_bytes(x),
    decreases xs.len(),
{
    if xs.len() == 0 {
        assert(xs.push(x)[0] == x);
        assert(xs.push(x).drop_first() =~= Seq::<u128>::empty());
        assert(xs =~= Seq::<u128>::empty());
        assert(spec_encode_u128_list(xs.push(x)) =~= spec_encode_u128_list(xs) + spec_u128_bytes(
            x,
        ));
    } else {
        assert(xs.push(x).drop_first() =~= xs.drop_first().push(x));
        lemma_encode_u128_list_push(xs.drop_first(), x);
        assert(xs.push(x)[0] == xs[0]);
        assert(spec_encode_u128_list(xs.push(x)) =~= spec_encode_u128_list(xs) + spec_u128_bytes(
            x,
        ));
    }
}

/// Reads `n` player ids at `off`.
pub open spec fn spec_decode_u128_list(s: Seq<u8>, off: int, n: nat) -> Option<(Seq<u128>, int)>
    decreases n,
{
    if n == 0 {
        Some((Seq::empty(), off))
    } else if 0 <= off && off + 16 <= s.len() {
        let v = spec_u128_at(s, off);
        match spec_decode_u128_list(s, off + 16, (n - 1) as nat) {
            Some((rest, end)) => Some((seq![v] + rest, end)),
            None => None,
        }
    } else {
        None
    }
}

/// Reading back an encoded player-id list gives the list.
pub proof fn lemma_u128_list_round(s: Seq<u8>, off: int, xs: Seq<u128>)
    requires
        0 <= off,
        off + 16 * xs.len() <= s.len(),
        forall|k: int|
            0 <= k < 16 * xs.len() ==> s[off + k] == #[trigger] spec_encode_u128_list(xs)[k],
    ensures
        spec_decode_u128_list(s, off, xs.len() as nat) == Some((xs, off + 16 * xs.len())),
    decreases xs.len(),
{
    lemma_encode_u128_list_len(xs);
    if xs.len() == 0 {
        assert(xs =~= Seq::<u128>::empty());
    } else {
        let enc = spec_encode_u128_list(xs);
        let tail = spec_encode_u128_list(xs.drop_first());
        lemma_encode_u128_list_len(xs.drop_first());
        assert forall|k: int| 0 <= k < 16 implies s[off + k] == #[trigger] spec_u128_bytes(xs[0])[
            k] by {
            assert(enc[k] == spec_u128_bytes(xs[0])[k]);
        }
        lemma_u128_round(s, off, xs[0]);
        assert forall|k: int| 0 <= k < 16 * xs.drop_first().len() implies s[(off + 16) + k]
            == #[trigger] tail[k] by {
            assert(enc[16 + k] == tail[k]);
            assert(s[off + (16 + k)] == enc[16 + k]);
        }
        lemma_u128_list_round(s, off + 16, xs.drop_first());
        assert(seq![xs[0]] + xs.drop_first() =~= xs);
    }
}

/// The encoding of a player-to-lobby packet.
pub open spec fn spec_encode_user_client(p: UserClientPacket) -> Seq<u8> {
    match p {
        UserClientPacket::Hello => seq![0u8],
        UserClientPacket::CreateLobby => seq![1u8],
        UserClientPacket::ListLobbies => seq![2u8],
        UserClientPacket::JoinLobby(id) => seq![3u8] + spec_u64_bytes(id),
        UserClientPacket::LeaveLobby => seq![4u8],
        UserClientPacket::StartGame => seq![5u8],
    }
}

/// The exact decoding of a player-to-lobby packet.
pub open spec fn spec_decode_user_client(s: Seq<u8>) -> Option<UserClientPacket> {
    if s.len() < 1 {
        None
    } else if s[0] == 0u8 && s.len() == 1 {
        Some(UserClientPacket::Hello)
    } else if s[0] == 1u8 && s.len() == 1 {
        Some(UserClientPacket::CreateLobby)
    } else if s[0] == 2u8 && s.len() == 1 {
        Some(UserClientPacket::ListLobbies)
    } else if s[0] == 3u8 && s.len() == 9 {
        Some(UserClientPacket::JoinLobby(spec_u64_at(s, 1)))
    } else if s[0] == 4u8 && s.len() == 1 {
        Some(UserClientPacket::LeaveLobby)
    } else if s[0] == 5u8 && s.len() == 1 {
        Some(UserClientPacket::StartGame)
    } else {
        None
    }
}

/// Decoding an encoded player-to-lobby packet gives the packet back.
pub proof fn lemma_user_client_round_trip(p: UserClientPacket)
    ensures
        spec_decode_user_client(spec_encode_user_client(p)) == Some(p),
{
    let s = spec_encode_user_client(p);
    match p {
        UserClientPacket::JoinLobby(id) => {
            assert forall|k: int| 0 <= k < 8 implies s[1 + k] == #[trigger] spec_u64_bytes(id)[
                k] by {}
            lemma_u64_round(s, 1, id);
        },
        _ => {},
    }
}

/// The mathematical model of a lobby-to-player packet: identities and
/// credentials as their raw 128-bit values.
pub enum UserServerPacketModel {
    Hello(u128, u128),
    LobbyCreated(u64),
    AvailableLobbies(Seq<u64>),
    LobbyJoined(u64, Seq<u128>),
    PlayerJoined(u64, u128),
    PlayerLeft(u64, u128),
    GameStarted(Seq<u8>),
}

impl View for UserServerPacket {
    type V = UserServerPacketModel;

    open spec fn view(&self) -> UserServerPacketModel {
        match self {
            UserServerPacket::Hello(id, credentials) => UserServerPacketModel::Hello(
                id.spec_bits(),
                credentials.secret,
            ),
            UserServerPacket::LobbyCreated(id) => UserServerPacketModel::LobbyCreated(*id),
            UserServerPacket::AvailableLobbies(ids) => UserServerPacketModel::AvailableLobbies(
                ids@,
            ),
            UserServerPacket::LobbyJoined(id, players) => UserServerPacketModel::LobbyJoined(
                *id,
                players@.map_values(|p: PlayerId| p.spec_bits()),
            ),
            UserServerPacket::PlayerJoined(p) => UserServerPacketModel::PlayerJoined(
                p.lobby_id,
                p.player_id.spec_bits(),
            ),
            UserServerPacket::PlayerLeft(p) => UserServerPacketModel::PlayerLeft(
                p.lobby_id,
                p.player_id.spec_bits(),
            ),
            UserServerPacket::GameStarted(address) => UserServerPacketModel::GameStarted(address@),
        }
    }
}

/// Whether the packet fits the schema's length prefixes.
pub open spec fn wf_user_server(m: UserServerPacketModel) -> bool {
    match m {
        UserServerPacketModel::AvailableLobbies(ids) => ids.len() <= u32::MAX,
        UserServerPacketModel::LobbyJoined(_, players) => players.len() <= u32::MAX,
        UserServerPacketModel::GameStarted(address) => address.len() <= u32::MAX,
        _ => true,
    }
}

/// The encoding of a lobby-to-player packet.
pub open spec fn spec_encode_user_server(m: UserServerPacketModel) -> Seq<u8> {
    match m {
        UserServerPacketModel::Hello(id, secret) => seq![0u8] + spec_u128_bytes(id)
            + spec_u128_bytes(secret),
        UserServerPacketModel::LobbyCreated(id) => seq![1u8] + spec_u64_bytes(id),
        UserServerPacketModel::AvailableLobbies(ids) => seq![2u8] + spec_u32_bytes(
            ids.len() as u32,
        ) + spec_encode_u64_list(ids),
        UserServerPacketModel::LobbyJoined(id, players) => seq![3u8] + spec_u64_bytes(id)
            + spec_u32_bytes(players.len() as u32) + spec_encode_u128_list(players),
        UserServerPacketModel::PlayerJoined(lobby, player) => seq![4u8] + spec_u64_bytes(lobby)
            + spec_u128_bytes(player),
        UserServerPacketModel::PlayerLeft(lobby, player) => seq![5u8] + spec_u64_bytes(lobby)
            + spec_u128_bytes(player),
        UserServerPacketModel::GameStarted(address) => seq![6u8] + spec_u32_bytes(
            address.len() as u32,
        ) + address,
    }
}

/// The exact decoding of a lobby-to-player packet.
pub open spec fn spec_decode_user_server(s: Seq<u8>) -> Option<UserServerPacketModel> {
    if s.len() < 1 {
        None
    } else if s[0] == 0u8 {
        if s.len() == 33 {
            Some(UserServerPacketModel::Hello(spec_u128_at(s, 1), spec_u128_at(s, 17)))
        } else {
            None
        }
    } else if s[0] == 1u8 {
        if s.len() == 9 {
            Some(UserServerPacketModel::LobbyCreated(spec_u64_at(s, 1)))
        } else {
            None
        }
    } else if s[0] == 2u8 {
        if s.len() < 5 {
            None
        } else {
            let n = spec_u32_at(s, 1) as nat;
            match spec_decode_u64_list(s, 5, n) {
                Some((ids, end)) => {
                    if end == s.len() {
                        Some(UserServerPacketModel::AvailableLobbies(ids))
                    } else {
                        None
                    }
                },
                None => None,
            }
        }
    } else if s[0] == 3u8 {
        if s.len() < 13 {
            None
        } else {
            let id = spec_u64_at(s, 1);
            let n = spec_u32_at(s, 9) as nat;
            match spec_decode_u128_list(s, 13, n) {
                Some((players, end)) => {
                    if end == s.len() {
                        Some(UserServerPacketModel::LobbyJoined(id, players))
                    } else {
                        None
                    }
                },
                None => None,
            }
        }
    } else if s[0] == 4u8 {
        if s.len() == 25 {
            Some(UserServerPacketModel::PlayerJoined(spec_u64_at(s, 1), spec_u128_at(s, 9)))
        } else {
            None
        }
    } else if s[0] == 5u8 {
        if s.len() == 25 {
            Some(UserServerPacketModel::PlayerLeft(spec_u64_at(s, 1), spec_u128_at(s, 9)))
        } else {
            None
        }
    } else if s[0] == 6u8 {
        if s.len() >= 5 && s.len() == 5 + spec_u32_at(s, 1) {
            Some(UserServerPacketModel::GameStarted(s.subrange(5, s.len() as int)))
        } else {
            None
        }
    } else {
        None
    }
}

/// Decoding an encoded lobby-to-player packet gives the packet back.
pub proof fn lemma_user_server_round_trip(m: UserServerPacketModel)
    requires
        wf_user_server(m),
    ensures
        spec_decode_user_server(spec_encode_user_server(m)) == Some(m),
{
    let s = spec_encode_user_server(m);
    match m {
        UserServerPacketModel::Hello(id, secret) => {
            assert forall|k: int| 0 <= k < 16 implies s[1 + k] == #[trigger] spec_u128_bytes(id)[
                k] by {}
            assert forall|k: int| 0 <= k < 16 implies s[17 + k] == #[trigger] spec_u128_bytes(
                secret,
            )[k] by {
                assert(s[1 + (16 + k)] == spec_u128_bytes(secret)[k]);
            }
            lemma_u128_round(s, 1, id);
            lemma_u128_round(s, 17, secret);
        },
        UserServerPacketModel::LobbyCreated(id) => {
            assert forall|k: int| 0 <= k < 8 implies s[1 + k] == #[trigger] spec_u64_bytes(id)[
                k] by {}
            lemma_u64_round(s, 1, id);
        },
        UserServerPacketModel::AvailableLobbies(ids) => {
            lemma_encode_u64_list_len(ids);
            assert forall|k: int| 0 <= k < 4 implies s[1 + k] == #[trigger] spec_u32_bytes(
                ids.len() as u32,
            )[k] by {}
            lemma_u32_round(s, 1, ids.len() as u32);
            assert forall|k: int|
                0 <= k < 8 * ids.len() implies s[5 + k] == #[trigger] spec_encode_u64_list(ids)[
                k] by {}
            lemma_u64_list_round(s, 5, ids);
        },
        UserServerPacketModel::LobbyJoined(id, players) => {
            lemma_encode_u128_list_len(players);
            assert forall|k: int| 0 <= k < 8 implies s[1 + k] == #[trigger] spec_u64_bytes(id)[
                k] by {}
            lemma_u64_round(s, 1, id);
            assert forall|k: int| 0 <= k < 4 implies s[9 + k] == #[trigger] spec_u32_bytes(
                players.len() as u32,
            )[k] by {
                assert(s[1 + (8 + k)] == spec_u32_bytes(players.len() as u32)[k]);
            }
            lemma_u32_round(s, 9, players.len() as u32);
            assert forall|k: int|
                0 <= k < 16 * players.len() implies s[13 + k] == #[trigger] spec_encode_u128_list(
                players,
            )[k] by {
                assert(s[1 + (12 + k)] == spec_encode_u128_list(players)[k]);
            }
            lemma_u128_list_round(s, 13, players);
        },
        UserServerPacketModel::PlayerJoined(lobby, player) => {
            assert forall|k: int| 0 <= k < 8 implies s[1 + k] == #[trigger] spec_u64_bytes(lobby)[
                k] by {}
            assert forall|k: int| 0 <= k < 16 implies s[9 + k] == #[trigger] spec_u128_bytes(
                player,
            )[k] by {
                assert(s[1 + (8 + k)] == spec_u128_bytes(player)[k]);
            }
            lemma_u64_round(s, 1, lobby);
            lemma_u128_round(s, 9, player);
        },
        UserServerPacketModel::PlayerLeft(lobby, player) => {
            assert forall|k: int| 0 <= k < 8 implies s[1 + k] == #[trigger] spec_u64_bytes(lobby)[
                k] by {}
            assert forall|k: int| 0 <= k < 16 implies s[9 + k] == #[trigger] spec_u128_bytes(
                player,
            )[k] by {
                assert(s[1 + (8 + k)] == spec_u128_bytes(player)[k]);
            }
            lemma_u64_round(s, 1, lobby);
            lemma_u128_round(s, 9, player);
        },
        UserServerPacketModel::GameStarted(address) => {
            let n = address.len() as u32;
            assert forall|k: int| 0 <= k < 4 implies s[1 + k] == #[trigger] spec_u32_bytes(n)[
                k] by {}
            lemma_u32_round(s, 1, n);
            assert(s.subrange(5, s.len() as int) =~= address);
        },
    }
}

} // verus!

verus! {

/// Encodes a player-to-lobby packet.
pub fn encode_user_client(p: &UserClientPacket) -> (r: Vec<u8>)
    ensures
        r@ == spec_encode_user_client(*p),
        spec_decode_user_client(r@) == Some(*p),
{
    let mut out: Vec<u8> = Vec::new();
    match p {
        UserClientPacket::Hello => {
            out.push(0);
        },
        UserClientPacket::CreateLobby => {
            out.push(1);
        },
        UserClientPacket::ListLobbies => {
            out.push(2);
        },
        UserClientPacket::JoinLobby(id) => {
            out.push(3);
            push_u64(&mut out, *id);
        },
        UserClientPacket::LeaveLobby => {
            out.push(4);
        },
        UserClientPacket::StartGame => {
            out.push(5);
        },
    }
    proof {
        assert(out@ =~= spec_encode_user_client(*p));
        lemma_user_client_round_trip(*p);
    }
    out
}

/// Decodes a player-to-lobby packet; `None` for anything but a whole,
/// well-formed encoding.
pub fn decode_user_client(bytes: &[u8]) -> (r: Option<UserClientPacket>)
    ensures
        r == spec_decode_user_client(bytes@),
{
    if bytes.len() < 1 {
        return None;
    }
    let tag = bytes[0];
    if tag == 0 && bytes.len() == 1 {
        Some(UserClientPacket::Hello)
    } else if tag == 1 && bytes.len() == 1 {
        Some(UserClientPacket::CreateLobby)
    } else if tag == 2 && bytes.len() == 1 {
        Some(UserClientPacket::ListLobbies)
    } else if tag == 3 && bytes.len() == 9 {
        Some(UserClientPacket::JoinLobby(read_u64(bytes, 1)))
    } else if tag == 4 && bytes.len() == 1 {
        Some(UserClientPacket::LeaveLobby)
    } else if tag == 5 && bytes.len() == 1 {
        Some(UserClientPacket::StartGame)
    } else {
        None
    }
}

/// Encodes a lobby-to-player packet.
pub fn encode_user_server(p: &UserServerPacket) -> (r: Vec<u8>)
    requires
        wf_user_server(p@),
    ensures
        r@ == spec_encode_user_server(p@),
        spec_decode_user_server(r@) == Some(p@),
{
    let mut out: Vec<u8> = Vec::new();
    match p {
        UserServerPacket::Hello(id, credentials) => {
            out.push(0);
            push_u128(&mut out, id.bits());
            push_u128(&mut out, credentials.secret);
        },
        UserServerPacket::LobbyCreated(id) => {
            out.push(1);
            push_u64(&mut out, *id);
        },
        UserServerPacket::AvailableLobbies(ids) => {
            out.push(2);
            push_u32(&mut out, ids.len() as u32);
            let mut k: usize = 0;
            while k < ids.len()
                invariant
                    k <= ids@.len(),
                    out@ == seq![2u8] + spec_u32_bytes(ids@.len() as u32) + spec_encode_u64_list(
                        ids@.subrange(0, k as int),
                    ),
                decreases ids@.len() - k,
            {
                push_u64(&mut out, ids[k]);
                proof {
                    lemma_encode_u64_list_push(ids@.subrange(0, k as int), ids@[k as int]);
                    assert(ids@.subrange(0, k + 1) =~= ids@.subrange(0, k as int).push(
                        ids@[k as int],
                    ));
                    assert(out@ =~= seq![2u8] + spec_u32_bytes(ids@.len() as u32)
                        + spec_encode_u64_list(ids@.subrange(0, k + 1)));
                }
                k = k + 1;
            }
            proof {
                assert(ids@.subrange(0, ids@.len() as int) =~= ids@);
            }
        },
        UserServerPacket::LobbyJoined(id, players) => {
            out.push(3);
            push_u64(&mut out, *id);
            push_u32(&mut out, players.len() as u32);
            let ghost model = players@.map_values(|p: PlayerId| p.spec_bits());
            let mut k: usize = 0;
            while k < players.len()
                invariant
                    k <= players@.len(),
                    model == players@.map_values(|p: PlayerId| p.spec_bits()),
                    model.len() == players@.len(),
                    forall|j: int|
                        0 <= j < players@.len() ==> #[trigger] model[j]
                            == players@[j].spec_bits(),
                    out@ == seq![3u8] + spec_u64_bytes(*id) + spec_u32_bytes(
                        players@.len() as u32,
                    ) + spec_encode_u128_list(model.subrange(0, k as int)),
                decreases players@.len() - k,
            {
                push_u128(&mut out, players[k].bits());
                proof {
                    lemma_encode_u128_list_push(model.subrange(0, k as int), model[k as int]);
                    assert(model.subrange(0, k + 1) =~= model.subrange(0, k as int).push(
                        model[k as int],
                    ));
                    assert(out@ =~= seq![3u8] + spec_u64_bytes(*id) + spec_u32_bytes(
                        players@.len() as u32,
                    ) + spec_encode_u128_list(model.subrange(0, k + 1)));
                }
                k = k + 1;
            }
            proof {
                assert(model.subrange(0, model.len() as int) =~= model);
            }
        },
        UserServerPacket::PlayerJoined(p) => {
            out.push(4);
            push_u64(&mut out, p.lobby_id);
            push_u128(&mut out, p.player_id.bits());
        },
        UserServerPacket::PlayerLeft(p) => {
            out.push(5);
            push_u64(&mut out, p.lobby_id);
            push_u128(&mut out, p.player_id.bits());
        },
        UserServerPacket::GameStarted(address) => {
            out.push(6);
            push_u32(&mut out, address.len() as u32);
            let mut k: usize = 0;
            while k < address.len()
                invariant
                    k <= address@.len(),
                    out@ == seq![6u8] + spec_u32_bytes(address@.len() as u32) + address@.subrange(
                        0,
                        k as int,
                    ),
                decreases address@.len() - k,
            {
                out.push(address[k]);
                proof {
                    assert(out@ =~= seq![6u8] + spec_u32_bytes(address@.len() as u32)
                        + address@.subrange(0, k + 1));
                }
                k = k + 1;
            }
            proof {
                assert(address@.subrange(0, address@.len() as int) =~= address@);
            }
        },
    }
    proof {
        assert(out@ =~= spec_encode_user_server(p@));
        lemma_user_server_round_trip(p@);
    }
    out
}

/// Decodes a lobby-to-player packet; `None` for anything but a whole,
/// well-formed encoding.
pub fn decode_user_server(bytes: &[u8]) -> (r: Option<UserServerPacket>)
    ensures
        match spec_decode_user_server(bytes@) {
            Option::Some(m) => r matches Some(p) && p@ == m,
            Option::None => r is None,
        },
{
    if bytes.len() < 1 {
        return None;
    }
    let tag = bytes[0];
    if tag == 0 {
        if bytes.len() == 33 {
            let id = PlayerId::from_bits(read_u128(bytes, 1));
            let secret = read_u128(bytes, 17);
            Some(UserServerPacket::Hello(id, PlayerCredentials { secret }))
        } else {
            None
        }
    } else if tag == 1 {
        if bytes.len() == 9 {
            Some(UserServerPacket::LobbyCreated(read_u64(bytes, 1)))
        } else {
            None
        }
    } else if tag == 2 {
        if bytes.len() < 5 {
            return None;
        }
        let n_ids = read_u32(bytes, 1);
        let ghost n = spec_u32_at(bytes@, 1) as nat;
        let mut ids: Vec<u64> = Vec::new();
        let mut cur: usize = 5;
        let mut i: u32 = 0;
        proof {
            assert(ids@ =~= Seq::<u64>::empty());
        }
        while i < n_ids
            invariant
                i <= n_ids,
                5 <= cur <= bytes@.len(),
                bytes@.len() <= usize::MAX,
                bytes@[0] == 2u8,
                bytes@.len() >= 5,
                n == n_ids,
                n == spec_u32_at(bytes@, 1) as nat,
                match spec_decode_u64_list(bytes@, cur as int, (n - i) as nat) {
                    Some((rest, end)) => spec_decode_u64_list(bytes@, 5, n) == Some(
                        (ids@ + rest, end),
                    ),
                    None => spec_decode_u64_list(bytes@, 5, n) is None,
                },
            decreases n_ids - i,
        {
            if bytes.len() - cur < 8 {
                proof {
                    assert(spec_decode_u64_list(bytes@, cur as int, (n - i) as nat) is None);
                }
                return None;
            }
            let v = read_u64(bytes, cur);
            let ghost ids_before = ids@;
            ids.push(v);
            proof {
                match spec_decode_u64_list(bytes@, cur as int + 8, (n - i - 1) as nat) {
                    Some((rest2, end2)) => {
                        assert(ids_before + (seq![v] + rest2) =~= ids@ + rest2);
                    },
                    None => {},
                }
            }
            cur = cur + 8;
            i = i + 1;
        }
        proof {
            assert(spec_decode_u64_list(bytes@, cur as int, 0) == Some(
                (Seq::<u64>::empty(), cur as int),
            ));
            assert(ids@ + Seq::<u64>::empty() =~= ids@);
        }
        if cur != bytes.len() {
            return None;
        }
        Some(UserServerPacket::AvailableLobbies(ids))
    } else if tag == 3 {
        if bytes.len() < 13 {
            return None;
        }
        let id = read_u64(bytes, 1);
        let n_players = read_u32(bytes, 9);
        let ghost n = spec_u32_at(bytes@, 9) as nat;
        let mut players: Vec<PlayerId> = Vec::new();
        let mut cur: usize = 13;
        let mut i: u32 = 0;
        proof {
            assert(players@.map_values(|p: PlayerId| p.spec_bits()) =~= Seq::<u128>::empty());
        }
        while i < n_players
            invariant
                i <= n_players,
                13 <= cur <= bytes@.len(),
                bytes@.len() <= usize::MAX,
                bytes@[0] == 3u8,
                bytes@.len() >= 13,
                n == n_players,
                n == spec_u32_at(bytes@, 9) as nat,
                id == spec_u64_at(bytes@, 1),
                ({
                    let acc = players@.map_values(|p: PlayerId| p.spec_bits());
                    match spec_decode_u128_list(bytes@, cur as int, (n - i) as nat) {
                        Some((rest, end)) => spec_decode_u128_list(bytes@, 13, n) == Some(
                            (acc + rest, end),
                        ),
                        None => spec_decode_u128_list(bytes@, 13, n) is None,
                    }
                }),
            decreases n_players - i,
        {
            if bytes.len() - cur < 16 {
                proof {
                    assert(spec_decode_u128_list(bytes@, cur as int, (n - i) as nat) is None);
                }
                return None;
            }
            let v = read_u128(bytes, cur);
            let ghost acc_before = players@.map_values(|p: PlayerId| p.spec_bits());
            players.push(PlayerId::from_bits(v));
            proof {
                let acc_after = players@.map_values(|p: PlayerId| p.spec_bits());
                assert(acc_after =~= acc_before.push(v));
                match spec_decode_u128_list(bytes@, cur as int + 16, (n - i - 1) as nat) {
                    Some((rest2, end2)) => {
                        assert(acc_before + (seq![v] + rest2) =~= acc_after + rest2);
                    },
                    None => {},
                }
            }
            cur = cur + 16;
            i = i + 1;
        }
        proof {
            let acc = players@.map_values(|p: PlayerId| p.spec_bits());
            assert(spec_decode_u128_list(bytes@, cur as int, 0) == Some(
                (Seq::<u128>::empty(), cur as int),
            ));
            assert(acc + Seq::<u128>::empty() =~= acc);
        }
        if cur != bytes.len() {
            return None;
        }
        Some(UserServerPacket::LobbyJoined(id, players))
    } else if tag == 4 {
        if bytes.len() == 25 {
            let lobby_id = read_u64(bytes, 1);
            let player_id = PlayerId::from_bits(read_u128(bytes, 9));
            Some(UserServerPacket::PlayerJoined(PlayerInLobby { lobby_id, player_id }))
        } else {
            None
        }
    } else if tag == 5 {
        if bytes.len() == 25 {
            let lobby_id = read_u64(bytes, 1);
            let player_id = PlayerId::from_bits(read_u128(bytes, 9));
            Some(UserServerPacket::PlayerLeft(PlayerInLobby { lobby_id, player_id }))
        } else {
            None
        }
    } else if tag == 6 {
        if bytes.len() < 5 {
            return None;
        }
        let n = read_u32(bytes, 1);
        if n as u64 != (bytes.len() as u64) - 5 {
            return None;
        }
        let mut address: Vec<u8> = Vec::new();
        let mut k: usize = 5;
        while k < bytes.len()
            invariant
                5 <= k <= bytes@.len(),
                address@ == bytes@.subrange(5, k as int),
            decreases bytes@.len() - k,
        {
            address.push(bytes[k]);
            proof {
                assert(address@ =~= bytes@.subrange(5, k + 1));
            }
            k = k + 1;
        }
        Some(UserServerPacket::GameStarted(address))
    } else {
        None
    }
}

} // verus!
