//! The input validation engine: the authoritative gate between
//! client-issued commands and simulation mutation.

use vstd::prelude::*;

use crate::geom::{isqrt, Vec2i, Vec3i};
use crate::lobby::PlayerId;
use crate::player::Player;
use crate::power_ups::{PlayerPowerUps, PowerUpType};
use vstd::arithmetic::div_mod::{
    lemma_div_pos_is_pos, lemma_fundamental_div_mod, lemma_mod_division_less_than_divisor,
};

verus! {

/// A command a client sends to control its ball.
#[derive(Debug, Clone, Copy, PartialEq, Eq, Structural)]
pub enum PlayerInput {
    /// Move in the given direction with the given force.
    Move(Vec2i),
    /// Teleport to the given position, after it is forced into the course
    /// bounds.
    Teleport(Vec3i),
    /// Attract the ball towards the active hole.
    HoleMagnet,
    /// Give the next hit an upward component equal to its horizontal
    /// magnitude.
    ChipShot,
    /// Steal a power-up from the given player.
    StealPowerUp(PlayerId),
    StickyBall,
    TinyBall,
    HugeBall,
    ZanyBall,
    ReversiBall,
    Bumper(Vec3i),
    BlackHoleBumper(Vec3i),
    Tornado(Vec3i),
    Wind(Vec2i),
    StickyWalls,
    /// Make the floor of the current hole slippery.
    IceRink,
}

impl PlayerInput {
    /// Whether the input is valid only while the player may move.
    pub open spec fn spec_is_movement(self) -> bool {
        self is Move
    }

    /// Whether the input is valid only while the player may move.
    pub fn is_movement(&self) -> (r: bool)
        ensures
            r == self.spec_is_movement(),
    {
        match self {
            PlayerInput::Move(_) => true,
            _ => false,
        }
    }

    /// The power-up kind the input spends, if any.
    pub open spec fn spec_power_up_type(self) -> Option<PowerUpType> {
        match self {
            PlayerInput::Move(_) => None,
            PlayerInput::Teleport(_) => Some(PowerUpType::Teleport),
            PlayerInput::HoleMagnet => Some(PowerUpType::HoleMagnet),
            PlayerInput::ChipShot => Some(PowerUpType::ChipShot),
            PlayerInput::StealPowerUp(_) => Some(PowerUpType::StealPowerUp),
            PlayerInput::StickyBall => Some(PowerUpType::StickyBall),
            PlayerInput::TinyBall => Some(PowerUpType::TinyBall),
            PlayerInput::HugeBall => Some(PowerUpType::HugeBall),
            PlayerInput::ZanyBall => Some(PowerUpType::ZanyBall),
            PlayerInput::ReversiBall => Some(PowerUpType::ReversiBall),
            PlayerInput::Bumper(_) => Some(PowerUpType::Bumper),
            PlayerInput::BlackHoleBumper(_) => Some(PowerUpType::BlackHoleBumper),
            PlayerInput::Tornado(_) => Some(PowerUpType::Tornado),
            PlayerInput::Wind(_) => Some(PowerUpType::Wind),
            PlayerInput::StickyWalls => Some(PowerUpType::StickyWalls),
            PlayerInput::IceRink => Some(PowerUpType::IceRink),
        }
    }

    /// The power-up kind the input spends, if any.
    pub fn get_power_up_type(&self) -> (r: Option<PowerUpType>)
        ensures
            r == self.spec_power_up_type(),
    {
        match self {
            PlayerInput::Move(_) => None,
            PlayerInput::Teleport(_) => Some(PowerUpType::Teleport),
            PlayerInput::HoleMagnet => Some(PowerUpType::HoleMagnet),
            PlayerInput::ChipShot => Some(PowerUpType::ChipShot),
            PlayerInput::StealPowerUp(_) => Some(PowerUpType::StealPowerUp),
            PlayerInput::StickyBall => Some(PowerUpType::StickyBall),
            PlayerInput::TinyBall => Some(PowerUpType::TinyBall),
            PlayerInput::HugeBall => Some(PowerUpType::HugeBall),
            PlayerInput::ZanyBall => Some(PowerUpType::ZanyBall),
            PlayerInput::ReversiBall => Some(PowerUpType::ReversiBall),
            PlayerInput::Bumper(_) => Some(PowerUpType::Bumper),
            PlayerInput::BlackHoleBumper(_) => Some(PowerUpType::BlackHoleBumper),
            PlayerInput::Tornado(_) => Some(PowerUpType::Tornado),
            PlayerInput::Wind(_) => Some(PowerUpType::Wind),
            PlayerInput::StickyWalls => Some(PowerUpType::StickyWalls),
            PlayerInput::IceRink => Some(PowerUpType::IceRink),
        }
    }
}

/// An input that has passed the validation engine; simulation-mutating
/// systems may apply it without re-checking permission.
#[derive(Debug, Clone, Copy, PartialEq, Eq, Structural)]
pub struct ValidPlayerInput {
    pub player: PlayerId,
    pub input: PlayerInput,
}

/// Why a command was dropped. Both cases are soft failures: the command is
/// ignored and the connection stays up.
#[derive(Debug, Clone, Copy, PartialEq, Eq, Structural)]
pub enum InputRejection {
    /// A movement command arrived while the player may not move.
    CannotMove,
    /// The input spends a power-up kind the player does not hold.
    NotHeld,
}

/// Validates one client command against the issuing player's state.
///
/// A movement command from a player whose `can_move` flag is off is
/// dropped, and so is a command spending a power-up the player does not
/// hold; neither changes any state. A command that spends a held power-up
/// consumes exactly one matching entry. Everything else passes through
/// untouched.
pub fn validate_input(player: &Player, power_ups: &mut PlayerPowerUps, input: PlayerInput) -> (r:
    Result<ValidPlayerInput, InputRejection>)
    ensures
        input.spec_is_movement() && !player.can_move ==> r == Err::<
            ValidPlayerInput,
            InputRejection,
        >(InputRejection::CannotMove) && final(power_ups)@ == old(power_ups)@,
        !(input.spec_is_movement() && !player.can_move) ==> match input.spec_power_up_type() {
            Option::Some(kind) => {
                &&& old(power_ups)@.contains(kind) ==> r == Ok::<ValidPlayerInput, InputRejection>(
                    ValidPlayerInput { player: player.id, input },
                ) && final(power_ups)@ == old(power_ups)@.remove_value(kind)
                &&& !old(power_ups)@.contains(kind) ==> r == Err::<
                    ValidPlayerInput,
                    InputRejection,
                >(InputRejection::NotHeld) && final(power_ups)@ == old(power_ups)@
            },
            Option::None => r == Ok::<ValidPlayerInput, InputRejection>(
                ValidPlayerInput { player: player.id, input },
            ) && final(power_ups)@ == old(power_ups)@,
        },
{
    if input.is_movement() && !player.can_move {
        return Err(InputRejection::CannotMove);
    }

    if let Some(kind) = input.get_power_up_type() {
        if power_ups.use_power_up(kind).is_none() {
            return Err(InputRejection::NotHeld);
        }
    }

    Ok(ValidPlayerInput { player: player.id, input })
}

/// The largest force a movement command may carry, in fixed-point units.
pub const MAX_MOVE_IMPULSE: i32 = 10_000;

/// For nonnegative `a`, `m` and positive `l`, scaling `a` by `m / l`
/// and squaring stays under `a * a * m * m / (l * l)`.
proof fn lemma_scaled_sq_le(a: int, m: int, l: int)
    requires
        0 <= a,
        0 <= m,
        1 <= l,
    ensures
        0 <= (a * m) / l,
        ((a * m) / l) * ((a * m) / l) * (l * l) <= (a * a) * (m * m),
{
    let p = a * m;
    assert(0 <= p) by (nonlinear_arith)
        requires
            0 <= a,
            0 <= m,
            p == a * m,
    ;
    let q = p / l;
    lemma_fundamental_div_mod(p, l);
    lemma_mod_division_less_than_divisor(p, l);
    lemma_div_pos_is_pos(p, l);
    assert(l * q <= p);
    assert((l * q) * (l * q) <= p * p) by (nonlinear_arith)
        requires
            0 <= q,
            0 <= l,
            l * q <= p,
    ;
    assert((l * q) * (l * q) == q * q * (l * l)) by (nonlinear_arith);
    assert(p * p == (a * a) * (m * m)) by (nonlinear_arith)
        requires
            p == a * m,
    ;
}

/// Scaling both coordinates by `m / l` brings the squared length under
/// `m * m`, provided `l` exceeds the vector's own length.
proof fn lemma_clamp_scale(ax: int, ay: int, m: int, l: int)
    requires
        0 <= ax,
        0 <= ay,
        0 <= m,
        1 <= l,
        ax * ax + ay * ay < l * l,
    ensures
        0 <= (ax * m) / l <= m,
        0 <= (ay * m) / l <= m,
        ((ax * m) / l) * ((ax * m) / l) + ((ay * m) / l) * ((ay * m) / l) <= m * m,
{
    lemma_scaled_sq_le(ax, m, l);
    lemma_scaled_sq_le(ay, m, l);
    let qx = (ax * m) / l;
    let qy = (ay * m) / l;
    assert((qx * qx + qy * qy) * (l * l) <= (ax * ax + ay * ay) * (m * m)) by (nonlinear_arith)
        requires
            qx * qx * (l * l) <= (ax * ax) * (m * m),
            qy * qy * (l * l) <= (ay * ay) * (m * m),
    ;
    assert(qx * qx + qy * qy <= m * m) by (nonlinear_arith)
        requires
            (qx * qx + qy * qy) * (l * l) <= (ax * ax + ay * ay) * (m * m),
            ax * ax + ay * ay < l * l,
            0 <= m,
            1 <= l,
            0 <= qx,
            0 <= qy,
    ;
    assert(qx <= m) by (nonlinear_arith)
        requires
            qx * qx + qy * qy <= m * m,
            0 <= m,
            0 <= qx,
            0 <= qy,
    ;
    assert(qy <= m) by (nonlinear_arith)
        requires
            qx * qx + qy * qy <= m * m,
            0 <= m,
            0 <= qx,
            0 <= qy,
    ;
}

/// The magnitude of one coordinate, as an unsigned value.
fn abs_i32(v: i32) -> (r: u64)
    ensures
        v >= 0 ==> r == v,
        v < 0 ==> r == -(v as int),
        r <= 0x8000_0000,
{
    if v < 0 {
        (-(v as i64)) as u64
    } else {
        v as u64
    }
}

/// Shortens a direction vector to at most the given length, keeping it
/// unchanged when it is already short enough.
pub fn clamp_length_max(v: Vec2i, max: i32) -> (r: Vec2i)
    requires
        0 <= max,
    ensures
        v.spec_len_sq() <= max * max ==> r == v,
        r.spec_len_sq() <= max * max,
{
    let ax: u64 = abs_i32(v.x);
    let ay: u64 = abs_i32(v.y);
    proof {
        assert(ax * ax + ay * ay == v.spec_len_sq()) by (nonlinear_arith)
            requires
                ax == (if v.x >= 0 { v.x as int } else { -(v.x as int) }),
                ay == (if v.y >= 0 { v.y as int } else { -(v.y as int) }),
        ;
        assert(ax * ax <= 0x4000_0000_0000_0000int) by (nonlinear_arith)
            requires
                0 <= ax <= 0x8000_0000,
        ;
        assert(ay * ay <= 0x4000_0000_0000_0000int) by (nonlinear_arith)
            requires
                0 <= ay <= 0x8000_0000,
        ;
    }
    let len_sq: u64 = ax * ax + ay * ay;
    let max_u: u64 = max as u64;
    proof {
        assert(max_u * max_u < 0x8000_0000_0000_0000int) by (nonlinear_arith)
            requires
                0 <= max_u <= 0x7FFF_FFFF,
        ;
    }
    if len_sq <= max_u * max_u {
        v
    } else {
        let l: u64 = isqrt(len_sq) + 1;
        proof {
            assert(len_sq < l * l);
            assert(1 <= l);
            assert(ax * max_u <= 0x4000_0000_0000_0000int) by (nonlinear_arith)
                requires
                    0 <= ax <= 0x8000_0000,
                    0 <= max_u <= 0x7FFF_FFFF,
            ;
            assert(ay * max_u <= 0x4000_0000_0000_0000int) by (nonlinear_arith)
                requires
                    0 <= ay <= 0x8000_0000,
                    0 <= max_u <= 0x7FFF_FFFF,
            ;
            lemma_clamp_scale(ax as int, ay as int, max_u as int, l as int);
        }
        let qx: u64 = (ax * max_u) / l;
        let qy: u64 = (ay * max_u) / l;
        let rx: i32 = if v.x < 0 {
            -(qx as i32)
        } else {
            qx as i32
        };
        let ry: i32 = if v.y < 0 {
            -(qy as i32)
        } else {
            qy as i32
        };
        let r = Vec2i { x: rx, y: ry };
        proof {
            assert(r.spec_len_sq() == qx * qx + qy * qy) by (nonlinear_arith)
                requires
                    r.x == rx,
                    r.y == ry,
                    rx == (if v.x < 0 { -(qx as int) } else { qx as int }),
                    ry == (if v.y < 0 { -(qy as int) } else { qy as int }),
            ;
        }
        r
    }
}

/// The impulse a validated movement command applies to the player's ball.
///
/// The horizontal direction is the client's, shortened to at most
/// [`MAX_MOVE_IMPULSE`]. With a chip-shot marker pending the impulse gains
/// an upward component equal to its horizontal magnitude (rounded down);
/// otherwise it stays in the plane.
pub fn impulse_of_move(direction: Vec2i, chip_shot: bool) -> (r: Vec3i)
    ensures
        ({
            let h = Vec2i { x: r.x, y: r.z };
            &&& h.spec_len_sq() <= MAX_MOVE_IMPULSE * MAX_MOVE_IMPULSE
            &&& direction.spec_len_sq() <= MAX_MOVE_IMPULSE * MAX_MOVE_IMPULSE ==> h == direction
            &&& !chip_shot ==> r.y == 0
            &&& chip_shot ==> 0 <= r.y && r.y * r.y <= h.spec_len_sq() < (r.y + 1) * (r.y + 1)
        }),
{
    let clamped = clamp_length_max(direction, MAX_MOVE_IMPULSE);
    let vertical: i32 = if chip_shot {
        let ax: u64 = abs_i32(clamped.x);
        let ay: u64 = abs_i32(clamped.y);
        proof {
            assert(ax * ax + ay * ay == clamped.spec_len_sq()) by (nonlinear_arith)
                requires
                    ax == (if clamped.x >= 0 { clamped.x as int } else { -(clamped.x as int) }),
                    ay == (if clamped.y >= 0 { clamped.y as int } else { -(clamped.y as int) }),
            ;
            assert(ax * ax <= 0x4000_0000_0000_0000int) by (nonlinear_arith)
                requires
                    0 <= ax <= 0x8000_0000,
            ;
            assert(ay * ay <= 0x4000_0000_0000_0000int) by (nonlinear_arith)
                requires
                    0 <= ay <= 0x8000_0000,
            ;
        }
        let h_sq: u64 = ax * ax + ay * ay;
        let root = isqrt(h_sq);
        proof {
            assert(root * root <= h_sq);
            assert(h_sq <= MAX_MOVE_IMPULSE * MAX_MOVE_IMPULSE);
            assert(root <= 10_000) by (nonlinear_arith)
                requires
                    root * root <= 10_000 * 10_000int,
                    0 <= root,
            ;
        }
        root as i32
    } else {
        0
    };
    Vec3i { x: clamped.x, y: vertical, z: clamped.y }
}

} // verus!
