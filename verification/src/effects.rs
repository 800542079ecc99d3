//! The effect engine: maps each validated input to the one deterministic
//! effect it has, as a command for the physics collaborator. Client-given
//! points are forced into the course bounds before they are used.

use vstd::prelude::*;

use crate::geom::{spec_clamp, PlayableArea, Vec2i, Vec3i};
use crate::input::{PlayerInput, ValidPlayerInput};
use crate::lobby::PlayerId;

verus! {

/// How many hits a player-spawned bumper takes before it despawns.
pub const BUMPER_HITS: u32 = 3;

/// A transient obstacle that imparts a radial impulse to players touching
/// it, with an optional hit budget.
#[derive(Debug, Clone, Copy, PartialEq, Eq, Structural)]
pub struct Bumper {
    /// How many hits are left, or `None` for a permanent bumper.
    pub hits: Option<u32>,
}

impl Bumper {
    /// A bumper that never despawns: part of the course itself.
    pub fn permanent() -> (r: Self)
        ensures
            r.hits is None,
    {
        Bumper { hits: None }
    }

    /// A bumper that despawns after the given number of hits.
    pub fn with_hits(hits: u32) -> (r: Self)
        ensures
            r.hits == Some(hits),
    {
        Bumper { hits: Some(hits) }
    }

    /// Spends one hit of the budget, if there is a budget and it is not
    /// yet spent.
    pub fn register_hit(&mut self)
        ensures
            old(self).hits is None ==> final(self).hits is None,
            old(self).hits matches Some(h) ==> final(self).hits == Some(
                if h > 0 {
                    (h - 1) as u32
                } else {
                    0u32
                },
            ),
    {
        match self.hits {
            Some(h) => {
                if h > 0 {
                    self.hits = Some(h - 1);
                }
            },
            None => {},
        }
    }

    /// Whether the hit budget is spent and the bumper is to be removed.
    pub fn should_despawn(&self) -> (r: bool)
        ensures
            r == (self.hits == Some(0u32)),
    {
        match self.hits {
            Some(h) => h == 0,
            None => false,
        }
    }
}

/// One deterministic effect, ready for the physics collaborator. Every
/// power-up maps to exactly one of these.
#[derive(Debug, Clone, PartialEq, Eq)]
pub enum EffectCommand {
    /// Reposition the player to the given point, already forced into the
    /// course bounds.
    Teleport { player: PlayerId, position: Vec3i },
    /// Pull the player's ball towards the active hole while it stays in
    /// the configured distance band, until its position settles.
    AttachHoleMagnet { player: PlayerId },
    /// The player's next movement impulse gains an upward component equal
    /// to its horizontal magnitude, then the marker is consumed.
    MarkChipShot { player: PlayerId },
    /// Mark every other player so that its next wall contact while unable
    /// to move sticks it in place.
    ApplyStickyBall { targets: Vec<PlayerId> },
    /// Spawn a transient obstacle at the given point, already forced into
    /// the course bounds, despawning after its hit budget; the black-hole
    /// variant additionally attracts players within a short radius.
    SpawnBumper { position: Vec3i, hits: u32, black_hole: bool },
    /// Apply a continuous directional force to every active player until
    /// the hole is completed.
    SpawnWind { direction: Vec2i },
    /// Mark the current hole's walls so any stationary player contact
    /// sticks the player.
    MarkStickyWalls,
    /// Override the current hole's floor friction to near zero for the
    /// remainder of the hole.
    SetIceRink,
}

/// Pushing onto a list that already holds `v` commutes with removing the
/// first `v`: the first occurrence sits in the old part.
proof fn lemma_remove_value_push(s: Seq<PlayerId>, v: PlayerId, x: PlayerId)
    requires
        s.contains(v),
    ensures
        s.push(x).remove_value(v) == s.remove_value(v).push(x),
{
    s.index_of_first_ensures(v);
    s.push(x).index_of_first_ensures(v);
    let i = s.index_of_first(v).unwrap();
    let j = s.push(x).index_of_first(v).unwrap();
    assert(s.push(x)[i] == v);
    assert(j <= i);
    assert(s.push(x)[j] == v);
    if j < i {
        assert(s[j] == v);
        assert(false);
    }
    assert(s.push(x).remove(i) =~= s.remove(i).push(x));
}

/// The targets of a sticky ball: every listed player but the issuer.
fn other_players(players: &Vec<PlayerId>, issuer: PlayerId) -> (r: Vec<PlayerId>)
    requires
        players@.no_duplicates(),
    ensures
        r@ == players@.remove_value(issuer),
{
    let mut targets: Vec<PlayerId> = Vec::new();
    proof {
        let empty = players@.subrange(0, 0);
        assert(empty =~= Seq::<PlayerId>::empty());
        empty.index_of_first_ensures(issuer);
        assert(targets@ =~= empty.remove_value(issuer));
    }
    let mut i: usize = 0;
    while i < players.len()
        invariant
            players@.no_duplicates(),
            i <= players@.len(),
            targets@ == players@.subrange(0, i as int).remove_value(issuer),
        decreases players@.len() - i,
    {
        let ghost prefix = players@.subrange(0, i as int);
        let ghost longer = players@.subrange(0, i + 1 as int);
        proof {
            assert(longer =~= prefix.push(players@[i as int]));
            prefix.index_of_first_ensures(issuer);
        }
        if players[i] != issuer {
            targets.push(players[i]);
            proof {
                if prefix.contains(issuer) {
                    lemma_remove_value_push(prefix, issuer, players@[i as int]);
                } else {
                    assert(prefix.remove_value(issuer) == prefix);
                    longer.index_of_first_ensures(issuer);
                    if longer.contains(issuer) {
                        let k = longer.index_of_first(issuer).unwrap();
                        assert(longer[k] == issuer);
                        if k < i {
                            assert(prefix[k] == issuer);
                        }
                        assert(false);
                    }
                    assert(longer.remove_value(issuer) == longer);
                    assert(targets@ =~= longer);
                }
            }
        } else {
            proof {
                if prefix.contains(issuer) {
                    let k = choose|k: int| 0 <= k < prefix.len() && prefix[k] == issuer;
                    assert(players@[k] == issuer);
                    assert(players@[i as int] == issuer);
                    assert(false);
                }
                assert(prefix.remove_value(issuer) == prefix);
                longer.index_of_first_ensures(issuer);
                assert(longer[i as int] == issuer);
                assert(longer.contains(issuer));
                let k = longer.index_of_first(issuer).unwrap();
                assert(forall|m: int| 0 <= m < k ==> longer[m] != issuer);
                if k < i {
                    assert(prefix[k] == issuer);
                    assert(false);
                }
                assert(k == i);
                assert(longer.remove(i as int) =~= prefix);
            }
        }
        i = i + 1;
    }
    proof {
        assert(players@.subrange(0, players@.len() as int) =~= players@);
    }
    targets
}

/// Whether the hole magnet pulls at the given squared distance from the
/// active hole: only strictly inside the configured band. The pull itself —
/// a force proportional to the remaining distance, each tick until the
/// ball settles — is the physics collaborator's.
pub fn hole_magnet_in_band(distance_sq: u64, min_distance: u32, max_distance: u32) -> (r: bool)
    ensures
        r == (min_distance * min_distance < distance_sq < max_distance * max_distance),
{
    proof {
        assert((min_distance as int) * (min_distance as int) < 0x1_0000_0000_0000_0000int)
            by (nonlinear_arith)
            requires
                min_distance <= 0xFFFF_FFFF,
        ;
        assert((max_distance as int) * (max_distance as int) < 0x1_0000_0000_0000_0000int)
            by (nonlinear_arith)
            requires
                max_distance <= 0xFFFF_FFFF,
        ;
    }
    let min_sq = (min_distance as u64) * (min_distance as u64);
    let max_sq = (max_distance as u64) * (max_distance as u64);
    min_sq < distance_sq && distance_sq < max_sq
}

/// The effect of one validated input, per the effect table.
///
/// Movement is not an effect — it goes through the impulse path — and an
/// input whose power-up kind has no effect yet is dropped. Client-supplied
/// points (teleport targets, bumper positions) are forced into the
/// playable area first; nothing else is read from the raw input.
pub fn effect_of_input(
    validated: &ValidPlayerInput,
    area: &PlayableArea,
    players: &Vec<PlayerId>,
) -> (r: Option<EffectCommand>)
    requires
        area.wf(),
        players@.no_duplicates(),
    ensures
        match validated.input {
            PlayerInput::Teleport(p) => r matches Some(e) && e matches EffectCommand::Teleport {
                player,
                position,
            } && player == validated.player && position.x == spec_clamp(
                p.x as int,
                area.min.x as int,
                area.max.x as int,
            ) && position.y == spec_clamp(p.y as int, area.min.y as int, area.max.y as int)
                && position.z == spec_clamp(p.z as int, area.min.z as int, area.max.z as int),
            PlayerInput::HoleMagnet => r == Some(
                EffectCommand::AttachHoleMagnet { player: validated.player },
            ),
            PlayerInput::ChipShot => r == Some(
                EffectCommand::MarkChipShot { player: validated.player },
            ),
            PlayerInput::StickyBall => r matches Some(e)
                && e matches EffectCommand::ApplyStickyBall { targets } && targets@
                == players@.remove_value(validated.player),
            PlayerInput::Bumper(p) => r matches Some(e) && e matches EffectCommand::SpawnBumper {
                position,
                hits,
                black_hole,
            } && !black_hole && hits == BUMPER_HITS && position.x == spec_clamp(
                p.x as int,
                area.min.x as int,
                area.max.x as int,
            ) && position.y == spec_clamp(p.y as int, area.min.y as int, area.max.y as int)
                && position.z == spec_clamp(p.z as int, area.min.z as int, area.max.z as int),
            PlayerInput::BlackHoleBumper(p) => r matches Some(e)
                && e matches EffectCommand::SpawnBumper { position, hits, black_hole }
                && black_hole && hits == BUMPER_HITS && position.x == spec_clamp(
                p.x as int,
                area.min.x as int,
                area.max.x as int,
            ) && position.y == spec_clamp(p.y as int, area.min.y as int, area.max.y as int)
                && position.z == spec_clamp(p.z as int, area.min.z as int, area.max.z as int),
            PlayerInput::Wind(d) => r == Some(EffectCommand::SpawnWind { direction: d }),
            PlayerInput::StickyWalls => r == Some(EffectCommand::MarkStickyWalls),
            PlayerInput::IceRink => r == Some(EffectCommand::SetIceRink),
            _ => r is None,
        },
{
    match &validated.input {
        PlayerInput::Teleport(p) => Some(
            EffectCommand::Teleport { player: validated.player, position: area.clamp(*p) },
        ),
        PlayerInput::HoleMagnet => Some(
            EffectCommand::AttachHoleMagnet { player: validated.player },
        ),
        PlayerInput::ChipShot => Some(EffectCommand::MarkChipShot { player: validated.player }),
        PlayerInput::StickyBall => Some(
            EffectCommand::ApplyStickyBall {
                targets: other_players(players, validated.player),
            },
        ),
        PlayerInput::Bumper(p) => Some(
            EffectCommand::SpawnBumper {
                position: area.clamp(*p),
                hits: BUMPER_HITS,
                black_hole: false,
            },
        ),
        PlayerInput::BlackHoleBumper(p) => Some(
            EffectCommand::SpawnBumper {
                position: area.clamp(*p),
                hits: BUMPER_HITS,
                black_hole: true,
            },
        ),
        PlayerInput::Wind(d) => Some(EffectCommand::SpawnWind { direction: *d }),
        PlayerInput::StickyWalls => Some(EffectCommand::MarkStickyWalls),
        PlayerInput::IceRink => Some(EffectCommand::SetIceRink),
        _ => None,
    }
}

} // verus!
