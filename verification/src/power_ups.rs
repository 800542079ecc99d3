//! Power-up kinds and the bounded per-player inventory.

use vstd::prelude::*;

verus! {

/// Every kind of power-up a player may hold.
#[derive(Debug, Clone, Copy, PartialEq, Eq, Structural)]
pub enum PowerUpType {
    // Targeting self
    Teleport,
    HoleMagnet,
    GhostBall,
    ChipShot,
    BallRepellent,
    // Targeting a specific player
    StealPowerUp,
    // Targeting other players
    StickyBall,
    TinyBall,
    HugeBall,
    ZanyBall,
    ReversiBall,
    // Targeting the environment
    Bumper,
    BlackHoleBumper,
    Tornado,
    Wind,
    StickyWalls,
    IceRink,
}

/// A power-up pickup placed in the world.
#[derive(Debug, Clone, Copy, PartialEq, Eq, Structural)]
pub struct PowerUp {
    pub power_up: PowerUpType,
}

impl From<PowerUpType> for PowerUp {
    fn from(value: PowerUpType) -> (r: PowerUp) {
        PowerUp { power_up: value }
    }
}

impl vstd::std_specs::convert::FromSpecImpl<PowerUpType> for PowerUp {
    open spec fn obeys_from_spec() -> bool {
        true
    }

    open spec fn from_spec(value: PowerUpType) -> PowerUp {
        PowerUp { power_up: value }
    }
}

/// The kinds that pickups currently hand out, in a fixed order.
pub open spec fn spec_implemented_power_ups() -> Seq<PowerUpType> {
    seq![
        PowerUpType::Teleport,
        PowerUpType::HoleMagnet,
        PowerUpType::ChipShot,
        PowerUpType::StickyBall,
        PowerUpType::Bumper,
        PowerUpType::BlackHoleBumper,
        PowerUpType::Wind,
        PowerUpType::StickyWalls,
        PowerUpType::IceRink,
    ]
}

/// The kinds that pickups currently hand out, in the same order as
/// [`spec_implemented_power_ups`].
pub fn implemented_power_ups() -> (r: Vec<PowerUpType>)
    ensures
        r@ == spec_implemented_power_ups(),
{
    let mut v: Vec<PowerUpType> = Vec::new();
    v.push(PowerUpType::Teleport);
    v.push(PowerUpType::HoleMagnet);
    v.push(PowerUpType::ChipShot);
    v.push(PowerUpType::StickyBall);
    v.push(PowerUpType::Bumper);
    v.push(PowerUpType::BlackHoleBumper);
    v.push(PowerUpType::Wind);
    v.push(PowerUpType::StickyWalls);
    v.push(PowerUpType::IceRink);
    proof {
        assert(v@ =~= spec_implemented_power_ups());
    }
    v
}

/// Relies on `rand::Rng::random_range` over `0..n`: returns a value drawn
/// from that half-open range. The choice is random; only the bound is
/// assumed.
#[verifier::external_body]
fn random_below(n: usize) -> (r: usize)
    requires
        1 <= n,
    ensures
        r < n,
{
    rand::Rng::random_range(&mut rand::rng(), 0..n)
}

/// Draws one of the implemented power-up kinds at random.
pub fn random_power_up() -> (r: PowerUpType)
    ensures
        spec_implemented_power_ups().contains(r),
{
    let kinds = implemented_power_ups();
    let index = random_below(kinds.len());
    let r = kinds[index];
    proof {
        assert(spec_implemented_power_ups()[index as int] == r);
    }
    r
}

/// How many power-ups one player may hold at once.
pub const PLAYER_POWER_UP_LIMIT: usize = 3;

/// Whether an inventory's contents respect the capacity bound.
pub open spec fn within_capacity(s: Seq<PowerUpType>) -> bool {
    s.len() <= PLAYER_POWER_UP_LIMIT
}

/// The bounded multiset of power-up kinds held by one player.
///
/// A fresh inventory is empty, and every operation keeps the contents
/// within [`PLAYER_POWER_UP_LIMIT`], so the bound holds at every
/// observable point.
#[derive(Debug, Clone)]
pub struct PlayerPowerUps {
    power_ups: Vec<PowerUpType>,
}

impl View for PlayerPowerUps {
    type V = Seq<PowerUpType>;

    closed spec fn view(&self) -> Seq<PowerUpType> {
        self.power_ups@
    }
}

impl PlayerPowerUps {
    /// The held kinds, in pickup order.
    pub fn get_power_ups(&self) -> (r: &[PowerUpType])
        ensures
            r@ == self@,
    {
        self.power_ups.as_slice()
    }

    /// How many power-ups are held.
    pub fn len(&self) -> (r: usize)
        ensures
            r == self@.len(),
    {
        self.power_ups.len()
    }

    /// Whether one matching entry is held.
    pub fn contains(&self, power_up: PowerUpType) -> (r: bool)
        ensures
            r == self@.contains(power_up),
    {
        let mut i: usize = 0;
        while i < self.power_ups.len()
            invariant
                i <= self.power_ups@.len(),
                forall|j: int| 0 <= j < i ==> self.power_ups@[j] != power_up,
            decreases self.power_ups@.len() - i,
        {
            if self.power_ups[i] == power_up {
                return true;
            }
            i = i + 1;
        }
        false
    }

    /// Stores one more power-up, or reports that the inventory is full.
    /// The capacity bound is kept.
    pub fn add_power_up(&mut self, power_up: PowerUpType) -> (r: Result<(), ()>)
        ensures
            old(self)@.len() < PLAYER_POWER_UP_LIMIT ==> r is Ok
                && final(self)@ == old(self)@.push(power_up),
            old(self)@.len() >= PLAYER_POWER_UP_LIMIT ==> r is Err
                && final(self)@ == old(self)@,
            within_capacity(old(self)@) ==> within_capacity(final(self)@),
    {
        if self.power_ups.len() >= PLAYER_POWER_UP_LIMIT {
            Err(())
        } else {
            self.power_ups.push(power_up);
            Ok(())
        }
    }

    /// Consumes one matching entry, the first in pickup order, or reports
    /// that none is held. An absent kind leaves the inventory exactly as it
    /// was.
    pub fn use_power_up(&mut self, power_up: PowerUpType) -> (r: Option<PowerUpType>)
        ensures
            !old(self)@.contains(power_up) ==> r is None && final(self)@ == old(self)@,
            old(self)@.contains(power_up) ==> r == Some(power_up)
                && final(self)@ == old(self)@.remove_value(power_up),
            final(self)@.len() <= old(self)@.len(),
    {
        let mut i: usize = 0;
        while i < self.power_ups.len()
            invariant
                self.power_ups@ == old(self).power_ups@,
                i <= self.power_ups@.len(),
                forall|j: int| 0 <= j < i ==> self.power_ups@[j] != power_up,
            decreases self.power_ups@.len() - i,
        {
            if self.power_ups[i] == power_up {
                proof {
                    self.power_ups@.index_of_first_ensures(power_up);
                }
                let removed = self.power_ups.remove(i);
                return Some(removed);
            }
            i = i + 1;
        }
        None
    }
}

/// The capacity bound is invariant: it holds of a fresh (empty) inventory,
/// and every step an inventory can take — staying put, storing one entry
/// after the capacity check, or consuming one entry — keeps it.
pub proof fn lemma_capacity_invariant(
    before: Seq<PowerUpType>,
    after: Seq<PowerUpType>,
    power_up: PowerUpType,
)
    requires
        within_capacity(before),
        after == before
            || (before.len() < PLAYER_POWER_UP_LIMIT && after == before.push(power_up))
            || (exists|i: int| 0 <= i < before.len() && after == before.remove(i)),
    ensures
        within_capacity(after),
{
}

/// A fresh inventory holds nothing.
impl Default for PlayerPowerUps {
    fn default() -> (r: Self)
        ensures
            r@ == Seq::<PowerUpType>::empty(),
    {
        PlayerPowerUps { power_ups: Vec::new() }
    }
}

} // verus!
