//! Integer geometry for course-bound checks and impulse computation.
//!
//! Positions, directions and impulses are carried as fixed-point integer
//! coordinates; exact physical tuning lives with the physics collaborator.

use vstd::prelude::*;

verus! {

/// A two-dimensional integer vector: a direction on the course plane.
#[derive(Debug, Clone, Copy, PartialEq, Eq, Structural)]
pub struct Vec2i {
    pub x: i32,
    pub y: i32,
}

impl Vec2i {
    pub fn new(x: i32, y: i32) -> (r: Self)
        ensures
            r == (Vec2i { x, y }),
    {
        Vec2i { x, y }
    }

    /// The squared length of the vector.
    pub open spec fn spec_len_sq(self) -> int {
        self.x * self.x + self.y * self.y
    }
}

/// A three-dimensional integer vector: a position or impulse in the world.
#[derive(Debug, Clone, Copy, PartialEq, Eq, Structural)]
pub struct Vec3i {
    pub x: i32,
    pub y: i32,
    pub z: i32,
}

impl Vec3i {
    pub fn new(x: i32, y: i32, z: i32) -> (r: Self)
        ensures
            r == (Vec3i { x, y, z }),
    {
        Vec3i { x, y, z }
    }
}

/// One coordinate forced into the closed interval `[lo, hi]`.
pub open spec fn spec_clamp(v: int, lo: int, hi: int) -> int {
    if v < lo {
        lo
    } else if v > hi {
        hi
    } else {
        v
    }
}

/// The axis-aligned region of the course a player may occupy; positions
/// supplied by clients are forced into it before they touch the simulation.
#[derive(Debug, Clone, Copy, PartialEq, Eq, Structural)]
pub struct PlayableArea {
    pub min: Vec3i,
    pub max: Vec3i,
}

impl PlayableArea {
    /// A well-formed area has its corners in order.
    pub open spec fn wf(self) -> bool {
        self.min.x <= self.max.x && self.min.y <= self.max.y && self.min.z <= self.max.z
    }

    /// Whether the point lies inside the area.
    pub open spec fn spec_contains(self, p: Vec3i) -> bool {
        &&& self.min.x <= p.x <= self.max.x
        &&& self.min.y <= p.y <= self.max.y
        &&& self.min.z <= p.z <= self.max.z
    }

    /// Whether the point lies inside the area.
    pub fn contains(&self, p: Vec3i) -> (r: bool)
        ensures
            r == self.spec_contains(p),
    {
        self.min.x <= p.x && p.x <= self.max.x
            && self.min.y <= p.y && p.y <= self.max.y
            && self.min.z <= p.z && p.z <= self.max.z
    }

    /// Forces a client-supplied point into the area, coordinate by
    /// coordinate. A point already inside comes back unchanged.
    pub fn clamp(&self, p: Vec3i) -> (r: Vec3i)
        requires
            self.wf(),
        ensures
            r.x == spec_clamp(p.x as int, self.min.x as int, self.max.x as int),
            r.y == spec_clamp(p.y as int, self.min.y as int, self.max.y as int),
            r.z == spec_clamp(p.z as int, self.min.z as int, self.max.z as int),
            self.spec_contains(r),
            self.spec_contains(p) ==> r == p,
    {
        Vec3i {
            x: clamp_i32(p.x, self.min.x, self.max.x),
            y: clamp_i32(p.y, self.min.y, self.max.y),
            z: clamp_i32(p.z, self.min.z, self.max.z),
        }
    }
}

/// One coordinate forced into the closed interval `[lo, hi]`.
pub fn clamp_i32(v: i32, lo: i32, hi: i32) -> (r: i32)
    requires
        lo <= hi,
    ensures
        r == spec_clamp(v as int, lo as int, hi as int),
{
    if v < lo {
        lo
    } else if v > hi {
        hi
    } else {
        v
    }
}

/// The integer square root: the largest `r` with `r * r <= n`.
pub fn isqrt(n: u64) -> (r: u64)
    ensures
        r * r <= n,
        n < (r + 1) * (r + 1),
        r < 0x1_0000_0000,
{
    let mut lo: u64 = 0;
    let mut hi: u64 = 0x1_0000_0000;
    proof {
        assert(0x1_0000_0000 * 0x1_0000_0000 == 0x1_0000_0000_0000_0000int) by (nonlinear_arith);
    }
    while hi - lo > 1
        invariant
            lo < hi <= 0x1_0000_0000,
            lo * lo <= n,
            n < hi * hi,
        decreases hi - lo,
    {
        let mid: u64 = lo + (hi - lo) / 2;
        proof {
            assert((mid as int) * (mid as int) <= 0x1_0000_0000_0000_0000int) by (nonlinear_arith)
                requires
                    mid <= 0x1_0000_0000,
            ;
        }
        if (mid as u128) * (mid as u128) <= n as u128 {
            lo = mid;
        } else {
            hi = mid;
        }
    }
    lo
}

} // verus!
