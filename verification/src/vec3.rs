//! Integer 3-vectors.
//!
//! World-space positions are held in whole blocks, and directions as
//! fixed-point vectors scaled by `DIR_SCALE`; both are exact integers, so
//! every geometric comparison in the crate is decided exactly.

use vstd::prelude::*;

verus! {

/// Fixed-point scale for direction vectors: a unit direction is a vector of
/// magnitude close to `DIR_SCALE`.
pub const DIR_SCALE: i64 = 128;

/// The magnitude of a product is bounded by the product of the magnitudes.
pub proof fn lemma_mul_bound(a: int, b: int, bound_a: int, bound_b: int)
    requires
        -bound_a <= a <= bound_a,
        -bound_b <= b <= bound_b,
        0 <= bound_a,
        0 <= bound_b,
    ensures
        -(bound_a * bound_b) <= a * b <= bound_a * bound_b,
{
    assert(-(bound_a * bound_b) <= a * b <= bound_a * bound_b) by (nonlinear_arith)
        requires
            -bound_a <= a <= bound_a,
            -bound_b <= b <= bound_b,
            0 <= bound_a,
            0 <= bound_b,
    ;
}

/// An integer 3-vector: a block-space position or a fixed-point direction.
#[derive(Clone, Copy, PartialEq, Eq, Structural, Hash, Debug)]
pub struct Vector3i {
    pub x: i64,
    pub y: i64,
    pub z: i64,
}

impl Vector3i {
    /// Every component lies within `bound` of zero.
    pub open spec fn within(self, bound: int) -> bool {
        &&& -bound <= self.x <= bound
        &&& -bound <= self.y <= bound
        &&& -bound <= self.z <= bound
    }

    /// Dot product, over the mathematical integers.
    pub open spec fn spec_dot(self, other: Self) -> int {
        self.x * other.x + self.y * other.y + self.z * other.z
    }

    /// Squared Euclidean norm.
    pub open spec fn spec_norm_squared(self) -> int {
        self.spec_dot(self)
    }

    /// Cross product, over the mathematical integers.
    pub open spec fn spec_cross(self, other: Self) -> (int, int, int) {
        (
            self.y * other.z - self.z * other.y,
            self.z * other.x - self.x * other.z,
            self.x * other.y - self.y * other.x,
        )
    }

    /// Componentwise difference, over the mathematical integers.
    pub open spec fn spec_sub(self, other: Self) -> (int, int, int) {
        (self.x - other.x, self.y - other.y, self.z - other.z)
    }
}

} // verus!
