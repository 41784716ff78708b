//! Chunk coordinates: the discrete spatial index of the world.
//!
//! A chunk is a fixed-size cube of voxels; a `ChunkCoordinate` identifies one
//! such cube. The module defines face adjacency, the Chebyshev distance used
//! to bound streaming radii, the squared Euclidean distance used for load
//! ordering, and the affine maps between block space and chunk space.

use vstd::prelude::*;

verus! {

/// Edge length of a chunk, in voxels (blocks).
pub const CHUNK_SIZE: i64 = 16;

/// Half a chunk edge; offsets a chunk's corner to its centre.
pub const CHUNK_HALF: i64 = 8;

/// Largest magnitude a chunk coordinate component may take. Keeps every
/// derived quantity (block positions, squared distances, dot products)
/// comfortably inside the machine integer types.
pub const COORD_LIMIT: i64 = 1048576;

/// Identifies one chunk-sized cube of world space.
#[derive(Clone, Copy, PartialEq, Eq, Structural, Hash, Debug)]
pub struct ChunkCoordinate {
    pub x: i64,
    pub y: i64,
    pub z: i64,
}

/// Magnitude of an integer.
pub open spec fn abs1(a: int) -> int {
    if a >= 0 {
        a
    } else {
        -a
    }
}

/// Larger of two integers.
pub open spec fn max2(a: int, b: int) -> int {
    if a >= b {
        a
    } else {
        b
    }
}

impl ChunkCoordinate {
    /// Every component lies within `bound` of the origin.
    pub open spec fn within(self, bound: int) -> bool {
        &&& -bound <= self.x <= bound
        &&& -bound <= self.y <= bound
        &&& -bound <= self.z <= bound
    }

    /// The coordinate lies in the supported region of the world.
    pub open spec fn in_bounds(self) -> bool {
        self.within(COORD_LIMIT as int)
    }

    /// Two coordinates are face-adjacent when they differ by exactly one
    /// along exactly one axis.
    pub open spec fn is_adjacent(self, other: Self) -> bool {
        abs1(self.x - other.x) + abs1(self.y - other.y) + abs1(self.z - other.z) == 1
    }

    /// Chebyshev distance: the number of chunk steps needed to reach `other`
    /// when a step may change every axis at once.
    pub open spec fn chebyshev(self, other: Self) -> int {
        max2(abs1(self.x - other.x), max2(abs1(self.y - other.y), abs1(self.z - other.z)))
    }

    /// Squared Euclidean distance between two chunk coordinates.
    pub open spec fn spec_distance_squared(self, other: Self) -> int {
        (self.x - other.x) * (self.x - other.x) + (self.y - other.y) * (self.y - other.y) + (
        self.z - other.z) * (self.z - other.z)
    }

    /// The six face neighbours, in the fixed order +x, -x, +y, -y, +z, -z.
    pub open spec fn spec_adjacent(self) -> Seq<ChunkCoordinate> {
        seq![
            ChunkCoordinate { x: (self.x + 1) as i64, y: self.y, z: self.z },
            ChunkCoordinate { x: (self.x - 1) as i64, y: self.y, z: self.z },
            ChunkCoordinate { x: self.x, y: (self.y + 1) as i64, z: self.z },
            ChunkCoordinate { x: self.x, y: (self.y - 1) as i64, z: self.z },
            ChunkCoordinate { x: self.x, y: self.y, z: (self.z + 1) as i64 },
            ChunkCoordinate { x: self.x, y: self.y, z: (self.z - 1) as i64 },
        ]
    }

    /// The coordinates of the (up to) six chunks sharing a face with this one.
    pub fn adjacent(&self) -> (r: Vec<ChunkCoordinate>)
        requires
            self.in_bounds(),
        ensures
            r@ == self.spec_adjacent(),
            r@.len() == 6,
            forall|i: int, j: int| 0 <= i < j < 6 ==> r@[i] != r@[j],
            forall|i: int| 0 <= i < 6 ==> self.is_adjacent(#[trigger] r@[i]),
            forall|c: ChunkCoordinate| self.is_adjacent(c) ==> r@.contains(c),
            forall|i: int| 0 <= i < 6 ==> (#[trigger] r@[i]).within(COORD_LIMIT + 1),
    {
        let r: Vec<ChunkCoordinate> = vec![
            ChunkCoordinate { x: self.x + 1, y: self.y, z: self.z },
            ChunkCoordinate { x: self.x - 1, y: self.y, z: self.z },
            ChunkCoordinate { x: self.x, y: self.y + 1, z: self.z },
            ChunkCoordinate { x: self.x, y: self.y - 1, z: self.z },
            ChunkCoordinate { x: self.x, y: self.y, z: self.z + 1 },
            ChunkCoordinate { x: self.x, y: self.y, z: self.z - 1 },
        ];
        proof {
            assert(r@ =~= self.spec_adjacent());
            assert forall|c: ChunkCoordinate| self.is_adjacent(c) implies r@.contains(c) by {
                if c.x == self.x + 1 && c.y == self.y && c.z == self.z {
                    assert(r@[0] == c);
                } else if c.x == self.x - 1 && c.y == self.y && c.z == self.z {
                    assert(r@[1] == c);
                } else if c.x == self.x && c.y == self.y + 1 && c.z == self.z {
                    assert(r@[2] == c);
                } else if c.x == self.x && c.y == self.y - 1 && c.z == self.z {
                    assert(r@[3] == c);
                } else if c.x == self.x && c.y == self.y && c.z == self.z + 1 {
                    assert(r@[4] == c);
                } else {
                    assert(r@[5] == c);
                }
            }
        }
        r
    }

    /// Chebyshev distance between two in-bounds coordinates.
    pub fn chebyshev_distance(&self, other: &ChunkCoordinate) -> (r: u64)
        requires
            self.within(COORD_LIMIT + 2),
            other.within(COORD_LIMIT + 2),
        ensures
            r == self.chebyshev(*other),
    {
        let dx = if self.x >= other.x {
            self.x - other.x
        } else {
            other.x - self.x
        };
        let dy = if self.y >= other.y {
            self.y - other.y
        } else {
            other.y - self.y
        };
        let dz = if self.z >= other.z {
            self.z - other.z
        } else {
            other.z - self.z
        };
        let mut m = dx;
        if dy > m {
            m = dy;
        }
        if dz > m {
            m = dz;
        }
        m as u64
    }

    /// Squared Euclidean chunk distance; the Euclidean distance itself is
    /// irrational in general, so callers compare squares.
    pub fn distance_squared(&self, other: &ChunkCoordinate) -> (r: u64)
        requires
            self.in_bounds(),
            other.in_bounds(),
        ensures
            r == self.spec_distance_squared(*other),
    {
        let dx = self.x - other.x;
        let dy = self.y - other.y;
        let dz = self.z - other.z;
        proof {
            lemma_square_bound(dx as int, 2097152);
            lemma_square_bound(dy as int, 2097152);
            lemma_square_bound(dz as int, 2097152);
        }
        (dx * dx + dy * dy + dz * dz) as u64
    }
}

/// A value bounded in magnitude has a bounded, non-negative square.
pub proof fn lemma_square_bound(a: int, b: int)
    requires
        -b <= a <= b,
    ensures
        0 <= a * a <= b * b,
{
    assert(0 <= a * a <= b * b) by (nonlinear_arith)
        requires
            -b <= a <= b,
    ;
}

/// Face adjacency is symmetric: a chunk borders its neighbour exactly when
/// the neighbour borders it.
pub proof fn lemma_adjacent_symmetric(a: ChunkCoordinate, b: ChunkCoordinate)
    ensures
        a.is_adjacent(b) <==> b.is_adjacent(a),
{
}

/// One adjacency step changes the Chebyshev distance to any centre by at
/// most one.
pub proof fn lemma_chebyshev_adjacent(
    centre: ChunkCoordinate,
    a: ChunkCoordinate,
    b: ChunkCoordinate,
)
    requires
        a.is_adjacent(b),
    ensures
        centre.chebyshev(b) <= centre.chebyshev(a) + 1,
{
}

/// The neighbour list agrees with the adjacency predicate: for in-bounds
/// coordinates, a chunk stands in the list exactly when it is face-adjacent.
pub proof fn lemma_adjacent_iff(c: ChunkCoordinate, n: ChunkCoordinate)
    requires
        c.in_bounds(),
    ensures
        c.spec_adjacent().contains(n) <==> c.is_adjacent(n),
{
    if c.is_adjacent(n) {
        if n.x == c.x + 1 && n.y == c.y && n.z == c.z {
            assert(c.spec_adjacent()[0] == n);
        } else if n.x == c.x - 1 && n.y == c.y && n.z == c.z {
            assert(c.spec_adjacent()[1] == n);
        } else if n.x == c.x && n.y == c.y + 1 && n.z == c.z {
            assert(c.spec_adjacent()[2] == n);
        } else if n.x == c.x && n.y == c.y - 1 && n.z == c.z {
            assert(c.spec_adjacent()[3] == n);
        } else if n.x == c.x && n.y == c.y && n.z == c.z + 1 {
            assert(c.spec_adjacent()[4] == n);
        } else {
            assert(c.spec_adjacent()[5] == n);
        }
    }
}

} // verus!
