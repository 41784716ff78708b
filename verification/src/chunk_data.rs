//! Voxel contents of a single chunk.
//!
//! A `ChunkData` is an immutable dense grid of `CHUNK_SIZE^3` solidity
//! values. Once produced for a coordinate it is never mutated in place;
//! regeneration would produce a fresh value for the same coordinate.

use vstd::prelude::*;

verus! {

/// Number of voxels in one chunk: `CHUNK_SIZE` cubed.
pub const CHUNK_VOLUME: usize = 4096;

/// Flat index of local voxel position (x, y, z), each in `0 .. CHUNK_SIZE`.
pub open spec fn spec_voxel_index(x: int, y: int, z: int) -> int {
    (x * 16 + y) * 16 + z
}

/// Dense voxel payload of one chunk. `true` marks a solid voxel.
#[derive(Clone, Debug)]
pub struct ChunkData {
    voxels: Vec<bool>,
}

impl View for ChunkData {
    type V = Seq<bool>;

    closed spec fn view(&self) -> Seq<bool> {
        self.voxels@
    }
}

impl ChunkData {
    /// A well-formed chunk holds exactly one value per voxel.
    pub open spec fn wf(self) -> bool {
        self@.len() == CHUNK_VOLUME
    }

    /// Solidity of the voxel at local position (x, y, z).
    pub open spec fn spec_voxel(self, x: int, y: int, z: int) -> bool {
        self@[spec_voxel_index(x, y, z)]
    }

    /// No voxel of the chunk is solid.
    pub open spec fn spec_empty(self) -> bool {
        forall|i: int| 0 <= i < self@.len() ==> !self@[i]
    }

    /// Builds a chunk from a flat voxel grid.
    pub fn from_voxels(voxels: Vec<bool>) -> (r: ChunkData)
        requires
            voxels@.len() == CHUNK_VOLUME,
        ensures
            r@ == voxels@,
            r.wf(),
    {
        ChunkData { voxels }
    }

    /// Solidity of the voxel at local position (x, y, z).
    pub fn voxel(&self, x: usize, y: usize, z: usize) -> (r: bool)
        requires
            self.wf(),
            x < 16,
            y < 16,
            z < 16,
        ensures
            r == self.spec_voxel(x as int, y as int, z as int),
    {
        self.voxels[(x * 16 + y) * 16 + z]
    }

    /// True when every voxel of the chunk is air. An absent chunk is not
    /// empty in this sense: emptiness speaks only of generated data.
    pub fn empty(&self) -> (r: bool)
        requires
            self.wf(),
        ensures
            r == self.spec_empty(),
    {
        let mut i: usize = 0;
        while i < self.voxels.len()
            invariant
                self.wf(),
                i <= self.voxels@.len(),
                forall|j: int| 0 <= j < i ==> !self@[j],
            decreases self.voxels@.len() - i,
        {
            if self.voxels[i] {
                return false;
            }
            i += 1;
        }
        true
    }

    /// A fresh chunk holding the same voxel grid.
    pub fn duplicate(&self) -> (r: ChunkData)
        requires
            self.wf(),
        ensures
            r@ == self@,
            r.wf(),
    {
        let voxels = self.voxels.clone();
        proof {
            assert(voxels@ =~= self.voxels@);
        }
        ChunkData { voxels }
    }

    /// Structural equality of two chunks' voxel grids.
    pub fn same_as(&self, other: &ChunkData) -> (r: bool)
        requires
            self.wf(),
            other.wf(),
        ensures
            r == (self@ == other@),
    {
        let mut i: usize = 0;
        while i < self.voxels.len()
            invariant
                self.wf(),
                other.wf(),
                i <= self.voxels@.len(),
                forall|j: int| 0 <= j < i ==> self@[j] == other@[j],
            decreases self.voxels@.len() - i,
        {
            if self.voxels[i] != other.voxels[i] {
                return false;
            }
            i += 1;
        }
        proof {
            assert(self@ =~= other@);
        }
        true
    }
}

} // verus!
