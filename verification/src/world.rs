//! The world: a seed and the sparse store of generated chunks.
//!
//! The store maps a chunk coordinate to its generated voxel data. A
//! coordinate is present exactly when it has been generated at least once,
//! and the stored data always equals what the seed dictates for that
//! coordinate, so regeneration can never change it.
//!
//! Retention policy: voxel data, once generated, is kept for the life of
//! the world; streaming only creates and destroys the *visual*
//! representation of a chunk. Generation is deterministic, so a host that
//! must bound memory can drop and regenerate data freely — but this store
//! does not do it behind the caller's back.

use vstd::prelude::*;

use crate::chunk_data::ChunkData;
use crate::coord::{ChunkCoordinate, CHUNK_HALF, CHUNK_SIZE};
use crate::generate::{generate_chunk_data, spec_chunk_voxels};
use crate::mesh::{generate_mesh, spec_mesh_matches, spec_neighbor_views, Mesh};
use crate::vec3::Vector3i;
use crate::vecmap::VecMap;

verus! {

/// Draws a value from the host's entropy source.
///
/// Relies on `rand::random`; nothing is assumed of the value drawn.
pub assume_specification<T>[ rand::random::<T> ]() -> (r: T)
    where
        rand::distr::StandardUniform: rand::distr::Distribution<T>,
;

/// Truncating division: rounds the quotient toward zero.
pub open spec fn div_trunc(a: int, d: int) -> int
    recommends
        d > 0,
{
    if a >= 0 {
        a / d
    } else {
        -((-a) / d)
    }
}

/// The chunk containing a block position: each component divided by the
/// chunk edge length, rounding toward zero as the block grid does.
pub open spec fn spec_block_to_chunk(block: Vector3i) -> crate::coord::ChunkCoordinate {
    crate::coord::ChunkCoordinate {
        x: div_trunc(block.x as int, CHUNK_SIZE as int) as i64,
        y: div_trunc(block.y as int, CHUNK_SIZE as int) as i64,
        z: div_trunc(block.z as int, CHUNK_SIZE as int) as i64,
    }
}

/// A seeded world and its sparse chunk store.
pub struct World {
    seed: u32,
    chunks: VecMap<ChunkData>,
}

impl View for World {
    type V = Map<ChunkCoordinate, Seq<bool>>;

    /// The generated chunks, each seen as its voxel grid.
    closed spec fn view(&self) -> Map<ChunkCoordinate, Seq<bool>> {
        self.chunks@.map_values(|d: ChunkData| d@)
    }
}

impl World {
    /// The seed every chunk's contents are derived from.
    pub closed spec fn spec_seed(self) -> int {
        self.seed as int
    }

    /// The store is sound: every generated chunk holds exactly the voxel
    /// grid the seed dictates for its coordinate.
    pub open spec fn wf(self) -> bool {
        &&& self.store_wf()
        &&& forall|c: ChunkCoordinate| #[trigger]
            self@.dom().contains(c) ==> self@[c] == spec_chunk_voxels(self.spec_seed(), c)
    }

    /// Internal well-formedness of the backing store.
    pub closed spec fn store_wf(self) -> bool {
        self.chunks.wf()
    }

    /// A coordinate is generated when the store holds data for it.
    pub open spec fn spec_is_generated(self, c: ChunkCoordinate) -> bool {
        self@.dom().contains(c)
    }

    /// A new world with a random seed and no generated chunks.
    pub fn new() -> (r: World)
        ensures
            r.wf(),
            r@ == Map::<ChunkCoordinate, Seq<bool>>::empty(),
    {
        let seed: u32 = rand::random();
        World::with_seed(seed)
    }

    /// A new world with the given seed and no generated chunks; fixing the
    /// seed fixes every chunk the world will ever generate.
    pub fn with_seed(seed: u32) -> (r: World)
        ensures
            r.wf(),
            r.spec_seed() == seed as int,
            r@ == Map::<ChunkCoordinate, Seq<bool>>::empty(),
    {
        let r = World { seed, chunks: VecMap::new() };
        proof {
            assert(r@ =~= Map::<ChunkCoordinate, Seq<bool>>::empty());
        }
        r
    }

    /// The world's seed.
    pub fn seed(&self) -> (r: u32)
        ensures
            r as int == self.spec_seed(),
    {
        self.seed
    }

    /// Generates the chunk at `c` if it has not been generated yet.
    /// Generating an already-generated coordinate changes nothing.
    pub fn generate_chunk(&mut self, c: ChunkCoordinate)
        requires
            old(self).wf(),
            c.in_bounds(),
        ensures
            final(self).wf(),
            final(self).spec_seed() == old(self).spec_seed(),
            final(self)@ == old(self)@.insert(
                c,
                spec_chunk_voxels(old(self).spec_seed(), c),
            ),
            old(self).spec_is_generated(c) ==> final(self)@ == old(self)@,
    {
        if self.chunks.contains_key(&c) {
            proof {
                assert(old(self)@.dom().contains(c));
                assert(old(self)@[c] == spec_chunk_voxels(old(self).spec_seed(), c));
                assert(old(self)@.insert(c, spec_chunk_voxels(old(self).spec_seed(), c))
                    =~= old(self)@);
            }
            return ;
        }
        let data = generate_chunk_data(self.seed, c);
        self.chunks.insert(c, data);
        proof {
            assert(final(self)@ =~= old(self)@.insert(
                c,
                spec_chunk_voxels(old(self).spec_seed(), c),
            ));
        }
    }

    /// Generates every listed chunk that is missing, in list order.
    pub fn generate_chunks(&mut self, chunk_coords: Vec<ChunkCoordinate>)
        requires
            old(self).wf(),
            forall|i: int|
                0 <= i < chunk_coords@.len() ==> (#[trigger] chunk_coords@[i]).in_bounds(),
        ensures
            final(self).wf(),
            final(self).spec_seed() == old(self).spec_seed(),
            final(self)@.dom() == old(self)@.dom().union(chunk_coords@.to_set()),
            forall|c: ChunkCoordinate| #[trigger]
                old(self)@.dom().contains(c) ==> final(self)@[c] == old(self)@[c],
    {
        let mut i: usize = 0;
        while i < chunk_coords.len()
            invariant
                self.wf(),
                self.spec_seed() == old(self).spec_seed(),
                i <= chunk_coords@.len(),
                forall|j: int|
                    0 <= j < chunk_coords@.len() ==> (#[trigger] chunk_coords@[j]).in_bounds(),
                self@.dom() =~= old(self)@.dom().union(chunk_coords@.take(i as int).to_set()),
                forall|c: ChunkCoordinate| #[trigger]
                    old(self)@.dom().contains(c) ==> self@[c] == old(self)@[c],
            decreases chunk_coords@.len() - i,
        {
            let c = chunk_coords[i];
            let ghost before = self@;
            self.generate_chunk(c);
            proof {
                assert(chunk_coords@.take(i as int + 1) =~= chunk_coords@.take(i as int)
                    + seq![c]);
                Seq::<ChunkCoordinate>::lemma_to_set_insert_commutes(
                    chunk_coords@.take(i as int),
                    c,
                );
                assert(self@.dom() =~= old(self)@.dom().union(
                    chunk_coords@.take(i as int + 1).to_set(),
                ));
            }
            i += 1;
        }
        proof {
            assert(chunk_coords@.take(chunk_coords@.len() as int) =~= chunk_coords@);
        }
    }

    /// The generated data at `c`, if any.
    pub fn get_chunk_data(&self, c: ChunkCoordinate) -> (r: Option<&ChunkData>)
        requires
            self.wf(),
        ensures
            match r {
                Some(d) => self.spec_is_generated(c) && d@ == self@[c] && d.wf(),
                None => !self.spec_is_generated(c),
            },
    {
        let r = self.chunks.get(&c);
        proof {
            if self.chunks@.dom().contains(c) {
                assert(self@.dom().contains(c));
                assert(self@[c] == self.chunks@[c]@);
                assert(self@[c] == spec_chunk_voxels(self.spec_seed(), c));
                assert(self@[c].len() == crate::chunk_data::CHUNK_VOLUME);
            }
        }
        r
    }

    /// What the mesher sees of the six neighbours of `c`: the voxel grid
    /// of each generated neighbour, `None` for each ungenerated one.
    pub open spec fn spec_adjacent_views(self, c: ChunkCoordinate) -> Seq<Option<Seq<bool>>> {
        Seq::new(
            6,
            |d: int|
                if self@.dom().contains(c.spec_adjacent()[d]) {
                    Some(self@[c.spec_adjacent()[d]])
                } else {
                    None
                },
        )
    }

    /// The generated data of the six face neighbours of `c`, in adjacency
    /// order, `None` where a neighbour is not generated.
    fn adjacent_chunk_data(&self, c: ChunkCoordinate) -> (r: Vec<Option<ChunkData>>)
        requires
            self.wf(),
            c.in_bounds(),
        ensures
            r@.len() == 6,
            spec_neighbor_views(r@) == self.spec_adjacent_views(c),
            forall|i: int| 0 <= i < 6 ==> (#[trigger] r@[i]) is Some ==> (r@[i]->Some_0).wf(),
    {
        let adj = c.adjacent();
        let mut r: Vec<Option<ChunkData>> = Vec::new();
        let mut i: usize = 0;
        while i < 6
            invariant
                self.wf(),
                c.in_bounds(),
                adj@ == c.spec_adjacent(),
                adj@.len() == 6,
                i <= 6,
                r@.len() == i,
                forall|j: int| 0 <= j < i ==> (#[trigger] r@[j]) is Some ==> (r@[j]->Some_0).wf(),
                forall|j: int|
                    0 <= j < i ==> #[trigger] spec_neighbor_views(r@)[j]
                        == self.spec_adjacent_views(c)[j],
            decreases 6 - i,
        {
            let ghost prev = r@;
            match self.get_chunk_data(adj[i]) {
                Some(d) => {
                    r.push(Some(d.duplicate()));
                },
                None => {
                    r.push(None);
                },
            }
            proof {
                assert forall|j: int| 0 <= j < i + 1 implies #[trigger] spec_neighbor_views(r@)[j]
                    == self.spec_adjacent_views(c)[j] by {
                    if j < i {
                        assert(r@[j] == prev[j]);
                        assert(spec_neighbor_views(prev)[j] == self.spec_adjacent_views(c)[j]);
                    } else {
                        assert(r@[j] == r@.last());
                    }
                }
            }
            i += 1;
        }
        proof {
            assert(spec_neighbor_views(r@) =~= self.spec_adjacent_views(c));
        }
        r
    }

    /// The surface of the chunk at `c` against its generated neighbours,
    /// or `None` when `c` itself has not been generated.
    pub fn generate_chunk_mesh(&self, chunk_coord: ChunkCoordinate) -> (r: Option<Mesh>)
        requires
            self.wf(),
            chunk_coord.in_bounds(),
        ensures
            match r {
                Some(m) => self.spec_is_generated(chunk_coord) && spec_mesh_matches(
                    m,
                    self@[chunk_coord],
                    self.spec_adjacent_views(chunk_coord),
                ),
                None => !self.spec_is_generated(chunk_coord),
            },
    {
        match self.get_chunk_data(chunk_coord) {
            Some(data) => {
                let neighbors = self.adjacent_chunk_data(chunk_coord);
                Some(generate_mesh(data, &neighbors))
            },
            None => None,
        }
    }

    /// Whether the chunk at `c` has been generated.
    pub fn is_chunk_generated(&self, c: ChunkCoordinate) -> (r: bool)
        requires
            self.wf(),
        ensures
            r == self.spec_is_generated(c),
    {
        self.get_chunk_data(c).is_some()
    }

    /// Whether the chunk at `c` was generated and came out all air.
    /// An ungenerated chunk is not "empty": absence and emptiness are
    /// distinct, and callers must ask separately.
    pub fn is_chunk_empty(&self, c: ChunkCoordinate) -> (r: bool)
        requires
            self.wf(),
        ensures
            r == (self.spec_is_generated(c) && forall|i: int|
                0 <= i < self@[c].len() ==> !self@[c][i]),
    {
        match self.get_chunk_data(c) {
            Some(d) => d.empty(),
            None => false,
        }
    }

    /// Centre of the chunk at `c`, in world blocks.
    pub fn chunk_to_world(&self, chunk_coord: ChunkCoordinate) -> (r: Vector3i)
        requires
            chunk_coord.in_bounds(),
        ensures
            r.x == chunk_coord.x * CHUNK_SIZE + CHUNK_HALF,
            r.y == chunk_coord.y * CHUNK_SIZE + CHUNK_HALF,
            r.z == chunk_coord.z * CHUNK_SIZE + CHUNK_HALF,
    {
        Vector3i {
            x: chunk_coord.x * CHUNK_SIZE + CHUNK_HALF,
            y: chunk_coord.y * CHUNK_SIZE + CHUNK_HALF,
            z: chunk_coord.z * CHUNK_SIZE + CHUNK_HALF,
        }
    }

    /// The chunk containing the block at `block_coord`, by the truncating
    /// division the block grid uses.
    pub fn block_to_chunk_coordinate(&self, block_coord: Vector3i) -> (r: ChunkCoordinate)
        ensures
            r.x == div_trunc(block_coord.x as int, CHUNK_SIZE as int),
            r.y == div_trunc(block_coord.y as int, CHUNK_SIZE as int),
            r.z == div_trunc(block_coord.z as int, CHUNK_SIZE as int),
            r == spec_block_to_chunk(block_coord),
    {
        ChunkCoordinate {
            x: div_trunc_16(block_coord.x),
            y: div_trunc_16(block_coord.y),
            z: div_trunc_16(block_coord.z),
        }
    }
}

/// Truncating division of one component by the chunk edge length.
fn div_trunc_16(a: i64) -> (r: i64)
    ensures
        r == div_trunc(a as int, 16),
{
    if a >= 0 {
        ((a as u64) / 16) as i64
    } else {
        let q = (((-(a as i128)) as u64) / 16) as i64;
        -q
    }
}

} // verus!
