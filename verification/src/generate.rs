//! Deterministic world generation.
//!
//! A chunk's voxel contents are a pure function of the world seed and the
//! chunk coordinate: a seeded noise lattice gives each world column a
//! terrain height by bilinear interpolation, and a voxel is solid exactly
//! when it lies below its column's height. The lattice values come from the
//! outside noise library's seeded permutation table through one trusted
//! wrapper; the interpolation and everything above it is verified.

use vstd::arithmetic::div_mod::lemma_fundamental_div_mod_converse;
use vstd::prelude::*;

use crate::chunk_data::{ChunkData, CHUNK_VOLUME};
use crate::coord::ChunkCoordinate;

verus! {

/// Distance in blocks between two noise lattice columns.
pub const LATTICE_SPACING: i64 = 64;

/// Shift applied to world block coordinates before lattice indexing, so the
/// division and remainder below always see a non-negative value. A multiple
/// of `LATTICE_SPACING`, so it never moves a column within its cell.
pub const LATTICE_OFFSET: i64 = 1073741824;

/// One more than the largest terrain height, in blocks above world zero.
pub const MAX_TERRAIN_HEIGHT: i64 = 32;

/// The byte the outside noise library's seeded permutation table hashes one
/// lattice point to.
pub uninterp spec fn lattice_noise_of(seed: int, u: int, v: int) -> int;

/// Hashes one noise lattice point under the world seed.
///
/// Relies on `noise::permutationtable::PermutationTable::new`, which fills
/// the table as a pure function of its `u32` seed, and on the table's
/// `NoiseHasher::hash` impl, which maps a point to one of the table's 256
/// byte values as a pure function of table and point.
#[verifier::external_body]
fn lattice_noise(seed: u32, u: i64, v: i64) -> (r: u8)
    ensures
        r as int == lattice_noise_of(seed as int, u as int, v as int),
{
    let table = noise::permutationtable::PermutationTable::new(seed);
    noise::permutationtable::NoiseHasher::hash(&table, &[u as isize, v as isize]) as u8
}

/// Lattice cell index of the world column coordinate `w`.
pub open spec fn spec_cell(w: int) -> int {
    (w + LATTICE_OFFSET) / (LATTICE_SPACING as int)
}

/// Position of the world column coordinate `w` within its lattice cell.
pub open spec fn spec_frac(w: int) -> int {
    (w + LATTICE_OFFSET) % (LATTICE_SPACING as int)
}

/// Terrain height of the world column (wx, wz): the four surrounding
/// lattice bytes interpolated bilinearly, scaled to `0 .. MAX_TERRAIN_HEIGHT`.
pub open spec fn spec_column_height(seed: int, wx: int, wz: int) -> int {
    let fx = spec_frac(wx);
    let fz = spec_frac(wz);
    let h00 = lattice_noise_of(seed, spec_cell(wx), spec_cell(wz));
    let h10 = lattice_noise_of(seed, spec_cell(wx) + 1, spec_cell(wz));
    let h01 = lattice_noise_of(seed, spec_cell(wx), spec_cell(wz) + 1);
    let h11 = lattice_noise_of(seed, spec_cell(wx) + 1, spec_cell(wz) + 1);
    (h00 * (64 - fx) * (64 - fz) + h10 * fx * (64 - fz) + h01 * (64 - fx) * fz + h11 * fx * fz)
        / 32768
}

/// A voxel is solid exactly when it lies below its column's terrain height.
pub open spec fn spec_solid(seed: int, wx: int, wy: int, wz: int) -> bool {
    wy < spec_column_height(seed, wx, wz)
}

/// The voxel grid of the chunk at `c`, flat index decomposed as
/// x = i / 256, y = (i / 16) % 16, z = i % 16.
pub open spec fn spec_chunk_voxels(seed: int, c: ChunkCoordinate) -> Seq<bool> {
    Seq::new(
        CHUNK_VOLUME as nat,
        |i: int| spec_solid(seed, c.x * 16 + i / 256, c.y * 16 + (i / 16) % 16, c.z * 16 + i % 16),
    )
}

/// Terrain height of the world column (wx, wz).
pub fn column_height(seed: u32, wx: i64, wz: i64) -> (h: i64)
    requires
        -67108864 <= wx <= 67108864,
        -67108864 <= wz <= 67108864,
    ensures
        h == spec_column_height(seed as int, wx as int, wz as int),
        0 <= h < MAX_TERRAIN_HEIGHT,
{
    let tx = (wx + LATTICE_OFFSET) as u64;
    let tz = (wz + LATTICE_OFFSET) as u64;
    let x0 = (tx / 64) as i64;
    let z0 = (tz / 64) as i64;
    let fx = tx % 64;
    let fz = tz % 64;
    let h00 = lattice_noise(seed, x0, z0) as u64;
    let h10 = lattice_noise(seed, x0 + 1, z0) as u64;
    let h01 = lattice_noise(seed, x0, z0 + 1) as u64;
    let h11 = lattice_noise(seed, x0 + 1, z0 + 1) as u64;
    let gx = 64 - fx;
    let gz = 64 - fz;
    proof {
        lemma_interp_bound(h00 as int, h10 as int, h01 as int, h11 as int, fx as int, fz as int);
        assert(h00 * gx <= 16320 && h00 * gx * gz <= 1044480 && h10 * fx <= 16320 && h10 * fx * gz
            <= 1044480 && h01 * gx <= 16320 && h01 * gx * fz <= 1044480 && h11 * fx <= 16320 && h11
            * fx * fz <= 1044480) by (nonlinear_arith)
            requires
                h00 <= 255u64 && h10 <= 255u64 && h01 <= 255u64 && h11 <= 255u64 && fx < 64u64
                    && fz < 64u64 && gx == 64 - fx && gz == 64 - fz,
        ;
    }
    let interp = h00 * gx * gz + h10 * fx * gz + h01 * gx * fz + h11 * fx * fz;
    (interp / 32768) as i64
}

/// Each term of the bilinear blend is bounded by its byte value times the
/// full cell area, so the blend stays below 256 times the cell area.
proof fn lemma_interp_bound(h00: int, h10: int, h01: int, h11: int, fx: int, fz: int)
    requires
        0 <= h00 < 256,
        0 <= h10 < 256,
        0 <= h01 < 256,
        0 <= h11 < 256,
        0 <= fx < 64,
        0 <= fz < 64,
    ensures
        0 <= h00 * (64 - fx) * (64 - fz) + h10 * fx * (64 - fz) + h01 * (64 - fx) * fz + h11 * fx
            * fz < 1048576,
{
    assert(0 <= h00 * (64 - fx) * (64 - fz) + h10 * fx * (64 - fz) + h01 * (64 - fx) * fz + h11
        * fx * fz < 1048576) by (nonlinear_arith)
        requires
            0 <= h00 < 256,
            0 <= h10 < 256,
            0 <= h01 < 256,
            0 <= h11 < 256,
            0 <= fx < 64,
            0 <= fz < 64,
    ;
}

/// Decomposition of a flat voxel index back into local coordinates.
proof fn lemma_voxel_index(x: int, y: int, z: int)
    requires
        0 <= x < 16,
        0 <= y < 16,
        0 <= z < 16,
    ensures
        0 <= (x * 16 + y) * 16 + z < 4096,
        ((x * 16 + y) * 16 + z) / 256 == x,
        (((x * 16 + y) * 16 + z) / 16) % 16 == y,
        ((x * 16 + y) * 16 + z) % 16 == z,
{
    let i = (x * 16 + y) * 16 + z;
    lemma_fundamental_div_mod_converse(i, 256, x, y * 16 + z);
    lemma_fundamental_div_mod_converse(i, 16, x * 16 + y, z);
    lemma_fundamental_div_mod_converse(x * 16 + y, 16, x, y);
}

/// Generates the voxel contents of the chunk at `c` for the given seed.
/// The result is a pure function of the seed and the coordinate, so two
/// calls with equal arguments yield identical data.
pub fn generate_chunk_data(seed: u32, c: ChunkCoordinate) -> (r: ChunkData)
    requires
        c.in_bounds(),
    ensures
        r.wf(),
        r@ == spec_chunk_voxels(seed as int, c),
{
    // Terrain heights of the 16 x 16 columns the chunk covers, indexed by
    // x * 16 + z.
    let mut heights: Vec<i64> = Vec::new();
    let mut x: usize = 0;
    while x < 16
        invariant
            c.in_bounds(),
            x <= 16,
            heights@.len() == x * 16,
            forall|j: int|
                0 <= j < heights@.len() ==> #[trigger] heights@[j] == spec_column_height(
                    seed as int,
                    c.x * 16 + j / 16,
                    c.z * 16 + j % 16,
                ),
        decreases 16 - x,
    {
        let mut z: usize = 0;
        while z < 16
            invariant
                c.in_bounds(),
                x < 16,
                z <= 16,
                heights@.len() == x * 16 + z,
                forall|j: int|
                    0 <= j < heights@.len() ==> #[trigger] heights@[j] == spec_column_height(
                        seed as int,
                        c.x * 16 + j / 16,
                        c.z * 16 + j % 16,
                    ),
            decreases 16 - z,
        {
            let wx = c.x * 16 + x as i64;
            let wz = c.z * 16 + z as i64;
            let h = column_height(seed, wx, wz);
            heights.push(h);
            proof {
                lemma_fundamental_div_mod_converse(
                    x as int * 16 + z as int,
                    16,
                    x as int,
                    z as int,
                );
            }
            z += 1;
        }
        x += 1;
    }
    let mut voxels: Vec<bool> = Vec::new();
    let mut x: usize = 0;
    while x < 16
        invariant
            c.in_bounds(),
            x <= 16,
            heights@.len() == 256,
            forall|j: int|
                0 <= j < 256 ==> #[trigger] heights@[j] == spec_column_height(
                    seed as int,
                    c.x * 16 + j / 16,
                    c.z * 16 + j % 16,
                ),
            voxels@.len() == x * 256,
            forall|j: int|
                0 <= j < voxels@.len() ==> #[trigger] voxels@[j] == spec_chunk_voxels(
                    seed as int,
                    c,
                )[j],
        decreases 16 - x,
    {
        let mut y: usize = 0;
        while y < 16
            invariant
                c.in_bounds(),
                x < 16,
                y <= 16,
                heights@.len() == 256,
                forall|j: int|
                    0 <= j < 256 ==> #[trigger] heights@[j] == spec_column_height(
                        seed as int,
                        c.x * 16 + j / 16,
                        c.z * 16 + j % 16,
                    ),
                voxels@.len() == x * 256 + y * 16,
                forall|j: int|
                    0 <= j < voxels@.len() ==> #[trigger] voxels@[j] == spec_chunk_voxels(
                        seed as int,
                        c,
                    )[j],
            decreases 16 - y,
        {
            let mut z: usize = 0;
            while z < 16
                invariant
                    c.in_bounds(),
                    x < 16,
                    y < 16,
                    z <= 16,
                    heights@.len() == 256,
                    forall|j: int|
                        0 <= j < 256 ==> #[trigger] heights@[j] == spec_column_height(
                            seed as int,
                            c.x * 16 + j / 16,
                            c.z * 16 + j % 16,
                        ),
                    voxels@.len() == x * 256 + y * 16 + z,
                    forall|j: int|
                        0 <= j < voxels@.len() ==> #[trigger] voxels@[j] == spec_chunk_voxels(
                            seed as int,
                            c,
                        )[j],
                decreases 16 - z,
            {
                let h = heights[x * 16 + z];
                let wy = c.y * 16 + y as i64;
                voxels.push(wy < h);
                proof {
                    lemma_voxel_index(x as int, y as int, z as int);
                    lemma_fundamental_div_mod_converse(
                        x as int * 16 + z as int,
                        16,
                        x as int,
                        z as int,
                    );
                    assert(voxels@.last() == spec_chunk_voxels(seed as int, c)[x as int * 256 + y
                        as int * 16 + z as int]);
                }
                z += 1;
            }
            y += 1;
        }
        x += 1;
    }
    ChunkData::from_voxels(voxels)
}

} // verus!
