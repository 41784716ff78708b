//! Surface extraction with face culling.
//!
//! The mesher turns one chunk's voxels, together with its six face-adjacent
//! neighbours' voxels, into a quad mesh: every solid voxel emits one face
//! per direction whose adjacent voxel is not solid. A face on the chunk
//! boundary consults the neighbour chunk; an ungenerated neighbour (`None`)
//! counts as air, so boundary faces are emitted conservatively rather than
//! leaking holes when the neighbour appears later.
//!
//! Faces are wound counter-clockwise seen from outside the solid voxel, so
//! a renderer culling clockwise front faces shows the outside of the
//! terrain. Face `k` occupies vertices `4k .. 4k+4` and indices
//! `6k .. 6k+6`, two triangles over the quad.

use vstd::arithmetic::div_mod::lemma_fundamental_div_mod_converse;
use vstd::prelude::*;

use crate::chunk_data::{spec_voxel_index, ChunkData};
use crate::vec3::Vector3i;

verus! {

/// Total number of face slots in a chunk: one per voxel and direction.
pub const FACE_SLOTS: usize = 24576;

/// One mesh vertex: a local position within the chunk, the face's outward
/// normal, and a texture coordinate over the quad.
#[derive(Clone, Copy, PartialEq, Eq, Structural, Debug)]
pub struct Vertex {
    pub position: Vector3i,
    pub normal: Vector3i,
    pub uv_u: u8,
    pub uv_v: u8,
}

/// A renderable surface: a flat vertex buffer and a triangle index buffer.
#[derive(Clone, Debug)]
pub struct Mesh {
    pub vertices: Vec<Vertex>,
    pub indices: Vec<u32>,
}

/// Unit offset of face direction `d`, in the fixed order
/// +x, -x, +y, -y, +z, -z.
pub open spec fn spec_dir_offset(d: int) -> (int, int, int) {
    if d == 0 {
        (1, 0, 0)
    } else if d == 1 {
        (-1, 0, 0)
    } else if d == 2 {
        (0, 1, 0)
    } else if d == 3 {
        (0, -1, 0)
    } else if d == 4 {
        (0, 0, 1)
    } else {
        (0, 0, -1)
    }
}

/// A coordinate one step outside the chunk, wrapped to the matching
/// position inside the neighbour chunk.
pub open spec fn spec_wrap(v: int) -> int {
    if v < 0 {
        v + 16
    } else if v > 15 {
        v - 16
    } else {
        v
    }
}

/// Solidity of the voxel one step in direction `d` from local position
/// (x, y, z), read from the centre chunk or from the neighbour behind that
/// face. An absent neighbour counts as air.
pub open spec fn spec_neighbor_solid(
    center: Seq<bool>,
    nbrs: Seq<Option<Seq<bool>>>,
    x: int,
    y: int,
    z: int,
    d: int,
) -> bool {
    let nx = x + spec_dir_offset(d).0;
    let ny = y + spec_dir_offset(d).1;
    let nz = z + spec_dir_offset(d).2;
    if 0 <= nx < 16 && 0 <= ny < 16 && 0 <= nz < 16 {
        center[spec_voxel_index(nx, ny, nz)]
    } else if nbrs[d] is Some {
        (nbrs[d]->Some_0)[spec_voxel_index(spec_wrap(nx), spec_wrap(ny), spec_wrap(nz))]
    } else {
        false
    }
}

/// The face of voxel (x, y, z) in direction `d` is part of the surface:
/// the voxel is solid and the voxel behind the face is not.
pub open spec fn spec_face_visible(
    center: Seq<bool>,
    nbrs: Seq<Option<Seq<bool>>>,
    x: int,
    y: int,
    z: int,
    d: int,
) -> bool {
    center[spec_voxel_index(x, y, z)] && !spec_neighbor_solid(center, nbrs, x, y, z, d)
}

/// Visibility of face slot `s`, the slots running in lexicographic
/// (x, y, z, d) order.
pub open spec fn spec_slot_visible(center: Seq<bool>, nbrs: Seq<Option<Seq<bool>>>, s: int) -> bool {
    spec_face_visible(center, nbrs, s / 1536, (s / 96) % 16, (s / 6) % 16, s % 6)
}

/// Number of visible faces among the slots before `n`.
pub open spec fn spec_count_upto(
    center: Seq<bool>,
    nbrs: Seq<Option<Seq<bool>>>,
    n: int,
) -> int
    decreases n,
{
    if n <= 0 {
        0
    } else {
        spec_count_upto(center, nbrs, n - 1) + if spec_slot_visible(center, nbrs, n - 1) {
            1int
        } else {
            0int
        }
    }
}

/// Number of faces the surface of the chunk holds.
pub open spec fn spec_face_count(center: Seq<bool>, nbrs: Seq<Option<Seq<bool>>>) -> int {
    spec_count_upto(center, nbrs, FACE_SLOTS as int)
}

/// One vertex, from integer coordinates.
pub open spec fn spec_vert(
    px: int,
    py: int,
    pz: int,
    nx: int,
    ny: int,
    nz: int,
    u: int,
    v: int,
) -> Vertex {
    Vertex {
        position: Vector3i { x: px as i64, y: py as i64, z: pz as i64 },
        normal: Vector3i { x: nx as i64, y: ny as i64, z: nz as i64 },
        uv_u: u as u8,
        uv_v: v as u8,
    }
}

/// The four corners of the face of voxel (x, y, z) in direction `d`, wound
/// counter-clockwise seen from outside the voxel.
pub open spec fn spec_face_vertices(x: int, y: int, z: int, d: int) -> Seq<Vertex> {
    if d == 0 {
        seq![
            spec_vert(x + 1, y, z, 1, 0, 0, 0, 0),
            spec_vert(x + 1, y + 1, z, 1, 0, 0, 1, 0),
            spec_vert(x + 1, y + 1, z + 1, 1, 0, 0, 1, 1),
            spec_vert(x + 1, y, z + 1, 1, 0, 0, 0, 1),
        ]
    } else if d == 1 {
        seq![
            spec_vert(x, y, z, -1, 0, 0, 0, 0),
            spec_vert(x, y, z + 1, -1, 0, 0, 1, 0),
            spec_vert(x, y + 1, z + 1, -1, 0, 0, 1, 1),
            spec_vert(x, y + 1, z, -1, 0, 0, 0, 1),
        ]
    } else if d == 2 {
        seq![
            spec_vert(x, y + 1, z, 0, 1, 0, 0, 0),
            spec_vert(x, y + 1, z + 1, 0, 1, 0, 1, 0),
            spec_vert(x + 1, y + 1, z + 1, 0, 1, 0, 1, 1),
            spec_vert(x + 1, y + 1, z, 0, 1, 0, 0, 1),
        ]
    } else if d == 3 {
        seq![
            spec_vert(x, y, z, 0, -1, 0, 0, 0),
            spec_vert(x + 1, y, z, 0, -1, 0, 1, 0),
            spec_vert(x + 1, y, z + 1, 0, -1, 0, 1, 1),
            spec_vert(x, y, z + 1, 0, -1, 0, 0, 1),
        ]
    } else if d == 4 {
        seq![
            spec_vert(x, y, z + 1, 0, 0, 1, 0, 0),
            spec_vert(x + 1, y, z + 1, 0, 0, 1, 1, 0),
            spec_vert(x + 1, y + 1, z + 1, 0, 0, 1, 1, 1),
            spec_vert(x, y + 1, z + 1, 0, 0, 1, 0, 1),
        ]
    } else {
        seq![
            spec_vert(x, y, z, 0, 0, -1, 0, 0),
            spec_vert(x, y + 1, z, 0, 0, -1, 1, 0),
            spec_vert(x + 1, y + 1, z, 0, 0, -1, 1, 1),
            spec_vert(x + 1, y, z, 0, 0, -1, 0, 1),
        ]
    }
}

/// The corners of face slot `s`.
pub open spec fn spec_slot_vertices(s: int) -> Seq<Vertex> {
    spec_face_vertices(s / 1536, (s / 96) % 16, (s / 6) % 16, s % 6)
}

/// The six indices of face `k`: two counter-clockwise triangles over its
/// quad.
pub open spec fn spec_face_indices(k: int) -> Seq<u32> {
    seq![
        (4 * k) as u32,
        (4 * k + 1) as u32,
        (4 * k + 2) as u32,
        (4 * k) as u32,
        (4 * k + 2) as u32,
        (4 * k + 3) as u32,
    ]
}

/// The voxel views of the (up to) six neighbour chunks.
pub open spec fn spec_neighbor_views(ns: Seq<Option<ChunkData>>) -> Seq<Option<Seq<bool>>> {
    Seq::new(
        ns.len(),
        |i: int|
            if ns[i] is Some {
                Some((ns[i]->Some_0)@)
            } else {
                None
            },
    )
}

/// The buffers hold exactly the visible faces, in slot order: face `k`'s
/// corners at vertices `4k .. 4k+4` and its two triangles at indices
/// `6k .. 6k+6`.
pub open spec fn spec_mesh_prefix(
    verts: Seq<Vertex>,
    inds: Seq<u32>,
    center: Seq<bool>,
    nbrs: Seq<Option<Seq<bool>>>,
    s: int,
) -> bool {
    &&& verts.len() == 4 * spec_count_upto(center, nbrs, s)
    &&& inds.len() == 6 * spec_count_upto(center, nbrs, s)
    &&& forall|t: int|
        0 <= t < s && #[trigger] spec_slot_visible(center, nbrs, t) ==> verts.subrange(
            4 * spec_count_upto(center, nbrs, t),
            4 * spec_count_upto(center, nbrs, t) + 4,
        ) == spec_slot_vertices(t)
    &&& forall|k: int|
        0 <= k < spec_count_upto(center, nbrs, s) ==> inds.subrange(6 * k, 6 * k + 6)
            == #[trigger] spec_face_indices(k)
}

/// Face culling between mutually solid voxels, on any of the six sides:
/// when the voxel behind a face is solid — inside this chunk or in a
/// present neighbour — the face is not part of the surface, so no mesh
/// matching the surface holds its quad.
pub proof fn lemma_solid_neighbor_culls_face(
    center: Seq<bool>,
    nbrs: Seq<Option<Seq<bool>>>,
    x: int,
    y: int,
    z: int,
    d: int,
)
    requires
        spec_neighbor_solid(center, nbrs, x, y, z, d),
    ensures
        !spec_face_visible(center, nbrs, x, y, z, d),
{
}

/// The conservative boundary policy, on any of the six sides: a solid
/// voxel on the chunk boundary emits its outward face whenever the
/// neighbour chunk behind that face is unknown.
pub proof fn lemma_unknown_neighbor_emits_face(
    center: Seq<bool>,
    nbrs: Seq<Option<Seq<bool>>>,
    x: int,
    y: int,
    z: int,
    d: int,
)
    requires
        0 <= x < 16,
        0 <= y < 16,
        0 <= z < 16,
        0 <= d < 6,
        center[spec_voxel_index(x, y, z)],
        !(0 <= x + spec_dir_offset(d).0 < 16 && 0 <= y + spec_dir_offset(d).1 < 16 && 0 <= z
            + spec_dir_offset(d).2 < 16),
        nbrs[d] is None,
    ensures
        spec_face_visible(center, nbrs, x, y, z, d),
{
}

/// The mesh is exactly the surface of `center` against its neighbours.
pub open spec fn spec_mesh_matches(
    m: Mesh,
    center: Seq<bool>,
    nbrs: Seq<Option<Seq<bool>>>,
) -> bool {
    spec_mesh_prefix(m.vertices@, m.indices@, center, nbrs, FACE_SLOTS as int)
}

/// The face count never falls, and grows by at most one per slot.
proof fn lemma_count_bounds(center: Seq<bool>, nbrs: Seq<Option<Seq<bool>>>, n: int)
    ensures
        0 <= spec_count_upto(center, nbrs, n) <= if n >= 0 {
            n
        } else {
            0
        },
    decreases n,
{
    if n > 0 {
        lemma_count_bounds(center, nbrs, n - 1);
    }
}

/// Decomposition of a face slot back into voxel coordinates and direction.
proof fn lemma_slot_decompose(x: int, y: int, z: int, d: int)
    requires
        0 <= x < 16,
        0 <= y < 16,
        0 <= z < 16,
        0 <= d < 6,
    ensures
        0 <= ((x * 16 + y) * 16 + z) * 6 + d < 24576,
        (((x * 16 + y) * 16 + z) * 6 + d) / 1536 == x,
        ((((x * 16 + y) * 16 + z) * 6 + d) / 96) % 16 == y,
        ((((x * 16 + y) * 16 + z) * 6 + d) / 6) % 16 == z,
        (((x * 16 + y) * 16 + z) * 6 + d) % 6 == d,
{
    let s = ((x * 16 + y) * 16 + z) * 6 + d;
    lemma_fundamental_div_mod_converse(s, 1536, x, (y * 16 + z) * 6 + d);
    lemma_fundamental_div_mod_converse(s, 96, x * 16 + y, z * 6 + d);
    lemma_fundamental_div_mod_converse(s, 6, (x * 16 + y) * 16 + z, d);
    lemma_fundamental_div_mod_converse(x * 16 + y, 16, x, y);
    lemma_fundamental_div_mod_converse((x * 16 + y) * 16 + z, 16, x * 16 + y, z);
}

/// Solidity of the voxel one step in direction `d` from (x, y, z).
fn neighbor_solid(
    center: &ChunkData,
    neighbors: &Vec<Option<ChunkData>>,
    x: usize,
    y: usize,
    z: usize,
    d: usize,
) -> (r: bool)
    requires
        center.wf(),
        neighbors@.len() == 6,
        forall|i: int|
            0 <= i < 6 ==> (#[trigger] neighbors@[i]) is Some ==> (neighbors@[i]->Some_0).wf(),
        x < 16,
        y < 16,
        z < 16,
        d < 6,
    ensures
        r == spec_neighbor_solid(
            center@,
            spec_neighbor_views(neighbors@),
            x as int,
            y as int,
            z as int,
            d as int,
        ),
{
    let (dx, dy, dz): (i64, i64, i64) = match d {
        0 => (1, 0, 0),
        1 => (-1, 0, 0),
        2 => (0, 1, 0),
        3 => (0, -1, 0),
        _ => {
            if d == 4 {
                (0, 0, 1)
            } else {
                (0, 0, -1)
            }
        },
    };
    let nx = x as i64 + dx;
    let ny = y as i64 + dy;
    let nz = z as i64 + dz;
    if 0 <= nx && nx < 16 && 0 <= ny && ny < 16 && 0 <= nz && nz < 16 {
        center.voxel(nx as usize, ny as usize, nz as usize)
    } else {
        match &neighbors[d] {
            Some(nb) => {
                let wx = if nx < 0 {
                    nx + 16
                } else if nx > 15 {
                    nx - 16
                } else {
                    nx
                };
                let wy = if ny < 0 {
                    ny + 16
                } else if ny > 15 {
                    ny - 16
                } else {
                    ny
                };
                let wz = if nz < 0 {
                    nz + 16
                } else if nz > 15 {
                    nz - 16
                } else {
                    nz
                };
                nb.voxel(wx as usize, wy as usize, wz as usize)
            },
            None => false,
        }
    }
}

/// Appends the four corners of one face.
fn emit_face_vertices(vertices: &mut Vec<Vertex>, x: i64, y: i64, z: i64, d: usize)
    requires
        0 <= x < 16,
        0 <= y < 16,
        0 <= z < 16,
        d < 6,
    ensures
        final(vertices)@ == old(vertices)@ + spec_face_vertices(
            x as int,
            y as int,
            z as int,
            d as int,
        ),
{
    let quad: [Vertex; 4] = match d {
        0 => [
            vert(x + 1, y, z, 1, 0, 0, 0, 0),
            vert(x + 1, y + 1, z, 1, 0, 0, 1, 0),
            vert(x + 1, y + 1, z + 1, 1, 0, 0, 1, 1),
            vert(x + 1, y, z + 1, 1, 0, 0, 0, 1),
        ],
        1 => [
            vert(x, y, z, -1, 0, 0, 0, 0),
            vert(x, y, z + 1, -1, 0, 0, 1, 0),
            vert(x, y + 1, z + 1, -1, 0, 0, 1, 1),
            vert(x, y + 1, z, -1, 0, 0, 0, 1),
        ],
        2 => [
            vert(x, y + 1, z, 0, 1, 0, 0, 0),
            vert(x, y + 1, z + 1, 0, 1, 0, 1, 0),
            vert(x + 1, y + 1, z + 1, 0, 1, 0, 1, 1),
            vert(x + 1, y + 1, z, 0, 1, 0, 0, 1),
        ],
        3 => [
            vert(x, y, z, 0, -1, 0, 0, 0),
            vert(x + 1, y, z, 0, -1, 0, 1, 0),
            vert(x + 1, y, z + 1, 0, -1, 0, 1, 1),
            vert(x, y, z + 1, 0, -1, 0, 0, 1),
        ],
        _ => {
            if d == 4 {
                [
                    vert(x, y, z + 1, 0, 0, 1, 0, 0),
                    vert(x + 1, y, z + 1, 0, 0, 1, 1, 0),
                    vert(x + 1, y + 1, z + 1, 0, 0, 1, 1, 1),
                    vert(x, y + 1, z + 1, 0, 0, 1, 0, 1),
                ]
            } else {
                [
                    vert(x, y, z, 0, 0, -1, 0, 0),
                    vert(x, y + 1, z, 0, 0, -1, 1, 0),
                    vert(x + 1, y + 1, z, 0, 0, -1, 1, 1),
                    vert(x + 1, y, z, 0, 0, -1, 0, 1),
                ]
            }
        },
    };
    vertices.push(quad[0]);
    vertices.push(quad[1]);
    vertices.push(quad[2]);
    vertices.push(quad[3]);
    proof {
        assert(final(vertices)@ =~= old(vertices)@ + spec_face_vertices(
            x as int,
            y as int,
            z as int,
            d as int,
        ));
    }
}

/// One vertex, from machine integers.
fn vert(px: i64, py: i64, pz: i64, nx: i64, ny: i64, nz: i64, u: u8, v: u8) -> (r: Vertex)
    ensures
        r == spec_vert(px as int, py as int, pz as int, nx as int, ny as int, nz as int, u as int, v as int),
{
    Vertex {
        position: Vector3i { x: px, y: py, z: pz },
        normal: Vector3i { x: nx, y: ny, z: nz },
        uv_u: u,
        uv_v: v,
    }
}

/// Appends the six indices of face `k`.
fn emit_face_indices(indices: &mut Vec<u32>, k: usize)
    requires
        k < 24576,
    ensures
        final(indices)@ == old(indices)@ + spec_face_indices(k as int),
{
    let base = (k * 4) as u32;
    indices.push(base);
    indices.push(base + 1);
    indices.push(base + 2);
    indices.push(base);
    indices.push(base + 2);
    indices.push(base + 3);
    proof {
        assert(final(indices)@ =~= old(indices)@ + spec_face_indices(k as int));
    }
}

/// Extracts the surface of `center` against its six neighbours: one quad
/// for every solid voxel face whose far side is not solid, in slot order.
#[verifier::rlimit(100)]
pub fn generate_mesh(center: &ChunkData, neighbors: &Vec<Option<ChunkData>>) -> (m: Mesh)
    requires
        center.wf(),
        neighbors@.len() == 6,
        forall|i: int|
            0 <= i < 6 ==> (#[trigger] neighbors@[i]) is Some ==> (neighbors@[i]->Some_0).wf(),
    ensures
        spec_mesh_matches(m, center@, spec_neighbor_views(neighbors@)),
{
    let ghost cv = center@;
    let ghost nv = spec_neighbor_views(neighbors@);
    let mut vertices: Vec<Vertex> = Vec::new();
    let mut indices: Vec<u32> = Vec::new();
    let mut count: usize = 0;
    let mut x: usize = 0;
    while x < 16
        invariant
            center.wf(),
            neighbors@.len() == 6,
            forall|i: int|
                0 <= i < 6 ==> (#[trigger] neighbors@[i]) is Some ==> (neighbors@[i]->Some_0).wf(),
            cv == center@,
            nv == spec_neighbor_views(neighbors@),
            x <= 16,
            count == spec_count_upto(cv, nv, x as int * 1536),
            spec_mesh_prefix(vertices@, indices@, cv, nv, x as int * 1536),
        decreases 16 - x,
    {
        let mut y: usize = 0;
        while y < 16
            invariant
                center.wf(),
                neighbors@.len() == 6,
                forall|i: int|
                    0 <= i < 6 ==> (#[trigger] neighbors@[i]) is Some ==> (
                    neighbors@[i]->Some_0).wf(),
                cv == center@,
                nv == spec_neighbor_views(neighbors@),
                x < 16,
                y <= 16,
                count == spec_count_upto(cv, nv, x as int * 1536 + y as int * 96),
                spec_mesh_prefix(vertices@, indices@, cv, nv, x as int * 1536 + y as int * 96),
            decreases 16 - y,
        {
            let mut z: usize = 0;
            while z < 16
                invariant
                    center.wf(),
                    neighbors@.len() == 6,
                    forall|i: int|
                        0 <= i < 6 ==> (#[trigger] neighbors@[i]) is Some ==> (
                        neighbors@[i]->Some_0).wf(),
                    cv == center@,
                    nv == spec_neighbor_views(neighbors@),
                    x < 16,
                    y < 16,
                    z <= 16,
                    count == spec_count_upto(
                        cv,
                        nv,
                        x as int * 1536 + y as int * 96 + z as int * 6,
                    ),
                    spec_mesh_prefix(
                        vertices@,
                        indices@,
                        cv,
                        nv,
                        x as int * 1536 + y as int * 96 + z as int * 6,
                    ),
                decreases 16 - z,
            {
                let solid = center.voxel(x, y, z);
                let mut d: usize = 0;
                while d < 6
                    invariant
                        center.wf(),
                        neighbors@.len() == 6,
                        forall|i: int|
                            0 <= i < 6 ==> (#[trigger] neighbors@[i]) is Some ==> (
                            neighbors@[i]->Some_0).wf(),
                        cv == center@,
                        nv == spec_neighbor_views(neighbors@),
                        x < 16,
                        y < 16,
                        z < 16,
                        d <= 6,
                        solid == cv[spec_voxel_index(x as int, y as int, z as int)],
                        count == spec_count_upto(
                            cv,
                            nv,
                            x as int * 1536 + y as int * 96 + z as int * 6 + d as int,
                        ),
                        spec_mesh_prefix(
                            vertices@,
                            indices@,
                            cv,
                            nv,
                            x as int * 1536 + y as int * 96 + z as int * 6 + d as int,
                        ),
                    decreases 6 - d,
                {
                    let ghost s = x as int * 1536 + y as int * 96 + z as int * 6 + d as int;
                    proof {
                        lemma_slot_decompose(x as int, y as int, z as int, d as int);
                        lemma_count_bounds(cv, nv, s);
                    }
                    let visible = solid && !neighbor_solid(center, neighbors, x, y, z, d);
                    proof {
                        assert(visible == spec_slot_visible(cv, nv, s));
                        assert(spec_count_upto(cv, nv, s + 1) == spec_count_upto(cv, nv, s)
                            + if spec_slot_visible(cv, nv, s) {
                            1int
                        } else {
                            0int
                        });
                    }
                    if visible {
                        let ghost old_verts = vertices@;
                        let ghost old_inds = indices@;
                        emit_face_vertices(&mut vertices, x as i64, y as i64, z as i64, d);
                        emit_face_indices(&mut indices, count);
                        count += 1;
                        proof {
                            assert forall|t: int|
                                0 <= t < s + 1 && #[trigger] spec_slot_visible(cv, nv, t)
                                implies vertices@.subrange(
                                4 * spec_count_upto(cv, nv, t),
                                4 * spec_count_upto(cv, nv, t) + 4,
                            ) == spec_slot_vertices(t) by {
                                lemma_count_bounds(cv, nv, t);
                                if t < s {
                                    lemma_count_mono(cv, nv, t + 1, s);
                                    assert(old_verts.subrange(
                                        4 * spec_count_upto(cv, nv, t),
                                        4 * spec_count_upto(cv, nv, t) + 4,
                                    ) == spec_slot_vertices(t));
                                    assert(vertices@.subrange(
                                        4 * spec_count_upto(cv, nv, t),
                                        4 * spec_count_upto(cv, nv, t) + 4,
                                    ) =~= old_verts.subrange(
                                        4 * spec_count_upto(cv, nv, t),
                                        4 * spec_count_upto(cv, nv, t) + 4,
                                    ));
                                } else {
                                    assert(spec_count_upto(cv, nv, t) == count - 1);
                                    assert(vertices@.subrange(
                                        4 * (count - 1),
                                        4 * (count - 1) + 4,
                                    ) =~= spec_face_vertices(
                                        x as int,
                                        y as int,
                                        z as int,
                                        d as int,
                                    ));
                                    assert(spec_slot_vertices(t) == spec_face_vertices(
                                        x as int,
                                        y as int,
                                        z as int,
                                        d as int,
                                    ));
                                }
                            }
                            assert forall|k: int| 0 <= k < spec_count_upto(cv, nv, s + 1)
                                implies indices@.subrange(6 * k, 6 * k + 6)
                                == #[trigger] spec_face_indices(k) by {
                                if k < count - 1 {
                                    assert(old_inds.subrange(6 * k, 6 * k + 6)
                                        == spec_face_indices(k));
                                    assert(indices@.subrange(6 * k, 6 * k + 6)
                                        =~= old_inds.subrange(6 * k, 6 * k + 6));
                                } else {
                                    assert(k == count - 1);
                                    assert(indices@.subrange(6 * k, 6 * k + 6)
                                        =~= spec_face_indices(k));
                                }
                            }
                        }
                    } else {
                        proof {
                            assert(spec_count_upto(cv, nv, s + 1) == count);
                        }
                    }
                    d += 1;
                }
                z += 1;
            }
            y += 1;
        }
        x += 1;
    }
    Mesh { vertices, indices }
}

/// More slots never mean fewer visible faces.
proof fn lemma_count_mono(center: Seq<bool>, nbrs: Seq<Option<Seq<bool>>>, a: int, b: int)
    requires
        a <= b,
    ensures
        spec_count_upto(center, nbrs, a) <= spec_count_upto(center, nbrs, b),
    decreases b - a,
{
    if a < b {
        lemma_count_mono(center, nbrs, a, b - 1);
    }
}

} // verus!
