//! Visibility-driven chunk selection.
//!
//! Two algorithms serve two needs. `select_chunks` is the coarse candidate
//! enumeration for streaming: a breadth-first expansion over chunk
//! adjacency from the viewer's chunk, bounded by a Chebyshev radius,
//! entering a neighbour only when the direction to it lies in a forward
//! cone of the view direction. `sort_by_camera_direction` orders candidate
//! chunks for loading, nearer and more forward-aligned chunks first.
//!
//! All geometry is exact: directions are fixed-point vectors, the cone
//! test compares squared integers, and the load order compares the exact
//! rationals that stand behind the floating-point scores a renderer would
//! use, so no rounding ever reorders two chunks.

use vstd::prelude::*;
use vstd::seq_lib::lemma_seq_contains_after_push;
use vstd::set_lib::{lemma_int_range, lemma_len_subset, set_int_range};

use crate::coord::{lemma_chebyshev_adjacent, ChunkCoordinate, COORD_LIMIT};
use crate::vec3::{lemma_mul_bound, Vector3i, DIR_SCALE};

verus! {

/// Difference of the two chunks' centre positions along one axis is 16
/// times the coordinate difference, so the cone and ordering tests work on
/// coordinate differences directly.
///
/// The direction from `from` to `to` lies within the forward cone: its
/// angle to `forward` has cosine above one half. Written over integers:
/// `2 * dot > |forward| * |diff|` with `forward` scaled by `DIR_SCALE`,
/// squared once both sides are known non-negative. The zero vector lies in
/// no cone.
pub open spec fn spec_forward_aligned(
    forward: Vector3i,
    from: ChunkCoordinate,
    to: ChunkCoordinate,
) -> bool {
    let dx = to.x - from.x;
    let dy = to.y - from.y;
    let dz = to.z - from.z;
    let dot = forward.x * dx + forward.y * dy + forward.z * dz;
    let norm2 = dx * dx + dy * dy + dz * dz;
    dot > 0 && 4 * (dot * dot) > (DIR_SCALE * DIR_SCALE) * norm2
}

/// Whether the chunk `to` lies in the forward cone seen from `from`.
pub fn forward_aligned(forward: &Vector3i, from: &ChunkCoordinate, to: &ChunkCoordinate) -> (r:
    bool)
    requires
        forward.within(2 * DIR_SCALE),
        from.within(COORD_LIMIT + 2),
        to.within(COORD_LIMIT + 2),
    ensures
        r == spec_forward_aligned(*forward, *from, *to),
{
    let dx = (to.x - from.x) as i128;
    let dy = (to.y - from.y) as i128;
    let dz = (to.z - from.z) as i128;
    let fx = forward.x as i128;
    let fy = forward.y as i128;
    let fz = forward.z as i128;
    proof {
        lemma_mul_bound(fx as int, dx as int, 256, 0x300000);
        lemma_mul_bound(fy as int, dy as int, 256, 0x300000);
        lemma_mul_bound(fz as int, dz as int, 256, 0x300000);
        lemma_mul_bound(dx as int, dx as int, 0x300000, 0x300000);
        lemma_mul_bound(dy as int, dy as int, 0x300000, 0x300000);
        lemma_mul_bound(dz as int, dz as int, 0x300000, 0x300000);
    }
    let dot = fx * dx + fy * dy + fz * dz;
    let norm2 = dx * dx + dy * dy + dz * dz;
    proof {
        lemma_mul_bound(dot as int, dot as int, 0x300000000, 0x300000000);
        lemma_mul_bound((DIR_SCALE * DIR_SCALE) as int, norm2 as int, 16384, 0x1b0000000000);
    }
    dot > 0 && 4 * (dot * dot) > (DIR_SCALE as i128 * DIR_SCALE as i128) * norm2
}

/// Numerator of a chunk's load-order score: the view direction dotted with
/// the vector from the chunk towards the camera. Forward chunks score
/// negative, so they sort first under ascending order.
pub open spec fn spec_score_num(
    forward: Vector3i,
    camera_chunk: ChunkCoordinate,
    c: ChunkCoordinate,
) -> int {
    forward.x * (camera_chunk.x - c.x) + forward.y * (camera_chunk.y - c.y) + forward.z * (
    camera_chunk.z - c.z)
}

/// Denominator of a chunk's load-order score: its squared distance to the
/// camera chunk. Zero exactly for the camera chunk itself.
pub open spec fn spec_score_den(camera_chunk: ChunkCoordinate, c: ChunkCoordinate) -> int {
    camera_chunk.spec_distance_squared(c)
}

/// The load order: `c1` loads no later than `c2`. The camera's own chunk
/// sorts before everything (the zero-distance guard: its score stands for
/// negative infinity, so the ratio below is never formed for it); other
/// pairs compare the exact rationals num/den by cross-multiplication.
pub open spec fn spec_score_le(
    forward: Vector3i,
    camera_chunk: ChunkCoordinate,
    c1: ChunkCoordinate,
    c2: ChunkCoordinate,
) -> bool {
    let n1 = spec_score_num(forward, camera_chunk, c1);
    let d1 = spec_score_den(camera_chunk, c1);
    let n2 = spec_score_num(forward, camera_chunk, c2);
    let d2 = spec_score_den(camera_chunk, c2);
    if d1 == 0 {
        true
    } else if d2 == 0 {
        false
    } else {
        n1 * d2 <= n2 * d1
    }
}

/// Squared distances are never negative.
proof fn lemma_den_nonneg(camera_chunk: ChunkCoordinate, c: ChunkCoordinate)
    ensures
        spec_score_den(camera_chunk, c) >= 0,
{
    let dx = camera_chunk.x - c.x;
    let dy = camera_chunk.y - c.y;
    let dz = camera_chunk.z - c.z;
    assert(dx * dx + dy * dy + dz * dz >= 0) by (nonlinear_arith);
}

/// The load order is total: of any two chunks, one loads no later than the
/// other.
pub proof fn lemma_score_total(
    forward: Vector3i,
    camera_chunk: ChunkCoordinate,
    c1: ChunkCoordinate,
    c2: ChunkCoordinate,
)
    ensures
        spec_score_le(forward, camera_chunk, c1, c2) || spec_score_le(
            forward,
            camera_chunk,
            c2,
            c1,
        ),
{
}

/// The load order is transitive.
pub proof fn lemma_score_trans(
    forward: Vector3i,
    camera_chunk: ChunkCoordinate,
    c1: ChunkCoordinate,
    c2: ChunkCoordinate,
    c3: ChunkCoordinate,
)
    requires
        spec_score_le(forward, camera_chunk, c1, c2),
        spec_score_le(forward, camera_chunk, c2, c3),
    ensures
        spec_score_le(forward, camera_chunk, c1, c3),
{
    let n1 = spec_score_num(forward, camera_chunk, c1);
    let d1 = spec_score_den(camera_chunk, c1);
    let n2 = spec_score_num(forward, camera_chunk, c2);
    let d2 = spec_score_den(camera_chunk, c2);
    let n3 = spec_score_num(forward, camera_chunk, c3);
    let d3 = spec_score_den(camera_chunk, c3);
    lemma_den_nonneg(camera_chunk, c1);
    lemma_den_nonneg(camera_chunk, c2);
    lemma_den_nonneg(camera_chunk, c3);
    if d1 != 0 && d2 != 0 && d3 != 0 {
        assert(n1 * d3 <= n3 * d1) by (nonlinear_arith)
            requires
                n1 * d2 <= n2 * d1,
                n2 * d3 <= n3 * d2,
                d1 > 0,
                d2 > 0,
                d3 > 0,
        ;
    }
}

/// Whether `c1` loads no later than `c2` under the camera's view.
pub fn score_le(
    forward: &Vector3i,
    camera_chunk: &ChunkCoordinate,
    c1: &ChunkCoordinate,
    c2: &ChunkCoordinate,
) -> (r: bool)
    requires
        forward.within(2 * DIR_SCALE),
        camera_chunk.in_bounds(),
        c1.in_bounds(),
        c2.in_bounds(),
    ensures
        r == spec_score_le(*forward, *camera_chunk, *c1, *c2),
{
    let n1 = score_num(forward, camera_chunk, c1);
    let d1 = score_den(camera_chunk, c1);
    let n2 = score_num(forward, camera_chunk, c2);
    let d2 = score_den(camera_chunk, c2);
    proof {
        lemma_mul_bound(n1 as int, d2 as int, 0x100000000, 0x400000000000);
        lemma_mul_bound(n2 as int, d1 as int, 0x100000000, 0x400000000000);
    }
    if d1 == 0 {
        true
    } else if d2 == 0 {
        false
    } else {
        n1 * d2 <= n2 * d1
    }
}

/// Score numerator, exactly.
fn score_num(forward: &Vector3i, camera_chunk: &ChunkCoordinate, c: &ChunkCoordinate) -> (r: i128)
    requires
        forward.within(2 * DIR_SCALE),
        camera_chunk.in_bounds(),
        c.in_bounds(),
    ensures
        r == spec_score_num(*forward, *camera_chunk, *c),
        -0x100000000 <= r <= 0x100000000,
{
    let dx = (camera_chunk.x - c.x) as i128;
    let dy = (camera_chunk.y - c.y) as i128;
    let dz = (camera_chunk.z - c.z) as i128;
    proof {
        lemma_mul_bound(forward.x as int, dx as int, 256, 0x200000);
        lemma_mul_bound(forward.y as int, dy as int, 256, 0x200000);
        lemma_mul_bound(forward.z as int, dz as int, 256, 0x200000);
    }
    forward.x as i128 * dx + forward.y as i128 * dy + forward.z as i128 * dz
}

/// Score denominator, exactly.
fn score_den(camera_chunk: &ChunkCoordinate, c: &ChunkCoordinate) -> (r: i128)
    requires
        camera_chunk.in_bounds(),
        c.in_bounds(),
    ensures
        r == spec_score_den(*camera_chunk, *c),
        0 <= r <= 0x400000000000,
{
    let dx = (camera_chunk.x - c.x) as i128;
    let dy = (camera_chunk.y - c.y) as i128;
    let dz = (camera_chunk.z - c.z) as i128;
    proof {
        lemma_mul_bound(dx as int, dx as int, 0x200000, 0x200000);
        lemma_mul_bound(dy as int, dy as int, 0x200000, 0x200000);
        lemma_mul_bound(dz as int, dz as int, 0x200000, 0x200000);
        lemma_den_nonneg(*camera_chunk, *c);
    }
    dx * dx + dy * dy + dz * dz
}

/// The sequence is ordered for loading: every earlier chunk loads no later
/// than every later one.
pub open spec fn spec_sorted_by_score(
    forward: Vector3i,
    camera_chunk: ChunkCoordinate,
    s: Seq<ChunkCoordinate>,
) -> bool {
    forall|i: int, j: int|
        0 <= i < j < s.len() ==> spec_score_le(forward, camera_chunk, #[trigger] s[i], #[trigger] s[j])
}

/// Reorders `chunks` for loading: nearer, more forward-aligned chunks
/// first, the camera's own chunk before everything. The chunks themselves
/// are kept: the result is a permutation of the input.
pub fn sort_by_camera_direction(
    forward: &Vector3i,
    camera_chunk: &ChunkCoordinate,
    chunks: &mut Vec<ChunkCoordinate>,
)
    requires
        forward.within(2 * DIR_SCALE),
        camera_chunk.in_bounds(),
        forall|i: int| 0 <= i < old(chunks)@.len() ==> (#[trigger] old(chunks)@[i]).in_bounds(),
    ensures
        final(chunks)@.to_multiset() == old(chunks)@.to_multiset(),
        spec_sorted_by_score(*forward, *camera_chunk, final(chunks)@),
        final(chunks)@.len() == old(chunks)@.len(),
        forall|i: int| 0 <= i < final(chunks)@.len() ==> (#[trigger] final(chunks)@[i]).in_bounds(),
{
    broadcast use vstd::seq_lib::group_to_multiset_ensures;

    let mut source: Vec<ChunkCoordinate> = Vec::new();
    std::mem::swap(&mut source, chunks);
    while source.len() > 0
        invariant
            forward.within(2 * DIR_SCALE),
            camera_chunk.in_bounds(),
            forall|i: int| 0 <= i < source@.len() ==> (#[trigger] source@[i]).in_bounds(),
            forall|i: int| 0 <= i < chunks@.len() ==> (#[trigger] chunks@[i]).in_bounds(),
            chunks@.to_multiset().add(source@.to_multiset()) == old(chunks)@.to_multiset(),
            chunks@.len() + source@.len() == old(chunks)@.len(),
            spec_sorted_by_score(*forward, *camera_chunk, chunks@),
            forall|i: int, j: int|
                0 <= i < chunks@.len() && 0 <= j < source@.len() ==> spec_score_le(
                    *forward,
                    *camera_chunk,
                    #[trigger] chunks@[i],
                    #[trigger] source@[j],
                ),
        decreases source@.len(),
    {
        // Index of a chunk that loads no later than every remaining one.
        let mut best: usize = 0;
        let mut j: usize = 1;
        while j < source.len()
            invariant
                forward.within(2 * DIR_SCALE),
                camera_chunk.in_bounds(),
                forall|i: int| 0 <= i < source@.len() ==> (#[trigger] source@[i]).in_bounds(),
                best < source@.len(),
                j <= source@.len(),
                source@.len() > 0,
                forall|i: int|
                    0 <= i < j ==> spec_score_le(
                        *forward,
                        *camera_chunk,
                        source@[best as int],
                        #[trigger] source@[i],
                    ),
            decreases source@.len() - j,
        {
            if score_le(forward, camera_chunk, &source[j], &source[best]) {
                proof {
                    assert forall|i: int| 0 <= i < j + 1 implies spec_score_le(
                        *forward,
                        *camera_chunk,
                        source@[j as int],
                        #[trigger] source@[i],
                    ) by {
                        if i < j {
                            lemma_score_trans(
                                *forward,
                                *camera_chunk,
                                source@[j as int],
                                source@[best as int],
                                source@[i],
                            );
                        } else {
                            lemma_score_total(
                                *forward,
                                *camera_chunk,
                                source@[j as int],
                                source@[j as int],
                            );
                        }
                    }
                }
                best = j;
            } else {
                proof {
                    lemma_score_total(
                        *forward,
                        *camera_chunk,
                        source@[best as int],
                        source@[j as int],
                    );
                }
            }
            j += 1;
        }
        let ghost old_source = source@;
        let ghost old_out = chunks@;
        let picked = source.remove(best);
        chunks.push(picked);
        proof {
            vstd::seq_lib::to_multiset_remove(old_source, best as int);
            assert(chunks@ == old_out.push(picked));
            assert(old_source.contains(picked));
            vstd::seq_lib::to_multiset_contains(old_source, picked);
            vstd::seq_lib::to_multiset_build(old_out, picked);
            assert(old_source.to_multiset().count(picked) > 0);
            assert(chunks@.to_multiset() =~= old_out.to_multiset().insert(picked));
            assert(source@.to_multiset() =~= old_source.to_multiset().remove(picked));
            assert(chunks@.to_multiset().add(source@.to_multiset()) =~= old(
                chunks,
            )@.to_multiset());
            assert forall|a: int, b: int| 0 <= a < b < chunks@.len() implies spec_score_le(
                *forward,
                *camera_chunk,
                #[trigger] chunks@[a],
                #[trigger] chunks@[b],
            ) by {
                if b < chunks@.len() - 1 {
                    assert(chunks@[a] == old_out[a] && chunks@[b] == old_out[b]);
                } else {
                    assert(chunks@[b] == picked && picked == old_source[best as int]);
                    assert(chunks@[a] == old_out[a]);
                }
            }
            assert forall|a: int, b: int|
                0 <= a < chunks@.len() && 0 <= b < source@.len() implies spec_score_le(
                *forward,
                *camera_chunk,
                #[trigger] chunks@[a],
                #[trigger] source@[b],
            ) by {
                let src_b = if b < best {
                    b
                } else {
                    b + 1
                };
                assert(source@[b] == old_source[src_b]);
                if a < chunks@.len() - 1 {
                    assert(chunks@[a] == old_out[a]);
                } else {
                    assert(chunks@[a] == old_source[best as int]);
                }
            }
        }
    }
}

/// Whether `v` holds the coordinate `c`.
pub(crate) fn coord_list_contains(v: &Vec<ChunkCoordinate>, c: &ChunkCoordinate) -> (r: bool)
    ensures
        r == v@.contains(*c),
{
    let mut i: usize = 0;
    while i < v.len()
        invariant
            i <= v@.len(),
            forall|j: int| 0 <= j < i ==> v@[j] != *c,
        decreases v@.len() - i,
    {
        if v[i].x == c.x && v[i].y == c.y && v[i].z == c.z {
            return true;
        }
        i += 1;
    }
    false
}

/// Everything the selector promises of a candidate list it produced for
/// a viewer in `camera_chunk` looking along `forward` with the given
/// radius: it starts with the viewer's chunk, holds no coordinate twice,
/// stays inside the Chebyshev radius and the coordinate bounds, holds
/// only forward-cone chunks beyond the viewer's own, and is closed under
/// expansion — every in-cone neighbour of a member strictly inside the
/// radius is itself a member.
pub open spec fn spec_selection_post(
    r: Seq<ChunkCoordinate>,
    camera_chunk: ChunkCoordinate,
    forward: Vector3i,
    max_distance: int,
) -> bool {
    &&& r.len() >= 1
    &&& r[0] == camera_chunk
    &&& r.no_duplicates()
    &&& forall|i: int|
        0 <= i < r.len() ==> camera_chunk.chebyshev(#[trigger] r[i]) <= max_distance
            && r[i].within(COORD_LIMIT - 1)
    &&& forall|i: int|
        1 <= i < r.len() ==> spec_forward_aligned(forward, camera_chunk, #[trigger] r[i])
    &&& forall|i: int, n: ChunkCoordinate|
        0 <= i < r.len() && camera_chunk.chebyshev(r[i]) < max_distance && (
        #[trigger] r[i]).is_adjacent(n) && #[trigger] spec_forward_aligned(
            forward,
            camera_chunk,
            n,
        ) ==> r.contains(n)
}

/// Enumerates the chunks worth generating for a viewer standing in
/// `camera_chunk` and looking along `forward`: a breadth-first expansion
/// over face adjacency, starting at the viewer's own chunk, entering a
/// neighbour only when it lies in the forward cone, and never leaving the
/// Chebyshev ball of radius `max_distance`.
///
/// The result starts with the viewer's chunk, holds no coordinate twice,
/// stays inside the radius, holds only forward-cone chunks beyond the
/// viewer's own, and is closed under expansion: every in-cone neighbour of
/// a result chunk strictly inside the radius is itself in the result.
#[verifier::loop_isolation(false)]
pub fn select_chunks(
    camera_chunk: ChunkCoordinate,
    forward: Vector3i,
    max_distance: u32,
) -> (r: Vec<ChunkCoordinate>)
    requires
        max_distance <= 64,
        camera_chunk.within(COORD_LIMIT - 66),
        forward.within(2 * DIR_SCALE),
    ensures
        r@.len() >= 1,
        r@[0] == camera_chunk,
        r@.no_duplicates(),
        forall|i: int|
            0 <= i < r@.len() ==> camera_chunk.chebyshev(#[trigger] r@[i]) <= max_distance
                && r@[i].within(COORD_LIMIT - 1),
        forall|i: int|
            1 <= i < r@.len() ==> spec_forward_aligned(forward, camera_chunk, #[trigger] r@[i]),
        forall|i: int, n: ChunkCoordinate|
            0 <= i < r@.len() && camera_chunk.chebyshev(r@[i]) < max_distance && (
            #[trigger] r@[i]).is_adjacent(n) && #[trigger] spec_forward_aligned(
                forward,
                camera_chunk,
                n,
            ) ==> r@.contains(n),
        spec_selection_post(r@, camera_chunk, forward, max_distance as int),
{
    broadcast use lemma_seq_contains_after_push;

    let mut queue: Vec<(ChunkCoordinate, u32)> = Vec::new();
    queue.push((camera_chunk, 0));
    let mut seen: Vec<ChunkCoordinate> = Vec::new();
    seen.push(camera_chunk);
    let mut result: Vec<ChunkCoordinate> = Vec::new();
    let mut head: usize = 0;
    proof {
        assert forall|c: ChunkCoordinate| #[trigger] seen@.contains(c) implies c
            == camera_chunk by {
            let i = choose|i: int| 0 <= i < seen@.len() && seen@[i] == c;
        }
        assert(queue@[0].0 == camera_chunk);
    }
    while head < queue.len()
        invariant
            max_distance <= 64,
            camera_chunk.within(COORD_LIMIT - 66),
            forward.within(2 * DIR_SCALE),
            head <= queue@.len(),
            queue@.len() >= 1,
            queue@[0] == (camera_chunk, 0u32),
            result@.len() == head,
            forall|j: int| 0 <= j < head ==> #[trigger] result@[j] == queue@[j].0,
            forall|i: int, j: int| 0 <= i < j < queue@.len() ==> queue@[i].0 != queue@[j].0,
            forall|i: int|
                0 <= i < queue@.len() ==> camera_chunk.chebyshev(#[trigger] queue@[i].0)
                    == queue@[i].1 && queue@[i].1 <= max_distance && queue@[i].0.within(
                    COORD_LIMIT - 1,
                ) && seen@.contains(queue@[i].0),
            forall|i: int|
                1 <= i < queue@.len() ==> spec_forward_aligned(
                    forward,
                    camera_chunk,
                    #[trigger] queue@[i].0,
                ),
            seen@.no_duplicates(),
            forall|i: int|
                0 <= i < seen@.len() ==> camera_chunk.chebyshev(#[trigger] seen@[i])
                    <= max_distance + 1,
            seen@.len() <= 2248091,
            forall|c: ChunkCoordinate|
                #[trigger] seen@.contains(c) && (c == camera_chunk || spec_forward_aligned(
                    forward,
                    camera_chunk,
                    c,
                )) ==> exists|i: int| 0 <= i < queue@.len() && queue@[i].0 == c,
            forall|j: int, n: ChunkCoordinate|
                0 <= j < head && queue@[j].1 < max_distance && (
                #[trigger] queue@[j].0).is_adjacent(n) && #[trigger] spec_forward_aligned(
                    forward,
                    camera_chunk,
                    n,
                ) ==> seen@.contains(n),
        decreases 2248092 - seen@.len(), queue@.len() - head,
    {
        let (next, dist) = queue[head];
        head += 1;
        result.push(next);
        let ghost seen_before = seen@;
        let ghost queue_before = queue@;
        if dist < max_distance {
            let nbrs = next.adjacent();
            let mut k: usize = 0;
            while k < 6
                invariant
                    max_distance <= 64,
                    camera_chunk.within(COORD_LIMIT - 66),
                    forward.within(2 * DIR_SCALE),
                    nbrs@.len() == 6,
                    nbrs@ == next.spec_adjacent(),
                    forall|m: int|
                        0 <= m < 6 ==> (#[trigger] nbrs@[m]).within(COORD_LIMIT as int)
                            && next.is_adjacent(nbrs@[m]),
                    camera_chunk.chebyshev(next) == dist,
                    dist < max_distance,
                    next.within(COORD_LIMIT - 1),
                    k <= 6,
                    head <= queue@.len(),
                    queue@.len() >= 1,
                    queue@[0] == (camera_chunk, 0u32),
                    result@.len() == head,
                    forall|j: int| 0 <= j < head ==> #[trigger] result@[j] == queue@[j].0,
                    forall|i: int, j: int|
                        0 <= i < j < queue@.len() ==> queue@[i].0 != queue@[j].0,
                    forall|i: int|
                        0 <= i < queue@.len() ==> camera_chunk.chebyshev(#[trigger] queue@[i].0)
                            == queue@[i].1 && queue@[i].1 <= max_distance && queue@[i].0.within(
                            COORD_LIMIT - 1,
                        ) && seen@.contains(queue@[i].0),
                    forall|i: int|
                        1 <= i < queue@.len() ==> spec_forward_aligned(
                            forward,
                            camera_chunk,
                            #[trigger] queue@[i].0,
                        ),
                    seen@.no_duplicates(),
                    forall|i: int|
                        0 <= i < seen@.len() ==> camera_chunk.chebyshev(#[trigger] seen@[i])
                            <= max_distance + 1,
                    seen@.len() <= 2248091,
                    forall|c: ChunkCoordinate|
                        #[trigger] seen@.contains(c) && (c == camera_chunk
                            || spec_forward_aligned(forward, camera_chunk, c)) ==> exists|i: int|
                            0 <= i < queue@.len() && queue@[i].0 == c,
                    forall|j: int, n: ChunkCoordinate|
                        0 <= j < head - 1 && queue@[j].1 < max_distance && (
                        #[trigger] queue@[j].0).is_adjacent(n) && #[trigger] spec_forward_aligned(
                            forward,
                            camera_chunk,
                            n,
                        ) ==> seen@.contains(n),
                    forall|m: int|
                        0 <= m < k && #[trigger] spec_forward_aligned(
                            forward,
                            camera_chunk,
                            nbrs@[m],
                        ) ==> seen@.contains(nbrs@[m]),
                    forall|c: ChunkCoordinate|
                        seen_before.contains(c) ==> #[trigger] seen@.contains(c),
                    queue@.len() >= queue_before.len(),
                    seen@.len() >= seen_before.len(),
                    seen@.len() > seen_before.len() || queue@.len() == queue_before.len(),
                    forall|i: int|
                        0 <= i < queue_before.len() ==> #[trigger] queue@[i] == queue_before[i],
                    1 <= head,
                    head - 1 < queue_before.len(),
                    queue_before[head - 1] == (next, dist),
                decreases 6 - k,
            {
                let n = nbrs[k];
                if !coord_list_contains(&seen, &n) {
                    let ghost sb = seen@;
                    let ghost qb = queue@;
                    proof {
                        assert(qb[0].0 == camera_chunk);
                        assert(sb.contains(camera_chunk));
                        lemma_chebyshev_adjacent(camera_chunk, next, n);
                    }
                    if forward_aligned(&forward, &camera_chunk, &n) {
                        let nd = camera_chunk.chebyshev_distance(&n);
                        proof {
                            assert(camera_chunk.chebyshev(n) <= dist + 1);
                            assert(n.within(COORD_LIMIT - 1));
                        }
                        queue.push((n, nd as u32));
                    }
                    seen.push(n);
                    proof {
                        lemma_ball_card(seen@, camera_chunk);
                        assert forall|c: ChunkCoordinate|
                            #[trigger] seen@.contains(c) && (c == camera_chunk
                                || spec_forward_aligned(forward, camera_chunk, c))
                            implies exists|i: int|
                            0 <= i < queue@.len() && queue@[i].0 == c by {
                            if c == n {
                                assert(c != camera_chunk);
                                assert(queue@[queue@.len() - 1].0 == c);
                            } else {
                                assert(sb.contains(c));
                                let i = choose|i: int| 0 <= i < qb.len() && qb[i].0 == c;
                                assert(queue@[i].0 == c);
                            }
                        }
                    }
                }
                k += 1;
            }
            proof {
                assert forall|j: int, n2: ChunkCoordinate|
                    0 <= j < head && queue@[j].1 < max_distance && (
                    #[trigger] queue@[j].0).is_adjacent(n2) && #[trigger] spec_forward_aligned(
                        forward,
                        camera_chunk,
                        n2,
                    ) implies seen@.contains(n2) by {
                    if j == head - 1 {
                        assert(queue@[j].0 == next);
                        assert(nbrs@.contains(n2));
                        let m = choose|m: int| 0 <= m < nbrs@.len() && nbrs@[m] == n2;
                    }
                }
            }
        } else {
            proof {
                assert forall|j: int, n2: ChunkCoordinate|
                    0 <= j < head && queue@[j].1 < max_distance && (
                    #[trigger] queue@[j].0).is_adjacent(n2) && #[trigger] spec_forward_aligned(
                        forward,
                        camera_chunk,
                        n2,
                    ) implies seen@.contains(n2) by {
                    assert(j != head - 1);
                }
            }
        }
    }
    proof {
        assert forall|i: int, n: ChunkCoordinate|
            0 <= i < result@.len() && camera_chunk.chebyshev(result@[i]) < max_distance && (
            #[trigger] result@[i]).is_adjacent(n) && #[trigger] spec_forward_aligned(
                forward,
                camera_chunk,
                n,
            ) implies result@.contains(n) by {
            assert(result@[i] == queue@[i].0);
            assert(seen@.contains(n));
            let w = choose|w: int| 0 <= w < queue@.len() && queue@[w].0 == n;
            assert(result@[w] == n);
        }
        assert forall|i: int, j: int| 0 <= i < j < result@.len() implies result@[i]
            != result@[j] by {
            assert(result@[i] == queue@[i].0 && result@[j] == queue@[j].0);
        }
    }
    result
}

/// Bound on how many distinct chunk coordinates fit within Chebyshev
/// distance 65 of one centre: the ball holds 131 cubed coordinates.
pub proof fn lemma_ball_card(seen: Seq<ChunkCoordinate>, centre: ChunkCoordinate)
    requires
        seen.no_duplicates(),
        forall|i: int| 0 <= i < seen.len() ==> centre.chebyshev(#[trigger] seen[i]) <= 65,
    ensures
        seen.len() <= 2248091,
{
    let enc = |c: ChunkCoordinate|
        (c.x - centre.x + 65) + 131 * ((c.y - centre.y + 65) + 131 * (c.z - centre.z + 65));
    let encs = seen.map_values(enc);
    assert forall|i: int| 0 <= i < encs.len() implies 0 <= #[trigger] encs[i] < 2248091 by {
        assert(centre.chebyshev(seen[i]) <= 65);
    }
    assert(encs.no_duplicates()) by {
        assert forall|i: int, j: int| 0 <= i < j < encs.len() implies encs[i] != encs[j] by {
            if encs[i] == encs[j] {
                lemma_enc_injective(seen[i], seen[j], centre);
                assert(seen[i] == seen[j]);
            }
        }
    }
    encs.unique_seq_to_set();
    lemma_int_range(0, 2248091);
    assert(encs.to_set().subset_of(set_int_range(0, 2248091))) by {
        assert forall|x: int| encs.to_set().contains(x) implies set_int_range(
            0,
            2248091,
        ).contains(x) by {
            let i = choose|i: int| 0 <= i < encs.len() && encs[i] == x;
        }
    }
    lemma_len_subset(encs.to_set(), set_int_range(0, 2248091));
}

/// Two coordinates in the ball with equal encodings are the same
/// coordinate: the encoding writes the three offsets as digits in base 131.
proof fn lemma_enc_injective(a: ChunkCoordinate, b: ChunkCoordinate, centre: ChunkCoordinate)
    requires
        centre.chebyshev(a) <= 65,
        centre.chebyshev(b) <= 65,
        (a.x - centre.x + 65) + 131 * ((a.y - centre.y + 65) + 131 * (a.z - centre.z + 65)) == (b.x
            - centre.x + 65) + 131 * ((b.y - centre.y + 65) + 131 * (b.z - centre.z + 65)),
    ensures
        a == b,
{
    let e = (a.x - centre.x + 65) + 131 * ((a.y - centre.y + 65) + 131 * (a.z - centre.z + 65));
    vstd::arithmetic::div_mod::lemma_fundamental_div_mod_converse(
        e,
        131,
        (a.y - centre.y + 65) + 131 * (a.z - centre.z + 65),
        a.x - centre.x + 65,
    );
    vstd::arithmetic::div_mod::lemma_fundamental_div_mod_converse(
        e,
        131,
        (b.y - centre.y + 65) + 131 * (b.z - centre.z + 65),
        b.x - centre.x + 65,
    );
    let rest = e / 131;
    vstd::arithmetic::div_mod::lemma_fundamental_div_mod_converse(
        rest,
        131,
        a.z - centre.z + 65,
        a.y - centre.y + 65,
    );
    vstd::arithmetic::div_mod::lemma_fundamental_div_mod_converse(
        rest,
        131,
        b.z - centre.z + 65,
        b.y - centre.y + 65,
    );
}

} // verus!
