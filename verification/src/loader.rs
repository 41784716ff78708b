//! The streaming pipeline: the per-tick generate / load / unload state
//! machine.
//!
//! Per coordinate the pipeline's state is derived from which collection
//! holds it: waiting for generation (`generate` queue), generated and
//! waiting for a surface (`load` queue), materialized by the host
//! (`loaded`), or waiting to be dematerialized (`unload` queue). A
//! coordinate stands in at most one queue at a time, and only materialized
//! coordinates wait for unload; every method preserves this invariant.
//!
//! One tick runs `gather_chunks`, `generate_chunks`, `load_chunks` — whose
//! materialization requests the host answers with `record_materialized` —
//! and `unload_chunks`, whose result the host dematerializes. Queues are
//! drained last-in first-out: the most recently decided work runs first.

use vstd::prelude::*;
use vstd::seq_lib::lemma_seq_contains_after_push;

use crate::coord::{lemma_adjacent_iff, ChunkCoordinate, CHUNK_SIZE, COORD_LIMIT};
use crate::frustum::Aabb;
use crate::mesh::{spec_mesh_matches, Mesh};
use crate::select::{coord_list_contains, select_chunks, spec_selection_post};
use crate::vec3::{Vector3i, DIR_SCALE};
use crate::vecmap::VecMap;
use crate::world::{div_trunc, spec_block_to_chunk, World};

verus! {

/// Per-tick cap on newly admitted generation work.
pub const ADMISSION_CAP: usize = 16;

/// The record a host attaches to a materialized chunk.
pub struct Chunk {
    pub coord: ChunkCoordinate,
    pub dirty: bool,
}

/// Placement of a materialized chunk in world space.
#[derive(Clone, Copy, PartialEq, Eq, Structural, Debug)]
pub struct Transform {
    pub position: Vector3i,
    pub scale: Vector3i,
}

impl Transform {
    /// A transform from its parts.
    pub fn new(position: Vector3i, scale: Vector3i) -> (r: Transform)
        ensures
            r.position == position,
            r.scale == scale,
    {
        Transform { position, scale }
    }
}

/// One chunk the host should materialize: where to place it, its local
/// bounding box, and its surface.
pub struct MaterializeRequest {
    pub coord: ChunkCoordinate,
    pub transform: Transform,
    pub bounds: Aabb,
    pub mesh: Mesh,
}

/// The pipeline's queue and materialization state, seen abstractly.
pub ghost struct LoaderView {
    pub generate: Seq<ChunkCoordinate>,
    pub load: Seq<ChunkCoordinate>,
    pub unload: Seq<ChunkCoordinate>,
    pub loaded: Map<ChunkCoordinate, u64>,
}

/// The streaming pipeline state.
pub struct ChunkLoader {
    render_distance: u32,
    generate_queue: Vec<ChunkCoordinate>,
    load_queue: Vec<ChunkCoordinate>,
    unload_queue: Vec<ChunkCoordinate>,
    loaded: VecMap<u64>,
}

impl View for ChunkLoader {
    type V = LoaderView;

    closed spec fn view(&self) -> LoaderView {
        LoaderView {
            generate: self.generate_queue@,
            load: self.load_queue@,
            unload: self.unload_queue@,
            loaded: self.loaded@,
        }
    }
}

impl ChunkLoader {
    /// The streaming radius, in chunks.
    pub closed spec fn spec_render_distance(self) -> int {
        self.render_distance as int
    }

    /// Internal well-formedness of the materialization record.
    pub closed spec fn store_wf(self) -> bool {
        self.loaded.wf()
    }

    /// The pipeline invariant. Each queue holds a coordinate at most
    /// once; no coordinate stands in two queues; only materialized
    /// coordinates wait for unload; every tracked coordinate is in
    /// bounds, with room for its neighbours.
    pub open spec fn inv(self) -> bool {
        &&& self@.generate.no_duplicates()
        &&& self@.load.no_duplicates()
        &&& self@.unload.no_duplicates()
        &&& forall|c: ChunkCoordinate| #[trigger]
            self@.generate.contains(c) ==> !self@.load.contains(c) && !self@.unload.contains(c)
        &&& forall|c: ChunkCoordinate| #[trigger]
            self@.load.contains(c) ==> !self@.unload.contains(c)
        &&& forall|c: ChunkCoordinate| #[trigger]
            self@.unload.contains(c) ==> self@.loaded.dom().contains(c)
        &&& forall|c: ChunkCoordinate| #[trigger]
            self@.loaded.dom().contains(c) ==> !self@.generate.contains(c)
                && !self@.load.contains(c)
        &&& forall|c: ChunkCoordinate| #[trigger]
            self@.generate.contains(c) ==> c.within(COORD_LIMIT - 1)
        &&& forall|c: ChunkCoordinate| #[trigger] self@.load.contains(c) ==> c.in_bounds()
        &&& forall|c: ChunkCoordinate| #[trigger]
            self@.loaded.dom().contains(c) ==> c.in_bounds()
        &&& 0 <= self.spec_render_distance() <= 64
        &&& self.store_wf()
    }

    /// A fresh pipeline: everything empty.
    pub fn new(render_distance: u32) -> (r: ChunkLoader)
        requires
            render_distance <= 64,
        ensures
            r.inv(),
            r.spec_render_distance() == render_distance as int,
            r@.generate =~= Seq::<ChunkCoordinate>::empty(),
            r@.load =~= Seq::<ChunkCoordinate>::empty(),
            r@.unload =~= Seq::<ChunkCoordinate>::empty(),
            r@.loaded =~= Map::<ChunkCoordinate, u64>::empty(),
    {
        ChunkLoader {
            render_distance,
            generate_queue: Vec::new(),
            load_queue: Vec::new(),
            unload_queue: Vec::new(),
            loaded: VecMap::new(),
        }
    }

    /// The coordinates waiting for generation, in queue order.
    pub fn queued_for_generation(&self) -> (r: Vec<ChunkCoordinate>)
        ensures
            r@ == self@.generate,
    {
        let r = self.generate_queue.clone();
        proof {
            assert(r@ =~= self@.generate);
        }
        r
    }

    /// The coordinates waiting for load, in queue order.
    pub fn queued_for_load(&self) -> (r: Vec<ChunkCoordinate>)
        ensures
            r@ == self@.load,
    {
        let r = self.load_queue.clone();
        proof {
            assert(r@ =~= self@.load);
        }
        r
    }

    /// The coordinates waiting for unload, in queue order.
    pub fn queued_for_unload(&self) -> (r: Vec<ChunkCoordinate>)
        ensures
            r@ == self@.unload,
    {
        let r = self.unload_queue.clone();
        proof {
            assert(r@ =~= self@.unload);
        }
        r
    }

    /// The coordinates currently materialized.
    pub fn loaded_coordinates(&self) -> (r: Vec<ChunkCoordinate>)
        requires
            self.inv(),
        ensures
            r@.no_duplicates(),
            forall|c: ChunkCoordinate| #[trigger] r@.contains(c) <==> self@.loaded.dom().contains(
                c,
            ),
    {
        self.loaded.keys()
    }

    /// No coordinate stands in more than one of the three queues.
    pub proof fn lemma_queue_exclusivity(self, c: ChunkCoordinate)
        requires
            self.inv(),
        ensures
            !(self@.generate.contains(c) && self@.load.contains(c)),
            !(self@.generate.contains(c) && self@.unload.contains(c)),
            !(self@.load.contains(c) && self@.unload.contains(c)),
    {
    }

    /// Queues every materialized coordinate that the current tick no
    /// longer wants, unless it already waits for unload.
    #[verifier::loop_isolation(false)]
    pub fn queue_unloads(&mut self, wanted: &Vec<ChunkCoordinate>)
        requires
            old(self).inv(),
        ensures
            final(self).inv(),
            final(self)@.generate == old(self)@.generate,
            final(self)@.load == old(self)@.load,
            final(self)@.loaded == old(self)@.loaded,
            final(self).spec_render_distance() == old(self).spec_render_distance(),
            forall|c: ChunkCoordinate| #[trigger]
                final(self)@.unload.contains(c) <==> (old(self)@.unload.contains(c) || (old(
                    self,
                )@.loaded.dom().contains(c) && !wanted@.contains(c))),
    {
        broadcast use lemma_seq_contains_after_push;

        let keys = self.loaded.keys();
        let ghost old_unload = self@.unload;
        let mut i: usize = 0;
        while i < keys.len()
            invariant
                self.inv(),
                i <= keys@.len(),
                keys@.no_duplicates(),
                forall|c: ChunkCoordinate| #[trigger]
                    keys@.contains(c) <==> self@.loaded.dom().contains(c),
                self@.generate == old(self)@.generate,
                self@.load == old(self)@.load,
                self@.loaded == old(self)@.loaded,
                self.spec_render_distance() == old(self).spec_render_distance(),
                forall|c: ChunkCoordinate| #[trigger]
                    self@.unload.contains(c) <==> (old_unload.contains(c) || (keys@.take(
                        i as int,
                    ).contains(c) && !wanted@.contains(c))),
            decreases keys@.len() - i,
        {
            let k = keys[i];
            let ghost before = self@.unload;
            proof {
                assert(keys@.take(i as int + 1) =~= keys@.take(i as int).push(k));
            }
            let in_wanted = coord_list_contains(wanted, &k);
            let in_unload = coord_list_contains(&self.unload_queue, &k);
            if !in_wanted && !in_unload {
                proof {
                    assert(keys@.contains(k));
                }
                self.unload_queue.push(k);
            }
            proof {
                assert forall|c: ChunkCoordinate| #[trigger]
                    self@.unload.contains(c) <==> (old_unload.contains(c) || (keys@.take(
                        i as int + 1,
                    ).contains(c) && !wanted@.contains(c))) by {
                    assert(before.contains(c) <==> (old_unload.contains(c) || (keys@.take(
                        i as int,
                    ).contains(c) && !wanted@.contains(c))));
                    if c == k {
                        if !in_wanted && !in_unload {
                            assert(self@.unload.last() == k);
                            assert(self@.unload.contains(k));
                            assert(keys@.take(i as int + 1).last() == k);
                            assert(keys@.take(i as int + 1).contains(k));
                        } else if in_unload {
                            assert(self@.unload == before);
                        } else {
                            assert(self@.unload == before);
                        }
                    } else {
                        if !in_wanted && !in_unload {
                            assert(self@.unload == before.push(k));
                            assert(self@.unload.contains(c) == before.contains(c));
                        } else {
                            assert(self@.unload == before);
                        }
                        assert(keys@.take(i as int + 1).contains(c) == keys@.take(
                            i as int,
                        ).contains(c)) by {
                            if keys@.take(i as int + 1).contains(c) {
                                let j = choose|j: int|
                                    0 <= j < i + 1 && #[trigger] keys@.take(i as int + 1)[j]
                                        == c;
                                assert(j != i);
                                assert(keys@.take(i as int)[j] == c);
                            }
                            if keys@.take(i as int).contains(c) {
                                let j = choose|j: int|
                                    0 <= j < i && #[trigger] keys@.take(i as int)[j] == c;
                                assert(keys@.take(i as int + 1)[j] == c);
                            }
                        }
                    }
                }
            }
            i += 1;
        }
        proof {
            assert(keys@.take(keys@.len() as int) =~= keys@);
        }
    }

    /// A coordinate the admission policy may enqueue for generation:
    /// not already queued for generation or load, not materialized, and
    /// not known to be an all-air chunk.
    pub open spec fn spec_admissible(
        ld: LoaderView,
        w: Map<ChunkCoordinate, Seq<bool>>,
        c: ChunkCoordinate,
    ) -> bool {
        &&& !ld.generate.contains(c)
        &&& !ld.load.contains(c)
        &&& !ld.loaded.dom().contains(c)
        &&& !(w.dom().contains(c) && (forall|i: int| 0 <= i < w[c].len() ==> !w[c][i]))
    }

    /// The coordinates admission enqueues: the first admissible entries
    /// of `wanted`, in order, up to the budget.
    pub open spec fn spec_admit(
        ld: LoaderView,
        w: Map<ChunkCoordinate, Seq<bool>>,
        wanted: Seq<ChunkCoordinate>,
        budget: int,
    ) -> Seq<ChunkCoordinate>
        decreases wanted.len(),
    {
        if wanted.len() == 0 || budget <= 0 {
            Seq::empty()
        } else if Self::spec_admissible(ld, w, wanted[0]) {
            seq![wanted[0]] + Self::spec_admit(ld, w, wanted.drop_first(), budget - 1)
        } else {
            Self::spec_admit(ld, w, wanted.drop_first(), budget)
        }
    }

    /// Everything admitted was wanted and admissible, and the budget caps
    /// how much is admitted.
    proof fn lemma_admit_props(
        ld: LoaderView,
        w: Map<ChunkCoordinate, Seq<bool>>,
        wanted: Seq<ChunkCoordinate>,
        budget: int,
    )
        ensures
            Self::spec_admit(ld, w, wanted, budget).len() <= if budget >= 0 {
                budget
            } else {
                0
            },
            forall|c: ChunkCoordinate| #[trigger]
                Self::spec_admit(ld, w, wanted, budget).contains(c) ==> wanted.contains(c)
                    && Self::spec_admissible(ld, w, c),
        decreases wanted.len(),
    {
        if wanted.len() == 0 || budget <= 0 {
        } else {
            Self::lemma_admit_props(ld, w, wanted.drop_first(), budget - 1);
            Self::lemma_admit_props(ld, w, wanted.drop_first(), budget);
            assert forall|c: ChunkCoordinate| #[trigger]
                Self::spec_admit(ld, w, wanted, budget).contains(c) implies wanted.contains(c)
                && Self::spec_admissible(ld, w, c) by {
                let s = Self::spec_admit(ld, w, wanted, budget);
                let j = choose|j: int| 0 <= j < s.len() && s[j] == c;
                if Self::spec_admissible(ld, w, wanted[0]) {
                    if j == 0 {
                        assert(c == wanted[0]);
                    } else {
                        assert(Self::spec_admit(ld, w, wanted.drop_first(), budget - 1).contains(
                            c,
                        ));
                        let k = choose|k: int|
                            0 <= k < wanted.drop_first().len() && wanted.drop_first()[k] == c;
                        assert(wanted[k + 1] == c);
                    }
                } else {
                    assert(Self::spec_admit(ld, w, wanted.drop_first(), budget).contains(c));
                    let k = choose|k: int|
                        0 <= k < wanted.drop_first().len() && wanted.drop_first()[k] == c;
                    assert(wanted[k + 1] == c);
                }
            }
        }
    }

    /// Enqueues for generation the first `ADMISSION_CAP` wanted
    /// coordinates that need work: not queued, not materialized, and not
    /// known-empty. Bounded admission keeps one tick's new work small.
    #[verifier::loop_isolation(false)]
    pub fn admit_generation(&mut self, world: &World, wanted: &Vec<ChunkCoordinate>)
        requires
            old(self).inv(),
            world.wf(),
            wanted@.no_duplicates(),
            forall|i: int|
                0 <= i < wanted@.len() ==> (#[trigger] wanted@[i]).within(COORD_LIMIT - 1),
        ensures
            final(self).inv(),
            final(self)@.generate == old(self)@.generate + Self::spec_admit(
                old(self)@,
                world@,
                wanted@,
                ADMISSION_CAP as int,
            ),
            final(self)@.load == old(self)@.load,
            final(self)@.unload == old(self)@.unload,
            final(self)@.loaded == old(self)@.loaded,
            final(self).spec_render_distance() == old(self).spec_render_distance(),
    {
        broadcast use lemma_seq_contains_after_push;

        let ghost ld0 = old(self)@;
        let mut admitted: usize = 0;
        let mut i: usize = 0;
        proof {
            assert(wanted@.take(0) =~= Seq::<ChunkCoordinate>::empty());
            assert(wanted@.skip(0) =~= wanted@);
            assert(Self::spec_admit(ld0, world@, Seq::<ChunkCoordinate>::empty(), ADMISSION_CAP
                as int) =~= Seq::<ChunkCoordinate>::empty());
            assert(ld0.generate + Seq::<ChunkCoordinate>::empty() =~= ld0.generate);
            assert(Seq::<ChunkCoordinate>::empty() + Self::spec_admit(
                ld0,
                world@,
                wanted@,
                ADMISSION_CAP as int,
            ) =~= Self::spec_admit(ld0, world@, wanted@, ADMISSION_CAP as int));
        }
        while i < wanted.len()
            invariant
                self.inv(),
                world.wf(),
                wanted@.no_duplicates(),
                forall|j: int|
                    0 <= j < wanted@.len() ==> (#[trigger] wanted@[j]).within(COORD_LIMIT - 1),
                i <= wanted@.len(),
                admitted <= ADMISSION_CAP,
                ld0 == old(self)@,
                self@.load == ld0.load,
                self@.unload == ld0.unload,
                self@.loaded == ld0.loaded,
                self.spec_render_distance() == old(self).spec_render_distance(),
                self@.generate.len() == ld0.generate.len() + admitted,
                self@.generate == ld0.generate + Self::spec_admit(
                    ld0,
                    world@,
                    wanted@.take(i as int),
                    ADMISSION_CAP as int,
                ),
                Self::spec_admit(ld0, world@, wanted@, ADMISSION_CAP as int) == Self::spec_admit(
                    ld0,
                    world@,
                    wanted@.take(i as int),
                    ADMISSION_CAP as int,
                ) + Self::spec_admit(
                    ld0,
                    world@,
                    wanted@.skip(i as int),
                    ADMISSION_CAP - admitted,
                ),
            decreases wanted@.len() - i,
        {
            if admitted == ADMISSION_CAP {
                proof {
                    Self::lemma_admit_take_saturates(ld0, world@, wanted@, i as int);
                }
                break ;
            }
            let ghost old_admitted = admitted as int;
            let ghost budget = ADMISSION_CAP - old_admitted;
            let ghost taken = Self::spec_admit(
                ld0,
                world@,
                wanted@.take(i as int),
                ADMISSION_CAP as int,
            );
            let c = wanted[i];
            let ghost pre = self@;
            let in_generate = coord_list_contains(&self.generate_queue, &c);
            let in_load = coord_list_contains(&self.load_queue, &c);
            let is_loaded = self.loaded.contains_key(&c);
            let known_empty = world.is_chunk_empty(c);
            proof {
                assert(wanted@.skip(i as int).len() > 0);
                assert(wanted@.skip(i as int)[0] == wanted@[i as int]);
                assert(wanted@.skip(i as int).drop_first() =~= wanted@.skip(i as int + 1));
                assert(taken.len() == old_admitted);
                // The queue gained only earlier wanted entries, none equal
                // to this one, so membership now matches membership in the
                // queue as it stood when admission began.
                assert(!ld0.generate.contains(c) ==> !taken.contains(c)) by {
                    Self::lemma_admit_props(
                        ld0,
                        world@,
                        wanted@.take(i as int),
                        ADMISSION_CAP as int,
                    );
                    if taken.contains(c) {
                        let j = choose|j: int| 0 <= j < i && wanted@.take(i as int)[j] == c;
                        assert(wanted@[j] == c && wanted@[i as int] == c);
                    }
                }
                assert(self@.generate.contains(c) <==> (ld0.generate.contains(c)
                    || taken.contains(c))) by {
                    vstd::seq_lib::lemma_seq_concat_contains_all_elements(
                        ld0.generate,
                        taken,
                        c,
                    );
                }
            }
            if !in_generate && !in_load && !is_loaded && !known_empty {
                self.generate_queue.push(c);
                admitted += 1;
                proof {
                    assert(Self::spec_admissible(ld0, world@, c));
                    assert(wanted@.take(i as int + 1) =~= wanted@.take(i as int) + seq![c]);
                    Self::lemma_admit_snoc_admissible(
                        ld0,
                        world@,
                        wanted@.take(i as int),
                        c,
                        ADMISSION_CAP as int,
                    );
                    assert(Self::spec_admit(
                        ld0,
                        world@,
                        wanted@.take(i as int + 1),
                        ADMISSION_CAP as int,
                    ) == taken + seq![c]);
                    assert(self@.generate =~= ld0.generate + (taken + seq![c]));
                    assert(Self::spec_admit(ld0, world@, wanted@.skip(i as int), budget)
                        == seq![c] + Self::spec_admit(
                        ld0,
                        world@,
                        wanted@.skip(i as int + 1),
                        budget - 1,
                    ));
                    assert(Self::spec_admit(ld0, world@, wanted@, ADMISSION_CAP as int)
                        =~= (taken + seq![c]) + Self::spec_admit(
                        ld0,
                        world@,
                        wanted@.skip(i as int + 1),
                        budget - 1,
                    ));
                }
            } else {
                proof {
                    assert(!Self::spec_admissible(ld0, world@, c));
                    assert(wanted@.take(i as int + 1) =~= wanted@.take(i as int) + seq![c]);
                    Self::lemma_admit_snoc_inadmissible(
                        ld0,
                        world@,
                        wanted@.take(i as int),
                        c,
                        ADMISSION_CAP as int,
                    );
                    assert(Self::spec_admit(ld0, world@, wanted@.skip(i as int), budget)
                        == Self::spec_admit(
                        ld0,
                        world@,
                        wanted@.skip(i as int + 1),
                        budget,
                    ));
                }
            }
            i += 1;
        }
        proof {
            if i >= wanted@.len() {
                assert(wanted@.take(wanted@.len() as int) =~= wanted@);
                assert(wanted@.skip(wanted@.len() as int) =~= Seq::<ChunkCoordinate>::empty());
            }
        }
    }

    /// Appending an admissible coordinate to the wanted list extends the
    /// admitted list by it, while the budget lasts. The spec recursion
    /// runs from the front, so this is proved by induction.
    proof fn lemma_admit_snoc_admissible(
        ld: LoaderView,
        w: Map<ChunkCoordinate, Seq<bool>>,
        wanted: Seq<ChunkCoordinate>,
        c: ChunkCoordinate,
        budget: int,
    )
        requires
            Self::spec_admissible(ld, w, c),
            Self::spec_admit(ld, w, wanted, budget).len() < budget,
        ensures
            Self::spec_admit(ld, w, wanted + seq![c], budget) == Self::spec_admit(
                ld,
                w,
                wanted,
                budget,
            ) + seq![c],
        decreases wanted.len(),
    {
        let s = wanted + seq![c];
        if wanted.len() == 0 {
            assert(s[0] == c);
            assert(s.drop_first() =~= Seq::<ChunkCoordinate>::empty());
            assert(Self::spec_admit(ld, w, Seq::<ChunkCoordinate>::empty(), budget - 1)
                =~= Seq::<ChunkCoordinate>::empty());
            assert(Self::spec_admit(ld, w, Seq::<ChunkCoordinate>::empty(), budget)
                =~= Seq::<ChunkCoordinate>::empty());
            assert(Self::spec_admit(ld, w, s, budget) =~= Self::spec_admit(ld, w, wanted, budget)
                + seq![c]);
        } else {
            assert(s[0] == wanted[0]);
            assert(s.drop_first() =~= wanted.drop_first() + seq![c]);
            if Self::spec_admissible(ld, w, wanted[0]) {
                Self::lemma_admit_snoc_admissible(ld, w, wanted.drop_first(), c, budget - 1);
                assert(Self::spec_admit(ld, w, s, budget) =~= Self::spec_admit(
                    ld,
                    w,
                    wanted,
                    budget,
                ) + seq![c]);
            } else {
                Self::lemma_admit_snoc_admissible(ld, w, wanted.drop_first(), c, budget);
                assert(Self::spec_admit(ld, w, s, budget) =~= Self::spec_admit(
                    ld,
                    w,
                    wanted,
                    budget,
                ) + seq![c]);
            }
        }
    }

    /// Appending an inadmissible coordinate changes nothing.
    proof fn lemma_admit_snoc_inadmissible(
        ld: LoaderView,
        w: Map<ChunkCoordinate, Seq<bool>>,
        wanted: Seq<ChunkCoordinate>,
        c: ChunkCoordinate,
        budget: int,
    )
        requires
            !Self::spec_admissible(ld, w, c),
        ensures
            Self::spec_admit(ld, w, wanted + seq![c], budget) == Self::spec_admit(
                ld,
                w,
                wanted,
                budget,
            ),
        decreases wanted.len(),
    {
        let s = wanted + seq![c];
        if wanted.len() == 0 {
            if budget > 0 {
                assert(s[0] == c);
                assert(s.drop_first() =~= Seq::<ChunkCoordinate>::empty());
                assert(Self::spec_admit(ld, w, Seq::<ChunkCoordinate>::empty(), budget)
                    =~= Seq::<ChunkCoordinate>::empty());
            }
            assert(Self::spec_admit(ld, w, s, budget) =~= Self::spec_admit(
                ld,
                w,
                wanted,
                budget,
            ));
        } else {
            assert(s[0] == wanted[0]);
            assert(s.drop_first() =~= wanted.drop_first() + seq![c]);
            if budget > 0 && Self::spec_admissible(ld, w, wanted[0]) {
                Self::lemma_admit_snoc_inadmissible(ld, w, wanted.drop_first(), c, budget - 1);
            } else {
                Self::lemma_admit_snoc_inadmissible(ld, w, wanted.drop_first(), c, budget);
            }
            assert(Self::spec_admit(ld, w, s, budget) =~= Self::spec_admit(ld, w, wanted, budget));
        }
    }

    /// Once the admitted list reaches the budget on a prefix, scanning
    /// further wanted entries admits nothing more.
    proof fn lemma_admit_take_saturates(
        ld: LoaderView,
        w: Map<ChunkCoordinate, Seq<bool>>,
        wanted: Seq<ChunkCoordinate>,
        i: int,
    )
        requires
            0 <= i <= wanted.len(),
            Self::spec_admit(ld, w, wanted.take(i), ADMISSION_CAP as int).len()
                == ADMISSION_CAP as int,
        ensures
            Self::spec_admit(ld, w, wanted, ADMISSION_CAP as int) == Self::spec_admit(
                ld,
                w,
                wanted.take(i),
                ADMISSION_CAP as int,
            ),
        decreases wanted.len() - i,
    {
        if i < wanted.len() {
            Self::lemma_admit_snoc_full(ld, w, wanted.take(i), wanted[i], ADMISSION_CAP as int);
            assert(wanted.take(i + 1) =~= wanted.take(i) + seq![wanted[i]]);
            Self::lemma_admit_take_saturates(ld, w, wanted, i + 1);
            assert(wanted.take(wanted.len() as int) =~= wanted);
        } else {
            assert(wanted.take(i) =~= wanted);
        }
    }

    /// With the budget exhausted, appending to the wanted list admits
    /// nothing more.
    proof fn lemma_admit_snoc_full(
        ld: LoaderView,
        w: Map<ChunkCoordinate, Seq<bool>>,
        wanted: Seq<ChunkCoordinate>,
        c: ChunkCoordinate,
        budget: int,
    )
        requires
            Self::spec_admit(ld, w, wanted, budget).len() == budget,
        ensures
            Self::spec_admit(ld, w, wanted + seq![c], budget) == Self::spec_admit(
                ld,
                w,
                wanted,
                budget,
            ),
        decreases wanted.len(),
    {
        let s = wanted + seq![c];
        if budget <= 0 {
            assert(Self::spec_admit(ld, w, s, budget) =~= Self::spec_admit(
                ld,
                w,
                wanted,
                budget,
            ));
        } else if wanted.len() == 0 {
            assert(false);
        } else {
            assert(s[0] == wanted[0]);
            assert(s.drop_first() =~= wanted.drop_first() + seq![c]);
            if Self::spec_admissible(ld, w, wanted[0]) {
                Self::lemma_admit_snoc_full(ld, w, wanted.drop_first(), c, budget - 1);
            } else {
                Self::lemma_admit_snoc_full(ld, w, wanted.drop_first(), c, budget);
            }
            assert(Self::spec_admit(ld, w, s, budget) =~= Self::spec_admit(ld, w, wanted, budget));
        }
    }

    /// Admission reads only the generation queue, the load queue and the
    /// materialization record, so two states that agree on those admit
    /// the same coordinates whatever their unload queues hold.
    proof fn lemma_admit_ignores_unload(
        ld1: LoaderView,
        ld2: LoaderView,
        w: Map<ChunkCoordinate, Seq<bool>>,
        wanted: Seq<ChunkCoordinate>,
        budget: int,
    )
        requires
            ld1.generate == ld2.generate,
            ld1.load == ld2.load,
            ld1.loaded == ld2.loaded,
        ensures
            Self::spec_admit(ld1, w, wanted, budget) == Self::spec_admit(ld2, w, wanted, budget),
        decreases wanted.len(),
    {
        if wanted.len() != 0 && budget > 0 {
            assert(Self::spec_admissible(ld1, w, wanted[0]) == Self::spec_admissible(
                ld2,
                w,
                wanted[0],
            ));
            Self::lemma_admit_ignores_unload(ld1, ld2, w, wanted.drop_first(), budget - 1);
            Self::lemma_admit_ignores_unload(ld1, ld2, w, wanted.drop_first(), budget);
            assert(Self::spec_admit(ld1, w, wanted, budget) =~= Self::spec_admit(
                ld2,
                w,
                wanted,
                budget,
            ));
        }
    }

    /// One tick of selection and admission happened: there is a candidate
    /// list the selector could have produced for this pose — viewer's
    /// chunk first, radius-bounded, forward-cone, closed under expansion —
    /// such that afterwards the unload queue holds exactly its old
    /// entries plus every materialized coordinate outside that list, and
    /// the generation queue is exactly the old queue extended by the
    /// admission policy's verdict on that list.
    pub open spec fn spec_gathered(
        pre: LoaderView,
        post: LoaderView,
        w: Map<ChunkCoordinate, Seq<bool>>,
        camera_chunk: ChunkCoordinate,
        forward: Vector3i,
        render_distance: int,
    ) -> bool {
        exists|wanted: Seq<ChunkCoordinate>|
            {
                &&& #[trigger] spec_selection_post(wanted, camera_chunk, forward, render_distance)
                &&& forall|c: ChunkCoordinate| #[trigger]
                    post.unload.contains(c) <==> (pre.unload.contains(c) || (
                    pre.loaded.dom().contains(c) && !wanted.contains(c)))
                &&& post.generate == pre.generate + Self::spec_admit(
                    pre,
                    w,
                    wanted,
                    ADMISSION_CAP as int,
                )
            }
    }

    /// A materialized chunk beyond the render radius is queued for
    /// unload by the tick that gathered: no candidate list the selector
    /// can produce reaches it, so the gathered state must hold it.
    pub proof fn lemma_gather_unloads_out_of_range(
        pre: LoaderView,
        post: LoaderView,
        w: Map<ChunkCoordinate, Seq<bool>>,
        camera_chunk: ChunkCoordinate,
        forward: Vector3i,
        render_distance: int,
        c: ChunkCoordinate,
    )
        requires
            Self::spec_gathered(pre, post, w, camera_chunk, forward, render_distance),
            pre.loaded.dom().contains(c),
            camera_chunk.chebyshev(c) > render_distance,
        ensures
            post.unload.contains(c),
    {
        let wanted = choose|wanted: Seq<ChunkCoordinate>|
            {
                &&& #[trigger] spec_selection_post(
                    wanted,
                    camera_chunk,
                    forward,
                    render_distance,
                )
                &&& forall|q: ChunkCoordinate| #[trigger]
                    post.unload.contains(q) <==> (pre.unload.contains(q) || (
                    pre.loaded.dom().contains(q) && !wanted.contains(q)))
                &&& post.generate == pre.generate + Self::spec_admit(
                    pre,
                    w,
                    wanted,
                    ADMISSION_CAP as int,
                )
            };
        if wanted.contains(c) {
            let i = choose|i: int| 0 <= i < wanted.len() && wanted[i] == c;
            assert(camera_chunk.chebyshev(wanted[i]) <= render_distance);
        }
    }

    /// One tick's selection and admission: enumerates the wanted chunks
    /// for the viewer's pose, queues unloads for materialized chunks no
    /// longer wanted, and admits a bounded batch of new generation work.
    /// `viewer_pos` is the viewer's position in world blocks and
    /// `forward` its view direction as a fixed-point vector.
    pub fn gather_chunks(&mut self, world: &World, viewer_pos: Vector3i, forward: Vector3i)
        requires
            old(self).inv(),
            world.wf(),
            viewer_pos.within(8388608),
            forward.within(2 * DIR_SCALE),
        ensures
            final(self).inv(),
            final(self)@.load == old(self)@.load,
            final(self)@.loaded == old(self)@.loaded,
            final(self).spec_render_distance() == old(self).spec_render_distance(),
            final(self)@.generate.len() <= old(self)@.generate.len() + ADMISSION_CAP,
            forall|c: ChunkCoordinate| #[trigger]
                final(self)@.generate.contains(c) ==> old(self)@.generate.contains(c) || (!old(
                    self,
                )@.load.contains(c) && !old(self)@.loaded.dom().contains(c) && c.within(
                    COORD_LIMIT - 1,
                ) && (ChunkCoordinate {
                    x: div_trunc(viewer_pos.x as int, 16) as i64,
                    y: div_trunc(viewer_pos.y as int, 16) as i64,
                    z: div_trunc(viewer_pos.z as int, 16) as i64,
                }).chebyshev(c) <= old(self).spec_render_distance()),
            forall|c: ChunkCoordinate| #[trigger]
                final(self)@.unload.contains(c) ==> old(self)@.unload.contains(c) || old(
                    self,
                )@.loaded.dom().contains(c),
            forall|c: ChunkCoordinate| #[trigger]
                old(self)@.unload.contains(c) ==> final(self)@.unload.contains(c),
            Self::spec_gathered(
                old(self)@,
                final(self)@,
                world@,
                spec_block_to_chunk(viewer_pos),
                forward,
                old(self).spec_render_distance(),
            ),
    {
        let camera_chunk = world.block_to_chunk_coordinate(viewer_pos);
        let wanted = select_chunks(camera_chunk, forward, self.render_distance);
        self.queue_unloads(&wanted);
        let ghost mid = self@;
        self.admit_generation(world, &wanted);
        proof {
            assert(camera_chunk == ChunkCoordinate {
                x: div_trunc(viewer_pos.x as int, 16) as i64,
                y: div_trunc(viewer_pos.y as int, 16) as i64,
                z: div_trunc(viewer_pos.z as int, 16) as i64,
            });
            Self::lemma_admit_props(mid, world@, wanted@, ADMISSION_CAP as int);
            assert forall|c: ChunkCoordinate| #[trigger] final(self)@.generate.contains(c)
                implies old(self)@.generate.contains(c) || (!old(self)@.load.contains(c) && !old(
                self,
            )@.loaded.dom().contains(c) && c.within(COORD_LIMIT - 1) && camera_chunk.chebyshev(c)
                <= old(self).spec_render_distance()) by {
                vstd::seq_lib::lemma_seq_concat_contains_all_elements(
                    mid.generate,
                    Self::spec_admit(mid, world@, wanted@, ADMISSION_CAP as int),
                    c,
                );
                if !mid.generate.contains(c) {
                    assert(Self::spec_admit(mid, world@, wanted@, ADMISSION_CAP as int).contains(
                        c,
                    ));
                    assert(wanted@.contains(c));
                    let j = choose|j: int| 0 <= j < wanted@.len() && wanted@[j] == c;
                    assert(camera_chunk.chebyshev(wanted@[j]) <= self.spec_render_distance());
                }
            }
            assert(camera_chunk == spec_block_to_chunk(viewer_pos));
            Self::lemma_admit_ignores_unload(
                old(self)@,
                mid,
                world@,
                wanted@,
                ADMISSION_CAP as int,
            );
            assert(Self::spec_gathered(
                old(self)@,
                final(self)@,
                world@,
                spec_block_to_chunk(viewer_pos),
                forward,
                old(self).spec_render_distance(),
            )) by {
                assert(spec_selection_post(
                    wanted@,
                    spec_block_to_chunk(viewer_pos),
                    forward,
                    old(self).spec_render_distance(),
                ));
                assert(final(self)@.generate == old(self)@.generate + Self::spec_admit(
                    old(self)@,
                    world@,
                    wanted@,
                    ADMISSION_CAP as int,
                ));
            }
        }
    }

    /// Drains the generation queue: each drained chunk is generated
    /// together with its six neighbours — pre-warming adjacency so
    /// meshing never waits on missing neighbour data — and moves on to
    /// the load queue.
    #[verifier::loop_isolation(false)]
    pub fn generate_chunks(&mut self, world: &mut World)
        requires
            old(self).inv(),
            old(world).wf(),
        ensures
            final(self).inv(),
            final(world).wf(),
            final(world).spec_seed() == old(world).spec_seed(),
            final(self)@.generate.len() == 0,
            final(self)@.load == old(self)@.load + old(self)@.generate.reverse(),
            final(self)@.unload == old(self)@.unload,
            final(self)@.loaded == old(self)@.loaded,
            final(self).spec_render_distance() == old(self).spec_render_distance(),
            forall|c: ChunkCoordinate| #[trigger]
                final(world)@.dom().contains(c) <==> (old(world)@.dom().contains(c) || old(
                    self,
                )@.generate.contains(c) || exists|j: int|
                    0 <= j < old(self)@.generate.len() && (#[trigger] old(
                        self,
                    )@.generate[j]).is_adjacent(c)),
            forall|c: ChunkCoordinate| #[trigger]
                old(world)@.dom().contains(c) ==> final(world)@[c] == old(world)@[c],
    {
        broadcast use lemma_seq_contains_after_push;

        let ghost g0 = old(self)@.generate;
        while self.generate_queue.len() > 0
            invariant
                self.inv(),
                world.wf(),
                world.spec_seed() == old(world).spec_seed(),
                self@.generate == g0.take(self@.generate.len() as int),
                self@.generate.len() <= g0.len(),
                self@.load == old(self)@.load + g0.skip(
                    self@.generate.len() as int,
                ).reverse(),
                self@.unload == old(self)@.unload,
                self@.loaded == old(self)@.loaded,
                self.spec_render_distance() == old(self).spec_render_distance(),
                forall|c: ChunkCoordinate| #[trigger]
                    world@.dom().contains(c) <==> (old(world)@.dom().contains(c) || exists|j: int|
                        self@.generate.len() <= j < g0.len() && (g0[j] == c || (#[trigger] g0[j]).is_adjacent(c))),
                forall|c: ChunkCoordinate| #[trigger]
                    old(world)@.dom().contains(c) ==> world@[c] == old(world)@[c],
                forall|c: ChunkCoordinate| #[trigger] g0.contains(c) ==> c.within(COORD_LIMIT - 1),
            decreases self@.generate.len(),
        {
            let ghost pre = self@;
            let ghost n = self@.generate.len() as int;
            let chunk = self.generate_queue.pop().unwrap();
            proof {
                assert(pre.generate[n - 1] == chunk);
                assert(pre.generate.contains(chunk));
                assert(g0[n - 1] == chunk);
                assert(g0.contains(chunk));
                assert(chunk.within(COORD_LIMIT - 1));
                assert(self@.generate =~= g0.take(n - 1));
                assert(!pre.load.contains(chunk));
                assert(!pre.loaded.dom().contains(chunk));
                assert forall|c: ChunkCoordinate| #[trigger] self@.generate.contains(c)
                    implies pre.generate.contains(c) && c != chunk by {
                    let j = choose|j: int|
                        0 <= j < self@.generate.len() && #[trigger] self@.generate[j] == c;
                    assert(pre.generate[j] == c);
                }
            }
            let mut chunks: Vec<ChunkCoordinate> = vec![chunk];
            let adjacent = chunk.adjacent();
            let mut a: usize = 0;
            while a < adjacent.len()
                invariant
                    adjacent@ == chunk.spec_adjacent(),
                    adjacent@.len() == 6,
                    chunk.within(COORD_LIMIT - 1),
                    forall|m: int|
                        0 <= m < 6 ==> (#[trigger] adjacent@[m]).within(COORD_LIMIT as int)
                            && chunk.is_adjacent(adjacent@[m]),
                    a <= 6,
                    chunks@.len() == a + 1,
                    chunks@[0] == chunk,
                    forall|m: int| 1 <= m < chunks@.len() ==> chunks@[m] == adjacent@[m - 1],
                decreases 6 - a,
            {
                let nb = adjacent[a];
                chunks.push(nb);
                a += 1;
            }
            proof {
                assert(forall|m: int|
                    0 <= m < chunks@.len() ==> (#[trigger] chunks@[m]).in_bounds());
            }
            let ghost world_pre = world@;
            world.generate_chunks(chunks);
            self.load_queue.push(chunk);
            proof {
                assert(self@.load =~= pre.load.push(chunk));
                assert forall|c: ChunkCoordinate| #[trigger] self@.load.contains(c)
                    implies (pre.load.contains(c) || c == chunk) by {}
                assert forall|c: ChunkCoordinate| #[trigger]
                    old(world)@.dom().contains(c) implies world@[c] == old(world)@[c] by {
                    assert(world_pre.dom().contains(c));
                    assert(world@[c] == world_pre[c]);
                }
                assert(g0.skip(n - 1) =~= seq![chunk] + g0.skip(n));
                assert(g0.skip(n - 1).reverse() =~= g0.skip(n).reverse() + seq![chunk]);
                assert(self@.load =~= old(self)@.load + g0.skip(n - 1).reverse());
                assert forall|c: ChunkCoordinate| #[trigger]
                    world@.dom().contains(c) <==> (old(world)@.dom().contains(c) || exists|j: int|
                        n - 1 <= j < g0.len() && (g0[j] == c || (#[trigger] g0[j]).is_adjacent(
                            c,
                        ))) by {
                    if world@.dom().contains(c) {
                        if world_pre.dom().contains(c) {
                        } else {
                            assert(chunks@.to_set().contains(c));
                            let m = choose|m: int| 0 <= m < chunks@.len() && chunks@[m] == c;
                            if m == 0 {
                                assert(g0[n - 1] == c);
                            } else {
                                lemma_adjacent_iff(chunk, c);
                                assert(chunk.spec_adjacent()[m - 1] == c);
                                assert(chunk.spec_adjacent().contains(c));
                                assert(g0[n - 1].is_adjacent(c));
                            }
                        }
                    }
                    if old(world)@.dom().contains(c) {
                        assert(world_pre.dom().contains(c));
                    }
                    if exists|j: int|
                        n - 1 <= j < g0.len() && (g0[j] == c || (#[trigger] g0[j]).is_adjacent(
                            c,
                        )) {
                        let j = choose|j: int|
                            n - 1 <= j < g0.len() && (g0[j] == c || (#[trigger] g0[j]).is_adjacent(c));
                        if j >= n {
                            assert(world_pre.dom().contains(c));
                        } else {
                            assert(g0[n - 1] == c || g0[n - 1].is_adjacent(c));
                            if g0[n - 1] == c {
                                assert(chunks@[0] == c);
                                assert(chunks@.to_set().contains(c));
                            } else {
                                lemma_adjacent_iff(chunk, c);
                                let m = choose|m: int|
                                    0 <= m < chunk.spec_adjacent().len()
                                        && chunk.spec_adjacent()[m] == c;
                                assert(chunks@[m + 1] == c);
                                assert(chunks@.to_set().contains(c));
                            }
                        }
                    }
                }
            }
        }
        proof {
            assert(self@.generate =~= Seq::<ChunkCoordinate>::empty());
            assert(g0.skip(0) =~= g0);
            assert(self@.load == old(self)@.load + g0.reverse());
        }
    }

    /// Corner position of the chunk at `c`, in world blocks.
    pub fn chunk_world_pos(chunk: ChunkCoordinate) -> (r: Vector3i)
        requires
            chunk.in_bounds(),
        ensures
            r.x == chunk.x * CHUNK_SIZE,
            r.y == chunk.y * CHUNK_SIZE,
            r.z == chunk.z * CHUNK_SIZE,
    {
        Vector3i { x: chunk.x * CHUNK_SIZE, y: chunk.y * CHUNK_SIZE, z: chunk.z * CHUNK_SIZE }
    }

    /// Placement and local bounding box of the chunk at `c`: positioned
    /// at its world corner, bounds covering one chunk volume.
    pub fn chunk_components(chunk: ChunkCoordinate) -> (r: (Transform, Aabb))
        requires
            chunk.in_bounds(),
        ensures
            r.0.position.x == chunk.x * CHUNK_SIZE,
            r.0.position.y == chunk.y * CHUNK_SIZE,
            r.0.position.z == chunk.z * CHUNK_SIZE,
            r.0.scale == (Vector3i { x: 1i64, y: 1i64, z: 1i64 }),
            r.1.min == (Vector3i { x: 0i64, y: 0i64, z: 0i64 }),
            r.1.max == (Vector3i { x: CHUNK_SIZE, y: CHUNK_SIZE, z: CHUNK_SIZE }),
    {
        let t = Transform::new(
            Self::chunk_world_pos(chunk),
            Vector3i { x: 1, y: 1, z: 1 },
        );
        let aabb = Aabb {
            min: Vector3i { x: 0, y: 0, z: 0 },
            max: Vector3i { x: CHUNK_SIZE, y: CHUNK_SIZE, z: CHUNK_SIZE },
        };
        (t, aabb)
    }

    /// The load-queue coordinates that actually get a surface: those
    /// generated and not all air, in drain order.
    pub open spec fn spec_loadable(
        w: Map<ChunkCoordinate, Seq<bool>>,
        coords: Seq<ChunkCoordinate>,
    ) -> Seq<ChunkCoordinate>
        decreases coords.len(),
    {
        if coords.len() == 0 {
            Seq::empty()
        } else if w.dom().contains(coords[0]) && !(forall|i: int|
            0 <= i < w[coords[0]].len() ==> !w[coords[0]][i]) {
            seq![coords[0]] + Self::spec_loadable(w, coords.drop_first())
        } else {
            Self::spec_loadable(w, coords.drop_first())
        }
    }

    /// Drains the load queue and builds one materialization request for
    /// every drained chunk that is generated and not empty: its surface
    /// against the neighbours the world holds, its placement, and its
    /// local bounds. Empty and ungenerated chunks are dropped silently —
    /// there is nothing to render.
    #[verifier::loop_isolation(false)]
    #[verifier::rlimit(100)]
    pub fn load_chunks(&mut self, world: &World) -> (r: Vec<MaterializeRequest>)
        requires
            old(self).inv(),
            world.wf(),
        ensures
            final(self).inv(),
            final(self)@.load.len() == 0,
            final(self)@.generate == old(self)@.generate,
            final(self)@.unload == old(self)@.unload,
            final(self)@.loaded == old(self)@.loaded,
            final(self).spec_render_distance() == old(self).spec_render_distance(),
            r@.map_values(|q: MaterializeRequest| q.coord) == Self::spec_loadable(
                world@,
                old(self)@.load.reverse(),
            ),
            forall|k: int|
                0 <= k < r@.len() ==> {
                    let c = (#[trigger] r@[k]).coord;
                    &&& world@.dom().contains(c)
                    &&& spec_mesh_matches(r@[k].mesh, world@[c], world.spec_adjacent_views(c))
                    &&& r@[k].transform.position.x == c.x * CHUNK_SIZE
                    &&& r@[k].transform.position.y == c.y * CHUNK_SIZE
                    &&& r@[k].transform.position.z == c.z * CHUNK_SIZE
                    &&& r@[k].bounds.min == (Vector3i { x: 0i64, y: 0i64, z: 0i64 })
                    &&& r@[k].bounds.max == (Vector3i {
                        x: CHUNK_SIZE,
                        y: CHUNK_SIZE,
                        z: CHUNK_SIZE,
                    })
                },
    {
        let ghost l0 = old(self)@.load;
        let mut r: Vec<MaterializeRequest> = Vec::new();
        proof {
            assert(l0.take(l0.len() as int) =~= l0);
            assert(r@.map_values(|q: MaterializeRequest| q.coord) =~= Seq::<
                ChunkCoordinate,
            >::empty());
            assert(Seq::<ChunkCoordinate>::empty() + Self::spec_loadable(world@, l0.reverse())
                =~= Self::spec_loadable(world@, l0.reverse()));
        }
        while self.load_queue.len() > 0
            invariant
                self.inv(),
                world.wf(),
                self@.load == l0.take(self@.load.len() as int),
                self@.load.len() <= l0.len(),
                self@.generate == old(self)@.generate,
                self@.unload == old(self)@.unload,
                self@.loaded == old(self)@.loaded,
                self.spec_render_distance() == old(self).spec_render_distance(),
                Self::spec_loadable(world@, l0.reverse()) == r@.map_values(
                    |q: MaterializeRequest| q.coord,
                ) + Self::spec_loadable(
                    world@,
                    l0.take(self@.load.len() as int).reverse(),
                ),
                forall|k: int|
                    0 <= k < r@.len() ==> {
                        let c = (#[trigger] r@[k]).coord;
                        &&& world@.dom().contains(c)
                        &&& spec_mesh_matches(
                            r@[k].mesh,
                            world@[c],
                            world.spec_adjacent_views(c),
                        )
                        &&& r@[k].transform.position.x == c.x * CHUNK_SIZE
                        &&& r@[k].transform.position.y == c.y * CHUNK_SIZE
                        &&& r@[k].transform.position.z == c.z * CHUNK_SIZE
                        &&& r@[k].bounds.min == (Vector3i { x: 0i64, y: 0i64, z: 0i64 })
                        &&& r@[k].bounds.max == (Vector3i {
                            x: CHUNK_SIZE,
                            y: CHUNK_SIZE,
                            z: CHUNK_SIZE,
                        })
                    },
            decreases self@.load.len(),
        {
            let ghost pre = self@;
            let ghost n = self@.load.len() as int;
            let chunk = self.load_queue.pop().unwrap();
            proof {
                assert(l0[n - 1] == chunk);
                assert(pre.load[n - 1] == chunk);
                assert(pre.load.contains(chunk));
                assert(chunk.in_bounds());
                assert(self@.load =~= l0.take(n - 1));
                assert(l0.take(n).reverse() =~= seq![chunk] + l0.take(n - 1).reverse());
                assert forall|c: ChunkCoordinate| #[trigger] self@.load.contains(c)
                    implies pre.load.contains(c) by {
                    let j = choose|j: int|
                        0 <= j < self@.load.len() && #[trigger] self@.load[j] == c;
                    assert(pre.load[j] == c);
                }
            }
            let ghost rev = l0.take(n).reverse();
            let ghost rest = l0.take(n - 1).reverse();
            let empty = world.is_chunk_empty(chunk);
            if !empty {
                match world.generate_chunk_mesh(chunk) {
                    Some(mesh) => {
                        let (t, aabb) = Self::chunk_components(chunk);
                        let ghost r_pre = r@;
                        r.push(
                            MaterializeRequest { coord: chunk, transform: t, bounds: aabb, mesh },
                        );
                        proof {
                            assert(rev[0] == chunk);
                            assert(rev.drop_first() =~= rest);
                            assert(r@.map_values(|q: MaterializeRequest| q.coord)
                                =~= r_pre.map_values(|q: MaterializeRequest| q.coord) + seq![
                                chunk,
                            ]);
                            assert(Self::spec_loadable(world@, rev) =~= seq![chunk]
                                + Self::spec_loadable(world@, rest));
                        }
                    },
                    None => {
                        proof {
                            assert(rev[0] == chunk);
                            assert(rev.drop_first() =~= rest);
                            assert(!world@.dom().contains(chunk));
                            assert(Self::spec_loadable(world@, rev) =~= Self::spec_loadable(
                                world@,
                                rest,
                            ));
                        }
                    },
                }
            } else {
                proof {
                    assert(rev[0] == chunk);
                    assert(rev.drop_first() =~= rest);
                    assert(Self::spec_loadable(world@, rev) =~= Self::spec_loadable(
                        world@,
                        rest,
                    ));
                }
            }
        }
        proof {
            assert(self@.load =~= Seq::<ChunkCoordinate>::empty());
            assert(l0.take(0).reverse() =~= Seq::<ChunkCoordinate>::empty());
            assert(r@.map_values(|q: MaterializeRequest| q.coord) + Seq::<
                ChunkCoordinate,
            >::empty() =~= r@.map_values(|q: MaterializeRequest| q.coord));
            assert(l0.take(l0.len() as int) =~= l0);
        }
        r
    }

    /// Records that the host materialized the chunk at `c` under the
    /// given handle.
    pub fn record_materialized(&mut self, coord: ChunkCoordinate, handle: u64)
        requires
            old(self).inv(),
            coord.in_bounds(),
            !old(self)@.generate.contains(coord),
            !old(self)@.load.contains(coord),
        ensures
            final(self).inv(),
            final(self)@.loaded == old(self)@.loaded.insert(coord, handle),
            final(self)@.generate == old(self)@.generate,
            final(self)@.load == old(self)@.load,
            final(self)@.unload == old(self)@.unload,
            final(self).spec_render_distance() == old(self).spec_render_distance(),
    {
        self.loaded.insert(coord, handle);
        proof {
            assert forall|c: ChunkCoordinate| #[trigger] self@.loaded.dom().contains(c)
                implies !self@.generate.contains(c) && !self@.load.contains(c) && c.in_bounds()
                by {
                if c != coord {
                    assert(old(self)@.loaded.dom().contains(c));
                }
            }
        }
    }

    /// Drains the unload queue: every queued coordinate leaves the
    /// materialization record, and its coordinate and handle are handed
    /// back for the host to dematerialize.
    #[verifier::loop_isolation(false)]
    pub fn unload_chunks(&mut self) -> (r: Vec<(ChunkCoordinate, u64)>)
        requires
            old(self).inv(),
        ensures
            final(self).inv(),
            final(self)@.unload.len() == 0,
            final(self)@.generate == old(self)@.generate,
            final(self)@.load == old(self)@.load,
            final(self).spec_render_distance() == old(self).spec_render_distance(),
            forall|c: ChunkCoordinate| #[trigger]
                final(self)@.loaded.dom().contains(c) <==> (old(self)@.loaded.dom().contains(c)
                    && !old(self)@.unload.contains(c)),
            forall|c: ChunkCoordinate| #[trigger]
                final(self)@.loaded.dom().contains(c) ==> final(self)@.loaded[c] == old(
                    self,
                )@.loaded[c],
            r@.len() == old(self)@.unload.len(),
            forall|k: int|
                0 <= k < r@.len() ==> (#[trigger] r@[k]).0 == old(self)@.unload[old(
                    self,
                )@.unload.len() - 1 - k] && r@[k].1 == old(self)@.loaded[r@[k].0],
    {
        let ghost u0 = old(self)@.unload;
        let mut r: Vec<(ChunkCoordinate, u64)> = Vec::new();
        while self.unload_queue.len() > 0
            invariant
                self.inv(),
                self@.unload == u0.take(self@.unload.len() as int),
                self@.unload.len() <= u0.len(),
                self@.generate == old(self)@.generate,
                self@.load == old(self)@.load,
                self.spec_render_distance() == old(self).spec_render_distance(),
                u0.no_duplicates(),
                forall|c: ChunkCoordinate| #[trigger]
                    self@.loaded.dom().contains(c) <==> (old(self)@.loaded.dom().contains(c)
                        && !u0.skip(self@.unload.len() as int).contains(c)),
                forall|c: ChunkCoordinate| #[trigger]
                    self@.loaded.dom().contains(c) ==> self@.loaded[c] == old(self)@.loaded[c],
                forall|c: ChunkCoordinate| #[trigger]
                    u0.contains(c) ==> old(self)@.loaded.dom().contains(c),
                r@.len() + self@.unload.len() == u0.len(),
                forall|k: int|
                    0 <= k < r@.len() ==> (#[trigger] r@[k]).0 == u0[u0.len() - 1 - k]
                        && r@[k].1 == old(self)@.loaded[r@[k].0],
            decreases self@.unload.len(),
        {
            let ghost pre = self@;
            let ghost n = self@.unload.len() as int;
            let chunk = self.unload_queue.pop().unwrap();
            proof {
                assert(u0[n - 1] == chunk);
                assert(u0.contains(chunk));
                assert(self@.unload =~= u0.take(n - 1));
                assert(u0.skip(n - 1) =~= seq![chunk] + u0.skip(n));
                assert(!u0.skip(n).contains(chunk)) by {
                    if u0.skip(n).contains(chunk) {
                        let j = choose|j: int| 0 <= j < u0.skip(n).len() && u0.skip(n)[j] == chunk;
                        assert(u0[n + j] == chunk && u0[n - 1] == chunk);
                    }
                }
                assert(pre.loaded.dom().contains(chunk));
            }
            let handle = self.loaded.remove(&chunk);
            match handle {
                Some(h) => {
                    r.push((chunk, h));
                    proof {
                        assert forall|c: ChunkCoordinate| #[trigger] self@.unload.contains(c)
                            implies self@.loaded.dom().contains(c) by {
                            let j = choose|j: int|
                                0 <= j < self@.unload.len() && #[trigger] self@.unload[j] == c;
                            assert(u0[j] == c);
                            assert(pre.unload[j] == c);
                            assert(pre.unload.contains(c));
                            assert(pre.loaded.dom().contains(c));
                            assert(c != chunk);
                        }
                        assert forall|c: ChunkCoordinate| #[trigger]
                            self@.loaded.dom().contains(c) <==> (old(
                                self,
                            )@.loaded.dom().contains(c) && !u0.skip(n - 1).contains(c)) by {
                            if c != chunk {
                                assert(u0.skip(n - 1).contains(c) == u0.skip(n).contains(c)) by {
                                    if u0.skip(n - 1).contains(c) {
                                        let j = choose|j: int|
                                            0 <= j < u0.skip(n - 1).len() && #[trigger] u0.skip(
                                                n - 1,
                                            )[j] == c;
                                        assert(j != 0);
                                        assert(u0.skip(n)[j - 1] == c);
                                    }
                                    if u0.skip(n).contains(c) {
                                        let j = choose|j: int|
                                            0 <= j < u0.skip(n).len() && u0.skip(n)[j] == c;
                                        assert(u0.skip(n - 1)[j + 1] == c);
                                    }
                                }
                            } else {
                                assert(u0.skip(n - 1)[0] == chunk);
                            }
                        }
                    }
                },
                None => {
                    proof {
                        assert(false);
                    }
                },
            }
        }
        proof {
            assert(self@.unload =~= Seq::<ChunkCoordinate>::empty());
            assert(u0.skip(0) =~= u0);
            assert(u0.take(u0.len() as int) =~= u0);
        }
        r
    }
}

} // verus!
