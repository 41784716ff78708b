use chunk_stream::coord::ChunkCoordinate;
use chunk_stream::loader::{ChunkLoader, Transform, ADMISSION_CAP};
use chunk_stream::vec3::{Vector3i, DIR_SCALE};
use chunk_stream::world::World;

fn vec3(x: i64, y: i64, z: i64) -> Vector3i {
    Vector3i { x, y, z }
}

fn assert_no_duplicates(v: &[ChunkCoordinate]) {
    for i in 0..v.len() {
        for j in (i + 1)..v.len() {
            assert_ne!(v[i], v[j]);
        }
    }
}

fn assert_disjoint(a: &[ChunkCoordinate], b: &[ChunkCoordinate]) {
    for x in a {
        assert!(!b.contains(x));
    }
}

fn assert_queue_exclusivity(loader: &ChunkLoader) {
    let g = loader.queued_for_generation();
    let l = loader.queued_for_load();
    let u = loader.queued_for_unload();
    assert_no_duplicates(&g);
    assert_no_duplicates(&l);
    assert_no_duplicates(&u);
    assert_disjoint(&g, &l);
    assert_disjoint(&g, &u);
    assert_disjoint(&l, &u);
}

#[test]
fn test_tick_preserves_queue_exclusivity() {
    let mut world = World::with_seed(42);
    let mut loader = ChunkLoader::new(2);
    let viewer = vec3(0, 8, 0);
    let forward = vec3(DIR_SCALE, 0, 0);

    loader.gather_chunks(&world, viewer, forward);
    assert_queue_exclusivity(&loader);

    let admitted = loader.queued_for_generation();
    assert!(!admitted.is_empty());
    assert!(admitted.len() <= ADMISSION_CAP);

    loader.generate_chunks(&mut world);
    assert!(loader.queued_for_generation().is_empty());
    assert_queue_exclusivity(&loader);

    let requests = loader.load_chunks(&world);
    assert!(loader.queued_for_load().is_empty());
    let mut handle: u64 = 0;
    for q in &requests {
        loader.record_materialized(q.coord, handle);
        handle += 1;
    }
    assert_queue_exclusivity(&loader);

    // Next tick, looking the other way: formerly wanted chunks fall out
    // of the selection and queue for unload.
    let backward = vec3(-DIR_SCALE, 0, 0);
    loader.gather_chunks(&world, viewer, backward);
    assert_queue_exclusivity(&loader);

    let unloaded = loader.unload_chunks();
    assert!(loader.queued_for_unload().is_empty());
    assert_queue_exclusivity(&loader);

    // Every dematerialized coordinate leaves the loaded set.
    let still_loaded = loader.loaded_coordinates();
    for (c, _) in &unloaded {
        assert!(!still_loaded.contains(c));
    }
}

#[test]
fn test_generated_chunks_move_to_load_queue() {
    let mut world = World::with_seed(9);
    let mut loader = ChunkLoader::new(1);
    loader.gather_chunks(&world, vec3(0, 0, 0), vec3(DIR_SCALE, 0, 0));
    let admitted = loader.queued_for_generation();
    loader.generate_chunks(&mut world);
    let to_load = loader.queued_for_load();
    // Everything admitted was generated and handed on for loading, in
    // last-in first-out drain order.
    assert_eq!(admitted.len(), to_load.len());
    for c in &admitted {
        assert!(to_load.contains(c));
        assert!(world.is_chunk_generated(*c));
        // Neighbours were pre-warmed too.
        for n in c.adjacent() {
            assert!(world.is_chunk_generated(n));
        }
    }
}

#[test]
fn test_materialize_requests_carry_placement() {
    let mut world = World::with_seed(42);
    let mut loader = ChunkLoader::new(1);
    // Deep below the terrain every chunk is fully solid, so the requests
    // are deterministic: both wanted chunks are non-empty, and both end
    // up entirely enclosed by their pre-warmed solid neighbours, leaving
    // no visible face.
    loader.gather_chunks(&world, vec3(0, -64, 0), vec3(DIR_SCALE, 0, 0));
    loader.generate_chunks(&mut world);
    let requests = loader.load_chunks(&world);
    assert_eq!(requests.len(), 2);
    for q in &requests {
        assert_eq!(q.transform.position.x, q.coord.x * 16);
        assert_eq!(q.transform.position.y, q.coord.y * 16);
        assert_eq!(q.transform.position.z, q.coord.z * 16);
        assert_eq!(q.bounds.min, vec3(0, 0, 0));
        assert_eq!(q.bounds.max, vec3(16, 16, 16));
        assert!(q.mesh.vertices.is_empty());
        assert!(world.is_chunk_generated(q.coord));
        assert!(!world.is_chunk_empty(q.coord));
    }
}

#[test]
fn test_gather_queues_out_of_range_unload_and_admits_camera_chunk() {
    let mut world = World::with_seed(8);
    let mut loader = ChunkLoader::new(2);
    // A chunk materialized far beyond the render radius.
    let far = ChunkCoordinate { x: 30, y: 0, z: 0 };
    loader.record_materialized(far, 7);

    loader.gather_chunks(&world, vec3(0, 0, 0), vec3(DIR_SCALE, 0, 0));

    // The far chunk cannot be wanted, so the tick must queue its unload.
    assert!(loader.queued_for_unload().contains(&far));
    // The viewer's own chunk heads every selection and nothing disqualifies
    // it, so admission must enqueue it.
    let camera_chunk = ChunkCoordinate { x: 0, y: 0, z: 0 };
    assert!(loader.queued_for_generation().contains(&camera_chunk));

    let unloaded = loader.unload_chunks();
    assert!(unloaded.contains(&(far, 7)));
}

#[test]
fn test_transform_new_keeps_parts() {
    let t = Transform::new(vec3(32, 0, -16), vec3(1, 1, 1));
    assert_eq!(t.position, vec3(32, 0, -16));
    assert_eq!(t.scale, vec3(1, 1, 1));
}

#[test]
fn test_unloaded_chunks_can_be_readmitted() {
    let mut world = World::with_seed(3);
    let mut loader = ChunkLoader::new(1);
    let forward = vec3(DIR_SCALE, 0, 0);
    loader.gather_chunks(&world, vec3(0, 0, 0), forward);
    loader.generate_chunks(&mut world);
    let requests = loader.load_chunks(&world);
    let mut handle: u64 = 0;
    for q in &requests {
        loader.record_materialized(q.coord, handle);
        handle += 1;
    }
    // Turn around, unload everything out of view.
    loader.gather_chunks(&world, vec3(0, 0, 0), vec3(-DIR_SCALE, 0, 0));
    loader.unload_chunks();
    // Turn back: the same chunks may be admitted again.
    loader.gather_chunks(&world, vec3(0, 0, 0), forward);
    assert_queue_exclusivity(&loader);
}
