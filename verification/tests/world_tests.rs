use chunk_stream::chunk_data::ChunkData;
use chunk_stream::coord::ChunkCoordinate;
use chunk_stream::generate::{column_height, generate_chunk_data};
use chunk_stream::vec3::Vector3i;
use chunk_stream::world::World;

fn coord(x: i64, y: i64, z: i64) -> ChunkCoordinate {
    ChunkCoordinate { x, y, z }
}

#[test]
fn test_block_to_chunk_coordinate() {
    let world = World::with_seed(1);
    let c = world.block_to_chunk_coordinate(Vector3i { x: 17, y: -1, z: 33 });
    assert_eq!(c, coord(1, 0, 2));
    let c = world.block_to_chunk_coordinate(Vector3i { x: -17, y: -33, z: 5 });
    assert_eq!(c, coord(-1, -2, 0));
    let c = world.block_to_chunk_coordinate(Vector3i { x: 0, y: 16, z: -16 });
    assert_eq!(c, coord(0, 1, -1));
}

#[test]
fn test_is_chunk_generated() {
    let mut world = World::with_seed(7);
    let c = coord(0, 0, 0);
    assert!(!world.is_chunk_generated(c));
    world.generate_chunk(c);
    assert!(world.is_chunk_generated(c));
    assert!(!world.is_chunk_generated(coord(1, 0, 0)));
}

#[test]
fn test_generate_chunk_updates_chunk_data() {
    let mut world = World::with_seed(7);
    let c = coord(0, -2, 0);
    assert!(world.get_chunk_data(c).is_none());
    world.generate_chunk(c);
    let data = world.get_chunk_data(c).expect("chunk should be generated");
    // The whole chunk lies below the lowest possible terrain height, so
    // every voxel is solid.
    assert!(data.voxel(0, 0, 0));
    assert!(data.voxel(15, 15, 15));
    assert!(!data.empty());
}

#[test]
fn test_generate_chunk_mesh_none_for_ungenerated_chunk() {
    let world = World::with_seed(7);
    assert!(world.generate_chunk_mesh(coord(0, 0, 0)).is_none());
}

#[test]
fn test_generate_chunk_mesh_some_for_generated_chunk() {
    let mut world = World::with_seed(7);
    let c = coord(0, -2, 0);
    world.generate_chunk(c);
    let mesh = world.generate_chunk_mesh(c);
    assert!(mesh.is_some());
}

#[test]
fn test_generation_deterministic_for_fixed_seed() {
    let a = generate_chunk_data(99, coord(3, 0, -2));
    let b = generate_chunk_data(99, coord(3, 0, -2));
    assert!(a.same_as(&b));

    let mut w1 = World::with_seed(99);
    let mut w2 = World::with_seed(99);
    w1.generate_chunk(coord(3, 0, -2));
    w2.generate_chunk(coord(3, 0, -2));
    let d1 = w1.get_chunk_data(coord(3, 0, -2)).unwrap();
    let d2 = w2.get_chunk_data(coord(3, 0, -2)).unwrap();
    assert!(d1.same_as(d2));
}

#[test]
fn test_generation_idempotent() {
    let mut world = World::with_seed(5);
    let c = coord(1, 0, 1);
    world.generate_chunk(c);
    let before: ChunkData = world.get_chunk_data(c).unwrap().duplicate();
    world.generate_chunk(c);
    let after = world.get_chunk_data(c).unwrap();
    assert!(before.same_as(after));
}

#[test]
fn test_chunk_empty_distinct_from_ungenerated() {
    let mut world = World::with_seed(11);
    let sky = coord(0, 5, 0);
    // Not generated: not reported empty.
    assert!(!world.is_chunk_empty(sky));
    world.generate_chunk(sky);
    // Generated far above the highest terrain: all air.
    assert!(world.is_chunk_empty(sky));
    let deep = coord(0, -2, 0);
    world.generate_chunk(deep);
    assert!(!world.is_chunk_empty(deep));
}

#[test]
fn test_column_height_deterministic_and_in_range() {
    let h1 = column_height(1234, 40, -17);
    let h2 = column_height(1234, 40, -17);
    assert_eq!(h1, h2);
    assert!(0 <= h1 && h1 < 32);
}

#[test]
fn test_chunk_to_world_centre() {
    let world = World::with_seed(3);
    let p = world.chunk_to_world(coord(2, -1, 0));
    assert_eq!(p, Vector3i { x: 40, y: -8, z: 8 });
}
