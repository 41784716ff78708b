use chunk_stream::coord::ChunkCoordinate;
use chunk_stream::frustum::{Aabb, ViewFrustum, Plane};
use chunk_stream::select::{score_le, select_chunks, sort_by_camera_direction};
use chunk_stream::vec3::{Vector3i, DIR_SCALE};

fn coord(x: i64, y: i64, z: i64) -> ChunkCoordinate {
    ChunkCoordinate { x, y, z }
}

fn vec3(x: i64, y: i64, z: i64) -> Vector3i {
    Vector3i { x, y, z }
}

#[test]
fn test_plane_distance() {
    let pos = vec3(5, 5, 0);
    let plane = Plane { point: vec3(0, 0, 0), normal: vec3(1, 0, 0) };
    // Distances carry the fixed-point position scale.
    assert_eq!(plane.distance(&pos), 5 * DIR_SCALE as i128);
}

#[test]
fn test_plane_negative_distance() {
    let pos = vec3(-5, 5, 10);
    let plane = Plane { point: vec3(0, 0, 0), normal: vec3(1, 0, 0) };
    assert_eq!(plane.distance(&pos), -5 * DIR_SCALE as i128);
}

#[test]
fn test_chunk_sorting() {
    let mut chunks = vec![
        coord(-5, 0, 5),
        coord(-1, 0, 0),
        coord(0, 0, 0),
        coord(1, 0, 0),
        coord(1, 0, 1),
        coord(5, 0, 0),
    ];
    let camera_chunk = coord(0, 0, 0);
    let camera_dir = vec3(DIR_SCALE, 0, 0);
    sort_by_camera_direction(&camera_dir, &camera_chunk, &mut chunks);

    assert_eq!(chunks[0], coord(0, 0, 0));
    assert_eq!(chunks[1], coord(1, 0, 0));
}

#[test]
fn test_zero_distance_guard_sorts_camera_first() {
    let camera = coord(0, 0, 0);
    let other = coord(2, 0, 1);
    let forward = vec3(DIR_SCALE, 0, 0);
    // The camera's own chunk takes the sentinel minimal score: it loads
    // no later than anything, and nothing distinct loads before it.
    assert!(score_le(&forward, &camera, &camera, &other));
    assert!(!score_le(&forward, &camera, &other, &camera));
}

#[test]
fn test_distance_computation() {
    let a = coord(0, 0, 0);
    let b = coord(3, 0, 4);
    assert_eq!(a.distance_squared(&b), 25);
    assert_eq!((a.distance_squared(&b) as f64).sqrt(), 5.0);
    assert_eq!(a.distance_squared(&a), 0);
    assert_eq!((a.distance_squared(&a) as f64).sqrt(), 0.0);
}

#[test]
fn test_adjacency_symmetric_and_complete() {
    let c = coord(4, -3, 9);
    let neighbours = c.adjacent();
    assert_eq!(neighbours.len(), 6);
    for i in 0..6 {
        for j in (i + 1)..6 {
            assert_ne!(neighbours[i], neighbours[j]);
        }
    }
    for n in &neighbours {
        let back = n.adjacent();
        assert!(back.contains(&c));
    }
    assert!(neighbours.contains(&coord(5, -3, 9)));
    assert!(neighbours.contains(&coord(3, -3, 9)));
    assert!(neighbours.contains(&coord(4, -2, 9)));
    assert!(neighbours.contains(&coord(4, -4, 9)));
    assert!(neighbours.contains(&coord(4, -3, 10)));
    assert!(neighbours.contains(&coord(4, -3, 8)));
}

#[test]
fn test_select_chunks_forward_cone() {
    let camera = coord(0, 0, 0);
    let forward = vec3(DIR_SCALE, 0, 0);
    let r = select_chunks(camera, forward, 2);
    assert_eq!(r[0], camera);
    assert!(r.contains(&coord(1, 0, 0)));
    assert!(r.contains(&coord(2, 0, 0)));
    assert!(!r.contains(&coord(-1, 0, 0)));
    for i in 0..r.len() {
        assert!(camera.chebyshev_distance(&r[i]) <= 2);
        for j in (i + 1)..r.len() {
            assert_ne!(r[i], r[j]);
        }
    }
}

#[test]
fn test_frustum_rejects_box_behind_far_plane() {
    let f = ViewFrustum::new(vec3(0, 0, 0), vec3(DIR_SCALE, 0, 0), vec3(0, DIR_SCALE, 0), 1, 1, 1, 100);
    let behind_far = Aabb { min: vec3(150, -1, -1), max: vec3(151, 1, 1) };
    assert!(!f.contains_box(&behind_far));
}

#[test]
fn test_frustum_rejects_box_behind_near_plane() {
    let f = ViewFrustum::new(vec3(0, 0, 0), vec3(DIR_SCALE, 0, 0), vec3(0, DIR_SCALE, 0), 1, 1, 1, 100);
    let behind_near = Aabb { min: vec3(-20, -1, -1), max: vec3(-10, 1, 1) };
    assert!(!f.contains_box(&behind_near));
}

#[test]
fn test_frustum_admits_viewer_point_at_zero_near() {
    let f = ViewFrustum::new(vec3(3, 4, 5), vec3(DIR_SCALE, 0, 0), vec3(0, DIR_SCALE, 0), 1, 1, 0, 100);
    let point = Aabb { min: vec3(3, 4, 5), max: vec3(3, 4, 5) };
    assert!(f.contains_box(&point));
}

#[test]
fn test_frustum_admits_box_ahead() {
    let f = ViewFrustum::new(vec3(0, 0, 0), vec3(DIR_SCALE, 0, 0), vec3(0, DIR_SCALE, 0), 1, 1, 1, 100);
    let ahead = Aabb { min: vec3(10, -5, -5), max: vec3(20, 5, 5) };
    assert!(f.contains_box(&ahead));
}
