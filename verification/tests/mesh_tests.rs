use chunk_stream::chunk_data::ChunkData;
use chunk_stream::mesh::{generate_mesh, Mesh};

fn solid_chunk() -> ChunkData {
    ChunkData::from_voxels(vec![true; 4096])
}

fn empty_chunk() -> ChunkData {
    ChunkData::from_voxels(vec![false; 4096])
}

fn single_voxel_chunk() -> ChunkData {
    let mut voxels = vec![false; 4096];
    voxels[0] = true;
    ChunkData::from_voxels(voxels)
}

fn no_neighbours() -> Vec<Option<ChunkData>> {
    vec![None, None, None, None, None, None]
}

/// Vertices whose normal points along +x and that lie on the +x chunk
/// boundary plane.
fn positive_x_boundary_vertices(m: &Mesh) -> usize {
    m.vertices
        .iter()
        .filter(|v| v.normal.x == 1 && v.normal.y == 0 && v.normal.z == 0 && v.position.x == 16)
        .count()
}

#[test]
fn test_no_face_between_mutually_solid_chunks() {
    let center = solid_chunk();
    let neighbours = vec![Some(solid_chunk()), None, None, None, None, None];
    let mesh = generate_mesh(&center, &neighbours);
    // The +x boundary of the centre chunk touches an all-solid neighbour:
    // no face may be emitted on the shared boundary.
    assert_eq!(positive_x_boundary_vertices(&mesh), 0);
}

#[test]
fn test_boundary_face_emitted_when_neighbour_unknown() {
    let center = solid_chunk();
    let mesh = generate_mesh(&center, &no_neighbours());
    // Unknown neighbours count as air: all 16 x 16 boundary faces appear.
    assert_eq!(positive_x_boundary_vertices(&mesh), 256 * 4);
    // A solid chunk with no known neighbours shows exactly its six faces:
    // 6 sides of 256 quads each.
    assert_eq!(mesh.vertices.len(), 6 * 256 * 4);
    assert_eq!(mesh.indices.len(), 6 * 256 * 6);
}

#[test]
fn test_interior_faces_culled() {
    let center = solid_chunk();
    let mesh = generate_mesh(&center, &no_neighbours());
    // No vertex lies strictly inside the chunk: every face sits on the
    // chunk's outer boundary.
    for v in &mesh.vertices {
        let on_boundary = v.position.x == 0
            || v.position.x == 16
            || v.position.y == 0
            || v.position.y == 16
            || v.position.z == 0
            || v.position.z == 16;
        assert!(on_boundary);
    }
}

#[test]
fn test_empty_chunk_has_empty_mesh() {
    let mesh = generate_mesh(&empty_chunk(), &no_neighbours());
    assert_eq!(mesh.vertices.len(), 0);
    assert_eq!(mesh.indices.len(), 0);
}

#[test]
fn test_single_voxel_mesh_shape() {
    let mesh = generate_mesh(&single_voxel_chunk(), &no_neighbours());
    assert_eq!(mesh.vertices.len(), 24);
    assert_eq!(mesh.indices.len(), 36);
    // Two triangles per quad, indices into the face's four corners.
    assert_eq!(&mesh.indices[0..6], &[0, 1, 2, 0, 2, 3]);
    assert_eq!(&mesh.indices[6..12], &[4, 5, 6, 4, 6, 7]);
    // Every index stays within the vertex buffer.
    for i in &mesh.indices {
        assert!((*i as usize) < mesh.vertices.len());
    }
}

#[test]
fn test_face_against_solid_interior_neighbour_culled() {
    // Two solid voxels side by side within one chunk: the shared face is
    // culled, leaving 10 faces instead of 12.
    let mut voxels = vec![false; 4096];
    voxels[0] = true; // (0, 0, 0)
    voxels[256] = true; // (1, 0, 0)
    let data = ChunkData::from_voxels(voxels);
    let mesh = generate_mesh(&data, &no_neighbours());
    assert_eq!(mesh.vertices.len(), 10 * 4);
    assert_eq!(mesh.indices.len(), 10 * 6);
}
