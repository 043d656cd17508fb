use blocky::block::{cull_neighbors, VoxelCullCode};
use blocky::chunky::{Chunk, ChunkPos};
use blocky::identifier::Identifier;

fn chunk_with(cells: &[(usize, usize, usize)]) -> Chunk {
    let mut c = Chunk::new(ChunkPos { x: 0, y: 0, z: 0 });
    for &(x, y, z) in cells {
        assert!(c.set_block(x, y, z, Some(Identifier::new("blocky", "stone"))));
    }
    c
}

#[test]
fn face_bits() {
    assert_eq!(VoxelCullCode::U.mask(), 1);
    assert_eq!(VoxelCullCode::D.mask(), 2);
    assert_eq!(VoxelCullCode::R.mask(), 4);
    assert_eq!(VoxelCullCode::L.mask(), 8);
    assert_eq!(VoxelCullCode::B.mask(), 16);
    assert_eq!(VoxelCullCode::F.mask(), 32);
}

#[test]
fn lone_voxel_is_fully_exposed() {
    let c = chunk_with(&[(7, 8, 9)]);
    assert_eq!(cull_neighbors(&c, 7, 8, 9), 63);
    let corner = chunk_with(&[(0, 0, 0)]);
    assert_eq!(cull_neighbors(&corner, 0, 0, 0), 63);
}

#[test]
fn stacked_pair_hides_shared_faces() {
    let c = chunk_with(&[(4, 0, 6), (4, 1, 6)]);
    let lower = cull_neighbors(&c, 4, 0, 6);
    let upper = cull_neighbors(&c, 4, 1, 6);
    assert_eq!(lower, 62);
    assert_eq!(upper, 61);
    assert_eq!(lower & VoxelCullCode::U.mask(), 0);
    assert_eq!(upper & VoxelCullCode::D.mask(), 0);
}

#[test]
fn border_faces_are_always_exposed() {
    let c = chunk_with(&[(0, 5, 5), (1, 5, 5)]);
    let code = cull_neighbors(&c, 0, 5, 5);
    assert_eq!(code & VoxelCullCode::R.mask(), VoxelCullCode::R.mask());
    assert_eq!(code & VoxelCullCode::L.mask(), 0);
    let far = chunk_with(&[(15, 15, 15), (15, 14, 15)]);
    let top = cull_neighbors(&far, 15, 15, 15);
    assert_eq!(top & VoxelCullCode::U.mask(), VoxelCullCode::U.mask());
    assert_eq!(top & VoxelCullCode::L.mask(), VoxelCullCode::L.mask());
    assert_eq!(top & VoxelCullCode::B.mask(), VoxelCullCode::B.mask());
    assert_eq!(top & VoxelCullCode::D.mask(), 0);
}

#[test]
fn buried_voxel_has_no_exposed_face() {
    let c = chunk_with(&[(5, 5, 5), (4, 5, 5), (6, 5, 5), (5, 4, 5), (5, 6, 5), (5, 5, 4), (5, 5, 6)]);
    assert_eq!(cull_neighbors(&c, 5, 5, 5), 0);
    assert_eq!(cull_neighbors(&c, 4, 5, 5), 63 - 8);
}
