use blocky::block::{Block, TextureCoords, VoxelCullCode};
use blocky::chunky::{build_chunk_mesh, Chunk, ChunkPos};
use blocky::identifier::Identifier;
use blocky::registry::BlockRegistry;

fn rect(x: u32, y: u32) -> TextureCoords {
    TextureCoords { bottom_left_x: x, bottom_left_y: y, top_right_x: x + 16, top_right_y: y + 16 }
}

fn stone() -> Block {
    Block {
        id: Identifier::new("blocky", "stone"),
        texture_front: rect(0, 0),
        texture_back: rect(16, 0),
        texture_top: rect(32, 0),
        texture_btm: rect(48, 0),
        texture_left: rect(64, 0),
        texture_right: rect(80, 0),
    }
}

fn registry() -> BlockRegistry {
    let mut r = BlockRegistry::new();
    r.register(stone());
    r
}

#[test]
fn single_voxel_mesh() {
    let mut c = Chunk::new(ChunkPos { x: 0, y: 0, z: 0 });
    c.set_block(1, 2, 3, Some(Identifier::new("blocky", "stone")));
    let m = build_chunk_mesh(&c, &registry());
    assert_eq!(m.positions.len(), 24);
    assert_eq!(m.normals.len(), 24);
    assert_eq!(m.uvs.len(), 24);
    assert_eq!(m.indices.len(), 36);
    assert_eq!(&m.indices[0..6], &[0, 1, 2, 2, 3, 0]);
    assert_eq!(&m.indices[6..12], &[4, 5, 6, 6, 7, 4]);
    assert_eq!(&m.positions[0..4], &[[2, 3, 3], [1, 3, 3], [1, 3, 4], [2, 3, 4]]);
    assert_eq!(m.normals[0], [0, 1, 0]);
    assert_eq!(m.normals[4], [0, -1, 0]);
    assert_eq!(m.normals[8], [-1, 0, 0]);
    assert_eq!(m.normals[12], [1, 0, 0]);
    assert_eq!(m.normals[16], [0, 0, -1]);
    assert_eq!(m.normals[20], [0, 0, 1]);
    assert_eq!(&m.uvs[0..4], &stone().get_uvs_top()[..]);
    assert_eq!(&m.uvs[20..24], &stone().get_uvs_back()[..]);
}

#[test]
fn mesh_world_offset() {
    let mut c = Chunk::new(ChunkPos { x: 1, y: 0, z: -1 });
    c.set_block(0, 0, 0, Some(Identifier::new("blocky", "stone")));
    let m = build_chunk_mesh(&c, &registry());
    assert_eq!(m.positions[0], [17, 1, -16]);
}

#[test]
fn stacked_pair_mesh_counts() {
    let mut c = Chunk::new(ChunkPos { x: 0, y: 0, z: 0 });
    c.set_block(4, 0, 4, Some(Identifier::new("blocky", "stone")));
    c.set_block(4, 1, 4, Some(Identifier::new("blocky", "stone")));
    let m = build_chunk_mesh(&c, &registry());
    let k = 10;
    assert_eq!(m.positions.len(), 4 * k);
    assert_eq!(m.normals.len(), 4 * k);
    assert_eq!(m.uvs.len(), 4 * k);
    assert_eq!(m.indices.len(), 6 * k);
    for q in 0..k {
        for s in 0..6 {
            let i = m.indices[6 * q + s] as usize;
            assert!(4 * q <= i && i < 4 * q + 4);
        }
    }
}

#[test]
fn unregistered_block_type_draws_nothing() {
    let mut c = Chunk::new(ChunkPos { x: 0, y: 0, z: 0 });
    c.set_block(1, 1, 1, Some(Identifier::new("blocky", "missing")));
    c.set_block(8, 8, 8, Some(Identifier::new("blocky", "stone")));
    let m = build_chunk_mesh(&c, &registry());
    assert_eq!(m.positions.len(), 24);
    assert_eq!(m.indices.len(), 36);
}

#[test]
fn empty_chunk_has_empty_mesh() {
    let c = Chunk::new(ChunkPos { x: 0, y: 0, z: 0 });
    let m = build_chunk_mesh(&c, &registry());
    assert!(m.positions.is_empty() && m.indices.is_empty());
}

#[test]
fn face_uv_orders() {
    let b = stone();
    assert_eq!(b.get_uvs_top(), vec![[32, 0], [48, 0], [48, 16], [32, 16]]);
    assert_eq!(b.get_uvs_bottom(), vec![[64, 0], [48, 0], [48, 16], [64, 16]]);
    assert_eq!(b.get_uvs_left(), vec![[80, 0], [64, 0], [64, 16], [80, 16]]);
    assert_eq!(b.get_uvs_right(), vec![[80, 0], [96, 0], [96, 16], [80, 16]]);
    assert_eq!(b.get_uvs_front(), vec![[16, 0], [0, 0], [0, 16], [16, 16]]);
    assert_eq!(b.get_uvs_back(), vec![[32, 16], [16, 16], [16, 0], [32, 0]]);
    assert_eq!(b.get_uvs(VoxelCullCode::U), b.get_uvs_top());
    assert!(b.get_identifier() == Identifier::new("blocky", "stone"));
}

#[test]
fn get_block_returns_the_written_type() {
    let mut c = Chunk::new(ChunkPos { x: 0, y: 0, z: 0 });
    assert!(c.add_block(2, 3, 4, Some(stone())));
    let b = c.get_block(2, 3, 4, &registry()).unwrap();
    assert_eq!(b.get_identifier().as_string(), "blocky:stone");
    assert!(c.get_block(2, 3, 5, &registry()).is_none());
    assert!(c.add_block(2, 3, 4, None));
    assert!(c.get_block(2, 3, 4, &registry()).is_none());
}
