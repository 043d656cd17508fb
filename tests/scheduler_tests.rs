use blocky::block::{Block, TextureCoords};
use blocky::chunk_manager::{chunk_grid, generate_chunk, ChunkScheduler};
use blocky::chunky::{Chunk, ChunkPos, CHUNK_VOLUME};
use blocky::identifier::Identifier;
use blocky::registry::BlockRegistry;

fn grass() -> Block {
    let t = TextureCoords { bottom_left_x: 0, bottom_left_y: 0, top_right_x: 16, top_right_y: 16 };
    Block {
        id: Identifier::new("blocky", "grass_block"),
        texture_front: t,
        texture_back: t,
        texture_top: t,
        texture_btm: t,
        texture_left: t,
        texture_right: t,
    }
}

#[test]
fn grid_coordinates() {
    let g = chunk_grid(-1, 1);
    assert_eq!(
        g,
        vec![
            ChunkPos { x: -1, y: 0, z: -1 },
            ChunkPos { x: 0, y: 0, z: -1 },
            ChunkPos { x: -1, y: 0, z: 0 },
            ChunkPos { x: 0, y: 0, z: 0 },
        ]
    );
    assert_eq!(chunk_grid(-24, 24).len(), 48 * 48);
    assert!(chunk_grid(3, 3).is_empty());
    assert!(chunk_grid(5, -5).is_empty());
}

#[test]
fn spawn_and_drain_every_coordinate_once() {
    let mut s = ChunkScheduler::new();
    let mut request = chunk_grid(0, 3);
    request.push(ChunkPos { x: 1, y: 0, z: 1 });
    let started = s.spawn(&request);
    assert_eq!(started.len(), 9);
    assert_eq!(s.pending_count(), 9);
    assert!(s.spawn(&chunk_grid(0, 2)).is_empty());
    for pos in started.iter().rev() {
        assert!(s.integrate(Chunk::new(*pos)));
        assert!(!s.integrate(Chunk::new(*pos)));
    }
    assert!(!s.integrate(Chunk::new(ChunkPos { x: 9, y: 9, z: 9 })));
    assert_eq!(s.pending_count(), 0);
    for pos in started.iter() {
        assert_eq!(s.get_chunk(*pos).map(|c| c.get_chunk_pos()), Some(*pos));
    }
    assert!(s.get_chunk(ChunkPos { x: 9, y: 9, z: 9 }).is_none());
}

#[test]
fn generated_chunk_follows_height_map() {
    let mut heights = vec![3usize; 256];
    heights[16 * 2 + 5] = 20;
    heights[16 * 7 + 1] = 15;
    let mut reg = BlockRegistry::new();
    reg.register(grass());
    let (chunk, mesh) = generate_chunk(ChunkPos { x: 2, y: 0, z: -3 }, &heights, &grass(), &reg);
    assert_eq!(chunk.get_chunk_pos(), ChunkPos { x: 2, y: 0, z: -3 });
    assert_eq!(chunk.air_count(), CHUNK_VOLUME - 255);
    assert!(chunk.is_solid(0, 3, 0));
    assert!(!chunk.is_solid(0, 2, 0));
    assert!(!chunk.is_solid(5, 3, 2));
    assert!(chunk.is_solid(1, 15, 7));
    assert!(chunk.block_at(9, 3, 9) == Some(Identifier::new("blocky", "grass_block")));
    assert_eq!(mesh.positions.len() % 4, 0);
    assert_eq!(mesh.indices.len() / 6, mesh.positions.len() / 4);
    assert!(!mesh.positions.is_empty());
}

#[test]
fn interleaved_spawns_and_completions() {
    let mut s = ChunkScheduler::new();
    let a = ChunkPos { x: 0, y: 0, z: 0 };
    let b = ChunkPos { x: 1, y: 0, z: 0 };
    let c = ChunkPos { x: 2, y: 0, z: 0 };
    assert_eq!(s.spawn(&vec![a, b]), vec![a, b]);
    assert!(s.integrate(Chunk::new(b)));
    assert_eq!(s.spawn(&vec![b, c, a]), vec![c]);
    assert!(!s.integrate(Chunk::new(b)));
    assert!(s.integrate(Chunk::new(c)));
    assert_eq!(s.pending_count(), 1);
    assert!(s.integrate(Chunk::new(a)));
    assert_eq!(s.pending_count(), 0);
}
