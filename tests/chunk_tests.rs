use blocky::chunky::{index_as_pos, pos_as_index, Chunk, ChunkPos, CHUNK_SIZE, CHUNK_VOLUME};
use blocky::identifier::Identifier;

fn origin() -> ChunkPos {
    ChunkPos { x: 0, y: 0, z: 0 }
}

fn non_solid_count(c: &Chunk) -> usize {
    let mut n = 0;
    for z in 0..CHUNK_SIZE {
        for y in 0..CHUNK_SIZE {
            for x in 0..CHUNK_SIZE {
                if !c.is_solid(x, y, z) {
                    n += 1;
                }
            }
        }
    }
    n
}

#[test]
fn new_chunk_is_empty() {
    let c = Chunk::new(ChunkPos { x: 2, y: -1, z: 7 });
    assert!(c.is_empty());
    assert_eq!(c.air_count(), CHUNK_VOLUME);
    assert_eq!(c.get_chunk_pos(), ChunkPos { x: 2, y: -1, z: 7 });
    assert_eq!(c.palette_len(), 0);
    assert!(c.block_at(0, 0, 0).is_none());
}

#[test]
fn set_then_read_back() {
    let mut c = Chunk::new(origin());
    let stone = Identifier::new("blocky", "stone");
    assert!(c.set_block(3, 4, 5, Some(stone.clone())));
    assert!(c.block_at(3, 4, 5) == Some(stone));
    assert!(c.is_solid(3, 4, 5));
    assert!(c.has_block_at(3, 4, 5));
    assert!(!c.is_empty());
    assert_eq!(c.air_count(), CHUNK_VOLUME - 1);
    assert_eq!(c.get_local_block_id(3, 4, 5), 1);
}

#[test]
fn clear_then_read_back() {
    let mut c = Chunk::new(origin());
    assert!(c.set_block(1, 1, 1, Some(Identifier::new("blocky", "dirt"))));
    assert!(c.set_block(1, 1, 1, None));
    assert!(c.block_at(1, 1, 1).is_none());
    assert!(!c.is_solid(1, 1, 1));
    assert!(c.set_block(2, 2, 2, None));
    assert!(c.block_at(2, 2, 2).is_none());
    assert!(c.is_empty());
    assert!(c.remove_block(9, 9, 9));
}

#[test]
fn out_of_range_writes_are_rejected() {
    let mut c = Chunk::new(origin());
    let stone = Identifier::new("blocky", "stone");
    assert!(!c.set_block(16, 0, 0, Some(stone.clone())));
    assert!(!c.set_block(0, 16, 0, Some(stone.clone())));
    assert!(!c.set_block(0, 0, 99, Some(stone)));
    assert!(c.is_empty());
    assert!(!c.is_solid(0, 1, 0));
    assert!(!c.is_solid(16, 0, 0));
    assert!(c.block_at(16, 0, 0).is_none());
    assert_eq!(c.get_local_block_id(0, 16, 0), 0);
}

#[test]
fn air_count_tracks_writes() {
    let mut c = Chunk::new(origin());
    let stone = Identifier::new("blocky", "stone");
    let dirt = Identifier::new("blocky", "dirt");
    for i in 0..40usize {
        c.set_block(i % 16, (i * 7) % 16, (i * 3) % 16, Some(stone.clone()));
    }
    for i in 0..10usize {
        c.set_block(i % 16, (i * 7) % 16, (i * 3) % 16, Some(dirt.clone()));
    }
    for i in 0..15usize {
        c.set_block((i * 5) % 16, (i * 7) % 16, (i * 3) % 16, None);
    }
    assert_eq!(c.air_count(), non_solid_count(&c));
    assert_eq!(c.is_empty(), c.air_count() == CHUNK_VOLUME);
}

#[test]
fn overwriting_keeps_air_count() {
    let mut c = Chunk::new(origin());
    c.set_block(0, 0, 0, Some(Identifier::new("blocky", "stone")));
    c.set_block(0, 0, 0, Some(Identifier::new("blocky", "dirt")));
    assert_eq!(c.air_count(), CHUNK_VOLUME - 1);
    assert!(c.block_at(0, 0, 0) == Some(Identifier::new("blocky", "dirt")));
    // dirt was new and no slot was free, so it was appended; stone's slot is now free
    assert_eq!(c.palette_len(), 2);
    assert_eq!(c.get_local_block_id(0, 0, 0), 2);
}

#[test]
fn rewriting_the_same_type_changes_nothing() {
    let mut c = Chunk::new(origin());
    c.set_block(0, 0, 0, Some(Identifier::new("blocky", "stone")));
    c.set_block(1, 0, 0, Some(Identifier::new("blocky", "dirt")));
    c.set_block(0, 0, 0, None);
    // palette is now [free, dirt]; rewriting dirt must keep its slot
    assert!(c.set_block(1, 0, 0, Some(Identifier::new("blocky", "dirt"))));
    assert_eq!(c.get_local_block_id(1, 0, 0), 2);
    assert_eq!(c.palette_len(), 2);
    assert_eq!(c.air_count(), CHUNK_VOLUME - 1);
}

#[test]
fn existing_type_keeps_its_slot() {
    let mut c = Chunk::new(origin());
    c.set_block(0, 0, 0, Some(Identifier::new("blocky", "stone")));
    c.set_block(1, 0, 0, Some(Identifier::new("blocky", "dirt")));
    c.set_block(0, 0, 0, None);
    c.set_block(9, 9, 9, Some(Identifier::new("blocky", "dirt")));
    assert_eq!(c.get_local_block_id(9, 9, 9), 2);
    assert_eq!(c.palette_len(), 2);
}

#[test]
fn new_type_takes_first_free_slot_else_appends() {
    let mut c = Chunk::new(origin());
    c.set_block(0, 0, 0, Some(Identifier::new("blocky", "a")));
    c.set_block(1, 0, 0, Some(Identifier::new("blocky", "b")));
    c.set_block(2, 0, 0, Some(Identifier::new("blocky", "c")));
    c.set_block(1, 0, 0, None);
    c.set_block(0, 0, 0, None);
    c.set_block(5, 0, 0, Some(Identifier::new("blocky", "d")));
    assert_eq!(c.get_local_block_id(5, 0, 0), 1);
    c.set_block(6, 0, 0, Some(Identifier::new("blocky", "e")));
    assert_eq!(c.get_local_block_id(6, 0, 0), 2);
    c.set_block(7, 0, 0, Some(Identifier::new("blocky", "f")));
    assert_eq!(c.get_local_block_id(7, 0, 0), 4);
    assert_eq!(c.palette_len(), 4);
}

#[test]
fn same_block_type_shares_a_slot() {
    let mut c = Chunk::new(origin());
    let stone = Identifier::new("blocky", "stone");
    c.set_block(0, 0, 0, Some(stone.clone()));
    c.set_block(5, 5, 5, Some(stone.clone()));
    assert_eq!(c.palette_len(), 1);
    assert_eq!(c.get_local_block_id(0, 0, 0), c.get_local_block_id(5, 5, 5));
}

#[test]
fn freed_palette_slot_is_reused() {
    let mut c = Chunk::new(origin());
    c.set_block(0, 0, 0, Some(Identifier::new("blocky", "stone")));
    c.set_block(1, 0, 0, Some(Identifier::new("blocky", "dirt")));
    let high_water = c.palette_len();
    assert_eq!(high_water, 2);
    c.set_block(1, 0, 0, None);
    c.set_block(7, 7, 7, Some(Identifier::new("blocky", "sand")));
    assert!(c.palette_len() <= high_water);
    assert_eq!(c.get_local_block_id(7, 7, 7), 2);
    assert!(c.block_at(7, 7, 7) == Some(Identifier::new("blocky", "sand")));
    assert!(c.block_at(0, 0, 0) == Some(Identifier::new("blocky", "stone")));
}

#[test]
fn index_packing_round_trips() {
    assert_eq!(pos_as_index(1, 2, 3), 1 + 2 * 16 + 3 * 256);
    assert_eq!(pos_as_index(15, 15, 15), 4095);
    assert_eq!(index_as_pos(801), [1, 2, 3]);
    assert_eq!(index_as_pos(0), [0, 0, 0]);
    assert_eq!(index_as_pos(4096 + 801), [1, 2, 3]);
}

#[test]
fn world_position_of_voxel() {
    let c = Chunk::new(ChunkPos { x: -1, y: 0, z: 2 });
    assert_eq!(c.local_to_world_pos(3, 4, 5), [-13, 4, 37]);
    assert_eq!(c.local_to_world_pos(20, 0, 0), [4, 0, 32]);
}
