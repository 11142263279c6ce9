use chunkworld::block::BlockId;
use chunkworld::chunk::Chunk;
use chunkworld::coords::{
    world_to_chunk_axis, world_to_chunk_coordinate, world_to_local_axis, world_to_local_offset,
    ChunkCoordinate,
};

#[test]
fn new_chunk_is_all_air() {
    let c = Chunk::new();
    for i in 0..32768usize {
        assert_eq!(c.get_index(i), BlockId(0));
    }
}

#[test]
fn place_then_get_reads_back_only_that_voxel() {
    let mut c = Chunk::new();
    c.place(BlockId(7), (1, 2, 3));
    assert_eq!(c.get(1, 2, 3), BlockId(7));
    assert_eq!(c.get(3, 2, 1), BlockId(0));
    assert_eq!(c.get(1, 3, 2), BlockId(0));
}

#[test]
fn voxels_are_laid_out_x_then_z_then_y() {
    let mut c = Chunk::new();
    c.place(BlockId(5), (1, 2, 3));
    assert_eq!(c.get_index(1 * 1024 + 3 * 32 + 2), BlockId(5));
    c.place(BlockId(6), (31, 31, 31));
    assert_eq!(c.get_index(32767), BlockId(6));
}

#[test]
fn duplicate_copies_every_voxel() {
    let mut c = Chunk::new();
    c.place(BlockId(9), (4, 5, 6));
    let d = c.duplicate();
    assert_eq!(d.get(4, 5, 6), BlockId(9));
    assert_eq!(d.get(0, 0, 0), BlockId(0));
}

#[test]
fn world_minus_one_is_last_voxel_of_chunk_minus_one() {
    assert_eq!(world_to_chunk_axis(-1), -1);
    assert_eq!(world_to_local_axis(-1), 31);
}

#[test]
fn world_thirty_two_is_first_voxel_of_chunk_one() {
    assert_eq!(world_to_chunk_axis(32), 1);
    assert_eq!(world_to_local_axis(32), 0);
}

#[test]
fn floor_division_at_chunk_edges() {
    assert_eq!(world_to_chunk_axis(0), 0);
    assert_eq!(world_to_chunk_axis(31), 0);
    assert_eq!(world_to_chunk_axis(-32), -1);
    assert_eq!(world_to_chunk_axis(-33), -2);
    assert_eq!(world_to_local_axis(-32), 0);
    assert_eq!(world_to_local_axis(-33), 31);
}

#[test]
fn chunk_and_local_offset_recover_the_voxel() {
    for w in -100i64..100 {
        let c = world_to_chunk_axis(w) as i64;
        let l = world_to_local_axis(w) as i64;
        assert_eq!(c * 32 + l, w);
        assert!(l >= 0 && l < 32);
    }
}

#[test]
fn world_coordinate_triple() {
    let c = world_to_chunk_coordinate(-1, 32, 65);
    assert_eq!(c, ChunkCoordinate::new(-1, 1, 2));
    assert_eq!(world_to_local_offset(-1, 32, 65), (31, 0, 1));
}
