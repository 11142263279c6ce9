use chunkworld::block::{BlockData, BlockId, BlockType};
use chunkworld::cache::ChunkCache;
use chunkworld::chunk::Chunk;
use chunkworld::codec::{encode_key, StoreError};
use chunkworld::coords::ChunkCoordinate;
use chunkworld::pipeline::{Action, Event, Phase, PipelineTable};
use chunkworld::store::{record_to_chunk, ChunkStore};
use chunkworld::universe::{dimension_name, neighbor_coordinate, remesh_buffer, resident_neighbors, TaskError, Universe};

fn temp_db() -> sled::Db {
    sled::Config::new().temporary(true).open().unwrap()
}

fn chunk_with(id: u32, pos: (u32, u32, u32)) -> Chunk {
    let mut c = Chunk::new();
    c.place(BlockId(id), pos);
    c
}

fn universe(db: &sled::Db, capacity: usize) -> Universe {
    let mut u = Universe::new(db, capacity).unwrap();
    for n in ["stone", "dirt"] {
        u.register_block(BlockData { name: n.to_string(), block_type: BlockType::OpaqueSolid, texture_file: String::new() })
            .unwrap();
    }
    u
}

#[test]
fn cache_evicts_least_recently_used() {
    let mut cache = ChunkCache::new(2);
    let a = ChunkCoordinate::new(0, 0, 0);
    let b = ChunkCoordinate::new(1, 0, 0);
    let c = ChunkCoordinate::new(2, 0, 0);
    cache.insert(a, chunk_with(1, (0, 0, 0)));
    cache.insert(b, chunk_with(2, (0, 0, 0)));
    assert_eq!(cache.get(&a).unwrap().get(0, 0, 0), BlockId(1));
    cache.insert(c, chunk_with(3, (0, 0, 0)));
    assert!(cache.contains(&a));
    assert!(!cache.contains(&b));
    assert!(cache.contains(&c));
    cache.remove(&a);
    assert!(!cache.contains(&a));
    assert!(cache.get(&a).is_none());
}

#[test]
fn cache_insert_replaces_existing_entry() {
    let mut cache = ChunkCache::new(3);
    let a = ChunkCoordinate::new(0, 0, 0);
    cache.insert(a, chunk_with(1, (0, 0, 0)));
    cache.insert(a, chunk_with(2, (0, 0, 0)));
    assert_eq!(cache.get(&a).unwrap().get(0, 0, 0), BlockId(2));
}

#[test]
fn record_conversion() {
    assert!(matches!(record_to_chunk(None), Ok(None)));
    assert_eq!(record_to_chunk(Some(vec![1, 2, 3])).err(), Some(StoreError::CorruptRecord));
    let mut bytes = vec![0u8; 131072];
    bytes[4] = 9;
    let c = record_to_chunk(Some(bytes)).unwrap().unwrap();
    assert_eq!(c.get(0, 1, 0), BlockId(9));
}

#[test]
fn store_reads_back_from_disk_after_eviction() {
    let db = temp_db();
    let mut s = ChunkStore::new(db.open_tree("t").unwrap(), 1);
    let a = ChunkCoordinate::new(-3, 2, 7);
    let b = ChunkCoordinate::new(4, 4, 4);
    assert!(!s.contains(&a).unwrap());
    assert!(s.get(&a).unwrap().is_none());
    s.put(&a, chunk_with(5, (1, 2, 3))).unwrap();
    s.put(&b, chunk_with(6, (3, 2, 1))).unwrap();
    assert!(s.contains(&a).unwrap());
    let got = s.get(&a).unwrap().unwrap();
    assert_eq!(got.get(1, 2, 3), BlockId(5));
    assert_eq!(got.get(3, 2, 1), BlockId(0));
    let got_b = s.get(&b).unwrap().unwrap();
    assert_eq!(got_b.get(3, 2, 1), BlockId(6));
}

#[test]
fn store_persists_the_raw_record_under_the_coordinate_key() {
    let db = temp_db();
    let tree = db.open_tree("t").unwrap();
    let mut s = ChunkStore::new(tree.clone(), 4);
    let a = ChunkCoordinate::new(1, 2, 3);
    s.put(&a, chunk_with(0x0102_0304, (0, 0, 0))).unwrap();
    let raw = tree.get(encode_key(&a)).unwrap().unwrap();
    assert_eq!(raw.len(), 131072);
    assert_eq!(&raw[0..4], &[4, 3, 2, 1]);
}

#[test]
fn corrupt_record_is_reported() {
    let db = temp_db();
    let tree = db.open_tree("t").unwrap();
    let a = ChunkCoordinate::new(0, 0, 0);
    tree.insert(encode_key(&a), vec![1u8, 2, 3]).unwrap();
    let mut s = ChunkStore::new(tree, 4);
    assert_eq!(s.get(&a).err(), Some(StoreError::CorruptRecord));
}

#[test]
fn dimension_tree_name_is_prefixed() {
    assert_eq!(dimension_name(&b"overworld".to_vec()), b"dim:overworld".to_vec());
}

#[test]
fn universe_starts_with_air_and_registers_blocks() {
    let db = temp_db();
    let u = universe(&db, 4);
    assert_eq!(u.block_id_from_name("air".to_string()), Some(BlockId(0)));
    assert_eq!(u.block_id_from_name("dirt".to_string()), Some(BlockId(2)));
    assert_eq!(u.get_block_data_id(BlockId(1)).name, "stone");
    assert_eq!(u.get_block_data_name("dirt".to_string()).unwrap().block_type, BlockType::OpaqueSolid);
    assert!(u.get_block_data_name("lava".to_string()).is_none());
}

#[test]
fn generated_chunk_is_fetched_without_generating_again() {
    let db = temp_db();
    let mut u = universe(&db, 4);
    let coord = ChunkCoordinate::new(0, 0, 0);
    let heights: Vec<i32> = (0..1024).map(|i| i % 20).collect();
    let mut table = PipelineTable::new();
    assert_eq!(u.on_load_chunk(&mut table, &coord).unwrap(), Action::StartGeneration);
    u.generate_and_persist(&coord, &heights).unwrap();
    let first = u.fetch_chunk(&coord).unwrap().unwrap();
    assert_eq!(first.get(0, 0, 0), BlockId(2));
    assert_eq!(first.get(0, 0, 1), BlockId(1));
    assert_eq!(first.get(0, 1, 1), BlockId(2));
    assert_eq!(first.get(0, 2, 1), BlockId(0));
    let mut fresh_table = PipelineTable::new();
    assert_eq!(u.on_load_chunk(&mut fresh_table, &coord).unwrap(), Action::StartRemesh);
    let again = u.fetch_chunk(&coord).unwrap().unwrap();
    assert_eq!(chunkworld::codec::encode_chunk(&first), chunkworld::codec::encode_chunk(&again));
}

#[test]
fn generation_without_terrain_blocks_fails() {
    let db = temp_db();
    let mut u = Universe::new(&db, 4).unwrap();
    let heights = vec![0i32; 1024];
    assert_eq!(u.generate_and_persist(&ChunkCoordinate::new(0, 0, 0), &heights).err(), Some(TaskError::UnknownBlockName));
}

#[test]
fn remesh_input_needs_a_stored_chunk_with_known_blocks() {
    let db = temp_db();
    let mut u = universe(&db, 4);
    let coord = ChunkCoordinate::new(0, 0, 0);
    assert_eq!(u.remesh_input(&coord).err(), Some(TaskError::MissingChunk));
    u.flush_chunk(&coord, chunk_with(99, (0, 0, 0))).unwrap();
    assert_eq!(u.remesh_input(&coord).err(), Some(TaskError::InvalidBlockId));
    u.flush_chunk(&coord, chunk_with(1, (0, 0, 0))).unwrap();
    let (c, voxels) = u.remesh_input(&coord).unwrap();
    assert_eq!(c.get(0, 0, 0), BlockId(1));
    assert_eq!(voxels[1 + 34 + 1156].id, BlockId(1));
}

#[test]
fn edit_survives_a_fresh_store_handle() {
    let path = "/tmp/chunkworld-edit-survives-reopen";
    let coord = ChunkCoordinate::new(2, -1, 5);
    {
        let db = sled::open(path).unwrap();
        let mut u = universe(&db, 4);
        u.flush_chunk(&coord, chunk_with(1, (7, 8, 9))).unwrap();
        assert_eq!(u.fetch_chunk(&coord).unwrap().unwrap().get(7, 8, 9), BlockId(1));
        assert_eq!(u.edit_block(&coord, (7, 8, 9), BlockId(0)), Ok(true));
        db.flush().unwrap();
    }
    let db = sled::open(path).unwrap();
    let mut u = universe(&db, 4);
    let c = u.fetch_chunk(&coord).unwrap().unwrap();
    assert_eq!(c.get(7, 8, 9), BlockId(0));
}

#[test]
fn edit_of_missing_chunk_reports_false() {
    let db = temp_db();
    let mut u = universe(&db, 4);
    assert_eq!(u.edit_block(&ChunkCoordinate::new(9, 9, 9), (0, 0, 0), BlockId(1)), Ok(false));
}

#[test]
fn remesh_input_reads_stored_neighbours() {
    let db = temp_db();
    let mut u = universe(&db, 8);
    let coord = ChunkCoordinate::new(0, 0, 0);
    u.flush_chunk(&coord, chunk_with(1, (31, 0, 0))).unwrap();
    u.flush_chunk(&ChunkCoordinate::new(1, 0, 0), chunk_with(2, (0, 0, 0))).unwrap();
    let (_, voxels) = u.remesh_input(&coord).unwrap();
    assert_eq!(voxels[33 + 34 + 1156].id, BlockId(2));
    assert_eq!(voxels[34 + 1156].id, BlockId(0));
}

#[test]
fn neighbour_coordinates_follow_face_order() {
    let c = ChunkCoordinate::new(5, -2, 9);
    assert_eq!(neighbor_coordinate(&c, 0), Some(ChunkCoordinate::new(4, -2, 9)));
    assert_eq!(neighbor_coordinate(&c, 1), Some(ChunkCoordinate::new(5, -3, 9)));
    assert_eq!(neighbor_coordinate(&c, 5), Some(ChunkCoordinate::new(5, -2, 10)));
    assert_eq!(neighbor_coordinate(&ChunkCoordinate::new(i32::MAX, 0, 0), 3), None);
    assert_eq!(neighbor_coordinate(&ChunkCoordinate::new(i32::MIN, 0, 0), 0), None);
}

#[test]
fn editing_a_resident_chunk_sends_it_to_remeshing() {
    let db = temp_db();
    let mut u = universe(&db, 4);
    let coord = ChunkCoordinate::new(0, 0, 0);
    u.flush_chunk(&coord, chunk_with(1, (2, 3, 4))).unwrap();
    let mut table = PipelineTable::new();
    assert_eq!(u.on_load_chunk(&mut table, &coord).unwrap(), Action::StartRemesh);
    table.apply(&coord, Event::RemeshFinished { ok: true });
    assert_eq!(table.phase_of(&coord), Some(Phase::Resident));
    assert_eq!(u.place_block(&mut table, &coord, (2, 3, 4), BlockId(0)), Ok(Some(Action::StartRemesh)));
    assert_eq!(table.phase_of(&coord), Some(Phase::Remeshing));
    assert_eq!(u.fetch_chunk(&coord).unwrap().unwrap().get(2, 3, 4), BlockId(0));
    let missing = ChunkCoordinate::new(5, 5, 5);
    assert_eq!(u.place_block(&mut table, &missing, (0, 0, 0), BlockId(1)), Ok(None));
    assert_eq!(table.phase_of(&missing), None);
}

#[test]
fn world_voxels_resolve_to_chunk_and_offset() {
    let db = temp_db();
    let mut u = universe(&db, 4);
    let mut table = PipelineTable::new();
    let coord = ChunkCoordinate::new(-1, 0, 1);
    assert_eq!(u.block_at_world(-1, 5, 40), Ok(None));
    u.flush_chunk(&coord, Chunk::new()).unwrap();
    assert_eq!(u.block_at_world(-1, 5, 40), Ok(Some(BlockId(0))));
    assert_eq!(u.place_block_at(&mut table, -1, 5, 40, BlockId(2)), Ok(Some(Action::Nothing)));
    assert_eq!(u.block_at_world(-1, 5, 40), Ok(Some(BlockId(2))));
    assert_eq!(u.fetch_chunk(&coord).unwrap().unwrap().get(31, 5, 8), BlockId(2));
}

#[test]
fn only_resident_face_neighbours_are_refreshed() {
    let mut t = PipelineTable::new();
    let c = ChunkCoordinate::new(0, 0, 0);
    let east = ChunkCoordinate::new(1, 0, 0);
    let below = ChunkCoordinate::new(0, -1, 0);
    let diagonal = ChunkCoordinate::new(1, 1, 0);
    for n in [east, below, diagonal] {
        t.apply(&n, Event::LoadRequested { stored: true });
    }
    t.apply(&east, Event::RemeshFinished { ok: true });
    t.apply(&diagonal, Event::RemeshFinished { ok: true });
    assert_eq!(resident_neighbors(&t, &c), vec![east]);
    t.apply(&below, Event::RemeshFinished { ok: true });
    assert_eq!(resident_neighbors(&t, &c), vec![below, east]);
}

#[test]
fn remesh_buffer_rejects_unknown_ids_and_skips_unusable_neighbours() {
    let db = temp_db();
    let u = universe(&db, 4);
    let reads = |east: Option<Chunk>| -> Vec<Option<Chunk>> {
        let mut v: Vec<Option<Chunk>> = (0..6).map(|_| None).collect();
        v[3] = east;
        v
    };
    assert_eq!(
        remesh_buffer(&u.registry, &chunk_with(77, (0, 0, 0)), reads(None)).err(),
        Some(TaskError::InvalidBlockId)
    );
    let v = remesh_buffer(&u.registry, &Chunk::new(), reads(Some(chunk_with(2, (0, 0, 0))))).unwrap();
    assert_eq!(v[33 + 34 + 1156].id, BlockId(2));
    let v = remesh_buffer(&u.registry, &Chunk::new(), reads(Some(chunk_with(99, (0, 0, 0))))).unwrap();
    assert_eq!(v[33 + 34 + 1156].id, BlockId(0));
}
