use chunkworld::block::{BlockData, BlockId, BlockType, Visibility};
use chunkworld::chunk::Chunk;
use chunkworld::codec::{decode_chunk, encode_chunk, encode_key, StoreError, CHUNK_RECORD_LEN};
use chunkworld::coords::ChunkCoordinate;
use chunkworld::registry::{BlockRegistry, RegistryError};

fn block(name: &str, t: BlockType) -> BlockData {
    BlockData { name: name.to_string(), block_type: t, texture_file: format!("textures/block/{}.png", name) }
}

#[test]
fn record_is_four_little_endian_bytes_per_voxel() {
    let mut c = Chunk::new();
    c.place(BlockId(0x0102_0304), (0, 0, 0));
    c.place(BlockId(0xdead_beef), (0, 1, 0));
    let b = encode_chunk(&c);
    assert_eq!(b.len(), CHUNK_RECORD_LEN);
    assert_eq!(&b[0..8], &[4, 3, 2, 1, 0xef, 0xbe, 0xad, 0xde]);
    assert!(b[8..].iter().all(|&x| x == 0));
}

#[test]
fn record_round_trip_keeps_every_voxel() {
    let mut c = Chunk::new();
    let mut n: u32 = 1;
    for x in 0..32u32 {
        for y in 0..32u32 {
            for z in 0..32u32 {
                if (x * 7 + y * 3 + z) % 5 != 0 {
                    c.place(BlockId(n.wrapping_mul(2_654_435_761)), (x, y, z));
                }
                n += 1;
            }
        }
    }
    let d = decode_chunk(&encode_chunk(&c)).unwrap();
    for x in 0..32u32 {
        for y in 0..32u32 {
            for z in 0..32u32 {
                assert_eq!(d.get(x, y, z), c.get(x, y, z));
            }
        }
    }
}

#[test]
fn record_of_wrong_length_is_corrupt() {
    assert_eq!(decode_chunk(&[0u8; 12]).err(), Some(StoreError::CorruptRecord));
    assert_eq!(decode_chunk(&vec![0u8; CHUNK_RECORD_LEN + 1]).err(), Some(StoreError::CorruptRecord));
    assert_eq!(decode_chunk(&[]).err(), Some(StoreError::CorruptRecord));
}

#[test]
fn key_is_three_little_endian_i32() {
    let k = encode_key(&ChunkCoordinate::new(1, -1, 258));
    assert_eq!(k, vec![1, 0, 0, 0, 255, 255, 255, 255, 2, 1, 0, 0]);
    assert_ne!(encode_key(&ChunkCoordinate::new(0, 0, 1)), encode_key(&ChunkCoordinate::new(0, 1, 0)));
}

#[test]
fn new_registry_holds_air_at_zero() {
    let r = BlockRegistry::new();
    assert_eq!(r.len(), 1);
    assert_eq!(r.id_from_name("air".to_string()), Some(BlockId(0)));
    assert_eq!(r.visibility_from_id(BlockId(0)), Visibility::Empty);
}

#[test]
fn registered_names_get_distinct_ids_that_lead_back() {
    let mut r = BlockRegistry::new();
    let names = ["stone", "dirt", "glass", "water"];
    let types = [BlockType::OpaqueSolid, BlockType::OpaqueSolid, BlockType::TranslucentSolid, BlockType::Fluid];
    for (n, t) in names.iter().zip(types.iter()) {
        r.register_block(block(n, *t)).unwrap();
    }
    let mut seen = Vec::new();
    for n in names.iter() {
        let id = r.id_from_name(n.to_string()).unwrap();
        assert!(!seen.contains(&id));
        seen.push(id);
        assert_eq!(r.block_from_id(id).name, *n);
    }
    assert_eq!(seen, vec![BlockId(1), BlockId(2), BlockId(3), BlockId(4)]);
    assert_eq!(r.visibility_from_id(BlockId(1)), Visibility::Opaque);
    assert_eq!(r.visibility_from_id(BlockId(3)), Visibility::Translucent);
    assert_eq!(r.visibility_from_id(BlockId(4)), Visibility::Translucent);
}

#[test]
fn duplicate_name_is_refused() {
    let mut r = BlockRegistry::new();
    assert_eq!(r.register_block(block("stone", BlockType::OpaqueSolid)), Ok(BlockId(1)));
    assert_eq!(r.register_block(block("stone", BlockType::Empty)), Err(RegistryError::DuplicateName));
    assert_eq!(r.register_block(block("air", BlockType::OpaqueSolid)), Err(RegistryError::DuplicateName));
    assert_eq!(r.len(), 2);
    assert_eq!(r.block_from_id(BlockId(1)).block_type, BlockType::OpaqueSolid);
}

#[test]
fn unknown_name_has_no_id() {
    let r = BlockRegistry::new();
    assert_eq!(r.id_from_name("stone".to_string()), None);
}

#[test]
fn block_types_map_to_visibility() {
    assert_eq!(BlockType::Empty.get_visibility(), Visibility::Empty);
    assert_eq!(BlockType::OpaqueSolid.get_visibility(), Visibility::Opaque);
    assert_eq!(BlockType::TranslucentSolid.get_visibility(), Visibility::Translucent);
    assert_eq!(BlockType::Fluid.get_visibility(), Visibility::Translucent);
}
