use chunkworld::block::BlockId;
use chunkworld::materials::BlockMaterials;

#[test]
fn material_is_resolved_once_per_block_and_variant() {
    let mut m: BlockMaterials<String> = BlockMaterials::new();
    assert!(m.get_material(BlockId(1), 0).is_none());
    assert!(m.insert_material(BlockId(1), 0, "stone.png".to_string()));
    assert!(!m.insert_material(BlockId(1), 0, "other.png".to_string()));
    assert_eq!(m.get_material(BlockId(1), 0).map(|s| s.as_str()), Some("stone.png"));
    assert!(m.get_material(BlockId(1), 1).is_none());
    assert!(m.insert_material(BlockId(2), 0, "dirt.png".to_string()));
    assert_eq!(m.get_material(BlockId(2), 0).map(|s| s.as_str()), Some("dirt.png"));
    assert_eq!(m.get_material(BlockId(1), 0).map(|s| s.as_str()), Some("stone.png"));
}
