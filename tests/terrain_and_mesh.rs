use chunkworld::block::{BlockData, BlockId, BlockType, Visibility};
use chunkworld::chunk::Chunk;
use chunkworld::codec::encode_chunk;
use chunkworld::coords::ChunkCoordinate;
use chunkworld::mesh::{group_quads, mesh_chunk, mesh_voxels, padded_voxels, quad_uvs, Face, MeshVoxel, Quad, PADDED_VOLUME};
use chunkworld::registry::BlockRegistry;
use chunkworld::terrain::{fill_chunk, generate_chunk, TerrainError};

fn mesh_quads(r: &BlockRegistry, c: &Chunk, nb: &Vec<Option<Chunk>>) -> Vec<Quad> {
    let groups = mesh_chunk(r, c, nb);
    groups.into_iter().flat_map(|g| g.quads.into_iter()).collect()
}

fn no_neighbors() -> Vec<Option<Chunk>> {
    (0..6).map(|_| None).collect()
}

fn solid(id: u32) -> Chunk {
    let mut c = Chunk::new();
    for x in 0..32 {
        for y in 0..32 {
            for z in 0..32 {
                c.place(BlockId(id), (x, y, z));
            }
        }
    }
    c
}

fn registry() -> BlockRegistry {
    let mut r = BlockRegistry::new();
    for n in ["stone", "dirt"] {
        r.register_block(BlockData {
            name: n.to_string(),
            block_type: BlockType::OpaqueSolid,
            texture_file: String::new(),
        })
        .unwrap();
    }
    r
}

#[test]
fn fill_puts_fill_below_surface_at_and_air_above() {
    let heights = vec![40i32; 1024];
    let c = fill_chunk(1, &heights, BlockId(1), BlockId(2));
    assert_eq!(c.get(0, 7, 0), BlockId(1));
    assert_eq!(c.get(5, 8, 9), BlockId(2));
    assert_eq!(c.get(5, 9, 9), BlockId(0));
    assert_eq!(c.get(31, 31, 31), BlockId(0));
}

#[test]
fn fill_follows_each_column() {
    let mut heights = vec![-100i32; 1024];
    heights[3 * 32 + 4] = 2;
    let c = fill_chunk(0, &heights, BlockId(1), BlockId(2));
    assert_eq!(c.get(3, 0, 4), BlockId(1));
    assert_eq!(c.get(3, 1, 4), BlockId(1));
    assert_eq!(c.get(3, 2, 4), BlockId(2));
    assert_eq!(c.get(3, 3, 4), BlockId(0));
    assert_eq!(c.get(4, 0, 3), BlockId(0));
}

#[test]
fn negative_chunk_below_surface_is_solid() {
    let heights = vec![0i32; 1024];
    let c = fill_chunk(-1, &heights, BlockId(1), BlockId(2));
    assert_eq!(c.get(10, 0, 10), BlockId(1));
    assert_eq!(c.get(10, 31, 10), BlockId(1));
    let above = fill_chunk(0, &heights, BlockId(1), BlockId(2));
    assert_eq!(above.get(10, 0, 10), BlockId(2));
    assert_eq!(above.get(10, 1, 10), BlockId(0));
}

#[test]
fn generation_needs_stone_and_dirt() {
    let heights = vec![5i32; 1024];
    let r = BlockRegistry::new();
    assert_eq!(generate_chunk(&r, ChunkCoordinate::new(0, 0, 0), &heights).err(), Some(TerrainError::UnknownBlockName));
}

#[test]
fn generation_is_byte_identical_on_repeat() {
    let r = registry();
    let heights: Vec<i32> = (0..1024).map(|i| (i % 37) - 10).collect();
    let coord = ChunkCoordinate::new(3, 0, -2);
    let a = generate_chunk(&r, coord, &heights).unwrap();
    let b = generate_chunk(&r, coord, &heights).unwrap();
    assert_eq!(encode_chunk(&a), encode_chunk(&b));
    assert_eq!(a.get(0, 0, 0), BlockId(0));
    assert_eq!(a.get(1, 5, 0), BlockId(1));
    assert_eq!(a.get(1, 22, 0), BlockId(2));
    assert_eq!(a.get(1, 23, 0), BlockId(0));
}

#[test]
fn padded_buffer_has_air_border_and_chunk_inside() {
    let r = registry();
    let mut c = Chunk::new();
    c.place(BlockId(1), (0, 0, 0));
    c.place(BlockId(2), (31, 0, 5));
    let v = padded_voxels(&r, &c, &no_neighbors());
    assert_eq!(v.len(), PADDED_VOLUME);
    let at = |x: usize, y: usize, z: usize| v[x + 34 * y + 1156 * z];
    assert_eq!(at(1, 1, 1), MeshVoxel { id: BlockId(1), visibility: Visibility::Opaque });
    assert_eq!(at(32, 1, 6), MeshVoxel { id: BlockId(2), visibility: Visibility::Opaque });
    assert_eq!(at(0, 1, 1), MeshVoxel { id: BlockId(0), visibility: Visibility::Empty });
    assert_eq!(at(33, 33, 33).visibility, Visibility::Empty);
    assert_eq!(at(2, 1, 1).visibility, Visibility::Empty);
}

#[test]
fn air_chunk_meshes_to_no_quads() {
    let r = registry();
    let c = Chunk::new();
    assert_eq!(mesh_chunk(&r, &c, &no_neighbors()).len(), 0);
    let mut nb = no_neighbors();
    nb[2] = Some(solid(1));
    assert_eq!(mesh_chunk(&r, &c, &nb).len(), 0);
}

#[test]
fn solid_chunk_meshes_to_one_quad_per_side() {
    let r = registry();
    let c = solid(1);
    let quads = mesh_quads(&r, &c, &no_neighbors());
    assert_eq!(quads.len(), 6);
    for q in quads.iter() {
        assert_eq!((q.width, q.height), (32, 32));
    }
    let groups = mesh_voxels(&c, &padded_voxels(&r, &c, &no_neighbors()));
    assert_eq!(groups.len(), 1);
    assert_eq!(groups[0].block, BlockId(1));
    assert_eq!(groups[0].quads.len(), 6);
}

#[test]
fn quads_are_grouped_by_owning_block() {
    let mut c = Chunk::new();
    c.place(BlockId(1), (0, 0, 0));
    c.place(BlockId(2), (1, 0, 0));
    c.place(BlockId(1), (5, 5, 5));
    let q = |x: u32, y: u32, z: u32| Quad { face: Face::PosY, x, y, z, width: 1, height: 1 };
    let quads = vec![q(1, 1, 1), q(2, 1, 1), q(6, 6, 6), q(2, 1, 1)];
    let groups = group_quads(&c, &quads);
    assert_eq!(groups.len(), 2);
    assert_eq!(groups[0].block, BlockId(1));
    assert_eq!(groups[0].quads, vec![q(1, 1, 1), q(6, 6, 6)]);
    assert_eq!(groups[1].block, BlockId(2));
    assert_eq!(groups[1].quads, vec![q(2, 1, 1), q(2, 1, 1)]);
}

#[test]
fn two_block_chunk_keeps_surface_area() {
    let r = registry();
    let mut c = Chunk::new();
    c.place(BlockId(1), (3, 3, 3));
    c.place(BlockId(2), (4, 3, 3));
    let groups = mesh_chunk(&r, &c, &no_neighbors());
    assert_eq!(groups.len(), 2);
    let area: u32 = groups.iter().flat_map(|g| g.quads.iter()).map(|q| q.width * q.height).sum();
    assert_eq!(area, 10);
    for g in groups.iter() {
        assert_eq!(g.quads.len(), 5);
    }
}

#[test]
fn uvs_scale_with_quad_size() {
    let up = Quad { face: Face::PosY, x: 1, y: 1, z: 1, width: 3, height: 2 };
    assert_eq!(quad_uvs(&up), [(0, 2), (3, 2), (0, 0), (3, 0)]);
    let side = Quad { face: Face::PosX, ..up };
    assert_eq!(quad_uvs(&side), [(3, 2), (0, 2), (3, 0), (0, 0)]);
    let west = Quad { face: Face::NegX, ..up };
    assert_eq!(quad_uvs(&west), [(0, 2), (3, 2), (0, 0), (3, 0)]);
}

#[test]
fn border_reads_the_touching_layer_of_each_neighbour() {
    let r = registry();
    let c = Chunk::new();
    let mut east = Chunk::new();
    east.place(BlockId(2), (0, 4, 5));
    east.place(BlockId(1), (1, 4, 5));
    let mut below = Chunk::new();
    below.place(BlockId(1), (6, 31, 7));
    let mut nb = no_neighbors();
    nb[3] = Some(east);
    nb[1] = Some(below);
    let v = padded_voxels(&r, &c, &nb);
    let at = |x: usize, y: usize, z: usize| v[x + 34 * y + 1156 * z];
    assert_eq!(at(33, 5, 6), MeshVoxel { id: BlockId(2), visibility: Visibility::Opaque });
    assert_eq!(at(33, 5, 7).visibility, Visibility::Empty);
    assert_eq!(at(7, 0, 8), MeshVoxel { id: BlockId(1), visibility: Visibility::Opaque });
    assert_eq!(at(0, 5, 6).visibility, Visibility::Empty);
    assert_eq!(at(33, 0, 6).visibility, Visibility::Empty);
}

#[test]
fn solid_chunk_between_solid_neighbours_has_no_seam_faces() {
    let r = registry();
    let c = solid(1);
    let nb: Vec<Option<Chunk>> = (0..6).map(|_| Some(solid(2))).collect();
    assert_eq!(mesh_chunk(&r, &c, &nb).len(), 0);
}

#[test]
fn one_solid_neighbour_hides_one_side() {
    let r = registry();
    let c = solid(1);
    let mut nb = no_neighbors();
    nb[3] = Some(solid(1));
    let quads = mesh_quads(&r, &c, &nb);
    assert_eq!(quads.len(), 5);
    assert!(quads.iter().all(|q| q.face != Face::PosX));
}

#[test]
fn merged_quads_stay_within_one_block() {
    let r = registry();
    let mut c = Chunk::new();
    for x in 0..4 {
        c.place(BlockId(1), (x, 0, 0));
    }
    for x in 4..8 {
        c.place(BlockId(2), (x, 0, 0));
    }
    let groups = mesh_chunk(&r, &c, &no_neighbors());
    assert_eq!(groups.len(), 2);
    for g in groups.iter() {
        for q in g.quads.iter() {
            assert!(q.width <= 4 && q.height <= 4);
            let owner = c.get(q.x - 1, q.y - 1, q.z - 1);
            assert_eq!(owner, g.block);
        }
    }
}
