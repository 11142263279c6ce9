use vstd::prelude::*;
use crate::block::BlockId;
use crate::chunk::{Chunk, block_at, in_chunk, local_index};
use crate::coords::ChunkCoordinate;
use crate::registry::{BlockRegistry, has_name};

verus! {

/// The block that terrain fill puts at local `(x, y, z)` of a chunk whose
/// lowest layer is at world height `chunk_y * 32`: `fill` below the column's
/// surface height `heights[x * 32 + z]`, `surface` at it, air above it.
pub open spec fn terrain_block(
    chunk_y: int,
    heights: Seq<i32>,
    fill: BlockId,
    surface: BlockId,
    x: int,
    y: int,
    z: int,
) -> BlockId {
    let world_y = chunk_y * 32 + y;
    let top = heights[x * 32 + z] as int;
    if world_y < top {
        fill
    } else if world_y == top {
        surface
    } else {
        BlockId(0)
    }
}

/// The voxels of a chunk filled by `terrain_block`, in the chunk's layout.
pub open spec fn terrain_blocks(chunk_y: int, heights: Seq<i32>, fill: BlockId, surface: BlockId) -> Seq<
    BlockId,
> {
    Seq::new(
        32768,
        |i: int| terrain_block(chunk_y, heights, fill, surface, i / 1024, i % 32, (i / 32) % 32),
    )
}

/// The flat position of a local coordinate splits back into that coordinate.
pub proof fn lemma_local_index_split(x: int, y: int, z: int)
    requires
        in_chunk(x, y, z),
    ensures
        local_index(x, y, z) / 1024 == x,
        local_index(x, y, z) % 32 == y,
        (local_index(x, y, z) / 32) % 32 == z,
        0 <= local_index(x, y, z) < 32768,
{
    let i = local_index(x, y, z);
    assert(i / 1024 == x) by (nonlinear_arith)
        requires
            i == x * 1024 + z * 32 + y,
            0 <= x < 32,
            0 <= y < 32,
            0 <= z < 32,
    ;
    assert(i / 32 == x * 32 + z) by (nonlinear_arith)
        requires
            i == x * 1024 + z * 32 + y,
            0 <= y < 32,
            0 <= z < 32,
            0 <= x < 32,
    ;
    assert(i % 32 == y) by (nonlinear_arith)
        requires
            i == x * 1024 + z * 32 + y,
            0 <= y < 32,
            0 <= z < 32,
            0 <= x < 32,
    ;
    assert((x * 32 + z) % 32 == z) by (nonlinear_arith)
        requires
            0 <= z < 32,
            0 <= x < 32,
    ;
    crate::chunk::lemma_local_index_bounds(x, y, z);
}

/// A chunk at height `chunk_y` filled from the surface height of each of its
/// columns (`heights[x * 32 + z]`, in world voxels): `fill` below the
/// surface, `surface` at it, air above.
pub fn fill_chunk(chunk_y: i32, heights: &Vec<i32>, fill: BlockId, surface: BlockId) -> (r: Chunk)
    requires
        heights@.len() == 1024,
    ensures
        r.wf(),
        r@ == terrain_blocks(chunk_y as int, heights@, fill, surface),
        forall|x: int, y: int, z: int|
            in_chunk(x, y, z) ==> #[trigger] block_at(r@, x, y, z) == terrain_block(
                chunk_y as int,
                heights@,
                fill,
                surface,
                x,
                y,
                z,
            ),
{
    let ghost spec_blocks = terrain_blocks(chunk_y as int, heights@, fill, surface);
    let floor: i64 = chunk_y as i64 * 32;
    let mut blocks: Vec<BlockId> = Vec::new();
    let mut x: usize = 0;
    while x < 32
        invariant
            x <= 32,
            heights@.len() == 1024,
            floor == chunk_y as int * 32,
            spec_blocks == terrain_blocks(chunk_y as int, heights@, fill, surface),
            blocks@.len() == x * 1024,
            blocks@ == spec_blocks.subrange(0, x * 1024),
        decreases 32 - x,
    {
        let mut z: usize = 0;
        while z < 32
            invariant
                x < 32,
                z <= 32,
                heights@.len() == 1024,
                floor == chunk_y as int * 32,
                spec_blocks == terrain_blocks(chunk_y as int, heights@, fill, surface),
                blocks@.len() == x * 1024 + z * 32,
                blocks@ == spec_blocks.subrange(0, x * 1024 + z * 32),
            decreases 32 - z,
        {
            let top = heights[x * 32 + z] as i64;
            let mut y: usize = 0;
            while y < 32
                invariant
                    x < 32,
                    z < 32,
                    y <= 32,
                    heights@.len() == 1024,
                    floor == chunk_y as int * 32,
                    top == heights@[x * 32 + z] as int,
                    spec_blocks == terrain_blocks(chunk_y as int, heights@, fill, surface),
                    blocks@.len() == x * 1024 + z * 32 + y,
                    blocks@ == spec_blocks.subrange(0, x * 1024 + z * 32 + y),
                decreases 32 - y,
            {
                let world_y = floor + y as i64;
                let b = if world_y < top {
                    fill
                } else if world_y == top {
                    surface
                } else {
                    BlockId(0)
                };
                proof {
                    lemma_local_index_split(x as int, y as int, z as int);
                    assert(b == spec_blocks[local_index(x as int, y as int, z as int)]);
                }
                blocks.push(b);
                assert(blocks@ =~= spec_blocks.subrange(0, x * 1024 + z * 32 + y + 1));
                y += 1;
            }
            z += 1;
        }
        x += 1;
    }
    assert(blocks@ =~= spec_blocks);
    assert forall|x: int, y: int, z: int| in_chunk(x, y, z) implies #[trigger] block_at(
        blocks@,
        x,
        y,
        z,
    ) == terrain_block(chunk_y as int, heights@, fill, surface, x, y, z) by {
        lemma_local_index_split(x, y, z);
    }
    Chunk::from_blocks(blocks)
}

/// Ways in which generating a chunk fails.
#[derive(Clone, Copy, PartialEq, Eq, Structural, Debug)]
pub enum TerrainError {
    /// A block that terrain is made of is not registered.
    UnknownBlockName,
}

/// The identifier registered under `name` (meaningful where it is registered).
pub open spec fn registered_id(defs: Seq<crate::block::BlockData>, name: Seq<char>) -> BlockId {
    BlockId((choose|i: int| 0 <= i < defs.len() && (#[trigger] defs[i]).name@ == name) as u32)
}

/// The name of the block below a column's surface.
pub open spec fn fill_name() -> Seq<char> {
    seq!['s', 't', 'o', 'n', 'e']
}

/// The name of the block at a column's surface.
pub open spec fn surface_name() -> Seq<char> {
    seq!['d', 'i', 'r', 't']
}

/// The chunk at `coords` filled from its columns' surface heights with the
/// registered blocks "stone" below the surface and "dirt" at it;
/// `UnknownBlockName` exactly when one of the two is not registered.
pub fn generate_chunk(registry: &BlockRegistry, coords: ChunkCoordinate, heights: &Vec<i32>) -> (r:
    Result<Chunk, TerrainError>)
    requires
        registry.wf(),
        heights@.len() == 1024,
    ensures
        r is Err <==> !has_name(registry@, fill_name()) || !has_name(registry@, surface_name()),
        r is Err ==> r == Err::<Chunk, TerrainError>(TerrainError::UnknownBlockName),
        r matches Ok(c) ==> c.wf() && c@ == terrain_blocks(
            coords.y as int,
            heights@,
            registered_id(registry@, fill_name()),
            registered_id(registry@, surface_name()),
        ),
{
    let stone_name = "stone".to_owned();
    let dirt_name = "dirt".to_owned();
    proof {
        reveal_strlit("stone");
        reveal_strlit("dirt");
    }
    assert(stone_name@ =~= fill_name());
    assert(dirt_name@ =~= surface_name());
    let stone = match registry.id_from_name(stone_name) {
        Some(id) => id,
        None => return Err(TerrainError::UnknownBlockName),
    };
    let dirt = match registry.id_from_name(dirt_name) {
        Some(id) => id,
        None => return Err(TerrainError::UnknownBlockName),
    };
    proof {
        let s = choose|i: int| 0 <= i < registry@.len() && (#[trigger] registry@[i]).name@ == fill_name();
        let d = choose|i: int| 0 <= i < registry@.len() && (#[trigger] registry@[i]).name@ == surface_name();
        assert(s == stone.0 as int);
        assert(d == dirt.0 as int);
    }
    Ok(fill_chunk(coords.y, heights, stone, dirt))
}

/// Generation is deterministic: two chunks generated from the same
/// coordinate, surface heights and blocks hold the same voxels and so the
/// same persisted bytes.
pub proof fn generation_is_deterministic(
    coords: ChunkCoordinate,
    heights: Seq<i32>,
    fill: BlockId,
    surface: BlockId,
    a: Seq<BlockId>,
    b: Seq<BlockId>,
)
    requires
        a == terrain_blocks(coords.y as int, heights, fill, surface),
        b == terrain_blocks(coords.y as int, heights, fill, surface),
    ensures
        a == b,
        crate::codec::chunk_bytes(a) == crate::codec::chunk_bytes(b),
{
}

} // verus!
