use vstd::prelude::*;
use crate::block::{BlockId, AIR_ID};

verus! {

/// Edge length of a chunk, in voxels.
pub const CHUNK_SIZE: usize = 32;

/// Number of voxels in a chunk.
pub const CHUNK_VOLUME: usize = 32768;

/// Position of local voxel `(x, y, z)` in the flat voxel array: the array is
/// laid out as `[x][z][y]`, `y` varying fastest.
pub open spec fn local_index(x: int, y: int, z: int) -> int {
    x * 1024 + z * 32 + y
}

/// Whether `(x, y, z)` is a local coordinate inside a chunk.
pub open spec fn in_chunk(x: int, y: int, z: int) -> bool {
    0 <= x < 32 && 0 <= y < 32 && 0 <= z < 32
}

/// The block at local `(x, y, z)` of a chunk's voxel sequence.
pub open spec fn block_at(c: Seq<BlockId>, x: int, y: int, z: int) -> BlockId {
    c[local_index(x, y, z)]
}

pub proof fn lemma_local_index_bounds(x: int, y: int, z: int)
    requires
        in_chunk(x, y, z),
    ensures
        0 <= local_index(x, y, z) < 32768,
{
    assert(0 <= x * 1024 <= 31 * 1024) by (nonlinear_arith)
        requires
            0 <= x < 32,
    ;
    assert(0 <= z * 32 <= 31 * 32) by (nonlinear_arith)
        requires
            0 <= z < 32,
    ;
}

/// A cubic grid of `CHUNK_SIZE`³ block identifiers.
pub struct Chunk {
    blocks: Vec<BlockId>,
}

impl View for Chunk {
    type V = Seq<BlockId>;

    closed spec fn view(&self) -> Seq<BlockId> {
        self.blocks@
    }
}

impl Chunk {
    /// A chunk holds exactly `CHUNK_VOLUME` voxels.
    pub open spec fn wf(&self) -> bool {
        self@.len() == 32768
    }

    /// An all-air chunk.
    pub fn new() -> (r: Chunk)
        ensures
            r.wf(),
            forall|i: int| 0 <= i < 32768 ==> r@[i] == BlockId(0),
    {
        let mut blocks: Vec<BlockId> = Vec::new();
        while blocks.len() < CHUNK_VOLUME
            invariant
                blocks@.len() <= 32768,
                forall|i: int| 0 <= i < blocks@.len() ==> blocks@[i] == BlockId(0),
            decreases 32768 - blocks@.len(),
        {
            blocks.push(BlockId(AIR_ID));
        }
        Chunk { blocks }
    }

    /// A chunk whose voxels are `blocks`, in the layout of `local_index`.
    pub fn from_blocks(blocks: Vec<BlockId>) -> (r: Chunk)
        requires
            blocks@.len() == 32768,
        ensures
            r.wf(),
            r@ == blocks@,
    {
        Chunk { blocks }
    }

    /// Sets the voxel at local `pos = (x, y, z)` to `block`.
    pub fn place(&mut self, block: BlockId, pos: (u32, u32, u32))
        requires
            old(self).wf(),
            in_chunk(pos.0 as int, pos.1 as int, pos.2 as int),
        ensures
            final(self).wf(),
            final(self)@ == old(self)@.update(local_index(pos.0 as int, pos.1 as int, pos.2 as int), block),
    {
        let (x, y, z) = pos;
        proof {
            lemma_local_index_bounds(x as int, y as int, z as int);
        }
        let i = x as usize * 1024 + z as usize * 32 + y as usize;
        self.blocks.set(i, block);
    }

    /// The block at local `(x, y, z)`.
    pub fn get(&self, x: u32, y: u32, z: u32) -> (r: BlockId)
        requires
            self.wf(),
            in_chunk(x as int, y as int, z as int),
        ensures
            r == block_at(self@, x as int, y as int, z as int),
    {
        proof {
            lemma_local_index_bounds(x as int, y as int, z as int);
        }
        self.blocks[x as usize * 1024 + z as usize * 32 + y as usize]
    }

    /// The voxel at flat position `i`.
    pub fn get_index(&self, i: usize) -> (r: BlockId)
        requires
            self.wf(),
            i < 32768,
        ensures
            r == self@[i as int],
    {
        self.blocks[i]
    }

    /// A copy of this chunk.
    pub fn duplicate(&self) -> (r: Chunk)
        ensures
            r@ == self@,
    {
        let mut blocks: Vec<BlockId> = Vec::new();
        let n = self.blocks.len();
        let mut i: usize = 0;
        while i < n
            invariant
                n == self.blocks@.len(),
                i <= n,
                blocks@ == self.blocks@.subrange(0, i as int),
            decreases n - i,
        {
            blocks.push(self.blocks[i]);
            i += 1;
        }
        assert(blocks@ == self.blocks@.subrange(0, n as int));
        Chunk { blocks }
    }
}

} // verus!
