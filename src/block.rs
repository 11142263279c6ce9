use vstd::prelude::*;

verus! {

/// Stable numeric identifier of a block type; `0` is always air.
#[derive(Clone, Copy, PartialEq, Eq, Structural, Debug, Hash)]
pub struct BlockId(pub u32);

/// The reserved identifier number of the empty block.
pub const AIR_ID: u32 = 0;

/// How a voxel of a block type takes part in surface extraction.
#[derive(Clone, Copy, PartialEq, Eq, Structural, Debug, Hash)]
pub enum Visibility {
    Empty,
    Opaque,
    Translucent,
}

/// The kind of a registered block.
#[derive(Clone, Copy, PartialEq, Eq, Structural, Debug, Hash)]
pub enum BlockType {
    Empty,
    OpaqueSolid,
    TranslucentSolid,
    Fluid,
}

/// The visibility class that a block type meshes with.
pub open spec fn visibility_of(t: BlockType) -> Visibility {
    match t {
        BlockType::Empty => Visibility::Empty,
        BlockType::OpaqueSolid => Visibility::Opaque,
        BlockType::TranslucentSolid => Visibility::Translucent,
        BlockType::Fluid => Visibility::Translucent,
    }
}

impl BlockType {
    pub fn get_visibility(&self) -> (r: Visibility)
        ensures
            r == visibility_of(*self),
    {
        match self {
            BlockType::Empty => Visibility::Empty,
            BlockType::OpaqueSolid => Visibility::Opaque,
            BlockType::TranslucentSolid => Visibility::Translucent,
            BlockType::Fluid => Visibility::Translucent,
        }
    }
}

/// Definition of a block type: its unique name, its kind and the texture
/// that the renderer resolves for it.
pub struct BlockData {
    pub name: String,
    pub block_type: BlockType,
    pub texture_file: String,
}

} // verus!
