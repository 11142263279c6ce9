use vstd::prelude::*;

verus! {

/// Position of a chunk in chunk-grid space.
#[derive(Clone, Copy, PartialEq, Eq, Structural, Debug, Hash)]
pub struct ChunkCoordinate {
    pub x: i32,
    pub y: i32,
    pub z: i32,
}

impl ChunkCoordinate {
    pub fn new(x: i32, y: i32, z: i32) -> (r: ChunkCoordinate)
        ensures
            r == (ChunkCoordinate { x, y, z }),
    {
        ChunkCoordinate { x, y, z }
    }
}

/// The chunk index along one axis of world voxel coordinate `w`: the floor of
/// `w / 32` (`/` on `int` rounds toward negative infinity for a positive divisor).
pub open spec fn chunk_axis(w: int) -> int {
    w / 32
}

/// The offset of world voxel coordinate `w` inside its chunk along one axis.
pub open spec fn local_axis(w: int) -> int {
    w % 32
}

/// Whether world voxel coordinate `w` lies in a chunk whose index fits in `i32`.
pub open spec fn axis_in_range(w: int) -> bool {
    i32::MIN * 32 <= w < (i32::MAX + 1) * 32
}

/// The chunk index along one axis of world voxel coordinate `w`, rounding
/// toward negative infinity.
pub fn world_to_chunk_axis(w: i64) -> (r: i32)
    requires
        axis_in_range(w as int),
    ensures
        r as int == chunk_axis(w as int),
        r as int * 32 <= w < r as int * 32 + 32,
{
    if w >= 0 {
        let q = (w as u64 / 32) as i64;
        assert(q == (w as int) / 32);
        q as i32
    } else {
        let m = (-(w + 1)) as u64;
        let q = (m / 32) as i64;
        let r = -q - 1;
        assert(r as int * 32 <= w < r as int * 32 + 32) by (nonlinear_arith)
            requires
                m == -(w + 1),
                q == m / 32,
                r == -q - 1,
                w < 0,
        ;
        assert(r == (w as int) / 32) by (nonlinear_arith)
            requires
                r as int * 32 <= w < r as int * 32 + 32,
        ;
        r as i32
    }
}

/// The offset inside its chunk, in `[0, 32)`, of world voxel coordinate `w`.
pub fn world_to_local_axis(w: i64) -> (r: u32)
    requires
        axis_in_range(w as int),
    ensures
        r as int == local_axis(w as int),
        r < 32,
        chunk_axis(w as int) * 32 + r == w,
{
    let c = world_to_chunk_axis(w);
    let l = w - c as i64 * 32;
    assert(l == (w as int) % 32) by (nonlinear_arith)
        requires
            c as int * 32 <= w < c as int * 32 + 32,
            l == w - c * 32,
    ;
    l as u32
}

/// The chunk that holds world voxel `(x, y, z)`.
pub fn world_to_chunk_coordinate(x: i64, y: i64, z: i64) -> (r: ChunkCoordinate)
    requires
        axis_in_range(x as int),
        axis_in_range(y as int),
        axis_in_range(z as int),
    ensures
        r.x == chunk_axis(x as int),
        r.y == chunk_axis(y as int),
        r.z == chunk_axis(z as int),
{
    ChunkCoordinate { x: world_to_chunk_axis(x), y: world_to_chunk_axis(y), z: world_to_chunk_axis(z) }
}

/// The local coordinate of world voxel `(x, y, z)` inside its chunk; with
/// `world_to_chunk_coordinate` it recovers the voxel:
/// `chunk * 32 + local == world` on every axis.
pub fn world_to_local_offset(x: i64, y: i64, z: i64) -> (r: (u32, u32, u32))
    requires
        axis_in_range(x as int),
        axis_in_range(y as int),
        axis_in_range(z as int),
    ensures
        r.0 as int == local_axis(x as int),
        r.1 as int == local_axis(y as int),
        r.2 as int == local_axis(z as int),
        r.0 < 32 && r.1 < 32 && r.2 < 32,
        chunk_axis(x as int) * 32 + r.0 == x,
        chunk_axis(y as int) * 32 + r.1 == y,
        chunk_axis(z as int) * 32 + r.2 == z,
{
    (world_to_local_axis(x), world_to_local_axis(y), world_to_local_axis(z))
}

} // verus!
