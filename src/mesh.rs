use vstd::prelude::*;
use crate::block::{BlockData, BlockId, Visibility, visibility_of};
use crate::chunk::{Chunk, block_at, in_chunk};
use crate::registry::BlockRegistry;
use block_mesh::ndshape::ConstShape3u32;
use block_mesh::{GreedyQuadsBuffer, MergeVoxel, Voxel, VoxelVisibility, RIGHT_HANDED_Y_UP_CONFIG, greedy_quads};

verus! {

/// Edge length of the voxel buffer handed to the mesher: a chunk with a
/// one-voxel border on every side.
pub const PADDED_SIZE: u32 = 34;

/// Number of voxels in the padded buffer.
pub const PADDED_VOLUME: usize = 39304;

/// One voxel of the mesher's input: its block and how it is seen.
#[derive(Clone, Copy, PartialEq, Eq, Structural, Debug)]
pub struct MeshVoxel {
    pub id: BlockId,
    pub visibility: Visibility,
}

/// Whether every voxel of `c` names a block registered in `defs`.
pub open spec fn ids_registered(c: Seq<BlockId>, defs: Seq<BlockData>) -> bool {
    forall|i: int| 0 <= i < c.len() ==> (#[trigger] c[i]).0 < defs.len()
}

/// The mesher's voxel for block `id`.
pub open spec fn voxel_of(defs: Seq<BlockData>, id: BlockId) -> MeshVoxel {
    MeshVoxel { id, visibility: visibility_of(defs[id.0 as int].block_type) }
}

/// Empty air, which the mesher sees through.
pub open spec fn air_voxel() -> MeshVoxel {
    MeshVoxel { id: BlockId(0), visibility: Visibility::Empty }
}

/// The voxels of a neighbouring chunk, if it is stored.
pub open spec fn chunk_view_opt(o: Option<Chunk>) -> Option<Seq<BlockId>> {
    match o {
        Some(c) => Some(c@),
        None => None,
    }
}

/// The voxels of each of the six face neighbours, in the order of `Face`.
pub open spec fn neighbor_views(nb: Seq<Option<Chunk>>) -> Seq<Option<Seq<BlockId>>> {
    nb.map_values(|o: Option<Chunk>| chunk_view_opt(o))
}

/// Whether every stored neighbour is a whole chunk of registered blocks.
pub open spec fn neighbors_valid(nb: Seq<Option<Chunk>>, defs: Seq<BlockData>) -> bool {
    nb.len() == 6 && forall|i: int|
        0 <= i < 6 ==> (#[trigger] nb[i] matches Some(c) ==> c.wf() && ids_registered(c@, defs))
}

/// The voxel at local `(x, y, z)` of a neighbour: air where it is not stored.
pub open spec fn halo_voxel(defs: Seq<BlockData>, n: Option<Seq<BlockId>>, x: int, y: int, z: int) -> MeshVoxel {
    match n {
        Some(v) => voxel_of(defs, block_at(v, x, y, z)),
        None => air_voxel(),
    }
}

pub open spec fn inner(a: int) -> bool {
    1 <= a <= 32
}

/// The voxel at `(x, y, z)` of the padded buffer of chunk `c`: the chunk's
/// voxel `(x - 1, y - 1, z - 1)` inside; on each face of the border, the
/// touching layer of that face's neighbour (`nb`, in the order of `Face`),
/// or air where the neighbour is not stored; air on the border's edges and
/// corners, which no face of the chunk touches.
pub open spec fn padded_voxel(
    c: Seq<BlockId>,
    defs: Seq<BlockData>,
    nb: Seq<Option<Seq<BlockId>>>,
    x: int,
    y: int,
    z: int,
) -> MeshVoxel {
    if inner(x) && inner(y) && inner(z) {
        voxel_of(defs, block_at(c, x - 1, y - 1, z - 1))
    } else if x == 0 && inner(y) && inner(z) {
        halo_voxel(defs, nb[0], 31, y - 1, z - 1)
    } else if y == 0 && inner(x) && inner(z) {
        halo_voxel(defs, nb[1], x - 1, 31, z - 1)
    } else if z == 0 && inner(x) && inner(y) {
        halo_voxel(defs, nb[2], x - 1, y - 1, 31)
    } else if x == 33 && inner(y) && inner(z) {
        halo_voxel(defs, nb[3], 0, y - 1, z - 1)
    } else if y == 33 && inner(x) && inner(z) {
        halo_voxel(defs, nb[4], x - 1, 0, z - 1)
    } else if z == 33 && inner(x) && inner(y) {
        halo_voxel(defs, nb[5], x - 1, y - 1, 0)
    } else {
        air_voxel()
    }
}

/// The padded buffer of `c`, laid out with `x` varying fastest, then `y`,
/// then `z`: position `x + 34 * y + 1156 * z`.
pub open spec fn padded_voxels_of(c: Seq<BlockId>, defs: Seq<BlockData>, nb: Seq<Option<Seq<BlockId>>>) -> Seq<
    MeshVoxel,
> {
    Seq::new(39304, |i: int| padded_voxel(c, defs, nb, i % 34, (i / 34) % 34, i / 1156))
}

proof fn lemma_padded_index_split(x: int, y: int, z: int)
    requires
        0 <= x < 34,
        0 <= y < 34,
        0 <= z < 34,
    ensures
        (x + 34 * y + 1156 * z) % 34 == x,
        ((x + 34 * y + 1156 * z) / 34) % 34 == y,
        (x + 34 * y + 1156 * z) / 1156 == z,
        0 <= x + 34 * y + 1156 * z < 39304,
{
    let i = x + 34 * y + 1156 * z;
    assert(i % 34 == x && i / 34 == y + 34 * z) by (nonlinear_arith)
        requires
            i == x + 34 * y + 1156 * z,
            0 <= x < 34,
            0 <= y < 34,
            0 <= z < 34,
    ;
    assert((y + 34 * z) % 34 == y) by (nonlinear_arith)
        requires
            0 <= y < 34,
            0 <= z < 34,
    ;
    assert(i / 1156 == z && i < 39304) by (nonlinear_arith)
        requires
            i == x + 34 * y + 1156 * z,
            0 <= x < 34,
            0 <= y < 34,
            0 <= z < 34,
    ;
}

fn halo(registry: &BlockRegistry, n: &Option<Chunk>, x: u32, y: u32, z: u32) -> (r: MeshVoxel)
    requires
        in_chunk(x as int, y as int, z as int),
        n matches Some(c) ==> c.wf() && ids_registered(c@, registry@),
    ensures
        r == halo_voxel(registry@, chunk_view_opt(*n), x as int, y as int, z as int),
{
    match n {
        Some(c) => {
            let id = c.get(x, y, z);
            proof {
                crate::chunk::lemma_local_index_bounds(x as int, y as int, z as int);
            }
            MeshVoxel { id, visibility: registry.visibility_from_id(id) }
        },
        None => MeshVoxel { id: BlockId(0), visibility: Visibility::Empty },
    }
}

/// The voxel buffer that the greedy mesher reads for `chunk`: every voxel of
/// the chunk with its visibility, inside a border made of the touching
/// layers of its six face neighbours (`neighbors`, in the order of `Face`;
/// `None` where a neighbour is not stored, which reads as air).
pub fn padded_voxels(registry: &BlockRegistry, chunk: &Chunk, neighbors: &Vec<Option<Chunk>>) -> (r: Vec<
    MeshVoxel,
>)
    requires
        chunk.wf(),
        ids_registered(chunk@, registry@),
        neighbors_valid(neighbors@, registry@),
    ensures
        r@ == padded_voxels_of(chunk@, registry@, neighbor_views(neighbors@)),
        r@.len() == PADDED_VOLUME,
{
    let ghost nb = neighbor_views(neighbors@);
    let ghost target = padded_voxels_of(chunk@, registry@, nb);
    let mut out: Vec<MeshVoxel> = Vec::new();
    let mut z: u32 = 0;
    while z < PADDED_SIZE
        invariant
            z <= 34,
            chunk.wf(),
            ids_registered(chunk@, registry@),
            neighbors_valid(neighbors@, registry@),
            nb == neighbor_views(neighbors@),
            target == padded_voxels_of(chunk@, registry@, nb),
            out@.len() == 1156 * z,
            out@ == target.subrange(0, 1156 * z),
        decreases 34 - z,
    {
        let mut y: u32 = 0;
        while y < PADDED_SIZE
            invariant
                z < 34,
                y <= 34,
                chunk.wf(),
                ids_registered(chunk@, registry@),
                neighbors_valid(neighbors@, registry@),
                nb == neighbor_views(neighbors@),
                target == padded_voxels_of(chunk@, registry@, nb),
                out@.len() == 1156 * z + 34 * y,
                out@ == target.subrange(0, 1156 * z + 34 * y),
            decreases 34 - y,
        {
            let mut x: u32 = 0;
            while x < PADDED_SIZE
                invariant
                    z < 34,
                    y < 34,
                    x <= 34,
                    chunk.wf(),
                    ids_registered(chunk@, registry@),
                    neighbors_valid(neighbors@, registry@),
                    nb == neighbor_views(neighbors@),
                    target == padded_voxels_of(chunk@, registry@, nb),
                    out@.len() == 1156 * z + 34 * y + x,
                    out@ == target.subrange(0, 1156 * z + 34 * y + x),
                decreases 34 - x,
            {
                let ix = 1 <= x && x <= 32;
                let iy = 1 <= y && y <= 32;
                let iz = 1 <= z && z <= 32;
                proof {
                    assert(nb[0] == chunk_view_opt(neighbors@[0]));
                    assert(nb[1] == chunk_view_opt(neighbors@[1]));
                    assert(nb[2] == chunk_view_opt(neighbors@[2]));
                    assert(nb[3] == chunk_view_opt(neighbors@[3]));
                    assert(nb[4] == chunk_view_opt(neighbors@[4]));
                    assert(nb[5] == chunk_view_opt(neighbors@[5]));
                }
                let v = if ix && iy && iz {
                    let id = chunk.get(x - 1, y - 1, z - 1);
                    proof {
                        crate::chunk::lemma_local_index_bounds(x - 1, y - 1, z - 1);
                    }
                    MeshVoxel { id, visibility: registry.visibility_from_id(id) }
                } else if x == 0 && iy && iz {
                    halo(registry, &neighbors[0], 31, y - 1, z - 1)
                } else if y == 0 && ix && iz {
                    halo(registry, &neighbors[1], x - 1, 31, z - 1)
                } else if z == 0 && ix && iy {
                    halo(registry, &neighbors[2], x - 1, y - 1, 31)
                } else if x == 33 && iy && iz {
                    halo(registry, &neighbors[3], 0, y - 1, z - 1)
                } else if y == 33 && ix && iz {
                    halo(registry, &neighbors[4], x - 1, 0, z - 1)
                } else if z == 33 && ix && iy {
                    halo(registry, &neighbors[5], x - 1, y - 1, 0)
                } else {
                    MeshVoxel { id: BlockId(0), visibility: Visibility::Empty }
                };
                proof {
                    lemma_padded_index_split(x as int, y as int, z as int);
                }
                out.push(v);
                assert(out@ =~= target.subrange(0, 1156 * z + 34 * y + x + 1));
                x += 1;
            }
            y += 1;
        }
        z += 1;
    }
    assert(out@ =~= target);
    out
}

/// An all-air chunk gives the mesher nothing to see: whatever its stored
/// neighbours hold, no voxel of its padded buffer inside the chunk is
/// visible, so no face of the chunk is drawn and no quad is made.
pub proof fn air_chunk_is_invisible(c: Seq<BlockId>, defs: Seq<BlockData>, nb: Seq<Option<Seq<BlockId>>>)
    requires
        c.len() == 32768,
        forall|i: int| 0 <= i < 32768 ==> c[i] == BlockId(0),
        defs.len() >= 1,
        defs[0].block_type == crate::block::BlockType::Empty,
    ensures
        forall|x: int, y: int, z: int|
            inner(x) && inner(y) && inner(z) ==> (#[trigger] padded_voxel(c, defs, nb, x, y, z)).visibility
                == Visibility::Empty,
        nb =~= seq![None, None, None, None, None, None] ==> forall|i: int|
            0 <= i < 39304 ==> (#[trigger] padded_voxels_of(c, defs, nb)[i]).visibility == Visibility::Empty,
{
    assert forall|x: int, y: int, z: int| inner(x) && inner(y) && inner(z) implies (
    #[trigger] padded_voxel(c, defs, nb, x, y, z)).visibility == Visibility::Empty by {
        crate::chunk::lemma_local_index_bounds(x - 1, y - 1, z - 1);
    }
    if nb =~= seq![None, None, None, None, None, None] {
        assert forall|i: int| 0 <= i < 39304 implies (#[trigger] padded_voxels_of(c, defs, nb)[i]).visibility
            == Visibility::Empty by {
            let x = i % 34;
            let y = (i / 34) % 34;
            let z = i / 1156;
            if inner(x) && inner(y) && inner(z) {
                crate::chunk::lemma_local_index_bounds(x - 1, y - 1, z - 1);
            }
        }
    }
}

/// The six face directions, in the order of the quad configuration that the
/// mesher runs with (right-handed, `y` up).
#[derive(Clone, Copy, PartialEq, Eq, Structural, Debug)]
pub enum Face {
    NegX,
    NegY,
    NegZ,
    PosX,
    PosY,
    PosZ,
}

/// A merged rectangle of faces from the mesher: its direction, its minimum
/// voxel in the padded buffer, and its size in voxels.
#[derive(Clone, Copy, PartialEq, Eq, Structural, Debug)]
pub struct Quad {
    pub face: Face,
    pub x: u32,
    pub y: u32,
    pub z: u32,
    pub width: u32,
    pub height: u32,
}

/// Whether the minimum voxel of `q` lies inside the chunk part of the padded buffer.
pub open spec fn quad_in_chunk(q: Quad) -> bool {
    1 <= q.x <= 32 && 1 <= q.y <= 32 && 1 <= q.z <= 32
}

/// The block of the voxel whose face starts quad `q`.
pub open spec fn quad_owner(c: Seq<BlockId>, q: Quad) -> BlockId {
    block_at(c, q.x - 1, q.y - 1, q.z - 1)
}

/// Whether quad `q` of chunk `c` belongs to the mesh of block `b`.
pub open spec fn owned_by(c: Seq<BlockId>, b: BlockId) -> spec_fn(Quad) -> bool {
    |q: Quad| quad_owner(c, q) == b
}

/// The quads of one block type within one chunk.
pub struct QuadGroup {
    pub block: BlockId,
    pub quads: Vec<Quad>,
}

/// Whether `groups` splits `quads` by owning block: one group for each block
/// that owns a quad, each holding that block's quads in their original order.
pub open spec fn grouped_by_owner(c: Seq<BlockId>, quads: Seq<Quad>, groups: Seq<QuadGroup>) -> bool {
    &&& forall|g: int| 0 <= g < groups.len() ==> (#[trigger] groups[g]).quads@ == quads.filter(
        owned_by(c, groups[g].block),
    )
    &&& forall|g: int| 0 <= g < groups.len() ==> (#[trigger] groups[g]).quads@.len() > 0
    &&& forall|g: int, h: int|
        0 <= g < groups.len() && 0 <= h < groups.len() && g != h ==> (#[trigger] groups[g]).block
            != (#[trigger] groups[h]).block
    &&& forall|i: int| 0 <= i < quads.len() ==> has_group(groups, quad_owner(c, #[trigger] quads[i]))
}

/// Whether some group of `groups` is the group of block `b`.
pub open spec fn has_group(groups: Seq<QuadGroup>, b: BlockId) -> bool {
    exists|g: int| 0 <= g < groups.len() && (#[trigger] groups[g]).block == b
}

proof fn lemma_filter_push(s: Seq<Quad>, q: Quad, p: spec_fn(Quad) -> bool)
    ensures
        s.push(q).filter(p) == if p(q) {
            s.filter(p).push(q)
        } else {
            s.filter(p)
        },
{
    assert(s.push(q).drop_last() =~= s);
    reveal_with_fuel(Seq::filter, 1);
}

proof fn lemma_filter_none(s: Seq<Quad>, p: spec_fn(Quad) -> bool)
    requires
        forall|i: int| 0 <= i < s.len() ==> !p(#[trigger] s[i]),
    ensures
        s.filter(p) =~= Seq::<Quad>::empty(),
    decreases s.len(),
{
    reveal_with_fuel(Seq::filter, 1);
    if s.len() > 0 {
        let t = s.drop_last();
        assert forall|i: int| 0 <= i < t.len() implies !p(#[trigger] t[i]) by {
            assert(t[i] == s[i]);
        }
        lemma_filter_none(t, p);
        assert(!p(s[s.len() - 1]));
    }
}

/// Splits the mesher's quads by the block that owns each one, so that each
/// group is drawn with a single material.
pub fn group_quads(chunk: &Chunk, quads: &Vec<Quad>) -> (r: Vec<QuadGroup>)
    requires
        chunk.wf(),
        forall|i: int| 0 <= i < quads@.len() ==> quad_in_chunk(#[trigger] quads@[i]),
    ensures
        grouped_by_owner(chunk@, quads@, r@),
{
    let mut groups: Vec<QuadGroup> = Vec::new();
    let mut k: usize = 0;
    while k < quads.len()
        invariant
            chunk.wf(),
            forall|i: int| 0 <= i < quads@.len() ==> quad_in_chunk(#[trigger] quads@[i]),
            k <= quads@.len(),
            grouped_by_owner(chunk@, quads@.subrange(0, k as int), groups@),
        decreases quads@.len() - k,
    {
        let q = quads[k];
        let owner = chunk.get(q.x - 1, q.y - 1, q.z - 1);
        let ghost before = groups@;
        let ghost prefix = quads@.subrange(0, k as int);
        assert(quads@.subrange(0, k + 1) =~= prefix.push(q));
        let mut g: usize = 0;
        while g < groups.len()
            invariant
                g <= groups@.len(),
                groups@ == before,
                forall|h: int| 0 <= h < g ==> (#[trigger] groups@[h]).block != owner,
            ensures
                g <= groups@.len(),
                groups@ == before,
                forall|h: int| 0 <= h < g ==> (#[trigger] groups@[h]).block != owner,
                g < groups@.len() ==> groups@[g as int].block == owner,
            decreases groups@.len() - g,
        {
            if groups[g].block == owner {
                break;
            }
            g += 1;
        }
        if g < groups.len() {
            let mut group = groups.remove(g);
            group.quads.push(q);
            groups.insert(g, group);
            assert(groups@ =~= before.update(g as int, group));
            assert forall|h: int| 0 <= h < groups@.len() implies (#[trigger] groups@[h]).quads@
                == prefix.push(q).filter(owned_by(chunk@, groups@[h].block)) by {
                lemma_filter_push(prefix, q, owned_by(chunk@, groups@[h].block));
                if h != g {
                    assert(groups@[h] == before[h]);
                }
            }
            assert forall|i: int| 0 <= i < prefix.push(q).len() implies has_group(
                groups@,
                quad_owner(chunk@, #[trigger] prefix.push(q)[i]),
            ) by {
                if i < prefix.len() {
                    assert(prefix.push(q)[i] == prefix[i]);
                    assert(has_group(before, quad_owner(chunk@, prefix[i])));
                    let h = choose|h: int|
                        0 <= h < before.len() && (#[trigger] before[h]).block == quad_owner(
                            chunk@,
                            prefix[i],
                        );
                    assert(groups@[h].block == before[h].block);
                } else {
                    assert(prefix.push(q)[i] == q);
                    assert(groups@[g as int].block == owner);
                }
            }
            assert forall|a: int, b: int|
                0 <= a < groups@.len() && 0 <= b < groups@.len() && a != b implies (
            #[trigger] groups@[a]).block != (#[trigger] groups@[b]).block by {
                assert(groups@[a].block == before[a].block);
                assert(groups@[b].block == before[b].block);
            }
            assert forall|h: int| 0 <= h < groups@.len() implies (#[trigger] groups@[h]).quads@.len()
                > 0 by {
                if h != g {
                    assert(groups@[h] == before[h]);
                }
            }
        } else {
            let mut v: Vec<Quad> = Vec::new();
            v.push(q);
            groups.push(QuadGroup { block: owner, quads: v });
            assert forall|h: int| 0 <= h < groups@.len() implies (#[trigger] groups@[h]).quads@
                == prefix.push(q).filter(owned_by(chunk@, groups@[h].block)) by {
                lemma_filter_push(prefix, q, owned_by(chunk@, groups@[h].block));
                if h < before.len() {
                    assert(groups@[h] == before[h]);
                } else {
                    assert forall|i: int| 0 <= i < prefix.len() implies !owned_by(chunk@, owner)(
                        #[trigger] prefix[i],
                    ) by {
                        assert(has_group(before, quad_owner(chunk@, prefix[i])));
                        let h2 = choose|h2: int|
                            0 <= h2 < before.len() && (#[trigger] before[h2]).block == quad_owner(
                                chunk@,
                                prefix[i],
                            );
                        assert(before[h2].block != owner);
                    }
                    lemma_filter_none(prefix, owned_by(chunk@, owner));
                    assert(v@ =~= seq![q]);
                }
            }
            assert forall|i: int| 0 <= i < prefix.push(q).len() implies has_group(
                groups@,
                quad_owner(chunk@, #[trigger] prefix.push(q)[i]),
            ) by {
                if i < prefix.len() {
                    assert(prefix.push(q)[i] == prefix[i]);
                    assert(has_group(before, quad_owner(chunk@, prefix[i])));
                    let h = choose|h: int|
                        0 <= h < before.len() && (#[trigger] before[h]).block == quad_owner(
                            chunk@,
                            prefix[i],
                        );
                    assert(groups@[h].block == before[h].block);
                } else {
                    assert(prefix.push(q)[i] == q);
                    assert(groups@[before.len() as int].block == owner);
                }
            }
            assert forall|a: int, b: int|
                0 <= a < groups@.len() && 0 <= b < groups@.len() && a != b implies (
            #[trigger] groups@[a]).block != (#[trigger] groups@[b]).block by {
                if a < before.len() {
                    assert(groups@[a] == before[a]);
                }
                if b < before.len() {
                    assert(groups@[b] == before[b]);
                }
            }
            assert forall|h: int| 0 <= h < groups@.len() implies (#[trigger] groups@[h]).quads@.len()
                > 0 by {
                if h < before.len() {
                    assert(groups@[h] == before[h]);
                }
            }
        }
        assert(grouped_by_owner(chunk@, prefix.push(q), groups@));
        k += 1;
    }
    assert(quads@.subrange(0, quads@.len() as int) =~= quads@);
    groups
}

/// Whether the texture of a face of direction `f` runs upright with the
/// quad: the faces whose normal `n` has `n.z - n.x + n.y > 0`.
pub open spec fn uv_upright(f: Face) -> bool {
    f == Face::NegX || f == Face::PosY || f == Face::PosZ
}

/// The texture coordinates of the four corners of `q`, scaled to its width
/// and height so that the texture repeats once per voxel instead of
/// stretching over the merged face.
pub fn quad_uvs(q: &Quad) -> (r: [(u32, u32); 4])
    ensures
        uv_upright(q.face) ==> r@ == seq![(0, q.height), (q.width, q.height), (0, 0), (q.width, 0)],
        !uv_upright(q.face) ==> r@ == seq![(q.width, q.height), (0, q.height), (q.width, 0), (0, 0)],
{
    let u = q.width;
    let v = q.height;
    let upright = match q.face {
        Face::NegX | Face::PosY | Face::PosZ => true,
        _ => false,
    };
    let r = if upright {
        [(0, v), (u, v), (0, 0), (u, 0)]
    } else {
        [(u, v), (0, v), (u, 0), (0, 0)]
    };
    assert(upright ==> r@ =~= seq![(0, q.height), (q.width, q.height), (0, 0), (q.width, 0)]);
    assert(!upright ==> r@ =~= seq![(q.width, q.height), (0, q.height), (q.width, 0), (0, 0)]);
    r
}

/// block-mesh's visibility classes, which the mesher asks each voxel for.
#[verifier::external_type_specification]
pub struct ExVoxelVisibility(VoxelVisibility);

impl Voxel for MeshVoxel {
    fn get_visibility(&self) -> VoxelVisibility {
        match self.visibility {
            Visibility::Empty => VoxelVisibility::Empty,
            Visibility::Opaque => VoxelVisibility::Opaque,
            Visibility::Translucent => VoxelVisibility::Translucent,
        }
    }
}

impl MergeVoxel for MeshVoxel {
    type MergeValue = BlockId;

    fn merge_value(&self) -> BlockId {
        self.id
    }
}

/// The face direction of the mesher's quad group `i`, in the order of its
/// right-handed, `y`-up configuration.
pub open spec fn face_at_spec(i: int) -> Face {
    if i == 0 {
        Face::NegX
    } else if i == 1 {
        Face::NegY
    } else if i == 2 {
        Face::NegZ
    } else if i == 3 {
        Face::PosX
    } else if i == 4 {
        Face::PosY
    } else {
        Face::PosZ
    }
}

/// The library's quad for a quad of the mesher's group `i`.
pub fn quad_from(i: usize, minimum: [u32; 3], width: u32, height: u32) -> (r: Quad)
    ensures
        r == (Quad { face: face_at_spec(i as int), x: minimum[0], y: minimum[1], z: minimum[2], width, height }),
{
    let face = if i == 0 {
        Face::NegX
    } else if i == 1 {
        Face::NegY
    } else if i == 2 {
        Face::NegZ
    } else if i == 3 {
        Face::PosX
    } else if i == 4 {
        Face::PosY
    } else {
        Face::PosZ
    };
    Quad { face, x: minimum[0], y: minimum[1], z: minimum[2], width, height }
}

/// The voxel at `(x, y, z)` of a padded buffer `v`.
pub open spec fn voxel_at(v: Seq<MeshVoxel>, x: int, y: int, z: int) -> MeshVoxel {
    v[x + 34 * y + 1156 * z]
}

/// The axis (0: `x`, 1: `y`, 2: `z`) that faces of direction `f` look along.
pub open spec fn normal_axis(f: Face) -> int {
    match f {
        Face::NegX | Face::PosX => 0,
        Face::NegY | Face::PosY => 1,
        _ => 2,
    }
}

/// The axis along which a quad of direction `f` measures its width.
pub open spec fn width_axis(f: Face) -> int {
    match f {
        Face::NegZ | Face::PosZ => 0,
        _ => 2,
    }
}

/// The axis along which a quad of direction `f` measures its height.
pub open spec fn height_axis(f: Face) -> int {
    match f {
        Face::NegY | Face::PosY => 0,
        _ => 1,
    }
}

/// `-1` for the faces that look toward lower coordinates, `1` for the others.
pub open spec fn normal_sign(f: Face) -> int {
    match f {
        Face::NegX | Face::NegY | Face::NegZ => -1,
        _ => 1,
    }
}

/// `k` on axis `axis`, seen from axis `which`.
pub open spec fn along(axis: int, which: int, k: int) -> int {
    if axis == which {
        k
    } else {
        0
    }
}

/// Coordinate `which` of the voxel `a` steps along the width and `b` steps
/// along the height from the first voxel of quad `q`.
pub open spec fn covered(q: Quad, a: int, b: int, which: int) -> int {
    let base = if which == 0 {
        q.x as int
    } else if which == 1 {
        q.y as int
    } else {
        q.z as int
    };
    base + along(width_axis(q.face), which, a) + along(height_axis(q.face), which, b)
}

/// Coordinate `which` of the voxel across the face of that covered voxel.
pub open spec fn beyond(q: Quad, a: int, b: int, which: int) -> int {
    covered(q, a, b, which) + along(normal_axis(q.face), which, normal_sign(q.face))
}

/// Whether the face of `me` toward `other` is drawn: `me` is not empty, and
/// `other` is empty, or translucent in front of an opaque `me`.
pub open spec fn face_visible(me: MeshVoxel, other: MeshVoxel) -> bool {
    me.visibility != Visibility::Empty && (other.visibility == Visibility::Empty || (other.visibility
        == Visibility::Translucent && me.visibility == Visibility::Opaque))
}

/// Whether the face at step `(a, b)` of quad `q` lies inside the chunk, is
/// visible against the voxel beyond it, and has the block of the quad's
/// first voxel.
pub open spec fn face_of_quad_ok(v: Seq<MeshVoxel>, q: Quad, a: int, b: int) -> bool {
    let (x, y, z) = (covered(q, a, b, 0), covered(q, a, b, 1), covered(q, a, b, 2));
    &&& inner(x) && inner(y) && inner(z)
    &&& face_visible(
        voxel_at(v, x, y, z),
        voxel_at(v, beyond(q, a, b, 0), beyond(q, a, b, 1), beyond(q, a, b, 2)),
    )
    &&& voxel_at(v, x, y, z).id == voxel_at(v, q.x as int, q.y as int, q.z as int).id
}

/// Whether every face that quad `q` covers is a drawn face of the quad's block.
pub open spec fn quad_sound(v: Seq<MeshVoxel>, q: Quad) -> bool {
    &&& q.width >= 1 && q.height >= 1
    &&& forall|a: int, b: int|
        0 <= a < q.width && 0 <= b < q.height ==> #[trigger] face_of_quad_ok(v, q, a, b)
}

/// The quads that block-mesh's greedy mesher makes from a padded buffer.
pub uninterp spec fn greedy_quads_of(v: Seq<MeshVoxel>) -> Seq<Quad>;

/// Relies on block_mesh::greedy_quads over the whole 34³ buffer: its quads
/// depend on the voxels alone; it meshes only the voxels inside the buffer's
/// one-voxel border; and every face it puts in a quad passes its
/// `face_needs_mesh` test and has the merge value of the quad's first voxel.
#[verifier::external_body]
fn greedy_mesh(voxels: &Vec<MeshVoxel>) -> (r: Vec<Quad>)
    requires
        voxels@.len() == 39304,
    ensures
        r@ == greedy_quads_of(voxels@),
        forall|k: int| 0 <= k < r@.len() ==> quad_sound(voxels@, #[trigger] r@[k]),
{
    let mut buffer = GreedyQuadsBuffer::new(voxels.len());
    let shape = ConstShape3u32::<34, 34, 34> {};
    greedy_quads(voxels.as_slice(), &shape, [0; 3], [33; 3], &RIGHT_HANDED_Y_UP_CONFIG.faces, &mut buffer);
    buffer.quads.groups.iter().enumerate()
        .flat_map(|(i, g)| g.iter().map(move |q| quad_from(i, q.minimum, q.width, q.height)))
        .collect()
}

/// The greedy mesh of a chunk from its padded voxel buffer, split by owning
/// block.
pub fn mesh_voxels(chunk: &Chunk, voxels: &Vec<MeshVoxel>) -> (r: Vec<QuadGroup>)
    requires
        chunk.wf(),
        voxels@.len() == 39304,
    ensures
        grouped_by_owner(chunk@, greedy_quads_of(voxels@), r@),
        forall|k: int|
            0 <= k < greedy_quads_of(voxels@).len() ==> quad_sound(voxels@, #[trigger] greedy_quads_of(voxels@)[k]),
{
    let quads = greedy_mesh(voxels);
    proof {
        assert forall|k: int| 0 <= k < quads@.len() implies quad_in_chunk(#[trigger] quads@[k]) by {
            assert(face_of_quad_ok(voxels@, quads@[k], 0, 0));
        }
    }
    group_quads(chunk, &quads)
}

/// The block of the chunk voxel at step `(a, b)` of quad `q`.
pub open spec fn covered_block(c: Seq<BlockId>, q: Quad, a: int, b: int) -> BlockId {
    block_at(c, covered(q, a, b, 0) - 1, covered(q, a, b, 1) - 1, covered(q, a, b, 2) - 1)
}

/// Whether every face that quad `q` covers belongs to a voxel of block `block`.
pub open spec fn quad_uniform(c: Seq<BlockId>, q: Quad, block: BlockId) -> bool {
    forall|a: int, b: int| 0 <= a < q.width && 0 <= b < q.height ==> #[trigger] covered_block(c, q, a, b) == block
}

proof fn lemma_padded_voxel_at(c: Seq<BlockId>, defs: Seq<BlockData>, nb: Seq<Option<Seq<BlockId>>>, x: int, y: int, z: int)
    requires
        0 <= x < 34,
        0 <= y < 34,
        0 <= z < 34,
    ensures
        voxel_at(padded_voxels_of(c, defs, nb), x, y, z) == padded_voxel(c, defs, nb, x, y, z),
{
    lemma_padded_index_split(x, y, z);
}

/// The greedy mesh of `chunk` against its face neighbours, one group of
/// quads per block type. The quads are block-mesh's on the padded buffer, so
/// a face against an opaque voxel of a stored neighbour is not drawn; every
/// face of a group belongs to a voxel of the group's block; and an all-air
/// chunk yields no quad at all, whatever its neighbours hold.
pub fn mesh_chunk(registry: &BlockRegistry, chunk: &Chunk, neighbors: &Vec<Option<Chunk>>) -> (r: Vec<QuadGroup>)
    requires
        chunk.wf(),
        ids_registered(chunk@, registry@),
        neighbors_valid(neighbors@, registry@),
        registry.wf(),
    ensures
        grouped_by_owner(
            chunk@,
            greedy_quads_of(padded_voxels_of(chunk@, registry@, neighbor_views(neighbors@))),
            r@,
        ),
        forall|k: int|
            0 <= k < greedy_quads_of(padded_voxels_of(chunk@, registry@, neighbor_views(neighbors@))).len()
                ==> quad_sound(
                padded_voxels_of(chunk@, registry@, neighbor_views(neighbors@)),
                #[trigger] greedy_quads_of(padded_voxels_of(chunk@, registry@, neighbor_views(neighbors@)))[k],
            ),
        forall|g: int, j: int|
            0 <= g < r@.len() && 0 <= j < r@[g].quads@.len() ==> quad_uniform(
                chunk@,
                #[trigger] r@[g].quads@[j],
                r@[g].block,
            ),
        (forall|i: int| 0 <= i < 32768 ==> chunk@[i] == BlockId(0)) ==> r@.len() == 0,
{
    let voxels = padded_voxels(registry, chunk, neighbors);
    let r = mesh_voxels(chunk, &voxels);
    proof {
        let ghost nb = neighbor_views(neighbors@);
        let quads = greedy_quads_of(voxels@);
        assert forall|g: int, j: int| 0 <= g < r@.len() && 0 <= j < r@[g].quads@.len() implies quad_uniform(
            chunk@,
            #[trigger] r@[g].quads@[j],
            r@[g].block,
        ) by {
            let q = r@[g].quads@[j];
            let p = owned_by(chunk@, r@[g].block);
            assert(r@[g].quads@ == quads.filter(p));
            assert(quads.filter(p).contains(q));
            quads.lemma_filter_contains_rev(p, q);
            quads.lemma_filter_pred(p, j);
            let k = choose|k: int| 0 <= k < quads.len() && quads[k] == q;
            assert(quad_sound(voxels@, quads[k]));
            assert forall|a: int, b: int| 0 <= a < q.width && 0 <= b < q.height implies #[trigger] covered_block(
                chunk@,
                q,
                a,
                b,
            ) == r@[g].block by {
                assert(face_of_quad_ok(voxels@, q, a, b));
                assert(face_of_quad_ok(voxels@, q, 0, 0));
                lemma_padded_voxel_at(chunk@, registry@, nb, covered(q, a, b, 0), covered(q, a, b, 1), covered(q, a, b, 2));
                lemma_padded_voxel_at(chunk@, registry@, nb, q.x as int, q.y as int, q.z as int);
            }
        }
        if forall|i: int| 0 <= i < 32768 ==> chunk@[i] == BlockId(0) {
            if r@.len() > 0 {
                assert(r@[0].quads@.len() > 0);
                let q = r@[0].quads@[0];
                assert(r@[0].quads@ == quads.filter(owned_by(chunk@, r@[0].block)));
                assert(quads.filter(owned_by(chunk@, r@[0].block)).contains(q));
                quads.lemma_filter_contains_rev(owned_by(chunk@, r@[0].block), q);
                let k = choose|k: int| 0 <= k < quads.len() && quads[k] == q;
                assert(face_of_quad_ok(voxels@, quads[k], 0, 0));
                lemma_padded_voxel_at(chunk@, registry@, nb, q.x as int, q.y as int, q.z as int);
                crate::chunk::lemma_local_index_bounds(q.x - 1, q.y - 1, q.z - 1);
            }
        }
    }
    r
}

} // verus!
