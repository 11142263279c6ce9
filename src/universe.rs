use vstd::prelude::*;
use crate::block::{BlockData, BlockId};
use crate::cache::{inserted, lookup, without_key};
use crate::chunk::{Chunk, block_at, in_chunk};
use crate::codec::StoreError;
use crate::coords::{ChunkCoordinate, axis_in_range, chunk_axis, local_axis, world_to_chunk_coordinate, world_to_local_offset};
use crate::mesh::{MeshVoxel, chunk_view_opt, ids_registered, neighbor_views, padded_voxels, padded_voxels_of};
use crate::pipeline::{Action, Event, Phase, PipelineTable, action_of, next_phase};
use crate::registry::{BlockRegistry, RegistryError, has_name};
use crate::store::ChunkStore;
use crate::terrain::{TerrainError, fill_name, generate_chunk, registered_id, surface_name, terrain_blocks};

verus! {

/// sled's handle on an open database, from which the overworld's tree is opened.
#[verifier::external_type_specification]
#[verifier::external_body]
pub struct ExDb(sled::Db);

/// Relies on sled::Db::open_tree: opens, or creates, the tree named `name`.
#[verifier::external_body]
fn db_open_tree(db: &sled::Db, name: &Vec<u8>) -> (r: Result<sled::Tree, sled::Error>) {
    db.open_tree(name.as_slice())
}

/// The bytes of `"dim:"` followed by `dim`: the name of a dimension's tree.
pub open spec fn dimension_tree_name(dim: Seq<u8>) -> Seq<u8> {
    seq![100u8, 105u8, 109u8, 58u8] + dim
}

/// The name of the tree that holds the chunks of dimension `dim`.
pub fn dimension_name(dim: &Vec<u8>) -> (r: Vec<u8>)
    ensures
        r@ == dimension_tree_name(dim@),
{
    let mut out: Vec<u8> = Vec::new();
    out.push(100u8);
    out.push(105u8);
    out.push(109u8);
    out.push(58u8);
    let mut i: usize = 0;
    while i < dim.len()
        invariant
            i <= dim@.len(),
            out@ == seq![100u8, 105u8, 109u8, 58u8] + dim@.subrange(0, i as int),
        decreases dim@.len() - i,
    {
        out.push(dim[i]);
        assert(out@ =~= seq![100u8, 105u8, 109u8, 58u8] + dim@.subrange(0, i + 1));
        i += 1;
    }
    assert(dim@.subrange(0, dim@.len() as int) =~= dim@);
    out
}

/// Ways in which a generation or remesh task fails.
#[derive(Clone, Copy, PartialEq, Eq, Structural, Debug)]
pub enum TaskError {
    /// A block that terrain is made of is not registered.
    UnknownBlockName,
    /// A chunk holds an identifier that the registry does not know.
    InvalidBlockId,
    /// The store holds no chunk at the coordinate.
    MissingChunk,
    /// Reading or writing the store failed.
    Store(StoreError),
}

/// The world's shared state: the block registry and the chunk store of the
/// overworld.
pub struct Universe {
    pub registry: BlockRegistry,
    pub store: ChunkStore,
}

impl Universe {
    pub open spec fn wf(&self) -> bool {
        self.registry.wf() && self.store.wf()
    }

    /// A universe over `db`, keeping its chunks in the tree of the
    /// overworld, with only "air" registered; `StoreUnavailable` when the
    /// tree cannot be opened.
    pub fn new(db: &sled::Db, cache_capacity: usize) -> (r: Result<Universe, StoreError>)
        requires
            cache_capacity >= 1,
        ensures
            r is Err ==> r == Err::<Universe, StoreError>(StoreError::StoreUnavailable),
            r matches Ok(u) ==> u.wf() && u.registry@.len() == 1 && u.store.cached().len() == 0
                && u.store.cache_capacity() == cache_capacity,
    {
        let overworld: Vec<u8> = vec![111u8, 118u8, 101u8, 114u8, 119u8, 111u8, 114u8, 108u8, 100u8];
        let name = dimension_name(&overworld);
        match db_open_tree(db, &name) {
            Ok(tree) => Ok(Universe { registry: BlockRegistry::new(), store: ChunkStore::new(tree, cache_capacity) }),
            Err(_) => Err(StoreError::StoreUnavailable),
        }
    }

    /// Registers `block` under the next identifier (see `BlockRegistry::register_block`).
    pub fn register_block(&mut self, block: BlockData) -> (r: Result<BlockId, RegistryError>)
        requires
            old(self).wf(),
            old(self).registry@.len() < u32::MAX,
        ensures
            final(self).wf(),
            final(self).store == old(self).store,
            has_name(old(self).registry@, block.name@) <==> r is Err,
            r is Err ==> final(self).registry@ == old(self).registry@,
            r matches Ok(id) ==> id.0 == old(self).registry@.len() && final(self).registry@ == old(
                self,
            ).registry@.push(block),
    {
        self.registry.register_block(block)
    }

    /// The definition of block `id`.
    pub fn get_block_data_id(&self, id: BlockId) -> (r: &BlockData)
        requires
            id.0 < self.registry@.len(),
        ensures
            *r == self.registry@[id.0 as int],
    {
        self.registry.block_from_id(id)
    }

    /// The identifier registered under `name`, if any.
    pub fn block_id_from_name(&self, name: String) -> (r: Option<BlockId>)
        requires
            self.wf(),
        ensures
            r is None <==> !has_name(self.registry@, name@),
            r matches Some(id) ==> id.0 < self.registry@.len() && self.registry@[id.0 as int].name@
                == name@,
    {
        self.registry.id_from_name(name)
    }

    /// The definition registered under `name`, if any.
    pub fn get_block_data_name(&self, name: String) -> (r: Option<&BlockData>)
        requires
            self.wf(),
        ensures
            r is None <==> !has_name(self.registry@, name@),
            r matches Some(d) ==> d.name@ == name@ && has_name(self.registry@, name@),
    {
        match self.registry.id_from_name(name) {
            Some(id) => Some(self.registry.block_from_id(id)),
            None => None,
        }
    }

    /// Persists `chunk` at `coords` (see `ChunkStore::put`).
    pub fn flush_chunk(&mut self, coords: &ChunkCoordinate, chunk: Chunk) -> (r: Result<(), StoreError>)
        requires
            old(self).wf(),
            chunk.wf(),
        ensures
            final(self).wf(),
            final(self).registry == old(self).registry,
            final(self).store.cache_capacity() == old(self).store.cache_capacity(),
            r is Ok ==> lookup(final(self).store.cached(), *coords) == Some(chunk@),
            r is Ok ==> final(self).store.cached() == inserted(
                old(self).store.cached(),
                *coords,
                chunk@,
                old(self).store.cache_capacity(),
            ),
            r is Err ==> r == Err::<(), StoreError>(StoreError::StoreIoError) && final(self).store.cached()
                == without_key(old(self).store.cached(), *coords),
    {
        let ghost v = chunk@;
        let r = self.store.put(coords, chunk);
        proof {
            if r is Ok {
                old(self).store.lemma_wf();
                crate::cache::insert_then_lookup(
                    old(self).store.cached(),
                    *coords,
                    v,
                    old(self).store.cache_capacity(),
                );
            }
        }
        r
    }

    /// The chunk stored at `coords`, if any (see `ChunkStore::get`).
    pub fn fetch_chunk(&mut self, coords: &ChunkCoordinate) -> (r: Result<Option<Chunk>, StoreError>)
        requires
            old(self).wf(),
        ensures
            final(self).wf(),
            final(self).registry == old(self).registry,
            r matches Ok(Some(c)) ==> c.wf(),
            lookup(old(self).store.cached(), *coords) matches Some(v) ==> (r matches Ok(Some(c))
                && c@ == v),
            r is Err ==> r == Err::<Option<Chunk>, StoreError>(StoreError::StoreIoError) || r == Err::<
                Option<Chunk>,
                StoreError,
            >(StoreError::CorruptRecord),
    {
        self.store.get(coords)
    }

    /// Whether the store holds a chunk at `coords`.
    pub fn chunk_generated(&self, coords: &ChunkCoordinate) -> (r: Result<bool, StoreError>)
        requires
            self.wf(),
        ensures
            lookup(self.store.cached(), *coords) is Some ==> r == Ok::<bool, StoreError>(true),
            r is Err ==> r == Err::<bool, StoreError>(StoreError::StoreIoError),
    {
        self.store.contains(coords)
    }

    /// Handles a load request for `coords`: a chunk that the store holds goes
    /// straight to remeshing, any other to generation.
    pub fn on_load_chunk(&self, table: &mut PipelineTable, coords: &ChunkCoordinate) -> (r: Result<
        Action,
        StoreError,
    >)
        requires
            self.wf(),
            old(table).wf(),
        ensures
            final(table).wf(),
            r is Err ==> *final(table) == *old(table),
            lookup(self.store.cached(), *coords) is Some ==> r == Ok::<Action, StoreError>(
                action_of(old(table).phase(*coords), Event::LoadRequested { stored: true }),
            ),
            r matches Ok(a) ==> exists|stored: bool|
                a == action_of(old(table).phase(*coords), Event::LoadRequested { stored })
                    && final(table).phase(*coords) == next_phase(
                    old(table).phase(*coords),
                    Event::LoadRequested { stored },
                ) && (lookup(self.store.cached(), *coords) is Some ==> stored),
            r is Ok ==> forall|d: ChunkCoordinate| d != *coords ==> #[trigger] final(table).phase(d)
                == old(table).phase(d),
    {
        let stored = match self.chunk_generated(coords) {
            Ok(b) => b,
            Err(e) => return Err(e),
        };
        Ok(table.apply(coords, Event::LoadRequested { stored }))
    }

    /// The generation task: fills the chunk at `coords` from its columns'
    /// surface heights and persists it.
    pub fn generate_and_persist(&mut self, coords: &ChunkCoordinate, heights: &Vec<i32>) -> (r: Result<
        (),
        TaskError,
    >)
        requires
            old(self).wf(),
            heights@.len() == 1024,
        ensures
            final(self).wf(),
            final(self).registry == old(self).registry,
            (!has_name(old(self).registry@, fill_name()) || !has_name(old(self).registry@, surface_name()))
                <==> r == Err::<(), TaskError>(TaskError::UnknownBlockName),
            r == Err::<(), TaskError>(TaskError::UnknownBlockName) ==> final(self).store == old(self).store,
            r matches Err(TaskError::Store(e)) ==> e == StoreError::StoreIoError,
            r is Ok ==> lookup(final(self).store.cached(), *coords) == Some(
                terrain_blocks(
                    coords.y as int,
                    heights@,
                    registered_id(old(self).registry@, fill_name()),
                    registered_id(old(self).registry@, surface_name()),
                ),
            ),
    {
        let chunk = match generate_chunk(&self.registry, *coords, heights) {
            Ok(c) => c,
            Err(TerrainError::UnknownBlockName) => return Err(TaskError::UnknownBlockName),
        };
        match self.flush_chunk(coords, chunk) {
            Ok(()) => Ok(()),
            Err(e) => Err(TaskError::Store(e)),
        }
    }

    /// The input of the remesh task: the chunk stored at `coords` and the
    /// padded voxel buffer that the greedy mesher reads, bordered by the
    /// stored face neighbours (see `remesh_buffer`).
    pub fn remesh_input(&mut self, coords: &ChunkCoordinate) -> (r: Result<(Chunk, Vec<MeshVoxel>), TaskError>)
        requires
            old(self).wf(),
        ensures
            final(self).wf(),
            final(self).registry == old(self).registry,
            r matches Ok((c, v)) ==> c.wf() && ids_registered(c@, old(self).registry@) && exists|
                nb: Seq<Option<Chunk>>,
            |
                nb.len() == 6 && (forall|i: int| 0 <= i < 6 ==> (#[trigger] nb[i] matches Some(n) ==> n.wf()))
                    && v@ == padded_voxels_of(c@, old(self).registry@, usable_views(nb, old(self).registry@))
                    && forall|i: int|
                    0 <= i < 6 ==> #[trigger] neighbor_fetched(final(self).store.cached(), *coords, i, nb[i]),
            lookup(old(self).store.cached(), *coords) matches Some(v) ==> (r is Ok <==> ids_registered(
                v,
                old(self).registry@,
            )),
            lookup(old(self).store.cached(), *coords) matches Some(v) ==> (r matches Ok((c, _)) ==> c@
                == v),
            lookup(old(self).store.cached(), *coords) matches Some(v) ==> (!ids_registered(v, old(self).registry@)
                ==> r == Err::<(Chunk, Vec<MeshVoxel>), TaskError>(TaskError::InvalidBlockId)),
    {
        let chunk = match self.store.get(coords) {
            Ok(Some(c)) => c,
            Ok(None) => return Err(TaskError::MissingChunk),
            Err(e) => return Err(TaskError::Store(e)),
        };
        let mut reads: Vec<Option<Chunk>> = Vec::new();
        let mut i: usize = 0;
        while i < 6
            invariant
                i <= 6,
                self.wf(),
                self.registry == old(self).registry,
                reads@.len() == i,
                forall|j: int| 0 <= j < i ==> (#[trigger] reads@[j] matches Some(n) ==> n.wf()),
                forall|j: int|
                    0 <= j < i ==> #[trigger] neighbor_fetched(self.store.cached(), *coords, j, reads@[j]),
            decreases 6 - i,
        {
            let n = match neighbor_coordinate(coords, i) {
                Some(nc) => match self.store.peek(&nc) {
                    Ok(Some(c)) => Some(c),
                    _ => None,
                },
                None => None,
            };
            reads.push(n);
            i += 1;
        }
        match remesh_buffer(&self.registry, &chunk, reads) {
            Ok(voxels) => Ok((chunk, voxels)),
            Err(e) => Err(e),
        }
    }

    /// Places `block` at local `pos` of the stored chunk at `coords` and
    /// persists the chunk: `Ok(false)` when no chunk is stored there.
    pub fn edit_block(&mut self, coords: &ChunkCoordinate, pos: (u32, u32, u32), block: BlockId) -> (r:
        Result<bool, StoreError>)
        requires
            old(self).wf(),
            in_chunk(pos.0 as int, pos.1 as int, pos.2 as int),
        ensures
            final(self).wf(),
            final(self).registry == old(self).registry,
            r == Ok::<bool, StoreError>(true) ==> exists|v: Seq<BlockId>|
                lookup(final(self).store.cached(), *coords) == Some(v) && v.len() == 32768 && block_at(
                    v,
                    pos.0 as int,
                    pos.1 as int,
                    pos.2 as int,
                ) == block,
            lookup(old(self).store.cached(), *coords) matches Some(old_v) ==> (r == Ok::<bool, StoreError>(true)
                ==> lookup(final(self).store.cached(), *coords) == Some(
                old_v.update(crate::chunk::local_index(pos.0 as int, pos.1 as int, pos.2 as int), block),
            )),
            lookup(old(self).store.cached(), *coords) is Some ==> r != Ok::<bool, StoreError>(false),
    {
        let mut chunk = match self.store.get(coords) {
            Ok(Some(c)) => c,
            Ok(None) => return Ok(false),
            Err(e) => return Err(e),
        };
        chunk.place(block, pos);
        proof {
            crate::chunk::lemma_local_index_bounds(pos.0 as int, pos.1 as int, pos.2 as int);
        }
        match self.flush_chunk(coords, chunk) {
            Ok(()) => Ok(true),
            Err(e) => Err(e),
        }
    }

    /// Places `block` at local `pos` of the chunk at `coords`, persists it,
    /// and tells the pipeline that the chunk was edited, which sends a
    /// resident chunk back to remeshing. `Ok(None)` when no chunk is stored
    /// there; the pipeline is then left as it was.
    pub fn place_block(
        &mut self,
        table: &mut PipelineTable,
        coords: &ChunkCoordinate,
        pos: (u32, u32, u32),
        block: BlockId,
    ) -> (r: Result<Option<Action>, StoreError>)
        requires
            old(self).wf(),
            old(table).wf(),
            in_chunk(pos.0 as int, pos.1 as int, pos.2 as int),
        ensures
            final(self).wf(),
            final(table).wf(),
            final(self).registry == old(self).registry,
            !(r matches Ok(Some(_))) ==> *final(table) == *old(table),
            r matches Ok(Some(a)) ==> a == action_of(old(table).phase(*coords), Event::Edited)
                && final(table).phase(*coords) == next_phase(old(table).phase(*coords), Event::Edited)
                && exists|v: Seq<BlockId>|
                lookup(final(self).store.cached(), *coords) == Some(v) && v.len() == 32768 && block_at(
                    v,
                    pos.0 as int,
                    pos.1 as int,
                    pos.2 as int,
                ) == block,
            r matches Ok(Some(_)) ==> forall|d: ChunkCoordinate| d != *coords
                ==> #[trigger] final(table).phase(d) == old(table).phase(d),
            lookup(old(self).store.cached(), *coords) matches Some(old_v) ==> (r matches Ok(Some(_))
                ==> lookup(final(self).store.cached(), *coords) == Some(
                old_v.update(crate::chunk::local_index(pos.0 as int, pos.1 as int, pos.2 as int), block),
            )),
            lookup(old(self).store.cached(), *coords) is Some ==> !(r matches Ok(None)),
    {
        match self.edit_block(coords, pos, block) {
            Ok(true) => Ok(Some(table.apply(coords, Event::Edited))),
            Ok(false) => Ok(None),
            Err(e) => Err(e),
        }
    }

    /// The block at world voxel `(x, y, z)`: `Ok(None)` when its chunk is not stored.
    pub fn block_at_world(&mut self, x: i64, y: i64, z: i64) -> (r: Result<Option<BlockId>, StoreError>)
        requires
            old(self).wf(),
            axis_in_range(x as int),
            axis_in_range(y as int),
            axis_in_range(z as int),
        ensures
            final(self).wf(),
            final(self).registry == old(self).registry,
            lookup(
                old(self).store.cached(),
                ChunkCoordinate {
                    x: chunk_axis(x as int) as i32,
                    y: chunk_axis(y as int) as i32,
                    z: chunk_axis(z as int) as i32,
                },
            ) matches Some(v) ==> r == Ok::<Option<BlockId>, StoreError>(
                Some(block_at(v, local_axis(x as int), local_axis(y as int), local_axis(z as int))),
            ),
    {
        let coords = world_to_chunk_coordinate(x, y, z);
        let (lx, ly, lz) = world_to_local_offset(x, y, z);
        match self.store.get(&coords) {
            Ok(Some(c)) => Ok(Some(c.get(lx, ly, lz))),
            Ok(None) => Ok(None),
            Err(e) => Err(e),
        }
    }

    /// Places `block` at world voxel `(x, y, z)` (see `place_block`).
    pub fn place_block_at(&mut self, table: &mut PipelineTable, x: i64, y: i64, z: i64, block: BlockId) -> (r:
        Result<Option<Action>, StoreError>)
        requires
            old(self).wf(),
            old(table).wf(),
            axis_in_range(x as int),
            axis_in_range(y as int),
            axis_in_range(z as int),
        ensures
            final(self).wf(),
            final(table).wf(),
            final(self).registry == old(self).registry,
            ({
                let coords = ChunkCoordinate {
                    x: chunk_axis(x as int) as i32,
                    y: chunk_axis(y as int) as i32,
                    z: chunk_axis(z as int) as i32,
                };
                &&& !(r matches Ok(Some(_))) ==> *final(table) == *old(table)
                &&& r matches Ok(Some(a)) ==> a == action_of(old(table).phase(coords), Event::Edited)
                    && final(table).phase(coords) == next_phase(old(table).phase(coords), Event::Edited)
                    && exists|v: Seq<BlockId>|
                    lookup(final(self).store.cached(), coords) == Some(v) && v.len() == 32768
                        && block_at(v, local_axis(x as int), local_axis(y as int), local_axis(z as int))
                        == block
                &&& lookup(old(self).store.cached(), coords) matches Some(old_v) ==> (r matches Ok(Some(_))
                    ==> lookup(final(self).store.cached(), coords) == Some(
                    old_v.update(
                        crate::chunk::local_index(
                            local_axis(x as int),
                            local_axis(y as int),
                            local_axis(z as int),
                        ),
                        block,
                    ),
                ))
                &&& lookup(old(self).store.cached(), coords) is Some ==> !(r matches Ok(None))
            }),
    {
        let coords = world_to_chunk_coordinate(x, y, z);
        let pos = world_to_local_offset(x, y, z);
        self.place_block(table, &coords, pos, block)
    }
}

/// The offset from a chunk to its face neighbour `i`, in the order of `Face`.
pub open spec fn face_offset(i: int) -> (int, int, int) {
    if i == 0 {
        (-1, 0, 0)
    } else if i == 1 {
        (0, -1, 0)
    } else if i == 2 {
        (0, 0, -1)
    } else if i == 3 {
        (1, 0, 0)
    } else if i == 4 {
        (0, 1, 0)
    } else {
        (0, 0, 1)
    }
}

/// The coordinate of face neighbour `i` of `c`, if it is in the range of `i32`.
pub open spec fn neighbor_of(c: ChunkCoordinate, i: int) -> Option<ChunkCoordinate> {
    let (dx, dy, dz) = face_offset(i);
    if i32::MIN <= c.x + dx <= i32::MAX && i32::MIN <= c.y + dy <= i32::MAX && i32::MIN <= c.z + dz
        <= i32::MAX {
        Some(ChunkCoordinate { x: (c.x + dx) as i32, y: (c.y + dy) as i32, z: (c.z + dz) as i32 })
    } else {
        None
    }
}

/// Whether `o` is what was read for face neighbour `i` of `c` while the
/// store caches `cached`: nothing outside the range of `i32`, and the cached
/// voxels for a cached neighbour.
pub open spec fn neighbor_fetched(
    cached: Seq<crate::cache::CacheEntry>,
    c: ChunkCoordinate,
    i: int,
    o: Option<Chunk>,
) -> bool {
    match neighbor_of(c, i) {
        None => o is None,
        Some(nc) => lookup(cached, nc) matches Some(v) ==> (o matches Some(n) && n@ == v),
    }
}

/// The voxels of a neighbour that the mesher may read: those of a stored
/// neighbour whose blocks are all registered; nothing otherwise.
pub open spec fn usable_view(o: Option<Chunk>, defs: Seq<BlockData>) -> Option<Seq<BlockId>> {
    match o {
        Some(n) => if ids_registered(n@, defs) {
            Some(n@)
        } else {
            None
        },
        None => None,
    }
}

/// `usable_view` of each neighbour.
pub open spec fn usable_views(nb: Seq<Option<Chunk>>, defs: Seq<BlockData>) -> Seq<Option<Seq<BlockId>>> {
    nb.map_values(|o: Option<Chunk>| usable_view(o, defs))
}

/// The padded voxel buffer of `chunk` for the remesh task, from the six
/// reads of its face neighbours (in the order of `Face`, `None` where
/// nothing is stored): a neighbour holding an unregistered block is read as
/// absent; `InvalidBlockId` exactly when the chunk itself holds one.
pub fn remesh_buffer(registry: &BlockRegistry, chunk: &Chunk, reads: Vec<Option<Chunk>>) -> (r: Result<
    Vec<MeshVoxel>,
    TaskError,
>)
    requires
        chunk.wf(),
        reads@.len() == 6,
        forall|i: int| 0 <= i < 6 ==> (#[trigger] reads@[i] matches Some(n) ==> n.wf()),
    ensures
        r is Err <==> !ids_registered(chunk@, registry@),
        r is Err ==> r == Err::<Vec<MeshVoxel>, TaskError>(TaskError::InvalidBlockId),
        r matches Ok(v) ==> v@ == padded_voxels_of(chunk@, registry@, usable_views(reads@, registry@)),
{
    if !all_registered(registry, chunk) {
        return Err(TaskError::InvalidBlockId);
    }
    let ghost orig = reads@;
    let mut reads = reads;
    let mut kept: Vec<Option<Chunk>> = Vec::new();
    let mut i: usize = 0;
    while i < 6
        invariant
            i <= 6,
            orig.len() == 6,
            forall|j: int| 0 <= j < 6 ==> (#[trigger] orig[j] matches Some(n) ==> n.wf()),
            reads@ == orig.subrange(i as int, 6),
            kept@.len() == i,
            forall|j: int|
                0 <= j < i ==> chunk_view_opt(#[trigger] kept@[j]) == usable_view(orig[j], registry@),
            forall|j: int|
                0 <= j < i ==> (#[trigger] kept@[j] matches Some(n) ==> n.wf() && ids_registered(n@, registry@)),
        decreases 6 - i,
    {
        let o = reads.remove(0);
        assert(o == orig[i as int]);
        assert(reads@ =~= orig.subrange(i + 1, 6));
        let k = match o {
            Some(n) => if all_registered(registry, &n) {
                Some(n)
            } else {
                None
            },
            None => None,
        };
        kept.push(k);
        i += 1;
    }
    assert(neighbor_views(kept@) =~= usable_views(orig, registry@));
    Ok(padded_voxels(registry, chunk, &kept))
}

/// The coordinate of face neighbour `i` of `c`; `None` where it would leave
/// the range of `i32`.
pub fn neighbor_coordinate(c: &ChunkCoordinate, i: usize) -> (r: Option<ChunkCoordinate>)
    requires
        i < 6,
    ensures
        ({
            let (dx, dy, dz) = face_offset(i as int);
            let fits = i32::MIN <= c.x + dx <= i32::MAX && i32::MIN <= c.y + dy <= i32::MAX
                && i32::MIN <= c.z + dz <= i32::MAX;
            &&& r is None <==> !fits
            &&& r matches Some(n) ==> n.x == c.x + dx && n.y == c.y + dy && n.z == c.z + dz
        }),
        r == neighbor_of(*c, i as int),
{
    let (dx, dy, dz): (i64, i64, i64) = if i == 0 {
        (-1, 0, 0)
    } else if i == 1 {
        (0, -1, 0)
    } else if i == 2 {
        (0, 0, -1)
    } else if i == 3 {
        (1, 0, 0)
    } else if i == 4 {
        (0, 1, 0)
    } else {
        (0, 0, 1)
    };
    let x = c.x as i64 + dx;
    let y = c.y as i64 + dy;
    let z = c.z as i64 + dz;
    if x < i32::MIN as i64 || x > i32::MAX as i64 || y < i32::MIN as i64 || y > i32::MAX as i64 || z
        < i32::MIN as i64 || z > i32::MAX as i64 {
        None
    } else {
        Some(ChunkCoordinate { x: x as i32, y: y as i32, z: z as i32 })
    }
}

/// Whether `n` is face neighbour `i` of `c`.
pub open spec fn is_face_neighbor(c: ChunkCoordinate, i: int, n: ChunkCoordinate) -> bool {
    let (dx, dy, dz) = face_offset(i);
    n.x == c.x + dx && n.y == c.y + dy && n.z == c.z + dz
}

/// The face neighbours of `coords` whose meshes are published. Their border
/// with `coords` changes once `coords` is generated, so they are remeshed then.
pub fn resident_neighbors(table: &PipelineTable, coords: &ChunkCoordinate) -> (r: Vec<ChunkCoordinate>)
    requires
        table.wf(),
    ensures
        forall|n: ChunkCoordinate| r@.contains(n) <==> (exists|i: int| 0 <= i < 6 && is_face_neighbor(
            *coords,
            i,
            n,
        )) && table.phase(n) == Some(Phase::Resident),
        r@.no_duplicates(),
{
    let mut out: Vec<ChunkCoordinate> = Vec::new();
    let mut i: usize = 0;
    while i < 6
        invariant
            i <= 6,
            table.wf(),
            out@.no_duplicates(),
            forall|n: ChunkCoordinate| out@.contains(n) <==> (exists|j: int| 0 <= j < i && is_face_neighbor(
                *coords,
                j,
                n,
            )) && table.phase(n) == Some(Phase::Resident),
        decreases 6 - i,
    {
        let ghost before = out@;
        match neighbor_coordinate(coords, i) {
            Some(n) => {
                if table.phase_of(&n) == Some(Phase::Resident) {
                    assert(!before.contains(n)) by {
                        if before.contains(n) {
                            let j = choose|j: int| 0 <= j < i && is_face_neighbor(*coords, j, n);
                            assert(is_face_neighbor(*coords, i as int, n));
                        }
                    }
                    out.push(n);
                }
                assert forall|m: ChunkCoordinate| out@.contains(m) <==> (exists|j: int|
                    0 <= j < i + 1 && is_face_neighbor(*coords, j, m)) && table.phase(m) == Some(
                    Phase::Resident,
                ) by {
                    if before.contains(m) {
                        let k = choose|k: int| 0 <= k < before.len() && before[k] == m;
                        assert(out@[k] == m);
                    }
                    if out@.contains(m) && !before.contains(m) {
                        assert(m == n);
                        assert(is_face_neighbor(*coords, i as int, m));
                    }
                    if is_face_neighbor(*coords, i as int, m) && table.phase(m) == Some(Phase::Resident) {
                        assert(m == n);
                        assert(out@.last() == n);
                    }
                }
            },
            None => {
                assert forall|m: ChunkCoordinate| out@.contains(m) <==> (exists|j: int|
                    0 <= j < i + 1 && is_face_neighbor(*coords, j, m)) && table.phase(m) == Some(
                    Phase::Resident,
                ) by {
                    if is_face_neighbor(*coords, i as int, m) {
                        assert(false);
                    }
                }
            },
        }
        i += 1;
    }
    out
}

/// Whether every voxel of `chunk` names a registered block.
pub fn all_registered(registry: &BlockRegistry, chunk: &Chunk) -> (r: bool)
    requires
        chunk.wf(),
    ensures
        r == ids_registered(chunk@, registry@),
{
    let n = registry.len();
    let mut i: usize = 0;
    while i < crate::chunk::CHUNK_VOLUME
        invariant
            chunk.wf(),
            n == registry@.len(),
            i <= 32768,
            forall|j: int| 0 <= j < i ==> (#[trigger] chunk@[j]).0 < registry@.len(),
        decreases 32768 - i,
    {
        if chunk.get_index(i).0 as usize >= n {
            return false;
        }
        i += 1;
    }
    true
}

} // verus!
