use vstd::prelude::*;
use crate::block::BlockId;
use crate::cache::{CacheEntry, ChunkCache, inserted, lookup, touched, without_key};
use crate::chunk::Chunk;
use crate::codec::{StoreError, decode_chunk, decoded_blocks, encode_chunk, encode_key, CHUNK_RECORD_LEN};
use crate::coords::ChunkCoordinate;

verus! {

/// sled's handle on one tree of a database, carried through unopened.
#[verifier::external_type_specification]
#[verifier::external_body]
pub struct ExTree(sled::Tree);

/// sled's error type, which the wrappers below hand back and the store maps
/// to its own errors.
#[verifier::external_type_specification]
#[verifier::external_body]
pub struct ExSledError(sled::Error);

/// Relies on sled::Tree::insert: stores `value` under `key` in one atomic step.
#[verifier::external_body]
fn tree_insert(tree: &sled::Tree, key: &Vec<u8>, value: Vec<u8>) -> (r: Result<(), sled::Error>) {
    match tree.insert(key.as_slice(), value) {
        Ok(_) => Ok(()),
        Err(e) => Err(e),
    }
}

/// Relies on sled::Tree::get: the bytes stored under `key`, if any.
#[verifier::external_body]
fn tree_get(tree: &sled::Tree, key: &Vec<u8>) -> (r: Result<Option<Vec<u8>>, sled::Error>) {
    match tree.get(key.as_slice()) {
        Ok(Some(v)) => Ok(Some(v.to_vec())),
        Ok(None) => Ok(None),
        Err(e) => Err(e),
    }
}

/// Relies on sled::Tree::contains_key: whether a value is stored under `key`.
#[verifier::external_body]
fn tree_contains(tree: &sled::Tree, key: &Vec<u8>) -> (r: Result<bool, sled::Error>) {
    tree.contains_key(key.as_slice())
}

/// Relies on sled::Tree::flush: writes the tree's dirty buffers to disk.
#[verifier::external_body]
fn tree_flush(tree: &sled::Tree) -> (r: Result<(), sled::Error>) {
    match tree.flush() {
        Ok(_) => Ok(()),
        Err(e) => Err(e),
    }
}

/// The chunk that a record read from storage holds: none for a missing
/// record, `CorruptRecord` for one of the wrong length.
pub fn record_to_chunk(record: Option<Vec<u8>>) -> (r: Result<Option<Chunk>, StoreError>)
    ensures
        record is None ==> r == Ok::<Option<Chunk>, StoreError>(None),
        record matches Some(b) ==> (b@.len() == CHUNK_RECORD_LEN <==> r is Ok),
        record matches Some(b) ==> (r is Err ==> r == Err::<Option<Chunk>, StoreError>(
            StoreError::CorruptRecord,
        )),
        record matches Some(b) ==> (r matches Ok(Some(c)) ==> c.wf() && c@ == decoded_blocks(b@)),
        record is Some ==> !(r matches Ok(None)),
{
    match record {
        None => Ok(None),
        Some(b) => match decode_chunk(b.as_slice()) {
            Ok(c) => Ok(Some(c)),
            Err(e) => Err(e),
        },
    }
}

/// Persistent map from chunk coordinates to chunk records, with a bounded
/// LRU cache in front. Writes go to storage first and reach the cache only
/// once storage has accepted and flushed them, so the cache never holds the
/// only copy of a chunk.
pub struct ChunkStore {
    tree: sled::Tree,
    cache: ChunkCache,
}

impl ChunkStore {
    /// The cache's entries, least recently used first.
    pub closed spec fn cached(&self) -> Seq<CacheEntry> {
        self.cache@
    }

    /// The number of chunks the cache keeps.
    pub closed spec fn cache_capacity(&self) -> nat {
        self.cache.capacity()
    }

    pub closed spec fn wf(&self) -> bool {
        self.cache.wf()
    }

    pub proof fn lemma_wf(&self)
        requires
            self.wf(),
        ensures
            crate::cache::keys_unique(self.cached()),
            self.cache_capacity() >= 1,
    {
        self.cache.lemma_wf();
    }

    /// A store over `tree` whose cache keeps `cache_capacity` chunks.
    pub fn new(tree: sled::Tree, cache_capacity: usize) -> (r: ChunkStore)
        requires
            cache_capacity >= 1,
        ensures
            r.wf(),
            r.cached().len() == 0,
            r.cache_capacity() == cache_capacity,
    {
        ChunkStore { tree, cache: ChunkCache::new(cache_capacity) }
    }

    /// The chunk stored at `coord`. A cached chunk is returned without a read
    /// of storage; otherwise the record is read, decoded and cached.
    pub fn get(&mut self, coord: &ChunkCoordinate) -> (r: Result<Option<Chunk>, StoreError>)
        requires
            old(self).wf(),
        ensures
            final(self).wf(),
            final(self).cache_capacity() == old(self).cache_capacity(),
            r matches Ok(Some(c)) ==> c.wf(),
            lookup(old(self).cached(), *coord) matches Some(v) ==> (r matches Ok(Some(c)) && c@ == v
                && final(self).cached() == touched(old(self).cached(), *coord)),
            lookup(old(self).cached(), *coord) is None ==> (r matches Ok(Some(c))
                ==> final(self).cached() == inserted(old(self).cached(), *coord, c@, old(self).cache_capacity())),
            lookup(old(self).cached(), *coord) is None ==> (!(r matches Ok(Some(_)))
                ==> final(self).cached() == old(self).cached()),
            r is Err ==> r == Err::<Option<Chunk>, StoreError>(StoreError::StoreIoError) || r == Err::<
                Option<Chunk>,
                StoreError,
            >(StoreError::CorruptRecord),
    {
        match self.cache.get(coord) {
            Some(c) => return Ok(Some(c)),
            None => {},
        }
        match self.read_record(coord) {
            Ok(Some(c)) => {
                self.cache.insert(*coord, c.duplicate());
                Ok(Some(c))
            },
            other => other,
        }
    }

    /// Reads and decodes the record at `coord` from storage: `StoreIoError`
    /// when the read fails, `CorruptRecord` when the record has the wrong length.
    fn read_record(&self, coord: &ChunkCoordinate) -> (r: Result<Option<Chunk>, StoreError>)
        ensures
            r matches Ok(Some(c)) ==> c.wf(),
            r is Err ==> r == Err::<Option<Chunk>, StoreError>(StoreError::StoreIoError) || r == Err::<
                Option<Chunk>,
                StoreError,
            >(StoreError::CorruptRecord),
    {
        let key = encode_key(coord);
        let record = match tree_get(&self.tree, &key) {
            Ok(record) => record,
            Err(_) => return Err(StoreError::StoreIoError),
        };
        record_to_chunk(record)
    }

    /// The chunk stored at `coord`, read without changing the cache: a cached
    /// chunk is returned as it is cached, any other is read from storage.
    pub fn peek(&self, coord: &ChunkCoordinate) -> (r: Result<Option<Chunk>, StoreError>)
        requires
            self.wf(),
        ensures
            r matches Ok(Some(c)) ==> c.wf(),
            lookup(self.cached(), *coord) matches Some(v) ==> (r matches Ok(Some(c)) && c@ == v),
            r is Err ==> r == Err::<Option<Chunk>, StoreError>(StoreError::StoreIoError) || r == Err::<
                Option<Chunk>,
                StoreError,
            >(StoreError::CorruptRecord),
    {
        match self.cache.peek(coord) {
            Some(c) => Ok(Some(c)),
            None => self.read_record(coord),
        }
    }

    /// Whether a chunk is stored at `coord`; a cached chunk answers without a
    /// read of storage.
    pub fn contains(&self, coord: &ChunkCoordinate) -> (r: Result<bool, StoreError>)
        requires
            self.wf(),
        ensures
            lookup(self.cached(), *coord) is Some ==> r == Ok::<bool, StoreError>(true),
            r is Err ==> r == Err::<bool, StoreError>(StoreError::StoreIoError),
    {
        if self.cache.contains(coord) {
            return Ok(true);
        }
        let key = encode_key(coord);
        match tree_contains(&self.tree, &key) {
            Ok(b) => Ok(b),
            Err(_) => Err(StoreError::StoreIoError),
        }
    }

    /// Persists `chunk` at `coord` and flushes it to disk; only then does the
    /// chunk enter the cache. On a failed write the coordinate leaves the
    /// cache, so that the next read goes to storage.
    pub fn put(&mut self, coord: &ChunkCoordinate, chunk: Chunk) -> (r: Result<(), StoreError>)
        requires
            old(self).wf(),
            chunk.wf(),
        ensures
            final(self).wf(),
            final(self).cache_capacity() == old(self).cache_capacity(),
            r is Ok ==> final(self).cached() == inserted(
                old(self).cached(),
                *coord,
                chunk@,
                old(self).cache_capacity(),
            ),
            r is Err ==> r == Err::<(), StoreError>(StoreError::StoreIoError) && final(self).cached()
                == without_key(old(self).cached(), *coord),
    {
        let key = encode_key(coord);
        let bytes = encode_chunk(&chunk);
        match tree_insert(&self.tree, &key, bytes) {
            Ok(()) => {},
            Err(_) => {
                self.cache.remove(coord);
                return Err(StoreError::StoreIoError);
            },
        }
        match tree_flush(&self.tree) {
            Ok(()) => {},
            Err(_) => {
                self.cache.remove(coord);
                return Err(StoreError::StoreIoError);
            },
        }
        self.cache.insert(*coord, chunk);
        Ok(())
    }
}

/// Once a chunk has been put at a coordinate, a read of that coordinate is
/// served from the cache and returns the same voxels.
pub proof fn put_then_get(s: Seq<CacheEntry>, coord: ChunkCoordinate, v: Seq<BlockId>, capacity: nat)
    requires
        crate::cache::keys_unique(s),
        capacity >= 1,
    ensures
        lookup(inserted(s, coord, v, capacity), coord) == Some(v),
{
    crate::cache::insert_then_lookup(s, coord, v, capacity);
}

} // verus!
