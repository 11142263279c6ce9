use vstd::prelude::*;
use crate::block::BlockId;
use crate::chunk::Chunk;
use crate::coords::ChunkCoordinate;

verus! {

/// One cached chunk, as its coordinate and its voxels.
pub type CacheEntry = (ChunkCoordinate, Seq<BlockId>);

/// Whether some entry of `s` has key `k`.
pub open spec fn has_key(s: Seq<CacheEntry>, k: ChunkCoordinate) -> bool {
    exists|i: int| 0 <= i < s.len() && (#[trigger] s[i]).0 == k
}

/// Whether no two entries of `s` share a key.
pub open spec fn keys_unique(s: Seq<CacheEntry>) -> bool {
    forall|i: int, j: int|
        0 <= i < s.len() && 0 <= j < s.len() && i != j ==> (#[trigger] s[i]).0 != (#[trigger] s[j]).0
}

/// The position of the entry with key `k` (meaningful where `has_key(s, k)`).
pub open spec fn key_position(s: Seq<CacheEntry>, k: ChunkCoordinate) -> int {
    choose|i: int| 0 <= i < s.len() && (#[trigger] s[i]).0 == k
}

/// The voxels cached under `k`, if any.
pub open spec fn lookup(s: Seq<CacheEntry>, k: ChunkCoordinate) -> Option<Seq<BlockId>> {
    if has_key(s, k) {
        Some(s[key_position(s, k)].1)
    } else {
        None
    }
}

/// `s` without the entry of key `k`.
pub open spec fn without_key(s: Seq<CacheEntry>, k: ChunkCoordinate) -> Seq<CacheEntry> {
    if has_key(s, k) {
        s.remove(key_position(s, k))
    } else {
        s
    }
}

/// `s` after a read of key `k`: its entry becomes the most recently used.
pub open spec fn touched(s: Seq<CacheEntry>, k: ChunkCoordinate) -> Seq<CacheEntry> {
    if has_key(s, k) {
        without_key(s, k).push(s[key_position(s, k)])
    } else {
        s
    }
}

/// `s` after storing `v` under `k` in a cache of `capacity` entries: the new
/// entry is the most recently used, and the least recently used entry leaves
/// when the cache is over capacity.
pub open spec fn inserted(s: Seq<CacheEntry>, k: ChunkCoordinate, v: Seq<BlockId>, capacity: nat) -> Seq<
    CacheEntry,
> {
    let t = without_key(s, k).push((k, v));
    if t.len() > capacity {
        t.subrange(1, t.len() as int)
    } else {
        t
    }
}

proof fn lemma_position(s: Seq<CacheEntry>, k: ChunkCoordinate, i: int)
    requires
        keys_unique(s),
        0 <= i < s.len(),
        s[i].0 == k,
    ensures
        has_key(s, k),
        key_position(s, k) == i,
{
    assert(has_key(s, k));
    let p = key_position(s, k);
    assert(s[p].0 == k);
}

proof fn lemma_remove_unique(s: Seq<CacheEntry>, i: int)
    requires
        keys_unique(s),
        0 <= i < s.len(),
    ensures
        keys_unique(s.remove(i)),
        forall|k: ChunkCoordinate| #[trigger] has_key(s.remove(i), k) ==> has_key(s, k) && k != s[i].0,
{
    let r = s.remove(i);
    assert forall|a: int, b: int| 0 <= a < r.len() && 0 <= b < r.len() && a != b implies (
    #[trigger] r[a]).0 != (#[trigger] r[b]).0 by {
        let a2 = if a < i { a } else { a + 1 };
        let b2 = if b < i { b } else { b + 1 };
        assert(r[a] == s[a2] && r[b] == s[b2]);
    }
    assert forall|k: ChunkCoordinate| #[trigger] has_key(r, k) implies has_key(s, k) && k != s[i].0 by {
        let a = choose|a: int| 0 <= a < r.len() && (#[trigger] r[a]).0 == k;
        let a2 = if a < i { a } else { a + 1 };
        assert(r[a] == s[a2]);
    }
}

proof fn lemma_push_unique(s: Seq<CacheEntry>, e: CacheEntry)
    requires
        keys_unique(s),
        !has_key(s, e.0),
    ensures
        keys_unique(s.push(e)),
{
    let t = s.push(e);
    assert forall|a: int, b: int| 0 <= a < t.len() && 0 <= b < t.len() && a != b implies (
    #[trigger] t[a]).0 != (#[trigger] t[b]).0 by {
        if a < s.len() && b < s.len() {
            assert(t[a] == s[a] && t[b] == s[b]);
        } else if a < s.len() {
            assert(t[a] == s[a]);
        } else {
            assert(t[b] == s[b]);
        }
    }
}

proof fn lemma_drop_first_unique(s: Seq<CacheEntry>)
    requires
        keys_unique(s),
        s.len() >= 1,
    ensures
        keys_unique(s.subrange(1, s.len() as int)),
{
    let t = s.subrange(1, s.len() as int);
    assert forall|a: int, b: int| 0 <= a < t.len() && 0 <= b < t.len() && a != b implies (
    #[trigger] t[a]).0 != (#[trigger] t[b]).0 by {
        assert(t[a] == s[a + 1] && t[b] == s[b + 1]);
    }
}

/// After a chunk is stored under a key, reading that key gives the chunk
/// back, whatever else the cache held.
pub proof fn insert_then_lookup(s: Seq<CacheEntry>, k: ChunkCoordinate, v: Seq<BlockId>, capacity: nat)
    requires
        keys_unique(s),
        capacity >= 1,
    ensures
        lookup(inserted(s, k, v, capacity), k) == Some(v),
        keys_unique(inserted(s, k, v, capacity)),
{
    let w = without_key(s, k);
    if has_key(s, k) {
        let p = key_position(s, k);
        assert(s[p].0 == k);
        lemma_remove_unique(s, p);
    }
    assert(!has_key(w, k));
    assert(keys_unique(w));
    lemma_push_unique(w, (k, v));
    let t = w.push((k, v));
    if t.len() > capacity {
        let u = t.subrange(1, t.len() as int);
        lemma_drop_first_unique(t);
        assert(u[u.len() - 1] == (k, v));
        lemma_position(u, k, u.len() - 1);
    } else {
        lemma_position(t, k, t.len() - 1);
    }
}

/// A bounded cache of chunks with least-recently-used eviction; entries are
/// kept from least to most recently used.
pub struct ChunkCache {
    capacity: usize,
    entries: Vec<(ChunkCoordinate, Chunk)>,
}

impl View for ChunkCache {
    type V = Seq<CacheEntry>;

    closed spec fn view(&self) -> Seq<CacheEntry> {
        self.entries@.map_values(|e: (ChunkCoordinate, Chunk)| (e.0, e.1@))
    }
}

impl ChunkCache {
    /// The number of entries the cache keeps.
    pub closed spec fn capacity(&self) -> nat {
        self.capacity as nat
    }

    /// Capacity of at least one; within it; unique keys; whole chunks.
    pub closed spec fn wf(&self) -> bool {
        &&& self.capacity >= 1
        &&& self.entries@.len() <= self.capacity
        &&& keys_unique(self@)
        &&& forall|i: int| 0 <= i < self.entries@.len() ==> (#[trigger] self.entries@[i]).1.wf()
    }

    pub proof fn lemma_wf(&self)
        requires
            self.wf(),
        ensures
            keys_unique(self@),
            self.capacity() >= 1,
            self@.len() <= self.capacity(),
    {
    }

    /// An empty cache of `capacity` entries.
    pub fn new(capacity: usize) -> (r: ChunkCache)
        requires
            capacity >= 1,
        ensures
            r.wf(),
            r@.len() == 0,
            r.capacity() == capacity,
    {
        let r = ChunkCache { capacity, entries: Vec::new() };
        assert(r@ =~= Seq::<CacheEntry>::empty());
        r
    }

    proof fn lemma_view_index(&self, i: int)
        requires
            0 <= i < self.entries@.len(),
        ensures
            self@[i] == (self.entries@[i].0, self.entries@[i].1@),
            self@.len() == self.entries@.len(),
    {
    }

    fn find(&self, k: &ChunkCoordinate) -> (r: Option<usize>)
        requires
            self.wf(),
        ensures
            r is None <==> !has_key(self@, *k),
            r matches Some(i) ==> i < self@.len() && key_position(self@, *k) == i,
    {
        let mut i: usize = 0;
        while i < self.entries.len()
            invariant
                self.wf(),
                i <= self.entries@.len(),
                self@.len() == self.entries@.len(),
                forall|j: int| 0 <= j < i ==> (#[trigger] self@[j]).0 != *k,
            decreases self.entries@.len() - i,
        {
            proof {
                self.lemma_view_index(i as int);
            }
            if self.entries[i].0 == *k {
                proof {
                    lemma_position(self@, *k, i as int);
                }
                return Some(i);
            }
            i += 1;
        }
        None
    }

    /// Whether a chunk is cached under `k`.
    pub fn contains(&self, k: &ChunkCoordinate) -> (r: bool)
        requires
            self.wf(),
        ensures
            r == has_key(self@, *k),
    {
        self.find(k).is_some()
    }

    /// A copy of the chunk cached under `k`, leaving the order of use as it is.
    pub fn peek(&self, k: &ChunkCoordinate) -> (r: Option<Chunk>)
        requires
            self.wf(),
        ensures
            r is Some <==> lookup(self@, *k) is Some,
            r matches Some(c) ==> c.wf() && lookup(self@, *k) == Some(c@),
    {
        match self.find(k) {
            None => None,
            Some(i) => {
                proof {
                    self.lemma_view_index(i as int);
                }
                Some(self.entries[i].1.duplicate())
            },
        }
    }

    /// A copy of the chunk cached under `k`, which becomes the most recently used.
    pub fn get(&mut self, k: &ChunkCoordinate) -> (r: Option<Chunk>)
        requires
            old(self).wf(),
        ensures
            final(self).wf(),
            final(self).capacity() == old(self).capacity(),
            final(self)@ == touched(old(self)@, *k),
            r is Some <==> lookup(old(self)@, *k) is Some,
            r matches Some(c) ==> c.wf() && lookup(old(self)@, *k) == Some(c@),
    {
        match self.find(k) {
            None => None,
            Some(i) => {
                let ghost s = self@;
                let e = self.entries.remove(i);
                let c = e.1.duplicate();
                assert(self@ =~= s.remove(i as int));
                proof {
                    lemma_remove_unique(s, i as int);
                }
                self.entries.push(e);
                assert(self@ =~= s.remove(i as int).push(s[i as int]));
                proof {
                    lemma_push_unique(s.remove(i as int), s[i as int]);
                }
                assert forall|j: int| 0 <= j < self.entries@.len() implies (
                #[trigger] self.entries@[j]).1.wf() by {
                    if j < i {
                        assert(self.entries@[j] == old(self).entries@[j]);
                    } else if j < self.entries@.len() - 1 {
                        assert(self.entries@[j] == old(self).entries@[j + 1]);
                    }
                }
                Some(c)
            },
        }
    }

    /// Removes the entry of key `k`, if any.
    pub fn remove(&mut self, k: &ChunkCoordinate)
        requires
            old(self).wf(),
        ensures
            final(self).wf(),
            final(self).capacity() == old(self).capacity(),
            final(self)@ == without_key(old(self)@, *k),
    {
        match self.find(k) {
            None => {},
            Some(i) => {
                let ghost s = self@;
                self.entries.remove(i);
                assert(self@ =~= s.remove(i as int));
                proof {
                    lemma_remove_unique(s, i as int);
                }
                assert forall|j: int| 0 <= j < self.entries@.len() implies (
                #[trigger] self.entries@[j]).1.wf() by {
                    if j < i {
                        assert(self.entries@[j] == old(self).entries@[j]);
                    } else {
                        assert(self.entries@[j] == old(self).entries@[j + 1]);
                    }
                }
            },
        }
    }

    /// Stores `chunk` under `k` as the most recently used entry, evicting the
    /// least recently used entry when the cache is full.
    pub fn insert(&mut self, k: ChunkCoordinate, chunk: Chunk)
        requires
            old(self).wf(),
            chunk.wf(),
        ensures
            final(self).wf(),
            final(self).capacity() == old(self).capacity(),
            final(self)@ == inserted(old(self)@, k, chunk@, old(self).capacity()),
    {
        let ghost v = chunk@;
        self.remove(&k);
        let ghost s = self@;
        proof {
            if has_key(s, k) {
                let p = key_position(s, k);
                assert(s[p].0 == k);
                assert(s == without_key(old(self)@, k));
                lemma_remove_unique(old(self)@, key_position(old(self)@, k));
            }
            lemma_push_unique(s, (k, v));
        }
        self.entries.push((k, chunk));
        assert(self@ =~= s.push((k, v)));
        if self.entries.len() > self.capacity {
            let ghost t = self@;
            self.entries.remove(0);
            assert(self@ =~= t.subrange(1, t.len() as int));
            proof {
                lemma_drop_first_unique(t);
            }
        }
    }
}

} // verus!
