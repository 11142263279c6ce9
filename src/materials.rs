use vstd::prelude::*;
use crate::block::BlockId;

verus! {

/// The key of a material: a block and a variant of its look.
pub type MaterialKey = (BlockId, u64);

/// The handle stored under `k` in `s`, if any.
pub open spec fn material_in<H>(s: Seq<(MaterialKey, H)>, k: MaterialKey) -> Option<H> {
    if exists|i: int| 0 <= i < s.len() && (#[trigger] s[i]).0 == k {
        Some(s[choose|i: int| 0 <= i < s.len() && (#[trigger] s[i]).0 == k].1)
    } else {
        None
    }
}

/// Whether no key occurs twice in `s`.
pub open spec fn material_keys_unique<H>(s: Seq<(MaterialKey, H)>) -> bool {
    forall|i: int, j: int|
        0 <= i < s.len() && 0 <= j < s.len() && i != j ==> (#[trigger] s[i]).0 != (#[trigger] s[j]).0
}

proof fn lemma_material_at<H>(s: Seq<(MaterialKey, H)>, i: int)
    requires
        material_keys_unique(s),
        0 <= i < s.len(),
    ensures
        material_in(s, s[i].0) == Some(s[i].1),
{
    let k = s[i].0;
    assert(exists|j: int| 0 <= j < s.len() && (#[trigger] s[j]).0 == k);
    let j = choose|j: int| 0 <= j < s.len() && (#[trigger] s[j]).0 == k;
    assert(j == i);
}

/// Materials resolved so far, one per block and variant; each is resolved
/// the first time its block is meshed and kept from then on.
pub struct BlockMaterials<H> {
    entries: Vec<(MaterialKey, H)>,
}

impl<H> View for BlockMaterials<H> {
    type V = Seq<(MaterialKey, H)>;

    closed spec fn view(&self) -> Seq<(MaterialKey, H)> {
        self.entries@
    }
}

impl<H> BlockMaterials<H> {
    pub open spec fn wf(&self) -> bool {
        material_keys_unique(self@)
    }

    /// The material of block `id` in `variant`, if it was resolved.
    pub open spec fn material(&self, id: BlockId, variant: u64) -> Option<H> {
        material_in(self@, (id, variant))
    }

    /// A table with no material resolved.
    pub fn new() -> (r: BlockMaterials<H>)
        ensures
            r.wf(),
            forall|id: BlockId, variant: u64| r.material(id, variant) is None,
    {
        BlockMaterials { entries: Vec::new() }
    }

    fn find(&self, id: BlockId, variant: u64) -> (r: Option<usize>)
        ensures
            r is None ==> forall|i: int| 0 <= i < self@.len() ==> (#[trigger] self@[i]).0 != (id, variant),
            r matches Some(i) ==> i < self@.len() && self@[i as int].0 == (id, variant),
    {
        let mut i: usize = 0;
        while i < self.entries.len()
            invariant
                i <= self@.len(),
                forall|j: int| 0 <= j < i ==> (#[trigger] self@[j]).0 != (id, variant),
            decreases self@.len() - i,
        {
            let (b, v) = self.entries[i].0;
            if b == id && v == variant {
                return Some(i);
            }
            i += 1;
        }
        None
    }

    /// The material of block `id` in `variant`, if it was resolved.
    pub fn get_material(&self, id: BlockId, variant: u64) -> (r: Option<&H>)
        requires
            self.wf(),
        ensures
            r matches Some(h) ==> self.material(id, variant) == Some(*h),
            r is None ==> self.material(id, variant) is None,
    {
        match self.find(id, variant) {
            Some(i) => {
                proof {
                    lemma_material_at(self@, i as int);
                }
                Some(&self.entries[i].1)
            },
            None => None,
        }
    }

    /// Keeps `handle` as the material of block `id` in `variant`, unless one
    /// was resolved before, which stays. Returns whether `handle` was kept.
    pub fn insert_material(&mut self, id: BlockId, variant: u64, handle: H) -> (r: bool)
        requires
            old(self).wf(),
        ensures
            final(self).wf(),
            r == (old(self).material(id, variant) is None),
            r ==> final(self)@ == old(self)@.push(((id, variant), handle)),
            !r ==> final(self)@ == old(self)@,
            r ==> final(self).material(id, variant) == Some(handle),
            forall|b: BlockId, v: u64| (b, v) != (id, variant) ==> #[trigger] final(self).material(b, v)
                == old(self).material(b, v),
    {
        match self.find(id, variant) {
            Some(i) => {
                proof {
                    lemma_material_at(self@, i as int);
                }
                false
            },
            None => {
                let ghost s = self@;
                self.entries.push(((id, variant), handle));
                assert forall|a: int, b: int|
                    0 <= a < self@.len() && 0 <= b < self@.len() && a != b implies (
                #[trigger] self@[a]).0 != (#[trigger] self@[b]).0 by {
                    assert(a < s.len() ==> self@[a] == s[a]);
                    assert(b < s.len() ==> self@[b] == s[b]);
                }
                proof {
                    lemma_material_at(self@, s.len() as int);
                }
                assert forall|b: BlockId, v: u64| (b, v) != (id, variant) implies #[trigger] self.material(
                    b,
                    v,
                ) == material_in(s, (b, v)) by {
                    if exists|j: int| 0 <= j < s.len() && (#[trigger] s[j]).0 == (b, v) {
                        let j = choose|j: int| 0 <= j < s.len() && (#[trigger] s[j]).0 == (b, v);
                        lemma_material_at(s, j);
                        assert(self@[j] == s[j]);
                        lemma_material_at(self@, j);
                    } else {
                        assert forall|j: int| 0 <= j < self@.len() implies (#[trigger] self@[j]).0 != (
                        b,
                        v,
                        ) by {
                            if j < s.len() {
                                assert(self@[j] == s[j]);
                            }
                        }
                    }
                }
                true
            },
        }
    }
}

} // verus!
