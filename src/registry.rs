use vstd::prelude::*;
use crate::block::{BlockData, BlockId, BlockType, Visibility, visibility_of};

verus! {

/// Whether some definition in `defs` is named `name`.
pub open spec fn has_name(defs: Seq<BlockData>, name: Seq<char>) -> bool {
    exists|i: int| 0 <= i < defs.len() && (#[trigger] defs[i]).name@ == name
}

/// Whether no two definitions in `defs` share a name.
pub open spec fn names_unique(defs: Seq<BlockData>) -> bool {
    forall|i: int, j: int|
        0 <= i < defs.len() && 0 <= j < defs.len() && i != j ==> (#[trigger] defs[i]).name@
            != (#[trigger] defs[j]).name@
}

/// The name of the block that every registry holds at identifier 0.
pub open spec fn air_name() -> Seq<char> {
    seq!['a', 'i', 'r']
}

/// Appends-only table of block definitions; the identifier of a definition is
/// its position in registration order.
pub struct BlockRegistry {
    blocks: Vec<BlockData>,
}

/// Ways in which registering a block fails.
#[derive(Clone, Copy, PartialEq, Eq, Structural, Debug)]
pub enum RegistryError {
    /// A block of the same name is already registered.
    DuplicateName,
}

impl View for BlockRegistry {
    type V = Seq<BlockData>;

    closed spec fn view(&self) -> Seq<BlockData> {
        self.blocks@
    }
}

impl BlockRegistry {
    /// Identifier 0 is the empty block "air"; names are unique; every
    /// identifier fits in a `u32`.
    pub open spec fn wf(&self) -> bool {
        &&& self@.len() >= 1
        &&& self@.len() <= u32::MAX
        &&& self@[0].name@ == air_name()
        &&& self@[0].block_type == BlockType::Empty
        &&& names_unique(self@)
    }

    /// A registry that holds only the empty block "air", at identifier 0.
    pub fn new() -> (r: BlockRegistry)
        ensures
            r.wf(),
            r@.len() == 1,
    {
        let mut blocks: Vec<BlockData> = Vec::new();
        let name = "air".to_owned();
        let texture_file = String::new();
        proof {
            reveal_strlit("air");
        }
        assert(name@ =~= air_name());
        blocks.push(BlockData { name, block_type: BlockType::Empty, texture_file });
        BlockRegistry { blocks }
    }

    /// Number of registered blocks.
    pub fn len(&self) -> (r: usize)
        ensures
            r == self@.len(),
    {
        self.blocks.len()
    }

    /// Registers `block` under the next identifier; a name that is already
    /// registered is refused and leaves the registry unchanged.
    pub fn register_block(&mut self, block: BlockData) -> (r: Result<BlockId, RegistryError>)
        requires
            old(self).wf(),
            old(self)@.len() < u32::MAX,
        ensures
            final(self).wf(),
            has_name(old(self)@, block.name@) <==> r is Err,
            r is Err ==> r == Err::<BlockId, RegistryError>(RegistryError::DuplicateName)
                && final(self)@ == old(self)@,
            r matches Ok(id) ==> id.0 == old(self)@.len() && final(self)@ == old(self)@.push(block),
    {
        match self.find(&block.name) {
            Some(_) => Err(RegistryError::DuplicateName),
            None => {
                let id = BlockId(self.blocks.len() as u32);
                let ghost before = self@;
                self.blocks.push(block);
                assert(names_unique(self@)) by {
                    assert forall|i: int, j: int|
                        0 <= i < self@.len() && 0 <= j < self@.len() && i != j implies (
                    #[trigger] self@[i]).name@ != (#[trigger] self@[j]).name@ by {
                        if i < before.len() && j < before.len() {
                            assert(self@[i] == before[i] && self@[j] == before[j]);
                        } else if i < before.len() {
                            assert(self@[i] == before[i]);
                        } else {
                            assert(self@[j] == before[j]);
                        }
                    }
                }
                Ok(id)
            },
        }
    }

    fn find(&self, name: &String) -> (r: Option<usize>)
        ensures
            r is None <==> !has_name(self@, name@),
            r matches Some(i) ==> i < self@.len() && self@[i as int].name@ == name@,
    {
        let mut i: usize = 0;
        while i < self.blocks.len()
            invariant
                i <= self@.len(),
                forall|j: int| 0 <= j < i ==> (#[trigger] self@[j]).name@ != name@,
            decreases self@.len() - i,
        {
            if self.blocks[i].name == *name {
                return Some(i);
            }
            i += 1;
        }
        None
    }

    /// The identifier registered under `name`, if any.
    pub fn id_from_name(&self, name: String) -> (r: Option<BlockId>)
        requires
            self.wf(),
        ensures
            r is None <==> !has_name(self@, name@),
            r matches Some(id) ==> id.0 < self@.len() && self@[id.0 as int].name@ == name@,
    {
        match self.find(&name) {
            Some(i) => Some(BlockId(i as u32)),
            None => None,
        }
    }

    /// The definition registered under identifier `id`.
    pub fn block_from_id(&self, id: BlockId) -> (r: &BlockData)
        requires
            id.0 < self@.len(),
        ensures
            *r == self@[id.0 as int],
    {
        &self.blocks[id.0 as usize]
    }

    /// The visibility class of the block registered under identifier `id`.
    pub fn visibility_from_id(&self, id: BlockId) -> (r: Visibility)
        requires
            id.0 < self@.len(),
        ensures
            r == visibility_of(self@[id.0 as int].block_type),
    {
        self.blocks[id.0 as usize].block_type.get_visibility()
    }
}

/// Each name registered in order gets its own identifier, and looking that
/// identifier up gives back the name: the identifier of the definition at
/// position `i` is `i`, and distinct positions have distinct names.
pub proof fn registered_names_round_trip(reg: BlockRegistry, i: int, j: int)
    requires
        reg.wf(),
        0 <= i < reg@.len(),
        0 <= j < reg@.len(),
        i != j,
    ensures
        has_name(reg@, reg@[i].name@),
        forall|k: int| 0 <= k < reg@.len() && (#[trigger] reg@[k]).name@ == reg@[i].name@ ==> k == i,
        reg@[i].name@ != reg@[j].name@,
{
}

/// Registering definitions `ds` one after another on a registry that holds
/// `before` (each call appends, see `register_block`), with no name repeated,
/// gives the `k`-th of them identifier `before.len() + k`, and no other
/// identifier carries its name: identifiers are distinct and follow the
/// order of registration.
pub proof fn registration_order(before: Seq<BlockData>, ds: Seq<BlockData>, k: int, m: int)
    requires
        names_unique(before + ds),
        0 <= k < ds.len(),
        0 <= m < ds.len(),
    ensures
        has_name(before + ds, ds[k].name@),
        (before + ds)[before.len() + k] == ds[k],
        forall|i: int|
            0 <= i < (before + ds).len() && (#[trigger] (before + ds)[i]).name@ == ds[k].name@ ==> i
                == before.len() + k,
        k < m ==> before.len() + k < before.len() + m && ds[k].name@ != ds[m].name@,
{
    let all = before + ds;
    assert(all[before.len() + k] == ds[k]);
    assert(all[before.len() + m] == ds[m]);
}

} // verus!
