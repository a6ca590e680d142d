//! The allocation table: allocated blocks stored by id.

use vstd::prelude::*;
use crate::block::Block;

verus! {

/// An allocated block together with the id under which it was handed
/// out.
#[derive(Clone, Copy, PartialEq, Eq, Structural, Debug)]
pub struct AllocEntry {
    pub id: usize,
    pub block: Block,
}

/// The ids of `s` are strictly increasing; in particular they are
/// unique.
pub open spec fn ids_increasing(s: Seq<AllocEntry>) -> bool {
    forall|i: int, j: int| 0 <= i < j < s.len() ==> (#[trigger] s[i]).id < (#[trigger] s[j]).id
}

/// Some entry of `s` carries the id `id`.
pub open spec fn has_id(s: Seq<AllocEntry>, id: usize) -> bool {
    exists|i: int| 0 <= i < s.len() && (#[trigger] s[i]).id == id
}

/// The blocks of the entries of `s`, in entry order.
pub open spec fn entry_blocks(s: Seq<AllocEntry>) -> Seq<Block> {
    s.map_values(|e: AllocEntry| e.block)
}

/// Every currently allocated block, keyed by id.  Ids come from a
/// strictly increasing counter, so entries are appended in id order and
/// the table stays sorted by id.
pub struct AllocationTable {
    entries: Vec<AllocEntry>,
}

impl View for AllocationTable {
    type V = Seq<AllocEntry>;

    closed spec fn view(&self) -> Seq<AllocEntry> {
        self.entries@
    }
}

impl AllocationTable {
    /// The ordering invariant of the table.
    pub open spec fn wf(&self) -> bool {
        ids_increasing(self@)
    }

    /// A table with no allocations.
    pub fn new() -> (t: AllocationTable)
        ensures
            t.wf(),
            t@ == Seq::<AllocEntry>::empty(),
    {
        let t = AllocationTable { entries: Vec::new() };
        proof {
            assert(t@ =~= Seq::<AllocEntry>::empty());
        }
        t
    }

    /// Records a new allocation.  The caller owns the id counter and
    /// guarantees that `id` is larger than every id already present.
    pub fn insert(&mut self, id: usize, block: Block)
        requires
            old(self).wf(),
            forall|i: int| 0 <= i < old(self)@.len() ==> (#[trigger] old(self)@[i]).id < id,
        ensures
            final(self).wf(),
            final(self)@ == old(self)@.push(AllocEntry { id, block }),
    {
        self.entries.push(AllocEntry { id, block });
    }

    /// Removes the allocation with id `id` and returns its block, or
    /// returns nothing, and changes nothing, when the id is absent.
    pub fn remove(&mut self, id: usize) -> (r: Option<Block>)
        ensures
            old(self).wf() ==> final(self).wf(),
            match r {
                Option::None => *final(self) == *old(self) && !has_id(old(self)@, id),
                Option::Some(b) => exists|i: int|
                    {
                        &&& 0 <= i < old(self)@.len()
                        &&& (#[trigger] old(self)@[i]).id == id
                        &&& old(self)@[i].block == b
                        &&& final(self)@ == old(self)@.remove(i)
                    },
            },
    {
        let len = self.entries.len();
        let mut i: usize = 0;
        while i < len && self.entries[i].id != id
            invariant
                i <= len,
                len == self@.len(),
                self == old(self),
                forall|k: int| 0 <= k < i ==> (#[trigger] self@[k]).id != id,
            decreases len - i,
        {
            i = i + 1;
        }
        if i == len {
            None
        } else {
            let e = self.entries.remove(i);
            proof {
                let s = old(self)@;
                if old(self).wf() {
                    assert forall|p: int, q: int|
                        0 <= p < q < self@.len() implies (#[trigger] self@[p]).id < (
                    #[trigger] self@[q]).id by {
                        if p < i && q >= i {
                            assert(self@[p] == s[p] && self@[q] == s[q + 1]);
                        }
                    }
                }
            }
            Some(e.block)
        }
    }

    /// Read-only lookup of the allocation with id `id`.
    pub fn get(&self, id: usize) -> (r: Option<Block>)
        ensures
            match r {
                Option::None => !has_id(self@, id),
                Option::Some(b) => exists|i: int|
                    {
                        &&& 0 <= i < self@.len()
                        &&& (#[trigger] self@[i]).id == id
                        &&& self@[i].block == b
                    },
            },
    {
        let len = self.entries.len();
        let mut i: usize = 0;
        while i < len && self.entries[i].id != id
            invariant
                i <= len,
                len == self@.len(),
                forall|k: int| 0 <= k < i ==> (#[trigger] self@[k]).id != id,
            decreases len - i,
        {
            i = i + 1;
        }
        if i == len {
            None
        } else {
            Some(self.entries[i].block)
        }
    }

    /// Every allocation, ordered by id ascending, for diagnostics.
    pub fn snapshot(&self) -> (r: Vec<AllocEntry>)
        ensures
            r@ == self@,
    {
        let len = self.entries.len();
        let mut r: Vec<AllocEntry> = Vec::new();
        let mut i: usize = 0;
        while i < len
            invariant
                i <= len,
                len == self@.len(),
                r@ == self@.take(i as int),
            decreases len - i,
        {
            r.push(self.entries[i]);
            proof {
                assert(r@ =~= self@.take(i + 1));
            }
            i = i + 1;
        }
        proof {
            assert(self@.take(len as int) =~= self@);
        }
        r
    }
}

} // verus!
