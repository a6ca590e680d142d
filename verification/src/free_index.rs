//! The free-block index: free blocks grouped by size, answering
//! best-fit queries.

use vstd::prelude::*;
use crate::block::Block;

verus! {

/// The blocks of `s` are ordered by size, ascending.
pub open spec fn sorted_by_size(s: Seq<Block>) -> bool {
    forall|i: int, j: int|
        0 <= i <= j < s.len() ==> (#[trigger] s[i]).size <= (#[trigger] s[j]).size
}

/// Position `i` of `s` holds a block that can satisfy a request for `n`
/// bytes.
pub open spec fn fits(s: Seq<Block>, n: usize, i: int) -> bool {
    0 <= i < s.len() && s[i].size >= n
}

/// Some block of `s` can satisfy a request for `n` bytes.
pub open spec fn has_fit(s: Seq<Block>, n: usize) -> bool {
    exists|i: int| fits(s, n, i)
}

/// `b` satisfies a request for `n` bytes with the smallest size any
/// block of `s` could offer: the defining best-fit property.
pub open spec fn is_best_fit(s: Seq<Block>, n: usize, b: Block) -> bool {
    &&& b.size >= n
    &&& forall|i: int| #[trigger] fits(s, n, i) ==> b.size <= s[i].size
}

/// Every currently free block, kept ordered by size (ascending).  A run
/// of equal sizes plays the role of a size group: insertion puts a new
/// block at the front of its run, and best-fit selection takes the
/// first block whose size reaches the request, which sortedness makes a
/// block of the smallest qualifying size.
pub struct FreeBlockIndex {
    blocks: Vec<Block>,
}

impl View for FreeBlockIndex {
    type V = Seq<Block>;

    closed spec fn view(&self) -> Seq<Block> {
        self.blocks@
    }
}

impl FreeBlockIndex {
    /// The ordering invariant of the index.
    pub open spec fn wf(&self) -> bool {
        sorted_by_size(self@)
    }

    /// An index holding no free blocks.
    pub fn new() -> (fi: FreeBlockIndex)
        ensures
            fi.wf(),
            fi@ == Seq::<Block>::empty(),
    {
        let fi = FreeBlockIndex { blocks: Vec::new() };
        proof {
            assert(fi@ =~= Seq::<Block>::empty());
        }
        fi
    }

    /// Adds the free block `b`, placing it before the other blocks of
    /// its size.
    pub fn insert_free(&mut self, b: Block)
        requires
            old(self).wf(),
        ensures
            final(self).wf(),
            exists|i: int|
                0 <= i <= old(self)@.len() && final(self)@ == #[trigger] old(self)@.insert(i, b),
    {
        let n = self.blocks.len();
        let mut i: usize = 0;
        while i < n && self.blocks[i].size < b.size
            invariant
                i <= n,
                n == self@.len(),
                self == old(self),
                forall|k: int| 0 <= k < i ==> (#[trigger] self@[k]).size < b.size,
            decreases n - i,
        {
            i = i + 1;
        }
        self.blocks.insert(i, b);
        proof {
            let s = old(self)@;
            assert(forall|k: int| i <= k < s.len() ==> (#[trigger] s[k]).size >= b.size);
            assert(self@ == s.insert(i as int, b));
            assert forall|p: int, q: int|
                0 <= p <= q < self@.len() implies (#[trigger] self@[p]).size <= (
            #[trigger] self@[q]).size by {
                if p < i && q > i {
                    assert(self@[p] == s[p] && self@[q] == s[q - 1]);
                }
            }
        }
    }

    /// Removes and returns a best-fit block for a request of `n` bytes:
    /// the first block, in size order, whose size is at least `n`.
    /// Returns nothing, and changes nothing, when no block is large
    /// enough.
    pub fn take_best_fit(&mut self, n: usize) -> (r: Option<Block>)
        requires
            old(self).wf(),
        ensures
            final(self).wf(),
            match r {
                Option::None => *final(self) == *old(self) && !has_fit(old(self)@, n),
                Option::Some(b) => {
                    &&& is_best_fit(old(self)@, n, b)
                    &&& exists|i: int|
                        fits(old(self)@, n, i) && b == old(self)@[i] && final(self)@
                            == #[trigger] old(self)@.remove(i)
                },
            },
    {
        let len = self.blocks.len();
        let mut i: usize = 0;
        while i < len && self.blocks[i].size < n
            invariant
                i <= len,
                len == self@.len(),
                self == old(self),
                forall|k: int| 0 <= k < i ==> (#[trigger] self@[k]).size < n,
            decreases len - i,
        {
            i = i + 1;
        }
        if i == len {
            proof {
                assert(!has_fit(old(self)@, n)) by {
                    assert(forall|k: int| 0 <= k < self@.len() ==> (#[trigger] self@[k]).size < n);
                }
            }
            None
        } else {
            let b = self.blocks.remove(i);
            proof {
                let s = old(self)@;
                assert(fits(s, n, i as int));
                assert(is_best_fit(s, n, b)) by {
                    assert forall|k: int| #[trigger] fits(s, n, k) implies b.size <= s[k].size by {
                        assert(k >= i);
                        assert(s[i as int].size <= s[k].size);
                    }
                }
                assert forall|p: int, q: int|
                    0 <= p <= q < self@.len() implies (#[trigger] self@[p]).size <= (
                #[trigger] self@[q]).size by {
                    if p < i && q >= i {
                        assert(self@[p] == s[p] && self@[q] == s[q + 1]);
                    }
                }
            }
            Some(b)
        }
    }

    /// Every free block, ordered by size ascending, for diagnostics.
    pub fn snapshot(&self) -> (r: Vec<Block>)
        ensures
            r@ == self@,
    {
        let len = self.blocks.len();
        let mut r: Vec<Block> = Vec::new();
        let mut i: usize = 0;
        while i < len
            invariant
                i <= len,
                len == self@.len(),
                r@ == self@.take(i as int),
            decreases len - i,
        {
            r.push(self.blocks[i]);
            proof {
                assert(r@ =~= self@.take(i + 1));
            }
            i = i + 1;
        }
        proof {
            assert(self@.take(len as int) =~= self@);
        }
        r
    }
}

} // verus!
