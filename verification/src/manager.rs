//! The allocator: composes the arena, the free-block index and the
//! allocation table, and exposes the operation set that a command
//! dispatcher drives.

use vstd::prelude::*;
use crate::alloc_table::{AllocEntry, AllocationTable, entry_blocks, has_id, ids_increasing};
use crate::arena::Arena;
use crate::block::{
    Block, all_wf, cross_disjoint, disjoint, disjoint_from_all, lemma_cross_insert_left,
    lemma_cross_push_right, lemma_cross_remove_left, lemma_cross_remove_right,
    lemma_insert_keeps_pairwise, lemma_remove_keeps_pairwise,
    lemma_removed_disjoint_from_rest, lemma_total_size_insert, lemma_total_size_nonneg,
    lemma_total_size_push, lemma_total_size_remove, lemma_within_disjoint_from_all,
    pairwise_disjoint, total_size, within,
};
use crate::free_index::{FreeBlockIndex, fits, has_fit, is_best_fit, sorted_by_size};

verus! {

/// Capacity, in bytes, of the arena that [`MemoryManager::new`] builds.
pub const MEMORY_SIZE: usize = 65535;

/// A failed allocator operation.  Every operation returns a definite
/// outcome and leaves the manager unchanged on failure.
#[derive(Clone, Copy, PartialEq, Eq, Structural, Debug)]
pub enum MemError {
    /// No single free block is large enough for the request.
    AllocationFailed,
    /// The referenced id is not currently allocated.
    NotFound,
    /// The new data exceeds the allocated block's size.
    TooLarge,
}

/// The manual memory allocator: one fixed-capacity arena, the free
/// blocks indexed by size for best-fit selection, the allocated blocks
/// tabled by id, and the strictly increasing id counter.
pub struct MemoryManager {
    memory: Arena,
    free_blocks: FreeBlockIndex,
    allocated_blocks: AllocationTable,
    next_id: usize,
}

impl MemoryManager {
    /// The arena's bytes.
    pub closed spec fn mem(self) -> Seq<u8> {
        self.memory@
    }

    /// The arena's fixed capacity.
    pub open spec fn capacity(self) -> nat {
        self.mem().len()
    }

    /// The free blocks, in index order: size ascending.
    pub closed spec fn free_list(self) -> Seq<Block> {
        self.free_blocks@
    }

    /// The allocations, in id order.
    pub closed spec fn alloc_list(self) -> Seq<AllocEntry> {
        self.allocated_blocks@
    }

    /// The id the next successful allocation will take.
    pub closed spec fn counter(self) -> usize {
        self.next_id
    }

    /// The allocator's invariant: both bookkeeping structures keep
    /// their order, every live block lies inside the arena, ids stay
    /// below the counter, no two live extents overlap, and the live
    /// extents cover the arena exactly — free and allocated sizes
    /// always sum to the capacity, since failed operations change
    /// nothing and splitting accounts for every byte.
    pub closed spec fn wf(self) -> bool {
        &&& self.capacity() <= usize::MAX
        &&& self.free_blocks.wf()
        &&& self.allocated_blocks.wf()
        &&& all_wf(self.free_list(), self.capacity())
        &&& all_wf(entry_blocks(self.alloc_list()), self.capacity())
        &&& forall|i: int|
            0 <= i < self.alloc_list().len() ==> (#[trigger] self.alloc_list()[i]).id
                < self.counter()
        &&& pairwise_disjoint(self.free_list())
        &&& pairwise_disjoint(entry_blocks(self.alloc_list()))
        &&& cross_disjoint(self.free_list(), entry_blocks(self.alloc_list()))
        &&& total_size(self.free_list()) + total_size(entry_blocks(self.alloc_list()))
            == self.capacity()
    }

    /// An allocator over a fresh zero-filled arena of `cap` bytes, all
    /// of it one free block.
    pub fn with_capacity(cap: usize) -> (m: MemoryManager)
        requires
            cap > 0,
        ensures
            m.wf(),
            m.capacity() == cap,
            m.counter() == 0,
            m.alloc_list() == Seq::<AllocEntry>::empty(),
            m.free_list() == seq![Block { start: 0, size: cap }],
            forall|k: int| 0 <= k < cap ==> m.mem()[k] == 0u8,
    {
        let memory = Arena::new(cap);
        let mut free_blocks = FreeBlockIndex::new();
        let whole = Block { start: 0, size: cap };
        free_blocks.insert_free(whole);
        let allocated_blocks = AllocationTable::new();
        let m = MemoryManager { memory, free_blocks, allocated_blocks, next_id: 0 };
        proof {
            let i = choose|i: int|
                0 <= i <= Seq::<Block>::empty().len() && m.free_list() == Seq::<
                    Block,
                >::empty().insert(i, whole);
            assert(m.free_list() =~= seq![whole]);
            assert(entry_blocks(m.alloc_list()) =~= Seq::<Block>::empty());
            assert(total_size(m.free_list()) == cap) by {
                assert(m.free_list().drop_first() =~= Seq::<Block>::empty());
                assert(total_size(Seq::<Block>::empty()) == 0);
                assert(total_size(m.free_list()) == whole.size + total_size(
                    m.free_list().drop_first(),
                ));
            }
        }
        m
    }

    /// An allocator over the default arena of [`MEMORY_SIZE`] bytes.
    pub fn new() -> (m: MemoryManager)
        ensures
            m.wf(),
            m.capacity() == MEMORY_SIZE,
            m.counter() == 0,
            m.alloc_list() == Seq::<AllocEntry>::empty(),
            m.free_list() == seq![Block { start: 0, size: MEMORY_SIZE }],
            forall|k: int| 0 <= k < MEMORY_SIZE ==> m.mem()[k] == 0u8,
    {
        MemoryManager::with_capacity(MEMORY_SIZE)
    }

    /// Allocates `size` bytes holding `data`, zero-padded up to
    /// `size`.  A best-fit free block is selected — one of the
    /// smallest size still at least `size` — the data is written at
    /// its start, a fresh id is taken from the counter, and when the
    /// chosen block is larger than the request its remainder returns
    /// to the free index as a block of its own (splitting).  Fails,
    /// changing nothing, when `data` is longer than `size`, when no
    /// free block is large enough, or when the id counter is
    /// exhausted.
    pub fn insert(&mut self, size: usize, data: &[u8]) -> (r: Option<usize>)
        requires
            old(self).wf(),
            size > 0,
        ensures
            final(self).wf(),
            match r {
                Option::None => {
                    &&& *final(self) == *old(self)
                    &&& insert_fails(*old(self), size, data@)
                },
                Option::Some(id) => insert_ok(*old(self), size, data@, *final(self), id),
            },
    {
        if data.len() > size {
            return None;
        }
        if self.next_id == usize::MAX {
            return None;
        }
        match self.free_blocks.take_best_fit(size) {
            None => None,
            Some(b) => {
                let ghost f0 = old(self).free_list();
                let ghost a0 = old(self).alloc_list();
                let ghost a0b = entry_blocks(a0);
                let ghost cap = old(self).capacity();
                let ghost f1 = self.free_blocks@;
                let ghost i = choose|i: int|
                    fits(f0, size, i) && b == f0[i] && f1 == #[trigger] f0.remove(i);
                proof {
                    assert(f0[i].wf(cap));
                    assert(b.start + size <= b.start + b.size <= cap <= usize::MAX);
                    lemma_remove_keeps_pairwise(f0, i);
                    lemma_removed_disjoint_from_rest(f0, i);
                    lemma_cross_remove_left(f0, a0b, i);
                    lemma_total_size_remove(f0, i);
                    assert forall|q: int| 0 <= q < a0b.len() implies disjoint(b, a0b[q]) by {
                        assert(disjoint(f0[i], a0b[q]));
                    }
                }
                let id = self.next_id;
                self.next_id = id + 1;
                self.memory.write(b.start, data);
                self.memory.zero(b.start + data.len(), size - data.len());
                proof {
                    assert(self.memory@.len() == cap);
                    assert forall|k: int|
                        0 <= k < data@.len() implies self.memory@[b.start + k] == data@[k] by {
                        assert(!(b.start + data@.len() <= b.start + k < b.start + size));
                    }
                    assert forall|k: int|
                        b.start + data@.len() <= k < b.start + size implies self.memory@[k]
                            == 0u8 by {}
                    assert forall|k: int|
                        0 <= k < cap && !(b.start <= k < b.start + size) implies self.memory@[k]
                            == old(self).mem()[k] by {}
                }
                let nb = Block { start: b.start, size };
                self.allocated_blocks.insert(id, nb);
                let ghost a1 = self.allocated_blocks@;
                proof {
                    assert(within(nb, b));
                    assert(entry_blocks(a1) =~= a0b.push(nb));
                    assert(a0b.push(nb) =~= a0b.insert(a0b.len() as int, nb));
                    lemma_within_disjoint_from_all(nb, b, a0b);
                    lemma_insert_keeps_pairwise(a0b, a0b.len() as int, nb);
                    lemma_within_disjoint_from_all(nb, b, f1);
                    lemma_cross_push_right(f1, a0b, nb);
                    lemma_total_size_push(a0b, nb);
                    assert(all_wf(entry_blocks(a1), cap)) by {
                        assert(forall|q: int|
                            0 <= q < a0b.len() ==> entry_blocks(a1)[q] == #[trigger] a0b[q]);
                        assert(entry_blocks(a1)[a0b.len() as int] == nb);
                    }
                }
                if b.size > size {
                    let rem = Block { start: b.start + size, size: b.size - size };
                    self.free_blocks.insert_free(rem);
                    proof {
                        let k = choose|k: int|
                            0 <= k <= f1.len() && self.free_blocks@ == #[trigger] f1.insert(k, rem);
                        assert(within(rem, b));
                        assert(disjoint(nb, rem));
                        lemma_within_disjoint_from_all(rem, b, f1);
                        lemma_insert_keeps_pairwise(f1, k, rem);
                        lemma_within_disjoint_from_all(rem, b, a0b);
                        assert(disjoint_from_all(rem, entry_blocks(a1))) by {
                            assert forall|q: int|
                                0 <= q < entry_blocks(a1).len() implies disjoint(
                                rem,
                                entry_blocks(a1)[q],
                            ) by {
                                if q < a0b.len() {
                                    assert(entry_blocks(a1)[q] == a0b[q]);
                                } else {
                                    assert(entry_blocks(a1)[q] == nb);
                                }
                            }
                        }
                        lemma_cross_insert_left(f1, entry_blocks(a1), k, rem);
                        lemma_total_size_insert(f1, k, rem);
                        assert(all_wf(self.free_list(), cap)) by {
                            assert forall|q: int|
                                0 <= q < self.free_list().len() implies (
                            #[trigger] self.free_list()[q]).wf(cap) by {
                                if q != k {
                                    let q0 = if q < k {
                                        q
                                    } else {
                                        q - 1
                                    };
                                    assert(self.free_list()[q] == f1[q0]);
                                    assert(f1[q0] == f0[if q0 < i {
                                        q0
                                    } else {
                                        q0 + 1
                                    }]);
                                }
                            }
                        }
                        assert(free_after_split(f0, i, rem, k, self.free_list()));
                        assert(fits(f0, size, i));
                        assert(is_best_fit(f0, size, b));
                        assert(self.alloc_list() == a0.push(AllocEntry { id, block: nb }));
                        assert(rem == rem_block(b, size));
                        assert(exists|k2: int|
                            free_after_split(f0, i, rem_block(b, size), k2, self.free_list()));
                        assert(self.mem().len() == cap);
                        assert(forall|k2: int|
                            0 <= k2 < data@.len() ==> self.mem()[b.start + k2] == data@[k2]);
                        assert(forall|k2: int|
                            b.start + data@.len() <= k2 < b.start + size ==> self.mem()[k2] == 0u8);
                        assert(forall|k2: int|
                            0 <= k2 < cap && !(b.start <= k2 < b.start + size) ==> self.mem()[k2]
                                == old(self).mem()[k2]);
                        assert(insert_shape(*old(self), size, data@, *self, id, i));
                    }
                    Some(id)
                } else {
                    proof {
                        assert(nb == b);
                        assert(all_wf(self.free_list(), cap)) by {
                            assert forall|q: int|
                                0 <= q < self.free_list().len() implies (
                            #[trigger] self.free_list()[q]).wf(cap) by {
                                assert(self.free_list()[q] == f0[if q < i {
                                    q
                                } else {
                                    q + 1
                                }]);
                            }
                        }
                        assert(insert_shape(*old(self), size, data@, *self, id, i));
                    }
                    Some(id)
                }
            },
        }
    }

    /// Removes the allocation with id `id`; its exact extent becomes
    /// one new free block.  No coalescing: a block spatially adjacent
    /// to other free blocks still enters the index as its own entry.
    pub fn delete(&mut self, id: usize) -> (r: Result<(), MemError>)
        requires
            old(self).wf(),
        ensures
            final(self).wf(),
            match r {
                Result::Err(e) => {
                    &&& e == MemError::NotFound
                    &&& !has_id(old(self).alloc_list(), id)
                    &&& *final(self) == *old(self)
                },
                Result::Ok(u) => free_ok(*old(self), id, *final(self)),
            },
    {
        match self.allocated_blocks.remove(id) {
            None => Err(MemError::NotFound),
            Some(blk) => {
                proof {
                    let i = choose|i: int|
                        {
                            &&& 0 <= i < old(self).alloc_list().len()
                            &&& (#[trigger] old(self).alloc_list()[i]).id == id
                            &&& old(self).alloc_list()[i].block == blk
                            &&& self.allocated_blocks@ == old(self).alloc_list().remove(i)
                        };
                    assert(entry_blocks(old(self).alloc_list())[i] == blk);
                    assert(entry_blocks(self.allocated_blocks@) =~= entry_blocks(
                        old(self).alloc_list(),
                    ).remove(i));
                    lemma_remove_keeps_pairwise(entry_blocks(old(self).alloc_list()), i);
                    lemma_cross_remove_right(
                        old(self).free_list(),
                        entry_blocks(old(self).alloc_list()),
                        i,
                    );
                    lemma_removed_disjoint_from_rest(entry_blocks(old(self).alloc_list()), i);
                    lemma_total_size_remove(entry_blocks(old(self).alloc_list()), i);
                }
                self.free_blocks.insert_free(blk);
                proof {
                    let i = choose|i: int|
                        {
                            &&& 0 <= i < old(self).alloc_list().len()
                            &&& (#[trigger] old(self).alloc_list()[i]).id == id
                            &&& old(self).alloc_list()[i].block == blk
                            &&& self.allocated_blocks@ == old(self).alloc_list().remove(i)
                        };
                    let k = choose|k: int|
                        0 <= k <= old(self).free_list().len() && self.free_blocks@ == #[trigger] old(
                            self,
                        ).free_list().insert(k, blk);
                    let ab = entry_blocks(self.allocated_blocks@);
                    assert forall|q: int| 0 <= q < ab.len() implies disjoint(blk, ab[q]) by {
                        assert(ab[q] == entry_blocks(old(self).alloc_list()).remove(i)[q]);
                    }
                    lemma_insert_keeps_pairwise(old(self).free_list(), k, blk);
                    lemma_cross_insert_left(old(self).free_list(), ab, k, blk);
                    lemma_total_size_insert(old(self).free_list(), k, blk);
                    assert(free_shape(*old(self), id, *self, i, k));
                }
                Ok(())
            },
        }
    }

    /// Overwrites the first `new_data.len()` bytes of the allocation
    /// with id `id`.  Bytes beyond `new_data.len()`, up to the block's
    /// size, keep their value; the block's extent never changes.  Fails
    /// without any state change when the id is absent or the data does
    /// not fit.
    pub fn update(&mut self, id: usize, new_data: &[u8]) -> (r: Result<(), MemError>)
        requires
            old(self).wf(),
        ensures
            final(self).wf(),
            match r {
                Result::Err(e) => {
                    &&& *final(self) == *old(self)
                    &&& (e == MemError::NotFound || e == MemError::TooLarge)
                    &&& (e == MemError::NotFound <==> !has_id(old(self).alloc_list(), id))
                    &&& (e == MemError::TooLarge ==> exists|i: int|
                        {
                            &&& 0 <= i < old(self).alloc_list().len()
                            &&& (#[trigger] old(self).alloc_list()[i]).id == id
                            &&& new_data@.len() > old(self).alloc_list()[i].block.size
                        })
                },
                Result::Ok(u) => update_ok(*old(self), id, new_data@, *final(self)),
            },
    {
        match self.allocated_blocks.get(id) {
            None => Err(MemError::NotFound),
            Some(blk) => {
                proof {
                    let i = choose|i: int|
                        0 <= i < self.alloc_list().len() && (#[trigger] self.alloc_list()[i]).id
                            == id && self.alloc_list()[i].block == blk;
                    assert(entry_blocks(self.alloc_list())[i] == blk);
                    assert(blk.wf(self.capacity()));
                }
                if new_data.len() > blk.size {
                    Err(MemError::TooLarge)
                } else {
                    self.memory.write(blk.start, new_data);
                    proof {
                        let i = choose|i: int|
                            0 <= i < self.alloc_list().len() && (#[trigger] self.alloc_list()[i]).id
                                == id && self.alloc_list()[i].block == blk;
                        assert(update_shape(*old(self), id, new_data@, *self, i));
                    }
                    Ok(())
                }
            },
        }
    }

    /// Read-only lookup: the bytes of the allocation with id `id`, or
    /// nothing when the id is absent.  No side effects.
    pub fn find(&self, id: usize) -> (r: Option<Vec<u8>>)
        requires
            self.wf(),
        ensures
            match r {
                Option::None => !has_id(self.alloc_list(), id),
                Option::Some(v) => exists|i: int|
                    {
                        &&& 0 <= i < self.alloc_list().len()
                        &&& (#[trigger] self.alloc_list()[i]).id == id
                        &&& v@ == self.mem().subrange(
                            self.alloc_list()[i].block.start as int,
                            self.alloc_list()[i].block.end(),
                        )
                    },
            },
    {
        match self.allocated_blocks.get(id) {
            None => None,
            Some(blk) => {
                proof {
                    let i = choose|i: int|
                        0 <= i < self.alloc_list().len() && (#[trigger] self.alloc_list()[i]).id
                            == id && self.alloc_list()[i].block == blk;
                    assert(entry_blocks(self.alloc_list())[i] == blk);
                    assert(blk.wf(self.capacity()));
                }
                Some(self.memory.read(blk.start, blk.size))
            },
        }
    }

    /// The same lookup as [`MemoryManager::find`], with the miss
    /// surfaced as a reported condition.
    pub fn read(&self, id: usize) -> (r: Result<Vec<u8>, MemError>)
        requires
            self.wf(),
        ensures
            match r {
                Result::Err(e) => e == MemError::NotFound && !has_id(self.alloc_list(), id),
                Result::Ok(v) => exists|i: int|
                    {
                        &&& 0 <= i < self.alloc_list().len()
                        &&& (#[trigger] self.alloc_list()[i]).id == id
                        &&& v@ == self.mem().subrange(
                            self.alloc_list()[i].block.start as int,
                            self.alloc_list()[i].block.end(),
                        )
                    },
            },
    {
        match self.find(id) {
            None => Err(MemError::NotFound),
            Some(v) => Ok(v),
        }
    }
}

/// A deterministic, read-only report of the allocator's state: every
/// free block ordered by size ascending, then every allocated block
/// ordered by id ascending.
pub struct DumpReport {
    pub free_blocks: Vec<Block>,
    pub allocated_blocks: Vec<AllocEntry>,
}

impl MemoryManager {
    /// Produces the diagnostic report; the allocator is not changed.
    pub fn dump(&self) -> (r: DumpReport)
        requires
            self.wf(),
        ensures
            r.free_blocks@ == self.free_list(),
            r.allocated_blocks@ == self.alloc_list(),
            sorted_by_size(r.free_blocks@),
            ids_increasing(r.allocated_blocks@),
    {
        DumpReport {
            free_blocks: self.free_blocks.snapshot(),
            allocated_blocks: self.allocated_blocks.snapshot(),
        }
    }
}

/// Conservation law: the free and allocated block sizes of a valid
/// allocator always sum to exactly the arena's capacity — no byte is
/// ever lost, and in particular the sum never exceeds the capacity.
/// Failed operations change nothing, so the equality holds across any
/// sequence of operations.
pub proof fn lemma_conservation(m: MemoryManager)
    requires
        m.wf(),
    ensures
        total_size(m.free_list()) >= 0,
        total_size(entry_blocks(m.alloc_list())) >= 0,
        total_size(m.free_list()) + total_size(entry_blocks(m.alloc_list())) == m.capacity(),
{
    lemma_total_size_nonneg(m.free_list());
    lemma_total_size_nonneg(entry_blocks(m.alloc_list()));
}

/// Non-overlap law: in a valid allocator the extents of the live
/// blocks — free or allocated — pairwise do not intersect, and every
/// one lies inside the arena.
pub proof fn lemma_non_overlap(m: MemoryManager)
    requires
        m.wf(),
    ensures
        pairwise_disjoint(m.free_list()),
        pairwise_disjoint(entry_blocks(m.alloc_list())),
        cross_disjoint(m.free_list(), entry_blocks(m.alloc_list())),
        all_wf(m.free_list(), m.capacity()),
        all_wf(entry_blocks(m.alloc_list()), m.capacity()),
{
}

/// Id uniqueness law: the ids of a valid allocator's allocation list
/// are pairwise distinct, and all lie below the counter, so an id the
/// counter has not yet passed is never in use.
pub proof fn lemma_ids_unique(m: MemoryManager)
    requires
        m.wf(),
    ensures
        ids_increasing(m.alloc_list()),
        forall|i: int, j: int|
            0 <= i < m.alloc_list().len() && 0 <= j < m.alloc_list().len() && i != j ==> (
            #[trigger] m.alloc_list()[i]).id != (#[trigger] m.alloc_list()[j]).id,
        forall|i: int|
            0 <= i < m.alloc_list().len() ==> (#[trigger] m.alloc_list()[i]).id < m.counter(),
{
    assert forall|i: int, j: int|
        0 <= i < m.alloc_list().len() && 0 <= j < m.alloc_list().len() && i != j implies (
    #[trigger] m.alloc_list()[i]).id != (#[trigger] m.alloc_list()[j]).id by {
        if i < j {
            assert(m.alloc_list()[i].id < m.alloc_list()[j].id);
        } else {
            assert(m.alloc_list()[j].id < m.alloc_list()[i].id);
        }
    }
}

/// Id monotonicity law: two successive successful allocations hand out
/// strictly increasing ids, and the first of them already exceeds
/// every id the allocator held before — an id is never reused, even
/// after its block is freed.
pub proof fn lemma_ids_monotonic(
    m0: MemoryManager,
    m1: MemoryManager,
    m2: MemoryManager,
    size1: usize,
    data1: Seq<u8>,
    id1: usize,
    size2: usize,
    data2: Seq<u8>,
    id2: usize,
)
    requires
        m0.wf(),
        insert_ok(m0, size1, data1, m1, id1),
        insert_ok(m1, size2, data2, m2, id2),
    ensures
        id1 < id2,
        forall|i: int| 0 <= i < m0.alloc_list().len() ==> (#[trigger] m0.alloc_list()[i]).id < id1,
{
}

/// Round-trip law: after a successful allocation, the allocation list
/// holds the returned id with a block of the requested size, and the
/// arena holds the data at that block's start, zero-padded up to the
/// size.  With the contract of `find` or `read`, the bytes they
/// return for that id start with exactly the data written.
pub proof fn lemma_round_trip(
    pre: MemoryManager,
    size: usize,
    data: Seq<u8>,
    post: MemoryManager,
    id: usize,
)
    requires
        pre.wf(),
        insert_ok(pre, size, data, post, id),
    ensures
        has_id(post.alloc_list(), id),
        exists|j: int|
            {
                &&& 0 <= j < post.alloc_list().len()
                &&& (#[trigger] post.alloc_list()[j]).id == id
                &&& post.alloc_list()[j].block.size == size
                &&& forall|k: int|
                    0 <= k < data.len() ==> post.mem()[post.alloc_list()[j].block.start + k]
                        == data[k]
                &&& forall|k: int|
                    post.alloc_list()[j].block.start + data.len() <= k < post.alloc_list()[j].block.start
                        + size ==> post.mem()[k] == 0u8
            },
{
    let i = choose|i: int| insert_shape(pre, size, data, post, id, i);
    let b = pre.free_list()[i];
    let j = post.alloc_list().len() - 1;
    assert(post.alloc_list()[j] == AllocEntry { id, block: Block { start: b.start, size } });
    assert(0 <= j < post.alloc_list().len() && (#[trigger] post.alloc_list()[j]).id == id
        && post.alloc_list()[j].block.size == size && (forall|k: int|
        0 <= k < data.len() ==> post.mem()[post.alloc_list()[j].block.start + k] == data[k]) && (
    forall|k: int|
        post.alloc_list()[j].block.start + data.len() <= k < post.alloc_list()[j].block.start
            + size ==> post.mem()[k] == 0u8));
}

/// No-coalescing law: freeing an allocation adds exactly one entry to
/// the free list, carrying the very extent that was allocated.  Two
/// spatially adjacent freed blocks therefore stay two separate free
/// blocks; they are never merged into one.
pub proof fn lemma_free_keeps_extent(pre: MemoryManager, id: usize, post: MemoryManager)
    requires
        free_ok(pre, id, post),
    ensures
        post.free_list().len() == pre.free_list().len() + 1,
        exists|i: int, k: int|
            {
                &&& #[trigger] free_shape(pre, id, post, i, k)
                &&& post.free_list()[k] == pre.alloc_list()[i].block
            },
{
    let (i, k) = choose|i: int, k: int| free_shape(pre, id, post, i, k);
    assert(post.free_list()[k] == pre.alloc_list()[i].block);
}

/// When `insert` fails: the data does not fit the requested size, no
/// free block is large enough, or the id counter has no id left.
pub open spec fn insert_fails(pre: MemoryManager, size: usize, data: Seq<u8>) -> bool {
    ||| data.len() > size
    ||| !has_fit(pre.free_list(), size)
    ||| pre.counter() == usize::MAX
}

/// The remainder that splitting a free block `b` on a request of
/// `size` bytes leaves behind.
pub open spec fn rem_block(b: Block, size: usize) -> Block {
    Block { start: (b.start + size) as usize, size: (b.size - size) as usize }
}

/// The free list after a split: the chosen block at position `i` is
/// gone and the remainder sits at position `k`.
pub open spec fn free_after_split(
    pre_free: Seq<Block>,
    i: int,
    rem: Block,
    k: int,
    post_free: Seq<Block>,
) -> bool {
    &&& 0 <= k <= pre_free.remove(i).len()
    &&& post_free == pre_free.remove(i).insert(k, rem)
}

/// The success shape of [`MemoryManager::insert`], with the chosen
/// best-fit block at position `i` of the free list: the allocation is
/// appended to the table with the chosen block's start; the data lies
/// at that start, zero-padded up to `size`; every byte outside the new
/// allocation keeps its value; and the chosen block either leaves the
/// free list whole or leaves its remainder behind.
pub open spec fn insert_shape(
    pre: MemoryManager,
    size: usize,
    data: Seq<u8>,
    post: MemoryManager,
    id: usize,
    i: int,
) -> bool {
    let b = pre.free_list()[i];
    &&& fits(pre.free_list(), size, i)
    &&& is_best_fit(pre.free_list(), size, b)
    &&& post.alloc_list() == pre.alloc_list().push(
        AllocEntry { id, block: Block { start: b.start, size } },
    )
    &&& (if b.size > size {
        exists|k: int| free_after_split(pre.free_list(), i, rem_block(b, size), k, post.free_list())
    } else {
        post.free_list() == pre.free_list().remove(i)
    })
    &&& post.mem().len() == pre.mem().len()
    &&& (forall|k: int| 0 <= k < data.len() ==> post.mem()[b.start + k] == data[k])
    &&& (forall|k: int| b.start + data.len() <= k < b.start + size ==> post.mem()[k] == 0u8)
    &&& (forall|k: int|
        0 <= k < pre.mem().len() && !(b.start <= k < b.start + size) ==> post.mem()[k]
            == pre.mem()[k])
}

/// What a successful `insert` of `size` bytes does: the returned id is
/// the counter's value, the counter moves one up, and some best-fit
/// position of the free list satisfies [`insert_shape`].
pub open spec fn insert_ok(
    pre: MemoryManager,
    size: usize,
    data: Seq<u8>,
    post: MemoryManager,
    id: usize,
) -> bool {
    &&& data.len() <= size
    &&& id == pre.counter()
    &&& post.counter() == id + 1
    &&& exists|i: int| insert_shape(pre, size, data, post, id, i)
}

/// The success shape of [`MemoryManager::delete`], with the removed
/// entry at position `i` of the allocation list and the freed block
/// inserted at position `k` of the free list.
pub open spec fn free_shape(
    pre: MemoryManager,
    id: usize,
    post: MemoryManager,
    i: int,
    k: int,
) -> bool {
    &&& 0 <= i < pre.alloc_list().len()
    &&& pre.alloc_list()[i].id == id
    &&& post.alloc_list() == pre.alloc_list().remove(i)
    &&& 0 <= k <= pre.free_list().len()
    &&& post.free_list() == pre.free_list().insert(k, pre.alloc_list()[i].block)
}

/// What a successful `delete` of `id` does: the allocation leaves the
/// table and one free block with the very same extent enters the
/// index; the bytes and the id counter stay as they were.
pub open spec fn free_ok(pre: MemoryManager, id: usize, post: MemoryManager) -> bool {
    &&& post.mem() == pre.mem()
    &&& post.counter() == pre.counter()
    &&& exists|i: int, k: int| free_shape(pre, id, post, i, k)
}

/// The success shape of [`MemoryManager::update`], with the updated
/// entry at position `i` of the allocation list.
pub open spec fn update_shape(
    pre: MemoryManager,
    id: usize,
    data: Seq<u8>,
    post: MemoryManager,
    i: int,
) -> bool {
    let b = pre.alloc_list()[i].block;
    &&& 0 <= i < pre.alloc_list().len()
    &&& pre.alloc_list()[i].id == id
    &&& data.len() <= b.size
    &&& forall|k: int| 0 <= k < data.len() ==> post.mem()[b.start + k] == data[k]
    &&& forall|k: int|
        0 <= k < pre.mem().len() && !(b.start <= k < b.start + data.len()) ==> post.mem()[k]
            == pre.mem()[k]
}

/// What a successful `update` of `id` does: only bytes inside the
/// block's extent change, and only the first `data.len()` of them; the
/// bookkeeping is untouched.
pub open spec fn update_ok(pre: MemoryManager, id: usize, data: Seq<u8>, post: MemoryManager) -> bool {
    &&& post.free_list() == pre.free_list()
    &&& post.alloc_list() == pre.alloc_list()
    &&& post.counter() == pre.counter()
    &&& post.mem().len() == pre.mem().len()
    &&& exists|i: int| update_shape(pre, id, data, post, i)
}

} // verus!
