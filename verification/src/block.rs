//! Block descriptors and the spec-level vocabulary shared by the
//! allocator's bookkeeping structures: extents, disjointness, and the
//! total number of bytes a sequence of blocks covers.

use vstd::prelude::*;

verus! {

/// A contiguous extent of the arena: `size` bytes beginning at offset
/// `start`.  The same descriptor shape serves free and allocated blocks;
/// an allocated block's id is the key of its entry in the allocation
/// table.
#[derive(Clone, Copy, PartialEq, Eq, Structural, Debug)]
pub struct Block {
    pub start: usize,
    pub size: usize,
}

impl Block {
    /// One past the last byte of the extent.
    pub open spec fn end(self) -> int {
        self.start + self.size
    }

    /// The extent is not empty and lies inside an arena of `cap` bytes.
    pub open spec fn wf(self, cap: nat) -> bool {
        self.size > 0 && self.start + self.size <= cap
    }
}

/// The extents of `a` and `b` do not intersect.
pub open spec fn disjoint(a: Block, b: Block) -> bool {
    a.end() <= b.start || b.end() <= a.start
}

/// Every block of `s` is well formed for an arena of `cap` bytes.
pub open spec fn all_wf(s: Seq<Block>, cap: nat) -> bool {
    forall|i: int| 0 <= i < s.len() ==> (#[trigger] s[i]).wf(cap)
}

/// No two distinct positions of `s` hold intersecting extents.
pub open spec fn pairwise_disjoint(s: Seq<Block>) -> bool {
    forall|i: int, j: int|
        0 <= i < s.len() && 0 <= j < s.len() && i != j ==> disjoint(
            #[trigger] s[i],
            #[trigger] s[j],
        )
}

/// `b` intersects no block of `s`.
pub open spec fn disjoint_from_all(b: Block, s: Seq<Block>) -> bool {
    forall|i: int| 0 <= i < s.len() ==> disjoint(b, #[trigger] s[i])
}

/// No block of `s` intersects a block of `t`.
pub open spec fn cross_disjoint(s: Seq<Block>, t: Seq<Block>) -> bool {
    forall|i: int, j: int|
        0 <= i < s.len() && 0 <= j < t.len() ==> disjoint(#[trigger] s[i], #[trigger] t[j])
}

/// Total number of bytes the blocks of `s` cover, counted with
/// multiplicity.
pub open spec fn total_size(s: Seq<Block>) -> int
    decreases s.len(),
{
    if s.len() == 0 {
        0
    } else {
        s[0].size + total_size(s.drop_first())
    }
}

pub proof fn lemma_total_size_nonneg(s: Seq<Block>)
    ensures
        total_size(s) >= 0,
    decreases s.len(),
{
    if s.len() > 0 {
        lemma_total_size_nonneg(s.drop_first());
    }
}

pub proof fn lemma_total_size_push(s: Seq<Block>, b: Block)
    ensures
        total_size(s.push(b)) == total_size(s) + b.size,
    decreases s.len(),
{
    assert(s.push(b)[0] == if s.len() == 0 { b } else { s[0] });
    if s.len() == 0 {
        assert(s.push(b).drop_first() =~= Seq::<Block>::empty());
        assert(total_size(Seq::<Block>::empty()) == 0);
        assert(total_size(s) == 0);
        assert(total_size(s.push(b)) == b.size + total_size(Seq::<Block>::empty()));
    } else {
        assert(s.push(b).drop_first() =~= s.drop_first().push(b));
        lemma_total_size_push(s.drop_first(), b);
        assert(total_size(s.push(b)) == s[0].size + total_size(s.drop_first().push(b)));
        assert(total_size(s) == s[0].size + total_size(s.drop_first()));
    }
}

pub proof fn lemma_total_size_insert(s: Seq<Block>, i: int, b: Block)
    requires
        0 <= i <= s.len(),
    ensures
        total_size(s.insert(i, b)) == total_size(s) + b.size,
    decreases s.len(),
{
    if i == 0 {
        assert(s.insert(0, b).drop_first() =~= s);
        assert(s.insert(0, b)[0] == b);
    } else {
        assert(s.insert(i, b).drop_first() =~= s.drop_first().insert(i - 1, b));
        assert(s.insert(i, b)[0] == s[0]);
        lemma_total_size_insert(s.drop_first(), i - 1, b);
    }
}

/// The extent of `inner` lies inside the extent of `outer`.
pub open spec fn within(inner: Block, outer: Block) -> bool {
    outer.start <= inner.start && inner.end() <= outer.end()
}

pub proof fn lemma_within_disjoint_from_all(inner: Block, outer: Block, s: Seq<Block>)
    requires
        within(inner, outer),
        disjoint_from_all(outer, s),
    ensures
        disjoint_from_all(inner, s),
{
}

pub proof fn lemma_remove_keeps_pairwise(s: Seq<Block>, i: int)
    requires
        pairwise_disjoint(s),
        0 <= i < s.len(),
    ensures
        pairwise_disjoint(s.remove(i)),
{
    let t = s.remove(i);
    assert forall|p: int, q: int|
        0 <= p < t.len() && 0 <= q < t.len() && p != q implies disjoint(t[p], t[q]) by {
        let p0 = if p < i { p } else { p + 1 };
        let q0 = if q < i { q } else { q + 1 };
        assert(t[p] == s[p0] && t[q] == s[q0]);
    }
}

pub proof fn lemma_insert_keeps_pairwise(s: Seq<Block>, i: int, b: Block)
    requires
        pairwise_disjoint(s),
        disjoint_from_all(b, s),
        0 <= i <= s.len(),
    ensures
        pairwise_disjoint(s.insert(i, b)),
{
    let t = s.insert(i, b);
    assert forall|p: int, q: int|
        0 <= p < t.len() && 0 <= q < t.len() && p != q implies disjoint(t[p], t[q]) by {
        if p == i {
            let q0 = if q < i { q } else { q - 1 };
            assert(t[q] == s[q0]);
        } else if q == i {
            let p0 = if p < i { p } else { p - 1 };
            assert(t[p] == s[p0]);
        } else {
            let p0 = if p < i { p } else { p - 1 };
            let q0 = if q < i { q } else { q - 1 };
            assert(t[p] == s[p0] && t[q] == s[q0]);
        }
    }
}

pub proof fn lemma_removed_disjoint_from_rest(s: Seq<Block>, i: int)
    requires
        pairwise_disjoint(s),
        0 <= i < s.len(),
    ensures
        disjoint_from_all(s[i], s.remove(i)),
{
    let t = s.remove(i);
    assert forall|q: int| 0 <= q < t.len() implies disjoint(s[i], t[q]) by {
        let q0 = if q < i { q } else { q + 1 };
        assert(t[q] == s[q0]);
    }
}

pub proof fn lemma_cross_remove_left(s: Seq<Block>, t: Seq<Block>, i: int)
    requires
        cross_disjoint(s, t),
        0 <= i < s.len(),
    ensures
        cross_disjoint(s.remove(i), t),
{
    let u = s.remove(i);
    assert forall|p: int, q: int|
        0 <= p < u.len() && 0 <= q < t.len() implies disjoint(u[p], t[q]) by {
        let p0 = if p < i { p } else { p + 1 };
        assert(u[p] == s[p0]);
    }
}

pub proof fn lemma_cross_remove_right(s: Seq<Block>, t: Seq<Block>, j: int)
    requires
        cross_disjoint(s, t),
        0 <= j < t.len(),
    ensures
        cross_disjoint(s, t.remove(j)),
{
    let u = t.remove(j);
    assert forall|p: int, q: int|
        0 <= p < s.len() && 0 <= q < u.len() implies disjoint(s[p], u[q]) by {
        let q0 = if q < j { q } else { q + 1 };
        assert(u[q] == t[q0]);
    }
}

pub proof fn lemma_cross_insert_left(s: Seq<Block>, t: Seq<Block>, i: int, b: Block)
    requires
        cross_disjoint(s, t),
        disjoint_from_all(b, t),
        0 <= i <= s.len(),
    ensures
        cross_disjoint(s.insert(i, b), t),
{
    let u = s.insert(i, b);
    assert forall|p: int, q: int|
        0 <= p < u.len() && 0 <= q < t.len() implies disjoint(u[p], t[q]) by {
        if p != i {
            let p0 = if p < i { p } else { p - 1 };
            assert(u[p] == s[p0]);
        }
    }
}

pub proof fn lemma_cross_push_right(s: Seq<Block>, t: Seq<Block>, b: Block)
    requires
        cross_disjoint(s, t),
        disjoint_from_all(b, s),
    ensures
        cross_disjoint(s, t.push(b)),
{
    let u = t.push(b);
    assert forall|p: int, q: int|
        0 <= p < s.len() && 0 <= q < u.len() implies disjoint(s[p], u[q]) by {
        if q < t.len() {
            assert(u[q] == t[q]);
        } else {
            assert(u[q] == b);
        }
    }
}

pub proof fn lemma_total_size_remove(s: Seq<Block>, i: int)
    requires
        0 <= i < s.len(),
    ensures
        total_size(s.remove(i)) == total_size(s) - s[i].size,
    decreases s.len(),
{
    if i == 0 {
        assert(s.remove(0) =~= s.drop_first());
    } else {
        assert(s.remove(i).drop_first() =~= s.drop_first().remove(i - 1));
        assert(s.remove(i)[0] == s[0]);
        lemma_total_size_remove(s.drop_first(), i - 1);
    }
}

} // verus!
