//! The arena: a fixed-capacity byte buffer, the only place raw bytes
//! are copied.

use vstd::prelude::*;
use vstd::slice::slice_index_get;

verus! {

/// The contiguous byte storage backing every allocation.  No allocation
/// logic lives here; the arena only copies byte ranges in and out.
///
/// Bounds are preconditions: the allocator proves that every range it
/// touches lies inside an allocated block, so the defensive
/// out-of-bounds failure of the storage layer is shown unreachable
/// rather than detected at run time.
pub struct Arena {
    bytes: Vec<u8>,
}

impl View for Arena {
    type V = Seq<u8>;

    closed spec fn view(&self) -> Seq<u8> {
        self.bytes@
    }
}

impl Arena {
    /// A zero-filled arena of `cap` bytes.
    pub fn new(cap: usize) -> (a: Arena)
        ensures
            a@.len() == cap,
            forall|i: int| 0 <= i < cap ==> a@[i] == 0u8,
    {
        let mut bytes: Vec<u8> = Vec::new();
        let mut i: usize = 0;
        while i < cap
            invariant
                i <= cap,
                bytes@.len() == i,
                forall|k: int| 0 <= k < i ==> bytes@[k] == 0u8,
            decreases cap - i,
        {
            bytes.push(0u8);
            i = i + 1;
        }
        Arena { bytes }
    }

    /// The fixed capacity in bytes.
    pub fn capacity(&self) -> (c: usize)
        ensures
            c == self@.len(),
    {
        self.bytes.len()
    }

    /// Copies `data` into `[start, start + data.len())`; all other
    /// bytes keep their value.
    pub fn write(&mut self, start: usize, data: &[u8])
        requires
            start + data@.len() <= old(self)@.len(),
        ensures
            final(self)@.len() == old(self)@.len(),
            forall|k: int| 0 <= k < data@.len() ==> final(self)@[start + k] == data@[k],
            forall|k: int|
                0 <= k < old(self)@.len() && !(start <= k < start + data@.len())
                    ==> final(self)@[k] == old(self)@[k],
    {
        proof {
            vstd::std_specs::vec::axiom_spec_len(&self.bytes);
        }
        let mut i: usize = 0;
        while i < data.len()
            invariant
                i <= data@.len(),
                start + data@.len() <= self@.len(),
                self@.len() <= usize::MAX,
                self@.len() == old(self)@.len(),
                forall|k: int| 0 <= k < i ==> self@[start + k] == data@[k],
                forall|k: int|
                    0 <= k < old(self)@.len() && !(start <= k < start + data@.len()) ==> self@[k]
                        == old(self)@[k],
            decreases data@.len() - i,
        {
            let b: u8 = *slice_index_get(data, i);
            self.bytes[start + i] = b;
            i = i + 1;
        }
    }

    /// Sets every byte of `[start, start + len)` to zero; all other
    /// bytes keep their value.
    pub fn zero(&mut self, start: usize, len: usize)
        requires
            start + len <= old(self)@.len(),
        ensures
            final(self)@.len() == old(self)@.len(),
            forall|k: int| start <= k < start + len ==> final(self)@[k] == 0u8,
            forall|k: int|
                0 <= k < old(self)@.len() && !(start <= k < start + len)
                    ==> final(self)@[k] == old(self)@[k],
    {
        proof {
            vstd::std_specs::vec::axiom_spec_len(&self.bytes);
        }
        let mut i: usize = 0;
        while i < len
            invariant
                i <= len,
                start + len <= self@.len(),
                self@.len() <= usize::MAX,
                self@.len() == old(self)@.len(),
                forall|k: int| start <= k < start + i ==> self@[k] == 0u8,
                forall|k: int|
                    0 <= k < old(self)@.len() && !(start <= k < start + len)
                        ==> self@[k] == old(self)@[k],
            decreases len - i,
        {
            self.bytes[start + i] = 0u8;
            i = i + 1;
        }
    }

    /// Copies `[start, start + len)` out of the arena.
    pub fn read(&self, start: usize, len: usize) -> (r: Vec<u8>)
        requires
            start + len <= self@.len(),
        ensures
            r@ == self@.subrange(start as int, start + len),
    {
        proof {
            vstd::std_specs::vec::axiom_spec_len(&self.bytes);
        }
        let mut r: Vec<u8> = Vec::new();
        let mut i: usize = 0;
        while i < len
            invariant
                i <= len,
                start + len <= self@.len(),
                self@.len() <= usize::MAX,
                r@.len() == i,
                forall|k: int| 0 <= k < i ==> r@[k] == self@[start + k],
            decreases len - i,
        {
            r.push(self.bytes[start + i]);
            i = i + 1;
        }
        proof {
            assert(r@ =~= self@.subrange(start as int, start + len));
        }
        r
    }
}

} // verus!
