//! The output-buffer lifecycle: an exclusively owned byte region that is
//! sized up front, written into in place, and committed once the real
//! output length is known.

use vstd::prelude::*;

verus! {

/// An exclusively writable output region.
///
/// The physical region has a capacity fixed by `allocate` (or raised by
/// `grow_if_needed`); the logical length — what the eventual reader of the
/// result observes — starts at zero and is committed only by `finalize`.
/// Until then the region has exactly one writer and no reader.
pub struct MutableBuffer {
    pub(crate) data: Vec<u8>,
    pub(crate) len: usize,
}

impl MutableBuffer {
    /// The bytes of the physical region; its length is the capacity.
    pub closed spec fn phys(self) -> Seq<u8> {
        self.data@
    }

    /// The committed logical length.
    pub closed spec fn logical(self) -> int {
        self.len as int
    }

    /// The capacity of the region.
    pub open spec fn capacity_spec(self) -> int {
        self.phys().len() as int
    }

    /// The logical length never exceeds the capacity.
    pub open spec fn wf(self) -> bool {
        self.logical() <= self.capacity_spec()
    }

    /// Requests a zero-filled region of exactly `capacity` bytes whose
    /// logical length is not yet committed.
    pub fn allocate(capacity: usize) -> (b: MutableBuffer)
        ensures
            b.wf(),
            b.logical() == 0,
            b.phys() == Seq::new(capacity as nat, |i: int| 0u8),
            b.capacity_spec() == capacity,
    {
        let mut data: Vec<u8> = Vec::new();
        let mut i: usize = 0;
        while i < capacity
            invariant
                i <= capacity,
                data@ == Seq::new(i as nat, |j: int| 0u8),
            decreases capacity - i,
        {
            data.push(0u8);
            i = i + 1;
            proof {
                assert(data@ =~= Seq::new(i as nat, |j: int| 0u8));
            }
        }
        MutableBuffer { data, len: 0 }
    }

    /// The capacity of the region.
    pub fn capacity(&self) -> (r: usize)
        ensures
            r == self.capacity_spec(),
    {
        self.data.len()
    }

    /// Writes one byte of the physical region in place.
    pub fn write_at(&mut self, i: usize, b: u8)
        requires
            old(self).wf(),
            i < old(self).capacity_spec(),
        ensures
            final(self).wf(),
            final(self).phys() == old(self).phys().update(i as int, b),
            final(self).logical() == old(self).logical(),
    {
        self.data.set(i, b);
    }

    /// Raises the capacity to at least `new_capacity`, preserving every byte
    /// already in the region; a capacity already large enough is kept as is.
    pub fn grow_if_needed(&mut self, new_capacity: usize)
        requires
            old(self).wf(),
        ensures
            final(self).wf(),
            final(self).logical() == old(self).logical(),
            final(self).capacity_spec() >= new_capacity,
            final(self).capacity_spec() >= old(self).capacity_spec(),
            final(self).phys().subrange(0, old(self).capacity_spec()) == old(self).phys(),
            new_capacity <= old(self).capacity_spec() ==> final(self).phys() == old(self).phys(),
    {
        let mut i: usize = self.data.len();
        if new_capacity <= i {
            proof {
                assert(self.phys().subrange(0, self.capacity_spec()) =~= self.phys());
            }
            return;
        }
        while i < new_capacity
            invariant
                old(self).capacity_spec() <= i <= new_capacity,
                self.data@ == old(self).phys() + Seq::new((i - old(self).capacity_spec()) as nat, |j: int| 0u8),
                self.len == old(self).len,
            decreases new_capacity - i,
        {
            self.data.push(0u8);
            i = i + 1;
            proof {
                assert(self.data@ =~= old(self).phys()
                    + Seq::new((i - old(self).capacity_spec()) as nat, |j: int| 0u8));
            }
        }
        proof {
            assert(self.phys().subrange(0, old(self).capacity_spec()) =~= old(self).phys());
        }
    }

    /// Commits the logical length — the only operation that changes what the
    /// eventual reader observes as the result's size.
    pub fn finalize(&mut self, len: usize)
        requires
            old(self).wf(),
            len <= old(self).capacity_spec(),
        ensures
            final(self).wf(),
            final(self).phys() == old(self).phys(),
            final(self).logical() == len,
    {
        self.len = len;
    }

    /// Hands the committed bytes back: the physical region truncated to the
    /// logical length.
    pub fn into_vec(self) -> (v: Vec<u8>)
        requires
            self.wf(),
        ensures
            v@ == self.phys().subrange(0, self.logical()),
    {
        let mut data = self.data;
        data.truncate(self.len);
        data
    }
}

} // verus!
