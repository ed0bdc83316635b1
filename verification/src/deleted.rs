//! The set of file pointers whose records are logically deleted.
//!
//! Deleted records stay on the device; their pointers are collected
//! here and persisted so that a future garbage collector can reclaim
//! them.

use vstd::prelude::*;

use crate::FilePointer;

verus! {

/// An ordered collection of logically deleted file pointers, each
/// recorded once.
#[derive(Debug)]
pub struct Deleted {
    ptrs: Vec<FilePointer>,
}

impl Deleted {
    /// The recorded pointers, in insertion order.
    pub closed spec fn view(&self) -> Seq<FilePointer> {
        self.ptrs@
    }

    /// No pointer is recorded twice.
    pub open spec fn wf(&self) -> bool {
        self.view().no_duplicates()
    }

    /// An empty deleted set.
    pub fn new() -> (r: Deleted)
        ensures
            r.wf(),
            r.view() == Seq::<FilePointer>::empty(),
    {
        let r = Deleted { ptrs: Vec::new() };
        proof {
            assert(r.view() =~= Seq::<FilePointer>::empty());
        }
        r
    }

    /// How many pointers are recorded.
    pub fn len(&self) -> (r: usize)
        ensures
            r == self.view().len(),
    {
        self.ptrs.len()
    }

    /// The pointer at position `i`, for iteration.
    pub fn ptr_at(&self, i: usize) -> (r: FilePointer)
        requires
            i < self.view().len(),
        ensures
            r == self.view()[i as int],
    {
        self.ptrs[i]
    }

    /// Whether `ptr` is recorded as deleted.
    pub fn contains(&self, ptr: FilePointer) -> (r: bool)
        ensures
            r == self.view().contains(ptr),
    {
        let n: usize = self.ptrs.len();
        let mut i: usize = 0;
        while i < n
            invariant
                n == self.view().len(),
                i <= n,
                forall|j: int| 0 <= j < i ==> self.view()[j] != ptr,
            decreases n - i,
        {
            if self.ptrs[i] == ptr {
                return true;
            }
            i = i + 1;
        }
        false
    }

    /// Records a pointer that was not yet deleted.
    pub fn add(&mut self, ptr: FilePointer)
        requires
            old(self).wf(),
            !old(self).view().contains(ptr),
        ensures
            final(self).wf(),
            final(self).view() == old(self).view().push(ptr),
    {
        self.ptrs.push(ptr);
        proof {
            assert(self.view() =~= old(self).view().push(ptr));
        }
    }
}

} // verus!
