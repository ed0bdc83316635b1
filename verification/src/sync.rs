//! A reader/writer lock over a small copyable value.
//!
//! The lock word counts readers; the value `-1` marks an exclusive
//! writer.  The state machine here captures the accounting that makes
//! the protocol sound: readers and a writer never overlap, and
//! unlocking requires a matching lock.

use vstd::prelude::*;

verus! {

/// A reader/writer lock holding one copyable value.
#[derive(Debug)]
pub struct CopyRwLock<T: Copy> {
    value: T,
    busy: i64,
}

impl<T: Copy> CopyRwLock<T> {
    /// The stored value.
    pub closed spec fn spec_value(&self) -> T {
        self.value
    }

    /// The lock word: `-1` under a writer, otherwise the number of
    /// readers.
    pub closed spec fn spec_busy(&self) -> i64 {
        self.busy
    }

    /// The lock word never goes below the writer mark.
    pub open spec fn wf(&self) -> bool {
        self.spec_busy() >= -1
    }

    /// A free lock holding `value`.
    pub fn new(value: T) -> (r: CopyRwLock<T>)
        ensures
            r.wf(),
            r.spec_value() == value,
            r.spec_busy() == 0,
    {
        CopyRwLock { value, busy: 0 }
    }

    /// Takes a shared lock if no writer holds the lock, returning the
    /// value.
    pub fn try_read_lock(&mut self) -> (r: Option<T>)
        requires
            old(self).wf(),
            old(self).spec_busy() < i64::MAX,
        ensures
            final(self).wf(),
            final(self).spec_value() == old(self).spec_value(),
            match r {
                Some(v) => {
                    &&& old(self).spec_busy() >= 0
                    &&& v == old(self).spec_value()
                    &&& final(self).spec_busy() == old(self).spec_busy() + 1
                },
                None => {
                    &&& old(self).spec_busy() == -1
                    &&& final(self).spec_busy() == old(self).spec_busy()
                },
            },
    {
        if self.busy == -1 {
            return None;
        }
        self.busy = self.busy + 1;
        Some(self.value)
    }

    /// Releases one shared lock.
    pub fn read_unlock(&mut self)
        requires
            old(self).wf(),
            old(self).spec_busy() >= 1,
        ensures
            final(self).wf(),
            final(self).spec_value() == old(self).spec_value(),
            final(self).spec_busy() == old(self).spec_busy() - 1,
    {
        self.busy = self.busy - 1;
    }

    /// Takes the exclusive lock if the lock is free, returning the
    /// value.
    pub fn try_write_lock(&mut self) -> (r: Option<T>)
        requires
            old(self).wf(),
        ensures
            final(self).wf(),
            final(self).spec_value() == old(self).spec_value(),
            match r {
                Some(v) => {
                    &&& old(self).spec_busy() == 0
                    &&& v == old(self).spec_value()
                    &&& final(self).spec_busy() == -1
                },
                None => {
                    &&& old(self).spec_busy() != 0
                    &&& final(self).spec_busy() == old(self).spec_busy()
                },
            },
    {
        if self.busy == 0 {
            self.busy = -1;
            Some(self.value)
        } else {
            None
        }
    }

    /// Publishes a new value and releases the exclusive lock.
    pub fn write_unlock(&mut self, new_value: T)
        requires
            old(self).wf(),
            old(self).spec_busy() == -1,
        ensures
            final(self).wf(),
            final(self).spec_value() == new_value,
            final(self).spec_busy() == 0,
    {
        self.value = new_value;
        self.busy = 0;
    }
}

} // verus!
