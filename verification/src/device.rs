//! The in-memory block device.
//!
//! A device is a fixed-capacity random-access byte store with
//! page-aligned reads and writes and erase-block-aligned trims.  This
//! implementation keeps the bytes in memory; it backs both testing and
//! purely volatile datastores.

use vstd::prelude::*;

use crate::error::Error;
use crate::serial::{copy_bytes_at, zero_vec, zeros};
use crate::utils::{align, spec_align_down};
use crate::{PAGE_SIZE, TRIM_SIZE};

verus! {

/// A device backed by a byte buffer in memory.
#[derive(Debug)]
pub struct Memory {
    buf: Vec<u8>,
}

impl Memory {
    /// The bytes currently stored on the device.
    pub closed spec fn contents(&self) -> Seq<u8> {
        self.buf@
    }

    /// The device capacity is page-aligned.
    pub open spec fn wf(&self) -> bool {
        &&& self.contents().len() as int % (PAGE_SIZE as int) == 0
        &&& self.contents().len() <= usize::MAX
        &&& self.contents().len() <= u64::MAX
    }

    /// Creates a zero-filled device of `bytes` bytes, rounded down to a
    /// page boundary.
    pub fn new(bytes: usize) -> (r: Memory)
        ensures
            r.wf(),
            r.contents() == zeros(spec_align_down(bytes as int, PAGE_SIZE as int)),
    {
        let cap: u64 = align(bytes as u64);
        Memory { buf: zero_vec(cap as usize) }
    }

    /// The total size of the device in bytes.
    pub fn capacity(&self) -> (r: u64)
        ensures
            r == self.contents().len(),
    {
        self.buf.len() as u64
    }

    /// Whether the device is a physical block device.
    pub fn block_device(&self) -> (r: bool)
        ensures
            !r,
    {
        false
    }

    /// Reads `buf.len()` bytes starting at `off` into `buf`.
    pub fn read(&self, off: u64, buf: &mut Vec<u8>) -> (r: Result<(), Error>)
        requires
            off % PAGE_SIZE == 0,
            old(buf)@.len() as int % (PAGE_SIZE as int) == 0,
            off + old(buf)@.len() <= self.contents().len(),
        ensures
            r is Ok,
            final(buf)@ == self.contents().subrange(off as int, off + old(buf)@.len()),
    {
        let n: usize = buf.len();
        let total: usize = self.buf.len();
        let start: usize = off as usize;
        let mut i: usize = 0;
        while i < n
            invariant
                n == buf@.len(),
                start == off,
                start + n <= total,
                total == self.buf@.len(),
                i <= n,
                forall|j: int| 0 <= j < i ==> buf@[j] == self.buf@[start + j],
            decreases n - i,
        {
            buf[i] = self.buf[start + i];
            i = i + 1;
        }
        proof {
            vstd::assert_seqs_equal!(
                buf@ == self.contents().subrange(off as int, off + old(buf)@.len())
            );
        }
        Ok(())
    }

    /// Writes `data` to the device starting at `off`.
    pub fn write(&mut self, off: u64, data: &[u8]) -> (r: Result<(), Error>)
        requires
            old(self).wf(),
            off % PAGE_SIZE == 0,
            data@.len() as int % (PAGE_SIZE as int) == 0,
            off + data@.len() <= old(self).contents().len(),
        ensures
            r is Ok,
            final(self).wf(),
            final(self).contents() == old(self).contents().update_subrange_with(
                off as int,
                data@,
            ),
    {
        let total: usize = self.buf.len();
        copy_bytes_at(&mut self.buf, off as usize, data);
        Ok(())
    }

    /// Marks `[off, off + len)` as discarded.  The contents of the
    /// range become undefined; the capacity does not change.
    pub fn trim(&mut self, off: u64, len: u64) -> (r: Result<(), Error>)
        requires
            old(self).wf(),
            off % TRIM_SIZE == 0,
            len % TRIM_SIZE == 0,
            off + len <= old(self).contents().len(),
        ensures
            r is Ok,
            final(self).wf(),
            final(self).contents().len() == old(self).contents().len(),
    {
        Ok(())
    }
}

} // verus!
