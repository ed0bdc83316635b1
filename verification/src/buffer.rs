//! Reusable I/O buffers and their dirty-state machine.

use vstd::prelude::*;

use crate::serial::{zero_vec, zeros};

verus! {

/// The state of an I/O buffer relative to the device bytes it covers.
#[derive(Debug, Clone, Copy, PartialEq, Eq, Structural)]
pub enum BufferStatus {
    /// The buffer matches the bytes on the device.
    Clean,
    /// The buffer holds changes not yet written back.
    Dirty,
    /// The buffer holds nothing meaningful.
    Empty,
}

/// A fixed-size byte buffer together with its status.
#[derive(Debug)]
pub struct Buffer {
    /// The buffered bytes.
    pub bytes: Vec<u8>,
    /// How the bytes relate to the device.
    pub status: BufferStatus,
}

impl Buffer {
    /// Creates an empty, zero-filled buffer of `len` bytes.
    pub fn new(len: usize) -> (r: Buffer)
        ensures
            r.bytes@ == zeros(len as int),
            r.status == BufferStatus::Empty,
    {
        Buffer { bytes: zero_vec(len), status: BufferStatus::Empty }
    }

    /// Forgets the buffered bytes without writing them anywhere.
    pub fn reset(&mut self)
        ensures
            final(self).bytes == old(self).bytes,
            final(self).status == BufferStatus::Empty,
    {
        self.status = BufferStatus::Empty;
    }
}

} // verus!
