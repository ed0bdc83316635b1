//! One append-only region of the device.
//!
//! A strand owns a page-aligned slice `[start, start + capacity)` of
//! the device.  Its first page holds the strand header; the log of
//! item records follows, ending at the append cursor `offset`
//! (measured in bytes from the strand start).

use vstd::prelude::*;

use crate::device::Memory;
use crate::error::Error;
use crate::header::{spec_decode_strand_header, strand_header_bytes, StrandHeader};
use crate::stats::{spec_sat_add, Stats};
use crate::{FilePointer, PAGE_SIZE};

verus! {

/// One append-only region of the device.
#[derive(Debug)]
pub struct Strand {
    /// The position of the strand within the volume.
    pub id: u16,
    /// Absolute device offset where the strand begins.
    pub start: u64,
    /// Length of the strand in bytes, header page included.
    pub capacity: u64,
    /// Append cursor, in bytes from the strand start.
    pub offset: u64,
    /// Statistics for this strand.
    pub stats: Stats,
}

/// `s.stats` with `read_bytes` raised by `n`.
pub open spec fn spec_with_read(s: Stats, n: u64) -> Stats {
    Stats { read_bytes: spec_sat_add(s.read_bytes, n), ..s }
}

/// `s.stats` with `written_bytes` raised by `n`.
pub open spec fn spec_with_written(s: Stats, n: u64) -> Stats {
    Stats { written_bytes: spec_sat_add(s.written_bytes, n), ..s }
}

/// The strand that results from loading a valid header found at
/// `start` on the device, when the header is present and consistent
/// with the expected placement.
pub open spec fn spec_load_strand(dev: Seq<u8>, id: u16, start: u64, capacity: u64) -> Option<
    Strand,
> {
    match spec_decode_strand_header(dev.subrange(start as int, start + PAGE_SIZE)) {
        Some(h) => {
            if h.id == id && h.capacity == capacity && PAGE_SIZE <= h.offset <= capacity {
                Some(
                    Strand { id, start, capacity, offset: h.offset, stats: h.stats },
                )
            } else {
                None
            }
        },
        None => None,
    }
}

impl Strand {
    /// Structural soundness of the strand placement on a device of
    /// `device_len` bytes.
    pub open spec fn wf(&self, device_len: int) -> bool {
        &&& self.start % (PAGE_SIZE as u64) == 0
        &&& self.capacity % (PAGE_SIZE as u64) == 0
        &&& self.capacity > PAGE_SIZE
        &&& PAGE_SIZE <= self.offset <= self.capacity
        &&& self.start + self.capacity <= device_len
    }

    /// The header value describing the strand's current state.
    pub open spec fn spec_header(&self) -> StrandHeader {
        StrandHeader { id: self.id, capacity: self.capacity, offset: self.offset, stats: self.stats }
    }

    /// Everything but the statistics, for frame conditions.
    pub open spec fn spec_frame(&self) -> (u16, u64, u64, u64) {
        (self.id, self.start, self.capacity, self.offset)
    }

    /// Creates the strand over `[start, start + capacity)`.
    ///
    /// When `read_strand` is set, the header is read from the first
    /// page and validated, restoring the append cursor and statistics;
    /// otherwise a fresh header is written and the cursor starts at
    /// the second page.
    pub fn new(dev: &mut Memory, id: u16, start: u64, capacity: u64, read_strand: bool) -> (r:
        Result<Strand, Error>)
        requires
            old(dev).wf(),
            start % PAGE_SIZE == 0,
            capacity % PAGE_SIZE == 0,
            capacity > PAGE_SIZE,
            start + capacity <= old(dev).contents().len(),
        ensures
            final(dev).wf(),
            final(dev).contents().len() == old(dev).contents().len(),
            read_strand ==> final(dev).contents() == old(dev).contents(),
            read_strand ==> match r {
                Ok(s) => spec_load_strand(old(dev).contents(), id, start, capacity) == Some(s),
                Err(e) => e is Corrupt && spec_load_strand(
                    old(dev).contents(),
                    id,
                    start,
                    capacity,
                ) is None,
            },
            !read_strand ==> (r matches Ok(s) && s == (Strand {
                id,
                start,
                capacity,
                offset: PAGE_SIZE as u64,
                stats: Stats::spec_zero(),
            }) && final(dev).contents() == old(dev).contents().update_subrange_with(
                start as int,
                strand_header_bytes(
                    StrandHeader {
                        id,
                        capacity,
                        offset: PAGE_SIZE as u64,
                        stats: Stats::spec_zero(),
                    },
                ),
            )),
            r matches Ok(s) ==> s.wf(old(dev).contents().len() as int) && s.id == id && s.start
                == start && s.capacity == capacity,
    {
        if read_strand {
            let mut page: Vec<u8> = crate::serial::zero_vec(PAGE_SIZE as usize);
            dev.read(start, &mut page)?;
            let h = match StrandHeader::decode(page.as_slice()) {
                Ok(h) => h,
                Err(_) => {
                    return Err(Error::Corrupt);
                },
            };
            if h.get_id() != id || h.get_capacity() != capacity {
                return Err(Error::Corrupt);
            }
            let off: u64 = h.get_offset();
            if off < PAGE_SIZE || off > capacity {
                return Err(Error::Corrupt);
            }
            Ok(Strand { id, start, capacity, offset: off, stats: h.stats })
        } else {
            let header = StrandHeader::new(id, capacity);
            let page: Vec<u8> = header.encode();
            dev.write(start, page.as_slice())?;
            Ok(Strand { id, start, capacity, offset: PAGE_SIZE, stats: Stats::zero() })
        }
    }

    /// The position of the strand within the volume.
    pub fn get_id(&self) -> (r: u16)
        ensures
            r == self.id,
    {
        self.id
    }

    /// Absolute device offset where the strand begins.
    pub fn get_start(&self) -> (r: u64)
        ensures
            r == self.start,
    {
        self.start
    }

    /// Absolute device offset just past the strand.
    pub fn end(&self) -> (r: u64)
        requires
            self.start + self.capacity <= u64::MAX,
        ensures
            r == self.start + self.capacity,
    {
        self.start + self.capacity
    }

    /// Length of the strand in bytes.
    pub fn get_capacity(&self) -> (r: u64)
        ensures
            r == self.capacity,
    {
        self.capacity
    }

    /// How many bytes of log space are still free.
    pub fn remaining(&self) -> (r: u64)
        requires
            self.offset <= self.capacity,
        ensures
            r == self.capacity - self.offset,
    {
        self.capacity - self.offset
    }

    /// The append cursor, in bytes from the strand start.
    pub fn get_offset(&self) -> (r: u64)
        ensures
            r == self.offset,
    {
        self.offset
    }

    /// Advances the append cursor by `amt` bytes.
    pub fn push_offset(&mut self, amt: u64)
        requires
            old(self).offset + amt <= old(self).capacity,
        ensures
            *final(self) == (Strand { offset: (old(self).offset + amt) as u64, ..*old(self) }),
    {
        self.offset = self.offset + amt;
    }

    /// Whether the absolute pointer `ptr` falls inside this strand.
    pub fn contains_ptr(&self, ptr: FilePointer) -> (r: bool)
        requires
            self.start + self.capacity <= u64::MAX,
        ensures
            r == (self.start <= ptr < self.start + self.capacity),
    {
        self.start <= ptr && ptr < self.start + self.capacity
    }

    /// Reads `buf.len()` bytes at strand-relative offset `off`.
    pub fn read(&mut self, dev: &Memory, off: u64, buf: &mut Vec<u8>) -> (r: Result<(), Error>)
        requires
            dev.wf(),
            old(self).wf(dev.contents().len() as int),
            off % PAGE_SIZE == 0,
            old(buf)@.len() as int % (PAGE_SIZE as int) == 0,
            off + old(buf)@.len() <= old(self).capacity,
        ensures
            r is Ok,
            final(buf)@ == dev.contents().subrange(
                old(self).start + off,
                old(self).start + off + old(buf)@.len(),
            ),
            *final(self) == (Strand {
                stats: spec_with_read(old(self).stats, old(buf)@.len() as u64),
                ..*old(self)
            }),
    {
        let n: u64 = buf.len() as u64;
        self.stats.read_bytes = crate::stats::sat_add(self.stats.read_bytes, n);
        dev.read(self.start + off, buf)
    }

    /// Writes `data` at strand-relative offset `off`.
    pub fn write(&mut self, dev: &mut Memory, off: u64, data: &[u8]) -> (r: Result<(), Error>)
        requires
            old(dev).wf(),
            old(self).wf(old(dev).contents().len() as int),
            off % PAGE_SIZE == 0,
            data@.len() as int % (PAGE_SIZE as int) == 0,
            off + data@.len() <= old(self).capacity,
        ensures
            r is Ok,
            final(dev).wf(),
            final(dev).contents() == old(dev).contents().update_subrange_with(
                old(self).start + off,
                data@,
            ),
            *final(self) == (Strand {
                stats: spec_with_written(old(self).stats, data@.len() as u64),
                ..*old(self)
            }),
    {
        let n: u64 = data.len() as u64;
        self.stats.written_bytes = crate::stats::sat_add(self.stats.written_bytes, n);
        dev.write(self.start + off, data)
    }

    /// Rewrites the strand header page from the current state.
    pub fn write_metadata(&mut self, dev: &mut Memory) -> (r: Result<(), Error>)
        requires
            old(dev).wf(),
            old(self).wf(old(dev).contents().len() as int),
        ensures
            r is Ok,
            final(dev).wf(),
            final(dev).contents() == old(dev).contents().update_subrange_with(
                old(self).start as int,
                strand_header_bytes(old(self).spec_header()),
            ),
            *final(self) == (Strand {
                stats: spec_with_written(old(self).stats, PAGE_SIZE as u64),
                ..*old(self)
            }),
    {
        let header = StrandHeader {
            id: self.id,
            capacity: self.capacity,
            offset: self.offset,
            stats: self.stats.clone(),
        };
        let page: Vec<u8> = header.encode();
        self.write(dev, 0, page.as_slice())
    }
}

} // verus!
