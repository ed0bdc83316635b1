//! Buffered byte streams over one strand.
//!
//! [`StrandReader`] reads at page granularity through a one-page
//! buffer.  [`StrandWriter`] appends at erase-block granularity
//! through a one-block buffer: before the first byte of a block is
//! changed the whole block is read in, so a partial append preserves
//! the bytes already written around it.

use vstd::prelude::*;

use crate::buffer::{Buffer, BufferStatus};
use crate::device::Memory;
use crate::error::Error;
use crate::serial::{
    copy_bytes_at, lemma_update_subrange_adjacent, zero_vec,
};
use crate::strand::Strand;
use crate::utils::{align, block_align, lemma_align_down_in_block, lemma_aligned_step, lemma_trim_aligned_is_page_aligned};
use crate::{FilePointer, PAGE_SIZE, TRIM_SIZE};
use vstd::slice::slice_subrange;

verus! {

/// A forward-only byte stream reading from one strand.
pub struct StrandReader {
    /// Next byte to read, in bytes from the strand start.
    pub cursor: u64,
    /// The one-page read buffer.
    pub buf: Buffer,
    /// Strand-relative offset of the buffered page.
    pub page_off: u64,
}

impl StrandReader {
    /// The reader's buffer is consistent with the strand bytes on the
    /// device.
    pub open spec fn inv(&self, dev: &Memory, strand: &Strand) -> bool {
        &&& self.buf.bytes@.len() == PAGE_SIZE
        &&& !(self.buf.status is Dirty)
        &&& self.cursor <= strand.capacity
        &&& (self.buf.status is Clean ==> {
            &&& self.page_off % (PAGE_SIZE as u64) == 0
            &&& self.page_off + PAGE_SIZE <= strand.capacity
            &&& self.buf.bytes@ == dev.contents().subrange(
                strand.start + self.page_off,
                strand.start + self.page_off + PAGE_SIZE,
            )
        })
    }

    /// The next byte to be read, in bytes from the strand start.
    pub open spec fn spec_cursor(&self) -> u64 {
        self.cursor
    }

    /// Creates a reader positioned at the absolute pointer `ptr`,
    /// which must lie inside the strand.
    pub fn new(strand: &Strand, ptr: FilePointer) -> (r: StrandReader)
        requires
            strand.start <= ptr <= strand.start + strand.capacity,
        ensures
            r.spec_cursor() == ptr - strand.start,
            r.buf.status is Empty,
            r.buf.bytes@.len() == PAGE_SIZE,
    {
        StrandReader {
            cursor: ptr - strand.get_start(),
            buf: Buffer::new(PAGE_SIZE as usize),
            page_off: 0,
        }
    }

    /// Reads exactly `n` bytes from the current position.
    ///
    /// The bytes come back exactly as they stand on the device inside
    /// the strand; the read must not run past the strand capacity.
    pub fn read_exact(&mut self, strand: &mut Strand, dev: &Memory, n: usize) -> (r: Result<
        Vec<u8>,
        Error,
    >)
        requires
            dev.wf(),
            old(strand).wf(dev.contents().len() as int),
            old(self).inv(dev, old(strand)),
            old(self).spec_cursor() + n <= old(strand).capacity,
        ensures
            final(strand).spec_frame() == old(strand).spec_frame(),
            final(strand).wf(dev.contents().len() as int),
            final(self).inv(dev, final(strand)),
            final(self).spec_cursor() == old(self).spec_cursor() + n,
            r matches Ok(v) && v@ == dev.contents().subrange(
                old(strand).start + old(self).spec_cursor(),
                old(strand).start + old(self).spec_cursor() + n,
            ),
    {
        let ghost cursor0 = self.cursor;
        let ghost dlen = dev.contents().len() as int;
        let mut out: Vec<u8> = Vec::new();
        let mut got: usize = 0;
        while got < n
            invariant
                dev.wf(),
                strand.wf(dlen),
                dlen == dev.contents().len(),
                strand.spec_frame() == old(strand).spec_frame(),
                self.inv(dev, strand),
                got <= n,
                self.cursor == cursor0 + got,
                cursor0 + n <= strand.capacity,
                out@ == dev.contents().subrange(
                    strand.start + cursor0,
                    strand.start + cursor0 + got,
                ),
            decreases n - got,
        {
            let page_off: u64 = align(self.cursor);
            let loaded: bool = match self.buf.status {
                BufferStatus::Clean => self.page_off == page_off,
                _ => false,
            };
            if !loaded {
                proof {
                    lemma_aligned_step(page_off as int, strand.capacity as int, PAGE_SIZE as int);
                }
                strand.read(dev, page_off, &mut self.buf.bytes)?;
                self.buf.status = BufferStatus::Clean;
                self.page_off = page_off;
            }
            let off_in: usize = (self.cursor - self.page_off) as usize;
            let room: usize = PAGE_SIZE as usize - off_in;
            let want: usize = n - got;
            let take: usize = if room < want {
                room
            } else {
                want
            };
            let mut k: usize = 0;
            while k < take
                invariant
                    k <= take,
                    off_in + take <= self.buf.bytes@.len(),
                    self.buf.bytes@.len() == PAGE_SIZE,
                    out@.len() == got + k,
                    forall|j: int|
                        0 <= j < out@.len() ==> out@[j] == (if j < got {
                            dev.contents()[strand.start + cursor0 + j]
                        } else {
                            self.buf.bytes@[off_in + (j - got)]
                        }),
                decreases take - k,
            {
                let b: u8 = self.buf.bytes[off_in + k];
                out.push(b);
                k = k + 1;
            }
            proof {
                vstd::assert_seqs_equal!(
                    out@ == dev.contents().subrange(
                        strand.start + cursor0,
                        strand.start + cursor0 + (got + take),
                    )
                );
            }
            self.cursor = self.cursor + take as u64;
            got = got + take;
        }
        Ok(out)
    }
}

/// An append-only byte stream writing into one strand.
pub struct StrandWriter {
    /// Next byte to write, in bytes from the strand start.
    pub cursor: u64,
    /// Whether each write also advances the strand's append cursor.
    /// Cleared when writing a state snapshot, which is transient.
    pub update_offset: bool,
    /// The one-block write buffer.
    pub buf: Buffer,
    /// Strand-relative offset of the buffered erase block.
    pub block_off: u64,
}

/// Length of the erase block starting at `block_off`: a full block,
/// or what is left of the strand.
pub open spec fn spec_block_len(block_off: u64, capacity: u64) -> int {
    if capacity - block_off < TRIM_SIZE {
        capacity - block_off
    } else {
        TRIM_SIZE as int
    }
}

impl StrandWriter {
    /// The writer's buffer is consistent with the strand bytes on the
    /// device.
    pub open spec fn inv(&self, dev: &Memory, strand: &Strand) -> bool {
        &&& self.cursor <= strand.capacity
        &&& match self.buf.status {
            BufferStatus::Empty => true,
            BufferStatus::Clean => {
                &&& self.block_off % TRIM_SIZE == 0
                &&& self.block_off < strand.capacity
                &&& self.buf.bytes@.len() == spec_block_len(self.block_off, strand.capacity)
                &&& self.buf.bytes@ == dev.contents().subrange(
                    strand.start + self.block_off,
                    strand.start + self.block_off + self.buf.bytes@.len(),
                )
            },
            BufferStatus::Dirty => {
                &&& self.block_off % TRIM_SIZE == 0
                &&& self.block_off < strand.capacity
                &&& self.buf.bytes@.len() == spec_block_len(self.block_off, strand.capacity)
                &&& self.block_off <= self.cursor < self.block_off + self.buf.bytes@.len()
            },
        }
    }

    /// The bytes the device will hold once the buffer is flushed.
    pub open spec fn eff(&self, dev: Seq<u8>, strand: &Strand) -> Seq<u8> {
        if self.buf.status is Dirty {
            dev.update_subrange_with(strand.start + self.block_off, self.buf.bytes@)
        } else {
            dev
        }
    }

    /// The next byte to be written, in bytes from the strand start.
    pub open spec fn spec_cursor(&self) -> u64 {
        self.cursor
    }

    /// Creates a writer positioned at the strand's append cursor.
    pub fn new(strand: &Strand) -> (r: StrandWriter)
        ensures
            r.spec_cursor() == strand.offset,
            r.update_offset,
            r.buf.status is Empty,
    {
        StrandWriter {
            cursor: strand.get_offset(),
            update_offset: true,
            buf: Buffer::new(0),
            block_off: 0,
        }
    }

    /// The absolute pointer at which the next byte will land.
    pub fn get_pointer(&self, strand: &Strand) -> (r: FilePointer)
        requires
            strand.start + strand.capacity <= u64::MAX,
            self.spec_cursor() <= strand.capacity,
        ensures
            r == strand.start + self.spec_cursor(),
    {
        strand.get_start() + self.cursor
    }

    /// Appends all of `data` at the current position, buffering whole
    /// erase blocks.  Fails with [`Error::OutOfSpace`], changing
    /// nothing, when the strand cannot hold `data`.
    #[verifier::rlimit(80)]
    pub fn write_all(&mut self, strand: &mut Strand, dev: &mut Memory, data: &[u8]) -> (r: Result<
        (),
        Error,
    >)
        requires
            old(dev).wf(),
            old(strand).wf(old(dev).contents().len() as int),
            old(self).inv(old(dev), old(strand)),
            old(self).update_offset ==> old(self).spec_cursor() == old(strand).offset,
        ensures
            final(dev).wf(),
            final(dev).contents().len() == old(dev).contents().len(),
            final(strand).wf(final(dev).contents().len() as int),
            final(strand).id == old(strand).id,
            final(strand).start == old(strand).start,
            final(strand).capacity == old(strand).capacity,
            final(self).update_offset == old(self).update_offset,
            final(self).inv(final(dev), final(strand)),
            match r {
                Ok(_) => {
                    &&& old(self).spec_cursor() + data@.len() <= old(strand).capacity
                    &&& final(self).spec_cursor() == old(self).spec_cursor() + data@.len()
                    &&& final(self).eff(final(dev).contents(), final(strand)) == old(self).eff(
                        old(dev).contents(),
                        old(strand),
                    ).update_subrange_with(
                        old(strand).start + old(self).spec_cursor(),
                        data@,
                    )
                    &&& final(strand).offset == (if old(self).update_offset {
                        old(strand).offset + data@.len()
                    } else {
                        old(strand).offset as int
                    })
                    &&& (old(self).update_offset ==> final(self).spec_cursor() == final(strand).offset)
                },
                Err(e) => {
                    &&& e is OutOfSpace
                    &&& old(self).spec_cursor() + data@.len() > old(strand).capacity
                    &&& *final(dev) == *old(dev)
                    &&& *final(strand) == *old(strand)
                    &&& *final(self) == *old(self)
                },
            },
    {
        let n: usize = data.len();
        if (n as u64) > strand.get_capacity() - self.cursor {
            return Err(Error::OutOfSpace);
        }
        let ghost eff0 = self.eff(dev.contents(), strand);
        let ghost cursor0 = self.cursor;
        let ghost offset0 = strand.offset;
        let ghost dlen = dev.contents().len() as int;
        let mut written: usize = 0;
        proof {
            assert(self.eff(dev.contents(), strand) =~= eff0.update_subrange_with(
                strand.start + cursor0,
                data@.take(0),
            ));
        }
        while written < n
            invariant
                dev.wf(),
                dlen == dev.contents().len(),
                strand.wf(dlen),
                strand.id == old(strand).id,
                strand.start == old(strand).start,
                strand.capacity == old(strand).capacity,
                self.inv(dev, strand),
                n == data@.len(),
                written <= n,
                self.cursor == cursor0 + written,
                cursor0 + n <= strand.capacity,
                self.update_offset == old(self).update_offset,
                strand.offset == (if self.update_offset {
                    offset0 + written
                } else {
                    offset0 as int
                }),
                self.update_offset ==> self.cursor == strand.offset,
                self.eff(dev.contents(), strand) == eff0.update_subrange_with(
                    old(strand).start + cursor0,
                    data@.take(written as int),
                ),
            decreases n - written,
        {
            let bo: u64 = block_align(self.cursor);
            let capacity: u64 = strand.get_capacity();
            let blen: u64 = if capacity - bo < TRIM_SIZE {
                capacity - bo
            } else {
                TRIM_SIZE
            };
            let loaded: bool = match self.buf.status {
                BufferStatus::Empty => false,
                _ => self.block_off == bo,
            };
            proof {
                if self.buf.status is Dirty {
                    lemma_align_down_in_block(
                        self.block_off as int,
                        self.cursor as int,
                        TRIM_SIZE as int,
                    );
                    assert(self.block_off == bo);
                }
                lemma_trim_aligned_is_page_aligned(bo as int);
                vstd::arithmetic::div_mod::lemma_sub_mod_noop(
                    strand.capacity as int,
                    bo as int,
                    PAGE_SIZE as int,
                );
            }
            if !loaded {
                let mut block: Vec<u8> = zero_vec(blen as usize);
                strand.read(dev, bo, &mut block)?;
                self.buf.bytes = block;
                self.buf.status = BufferStatus::Clean;
                self.block_off = bo;
            }
            let off_in: usize = (self.cursor - self.block_off) as usize;
            let room: usize = self.buf.bytes.len() - off_in;
            let want: usize = n - written;
            let take: usize = if room < want {
                room
            } else {
                want
            };
            let ghost eff_before = self.eff(dev.contents(), strand);
            let chunk: &[u8] = slice_subrange(data, written, written + take);
            copy_bytes_at(&mut self.buf.bytes, off_in, chunk);
            self.buf.status = BufferStatus::Dirty;
            proof {
                vstd::assert_seqs_equal!(
                    self.eff(dev.contents(), strand) == eff_before.update_subrange_with(
                        strand.start + self.cursor,
                        chunk@,
                    )
                );
                lemma_update_subrange_adjacent(
                    eff0,
                    old(strand).start + cursor0,
                    data@.take(written as int),
                    chunk@,
                );
                vstd::assert_seqs_equal!(
                    data@.take(written as int) + chunk@ == data@.take(written + take)
                );
            }
            self.cursor = self.cursor + take as u64;
            if self.update_offset {
                strand.push_offset(take as u64);
            }
            written = written + take;
            if off_in + take == self.buf.bytes.len() {
                let ghost eff_mid = self.eff(dev.contents(), strand);
                strand.write(dev, self.block_off, self.buf.bytes.as_slice())?;
                self.buf.status = BufferStatus::Clean;
                proof {
                    vstd::assert_seqs_equal!(
                        dev.contents() == eff_mid
                    );
                    crate::serial::lemma_update_subrange_inside(
                        eff_mid.subrange(0, eff_mid.len() as int),
                        strand.start + self.block_off,
                        self.buf.bytes@,
                    );
                    vstd::assert_seqs_equal!(
                        self.buf.bytes@ == dev.contents().subrange(
                            strand.start + self.block_off,
                            strand.start + self.block_off + self.buf.bytes@.len(),
                        )
                    );
                }
            }
        }
        proof {
            assert(data@.take(n as int) =~= data@);
        }
        Ok(())
    }

    /// Writes the buffered block back to the device, if it holds
    /// changes.
    pub fn flush(&mut self, strand: &mut Strand, dev: &mut Memory) -> (r: Result<(), Error>)
        requires
            old(dev).wf(),
            old(strand).wf(old(dev).contents().len() as int),
            old(self).inv(old(dev), old(strand)),
        ensures
            r is Ok,
            final(dev).wf(),
            final(dev).contents().len() == old(dev).contents().len(),
            final(dev).contents() == old(self).eff(old(dev).contents(), old(strand)),
            final(strand).spec_frame() == old(strand).spec_frame(),
            final(strand).wf(final(dev).contents().len() as int),
            final(self).inv(final(dev), final(strand)),
            final(self).spec_cursor() == old(self).spec_cursor(),
            final(self).update_offset == old(self).update_offset,
            final(self).eff(final(dev).contents(), final(strand)) == old(self).eff(
                old(dev).contents(),
                old(strand),
            ),
    {
        let dirty: bool = match self.buf.status {
            BufferStatus::Dirty => true,
            _ => false,
        };
        if dirty {
            proof {
                lemma_trim_aligned_is_page_aligned(self.block_off as int);
                vstd::arithmetic::div_mod::lemma_sub_mod_noop(
                    strand.capacity as int,
                    self.block_off as int,
                    PAGE_SIZE as int,
                );
            }
            let ghost eff0 = self.eff(dev.contents(), strand);
            strand.write(dev, self.block_off, self.buf.bytes.as_slice())?;
            self.buf.status = BufferStatus::Clean;
            proof {
                vstd::assert_seqs_equal!(dev.contents() == eff0);
                vstd::assert_seqs_equal!(
                    self.buf.bytes@ == dev.contents().subrange(
                        strand.start + self.block_off,
                        strand.start + self.block_off + self.buf.bytes@.len(),
                    )
                );
            }
        }
        Ok(())
    }

    /// Rewrites the strand header page.  The buffer must not hold
    /// pending bytes: flush first.
    pub fn write_metadata(&mut self, strand: &mut Strand, dev: &mut Memory) -> (r: Result<
        (),
        Error,
    >)
        requires
            old(dev).wf(),
            old(strand).wf(old(dev).contents().len() as int),
            old(self).inv(old(dev), old(strand)),
            !(old(self).buf.status is Dirty),
        ensures
            r is Ok,
            final(dev).wf(),
            final(dev).contents().len() == old(dev).contents().len(),
            final(dev).contents() == old(dev).contents().update_subrange_with(
                old(strand).start as int,
                crate::header::strand_header_bytes(old(strand).spec_header()),
            ),
            final(strand).spec_frame() == old(strand).spec_frame(),
            final(strand).wf(final(dev).contents().len() as int),
            final(self).inv(final(dev), final(strand)),
            final(self).spec_cursor() == old(self).spec_cursor(),
            final(self).update_offset == old(self).update_offset,
            !(final(self).buf.status is Dirty),
    {
        strand.write_metadata(dev)?;
        self.buf.status = BufferStatus::Empty;
        Ok(())
    }
}

} // verus!
