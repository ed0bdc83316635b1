//! The volume header and the per-strand headers.
//!
//! Both headers occupy one page.  Every field is a fixed-width
//! little-endian integer at a fixed offset, followed by a check word
//! that folds all fields together and by zero padding up to the page
//! size.  A page decodes successfully exactly when it is the encoding
//! of some header value.

use vstd::prelude::*;

use vstd::bytes::{
    lemma_auto_spec_u16_to_from_le_bytes, lemma_auto_spec_u64_to_from_le_bytes,
    spec_u16_from_le_bytes, spec_u16_to_le_bytes, spec_u64_from_le_bytes, spec_u64_to_le_bytes,
};
use crate::error::Error;
use crate::serial::{get_u16, get_u64, put_u16, put_u64, zero_vec, zeros};
use crate::stats::Stats;
use crate::{FilePointer, PAGE_SIZE, VERSION_MAJOR, VERSION_MINOR, VERSION_PATCH};

verus! {

/// Signature of the volume header.
pub const VOLUME_MAGIC: u64 = 0x864d26e37a418b16;

/// Signature of a strand header.
pub const STRAND_MAGIC: u64 = 0x582f047b5ed83a7f;

/// The header stored in page 0 of the device.
#[derive(Debug, Clone, Copy, PartialEq, Eq, Structural)]
pub struct VolumeHeader {
    /// Major component of the format version of the volume.
    pub major: u8,
    /// Minor component of the format version of the volume.
    pub minor: u8,
    /// Patch component of the format version of the volume.
    pub patch: u8,
    /// How many strands the device is partitioned into.
    pub strands: u16,
    /// Pointer to the persisted datastore state, or zero when no
    /// snapshot has been written.
    pub state_ptr: u64,
}

/// The check word folding every field of a volume header.
pub open spec fn spec_volume_check(h: VolumeHeader) -> u64 {
    (VOLUME_MAGIC ^ ((h.major as u64) | ((h.minor as u64) << 8) | ((h.patch as u64) << 16) | (
    (h.strands as u64) << 24))) ^ h.state_ptr
}

/// The page-sized encoding of a volume header.
pub open spec fn volume_header_bytes(h: VolumeHeader) -> Seq<u8> {
    spec_u64_to_le_bytes(VOLUME_MAGIC) + seq![h.major, h.minor, h.patch]
        + spec_u16_to_le_bytes(h.strands) + spec_u64_to_le_bytes(h.state_ptr)
        + spec_u64_to_le_bytes(spec_volume_check(h)) + zeros(PAGE_SIZE as int - 29)
}

/// What a page holds when read as a volume header: the unique header
/// value it encodes, if any.
pub open spec fn spec_decode_volume_header(page: Seq<u8>) -> Option<VolumeHeader> {
    let h = VolumeHeader {
        major: page[8],
        minor: page[9],
        patch: page[10],
        strands: spec_u16_from_le_bytes(page.subrange(11, 13)),
        state_ptr: spec_u64_from_le_bytes(page.subrange(13, 21)),
    };
    if page.len() == PAGE_SIZE && page == volume_header_bytes(h) {
        Some(h)
    } else {
        None
    }
}

/// Field-by-field view of the encoding of a volume header.
proof fn lemma_volume_header_bytes_fields(h: VolumeHeader)
    ensures
        volume_header_bytes(h).len() == PAGE_SIZE,
        volume_header_bytes(h).subrange(0, 8) == spec_u64_to_le_bytes(VOLUME_MAGIC),
        volume_header_bytes(h)[8] == h.major,
        volume_header_bytes(h)[9] == h.minor,
        volume_header_bytes(h)[10] == h.patch,
        volume_header_bytes(h).subrange(11, 13) == spec_u16_to_le_bytes(h.strands),
        volume_header_bytes(h).subrange(13, 21) == spec_u64_to_le_bytes(h.state_ptr),
        volume_header_bytes(h).subrange(21, 29) == spec_u64_to_le_bytes(spec_volume_check(h)),
        forall|i: int| 29 <= i < PAGE_SIZE ==> volume_header_bytes(h)[i] == 0,
{
    lemma_auto_spec_u64_to_from_le_bytes();
    lemma_auto_spec_u16_to_from_le_bytes();
    let b = volume_header_bytes(h);
    assert(b.subrange(0, 8) =~= spec_u64_to_le_bytes(VOLUME_MAGIC));
    assert(b.subrange(11, 13) =~= spec_u16_to_le_bytes(h.strands));
    assert(b.subrange(13, 21) =~= spec_u64_to_le_bytes(h.state_ptr));
    assert(b.subrange(21, 29) =~= spec_u64_to_le_bytes(spec_volume_check(h)));
}

impl VolumeHeader {
    /// A header for the current format version.
    pub fn new(strands: u16, state_ptr: Option<FilePointer>) -> (r: VolumeHeader)
        ensures
            r.major == VERSION_MAJOR,
            r.minor == VERSION_MINOR,
            r.patch == VERSION_PATCH,
            r.strands == strands,
            r.state_ptr == (match state_ptr {
                Some(p) => p,
                None => 0u64,
            }),
    {
        VolumeHeader {
            major: VERSION_MAJOR,
            minor: VERSION_MINOR,
            patch: VERSION_PATCH,
            strands,
            state_ptr: match state_ptr {
                Some(p) => p,
                None => 0,
            },
        }
    }

    /// How many strands the volume was created with.
    pub fn get_strands(&self) -> (r: u16)
        ensures
            r == self.strands,
    {
        self.strands
    }

    /// The pointer to the persisted datastore state, if one was
    /// written.
    pub fn get_state_ptr(&self) -> (r: Option<FilePointer>)
        ensures
            r == (if self.state_ptr == 0 {
                Option::<FilePointer>::None
            } else {
                Option::<FilePointer>::Some(self.state_ptr)
            }),
    {
        if self.state_ptr == 0 {
            None
        } else {
            Some(self.state_ptr)
        }
    }

    /// Replaces the strand count.
    pub fn set_strands(&mut self, strands: u16)
        ensures
            *final(self) == (VolumeHeader { strands, ..*old(self) }),
    {
        self.strands = strands;
    }

    /// Replaces the state pointer; `None` stores zero.
    pub fn set_state_ptr(&mut self, state_ptr: Option<FilePointer>)
        ensures
            *final(self) == (VolumeHeader {
                state_ptr: (match state_ptr {
                    Some(p) => p,
                    None => 0u64,
                }),
                ..*old(self)
            }),
    {
        self.state_ptr = match state_ptr {
            Some(p) => p,
            None => 0,
        };
    }

    /// Serialises the header into a fresh page.
    pub fn encode(&self) -> (r: Vec<u8>)
        ensures
            r@ == volume_header_bytes(*self),
            r@.len() == PAGE_SIZE,
    {
        proof {
            lemma_auto_spec_u64_to_from_le_bytes();
            lemma_auto_spec_u16_to_from_le_bytes();
        }
        let mut page: Vec<u8> = zero_vec(PAGE_SIZE as usize);
        put_u64(&mut page, 0, VOLUME_MAGIC);
        page[8] = self.major;
        page[9] = self.minor;
        page[10] = self.patch;
        put_u16(&mut page, 11, self.strands);
        put_u64(&mut page, 13, self.state_ptr);
        let folded: u64 = (self.major as u64) | ((self.minor as u64) << 8) | ((self.patch
            as u64) << 16) | ((self.strands as u64) << 24);
        put_u64(&mut page, 21, (VOLUME_MAGIC ^ folded) ^ self.state_ptr);
        proof {
            vstd::assert_seqs_equal!(page@ == volume_header_bytes(*self));
        }
        page
    }

    /// Reads a header back from a page.  Fails with [`Error::Corrupt`]
    /// when the page is not the encoding of any header.
    pub fn decode(page: &[u8]) -> (r: Result<VolumeHeader, Error>)
        requires
            page@.len() == PAGE_SIZE,
        ensures
            match r {
                Ok(h) => spec_decode_volume_header(page@) == Some(h),
                Err(e) => e is Corrupt && spec_decode_volume_header(page@) is None,
            },
    {
        proof {
            lemma_auto_spec_u64_to_from_le_bytes();
            lemma_auto_spec_u16_to_from_le_bytes();
        }
        let magic: u64 = get_u64(page, 0);
        let major: u8 = page[8];
        let minor: u8 = page[9];
        let patch: u8 = page[10];
        let strands: u16 = get_u16(page, 11);
        let state_ptr: u64 = get_u64(page, 13);
        let check: u64 = get_u64(page, 21);
        let h = VolumeHeader { major, minor, patch, strands, state_ptr };
        proof {
            lemma_volume_header_bytes_fields(h);
            if page@ == volume_header_bytes(h) {
                assert(magic == VOLUME_MAGIC);
                assert(check == spec_volume_check(h));
            }
        }
        let folded: u64 = (major as u64) | ((minor as u64) << 8) | ((patch as u64) << 16) | ((
        strands as u64) << 24);
        if magic != VOLUME_MAGIC || check != (VOLUME_MAGIC ^ folded) ^ state_ptr {
            return Err(Error::Corrupt);
        }
        let mut i: usize = 29;
        while i < PAGE_SIZE as usize
            invariant
                29 <= i <= PAGE_SIZE,
                page@.len() == PAGE_SIZE,
                forall|j: int| 29 <= j < i ==> page@[j] == 0,
                magic == VOLUME_MAGIC,
                magic == spec_u64_from_le_bytes(page@.subrange(0, 8)),
                check == spec_u64_from_le_bytes(page@.subrange(21, 29)),
                check == spec_volume_check(h),
                h == (VolumeHeader {
                    major: page@[8],
                    minor: page@[9],
                    patch: page@[10],
                    strands: spec_u16_from_le_bytes(page@.subrange(11, 13)),
                    state_ptr: spec_u64_from_le_bytes(page@.subrange(13, 21)),
                }),
            decreases PAGE_SIZE - i,
        {
            if page[i] != 0 {
                proof {
                    lemma_volume_header_bytes_fields(h);
                }
                return Err(Error::Corrupt);
            }
            i = i + 1;
        }
        proof {
            lemma_volume_header_bytes_fields(h);
            vstd::assert_seqs_equal!(page@ == volume_header_bytes(h));
        }
        Ok(h)
    }
}

/// The encoding of a strand header fills exactly one page.
pub proof fn lemma_strand_header_bytes_len(h: StrandHeader)
    ensures
        strand_header_bytes(h).len() == PAGE_SIZE,
{
    lemma_auto_spec_u64_to_from_le_bytes();
    lemma_auto_spec_u16_to_from_le_bytes();
}


/// A volume header reads back from its own encoding.
pub proof fn lemma_volume_header_round_trip(h: VolumeHeader)
    ensures
        spec_decode_volume_header(volume_header_bytes(h)) == Some(h),
{
    lemma_auto_spec_u64_to_from_le_bytes();
    lemma_auto_spec_u16_to_from_le_bytes();
    lemma_volume_header_bytes_fields(h);
}

/// A strand header reads back from its own encoding.
pub proof fn lemma_strand_header_round_trip(h: StrandHeader)
    ensures
        spec_decode_strand_header(strand_header_bytes(h)) == Some(h),
{
    lemma_auto_spec_u64_to_from_le_bytes();
    lemma_auto_spec_u16_to_from_le_bytes();
    lemma_strand_header_bytes_fields(h);
}

/// The encoding of a volume header never starts with a zero byte:
/// the signature's low byte is fixed and nonzero, so a blank page is
/// the encoding of no header.
pub proof fn lemma_volume_header_page_nonzero(h: VolumeHeader)
    ensures
        volume_header_bytes(h)[0] != 0,
{
    lemma_auto_spec_u64_to_from_le_bytes();
    lemma_volume_header_bytes_fields(h);
    vstd::bytes::spec_u64_to_le_bytes_to_open(VOLUME_MAGIC);
    assert(volume_header_bytes(h)[0] == volume_header_bytes(h).subrange(0, 8)[0]);
    assert((VOLUME_MAGIC & 0xff) as u8 != 0) by (bit_vector);
}

/// Corruption is detected: a page differing in any single byte from
/// the encoding of a volume header is the encoding of no header at
/// all, so [`VolumeHeader::decode`] rejects it and opening a volume
/// over it fails with [`Error::Corrupt`].
pub proof fn law_volume_header_corruption(h: VolumeHeader, i: int, b: u8)
    requires
        0 <= i < PAGE_SIZE,
        b != volume_header_bytes(h)[i],
    ensures
        spec_decode_volume_header(volume_header_bytes(h).update(i, b)) is None,
{
    lemma_auto_spec_u64_to_from_le_bytes();
    lemma_auto_spec_u16_to_from_le_bytes();
    lemma_volume_header_bytes_fields(h);
    let page0 = volume_header_bytes(h);
    let page = page0.update(i, b);
    if spec_decode_volume_header(page) is Some {
        let h2 = spec_decode_volume_header(page).unwrap();
        assert(page == volume_header_bytes(h2));
        lemma_volume_header_bytes_fields(h2);
        if i != 8 {
            assert(h2.major == h.major);
        }
        if i != 9 {
            assert(h2.minor == h.minor);
        }
        if i != 10 {
            assert(h2.patch == h.patch);
        }
        if !(11 <= i < 13) {
            assert(page.subrange(11, 13) =~= page0.subrange(11, 13));
            assert(h2.strands == h.strands);
        }
        if !(13 <= i < 21) {
            assert(page.subrange(13, 21) =~= page0.subrange(13, 21));
            assert(h2.state_ptr == h.state_ptr);
        }
        if !(0 <= i < 8) {
            assert(page.subrange(0, 8) =~= page0.subrange(0, 8));
        }
        if !(21 <= i < 29) {
            assert(page.subrange(21, 29) =~= page0.subrange(21, 29));
            assert(spec_volume_check(h2) == spec_volume_check(h));
        }
        let ma = h.major as u64;
        let ma2 = h2.major as u64;
        let mi = h.minor as u64;
        let mi2 = h2.minor as u64;
        let pa = h.patch as u64;
        let pa2 = h2.patch as u64;
        let st = h.strands as u64;
        let st2 = h2.strands as u64;
        let sp = h.state_ptr;
        let sp2 = h2.state_ptr;
        if 29 <= i {
            assert(page[i] == 0);
            assert(page0[i] == 0);
        } else if i < 8 {
            assert(page.subrange(0, 8)[i] == page[i]);
            assert(page0.subrange(0, 8)[i] == page0[i]);
        } else if 21 <= i {
            assert(h2 == h);
            assert(page[i] == page0[i]);
        } else {
            assert(spec_volume_check(h) == (VOLUME_MAGIC ^ (ma | (mi << 8) | (pa << 16) | (st
                << 24))) ^ sp);
            assert(spec_volume_check(h2) == (VOLUME_MAGIC ^ (ma2 | (mi2 << 8) | (pa2 << 16) | (
            st2 << 24))) ^ sp2);
            if i == 8 {
                assert(ma2 == ma) by (bit_vector)
                    requires
                        (VOLUME_MAGIC ^ (ma2 | (mi << 8) | (pa << 16) | (st << 24))) ^ sp == (
                        VOLUME_MAGIC ^ (ma | (mi << 8) | (pa << 16) | (st << 24))) ^ sp,
                        ma < 256,
                        ma2 < 256,
                        mi < 256,
                        pa < 256,
                        st < 65536,
                ;
                assert(h2.major == h.major);
            }
            if i == 9 {
                assert(mi2 == mi) by (bit_vector)
                    requires
                        (VOLUME_MAGIC ^ (ma | (mi2 << 8) | (pa << 16) | (st << 24))) ^ sp == (
                        VOLUME_MAGIC ^ (ma | (mi << 8) | (pa << 16) | (st << 24))) ^ sp,
                        ma < 256,
                        mi < 256,
                        mi2 < 256,
                        pa < 256,
                        st < 65536,
                ;
                assert(h2.minor == h.minor);
            }
            if i == 10 {
                assert(pa2 == pa) by (bit_vector)
                    requires
                        (VOLUME_MAGIC ^ (ma | (mi << 8) | (pa2 << 16) | (st << 24))) ^ sp == (
                        VOLUME_MAGIC ^ (ma | (mi << 8) | (pa << 16) | (st << 24))) ^ sp,
                        ma < 256,
                        mi < 256,
                        pa < 256,
                        pa2 < 256,
                        st < 65536,
                ;
                assert(h2.patch == h.patch);
            }
            if 11 <= i < 13 {
                assert(st2 == st) by (bit_vector)
                    requires
                        (VOLUME_MAGIC ^ (ma | (mi << 8) | (pa << 16) | (st2 << 24))) ^ sp == (
                        VOLUME_MAGIC ^ (ma | (mi << 8) | (pa << 16) | (st << 24))) ^ sp,
                        ma < 256,
                        mi < 256,
                        pa < 256,
                        st < 65536,
                        st2 < 65536,
                ;
                assert(h2.strands == h.strands);
            }
            if 13 <= i < 21 {
                assert(sp2 == sp) by (bit_vector)
                    requires
                        (VOLUME_MAGIC ^ (ma | (mi << 8) | (pa << 16) | (st << 24))) ^ sp2 == (
                        VOLUME_MAGIC ^ (ma | (mi << 8) | (pa << 16) | (st << 24))) ^ sp,
                ;
                assert(h2.state_ptr == h.state_ptr);
            }
            assert(h2 == h);
            assert(page[i] == page0[i]);
        }
        assert(false);
    }
}

/// The header stored in the first page of each strand.
#[derive(Debug, Clone, Copy, PartialEq, Eq, Structural)]
pub struct StrandHeader {
    /// The position of the strand within the volume.
    pub id: u16,
    /// The strand capacity in bytes, header page included.
    pub capacity: u64,
    /// The append cursor, in bytes from the strand start.
    pub offset: u64,
    /// The strand statistics at the time the header was written.
    pub stats: Stats,
}

/// The check word folding every field of a strand header.
pub open spec fn spec_strand_check(h: StrandHeader) -> u64 {
    (((STRAND_MAGIC ^ (h.id as u64)) ^ h.capacity ^ h.offset) ^ (h.stats.read_bytes
        ^ h.stats.written_bytes ^ h.stats.trimmed_bytes)) ^ (h.stats.buffer_read_bytes
        ^ h.stats.buffer_written_bytes ^ h.stats.valid_items ^ h.stats.deleted_items)
}

/// The page-sized encoding of a strand header.
pub open spec fn strand_header_bytes(h: StrandHeader) -> Seq<u8> {
    spec_u64_to_le_bytes(STRAND_MAGIC) + spec_u16_to_le_bytes(h.id) + spec_u64_to_le_bytes(
        h.capacity,
    ) + spec_u64_to_le_bytes(h.offset) + spec_u64_to_le_bytes(h.stats.read_bytes)
        + spec_u64_to_le_bytes(h.stats.written_bytes) + spec_u64_to_le_bytes(h.stats.trimmed_bytes)
        + spec_u64_to_le_bytes(h.stats.buffer_read_bytes) + spec_u64_to_le_bytes(
        h.stats.buffer_written_bytes,
    ) + spec_u64_to_le_bytes(h.stats.valid_items) + spec_u64_to_le_bytes(h.stats.deleted_items)
        + spec_u64_to_le_bytes(spec_strand_check(h)) + zeros(PAGE_SIZE as int - 90)
}

/// What a page holds when read as a strand header: the unique header
/// value it encodes, if any.
pub open spec fn spec_decode_strand_header(page: Seq<u8>) -> Option<StrandHeader> {
    let h = spec_candidate_strand_header(page);
    if page.len() == PAGE_SIZE && page == strand_header_bytes(h) {
        Some(h)
    } else {
        None
    }
}

/// Field-by-field view of the encoding of a strand header.
proof fn lemma_strand_header_bytes_fields(h: StrandHeader)
    ensures
        strand_header_bytes(h).len() == PAGE_SIZE,
        strand_header_bytes(h).subrange(0, 8) == spec_u64_to_le_bytes(STRAND_MAGIC),
        strand_header_bytes(h).subrange(8, 10) == spec_u16_to_le_bytes(h.id),
        strand_header_bytes(h).subrange(10, 18) == spec_u64_to_le_bytes(h.capacity),
        strand_header_bytes(h).subrange(18, 26) == spec_u64_to_le_bytes(h.offset),
        strand_header_bytes(h).subrange(26, 34) == spec_u64_to_le_bytes(h.stats.read_bytes),
        strand_header_bytes(h).subrange(34, 42) == spec_u64_to_le_bytes(h.stats.written_bytes),
        strand_header_bytes(h).subrange(42, 50) == spec_u64_to_le_bytes(h.stats.trimmed_bytes),
        strand_header_bytes(h).subrange(50, 58) == spec_u64_to_le_bytes(h.stats.buffer_read_bytes),
        strand_header_bytes(h).subrange(58, 66) == spec_u64_to_le_bytes(
            h.stats.buffer_written_bytes,
        ),
        strand_header_bytes(h).subrange(66, 74) == spec_u64_to_le_bytes(h.stats.valid_items),
        strand_header_bytes(h).subrange(74, 82) == spec_u64_to_le_bytes(h.stats.deleted_items),
        strand_header_bytes(h).subrange(82, 90) == spec_u64_to_le_bytes(spec_strand_check(h)),
        forall|i: int| 90 <= i < PAGE_SIZE ==> strand_header_bytes(h)[i] == 0,
{
    lemma_auto_spec_u64_to_from_le_bytes();
    lemma_auto_spec_u16_to_from_le_bytes();
    let b = strand_header_bytes(h);
    assert(b.subrange(0, 8) =~= spec_u64_to_le_bytes(STRAND_MAGIC));
    assert(b.subrange(8, 10) =~= spec_u16_to_le_bytes(h.id));
    assert(b.subrange(10, 18) =~= spec_u64_to_le_bytes(h.capacity));
    assert(b.subrange(18, 26) =~= spec_u64_to_le_bytes(h.offset));
    assert(b.subrange(26, 34) =~= spec_u64_to_le_bytes(h.stats.read_bytes));
    assert(b.subrange(34, 42) =~= spec_u64_to_le_bytes(h.stats.written_bytes));
    assert(b.subrange(42, 50) =~= spec_u64_to_le_bytes(h.stats.trimmed_bytes));
    assert(b.subrange(50, 58) =~= spec_u64_to_le_bytes(h.stats.buffer_read_bytes));
    assert(b.subrange(58, 66) =~= spec_u64_to_le_bytes(h.stats.buffer_written_bytes));
    assert(b.subrange(66, 74) =~= spec_u64_to_le_bytes(h.stats.valid_items));
    assert(b.subrange(74, 82) =~= spec_u64_to_le_bytes(h.stats.deleted_items));
    assert(b.subrange(82, 90) =~= spec_u64_to_le_bytes(spec_strand_check(h)));
}

impl StrandHeader {
    /// The header of a freshly formatted strand: cursor just past the
    /// header page and zeroed statistics.
    pub fn new(id: u16, capacity: u64) -> (r: StrandHeader)
        ensures
            r == (StrandHeader { id, capacity, offset: PAGE_SIZE as u64, stats: Stats::spec_zero() }),
    {
        StrandHeader { id, capacity, offset: PAGE_SIZE, stats: Stats::zero() }
    }

    /// The position of the strand within the volume.
    pub fn get_id(&self) -> (r: u16)
        ensures
            r == self.id,
    {
        self.id
    }

    /// The strand capacity in bytes.
    pub fn get_capacity(&self) -> (r: u64)
        ensures
            r == self.capacity,
    {
        self.capacity
    }

    /// The append cursor, in bytes from the strand start.
    pub fn get_offset(&self) -> (r: u64)
        ensures
            r == self.offset,
    {
        self.offset
    }

    /// The recorded strand statistics.
    pub fn get_stats(&self) -> (r: Stats)
        ensures
            r == self.stats,
    {
        self.stats.clone()
    }

    /// Replaces the strand id.
    pub fn set_id(&mut self, id: u16)
        ensures
            *final(self) == (StrandHeader { id, ..*old(self) }),
    {
        self.id = id;
    }

    /// Replaces the capacity.
    pub fn set_capacity(&mut self, capacity: u64)
        ensures
            *final(self) == (StrandHeader { capacity, ..*old(self) }),
    {
        self.capacity = capacity;
    }

    /// Replaces the append cursor.
    pub fn set_offset(&mut self, offset: u64)
        ensures
            *final(self) == (StrandHeader { offset, ..*old(self) }),
    {
        self.offset = offset;
    }

    /// Replaces the statistics.
    pub fn set_stats(&mut self, stats: &Stats)
        ensures
            *final(self) == (StrandHeader { stats: *stats, ..*old(self) }),
    {
        self.stats = stats.clone();
    }

    /// Serialises the header into a fresh page.
    pub fn encode(&self) -> (r: Vec<u8>)
        ensures
            r@ == strand_header_bytes(*self),
            r@.len() == PAGE_SIZE,
    {
        proof {
            lemma_auto_spec_u64_to_from_le_bytes();
            lemma_auto_spec_u16_to_from_le_bytes();
        }
        let mut page: Vec<u8> = zero_vec(PAGE_SIZE as usize);
        put_u64(&mut page, 0, STRAND_MAGIC);
        put_u16(&mut page, 8, self.id);
        put_u64(&mut page, 10, self.capacity);
        put_u64(&mut page, 18, self.offset);
        put_u64(&mut page, 26, self.stats.read_bytes);
        put_u64(&mut page, 34, self.stats.written_bytes);
        put_u64(&mut page, 42, self.stats.trimmed_bytes);
        put_u64(&mut page, 50, self.stats.buffer_read_bytes);
        put_u64(&mut page, 58, self.stats.buffer_written_bytes);
        put_u64(&mut page, 66, self.stats.valid_items);
        put_u64(&mut page, 74, self.stats.deleted_items);
        let check: u64 = (((STRAND_MAGIC ^ (self.id as u64)) ^ self.capacity ^ self.offset) ^ (
        self.stats.read_bytes ^ self.stats.written_bytes ^ self.stats.trimmed_bytes)) ^ (
        self.stats.buffer_read_bytes ^ self.stats.buffer_written_bytes ^ self.stats.valid_items
            ^ self.stats.deleted_items);
        put_u64(&mut page, 82, check);
        proof {
            vstd::assert_seqs_equal!(page@ == strand_header_bytes(*self));
        }
        page
    }

    /// Reads a header back from a page.  Fails with [`Error::Corrupt`]
    /// when the page is not the encoding of any header.
    pub fn decode(page: &[u8]) -> (r: Result<StrandHeader, Error>)
        requires
            page@.len() == PAGE_SIZE,
        ensures
            match r {
                Ok(h) => spec_decode_strand_header(page@) == Some(h),
                Err(e) => e is Corrupt && spec_decode_strand_header(page@) is None,
            },
    {
        proof {
            lemma_auto_spec_u64_to_from_le_bytes();
            lemma_auto_spec_u16_to_from_le_bytes();
        }
        let magic: u64 = get_u64(page, 0);
        let id: u16 = get_u16(page, 8);
        let capacity: u64 = get_u64(page, 10);
        let offset: u64 = get_u64(page, 18);
        let stats = Stats {
            read_bytes: get_u64(page, 26),
            written_bytes: get_u64(page, 34),
            trimmed_bytes: get_u64(page, 42),
            buffer_read_bytes: get_u64(page, 50),
            buffer_written_bytes: get_u64(page, 58),
            valid_items: get_u64(page, 66),
            deleted_items: get_u64(page, 74),
        };
        let check: u64 = get_u64(page, 82);
        let h = StrandHeader { id, capacity, offset, stats };
        proof {
            lemma_strand_header_bytes_fields(h);
            if page@ == strand_header_bytes(h) {
                assert(magic == STRAND_MAGIC);
                assert(check == spec_strand_check(h));
            }
        }
        let computed: u64 = (((STRAND_MAGIC ^ (id as u64)) ^ capacity ^ offset) ^ (
        h.stats.read_bytes ^ h.stats.written_bytes ^ h.stats.trimmed_bytes)) ^ (
        h.stats.buffer_read_bytes ^ h.stats.buffer_written_bytes ^ h.stats.valid_items
            ^ h.stats.deleted_items);
        if magic != STRAND_MAGIC || check != computed {
            return Err(Error::Corrupt);
        }
        let mut i: usize = 90;
        while i < PAGE_SIZE as usize
            invariant
                90 <= i <= PAGE_SIZE,
                page@.len() == PAGE_SIZE,
                forall|j: int| 90 <= j < i ==> page@[j] == 0,
                magic == STRAND_MAGIC,
                check == spec_strand_check(h),
                magic == spec_u64_from_le_bytes(page@.subrange(0, 8)),
                check == spec_u64_from_le_bytes(page@.subrange(82, 90)),
                h == spec_candidate_strand_header(page@),
            decreases PAGE_SIZE - i,
        {
            if page[i] != 0 {
                proof {
                    lemma_strand_header_bytes_fields(h);
                }
                return Err(Error::Corrupt);
            }
            i = i + 1;
        }
        proof {
            lemma_strand_header_bytes_fields(h);
            vstd::assert_seqs_equal!(page@ == strand_header_bytes(h));
        }
        Ok(h)
    }
}


/// Corruption is detected: a page differing in any single byte from
/// the encoding of a strand header is the encoding of no header at
/// all, so [`StrandHeader::decode`] rejects it and reopening a volume
/// over it fails with [`Error::Corrupt`].
pub proof fn law_strand_header_corruption(h: StrandHeader, i: int, b: u8)
    requires
        0 <= i < PAGE_SIZE,
        b != strand_header_bytes(h)[i],
    ensures
        spec_decode_strand_header(strand_header_bytes(h).update(i, b)) is None,
{
    lemma_auto_spec_u64_to_from_le_bytes();
    lemma_auto_spec_u16_to_from_le_bytes();
    lemma_strand_header_bytes_fields(h);
    let page0 = strand_header_bytes(h);
    let page = page0.update(i, b);
    if spec_decode_strand_header(page) is Some {
        let h2 = spec_candidate_strand_header(page);
        assert(page == strand_header_bytes(h2));
        lemma_strand_header_bytes_fields(h2);
        if !(8 <= i < 10) {
            assert(page.subrange(8, 10) =~= page0.subrange(8, 10));
            assert(h2.id == h.id);
        }
        if !(10 <= i < 18) {
            assert(page.subrange(10, 18) =~= page0.subrange(10, 18));
            assert(h2.capacity == h.capacity);
        }
        if !(18 <= i < 26) {
            assert(page.subrange(18, 26) =~= page0.subrange(18, 26));
            assert(h2.offset == h.offset);
        }
        if !(26 <= i < 34) {
            assert(page.subrange(26, 34) =~= page0.subrange(26, 34));
            assert(h2.stats.read_bytes == h.stats.read_bytes);
        }
        if !(34 <= i < 42) {
            assert(page.subrange(34, 42) =~= page0.subrange(34, 42));
            assert(h2.stats.written_bytes == h.stats.written_bytes);
        }
        if !(42 <= i < 50) {
            assert(page.subrange(42, 50) =~= page0.subrange(42, 50));
            assert(h2.stats.trimmed_bytes == h.stats.trimmed_bytes);
        }
        if !(50 <= i < 58) {
            assert(page.subrange(50, 58) =~= page0.subrange(50, 58));
            assert(h2.stats.buffer_read_bytes == h.stats.buffer_read_bytes);
        }
        if !(58 <= i < 66) {
            assert(page.subrange(58, 66) =~= page0.subrange(58, 66));
            assert(h2.stats.buffer_written_bytes == h.stats.buffer_written_bytes);
        }
        if !(66 <= i < 74) {
            assert(page.subrange(66, 74) =~= page0.subrange(66, 74));
            assert(h2.stats.valid_items == h.stats.valid_items);
        }
        if !(74 <= i < 82) {
            assert(page.subrange(74, 82) =~= page0.subrange(74, 82));
            assert(h2.stats.deleted_items == h.stats.deleted_items);
        }
        if !(0 <= i < 8) {
            assert(page.subrange(0, 8) =~= page0.subrange(0, 8));
        }
        if !(82 <= i < 90) {
            assert(page.subrange(82, 90) =~= page0.subrange(82, 90));
            assert(spec_strand_check(h2) == spec_strand_check(h));
        }
        let a = h.id as u64;
        let a2 = h2.id as u64;
        let ca = h.capacity;
        let ca2 = h2.capacity;
        let of = h.offset;
        let of2 = h2.offset;
        let rb = h.stats.read_bytes;
        let rb2 = h2.stats.read_bytes;
        let wb = h.stats.written_bytes;
        let wb2 = h2.stats.written_bytes;
        let tb = h.stats.trimmed_bytes;
        let tb2 = h2.stats.trimmed_bytes;
        let br = h.stats.buffer_read_bytes;
        let br2 = h2.stats.buffer_read_bytes;
        let bw = h.stats.buffer_written_bytes;
        let bw2 = h2.stats.buffer_written_bytes;
        let vi = h.stats.valid_items;
        let vi2 = h2.stats.valid_items;
        let di = h.stats.deleted_items;
        let di2 = h2.stats.deleted_items;
        if 90 <= i {
            assert(page[i] == 0);
            assert(page0[i] == 0);
        } else if i < 8 {
            assert(page.subrange(0, 8)[i] == page[i]);
            assert(page0.subrange(0, 8)[i] == page0[i]);
        } else if 82 <= i {
            assert(h2 == h);
            assert(page[i] == page0[i]);
        } else {
            assert(spec_strand_check(h) == ((((STRAND_MAGIC ^ a) ^ ca ^ of) ^ (rb ^ wb ^ tb)) ^ (br ^ bw ^ vi ^ di)));
            assert(spec_strand_check(h2) == ((((STRAND_MAGIC ^ a2) ^ ca2 ^ of2) ^ (rb2 ^ wb2 ^ tb2)) ^ (br2 ^ bw2 ^ vi2 ^ di2)));
            if 8 <= i < 10 {
                assert(a2 == a) by (bit_vector)
                    requires
                        ((((STRAND_MAGIC ^ a2) ^ ca ^ of) ^ (rb ^ wb ^ tb)) ^ (br ^ bw ^ vi ^ di)) == ((((STRAND_MAGIC ^ a) ^ ca ^ of) ^ (rb ^ wb ^ tb)) ^ (br ^ bw ^ vi ^ di)),
                ;
                assert(h2.id == h.id);
            }
            if 10 <= i < 18 {
                assert(ca2 == ca) by (bit_vector)
                    requires
                        ((((STRAND_MAGIC ^ a) ^ ca2 ^ of) ^ (rb ^ wb ^ tb)) ^ (br ^ bw ^ vi ^ di)) == ((((STRAND_MAGIC ^ a) ^ ca ^ of) ^ (rb ^ wb ^ tb)) ^ (br ^ bw ^ vi ^ di)),
                ;
                assert(h2.capacity == h.capacity);
            }
            if 18 <= i < 26 {
                assert(of2 == of) by (bit_vector)
                    requires
                        ((((STRAND_MAGIC ^ a) ^ ca ^ of2) ^ (rb ^ wb ^ tb)) ^ (br ^ bw ^ vi ^ di)) == ((((STRAND_MAGIC ^ a) ^ ca ^ of) ^ (rb ^ wb ^ tb)) ^ (br ^ bw ^ vi ^ di)),
                ;
                assert(h2.offset == h.offset);
            }
            if 26 <= i < 34 {
                assert(rb2 == rb) by (bit_vector)
                    requires
                        ((((STRAND_MAGIC ^ a) ^ ca ^ of) ^ (rb2 ^ wb ^ tb)) ^ (br ^ bw ^ vi ^ di)) == ((((STRAND_MAGIC ^ a) ^ ca ^ of) ^ (rb ^ wb ^ tb)) ^ (br ^ bw ^ vi ^ di)),
                ;
                assert(h2.stats.read_bytes == h.stats.read_bytes);
            }
            if 34 <= i < 42 {
                assert(wb2 == wb) by (bit_vector)
                    requires
                        ((((STRAND_MAGIC ^ a) ^ ca ^ of) ^ (rb ^ wb2 ^ tb)) ^ (br ^ bw ^ vi ^ di)) == ((((STRAND_MAGIC ^ a) ^ ca ^ of) ^ (rb ^ wb ^ tb)) ^ (br ^ bw ^ vi ^ di)),
                ;
                assert(h2.stats.written_bytes == h.stats.written_bytes);
            }
            if 42 <= i < 50 {
                assert(tb2 == tb) by (bit_vector)
                    requires
                        ((((STRAND_MAGIC ^ a) ^ ca ^ of) ^ (rb ^ wb ^ tb2)) ^ (br ^ bw ^ vi ^ di)) == ((((STRAND_MAGIC ^ a) ^ ca ^ of) ^ (rb ^ wb ^ tb)) ^ (br ^ bw ^ vi ^ di)),
                ;
                assert(h2.stats.trimmed_bytes == h.stats.trimmed_bytes);
            }
            if 50 <= i < 58 {
                assert(br2 == br) by (bit_vector)
                    requires
                        ((((STRAND_MAGIC ^ a) ^ ca ^ of) ^ (rb ^ wb ^ tb)) ^ (br2 ^ bw ^ vi ^ di)) == ((((STRAND_MAGIC ^ a) ^ ca ^ of) ^ (rb ^ wb ^ tb)) ^ (br ^ bw ^ vi ^ di)),
                ;
                assert(h2.stats.buffer_read_bytes == h.stats.buffer_read_bytes);
            }
            if 58 <= i < 66 {
                assert(bw2 == bw) by (bit_vector)
                    requires
                        ((((STRAND_MAGIC ^ a) ^ ca ^ of) ^ (rb ^ wb ^ tb)) ^ (br ^ bw2 ^ vi ^ di)) == ((((STRAND_MAGIC ^ a) ^ ca ^ of) ^ (rb ^ wb ^ tb)) ^ (br ^ bw ^ vi ^ di)),
                ;
                assert(h2.stats.buffer_written_bytes == h.stats.buffer_written_bytes);
            }
            if 66 <= i < 74 {
                assert(vi2 == vi) by (bit_vector)
                    requires
                        ((((STRAND_MAGIC ^ a) ^ ca ^ of) ^ (rb ^ wb ^ tb)) ^ (br ^ bw ^ vi2 ^ di)) == ((((STRAND_MAGIC ^ a) ^ ca ^ of) ^ (rb ^ wb ^ tb)) ^ (br ^ bw ^ vi ^ di)),
                ;
                assert(h2.stats.valid_items == h.stats.valid_items);
            }
            if 74 <= i < 82 {
                assert(di2 == di) by (bit_vector)
                    requires
                        ((((STRAND_MAGIC ^ a) ^ ca ^ of) ^ (rb ^ wb ^ tb)) ^ (br ^ bw ^ vi ^ di2)) == ((((STRAND_MAGIC ^ a) ^ ca ^ of) ^ (rb ^ wb ^ tb)) ^ (br ^ bw ^ vi ^ di)),
                ;
                assert(h2.stats.deleted_items == h.stats.deleted_items);
            }
            assert(h2 == h);
            assert(page[i] == page0[i]);
        }
        assert(false);
    }
}

/// The header value whose fields are read off a page, before any check.
pub open spec fn spec_candidate_strand_header(page: Seq<u8>) -> StrandHeader {
    StrandHeader {
        id: spec_u16_from_le_bytes(page.subrange(8, 10)),
        capacity: spec_u64_from_le_bytes(page.subrange(10, 18)),
        offset: spec_u64_from_le_bytes(page.subrange(18, 26)),
        stats: Stats {
            read_bytes: spec_u64_from_le_bytes(page.subrange(26, 34)),
            written_bytes: spec_u64_from_le_bytes(page.subrange(34, 42)),
            trimmed_bytes: spec_u64_from_le_bytes(page.subrange(42, 50)),
            buffer_read_bytes: spec_u64_from_le_bytes(page.subrange(50, 58)),
            buffer_written_bytes: spec_u64_from_le_bytes(page.subrange(58, 66)),
            valid_items: spec_u64_from_le_bytes(page.subrange(66, 74)),
            deleted_items: spec_u64_from_le_bytes(page.subrange(74, 82)),
        },
    }
}

} // verus!
