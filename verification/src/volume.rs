//! The volume: the whole device, partitioned into strands.
//!
//! The volume owns the device and a fixed ordered array of strands
//! chosen at creation time.  Reads are routed by pointer to the strand
//! containing it; writes rotate over the strands.  Page 0 of the
//! device holds the volume header.

use vstd::prelude::*;

use crate::deleted::Deleted;
use crate::device::Memory;
use crate::error::Error;
use crate::header::{spec_decode_volume_header, volume_header_bytes, VolumeHeader};
use crate::index::Index;
use crate::item::{
    encode_item, item_bytes, read_item, read_item_header, spec_item_end, spec_item_header_ok,
};
use crate::item::Item;
use crate::io::StrandWriter;
use crate::options::{OpenMode, OpenOptions};
use crate::serial::zero_vec;
use crate::state::DatastoreState;
use crate::stats::{spec_stats_add, Stats};
use crate::strand::{spec_load_strand, Strand};
use crate::utils::{align, block_align, lemma_mul_multiple_aligned, spec_align_down};
use crate::{FilePointer, MAX_KEY_LEN, MAX_VAL_LEN, MIN_STRANDS, PAGE_SIZE, VERSION_MAJOR, VERSION_MINOR, VERSION_PATCH};

verus! {

/// Relies on `num_cpus::get` for the processor count that sizes the
/// default strand count; nothing is assumed of the value.
#[verifier::external_body]
fn cpu_count() -> usize {
    num_cpus::get()
}

/// The strands are well formed, sit past the volume header page, and
/// are pairwise disjoint in increasing order.
pub open spec fn strands_wf(strands: Seq<Strand>, dlen: int) -> bool {
    &&& strands.len() >= 1
    &&& forall|i: int| 0 <= i < strands.len() ==> (#[trigger] strands[i]).wf(dlen)
    &&& forall|i: int| 0 <= i < strands.len() ==> (#[trigger] strands[i]).start >= PAGE_SIZE
    &&& forall|i: int, j: int|
        0 <= i < j < strands.len() ==> (#[trigger] strands[i]).start + strands[i].capacity <= (
        #[trigger] strands[j]).start
}

/// `p` points at a well-formed record lying entirely inside the
/// logged region of some strand.
pub open spec fn entry_ok(dev: Seq<u8>, strands: Seq<Strand>, p: FilePointer) -> bool {
    exists|i: int|
        {
            &&& 0 <= i < strands.len()
            &&& (#[trigger] strands[i]).start + PAGE_SIZE <= p
            &&& spec_item_header_ok(dev, p as int)
            &&& spec_item_end(dev, p as int) <= strands[i].start + strands[i].offset
        }
}

/// `p` lies inside the logged region of some strand.
pub open spec fn ptr_logged(strands: Seq<Strand>, p: FilePointer) -> bool {
    exists|i: int|
        {
            &&& 0 <= i < strands.len()
            &&& (#[trigger] strands[i]).start + PAGE_SIZE <= p
            &&& p < strands[i].start + strands[i].offset
        }
}

/// The even, page-aligned strand size a device of `cap` bytes is cut
/// into when partitioned into `count` strands.
pub open spec fn spec_strand_size(cap: int, count: int) -> int {
    spec_align_down(cap / count, PAGE_SIZE as int)
}

/// Where strand `i` of that partition begins.
pub open spec fn spec_strand_start(cap: int, count: int, i: int) -> int {
    i * spec_strand_size(cap, count) + PAGE_SIZE
}

/// How long strand `i` of that partition is: the even size, or what
/// is left of the device for the last strand.
pub open spec fn spec_strand_len(cap: int, count: int, i: int) -> int {
    if spec_strand_size(cap, count) < cap - spec_strand_start(cap, count, i) {
        spec_strand_size(cap, count)
    } else {
        cap - spec_strand_start(cap, count, i)
    }
}

/// Every strand of the partition carries a valid header on the
/// device, consistent with its place.
pub open spec fn spec_strands_load_ok(dev: Seq<u8>, count: int) -> bool {
    let cap = dev.len() as int;
    &&& spec_strand_size(cap, count) >= 3 * PAGE_SIZE
    &&& (forall|i: int|
        0 <= i < count ==> spec_load_strand(
            dev,
            i as u16,
            spec_strand_start(cap, count, i) as u64,
            spec_strand_len(cap, count, i) as u64,
        ) is Some)
}

/// The device page at the strand's start holds the strand's own
/// header: right id, capacity and cursor, with some statistics.
pub open spec fn strand_header_pinned(dev: Seq<u8>, s: Strand) -> bool {
    exists|st: Stats|
        dev.subrange(s.start as int, s.start + PAGE_SIZE)
            == #[trigger] crate::header::strand_header_bytes(
            crate::header::StrandHeader { id: s.id, capacity: s.capacity, offset: s.offset, stats: st },
        )
}

/// Sum of the strand capacities.
pub open spec fn strands_capacity_sum(strands: Seq<Strand>) -> int
    decreases strands.len(),
{
    if strands.len() == 0 {
        0
    } else {
        strands_capacity_sum(strands.drop_last()) + strands.last().capacity
    }
}

/// Field-wise sum of the strand statistics.
pub open spec fn strands_stats_sum(strands: Seq<Strand>) -> Stats
    decreases strands.len(),
{
    if strands.len() == 0 {
        Stats::spec_zero()
    } else {
        spec_stats_add(strands_stats_sum(strands.drop_last()), strands.last().stats)
    }
}

/// Disjoint ordered strands cover at most the device past its header
/// page: the sum of their capacities is bounded by the device length
/// less one page.
pub proof fn lemma_strand_coverage(strands: Seq<Strand>, dlen: int)
    requires
        strands_wf(strands, dlen),
    ensures
        strands_capacity_sum(strands) <= dlen - PAGE_SIZE,
        forall|i: int|
            0 <= i < strands.len() ==> (#[trigger] strands[i]).start % (PAGE_SIZE as u64) == 0 && (
            strands[i]).capacity % (PAGE_SIZE as u64) == 0,
    decreases strands.len(),
{
    let last = strands[strands.len() - 1];
    assert(last.wf(dlen));
    assert(last.start >= PAGE_SIZE);
    if strands.len() == 1 {
        assert(strands.drop_last().len() == 0);
        assert(strands_capacity_sum(strands.drop_last()) == 0);
        assert(strands_capacity_sum(strands) == last.capacity);
    } else {
        let head = strands.drop_last();
        assert(strands_wf(head, last.start as int)) by {
            assert(forall|i: int| 0 <= i < head.len() ==> head[i] == strands[i]);
            assert forall|i: int| 0 <= i < head.len() implies (#[trigger] head[i]).wf(
                last.start as int,
            ) by {
                assert(strands[i].wf(dlen));
                assert(strands[i].start + strands[i].capacity <= last.start);
            }
            assert forall|i: int| 0 <= i < head.len() implies (#[trigger] head[i]).start
                >= PAGE_SIZE by {
                assert(strands[i].start >= PAGE_SIZE);
            }
        }
        lemma_strand_coverage(head, last.start as int);
    }
}

/// The result of opening a volume in read mode: the persisted index
/// and deleted set, when a snapshot was found.
#[derive(Debug)]
pub struct VolumeState {
    inner: Option<(Index, Deleted)>,
}

impl VolumeState {
    /// The loaded index and deleted set.
    pub closed spec fn spec_inner(&self) -> Option<(Index, Deleted)> {
        self.inner
    }

    /// Wraps a loaded state.
    pub fn new(index: Index, deleted: Deleted) -> (r: VolumeState)
        ensures
            r.spec_inner() == Some((index, deleted)),
    {
        VolumeState { inner: Some((index, deleted)) }
    }

    /// An empty state, for volumes without a snapshot.
    pub fn empty() -> (r: VolumeState)
        ensures
            r.spec_inner() is None,
    {
        VolumeState { inner: None }
    }

    /// Takes the index and deleted set, or fresh empty ones.
    pub fn extract(self) -> (r: (Index, Deleted))
        ensures
            match self.spec_inner() {
                Some(st) => r == st,
                None => {
                    &&& r.0.wf()
                    &&& r.0.view() == Seq::<(Seq<u8>, FilePointer)>::empty()
                    &&& r.1.wf()
                    &&& r.1.view() == Seq::<FilePointer>::empty()
                },
            },
    {
        match self.inner {
            Some(st) => st,
            None => (Index::new(), Deleted::new()),
        }
    }
}

/// The device with its strand partition.
#[derive(Debug)]
pub struct Volume {
    /// The underlying device.
    pub device: Memory,
    /// The strand partition, ordered by start offset.
    pub strands: Vec<Strand>,
    /// The strand the next write will try.
    pub next: usize,
}

impl Volume {
    /// The bytes of the underlying device.
    pub open spec fn dev(&self) -> Seq<u8> {
        self.device.contents()
    }

    /// The device is sound and the strands partition it.
    pub open spec fn wf(&self) -> bool {
        &&& self.device.wf()
        &&& strands_wf(self.strands@, self.dev().len() as int)
        &&& self.next < self.strands@.len()
    }

    /// Computes the strand count for a fresh volume.
    fn strand_count(capacity: u64, options: &OpenOptions) -> (r: Result<u16, Error>)
        ensures
            match options.strands {
                Some(x) => (r matches Ok(c) && c == x && x >= MIN_STRANDS) || (r matches Err(e)
                    && e is BadArgument && x < MIN_STRANDS),
                None => r matches Ok(c) && c >= MIN_STRANDS,
            },
    {
        match options.strands {
            Some(x) => {
                if x < MIN_STRANDS {
                    Err(Error::BadArgument("too few strands were specified"))
                } else {
                    Ok(x)
                }
            },
            None => {
                let cores: usize = cpu_count();
                let cores64: u64 = if cores as u64 > 65535 {
                    65535
                } else {
                    cores as u64
                };
                let gib: u64 = capacity / 1073741824;
                let gib_capped: u64 = if gib > 65535 {
                    65535
                } else {
                    gib
                };
                proof {
                    assert(8 * (cores64 as int) * (gib_capped as int) <= 34358689800int)
                        by (nonlinear_arith)
                        requires
                            cores64 <= 65535,
                            gib_capped <= 65535,
                    ;
                }
                let raw: u64 = 8 * cores64 * gib_capped;
                let clamped: u64 = if raw < MIN_STRANDS as u64 {
                    MIN_STRANDS as u64
                } else if raw > 65535 {
                    65535
                } else {
                    raw
                };
                Ok(clamped as u16)
            },
        }
    }

    /// Builds the strand partition over the device.
    ///
    /// Strand `i` starts at `i * size + PAGE_SIZE` where `size` is the
    /// device capacity divided evenly and aligned down to a page; the
    /// last strand absorbs the remainder.
    fn build_strands(device: &mut Memory, count: u16, read_disk: bool) -> (r: Result<
        Vec<Strand>,
        Error,
    >)
        requires
            old(device).wf(),
            count >= 1,
        ensures
            final(device).wf(),
            final(device).contents().len() == old(device).contents().len(),
            read_disk ==> final(device).contents() == old(device).contents(),
            match r {
                Ok(strands) => {
                    &&& strands_wf(strands@, final(device).contents().len() as int)
                    &&& strands@.len() == count
                    &&& spec_strand_size(old(device).contents().len() as int, count as int) >= 3
                        * PAGE_SIZE
                    &&& (read_disk ==> spec_strands_load_ok(
                        old(device).contents(),
                        count as int,
                    ))
                    &&& (!read_disk ==> forall|i: int|
                        0 <= i < strands@.len() ==> (#[trigger] strands@[i]).offset == PAGE_SIZE)
                },
                Err(e) => {
                    &&& (e is BadArgument || e is Corrupt)
                    &&& (read_disk ==> e is Corrupt && !spec_strands_load_ok(
                        old(device).contents(),
                        count as int,
                    ))
                    &&& (!read_disk ==> e is BadArgument && final(device).contents() == old(
                        device,
                    ).contents() && spec_strand_size(old(device).contents().len() as int, count as int)
                        < 3 * PAGE_SIZE)
                },
            },
    {
        let capacity: u64 = device.capacity();
        let size: u64 = align(capacity / (count as u64));
        if size < 3 * PAGE_SIZE {
            if read_disk {
                return Err(Error::Corrupt);
            }
            return Err(Error::BadArgument("device too small for this many strands"));
        }
        proof {
            lemma_count_size_fit(capacity as int, count as int, size as int);
        }
        let mut strands: Vec<Strand> = Vec::new();
        let mut i: u16 = 0;
        let ghost dev0 = device.contents();
        while i < count
            invariant
                device.wf(),
                device.contents().len() == dev0.len(),
                read_disk ==> device.contents() == dev0,
                dev0 == old(device).contents(),
                i <= count,
                strands@.len() == i,
                size % PAGE_SIZE == 0,
                size >= 3 * PAGE_SIZE,
                (count as int) * (size as int) <= capacity,
                capacity == device.contents().len(),
                capacity % PAGE_SIZE == 0,
                forall|j: int|
                    0 <= j < strands@.len() ==> (#[trigger] strands@[j]).start == j * (
                    size as int) + PAGE_SIZE,
                forall|j: int|
                    0 <= j < strands@.len() ==> (#[trigger] strands@[j]).capacity <= size,
                forall|j: int|
                    0 <= j < strands@.len() ==> (#[trigger] strands@[j]).wf(
                        device.contents().len() as int,
                    ),
                !read_disk ==> forall|j: int|
                    0 <= j < strands@.len() ==> (#[trigger] strands@[j]).offset == PAGE_SIZE,
                size == spec_strand_size(capacity as int, count as int),
                read_disk ==> forall|j: int|
                    0 <= j < i ==> spec_load_strand(
                        dev0,
                        j as u16,
                        spec_strand_start(capacity as int, count as int, j) as u64,
                        spec_strand_len(capacity as int, count as int, j) as u64,
                    ) is Some,
            decreases count - i,
        {
            proof {
                lemma_strand_slot(capacity as int, count as int, size as int, i as int);
                lemma_mul_multiple_aligned(i as int, size as int, PAGE_SIZE as int);
                vstd::arithmetic::div_mod::lemma_mod_add_multiples_vanish(
                    (i as int) * (size as int),
                    PAGE_SIZE as int,
                );
            }
            let start: u64 = (i as u64) * size + PAGE_SIZE;
            let rest: u64 = capacity - start;
            let len: u64 = if size < rest {
                size
            } else {
                rest
            };
            proof {
                vstd::arithmetic::div_mod::lemma_sub_mod_noop(
                    capacity as int,
                    start as int,
                    PAGE_SIZE as int,
                );
            }
            proof {
                assert(start == spec_strand_start(capacity as int, count as int, i as int));
                assert(len == spec_strand_len(capacity as int, count as int, i as int));
            }
            let strand: Strand = match Strand::new(device, i, start, len, read_disk) {
                Ok(s) => s,
                Err(_) => {
                    return Err(Error::Corrupt);
                },
            };
            strands.push(strand);
            i = i + 1;
        }
        proof {
            assert forall|a: int, b: int|
                0 <= a < b < strands@.len() implies (#[trigger] strands@[a]).start + strands@[a].capacity
                <= (#[trigger] strands@[b]).start by {
                vstd::arithmetic::mul::lemma_mul_is_distributive_add_other_way(
                    size as int,
                    a,
                    1,
                );
                vstd::arithmetic::mul::lemma_mul_basics_3(size as int);
                vstd::arithmetic::mul::lemma_mul_inequality(a + 1, b, size as int);
            }
        }
        Ok(strands)
    }

    /// Opens a volume on the device.
    ///
    /// In read mode the volume header is validated and the persisted
    /// datastore state is loaded; in create mode the device is
    /// formatted afresh; truncate mode first discards the whole
    /// device.
    pub fn open(device: Memory, options: &OpenOptions) -> (r: Result<(Volume, VolumeState), Error>)
        requires
            device.wf(),
            device.contents().len() >= PAGE_SIZE,
        ensures
            match r {
                Ok(vs) => {
                    &&& vs.0.wf()
                    &&& (match vs.1.spec_inner() {
                        Some(st) => st.0.wf() && st.1.wf(),
                        None => true,
                    })
                    &&& (options.mode is Read ==> match spec_decode_volume_header(
                        device.contents().subrange(0, PAGE_SIZE as int),
                    ) {
                        Some(h) => {
                            &&& h.major == VERSION_MAJOR
                            &&& h.strands >= MIN_STRANDS
                            &&& (h.state_ptr == 0 ==> vs.1.spec_inner() is None)
                            &&& (h.state_ptr != 0 ==> (vs.1.spec_inner() matches Some(st) && {
                                let snap = crate::state::state_bytes(st.0.view(), st.1.view());
                                &&& h.state_ptr + snap.len() <= device.contents().len()
                                &&& device.contents().subrange(
                                    h.state_ptr as int,
                                    h.state_ptr + snap.len(),
                                ) == snap
                            }))
                        },
                        None => false,
                    })
                    &&& (options.mode is Create || options.mode is Truncate) ==> {
                        &&& vs.1.spec_inner() is None
                        &&& vs.0.strands@.len() >= MIN_STRANDS
                        &&& spec_strand_size(
                            device.contents().len() as int,
                            vs.0.strands@.len() as int,
                        ) >= 3 * PAGE_SIZE
                        &&& (options.strands matches Some(x) ==> vs.0.strands@.len() == x)
                        &&& forall|i: int|
                            0 <= i < vs.0.strands@.len() ==> (#[trigger] vs.0.strands@[i]).offset
                                == PAGE_SIZE
                    }
                    &&& (options.mode is Read ==> !options.reindex)
                },
                Err(e) => {
                    &&& (options.mode is Read && options.reindex ==> e is Unimplemented)
                    &&& (options.mode is Read && !options.reindex
                        && spec_decode_volume_header(
                        device.contents().subrange(0, PAGE_SIZE as int),
                    ) is None ==> e is Corrupt)
                    &&& (options.mode is Read && !options.reindex
                        && (match spec_decode_volume_header(
                        device.contents().subrange(0, PAGE_SIZE as int),
                    ) {
                        Some(h) => h.major != VERSION_MAJOR,
                        None => false,
                    }) ==> e is IncompatibleVersion)
                    &&& (options.mode is Read && !options.reindex
                        && (match spec_decode_volume_header(
                        device.contents().subrange(0, PAGE_SIZE as int),
                    ) {
                        Some(h) => h.major == VERSION_MAJOR && h.strands < MIN_STRANDS,
                        None => false,
                    }) ==> e is Corrupt)
                    &&& (options.mode is Read && !options.reindex
                        && (match spec_decode_volume_header(
                        device.contents().subrange(0, PAGE_SIZE as int),
                    ) {
                        Some(h) => h.major == VERSION_MAJOR && h.strands >= MIN_STRANDS
                            && !spec_strands_load_ok(device.contents(), h.strands as int),
                        None => false,
                    }) ==> e is Corrupt)
                    &&& ((options.mode is Create || options.mode is Truncate) ==> e is BadArgument
                        && (match options.strands {
                        Some(x) => x < MIN_STRANDS || spec_strand_size(
                            device.contents().len() as int,
                            x as int,
                        ) < 3 * PAGE_SIZE,
                        None => true,
                    }))
                    &&& (options.mode is Read && !options.reindex
                        ==> match spec_decode_volume_header(
                        device.contents().subrange(0, PAGE_SIZE as int),
                    ) {
                        Some(h) => h.major != VERSION_MAJOR || h.strands < MIN_STRANDS
                            || !spec_strands_load_ok(device.contents(), h.strands as int)
                            || h.state_ptr != 0,
                        None => true,
                    })
                },
            },
    {
        match options.mode {
            OpenMode::Read => {
                if options.reindex {
                    return Err(Error::Unimplemented);
                }
                let mut device = device;
                let mut page: Vec<u8> = zero_vec(PAGE_SIZE as usize);
                match device.read(0, &mut page) {
                    Ok(_) => {},
                    Err(_) => {
                        return Err(Error::Io);
                    },
                };
                let header: VolumeHeader = match VolumeHeader::decode(page.as_slice()) {
                    Ok(h) => h,
                    Err(_) => {
                        return Err(Error::Corrupt);
                    },
                };
                if header.major != VERSION_MAJOR {
                    return Err(Error::IncompatibleVersion);
                }
                let count: u16 = header.get_strands();
                if count < MIN_STRANDS {
                    return Err(Error::Corrupt);
                }
                let mut strands: Vec<Strand> = match Self::build_strands(&mut device, count, true) {
                    Ok(s) => s,
                    Err(_) => {
                        return Err(Error::Corrupt);
                    },
                };
                let mut volume = Volume { device, strands, next: 0 };
                let state: VolumeState = match header.get_state_ptr() {
                    Some(ptr) => {
                        let si: usize = match volume.find_strand(ptr) {
                            Some(si) => si,
                            None => {
                                return Err(Error::Corrupt);
                            },
                        };
                        let mut sarc: Strand = volume.strands.remove(si);
                        let decoded: Result<DatastoreState, Error> = DatastoreState::decode(
                            &mut sarc,
                            &volume.device,
                            ptr,
                        );
                        volume.strands.insert(si, sarc);
                        let st: DatastoreState = match decoded {
                            Ok(st) => st,
                            Err(_) => {
                                return Err(Error::Corrupt);
                            },
                        };
                        VolumeState::new(st.index, st.deleted)
                    },
                    None => VolumeState::empty(),
                };
                Ok((volume, state))
            },
            _ => {
                let mut device = device;
                if matches!(options.mode, OpenMode::Truncate) {
                    let cap: u64 = device.capacity();
                    let trim_len: u64 = block_align(cap);
                    match device.trim(0, trim_len) {
                        Ok(_) => {},
                        Err(_) => {
                            return Err(Error::Io);
                        },
                    };
                }
                let count: u16 = match Self::strand_count(device.capacity(), options) {
                    Ok(c) => c,
                    Err(e) => {
                        return Err(e);
                    },
                };
                let header: VolumeHeader = VolumeHeader::new(count, None);
                let page: Vec<u8> = header.encode();
                match device.write(0, page.as_slice()) {
                    Ok(_) => {},
                    Err(_) => {
                        return Err(Error::Io);
                    },
                };
                let strands: Vec<Strand> = match Self::build_strands(&mut device, count, false) {
                    Ok(s) => s,
                    Err(e) => {
                        return Err(e);
                    },
                };
                Ok((Volume { device, strands, next: 0 }, VolumeState::empty()))
            },
        }
    }

    /// The position of the strand containing the absolute pointer.
    pub fn find_strand(&self, ptr: FilePointer) -> (r: Option<usize>)
        requires
            self.wf(),
        ensures
            match r {
                Some(i) => i < self.strands@.len() && self.strands@[i as int].start <= ptr
                    < self.strands@[i as int].start + self.strands@[i as int].capacity,
                None => forall|i: int|
                    0 <= i < self.strands@.len() ==> !((#[trigger] self.strands@[i]).start <= ptr
                        < self.strands@[i].start + self.strands@[i].capacity),
            },
    {
        let n: usize = self.strands.len();
        let mut i: usize = 0;
        while i < n
            invariant
                self.wf(),
                n == self.strands@.len(),
                i <= n,
                forall|j: int|
                    0 <= j < i ==> !((#[trigger] self.strands@[j]).start <= ptr
                        < self.strands@[j].start + self.strands@[j].capacity),
            decreases n - i,
        {
            let s: &Strand = &self.strands[i];
            if s.contains_ptr(ptr) {
                return Some(i);
            }
            i = i + 1;
        }
        None
    }

    /// Appends one record to the strand whose turn it is.
    ///
    /// The new record lands at the strand's append cursor; everything
    /// outside the record bytes and that strand's header page is
    /// untouched.  Fails with [`Error::OutOfSpace`], changing nothing,
    /// when the record does not fit the selected strand.
    pub fn write_item(&mut self, key: &[u8], val: &[u8]) -> (r: Result<FilePointer, Error>)
        requires
            old(self).wf(),
            1 <= key@.len() <= MAX_KEY_LEN,
            val@.len() <= MAX_VAL_LEN,
            32 + key@.len() + val@.len() <= usize::MAX,
        ensures
            final(self).wf(),
            final(self).dev().len() == old(self).dev().len(),
            final(self).strands@.len() == old(self).strands@.len(),
            final(self).next == ((old(self).next + 1) as int % (old(self).strands@.len() as int)),
            match r {
                Ok(p) => {
                    &&& {
                        let wi = old(self).next as int;
                        let s = old(self).strands@[wi];
                        let rec = item_bytes(key@, val@);
                        &&& p == s.start + s.offset
                        &&& s.offset + rec.len() <= s.capacity
                        &&& final(self).dev().subrange(p as int, p + rec.len()) == rec
                        &&& (forall|i: int|
                            0 <= i < old(self).dev().len() && !(p <= i < p + rec.len()) && !(
                            s.start <= i < s.start + PAGE_SIZE) ==> final(self).dev()[i] == old(self).dev()[i])
                        &&& final(self).strands@[wi].id == s.id
                        &&& final(self).strands@[wi].start == s.start
                        &&& final(self).strands@[wi].capacity == s.capacity
                        &&& final(self).strands@[wi].offset == s.offset + rec.len()
                        &&& strand_header_pinned(final(self).dev(), final(self).strands@[wi])
                        &&& (forall|j: int|
                            0 <= j < old(self).strands@.len() && j != wi ==> final(self).strands@[j] == old(self).strands@[j])
                    }
                },
                Err(e) => {
                    &&& e is OutOfSpace
                    &&& {
                        let wi = old(self).next as int;
                        let s = old(self).strands@[wi];
                        32 + key@.len() + val@.len() > s.capacity - s.offset
                    }
                    &&& final(self).dev() == old(self).dev()
                    &&& final(self).strands@ =~= old(self).strands@
                },
            },
    {
        let wi: usize = self.next;
        let n_strands: usize = self.strands.len();
        self.next = if self.next >= n_strands - 1 {
            0
        } else {
            self.next + 1
        };
        proof {
            assert(self.next == ((old(self).next + 1) as int % (old(self).strands@.len() as int)))
                by {
                if old(self).next >= old(self).strands@.len() - 1 {
                    assert((old(self).next + 1) as int % (old(self).strands@.len() as int) == 0)
                        by {
                        vstd::arithmetic::div_mod::lemma_mod_self_0(
                            old(self).strands@.len() as int,
                        );
                    }
                } else {
                    vstd::arithmetic::div_mod::lemma_small_mod(
                        (old(self).next + 1) as nat,
                        old(self).strands@.len() as nat,
                    );
                }
            }
        }
        let rec: Vec<u8> = encode_item(key, val);
        let mut strand: Strand = self.strands.remove(wi);
        let remaining: u64 = strand.get_capacity() - strand.get_offset();
        if rec.len() as u64 > remaining {
            self.strands.insert(wi, strand);
            proof {
                assert(self.strands@ =~= old(self).strands@);
            }
            return Err(Error::OutOfSpace);
        }
        strand.stats.valid_items = crate::stats::sat_add(strand.stats.valid_items, 1);
        let mut writer: StrandWriter = StrandWriter::new(&strand);
        let ptr: FilePointer = writer.get_pointer(&strand);
        let ghost dev0 = self.device.contents();
        let wrote: Result<(), Error> = writer.write_all(&mut strand, &mut self.device, rec.as_slice());
        match wrote {
            Ok(_) => {},
            Err(_) => {
                self.strands.insert(wi, strand);
                return Err(Error::OutOfSpace);
            },
        };
        let flushed: Result<(), Error> = writer.flush(&mut strand, &mut self.device);
        match flushed {
            Ok(_) => {},
            Err(_) => {
                self.strands.insert(wi, strand);
                return Err(Error::Io);
            },
        };
        let ghost dev1 = self.device.contents();
        let ghost s_mid = strand;
        let meta: Result<(), Error> = strand.write_metadata(&mut self.device);
        let ghost s_after = strand;
        match meta {
            Ok(_) => {},
            Err(_) => {
                self.strands.insert(wi, strand);
                return Err(Error::Io);
            },
        };
        self.strands.insert(wi, strand);
        proof {
            let wi_ = wi as int;
            let s = old(self).strands@[wi_];
            let p = ptr as int;
            crate::header::lemma_strand_header_bytes_len(s_mid.spec_header());
            crate::serial::lemma_update_subrange_inside(
                dev1,
                s.start as int,
                crate::header::strand_header_bytes(s_mid.spec_header()),
            );
            assert(s_after.id == s_mid.id && s_after.start == s_mid.start && s_after.capacity
                == s_mid.capacity && s_after.offset == s_mid.offset);
            assert(self.dev().subrange(s_after.start as int, s_after.start + PAGE_SIZE)
                == crate::header::strand_header_bytes(
                crate::header::StrandHeader {
                    id: s_after.id,
                    capacity: s_after.capacity,
                    offset: s_after.offset,
                    stats: s_mid.stats,
                },
            ));
            assert(strand_header_pinned(self.dev(), s_after));
            crate::serial::lemma_update_subrange_inside(dev0, p, rec@);
            crate::serial::lemma_update_subrange_outside(
                dev1,
                s.start as int,
                crate::header::strand_header_bytes(s_mid.spec_header()),
                p,
                p + rec@.len(),
            );
            assert(self.strands@ =~= old(self).strands@.update(wi_, s_after));
        }
        Ok(ptr)
    }

    /// Marks one logical deletion on the strand containing `ptr`.
    pub fn mark_deleted(&mut self, ptr: FilePointer)
        requires
            old(self).wf(),
            ptr_logged(old(self).strands@, ptr),
        ensures
            final(self).wf(),
            final(self).dev() == old(self).dev(),
            final(self).next == old(self).next,
            final(self).strands@.len() == old(self).strands@.len(),
            forall|j: int|
                0 <= j < old(self).strands@.len() ==> {
                    &&& (#[trigger] final(self).strands@[j]).spec_frame() == old(self).strands@[j].spec_frame()
                },
    {
        let si: Option<usize> = self.find_strand(ptr);
        match si {
            Some(i) => {
                let mut strand: Strand = self.strands.remove(i);
                strand.stats.deleted_items = crate::stats::sat_add(strand.stats.deleted_items, 1);
                self.strands.insert(i, strand);
                proof {
                    assert forall|j: int|
                        0 <= j < old(self).strands@.len() implies (#[trigger] self.strands@[j]).spec_frame()
                        == old(self).strands@[j].spec_frame() by {}
                }
            },
            None => {},
        }
    }

    /// Reads the whole record at `ptr`, which must point at a logged,
    /// well-formed record.
    pub fn read_item(&mut self, ptr: FilePointer) -> (r: Result<Item, Error>)
        requires
            old(self).wf(),
            entry_ok(old(self).dev(), old(self).strands@, ptr),
        ensures
            final(self).wf(),
            final(self).dev() == old(self).dev(),
            final(self).next == old(self).next,
            final(self).strands@.len() == old(self).strands@.len(),
            forall|j: int|
                0 <= j < old(self).strands@.len() ==> (#[trigger] final(self).strands@[j]).spec_frame() == old(self).strands@[j].spec_frame(),
            r matches Ok(item) && Some((item.key@, item.value@)) == crate::item::spec_item_at(
                old(self).dev(),
                ptr as int,
            ),
    {
        let si: Option<usize> = self.find_strand(ptr);
        let i: usize = match si {
            Some(i) => i,
            None => {
                proof {
                    let w = choose|w: int|
                        {
                            &&& 0 <= w < old(self).strands@.len()
                            &&& (#[trigger] old(self).strands@[w]).start + PAGE_SIZE <= ptr
                            &&& spec_item_header_ok(old(self).dev(), ptr as int)
                            &&& spec_item_end(old(self).dev(), ptr as int) <= old(self).strands@[w].start + old(self).strands@[w].offset
                        };
                    assert(old(self).strands@[w].start <= ptr < old(self).strands@[w].start + old(self).strands@[w].capacity);
                }
                return Err(Error::Corrupt);
            },
        };
        proof {
            let w = choose|w: int|
                {
                    &&& 0 <= w < old(self).strands@.len()
                    &&& (#[trigger] old(self).strands@[w]).start + PAGE_SIZE <= ptr
                    &&& spec_item_header_ok(old(self).dev(), ptr as int)
                    &&& spec_item_end(old(self).dev(), ptr as int) <= old(self).strands@[w].start
                        + old(self).strands@[w].offset
                };
            lemma_strand_of_ptr(old(self).strands@, self.dev().len() as int, w, i as int, ptr);
        }
        let mut strand: Strand = self.strands.remove(i);
        let r: Result<Item, Error> = read_item(&mut strand, &self.device, ptr);
        self.strands.insert(i, strand);
        proof {
            assert forall|j: int|
                0 <= j < old(self).strands@.len() implies (#[trigger] self.strands@[j]).spec_frame()
                == old(self).strands@[j].spec_frame() by {}
        }
        r
    }

    /// Reads and checks the record header at `ptr` inside strand
    /// `si`, returning the recorded key and value lengths.
    pub fn read_header(&mut self, si: usize, ptr: FilePointer) -> (r: Result<(u64, u64), Error>)
        requires
            old(self).wf(),
            si < old(self).strands@.len(),
            old(self).strands@[si as int].start <= ptr < old(self).strands@[si as int].start + old(
                self,
            ).strands@[si as int].capacity,
        ensures
            final(self).wf(),
            final(self).dev() == old(self).dev(),
            final(self).next == old(self).next,
            final(self).strands@.len() == old(self).strands@.len(),
            forall|j: int|
                0 <= j < old(self).strands@.len() ==> (#[trigger] final(self).strands@[j]).spec_frame()
                    == old(self).strands@[j].spec_frame(),
            match r {
                Ok(lens) => {
                    &&& ptr + 32 <= old(self).strands@[si as int].start + old(self).strands@[si as int].capacity
                    &&& spec_item_header_ok(old(self).dev(), ptr as int)
                    &&& lens.0 == crate::item::spec_item_klen(old(self).dev(), ptr as int)
                    &&& lens.1 == crate::item::spec_item_vlen(old(self).dev(), ptr as int)
                },
                Err(e) => {
                    &&& e is Corrupt
                    &&& (ptr + 32 > old(self).strands@[si as int].start + old(self).strands@[si as int].capacity
                        || !spec_item_header_ok(old(self).dev(), ptr as int))
                },
            },
    {
        let mut strand: Strand = self.strands.remove(si);
        let r: Result<(u64, u64), Error> = read_item_header(&mut strand, &self.device, ptr);
        self.strands.insert(si, strand);
        proof {
            assert forall|j: int|
                0 <= j < old(self).strands@.len() implies (#[trigger] self.strands@[j]).spec_frame()
                == old(self).strands@[j].spec_frame() by {}
        }
        r
    }

    /// Writes the datastore-state snapshot and finalises the volume:
    /// the snapshot lands past the append cursor of the strand whose
    /// turn it is, the volume header records its pointer, and every
    /// strand header is rewritten with its final cursor and
    /// statistics.  Returns the device.
    pub fn close(self, snapshot: &[u8]) -> (r: Result<Memory, Error>)
        requires
            self.wf(),
        ensures
            match r {
                Ok(d) => {
                    let ws = self.strands@[self.next as int];
                    let sp = ws.start + ws.offset;
                    &&& d.wf()
                    &&& d.contents().len() == self.dev().len()
                    &&& snapshot@.len() <= ws.capacity - ws.offset
                    &&& d.contents().subrange(sp as int, sp + snapshot@.len()) == snapshot@
                    &&& d.contents().subrange(0, PAGE_SIZE as int) == volume_header_bytes(
                        VolumeHeader {
                            major: VERSION_MAJOR,
                            minor: VERSION_MINOR,
                            patch: VERSION_PATCH,
                            strands: self.strands@.len() as u16,
                            state_ptr: sp as u64,
                        },
                    )
                    &&& (forall|p: FilePointer| #[trigger]
                        entry_ok(self.dev(), self.strands@, p) ==> crate::item::spec_item_at(
                            d.contents(),
                            p as int,
                        ) == crate::item::spec_item_at(self.dev(), p as int))
                    &&& (forall|j: int|
                        0 <= j < self.strands@.len() ==> strand_header_pinned(
                            d.contents(),
                            #[trigger] self.strands@[j],
                        ))
                },
                Err(e) => {
                    &&& e is OutOfSpace
                    &&& {
                        let ws = self.strands@[self.next as int];
                        snapshot@.len() > ws.capacity - ws.offset
                    }
                },
            },
    {
        let ghost dev_in = self.dev();
        let ghost strands_in = self.strands@;
        let mut volume = self;
        let wi: usize = volume.next;
        let mut strand: Strand = volume.strands.remove(wi);
        if snapshot.len() as u64 > strand.get_capacity() - strand.get_offset() {
            return Err(Error::OutOfSpace);
        }
        let mut writer: StrandWriter = StrandWriter::new(&strand);
        writer.update_offset = false;
        let state_ptr: FilePointer = writer.get_pointer(&strand);
        let wrote: Result<(), Error> = writer.write_all(&mut strand, &mut volume.device, snapshot);
        match wrote {
            Ok(_) => {},
            Err(_) => {
                proof {
                    assert(false);
                }
                return Err(Error::OutOfSpace);
            },
        };
        let flushed: Result<(), Error> = writer.flush(&mut strand, &mut volume.device);
        match flushed {
            Ok(_) => {},
            Err(_) => {
                proof {
                    assert(false);
                }
                return Err(Error::OutOfSpace);
            },
        };
        volume.strands.insert(wi, strand);
        proof {
            assert(volume.strands@.len() == strands_in.len());
            crate::serial::lemma_update_subrange_inside(dev_in, state_ptr as int, snapshot@);
            lemma_write_preserves(
                dev_in,
                volume.device.contents(),
                strands_in,
                strands_in,
                wi as int,
                state_ptr,
                snapshot@.len() as int,
            );
            assert forall|j: int|
                0 <= j < strands_in.len() implies (#[trigger] volume.strands@[j]).spec_frame()
                == strands_in[j].spec_frame() by {}
        }
        let ghost dev_snap = volume.device.contents();
        let count: u16 = volume.strands.len() as u16;
        let header: VolumeHeader = VolumeHeader::new(count, Some(state_ptr));
        let page: Vec<u8> = header.encode();
        proof {
            assert(volume.strands@[0].wf(volume.dev().len() as int));
            assert(volume.strands@[0].start >= PAGE_SIZE);
        }
        match volume.device.write(0, page.as_slice()) {
            Ok(_) => {},
            Err(_) => {
                proof {
                    assert(false);
                }
                return Err(Error::OutOfSpace);
            },
        };
        proof {
            lemma_header_page_write_preserves(
                dev_snap,
                volume.device.contents(),
                strands_in,
                0,
                page@,
            );
            crate::serial::lemma_update_subrange_inside(dev_snap, 0, page@);
            crate::serial::lemma_update_subrange_outside(
                dev_snap,
                0,
                page@,
                state_ptr as int,
                state_ptr + snapshot@.len(),
            );
        }
        let ghost hdr_bytes = page@;
        let n: usize = volume.strands.len();
        let mut i: usize = 0;
        while i < n
            invariant
                volume.device.wf(),
                volume.strands@.len() == n,
                i <= n,
                n == strands_in.len(),
                volume.device.contents().len() == dev_in.len(),
                forall|j: int|
                    0 <= j < n ==> (#[trigger] volume.strands@[j]).spec_frame()
                        == strands_in[j].spec_frame(),
                strands_wf(strands_in, dev_in.len() as int),
                state_ptr == strands_in[wi as int].start + strands_in[wi as int].offset,
                state_ptr + snapshot@.len() <= strands_in[wi as int].start
                    + strands_in[wi as int].capacity,
                wi < n,
                volume.device.contents().subrange(0, PAGE_SIZE as int) == hdr_bytes,
                hdr_bytes.len() == PAGE_SIZE,
                volume.device.contents().subrange(
                    state_ptr as int,
                    state_ptr + snapshot@.len(),
                ) == snapshot@,
                forall|p: FilePointer| #[trigger]
                    entry_ok(dev_in, strands_in, p) ==> crate::item::spec_item_at(
                        volume.device.contents(),
                        p as int,
                    ) == crate::item::spec_item_at(dev_in, p as int) && entry_ok(
                        volume.device.contents(),
                        strands_in,
                        p,
                    ),
                forall|j: int|
                    0 <= j < i ==> strand_header_pinned(
                        volume.device.contents(),
                        #[trigger] strands_in[j],
                    ),
            decreases n - i,
        {
            let ghost dev_iter = volume.device.contents();
            let mut s: Strand = volume.strands.remove(i);
            let ghost s_pre = s;
            match s.write_metadata(&mut volume.device) {
                Ok(_) => {},
                Err(_) => {
                    proof {
                        assert(false);
                    }
                    return Err(Error::OutOfSpace);
                },
            };
            volume.strands.insert(i, s);
            proof {
                let hdr = crate::header::strand_header_bytes(s_pre.spec_header());
                crate::header::lemma_strand_header_bytes_len(s_pre.spec_header());
                let si = strands_in[i as int];
                assert(si.wf(dev_in.len() as int));
                lemma_header_page_write_preserves(
                    dev_iter,
                    volume.device.contents(),
                    strands_in,
                    si.start as int,
                    hdr,
                );
                crate::serial::lemma_update_subrange_outside(
                    dev_iter,
                    si.start as int,
                    hdr,
                    0,
                    PAGE_SIZE as int,
                );
                assert(state_ptr as int >= strands_in[wi as int].start + PAGE_SIZE);
                if i == wi {
                    crate::serial::lemma_update_subrange_outside(
                        dev_iter,
                        si.start as int,
                        hdr,
                        state_ptr as int,
                        state_ptr + snapshot@.len(),
                    );
                } else if i < wi {
                    assert(si.start + si.capacity <= strands_in[wi as int].start);
                    crate::serial::lemma_update_subrange_outside(
                        dev_iter,
                        si.start as int,
                        hdr,
                        state_ptr as int,
                        state_ptr + snapshot@.len(),
                    );
                } else {
                    assert(strands_in[wi as int].start + strands_in[wi as int].capacity
                        <= si.start);
                    crate::serial::lemma_update_subrange_outside(
                        dev_iter,
                        si.start as int,
                        hdr,
                        state_ptr as int,
                        state_ptr + snapshot@.len(),
                    );
                }
                assert forall|j: int|
                    0 <= j < n implies (#[trigger] volume.strands@[j]).spec_frame()
                    == strands_in[j].spec_frame() by {}
                crate::serial::lemma_update_subrange_inside(dev_iter, si.start as int, hdr);
                assert(s_pre.spec_header() == crate::header::StrandHeader {
                    id: strands_in[i as int].id,
                    capacity: strands_in[i as int].capacity,
                    offset: strands_in[i as int].offset,
                    stats: s_pre.stats,
                });
                assert(volume.device.contents().subrange(
                    strands_in[i as int].start as int,
                    strands_in[i as int].start + PAGE_SIZE,
                ) == crate::header::strand_header_bytes(
                    crate::header::StrandHeader {
                        id: strands_in[i as int].id,
                        capacity: strands_in[i as int].capacity,
                        offset: strands_in[i as int].offset,
                        stats: s_pre.stats,
                    },
                ));
                assert(strand_header_pinned(volume.device.contents(), strands_in[i as int]));
                assert forall|j: int| 0 <= j < i implies strand_header_pinned(
                    volume.device.contents(),
                    #[trigger] strands_in[j],
                ) by {
                    let stj = choose|st: Stats|
                        dev_iter.subrange(
                            strands_in[j].start as int,
                            strands_in[j].start + PAGE_SIZE,
                        ) == #[trigger] crate::header::strand_header_bytes(
                            crate::header::StrandHeader {
                                id: strands_in[j].id,
                                capacity: strands_in[j].capacity,
                                offset: strands_in[j].offset,
                                stats: st,
                            },
                        );
                    assert(strands_in[j].wf(dev_in.len() as int));
                    assert(strands_in[j].start + strands_in[j].capacity <= si.start);
                    crate::serial::lemma_update_subrange_outside(
                        dev_iter,
                        si.start as int,
                        hdr,
                        strands_in[j].start as int,
                        strands_in[j].start + PAGE_SIZE,
                    );
                    assert(volume.device.contents().subrange(
                        strands_in[j].start as int,
                        strands_in[j].start + PAGE_SIZE,
                    ) == crate::header::strand_header_bytes(
                        crate::header::StrandHeader {
                            id: strands_in[j].id,
                            capacity: strands_in[j].capacity,
                            offset: strands_in[j].offset,
                            stats: stj,
                        },
                    ));
                    assert(strand_header_pinned(volume.device.contents(), strands_in[j]));
                }
            }
            i = i + 1;
        }
        Ok(volume.device)
    }

    /// Folds the per-strand statistics into one record.
    pub fn stats(&self) -> (r: Stats)
        ensures
            r == strands_stats_sum(self.strands@),
    {
        let mut total: Stats = Stats::zero();
        let n: usize = self.strands.len();
        let mut i: usize = 0;
        while i < n
            invariant
                n == self.strands@.len(),
                i <= n,
                total == strands_stats_sum(self.strands@.take(i as int)),
            decreases n - i,
        {
            total.add(&self.strands[i].stats);
            proof {
                assert(self.strands@.take(i + 1).drop_last() =~= self.strands@.take(i as int));
                assert(self.strands@.take(i + 1).last() == self.strands@[i as int]);
            }
            i = i + 1;
        }
        proof {
            assert(self.strands@.take(n as int) =~= self.strands@);
        }
        total
    }
}

/// A logged record pointer is itself inside the logged region.
pub proof fn lemma_entry_ok_logged(dev: Seq<u8>, strands: Seq<Strand>, p: FilePointer)
    requires
        entry_ok(dev, strands, p),
    ensures
        ptr_logged(strands, p),
{
    let i = choose|i: int|
        {
            &&& 0 <= i < strands.len()
            &&& (#[trigger] strands[i]).start + PAGE_SIZE <= p
            &&& spec_item_header_ok(dev, p as int)
            &&& spec_item_end(dev, p as int) <= strands[i].start + strands[i].offset
        };
    assert(p < strands[i].start + strands[i].offset);
}

/// Appending a record at the head of one strand's log leaves every
/// logged record intact: its bytes, and so the item it stores, do not
/// change, and no logged pointer equals the fresh one.
pub proof fn lemma_write_preserves(
    dev0: Seq<u8>,
    dev1: Seq<u8>,
    strands0: Seq<Strand>,
    strands1: Seq<Strand>,
    wi: int,
    p: FilePointer,
    rlen: int,
)
    requires
        strands_wf(strands0, dev0.len() as int),
        dev1.len() == dev0.len(),
        0 <= wi < strands0.len(),
        p == strands0[wi].start + strands0[wi].offset,
        0 <= rlen,
        p + rlen <= strands0[wi].start + strands0[wi].capacity,
        forall|i: int|
            0 <= i < dev0.len() && !(p <= i < p + rlen) && !(strands0[wi].start <= i < strands0[wi].start
                + PAGE_SIZE) ==> dev1[i] == dev0[i],
        strands1.len() == strands0.len(),
        strands1[wi].start == strands0[wi].start,
        strands1[wi].capacity == strands0[wi].capacity,
        strands1[wi].offset >= strands0[wi].offset,
        forall|j: int| 0 <= j < strands0.len() && j != wi ==> strands1[j] == strands0[j],
    ensures
        forall|q: FilePointer| #[trigger]
            entry_ok(dev0, strands0, q) ==> entry_ok(dev1, strands1, q) && crate::item::spec_item_at(
                dev1,
                q as int,
            ) == crate::item::spec_item_at(dev0, q as int),
        forall|q: FilePointer| #[trigger] ptr_logged(strands0, q) ==> ptr_logged(strands1, q),
        forall|q: FilePointer| #[trigger] ptr_logged(strands0, q) ==> q != p,
{
    assert forall|q: FilePointer| #[trigger] entry_ok(dev0, strands0, q) implies entry_ok(
        dev1,
        strands1,
        q,
    ) && crate::item::spec_item_at(dev1, q as int) == crate::item::spec_item_at(
        dev0,
        q as int,
    ) by {
        let i = choose|i: int|
            {
                &&& 0 <= i < strands0.len()
                &&& (#[trigger] strands0[i]).start + PAGE_SIZE <= q
                &&& spec_item_header_ok(dev0, q as int)
                &&& spec_item_end(dev0, q as int) <= strands0[i].start + strands0[i].offset
            };
        let qend = spec_item_end(dev0, q as int);
        assert(strands0[i].wf(dev0.len() as int));
        assert(strands0[wi].wf(dev0.len() as int));
        assert forall|x: int| q <= x < qend implies dev1[x] == dev0[x] by {
            if i == wi {
                assert(qend <= p);
            } else if i < wi {
                assert(strands0[i].start + strands0[i].capacity <= strands0[wi].start);
            } else {
                assert(strands0[wi].start + strands0[wi].capacity <= strands0[i].start);
            }
        }
        crate::item::lemma_item_at_frame(dev0, dev1, q as int, qend);
        assert(strands1[i].start == strands0[i].start && strands1[i].offset
            >= strands0[i].offset);
        assert(entry_ok(dev1, strands1, q)) by {
            assert(strands1[i].start + PAGE_SIZE <= q);
            assert(spec_item_end(dev1, q as int) == qend);
            assert(spec_item_end(dev1, q as int) <= strands1[i].start + strands1[i].offset);
        }
    }
    assert forall|q: FilePointer| #[trigger] ptr_logged(strands0, q) implies ptr_logged(
        strands1,
        q,
    ) && q != p by {
        let i = choose|i: int|
            {
                &&& 0 <= i < strands0.len()
                &&& (#[trigger] strands0[i]).start + PAGE_SIZE <= q
                &&& q < strands0[i].start + strands0[i].offset
            };
        assert(strands1[i].start + PAGE_SIZE <= q && q < strands1[i].start + strands1[i].offset);
        if i == wi {
            assert(q < p);
        } else {
            assert(strands0[i].wf(dev0.len() as int));
            assert(strands0[wi].wf(dev0.len() as int));
            if i < wi {
                assert(strands0[i].start + strands0[i].capacity <= strands0[wi].start);
            } else {
                assert(strands0[wi].start + strands0[wi].capacity <= strands0[i].start);
            }
        }
    }
}

/// A change that only touches strand statistics preserves the strand
/// geometry and everything derived from it.
pub proof fn lemma_stats_only_preserves(
    dev: Seq<u8>,
    strands0: Seq<Strand>,
    strands1: Seq<Strand>,
    dlen: int,
)
    requires
        strands_wf(strands0, dlen),
        strands1.len() == strands0.len(),
        forall|j: int|
            0 <= j < strands0.len() ==> (#[trigger] strands1[j]).spec_frame()
                == strands0[j].spec_frame(),
    ensures
        strands_wf(strands1, dlen),
        forall|p: FilePointer| #[trigger]
            entry_ok(dev, strands0, p) ==> entry_ok(dev, strands1, p),
        forall|p: FilePointer| #[trigger] ptr_logged(strands0, p) ==> ptr_logged(strands1, p),
{
    assert forall|j: int| 0 <= j < strands1.len() implies (#[trigger] strands1[j]).wf(dlen) by {
        assert(strands0[j].wf(dlen));
        assert(strands1[j].spec_frame() == strands0[j].spec_frame());
    }
    assert forall|i: int, j: int|
        0 <= i < j < strands1.len() implies (#[trigger] strands1[i]).start + strands1[i].capacity
        <= (#[trigger] strands1[j]).start by {
        assert(strands0[i].start + strands0[i].capacity <= strands0[j].start);
    }
    assert forall|j: int| 0 <= j < strands1.len() implies (#[trigger] strands1[j]).start
        >= PAGE_SIZE by {
        assert(strands0[j].start >= PAGE_SIZE);
    }
    assert forall|p: FilePointer| #[trigger] entry_ok(dev, strands0, p) implies entry_ok(
        dev,
        strands1,
        p,
    ) by {
        let i = choose|i: int|
            {
                &&& 0 <= i < strands0.len()
                &&& (#[trigger] strands0[i]).start + PAGE_SIZE <= p
                &&& spec_item_header_ok(dev, p as int)
                &&& spec_item_end(dev, p as int) <= strands0[i].start + strands0[i].offset
            };
        assert(strands1[i].start + PAGE_SIZE <= p && spec_item_end(dev, p as int)
            <= strands1[i].start + strands1[i].offset);
    }
    assert forall|p: FilePointer| #[trigger] ptr_logged(strands0, p) implies ptr_logged(
        strands1,
        p,
    ) by {
        let i = choose|i: int|
            {
                &&& 0 <= i < strands0.len()
                &&& (#[trigger] strands0[i]).start + PAGE_SIZE <= p
                &&& p < strands0[i].start + strands0[i].offset
            };
        assert(strands1[i].start + PAGE_SIZE <= p && p < strands1[i].start
            + strands1[i].offset);
    }
}


/// Overwriting one page that no logged record touches — the volume
/// header page or a strand's own header page — leaves every logged
/// record's bytes, and so the items they store, intact.
pub proof fn lemma_header_page_write_preserves(
    dev0: Seq<u8>,
    dev1: Seq<u8>,
    strands: Seq<Strand>,
    page_start: int,
    page: Seq<u8>,
)
    requires
        strands_wf(strands, dev0.len() as int),
        page.len() == PAGE_SIZE,
        page_start == 0 || (exists|i: int|
            0 <= i < strands.len() && page_start == (#[trigger] strands[i]).start),
        0 <= page_start,
        page_start + PAGE_SIZE <= dev0.len(),
        dev1 == dev0.update_subrange_with(page_start, page),
    ensures
        forall|p: FilePointer| #[trigger]
            entry_ok(dev0, strands, p) ==> crate::item::spec_item_at(dev1, p as int)
                == crate::item::spec_item_at(dev0, p as int) && entry_ok(dev1, strands, p),
{
    assert(dev1.len() == dev0.len());
    assert forall|p: FilePointer| #[trigger] entry_ok(dev0, strands, p) implies crate::item::spec_item_at(
        dev1,
        p as int,
    ) == crate::item::spec_item_at(dev0, p as int) && entry_ok(dev1, strands, p) by {
        let i = choose|i: int|
            {
                &&& 0 <= i < strands.len()
                &&& (#[trigger] strands[i]).start + PAGE_SIZE <= p
                &&& spec_item_header_ok(dev0, p as int)
                &&& spec_item_end(dev0, p as int) <= strands[i].start + strands[i].offset
            };
        let qend = spec_item_end(dev0, p as int);
        assert(strands[i].wf(dev0.len() as int));
        assert forall|x: int| p <= x < qend implies dev1[x] == dev0[x] by {
            if page_start == 0 {
                assert(strands[i].start >= PAGE_SIZE);
            } else {
                let w = choose|w: int|
                    0 <= w < strands.len() && page_start == (#[trigger] strands[w]).start;
                assert(strands[w].wf(dev0.len() as int));
                if w == i {
                } else if w < i {
                    assert(strands[w].start + strands[w].capacity <= strands[i].start);
                } else {
                    assert(strands[i].start + strands[i].capacity <= strands[w].start);
                }
            }
        }
        crate::item::lemma_item_at_frame(dev0, dev1, p as int, qend);
    }
}

/// Two strands both containing `ptr` are the same strand.
proof fn lemma_strand_of_ptr(strands: Seq<Strand>, dlen: int, a: int, b: int, ptr: FilePointer)
    requires
        strands_wf(strands, dlen),
        0 <= a < strands.len(),
        0 <= b < strands.len(),
        strands[a].start <= ptr < strands[a].start + strands[a].capacity,
        strands[b].start <= ptr < strands[b].start + strands[b].capacity,
    ensures
        a == b,
{
    if a < b {
        assert(strands[a].start + strands[a].capacity <= strands[b].start);
    } else if b < a {
        assert(strands[b].start + strands[b].capacity <= strands[a].start);
    }
}

/// A strand slot fits on the device: with `size` at least three pages
/// and `count * size` within the capacity, slot `i` leaves at least
/// two pages past its start.
proof fn lemma_strand_slot(capacity: int, count: int, size: int, i: int)
    requires
        0 <= i < count,
        3 * PAGE_SIZE <= size,
        count * size <= capacity,
    ensures
        i * size + PAGE_SIZE + 2 * PAGE_SIZE <= capacity,
        i * size >= 0,
{
    vstd::arithmetic::mul::lemma_mul_inequality(i + 1, count, size);
    assert((i + 1) * size == i * size + size) by (nonlinear_arith);
    vstd::arithmetic::mul::lemma_mul_nonnegative(i, size);
}

/// The evenly divided, page-aligned strand size times the strand
/// count fits the capacity.
proof fn lemma_count_size_fit(capacity: int, count: int, size: int)
    requires
        capacity >= 0,
        count >= 1,
        size == (capacity / count / (PAGE_SIZE as int)) * (PAGE_SIZE as int),
    ensures
        count * size <= capacity,
{
    let q = capacity / count;
    vstd::arithmetic::div_mod::lemma_fundamental_div_mod(q, PAGE_SIZE as int);
    vstd::arithmetic::div_mod::lemma_mod_bound(q, PAGE_SIZE as int);
    assert(size <= q);
    vstd::arithmetic::div_mod::lemma_fundamental_div_mod(capacity, count);
    vstd::arithmetic::div_mod::lemma_mod_bound(capacity, count);
    assert(count * q <= capacity);
    vstd::arithmetic::mul::lemma_mul_left_inequality(count, size, q);
}

} // verus!
