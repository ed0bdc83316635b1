//! The public face of the datastore: validated CRUD over keys and
//! values, coupling the index with the volume, the deleted set and
//! the read cache.

use vstd::prelude::*;

use crate::cache::ReadCache;
use crate::deleted::Deleted;
use crate::device::Memory;
use crate::error::Error;
use crate::index::Index;
use crate::item::{spec_item_at, Item};
use crate::options::OpenOptions;
use crate::state::DatastoreState;
use crate::stats::Stats;
use crate::volume::{
    entry_ok, lemma_entry_ok_logged, lemma_stats_only_preserves, lemma_write_preserves, ptr_logged,
    Volume, VolumeState,
};
use crate::utils::spec_align_down;
use crate::{FilePointer, MAX_KEY_LEN, MAX_VAL_LEN, PAGE_SIZE};

verus! {

/// A key the engine accepts: non-empty, at most [`MAX_KEY_LEN`] bytes.
pub open spec fn valid_key(k: Seq<u8>) -> bool {
    1 <= k.len() <= MAX_KEY_LEN
}

/// A value the engine accepts: at most [`MAX_VAL_LEN`] bytes.
pub open spec fn valid_val(v: Seq<u8>) -> bool {
    v.len() <= MAX_VAL_LEN
}

/// Whether a record for `(k, v)` fits the free space of the strand
/// the store's next write will use.
pub open spec fn fits_next_strand(s: Store, k: Seq<u8>, v: Seq<u8>) -> bool {
    let ws = s.volume.strands@[s.volume.next as int];
    32 + k.len() + v.len() <= ws.capacity - ws.offset
}

/// An open handle to a datastore.
pub struct Store {
    /// The device and its strand partition.
    pub volume: Volume,
    /// The in-memory index from key to record pointer.
    pub index: Index,
    /// The pointers of logically deleted records.
    pub deleted: Deleted,
    /// The read-side value cache.
    pub cache: ReadCache,
}

impl Store {
    /// The bytes of the underlying device.
    pub open spec fn dev(&self) -> Seq<u8> {
        self.volume.dev()
    }

    /// The index as a map from key to record pointer.
    pub open spec fn imap(&self) -> Map<Seq<u8>, FilePointer> {
        self.index.as_map()
    }

    /// The store invariant.
    ///
    /// Every indexed pointer refers to a whole, well-formed record
    /// inside the logged region of one strand; distinct keys hold
    /// distinct pointers; no live pointer is marked deleted; deleted
    /// pointers lie in logged regions; and the cache only holds pairs
    /// that agree with the store.
    pub open spec fn inv(&self) -> bool {
        &&& self.volume.wf()
        &&& self.index.wf()
        &&& self.deleted.wf()
        &&& self.cache.wf()
        &&& (forall|k: Seq<u8>| #[trigger]
            self.imap().contains_key(k) ==> entry_ok(
                self.dev(),
                self.volume.strands@,
                self.imap()[k],
            ))
        &&& (forall|k1: Seq<u8>, k2: Seq<u8>|
            self.imap().contains_key(k1) && self.imap().contains_key(k2) && k1 != k2
                ==> #[trigger] self.imap()[k1] != #[trigger] self.imap()[k2])
        &&& (forall|k: Seq<u8>| #[trigger]
            self.imap().contains_key(k) ==> !self.deleted.view().contains(self.imap()[k]))
        &&& (forall|p: FilePointer| #[trigger]
            self.deleted.view().contains(p) ==> ptr_logged(self.volume.strands@, p))
        &&& (forall|k: Seq<u8>| #[trigger]
            self.cache.contents().contains_key(k) ==> self.view().contains_key(k)
                && self.cache.contents()[k] == self.view()[k])
    }

    /// The store as a map from key to stored value.
    pub open spec fn view(&self) -> Map<Seq<u8>, Seq<u8>> {
        Map::new(
            |k: Seq<u8>| self.imap().contains_key(k),
            |k: Seq<u8>| spec_item_at(self.dev(), self.imap()[k] as int).unwrap().1,
        )
    }

    /// Opens a datastore on a device.
    ///
    /// In read mode the loaded index and deleted set are validated
    /// against the volume before the store is handed out: every
    /// indexed pointer must name a whole, well-formed record inside a
    /// strand's log, pointers must be unique and not deleted, and
    /// deleted pointers must lie inside logged regions.
    pub fn open(device: Memory, options: &OpenOptions) -> (r: Result<Store, Error>)
        requires
            device.wf(),
            device.contents().len() >= PAGE_SIZE,
        ensures
            match r {
                Ok(st) => {
                    &&& st.inv()
                    &&& ((options.mode is Create || options.mode is Truncate) ==> st.view()
                        =~= Map::<Seq<u8>, Seq<u8>>::empty())
                    &&& (options.mode is Read ==> match crate::header::spec_decode_volume_header(
                        device.contents().subrange(0, PAGE_SIZE as int),
                    ) {
                        Some(h) => {
                            &&& h.major == crate::VERSION_MAJOR
                            &&& h.strands >= crate::MIN_STRANDS
                            &&& (h.state_ptr == 0 ==> st.index.view() == Seq::<
                                (Seq<u8>, FilePointer),
                            >::empty() && st.deleted.view() == Seq::<FilePointer>::empty())
                            &&& (h.state_ptr != 0 ==> {
                                let snap = crate::state::state_bytes(
                                    st.index.view(),
                                    st.deleted.view(),
                                );
                                &&& h.state_ptr + snap.len() <= device.contents().len()
                                &&& device.contents().subrange(
                                    h.state_ptr as int,
                                    h.state_ptr + snap.len(),
                                ) == snap
                            })
                        },
                        None => false,
                    })
                },
                Err(e) => {
                    &&& (options.mode is Read && options.reindex ==> e is Unimplemented)
                    &&& (options.mode is Read && !options.reindex
                        && crate::header::spec_decode_volume_header(
                        device.contents().subrange(0, PAGE_SIZE as int),
                    ) is None ==> e is Corrupt)
                    &&& (options.mode is Read && !options.reindex
                        && (match crate::header::spec_decode_volume_header(
                        device.contents().subrange(0, PAGE_SIZE as int),
                    ) {
                        Some(h) => h.major != crate::VERSION_MAJOR,
                        None => false,
                    }) ==> e is IncompatibleVersion)
                    &&& (options.mode is Read && !options.reindex
                        && (match crate::header::spec_decode_volume_header(
                        device.contents().subrange(0, PAGE_SIZE as int),
                    ) {
                        Some(h) => h.major == crate::VERSION_MAJOR && h.strands
                            < crate::MIN_STRANDS,
                        None => false,
                    }) ==> e is Corrupt)
                    &&& (options.mode is Read && !options.reindex
                        && (match crate::header::spec_decode_volume_header(
                        device.contents().subrange(0, PAGE_SIZE as int),
                    ) {
                        Some(h) => h.major == crate::VERSION_MAJOR && h.strands
                            >= crate::MIN_STRANDS && !crate::volume::spec_strands_load_ok(
                            device.contents(),
                            h.strands as int,
                        ),
                        None => false,
                    }) ==> e is Corrupt)
                    &&& ((options.mode is Create || options.mode is Truncate) ==> e is BadArgument
                        && (match options.strands {
                        Some(x) => x < crate::MIN_STRANDS || crate::volume::spec_strand_size(
                            device.contents().len() as int,
                            x as int,
                        ) < 3 * PAGE_SIZE,
                        None => true,
                    }))
                    &&& (options.mode is Read && !options.reindex
                        ==> match crate::header::spec_decode_volume_header(
                        device.contents().subrange(0, PAGE_SIZE as int),
                    ) {
                        Some(h) => h.major != crate::VERSION_MAJOR || h.strands
                            < crate::MIN_STRANDS || !crate::volume::spec_strands_load_ok(
                            device.contents(),
                            h.strands as int,
                        ) || h.state_ptr != 0,
                        None => true,
                    })
                },
            },
    {
        let opened: (Volume, VolumeState) = match Volume::open(device, options) {
            Ok(vs) => vs,
            Err(e) => {
                return Err(e);
            },
        };
        let (volume, state): (Volume, VolumeState) = opened;
        let (index, deleted): (Index, Deleted) = state.extract();
        let cache_items: usize = match options.read_cache {
            Some(n) => n,
            None => 512,
        };
        let cache: ReadCache = ReadCache::with_capacity(cache_items);
        let mut store = Store { volume, index, deleted, cache };
        proof {
            assert forall|k: Seq<u8>| !#[trigger] store.cache.contents().contains_key(k) by {
                assert(store.cache.contents() == Map::<Seq<u8>, Seq<u8>>::empty());
            }
        }
        match store.validate() {
            Ok(_) => {},
            Err(e) => {
                return Err(e);
            },
        };
        proof {
            if options.mode is Create || options.mode is Truncate {
                assert(store.view() =~= Map::<Seq<u8>, Seq<u8>>::empty()) by {
                    assert forall|k: Seq<u8>| !#[trigger] store.imap().contains_key(k) by {
                        crate::index::lemma_idx_find_absent(store.index.view(), k);
                    }
                }
            }
        }
        Ok(store)
    }

    /// Opens a purely in-memory datastore of `bytes` bytes.
    pub fn memory(bytes: usize, options: &OpenOptions) -> (r: Result<Store, Error>)
        requires
            spec_align_down(bytes as int, PAGE_SIZE as int) >= PAGE_SIZE,
        ensures
            match r {
                Ok(st) => {
                    &&& st.inv()
                    &&& ((options.mode is Create || options.mode is Truncate) ==> st.view()
                        =~= Map::<Seq<u8>, Seq<u8>>::empty())
                },
                Err(e) => {
                    &&& (options.mode is Read && options.reindex ==> e is Unimplemented)
                    &&& (options.mode is Read && !options.reindex ==> e is Corrupt)
                    &&& ((options.mode is Create || options.mode is Truncate) ==> e is BadArgument
                        && (match options.strands {
                        Some(x) => x < crate::MIN_STRANDS || crate::volume::spec_strand_size(
                            spec_align_down(bytes as int, PAGE_SIZE as int),
                            x as int,
                        ) < 3 * PAGE_SIZE,
                        None => true,
                    }))
                },
            },
    {
        let device: Memory = Memory::new(bytes);
        proof {
            vstd::bytes::lemma_auto_spec_u64_to_from_le_bytes();
            let page = device.contents().subrange(0, PAGE_SIZE as int);
            if crate::header::spec_decode_volume_header(page) is Some {
                let h = crate::header::spec_decode_volume_header(page).unwrap();
                crate::header::lemma_volume_header_page_nonzero(h);
                assert(page[0] == crate::serial::zeros(
                    spec_align_down(bytes as int, PAGE_SIZE as int),
                )[0]);
                assert(false);
            }
        }
        Self::open(device, options)
    }

    /// Checks the loaded index and deleted set against the volume.
    #[verifier::spinoff_prover]
    #[verifier::rlimit(60)]
    fn validate(&mut self) -> (r: Result<(), Error>)
        requires
            old(self).volume.wf(),
            old(self).index.wf(),
            old(self).deleted.wf(),
            old(self).cache.wf(),
            forall|k: Seq<u8>| !#[trigger] old(self).cache.contents().contains_key(k),
        ensures
            final(self).index == old(self).index,
            final(self).deleted == old(self).deleted,
            final(self).cache == old(self).cache,
            final(self).dev() == old(self).dev(),
            match r {
                Ok(_) => final(self).inv(),
                Err(e) => e is Corrupt,
            },
            (old(self).index.view().len() == 0 && old(self).deleted.view().len() == 0) ==> r is Ok,
    {
        let ghost dev = self.dev();
        let ghost strands0 = self.volume.strands@;
        let ghost entries = self.index.view();
        let n: usize = self.index.len();
        let mut i: usize = 0;
        while i < n
            invariant
                self.volume.wf(),
                self.index == old(self).index,
                self.deleted == old(self).deleted,
                self.cache == old(self).cache,
                self.index.wf(),
                self.deleted.wf(),
                self.dev() == old(self).dev(),
                dev == self.dev(),
                strands0 == old(self).volume.strands@,
                entries == self.index.view(),
                n == entries.len(),
                i <= n,
                self.volume.strands@.len() == strands0.len(),
                forall|j: int|
                    0 <= j < strands0.len() ==> (#[trigger] self.volume.strands@[j]).spec_frame()
                        == strands0[j].spec_frame(),
                forall|j: int|
                    0 <= j < i ==> entry_ok(dev, self.volume.strands@, (#[trigger] entries[j]).1),
                forall|j: int|
                    0 <= j < i ==> !self.deleted.view().contains((#[trigger] entries[j]).1),
                forall|j1: int, j2: int|
                    0 <= j1 < j2 < i ==> (#[trigger] entries[j1]).1 != (#[trigger] entries[j2]).1,
            decreases n - i,
        {
            let ghost strands_iter = self.volume.strands@;
            let p: FilePointer = self.index.entry_at(i).1;
            let si: usize = match self.volume.find_strand(p) {
                Some(si) => si,
                None => {
                    return Err(Error::Corrupt);
                },
            };
            let start: u64 = self.volume.strands[si].get_start();
            let offset: u64 = self.volume.strands[si].get_offset();
            if p - start < PAGE_SIZE {
                return Err(Error::Corrupt);
            }
            let lens: (u64, u64) = match self.volume.read_header(si, p) {
                Ok(lens) => lens,
                Err(_) => {
                    return Err(Error::Corrupt);
                },
            };
            let (klen, vlen): (u64, u64) = lens;
            let off_in: u64 = p - start;
            if off_in + 32 > offset {
                return Err(Error::Corrupt);
            }
            let room: u64 = offset - (off_in + 32);
            if klen > room || vlen > room - klen {
                return Err(Error::Corrupt);
            }
            if self.deleted.contains(p) {
                return Err(Error::Corrupt);
            }
            let mut j: usize = 0;
            while j < i
                invariant
                    self.index == old(self).index,
                    self.deleted == old(self).deleted,
                    self.cache == old(self).cache,
                    self.dev() == old(self).dev(),
                dev == self.dev(),
                    entries == self.index.view(),
                    i < n,
                    n == entries.len(),
                    j <= i,
                    p == entries[i as int].1,
                    forall|j2: int| 0 <= j2 < j ==> (#[trigger] entries[j2]).1 != p,
                decreases i - j,
            {
                if self.index.entry_at(j).1 == p {
                    return Err(Error::Corrupt);
                }
                j = j + 1;
            }
            proof {
                assert(entry_ok(dev, self.volume.strands@, p)) by {
                    let sj = si as int;
                    assert(self.volume.strands@[sj].start + PAGE_SIZE <= p);
                    assert(crate::item::spec_item_end(dev, p as int) <= self.volume.strands@[sj].start
                        + self.volume.strands@[sj].offset);
                }
                lemma_stats_only_preserves(
                    dev,
                    strands_iter,
                    self.volume.strands@,
                    dev.len() as int,
                );
            }
            i = i + 1;
        }
        let ghost strands_mid = self.volume.strands@;
        let nd: usize = self.deleted.len();
        let mut d: usize = 0;
        while d < nd
            invariant
                self.volume.wf(),
                self.index == old(self).index,
                self.deleted == old(self).deleted,
                self.cache == old(self).cache,
                self.dev() == old(self).dev(),
                dev == self.dev(),
                strands_mid == self.volume.strands@,
                nd == self.deleted.view().len(),
                d <= nd,
                self.index.wf(),
                self.deleted.wf(),
                entries == self.index.view(),
                forall|j: int|
                    0 <= j < entries.len() ==> entry_ok(
                        dev,
                        self.volume.strands@,
                        (#[trigger] entries[j]).1,
                    ),
                forall|j: int|
                    0 <= j < entries.len() ==> !self.deleted.view().contains(
                        (#[trigger] entries[j]).1,
                    ),
                forall|j1: int, j2: int|
                    0 <= j1 < j2 < entries.len() ==> (#[trigger] entries[j1]).1 != (
                    #[trigger] entries[j2]).1,
                forall|j: int|
                    0 <= j < d ==> ptr_logged(self.volume.strands@, #[trigger] self.deleted.view()[j]),
            decreases nd - d,
        {
            let p: FilePointer = self.deleted.ptr_at(d);
            let si: usize = match self.volume.find_strand(p) {
                Some(si) => si,
                None => {
                    return Err(Error::Corrupt);
                },
            };
            let start: u64 = self.volume.strands[si].get_start();
            let offset: u64 = self.volume.strands[si].get_offset();
            if p - start < PAGE_SIZE || p - start >= offset {
                return Err(Error::Corrupt);
            }
            proof {
                assert(ptr_logged(self.volume.strands@, p)) by {
                    let sj = si as int;
                    assert(self.volume.strands@[sj].start + PAGE_SIZE <= p && p
                        < self.volume.strands@[sj].start + self.volume.strands@[sj].offset);
                }
            }
            d = d + 1;
        }
        proof {
            assert forall|j: int|
                0 <= j < entries.len() implies entry_ok(
                dev,
                self.volume.strands@,
                (#[trigger] entries[j]).1,
            ) by {
                lemma_stats_only_preserves(dev, strands_mid, self.volume.strands@, dev.len() as int);
            }
            assert forall|k: Seq<u8>| #[trigger]
                self.imap().contains_key(k) implies entry_ok(
                dev,
                self.volume.strands@,
                self.imap()[k],
            ) && !self.deleted.view().contains(self.imap()[k]) by {
                let j = crate::index::lemma_idx_find_witness(entries, k);
            }
            assert forall|k1: Seq<u8>, k2: Seq<u8>|
                self.imap().contains_key(k1) && self.imap().contains_key(k2) && k1
                    != k2 implies #[trigger] self.imap()[k1] != #[trigger] self.imap()[k2] by {
                let j1 = crate::index::lemma_idx_find_witness(entries, k1);
                let j2 = crate::index::lemma_idx_find_witness(entries, k2);
                assert(entries[j1].0 == k1);
                assert(entries[j2].0 == k2);
                assert(j1 != j2);
                if j1 < j2 {
                    assert(entries[j1].1 != entries[j2].1);
                } else {
                    assert(entries[j2].1 != entries[j1].1);
                }
            }
            assert forall|p: FilePointer| #[trigger]
                self.deleted.view().contains(p) implies ptr_logged(self.volume.strands@, p) by {
                let j = choose|j: int| 0 <= j < self.deleted.view().len() && self.deleted.view()[j]
                    == p;
            }
        }
        Ok(())
    }

    /// Persists the datastore state and returns the device.
    ///
    /// The snapshot of the index and of the deleted set is appended
    /// past one strand's log, the volume header records its pointer,
    /// every strand header is rewritten, and every stored item keeps
    /// its record bytes.
    pub fn close(self) -> (r: Result<Memory, Error>)
        requires
            self.inv(),
        ensures
            match r {
                Ok(d) => {
                    let ws = self.volume.strands@[self.volume.next as int];
                    let sp = ws.start + ws.offset;
                    let snap = crate::state::state_bytes(self.index.view(), self.deleted.view());
                    &&& d.wf()
                    &&& d.contents().len() == self.dev().len()
                    &&& d.contents().subrange(sp as int, sp + snap.len()) == snap
                    &&& d.contents().subrange(0, PAGE_SIZE as int)
                        == crate::header::volume_header_bytes(
                        crate::header::VolumeHeader {
                            major: crate::VERSION_MAJOR,
                            minor: crate::VERSION_MINOR,
                            patch: crate::VERSION_PATCH,
                            strands: self.volume.strands@.len() as u16,
                            state_ptr: sp as u64,
                        },
                    )
                    &&& (forall|k: Seq<u8>| #[trigger]
                        self.imap().contains_key(k) ==> spec_item_at(
                            d.contents(),
                            self.imap()[k] as int,
                        ) == spec_item_at(self.dev(), self.imap()[k] as int))
                    &&& (forall|j: int|
                        0 <= j < self.volume.strands@.len()
                            ==> crate::volume::strand_header_pinned(
                            d.contents(),
                            #[trigger] self.volume.strands@[j],
                        ))
                },
                Err(e) => e is OutOfSpace,
            },
    {
        let ghost me = self;
        let Store { volume, index, deleted, cache: _ } = self;
        let state: DatastoreState = DatastoreState::new(index, deleted);
        let snapshot: Vec<u8> = state.encode();
        let r: Result<Memory, Error> = volume.close(snapshot.as_slice());
        proof {
            if r is Ok {
                let d = r.unwrap();
                assert forall|k: Seq<u8>| #[trigger]
                    me.imap().contains_key(k) implies spec_item_at(
                    d.contents(),
                    me.imap()[k] as int,
                ) == spec_item_at(me.dev(), me.imap()[k] as int) by {
                    assert(entry_ok(me.dev(), me.volume.strands@, me.imap()[k]));
                }
            }
        }
        r
    }

    /// Checks a key against the length limits.
    fn verify_key(key: &[u8]) -> (r: Result<(), Error>)
        ensures
            r matches Ok(_) <==> valid_key(key@),
            r matches Err(e) ==> e is InvalidKey,
    {
        let n: usize = key.len();
        if n == 0 || n as u64 > MAX_KEY_LEN {
            Err(Error::InvalidKey)
        } else {
            Ok(())
        }
    }

    /// Checks a value against the length limit.
    fn verify_val(val: &[u8]) -> (r: Result<(), Error>)
        ensures
            r matches Ok(_) <==> valid_val(val@),
            r matches Err(e) ==> e is InvalidValue,
    {
        let n: usize = val.len();
        if n as u64 > MAX_VAL_LEN {
            Err(Error::InvalidValue)
        } else {
            Ok(())
        }
    }

    /// Appends one record and publishes its pointer in the index.
    ///
    /// The fresh pointer is distinct from every logged pointer, every
    /// other item keeps its stored bytes, and the view gains exactly
    /// the new pair.
    fn publish(&mut self, key: &[u8], val: &[u8]) -> (r: Result<(), Error>)
        requires
            old(self).inv(),
            valid_key(key@),
            valid_val(val@),
            32 + key@.len() + val@.len() <= usize::MAX,
            !old(self).cache.contents().contains_key(key@),
        ensures
            final(self).deleted == old(self).deleted,
            final(self).cache == old(self).cache,
            match r {
                Ok(_) => {
                    &&& fits_next_strand(*old(self), key@, val@)
                    &&& final(self).inv()
                    &&& final(self).view() == old(self).view().insert(key@, val@)
                    &&& (exists|p: FilePointer|
                        {
                            &&& final(self).imap() == old(self).imap().insert(key@, p)
                            &&& (forall|q: FilePointer| #[trigger]
                                ptr_logged(old(self).volume.strands@, q) ==> q != p)
                        })
                    &&& (forall|q: FilePointer| #[trigger]
                        ptr_logged(old(self).volume.strands@, q) ==> ptr_logged(
                            final(self).volume.strands@,
                            q,
                        ))
                    &&& (forall|q: FilePointer| #[trigger]
                        entry_ok(old(self).dev(), old(self).volume.strands@, q) ==> entry_ok(
                            final(self).dev(),
                            final(self).volume.strands@,
                            q,
                        ) && spec_item_at(final(self).dev(), q as int) == spec_item_at(
                            old(self).dev(),
                            q as int,
                        ))
                },
                Err(e) => {
                    &&& e is OutOfSpace
                    &&& !fits_next_strand(*old(self), key@, val@)
                    &&& final(self).inv()
                    &&& final(self).view() == old(self).view()
                    &&& final(self).imap() == old(self).imap()
                    &&& final(self).index == old(self).index
                    &&& final(self).volume.dev() == old(self).volume.dev()
                    &&& final(self).volume.strands@ == old(self).volume.strands@
                },
            },
    {
        let ghost dev0 = self.dev();
        let ghost strands0 = self.volume.strands@;
        let ghost wi = self.volume.next as int;
        let ptr: FilePointer = match self.volume.write_item(key, val) {
            Ok(p) => p,
            Err(_) => {
                proof {
                    assert(self.view() =~= old(self).view());
                    assert(self.imap() =~= old(self).imap());
                }
                return Err(Error::OutOfSpace);
            },
        };
        proof {
            vstd::bytes::lemma_auto_spec_u64_to_from_le_bytes();
            let rec = crate::item::item_bytes(key@, val@);
            assert(rec.len() == 32 + key@.len() + val@.len());
            assert(strands0[wi].wf(dev0.len() as int));
            lemma_write_preserves(
                dev0,
                self.dev(),
                strands0,
                self.volume.strands@,
                wi,
                ptr,
                rec.len() as int,
            );
            crate::item::lemma_item_at_of_bytes(self.dev(), ptr as int, key@, val@);
        }
        self.index.set(key, ptr);
        proof {
            let s1 = self.volume.strands@;
            let s = strands0[wi];
            assert(entry_ok(self.dev(), s1, ptr)) by {
                assert(s1[wi].start + PAGE_SIZE <= ptr && crate::item::spec_item_end(
                    self.dev(),
                    ptr as int,
                ) <= s1[wi].start + s1[wi].offset);
            }
            assert forall|k: Seq<u8>| #[trigger]
                self.imap().contains_key(k) implies entry_ok(
                self.dev(),
                s1,
                self.imap()[k],
            ) by {
                if k != key@ {
                    assert(old(self).imap().contains_key(k));
                    assert(entry_ok(dev0, strands0, old(self).imap()[k]));
                }
            }
            assert forall|k1: Seq<u8>, k2: Seq<u8>|
                self.imap().contains_key(k1) && self.imap().contains_key(k2) && k1
                    != k2 implies #[trigger] self.imap()[k1] != #[trigger] self.imap()[k2] by {
                if k1 == key@ {
                    assert(entry_ok(dev0, strands0, old(self).imap()[k2]));
                    lemma_entry_ok_logged(dev0, strands0, old(self).imap()[k2]);
                } else if k2 == key@ {
                    assert(entry_ok(dev0, strands0, old(self).imap()[k1]));
                    lemma_entry_ok_logged(dev0, strands0, old(self).imap()[k1]);
                }
            }
            assert forall|k: Seq<u8>| #[trigger]
                self.imap().contains_key(k) implies !self.deleted.view().contains(
                self.imap()[k],
            ) by {
                if k == key@ {
                    if self.deleted.view().contains(self.imap()[k]) {
                        assert(ptr_logged(strands0, self.imap()[k]));
                    }
                } else {
                    assert(!old(self).deleted.view().contains(old(self).imap()[k]));
                }
            }
            assert forall|p: FilePointer| #[trigger]
                self.deleted.view().contains(p) implies ptr_logged(s1, p) by {
                assert(ptr_logged(strands0, p));
            }
            assert(self.view() =~= old(self).view().insert(key@, val@)) by {
                assert forall|k: Seq<u8>| #[trigger]
                    self.view().contains_key(k) && k != key@ implies self.view()[k] == old(
                    self,
                ).view()[k] by {
                    assert(entry_ok(dev0, strands0, old(self).imap()[k]));
                }
            }
            assert forall|k: Seq<u8>| #[trigger]
                self.cache.contents().contains_key(k) implies self.view().contains_key(k)
                && self.cache.contents()[k] == self.view()[k] by {
                assert(old(self).view().contains_key(k));
                assert(k != key@);
                assert(entry_ok(dev0, strands0, old(self).imap()[k]));
            }
        }
        Ok(())
    }

    /// Whether an item with the given key is present.
    ///
    /// Only the in-memory index is consulted; the device is not read.
    pub fn contains(&self, key: &[u8]) -> (r: bool)
        requires
            self.inv(),
        ensures
            r == self.view().contains_key(key@),
    {
        self.index.contains(key)
    }

    /// Inserts an item, failing with [`Error::ItemExists`] when the
    /// key is already present.
    pub fn insert(&mut self, key: &[u8], val: &[u8]) -> (r: Result<(), Error>)
        requires
            old(self).inv(),
            32 + key@.len() + val@.len() <= usize::MAX,
        ensures
            final(self).inv(),
            match r {
                Ok(_) => {
                    &&& valid_key(key@)
                    &&& valid_val(val@)
                    &&& !old(self).view().contains_key(key@)
                    &&& fits_next_strand(*old(self), key@, val@)
                    &&& final(self).view() == old(self).view().insert(key@, val@)
                    &&& final(self).deleted == old(self).deleted
                },
                Err(e) => {
                    &&& final(self).view() == old(self).view()
                    &&& final(self).dev() == old(self).dev()
                    &&& final(self).index == old(self).index
                    &&& final(self).deleted == old(self).deleted
                    &&& final(self).cache == old(self).cache
                    &&& (!(e is OutOfSpace) ==> *final(self) == *old(self))
                    &&& match e {
                        Error::InvalidKey => !valid_key(key@),
                        Error::InvalidValue => valid_key(key@) && !valid_val(val@),
                        Error::ItemExists => valid_key(key@) && valid_val(val@) && old(
                            self,
                        ).view().contains_key(key@),
                        Error::OutOfSpace => valid_key(key@) && valid_val(val@) && !old(
                            self,
                        ).view().contains_key(key@) && !fits_next_strand(*old(self), key@, val@),
                        _ => false,
                    }
                },
            },
    {
        match Self::verify_key(key) {
            Ok(_) => {},
            Err(e) => {
                return Err(e);
            },
        };
        match Self::verify_val(val) {
            Ok(_) => {},
            Err(e) => {
                return Err(e);
            },
        };
        if self.index.contains(key) {
            return Err(Error::ItemExists);
        }
        proof {
            if self.cache.contents().contains_key(key@) {
                assert(self.view().contains_key(key@));
            }
        }
        self.publish(key, val)
    }

    /// Copies the value stored under `key` into `val`, as much as
    /// fits, and returns the number of bytes copied.
    pub fn lookup(&mut self, key: &[u8], val: &mut Vec<u8>) -> (r: Result<usize, Error>)
        requires
            old(self).inv(),
        ensures
            final(self).inv(),
            final(self).view() == old(self).view(),
            final(self).dev() == old(self).dev(),
            final(self).index == old(self).index,
            final(self).deleted == old(self).deleted,
            match r {
                Ok(n) => {
                    &&& valid_key(key@)
                    &&& old(self).view().contains_key(key@)
                    &&& n == (if old(self).view()[key@].len() < old(val)@.len() {
                        old(self).view()[key@].len() as int
                    } else {
                        old(val)@.len() as int
                    })
                    &&& final(val)@ == old(val)@.update_subrange_with(
                        0,
                        old(self).view()[key@].take(n as int),
                    )
                },
                Err(e) => {
                    &&& final(val)@ == old(val)@
                    &&& (e is InvalidKey ==> *final(self) == *old(self))
                    &&& final(self).cache.contents().submap_of(old(self).cache.contents())
                    &&& match e {
                        Error::InvalidKey => !valid_key(key@),
                        Error::ItemNotFound => valid_key(key@) && !old(self).view().contains_key(
                            key@,
                        ),
                        _ => false,
                    }
                },
            },
    {
        match Self::verify_key(key) {
            Ok(_) => {},
            Err(e) => {
                return Err(e);
            },
        };
        let cached: Option<Vec<u8>> = self.cache.get(key);
        let ghost cmid = self.cache.contents();
        proof {
            assert(self.view() =~= old(self).view());
            assert forall|k: Seq<u8>| #[trigger] cmid.contains_key(k) implies self.view(
            ).contains_key(k) && cmid[k] == self.view()[k] by {
                assert(old(self).cache.contents().contains_pair(k, cmid[k]));
            }
        }
        match cached {
            Some(v) => {
                proof {
                    assert(old(self).cache.contents().contains_pair(key@, v@));
                }
                let n: usize = crate::item::copy_slice(v.as_slice(), val);
                return Ok(n);
            },
            None => {},
        };
        let ptr: FilePointer = match self.index.get(key) {
            Some(p) => p,
            None => {
                proof {
                    assert(self.view() =~= old(self).view());
                }
                return Err(Error::ItemNotFound);
            },
        };
        let item: Item = match self.volume.read_item(ptr) {
            Ok(item) => item,
            Err(_) => {
                proof {
                    assert(false);
                }
                return Err(Error::Corrupt);
            },
        };
        proof {
            lemma_stats_only_preserves(
                self.dev(),
                old(self).volume.strands@,
                self.volume.strands@,
                self.dev().len() as int,
            );
        }
        self.cache.insert(key, item.value.as_slice());
        proof {
            assert(self.view() =~= old(self).view());
            assert(self.view().contains_pair(key@, item.value@));
            assert forall|k: Seq<u8>| #[trigger]
                self.cache.contents().contains_key(k) implies self.view().contains_key(k)
                && self.cache.contents()[k] == self.view()[k] by {
                assert(cmid.insert(key@, item.value@).contains_pair(k, self.cache.contents()[k]));
                if k != key@ {
                    assert(cmid.contains_pair(k, self.cache.contents()[k]));
                }
            }
        }
        let n: usize = crate::item::copy_slice(item.value.as_slice(), val);
        Ok(n)
    }

    /// Retires the record pointer a key held before it was rebound or
    /// unbound: drops it from the cache already done by the caller,
    /// counts the deletion, and records the pointer as deleted.
    fn retire(&mut self, old_ptr: FilePointer)
        requires
            old(self).inv(),
            ptr_logged(old(self).volume.strands@, old_ptr),
            !old(self).deleted.view().contains(old_ptr),
            forall|k: Seq<u8>| #[trigger]
                old(self).imap().contains_key(k) ==> old(self).imap()[k] != old_ptr,
        ensures
            final(self).inv(),
            final(self).view() == old(self).view(),
            final(self).imap() == old(self).imap(),
            final(self).index == old(self).index,
            final(self).cache == old(self).cache,
            final(self).dev() == old(self).dev(),
            final(self).deleted.view() == old(self).deleted.view().push(old_ptr),
    {
        self.volume.mark_deleted(old_ptr);
        proof {
            lemma_stats_only_preserves(
                self.dev(),
                old(self).volume.strands@,
                self.volume.strands@,
                self.dev().len() as int,
            );
        }
        self.deleted.add(old_ptr);
        proof {
            assert(self.view() =~= old(self).view());
            assert forall|k: Seq<u8>| #[trigger]
                self.imap().contains_key(k) implies !self.deleted.view().contains(
                self.imap()[k],
            ) by {
                assert(!old(self).deleted.view().contains(self.imap()[k]));
                assert(self.imap()[k] != old_ptr);
            }
            assert forall|p: FilePointer| #[trigger]
                self.deleted.view().contains(p) implies ptr_logged(
                self.volume.strands@,
                p,
            ) by {
                if p != old_ptr {
                    assert(old(self).deleted.view().contains(p));
                    assert(ptr_logged(old(self).volume.strands@, p));
                }
            }
        }
    }

    /// Updates an existing item, failing with [`Error::ItemNotFound`]
    /// when the key is absent.
    pub fn update(&mut self, key: &[u8], val: &[u8]) -> (r: Result<(), Error>)
        requires
            old(self).inv(),
            32 + key@.len() + val@.len() <= usize::MAX,
        ensures
            final(self).inv(),
            match r {
                Ok(_) => {
                    &&& valid_key(key@)
                    &&& valid_val(val@)
                    &&& old(self).view().contains_key(key@)
                    &&& fits_next_strand(*old(self), key@, val@)
                    &&& final(self).view() == old(self).view().insert(key@, val@)
                    &&& final(self).deleted.view() == old(self).deleted.view().push(
                        old(self).imap()[key@],
                    )
                },
                Err(e) => {
                    &&& final(self).view() == old(self).view()
                    &&& final(self).dev() == old(self).dev()
                    &&& final(self).index == old(self).index
                    &&& final(self).deleted == old(self).deleted
                    &&& (!(e is OutOfSpace) ==> *final(self) == *old(self))
                    &&& match e {
                        Error::InvalidKey => !valid_key(key@),
                        Error::InvalidValue => valid_key(key@) && !valid_val(val@),
                        Error::ItemNotFound => valid_key(key@) && valid_val(val@) && !old(
                            self,
                        ).view().contains_key(key@),
                        Error::OutOfSpace => valid_key(key@) && valid_val(val@) && old(
                            self,
                        ).view().contains_key(key@) && !fits_next_strand(*old(self), key@, val@),
                        _ => false,
                    }
                },
            },
    {
        match Self::verify_key(key) {
            Ok(_) => {},
            Err(e) => {
                return Err(e);
            },
        };
        match Self::verify_val(val) {
            Ok(_) => {},
            Err(e) => {
                return Err(e);
            },
        };
        let old_ptr: FilePointer = match self.index.get(key) {
            Some(p) => p,
            None => {
                return Err(Error::ItemNotFound);
            },
        };
        self.cache.remove(key);
        let ghost mid = *self;
        proof {
            assert(mid.view() =~= old(self).view());
        }
        match self.publish(key, val) {
            Ok(_) => {},
            Err(e) => {
                return Err(e);
            },
        };
        proof {
            assert(entry_ok(mid.dev(), mid.volume.strands@, old_ptr));
            lemma_entry_ok_logged(mid.dev(), mid.volume.strands@, old_ptr);
            let p = choose|p: FilePointer|
                {
                    &&& self.imap() == mid.imap().insert(key@, p)
                    &&& (forall|q: FilePointer| #[trigger]
                        ptr_logged(mid.volume.strands@, q) ==> q != p)
                };
            assert forall|k: Seq<u8>| #[trigger]
                self.imap().contains_key(k) implies self.imap()[k] != old_ptr by {
                if k == key@ {
                    assert(ptr_logged(mid.volume.strands@, old_ptr));
                } else {
                    assert(mid.imap()[k] != mid.imap()[key@]);
                }
            }
        }
        self.retire(old_ptr);
        Ok(())
    }

    /// Places an item, replacing any previous value under the key.
    pub fn put(&mut self, key: &[u8], val: &[u8]) -> (r: Result<(), Error>)
        requires
            old(self).inv(),
            32 + key@.len() + val@.len() <= usize::MAX,
        ensures
            final(self).inv(),
            match r {
                Ok(_) => {
                    &&& valid_key(key@)
                    &&& valid_val(val@)
                    &&& fits_next_strand(*old(self), key@, val@)
                    &&& final(self).view() == old(self).view().insert(key@, val@)
                    &&& (old(self).view().contains_key(key@) ==> final(self).deleted.view() == old(
                        self,
                    ).deleted.view().push(old(self).imap()[key@]))
                    &&& (!old(self).view().contains_key(key@) ==> final(self).deleted == old(
                        self,
                    ).deleted)
                },
                Err(e) => {
                    &&& final(self).view() == old(self).view()
                    &&& final(self).dev() == old(self).dev()
                    &&& final(self).index == old(self).index
                    &&& final(self).deleted == old(self).deleted
                    &&& (!(e is OutOfSpace) ==> *final(self) == *old(self))
                    &&& match e {
                        Error::InvalidKey => !valid_key(key@),
                        Error::InvalidValue => valid_key(key@) && !valid_val(val@),
                        Error::OutOfSpace => valid_key(key@) && valid_val(val@)
                            && !fits_next_strand(*old(self), key@, val@),
                        _ => false,
                    }
                },
            },
    {
        match Self::verify_key(key) {
            Ok(_) => {},
            Err(e) => {
                return Err(e);
            },
        };
        match Self::verify_val(val) {
            Ok(_) => {},
            Err(e) => {
                return Err(e);
            },
        };
        let old_ptr: Option<FilePointer> = self.index.get(key);
        match old_ptr {
            None => {
                proof {
                    if self.cache.contents().contains_key(key@) {
                        assert(self.view().contains_key(key@));
                    }
                }
                self.publish(key, val)
            },
            Some(op) => {
                self.cache.remove(key);
                let ghost mid = *self;
                proof {
                    assert(mid.view() =~= old(self).view());
                }
                match self.publish(key, val) {
                    Ok(_) => {},
                    Err(e) => {
                        return Err(e);
                    },
                };
                proof {
                    assert(entry_ok(mid.dev(), mid.volume.strands@, op));
                    lemma_entry_ok_logged(mid.dev(), mid.volume.strands@, op);
                    let p = choose|p: FilePointer|
                        {
                            &&& self.imap() == mid.imap().insert(key@, p)
                            &&& (forall|q: FilePointer| #[trigger]
                                ptr_logged(mid.volume.strands@, q) ==> q != p)
                        };
                    assert forall|k: Seq<u8>| #[trigger]
                        self.imap().contains_key(k) implies self.imap()[k] != op by {
                        if k == key@ {
                            assert(ptr_logged(mid.volume.strands@, op));
                        } else {
                            assert(mid.imap()[k] != mid.imap()[key@]);
                        }
                    }
                }
                self.retire(op);
                Ok(())
            },
        }
    }

    /// Removes the item under `key`; absence is not an error.
    pub fn remove(&mut self, key: &[u8]) -> (r: Result<(), Error>)
        requires
            old(self).inv(),
        ensures
            final(self).inv(),
            match r {
                Ok(_) => {
                    &&& valid_key(key@)
                    &&& final(self).view() == old(self).view().remove(key@)
                    &&& final(self).dev() == old(self).dev()
                    &&& (old(self).view().contains_key(key@) ==> {
                        &&& final(self).deleted.view() == old(self).deleted.view().push(
                            old(self).imap()[key@],
                        )
                        &&& final(self).imap() == old(self).imap().remove(key@)
                        &&& final(self).cache.contents() == old(self).cache.contents().remove(
                            key@,
                        )
                    })
                    &&& (!old(self).view().contains_key(key@) ==> *final(self) == *old(self))
                },
                Err(e) => {
                    &&& e is InvalidKey
                    &&& !valid_key(key@)
                    &&& *final(self) == *old(self)
                },
            },
    {
        match Self::verify_key(key) {
            Ok(_) => {},
            Err(e) => {
                return Err(e);
            },
        };
        let old_ptr: FilePointer = match self.index.get(key) {
            Some(p) => p,
            None => {
                proof {
                    assert(self.view() =~= old(self).view().remove(key@));
                }
                return Ok(());
            },
        };
        self.cache.remove(key);
        self.index.remove(key);
        proof {
            assert(self.view() =~= old(self).view().remove(key@));
            assert forall|k: Seq<u8>| #[trigger]
                self.cache.contents().contains_key(k) implies self.view().contains_key(k)
                && self.cache.contents()[k] == self.view()[k] by {
                assert(old(self).cache.contents().contains_pair(k, self.cache.contents()[k]));
                assert(k != key@);
            }
            assert forall|k: Seq<u8>| #[trigger]
                self.imap().contains_key(k) implies self.imap()[k] != old_ptr by {
                assert(old(self).imap()[k] != old(self).imap()[key@]);
            }
            assert(entry_ok(old(self).dev(), old(self).volume.strands@, old_ptr));
            lemma_entry_ok_logged(old(self).dev(), old(self).volume.strands@, old_ptr);
        }
        self.retire(old_ptr);
        Ok(())
    }

    /// Removes the item under `key`, first copying as much of its
    /// value as fits into `val`; returns the number of bytes copied.
    pub fn delete(&mut self, key: &[u8], val: &mut Vec<u8>) -> (r: Result<usize, Error>)
        requires
            old(self).inv(),
        ensures
            final(self).inv(),
            match r {
                Ok(n) => {
                    &&& valid_key(key@)
                    &&& old(self).view().contains_key(key@)
                    &&& final(self).view() == old(self).view().remove(key@)
                    &&& final(self).dev() == old(self).dev()
                    &&& final(self).imap() == old(self).imap().remove(key@)
                    &&& final(self).deleted.view() == old(self).deleted.view().push(
                        old(self).imap()[key@],
                    )
                    &&& final(self).cache.contents() == old(self).cache.contents().remove(key@)
                    &&& n == (if old(self).view()[key@].len() < old(val)@.len() {
                        old(self).view()[key@].len() as int
                    } else {
                        old(val)@.len() as int
                    })
                    &&& final(val)@ == old(val)@.update_subrange_with(
                        0,
                        old(self).view()[key@].take(n as int),
                    )
                },
                Err(e) => {
                    &&& final(val)@ == old(val)@
                    &&& *final(self) == *old(self)
                    &&& match e {
                        Error::InvalidKey => !valid_key(key@),
                        Error::ItemNotFound => valid_key(key@) && !old(self).view().contains_key(
                            key@,
                        ),
                        _ => false,
                    }
                },
            },
    {
        match Self::verify_key(key) {
            Ok(_) => {},
            Err(e) => {
                return Err(e);
            },
        };
        let old_ptr: FilePointer = match self.index.get(key) {
            Some(p) => p,
            None => {
                return Err(Error::ItemNotFound);
            },
        };
        proof {
            assert(self.imap().contains_key(key@));
            assert(entry_ok(self.dev(), self.volume.strands@, old_ptr));
        }
        let item: Item = match self.volume.read_item(old_ptr) {
            Ok(item) => item,
            Err(_) => {
                proof {
                    assert(false);
                }
                return Err(Error::Corrupt);
            },
        };
        proof {
            lemma_stats_only_preserves(
                self.dev(),
                old(self).volume.strands@,
                self.volume.strands@,
                self.dev().len() as int,
            );
            assert(self.view() =~= old(self).view());
        }
        self.cache.remove(key);
        self.index.remove(key);
        proof {
            assert(self.view() =~= old(self).view().remove(key@));
            assert forall|k: Seq<u8>| #[trigger]
                self.cache.contents().contains_key(k) implies self.view().contains_key(k)
                && self.cache.contents()[k] == self.view()[k] by {
                assert(old(self).cache.contents().contains_pair(k, self.cache.contents()[k]));
                assert(k != key@);
            }
            assert forall|k: Seq<u8>| #[trigger]
                self.imap().contains_key(k) implies self.imap()[k] != old_ptr by {
                assert(old(self).imap()[k] != old(self).imap()[key@]);
            }
            assert(entry_ok(old(self).dev(), old(self).volume.strands@, old_ptr));
            lemma_entry_ok_logged(old(self).dev(), old(self).volume.strands@, old_ptr);
        }
        self.retire(old_ptr);
        let n: usize = crate::item::copy_slice(item.value.as_slice(), val);
        Ok(n)
    }

    /// Reads, transforms and writes back the item under `key` in one
    /// step.
    ///
    /// `func` receives the stored value, or `None` when the key is
    /// absent, and decides the outcome: `Some` writes its value back
    /// under the key, `None` leaves the key unbound.
    pub fn merge<F: FnOnce(Option<Vec<u8>>) -> Option<Vec<u8>>>(
        &mut self,
        key: &[u8],
        func: F,
    ) -> (r: Result<(), Error>)
        requires
            old(self).inv(),
            forall|arg: Option<Vec<u8>>| #[trigger] call_requires(func, (arg,)),
            forall|arg: Option<Vec<u8>>, out: Option<Vec<u8>>| #[trigger]
                call_ensures(func, (arg,), out) ==> (out matches Some(v) ==> v@.len()
                    <= MAX_VAL_LEN && 32 + key@.len() + v@.len() <= usize::MAX),
        ensures
            final(self).inv(),
            match r {
                Ok(_) => {
                    &&& valid_key(key@)
                    &&& exists|prev: Option<Vec<u8>>, out: Option<Vec<u8>>|
                        {
                            &&& (match prev {
                                Some(v) => old(self).view().contains_pair(key@, v@),
                                None => !old(self).view().contains_key(key@),
                            })
                            &&& #[trigger] call_ensures(func, (prev,), out)
                            &&& (match out {
                                Some(v) => final(self).view() == old(self).view().insert(
                                    key@,
                                    v@,
                                ),
                                None => final(self).view() == old(self).view().remove(key@),
                            })
                        }
                    &&& (old(self).view().contains_key(key@) ==> final(self).deleted.view() == old(
                        self,
                    ).deleted.view().push(old(self).imap()[key@]))
                    &&& (!old(self).view().contains_key(key@) ==> final(self).deleted == old(
                        self,
                    ).deleted)
                },
                Err(e) => {
                    &&& final(self).view() == old(self).view()
                    &&& final(self).dev() == old(self).dev()
                    &&& final(self).index == old(self).index
                    &&& final(self).deleted == old(self).deleted
                    &&& match e {
                        Error::InvalidKey => !valid_key(key@) && *final(self) == *old(self),
                        Error::OutOfSpace => valid_key(key@) && exists|
                            prev: Option<Vec<u8>>,
                            out: Option<Vec<u8>>,
                        |
                            {
                                &&& (match prev {
                                    Some(v) => old(self).view().contains_pair(key@, v@),
                                    None => !old(self).view().contains_key(key@),
                                })
                                &&& #[trigger] call_ensures(func, (prev,), out)
                                &&& (out matches Some(v) && !fits_next_strand(
                                    *old(self),
                                    key@,
                                    v@,
                                ))
                            },
                        _ => false,
                    }
                },
            },
    {
        match Self::verify_key(key) {
            Ok(_) => {},
            Err(e) => {
                return Err(e);
            },
        };
        let old_ptr: Option<FilePointer> = self.index.get(key);
        let prev: Option<Vec<u8>> = match old_ptr {
            Some(p) => {
                proof {
                    assert(self.imap().contains_key(key@));
                    assert(entry_ok(self.dev(), self.volume.strands@, p));
                }
                let item: Item = match self.volume.read_item(p) {
                    Ok(item) => item,
                    Err(_) => {
                        proof {
                            assert(false);
                        }
                        return Err(Error::Corrupt);
                    },
                };
                Some(item.value)
            },
            None => None,
        };
        proof {
            lemma_stats_only_preserves(
                self.dev(),
                old(self).volume.strands@,
                self.volume.strands@,
                self.dev().len() as int,
            );
            assert(self.view() =~= old(self).view());
        }
        let ghost gprev = prev;
        self.cache.remove(key);
        let ghost mid = *self;
        proof {
            assert(mid.view() =~= old(self).view());
        }
        let out: Option<Vec<u8>> = func(prev);
        match out {
            Some(v) => {
                match self.publish(key, v.as_slice()) {
                    Ok(_) => {},
                    Err(e) => {
                        proof {
                            let wi = old(self).volume.next as int;
                            assert(mid.volume.strands@[wi].spec_frame() == old(
                                self,
                            ).volume.strands@[wi].spec_frame());
                            assert(!fits_next_strand(*old(self), key@, v@));
                            assert(call_ensures(func, (gprev,), Some(v)));
                        }
                        return Err(e);
                    },
                };
                match old_ptr {
                    Some(op) => {
                        proof {
                            assert(entry_ok(mid.dev(), mid.volume.strands@, op));
                            lemma_entry_ok_logged(mid.dev(), mid.volume.strands@, op);
                            let p = choose|p: FilePointer|
                                {
                                    &&& self.imap() == mid.imap().insert(key@, p)
                                    &&& (forall|q: FilePointer| #[trigger]
                                        ptr_logged(mid.volume.strands@, q) ==> q != p)
                                };
                            assert forall|k: Seq<u8>| #[trigger]
                                self.imap().contains_key(k) implies self.imap()[k] != op by {
                                if k == key@ {
                                    assert(ptr_logged(mid.volume.strands@, op));
                                } else {
                                    assert(mid.imap()[k] != mid.imap()[key@]);
                                }
                            }
                        }
                        self.retire(op);
                    },
                    None => {},
                };
                proof {
                    assert(call_ensures(func, (gprev,), Some(v)));
                }
                Ok(())
            },
            None => {
                match old_ptr {
                    Some(op) => {
                        self.index.remove(key);
                        proof {
                            assert(self.view() =~= old(self).view().remove(key@));
                            assert forall|k: Seq<u8>| #[trigger]
                                self.cache.contents().contains_key(k) implies self.view(
                            ).contains_key(k) && self.cache.contents()[k] == self.view()[k] by {
                                assert(old(self).cache.contents().contains_pair(
                                    k,
                                    self.cache.contents()[k],
                                ));
                                assert(k != key@);
                            }
                            assert forall|k: Seq<u8>| #[trigger]
                                self.imap().contains_key(k) implies self.imap()[k] != op by {
                                assert(old(self).imap()[k] != old(self).imap()[key@]);
                            }
                            assert(entry_ok(mid.dev(), mid.volume.strands@, op));
                            lemma_entry_ok_logged(mid.dev(), mid.volume.strands@, op);
                        }
                        self.retire(op);
                    },
                    None => {
                        proof {
                            assert(self.view() =~= old(self).view().remove(key@));
                        }
                    },
                };
                proof {
                    assert(call_ensures(func, (gprev,), Option::<Vec<u8>>::None));
                }
                Ok(())
            },
        }
    }

    /// Retrieves statistics about the datastore.
    pub fn stats(&self) -> (r: Stats)
        ensures
            r == crate::volume::strands_stats_sum(self.volume.strands@),
    {
        self.volume.stats()
    }
}

} // verus!
