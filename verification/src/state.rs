//! The persisted datastore state: a snapshot of the index and the
//! deleted set, written on close and read back on open.

use vstd::prelude::*;

use vstd::bytes::{lemma_auto_spec_u64_to_from_le_bytes, spec_u64_to_le_bytes, u64_to_le_bytes};
use vstd::slice::slice_to_vec;
use crate::deleted::Deleted;
use crate::device::Memory;
use crate::error::Error;
use crate::index::Index;
use crate::io::StrandReader;
use crate::serial::{get_u64, lemma_subrange_of_subrange, lemma_subrange_split};
use crate::strand::Strand;
use crate::{FilePointer, MAX_KEY_LEN};

verus! {

/// Signature starting a persisted datastore state.
pub const STATE_MAGIC: u64 = 0x3d96b10fc75ae284;

/// The serialisation of one index entry: key length, pointer, key
/// bytes.
pub open spec fn entry_bytes(key: Seq<u8>, ptr: FilePointer) -> Seq<u8> {
    spec_u64_to_le_bytes(key.len() as u64) + spec_u64_to_le_bytes(ptr) + key
}

/// The serialisation of a run of index entries.
pub open spec fn entries_bytes(s: Seq<(Seq<u8>, FilePointer)>) -> Seq<u8>
    decreases s.len(),
{
    if s.len() == 0 {
        Seq::empty()
    } else {
        entries_bytes(s.drop_last()) + entry_bytes(s.last().0, s.last().1)
    }
}

/// The serialisation of a run of deleted pointers.
pub open spec fn ptrs_bytes(s: Seq<FilePointer>) -> Seq<u8>
    decreases s.len(),
{
    if s.len() == 0 {
        Seq::empty()
    } else {
        ptrs_bytes(s.drop_last()) + spec_u64_to_le_bytes(s.last())
    }
}

/// The full serialisation of a datastore state.
pub open spec fn state_bytes(idx: Seq<(Seq<u8>, FilePointer)>, del: Seq<FilePointer>) -> Seq<u8> {
    spec_u64_to_le_bytes(STATE_MAGIC) + spec_u64_to_le_bytes(idx.len() as u64)
        + spec_u64_to_le_bytes(del.len() as u64) + entries_bytes(idx) + ptrs_bytes(del)
}

/// A run of entries serialises as its first entry followed by the
/// rest.
proof fn lemma_entries_bytes_first(s: Seq<(Seq<u8>, FilePointer)>)
    requires
        s.len() > 0,
    ensures
        entries_bytes(s) == entry_bytes(s[0].0, s[0].1) + entries_bytes(s.drop_first()),
    decreases s.len(),
{
    if s.len() == 1 {
        assert(s.drop_last().len() == 0);
        assert(entries_bytes(s.drop_last()) =~= Seq::<u8>::empty());
        assert(s.drop_first().len() == 0);
        assert(entries_bytes(s.drop_first()) =~= Seq::<u8>::empty());
        assert(entries_bytes(s) =~= entry_bytes(s[0].0, s[0].1) + entries_bytes(s.drop_first()));
    } else {
        let dl = s.drop_last();
        lemma_entries_bytes_first(dl);
        assert(dl[0] == s[0]);
        assert(dl.drop_first() =~= s.drop_first().drop_last());
        assert(s.drop_first().last() == s.last());
        assert(entries_bytes(s.drop_first()) == entries_bytes(s.drop_first().drop_last())
            + entry_bytes(s.last().0, s.last().1));
        assert(entries_bytes(s) =~= entry_bytes(s[0].0, s[0].1) + entries_bytes(s.drop_first()));
    }
}

/// A run of pointers serialises as its first pointer followed by the
/// rest.
proof fn lemma_ptrs_bytes_first(s: Seq<FilePointer>)
    requires
        s.len() > 0,
    ensures
        ptrs_bytes(s) == spec_u64_to_le_bytes(s[0]) + ptrs_bytes(s.drop_first()),
    decreases s.len(),
{
    if s.len() == 1 {
        assert(s.drop_last().len() == 0);
        assert(ptrs_bytes(s.drop_last()) =~= Seq::<u8>::empty());
        assert(s.drop_first().len() == 0);
        assert(ptrs_bytes(s.drop_first()) =~= Seq::<u8>::empty());
        assert(ptrs_bytes(s) =~= spec_u64_to_le_bytes(s[0]) + ptrs_bytes(s.drop_first()));
    } else {
        let dl = s.drop_last();
        lemma_ptrs_bytes_first(dl);
        assert(dl[0] == s[0]);
        assert(dl.drop_first() =~= s.drop_first().drop_last());
        assert(s.drop_first().last() == s.last());
        assert(ptrs_bytes(s.drop_first()) == ptrs_bytes(s.drop_first().drop_last())
            + spec_u64_to_le_bytes(s.last()));
        assert(ptrs_bytes(s) =~= spec_u64_to_le_bytes(s[0]) + ptrs_bytes(s.drop_first()));
    }
}

/// Two equally long entry runs serialised at the front of the same
/// bytes are the same run.
proof fn lemma_entries_bytes_unique(
    x: Seq<u8>,
    e1: Seq<(Seq<u8>, FilePointer)>,
    e2: Seq<(Seq<u8>, FilePointer)>,
)
    requires
        e1.len() == e2.len(),
        forall|i: int| 0 <= i < e1.len() ==> (#[trigger] e1[i]).0.len() <= u64::MAX,
        forall|i: int| 0 <= i < e2.len() ==> (#[trigger] e2[i]).0.len() <= u64::MAX,
        entries_bytes(e1).len() <= x.len(),
        entries_bytes(e2).len() <= x.len(),
        x.subrange(0, entries_bytes(e1).len() as int) == entries_bytes(e1),
        x.subrange(0, entries_bytes(e2).len() as int) == entries_bytes(e2),
    ensures
        e1 == e2,
        entries_bytes(e1).len() == entries_bytes(e2).len(),
    decreases e1.len(),
{
    vstd::bytes::lemma_auto_spec_u64_to_from_le_bytes();
    if e1.len() == 0 {
        assert(e1 =~= e2);
    } else {
        lemma_entries_bytes_first(e1);
        lemma_entries_bytes_first(e2);
        let k1 = e1[0].0;
        let k2 = e2[0].0;
        let b1 = entry_bytes(k1, e1[0].1);
        let b2 = entry_bytes(k2, e2[0].1);
        let r1 = entries_bytes(e1.drop_first());
        let r2 = entries_bytes(e2.drop_first());
        assert(b1.len() == 16 + k1.len());
        assert(b2.len() == 16 + k2.len());
        assert(x.subrange(0, b1.len() as int) =~= b1);
        assert(x.subrange(0, b2.len() as int) =~= b2);
        assert(b1.subrange(0, 8) =~= spec_u64_to_le_bytes(k1.len() as u64));
        assert(b2.subrange(0, 8) =~= spec_u64_to_le_bytes(k2.len() as u64));
        lemma_subrange_of_subrange(x, 0, b1.len() as int, 0, 8);
        lemma_subrange_of_subrange(x, 0, b2.len() as int, 0, 8);
        assert(spec_u64_to_le_bytes(k1.len() as u64) == spec_u64_to_le_bytes(k2.len() as u64));
        assert(k1.len() as u64 == k2.len() as u64);
        assert(k1.len() == k2.len());
        assert(b1.subrange(8, 16) =~= spec_u64_to_le_bytes(e1[0].1));
        assert(b2.subrange(8, 16) =~= spec_u64_to_le_bytes(e2[0].1));
        lemma_subrange_of_subrange(x, 0, b1.len() as int, 8, 16);
        lemma_subrange_of_subrange(x, 0, b2.len() as int, 8, 16);
        assert(e1[0].1 == e2[0].1);
        assert(b1.subrange(16, b1.len() as int) =~= k1);
        assert(b2.subrange(16, b2.len() as int) =~= k2);
        lemma_subrange_of_subrange(x, 0, b1.len() as int, 16, b1.len() as int);
        lemma_subrange_of_subrange(x, 0, b2.len() as int, 16, b2.len() as int);
        assert(k1 == k2);
        assert(e1[0] == e2[0]);
        let step = b1.len() as int;
        let y = x.skip(step);
        assert(y.subrange(0, r1.len() as int) =~= r1) by {
            assert forall|i: int| 0 <= i < r1.len() implies y.subrange(0, r1.len() as int)[i]
                == r1[i] by {
                assert(y[i] == x[step + i]);
                assert(x[step + i] == x.subrange(0, entries_bytes(e1).len() as int)[step + i]);
                assert(entries_bytes(e1)[step + i] == r1[i]);
            }
            assert(y.subrange(0, r1.len() as int).len() == r1.len());
        }
        assert(y.subrange(0, r2.len() as int) =~= r2) by {
            assert forall|i: int| 0 <= i < r2.len() implies y.subrange(0, r2.len() as int)[i]
                == r2[i] by {
                assert(y[i] == x[step + i]);
                assert(x[step + i] == x.subrange(0, entries_bytes(e2).len() as int)[step + i]);
                assert(entries_bytes(e2)[step + i] == r2[i]);
            }
            assert(y.subrange(0, r2.len() as int).len() == r2.len());
        }
        assert(forall|i: int|
            0 <= i < e1.drop_first().len() ==> (#[trigger] e1.drop_first()[i]) == e1[i + 1]);
        assert(forall|i: int|
            0 <= i < e2.drop_first().len() ==> (#[trigger] e2.drop_first()[i]) == e2[i + 1]);
        lemma_entries_bytes_unique(y, e1.drop_first(), e2.drop_first());
        assert(e1 =~= e2) by {
            assert forall|i: int| 0 <= i < e1.len() implies e1[i] == e2[i] by {
                if i > 0 {
                    assert(e1[i] == e1.drop_first()[i - 1]);
                    assert(e2[i] == e2.drop_first()[i - 1]);
                }
            }
        }
    }
}

/// Two equally long pointer runs serialised at the front of the same
/// bytes are the same run.
proof fn lemma_ptrs_bytes_unique(x: Seq<u8>, d1: Seq<FilePointer>, d2: Seq<FilePointer>)
    requires
        d1.len() == d2.len(),
        ptrs_bytes(d1).len() <= x.len(),
        ptrs_bytes(d2).len() <= x.len(),
        x.subrange(0, ptrs_bytes(d1).len() as int) == ptrs_bytes(d1),
        x.subrange(0, ptrs_bytes(d2).len() as int) == ptrs_bytes(d2),
    ensures
        d1 == d2,
        ptrs_bytes(d1).len() == ptrs_bytes(d2).len(),
    decreases d1.len(),
{
    vstd::bytes::lemma_auto_spec_u64_to_from_le_bytes();
    if d1.len() == 0 {
        assert(d1 =~= d2);
    } else {
        lemma_ptrs_bytes_first(d1);
        lemma_ptrs_bytes_first(d2);
        let r1 = ptrs_bytes(d1.drop_first());
        let r2 = ptrs_bytes(d2.drop_first());
        assert(ptrs_bytes(d1).len() == 8 + r1.len());
        assert(ptrs_bytes(d2).len() == 8 + r2.len());
        assert(x.subrange(0, 8) =~= spec_u64_to_le_bytes(d1[0]));
        assert(x.subrange(0, 8) =~= spec_u64_to_le_bytes(d2[0]));
        assert(d1[0] == d2[0]);
        let y = x.skip(8);
        assert(y.subrange(0, r1.len() as int) =~= r1) by {
            assert forall|i: int| 0 <= i < r1.len() implies y.subrange(0, r1.len() as int)[i]
                == r1[i] by {
                assert(y[i] == x[8 + i]);
                assert(x[8 + i] == x.subrange(0, ptrs_bytes(d1).len() as int)[8 + i]);
                assert(ptrs_bytes(d1)[8 + i] == r1[i]);
            }
            assert(y.subrange(0, r1.len() as int).len() == r1.len());
        }
        assert(y.subrange(0, r2.len() as int) =~= r2) by {
            assert forall|i: int| 0 <= i < r2.len() implies y.subrange(0, r2.len() as int)[i]
                == r2[i] by {
                assert(y[i] == x[8 + i]);
                assert(x[8 + i] == x.subrange(0, ptrs_bytes(d2).len() as int)[8 + i]);
                assert(ptrs_bytes(d2)[8 + i] == r2[i]);
            }
            assert(y.subrange(0, r2.len() as int).len() == r2.len());
        }
        lemma_ptrs_bytes_unique(y, d1.drop_first(), d2.drop_first());
        assert(d1 =~= d2) by {
            assert forall|i: int| 0 <= i < d1.len() implies d1[i] == d2[i] by {
                if i > 0 {
                    assert(d1[i] == d1.drop_first()[i - 1]);
                    assert(d2[i] == d2.drop_first()[i - 1]);
                }
            }
        }
    }
}

/// The persisted snapshot determines the state it holds: two states
/// whose serialisations begin at the same place in the same bytes are
/// the same state.  What [`DatastoreState::decode`] reads back from a
/// snapshot that a store persisted is therefore exactly the persisted
/// index and deleted set.
pub proof fn law_snapshot_determines_state(
    x: Seq<u8>,
    at: int,
    e1: Seq<(Seq<u8>, FilePointer)>,
    d1: Seq<FilePointer>,
    e2: Seq<(Seq<u8>, FilePointer)>,
    d2: Seq<FilePointer>,
)
    requires
        0 <= at,
        forall|i: int| 0 <= i < e1.len() ==> (#[trigger] e1[i]).0.len() <= u64::MAX,
        forall|i: int| 0 <= i < e2.len() ==> (#[trigger] e2[i]).0.len() <= u64::MAX,
        e1.len() <= u64::MAX,
        e2.len() <= u64::MAX,
        d1.len() <= u64::MAX,
        d2.len() <= u64::MAX,
        at + state_bytes(e1, d1).len() <= x.len(),
        at + state_bytes(e2, d2).len() <= x.len(),
        x.subrange(at, at + state_bytes(e1, d1).len()) == state_bytes(e1, d1),
        x.subrange(at, at + state_bytes(e2, d2).len()) == state_bytes(e2, d2),
    ensures
        e1 == e2,
        d1 == d2,
{
    vstd::bytes::lemma_auto_spec_u64_to_from_le_bytes();
    let sb1 = state_bytes(e1, d1);
    let sb2 = state_bytes(e2, d2);
    let eb1 = entries_bytes(e1);
    let eb2 = entries_bytes(e2);
    assert(sb1.len() == 24 + eb1.len() + ptrs_bytes(d1).len());
    assert(sb2.len() == 24 + eb2.len() + ptrs_bytes(d2).len());
    assert(x.subrange(at + 8, at + 16) =~= spec_u64_to_le_bytes(e1.len() as u64)) by {
        assert forall|i: int| 0 <= i < 8 implies #[trigger] x.subrange(at + 8, at + 16)[i]
            == spec_u64_to_le_bytes(e1.len() as u64)[i] by {
            assert(x[at + 8 + i] == x.subrange(at, at + sb1.len())[8 + i]);
            assert(sb1[8 + i] == spec_u64_to_le_bytes(e1.len() as u64)[i]);
        }
    }
    assert(x.subrange(at + 8, at + 16) =~= spec_u64_to_le_bytes(e2.len() as u64)) by {
        assert forall|i: int| 0 <= i < 8 implies #[trigger] x.subrange(at + 8, at + 16)[i]
            == spec_u64_to_le_bytes(e2.len() as u64)[i] by {
            assert(x[at + 8 + i] == x.subrange(at, at + sb2.len())[8 + i]);
            assert(sb2[8 + i] == spec_u64_to_le_bytes(e2.len() as u64)[i]);
        }
    }
    assert(e1.len() == e2.len());
    assert(x.subrange(at + 16, at + 24) =~= spec_u64_to_le_bytes(d1.len() as u64)) by {
        assert forall|i: int| 0 <= i < 8 implies #[trigger] x.subrange(at + 16, at + 24)[i]
            == spec_u64_to_le_bytes(d1.len() as u64)[i] by {
            assert(x[at + 16 + i] == x.subrange(at, at + sb1.len())[16 + i]);
            assert(sb1[16 + i] == spec_u64_to_le_bytes(d1.len() as u64)[i]);
        }
    }
    assert(x.subrange(at + 16, at + 24) =~= spec_u64_to_le_bytes(d2.len() as u64)) by {
        assert forall|i: int| 0 <= i < 8 implies #[trigger] x.subrange(at + 16, at + 24)[i]
            == spec_u64_to_le_bytes(d2.len() as u64)[i] by {
            assert(x[at + 16 + i] == x.subrange(at, at + sb2.len())[16 + i]);
            assert(sb2[16 + i] == spec_u64_to_le_bytes(d2.len() as u64)[i]);
        }
    }
    assert(d1.len() == d2.len());
    let y = x.skip(at + 24);
    assert(y.subrange(0, eb1.len() as int) =~= eb1) by {
        assert forall|i: int| 0 <= i < eb1.len() implies y.subrange(0, eb1.len() as int)[i]
            == eb1[i] by {
            assert(y[i] == x[at + 24 + i]);
            assert(x[at + 24 + i] == x.subrange(at, at + sb1.len())[24 + i]);
            assert(sb1[24 + i] == eb1[i]);
        }
        assert(y.subrange(0, eb1.len() as int).len() == eb1.len());
    }
    assert(y.subrange(0, eb2.len() as int) =~= eb2) by {
        assert forall|i: int| 0 <= i < eb2.len() implies y.subrange(0, eb2.len() as int)[i]
            == eb2[i] by {
            assert(y[i] == x[at + 24 + i]);
            assert(x[at + 24 + i] == x.subrange(at, at + sb2.len())[24 + i]);
            assert(sb2[24 + i] == eb2[i]);
        }
        assert(y.subrange(0, eb2.len() as int).len() == eb2.len());
    }
    lemma_entries_bytes_unique(y, e1, e2);
    let z = y.skip(eb1.len() as int);
    assert(z.subrange(0, ptrs_bytes(d1).len() as int) =~= ptrs_bytes(d1)) by {
        assert forall|i: int| 0 <= i < ptrs_bytes(d1).len() implies z.subrange(
            0,
            ptrs_bytes(d1).len() as int,
        )[i] == ptrs_bytes(d1)[i] by {
            assert(z[i] == x[at + 24 + eb1.len() + i]);
            assert(x[at + 24 + eb1.len() + i] == x.subrange(at, at + sb1.len())[24 + eb1.len()
                + i]);
            assert(sb1[24 + eb1.len() + i] == ptrs_bytes(d1)[i]);
        }
        assert(z.subrange(0, ptrs_bytes(d1).len() as int).len() == ptrs_bytes(d1).len());
    }
    assert(z.subrange(0, ptrs_bytes(d2).len() as int) =~= ptrs_bytes(d2)) by {
        assert forall|i: int| 0 <= i < ptrs_bytes(d2).len() implies z.subrange(
            0,
            ptrs_bytes(d2).len() as int,
        )[i] == ptrs_bytes(d2)[i] by {
            assert(z[i] == x[at + 24 + eb1.len() + i]);
            assert(x[at + 24 + eb2.len() + i] == x.subrange(at, at + sb2.len())[24 + eb2.len()
                + i]);
            assert(sb2[24 + eb2.len() + i] == ptrs_bytes(d2)[i]);
        }
        assert(z.subrange(0, ptrs_bytes(d2).len() as int).len() == ptrs_bytes(d2).len());
    }
    lemma_ptrs_bytes_unique(z, d1, d2);
}

/// A well-formed snapshot of `(idx, del)` lies at `ptr` inside the
/// strand `[start, start + capacity)`: unique keys of lawful length,
/// unique pointers, and the serialisation itself on the device.
pub open spec fn valid_snapshot_at(
    dev: Seq<u8>,
    start: int,
    capacity: int,
    ptr: int,
    idx: Seq<(Seq<u8>, FilePointer)>,
    del: Seq<FilePointer>,
) -> bool {
    &&& crate::index::idx_distinct(idx)
    &&& (forall|i: int| 0 <= i < idx.len() ==> 1 <= (#[trigger] idx[i]).0.len() <= MAX_KEY_LEN)
    &&& del.no_duplicates()
    &&& idx.len() <= u64::MAX
    &&& del.len() <= u64::MAX
    &&& 0 <= start <= ptr
    &&& ptr + state_bytes(idx, del).len() <= start + capacity
    &&& ptr + state_bytes(idx, del).len() <= dev.len()
    &&& dev.subrange(ptr, ptr + state_bytes(idx, del).len()) == state_bytes(idx, del)
}

/// Entry runs take at least sixteen bytes per entry.
proof fn lemma_entries_bytes_min_len(s: Seq<(Seq<u8>, FilePointer)>)
    ensures
        entries_bytes(s).len() >= 16 * s.len(),
    decreases s.len(),
{
    vstd::bytes::lemma_auto_spec_u64_to_from_le_bytes();
    if s.len() > 0 {
        lemma_entries_bytes_min_len(s.drop_last());
    }
}

/// Pointer runs take exactly eight bytes per pointer.
proof fn lemma_ptrs_bytes_len(s: Seq<FilePointer>)
    ensures
        ptrs_bytes(s).len() == 8 * s.len(),
    decreases s.len(),
{
    vstd::bytes::lemma_auto_spec_u64_to_from_le_bytes();
    if s.len() > 0 {
        lemma_ptrs_bytes_len(s.drop_last());
    }
}

/// An entry run serialises as its first `i` entries followed by the
/// rest.
proof fn lemma_entries_bytes_split(s: Seq<(Seq<u8>, FilePointer)>, i: int)
    requires
        0 <= i <= s.len(),
    ensures
        entries_bytes(s) == entries_bytes(s.take(i)) + entries_bytes(s.skip(i)),
    decreases i,
{
    if i == 0 {
        assert(s.take(0).len() == 0);
        assert(entries_bytes(s.take(0)) =~= Seq::<u8>::empty());
        assert(s.skip(0) =~= s);
        assert(entries_bytes(s) =~= entries_bytes(s.take(0)) + entries_bytes(s.skip(0)));
    } else {
        lemma_entries_bytes_split(s, i - 1);
        assert(s.skip(i - 1).len() > 0);
        lemma_entries_bytes_first(s.skip(i - 1));
        assert(s.skip(i - 1)[0] == s[i - 1]);
        assert(s.skip(i - 1).drop_first() =~= s.skip(i));
        assert(s.take(i).drop_last() =~= s.take(i - 1));
        assert(s.take(i).last() == s[i - 1]);
        assert(entries_bytes(s.take(i)) == entries_bytes(s.take(i - 1)) + entry_bytes(
            s[i - 1].0,
            s[i - 1].1,
        ));
        assert(entries_bytes(s) =~= entries_bytes(s.take(i)) + entries_bytes(s.skip(i)));
    }
}

/// A pointer run serialises as its first `i` pointers followed by the
/// rest.
proof fn lemma_ptrs_bytes_split(s: Seq<FilePointer>, i: int)
    requires
        0 <= i <= s.len(),
    ensures
        ptrs_bytes(s) == ptrs_bytes(s.take(i)) + ptrs_bytes(s.skip(i)),
    decreases i,
{
    if i == 0 {
        assert(s.take(0).len() == 0);
        assert(ptrs_bytes(s.take(0)) =~= Seq::<u8>::empty());
        assert(s.skip(0) =~= s);
        assert(ptrs_bytes(s) =~= ptrs_bytes(s.take(0)) + ptrs_bytes(s.skip(0)));
    } else {
        lemma_ptrs_bytes_split(s, i - 1);
        assert(s.skip(i - 1).len() > 0);
        lemma_ptrs_bytes_first(s.skip(i - 1));
        assert(s.skip(i - 1)[0] == s[i - 1]);
        assert(s.skip(i - 1).drop_first() =~= s.skip(i));
        assert(s.take(i).drop_last() =~= s.take(i - 1));
        assert(s.take(i).last() == s[i - 1]);
        assert(ptrs_bytes(s.take(i)) == ptrs_bytes(s.take(i - 1)) + spec_u64_to_le_bytes(
            s[i - 1],
        ));
        assert(ptrs_bytes(s) =~= ptrs_bytes(s.take(i)) + ptrs_bytes(s.skip(i)));
    }
}

/// Where entry `i` sits inside a snapshot, and what its bytes are.
proof fn lemma_entry_position(idx: Seq<(Seq<u8>, FilePointer)>, del: Seq<FilePointer>, i: int)
    requires
        0 <= i < idx.len(),
    ensures
        ({
            let sb = state_bytes(idx, del);
            let pos = 24 + entries_bytes(idx.take(i)).len() as int;
            &&& pos + 16 + idx[i].0.len() <= sb.len()
            &&& pos + 16 + idx[i].0.len() == 24 + entries_bytes(idx.take(i + 1)).len()
            &&& sb.subrange(pos, pos + 8) == spec_u64_to_le_bytes(idx[i].0.len() as u64)
            &&& sb.subrange(pos + 8, pos + 16) == spec_u64_to_le_bytes(idx[i].1)
            &&& sb.subrange(pos + 16, pos + 16 + idx[i].0.len()) == idx[i].0
        }),
{
    vstd::bytes::lemma_auto_spec_u64_to_from_le_bytes();
    let sb = state_bytes(idx, del);
    let pos = 24 + entries_bytes(idx.take(i)).len() as int;
    lemma_entries_bytes_split(idx, i);
    assert(idx.skip(i).len() > 0);
    lemma_entries_bytes_first(idx.skip(i));
    assert(idx.skip(i)[0] == idx[i]);
    assert(idx.take(i + 1).drop_last() =~= idx.take(i));
    assert(idx.take(i + 1).last() == idx[i]);
    assert(entries_bytes(idx.take(i + 1)) == entries_bytes(idx.take(i)) + entry_bytes(
        idx[i].0,
        idx[i].1,
    ));
    assert(sb.subrange(pos, pos + 8) =~= spec_u64_to_le_bytes(idx[i].0.len() as u64));
    assert(sb.subrange(pos + 8, pos + 16) =~= spec_u64_to_le_bytes(idx[i].1));
    assert(sb.subrange(pos + 16, pos + 16 + idx[i].0.len()) =~= idx[i].0);
}

/// Where deleted pointer `j` sits inside a snapshot.
proof fn lemma_ptr_position(idx: Seq<(Seq<u8>, FilePointer)>, del: Seq<FilePointer>, j: int)
    requires
        0 <= j < del.len(),
    ensures
        ({
            let sb = state_bytes(idx, del);
            let pos = 24 + entries_bytes(idx).len() + 8 * j;
            &&& pos + 8 <= sb.len()
            &&& sb.subrange(pos as int, pos as int + 8) == spec_u64_to_le_bytes(del[j])
        }),
{
    vstd::bytes::lemma_auto_spec_u64_to_from_le_bytes();
    let sb = state_bytes(idx, del);
    lemma_ptrs_bytes_split(del, j);
    assert(del.skip(j).len() > 0);
    lemma_ptrs_bytes_first(del.skip(j));
    assert(del.skip(j)[0] == del[j]);
    lemma_ptrs_bytes_len(del.take(j));
    lemma_ptrs_bytes_len(del);
    let pos = 24 + entries_bytes(idx).len() + 8 * j;
    assert(sb.subrange(pos as int, pos as int + 8) =~= spec_u64_to_le_bytes(del[j]));
}

/// The fixed fields at the head of a snapshot.
proof fn lemma_snapshot_header_fields(idx: Seq<(Seq<u8>, FilePointer)>, del: Seq<FilePointer>)
    ensures
        ({
            let sb = state_bytes(idx, del);
            &&& sb.len() == 24 + entries_bytes(idx).len() + ptrs_bytes(del).len()
            &&& sb.subrange(0, 8) == spec_u64_to_le_bytes(STATE_MAGIC)
            &&& sb.subrange(8, 16) == spec_u64_to_le_bytes(idx.len() as u64)
            &&& sb.subrange(16, 24) == spec_u64_to_le_bytes(del.len() as u64)
        }),
{
    vstd::bytes::lemma_auto_spec_u64_to_from_le_bytes();
    let sb = state_bytes(idx, del);
    assert(sb.subrange(0, 8) =~= spec_u64_to_le_bytes(STATE_MAGIC));
    assert(sb.subrange(8, 16) =~= spec_u64_to_le_bytes(idx.len() as u64));
    assert(sb.subrange(16, 24) =~= spec_u64_to_le_bytes(del.len() as u64));
}

/// Under a valid snapshot, the device bytes at its head agree with
/// the snapshot's counts, and the whole serialisation fits.
proof fn lemma_snapshot_head_agrees(
    dev: Seq<u8>,
    start: int,
    capacity: int,
    ptr: int,
    idx: Seq<(Seq<u8>, FilePointer)>,
    del: Seq<FilePointer>,
)
    requires
        valid_snapshot_at(dev, start, capacity, ptr, idx, del),
    ensures
        ptr + 24 <= start + capacity,
        dev.subrange(ptr, ptr + 8) == spec_u64_to_le_bytes(STATE_MAGIC),
        dev.subrange(ptr + 8, ptr + 16) == spec_u64_to_le_bytes(idx.len() as u64),
        dev.subrange(ptr + 16, ptr + 24) == spec_u64_to_le_bytes(del.len() as u64),
        ptr + 24 + entries_bytes(idx).len() + ptrs_bytes(del).len() <= start + capacity,
        entries_bytes(idx).len() >= 16 * idx.len(),
        ptrs_bytes(del).len() == 8 * del.len(),
{
    lemma_snapshot_header_fields(idx, del);
    lemma_entries_bytes_min_len(idx);
    lemma_ptrs_bytes_len(del);
    let sb = state_bytes(idx, del);
    lemma_subrange_of_subrange(dev, ptr, ptr + sb.len() as int, 0, 8);
    lemma_subrange_of_subrange(dev, ptr, ptr + sb.len() as int, 8, 16);
    lemma_subrange_of_subrange(dev, ptr, ptr + sb.len() as int, 16, 24);
}

/// Under a valid snapshot, the device bytes where entry `i` sits
/// agree with that entry.
proof fn lemma_snapshot_entry_agrees(
    dev: Seq<u8>,
    start: int,
    capacity: int,
    ptr: int,
    idx: Seq<(Seq<u8>, FilePointer)>,
    del: Seq<FilePointer>,
    i: int,
)
    requires
        valid_snapshot_at(dev, start, capacity, ptr, idx, del),
        0 <= i < idx.len(),
    ensures
        ({
            let pos = ptr + 24 + entries_bytes(idx.take(i)).len() as int;
            &&& pos + 16 + idx[i].0.len() <= start + capacity
            &&& pos + 16 + idx[i].0.len() == ptr + 24 + entries_bytes(idx.take(i + 1)).len()
            &&& dev.subrange(pos, pos + 8) == spec_u64_to_le_bytes(idx[i].0.len() as u64)
            &&& dev.subrange(pos + 8, pos + 16) == spec_u64_to_le_bytes(idx[i].1)
            &&& dev.subrange(pos + 16, pos + 16 + idx[i].0.len()) == idx[i].0
        }),
{
    lemma_entry_position(idx, del, i);
    lemma_snapshot_header_fields(idx, del);
    let sb = state_bytes(idx, del);
    let rel = 24 + entries_bytes(idx.take(i)).len() as int;
    lemma_subrange_of_subrange(dev, ptr, ptr + sb.len() as int, rel, rel + 8);
    lemma_subrange_of_subrange(dev, ptr, ptr + sb.len() as int, rel + 8, rel + 16);
    lemma_subrange_of_subrange(
        dev,
        ptr,
        ptr + sb.len() as int,
        rel + 16,
        rel + 16 + idx[i].0.len() as int,
    );
}

/// Under a valid snapshot, the device bytes where deleted pointer `j`
/// sits agree with that pointer.
proof fn lemma_snapshot_ptr_agrees(
    dev: Seq<u8>,
    start: int,
    capacity: int,
    ptr: int,
    idx: Seq<(Seq<u8>, FilePointer)>,
    del: Seq<FilePointer>,
    j: int,
)
    requires
        valid_snapshot_at(dev, start, capacity, ptr, idx, del),
        0 <= j < del.len(),
    ensures
        ({
            let pos = ptr + 24 + entries_bytes(idx).len() + 8 * j;
            &&& pos + 8 <= start + capacity
            &&& dev.subrange(pos as int, pos as int + 8) == spec_u64_to_le_bytes(del[j])
        }),
{
    lemma_ptr_position(idx, del, j);
    lemma_snapshot_header_fields(idx, del);
    lemma_ptrs_bytes_len(del);
    let sb = state_bytes(idx, del);
    let rel = 24 + entries_bytes(idx).len() + 8 * j;
    lemma_subrange_of_subrange(dev, ptr, ptr + sb.len() as int, rel as int, rel as int + 8);
}

/// The index and deleted set as one persistable value.
#[derive(Debug)]
pub struct DatastoreState {
    /// The index to persist or just loaded.
    pub index: Index,
    /// The deleted set to persist or just loaded.
    pub deleted: Deleted,
}

impl DatastoreState {
    /// Wraps an index and a deleted set.
    pub fn new(index: Index, deleted: Deleted) -> (r: DatastoreState)
        ensures
            r.index == index,
            r.deleted == deleted,
    {
        DatastoreState { index, deleted }
    }

    /// Serialises the state.
    pub fn encode(&self) -> (r: Vec<u8>)
        ensures
            r@ == state_bytes(self.index.view(), self.deleted.view()),
    {
        proof {
            lemma_auto_spec_u64_to_from_le_bytes();
        }
        let n_idx: usize = self.index.len();
        let n_del: usize = self.deleted.len();
        let mut out: Vec<u8> = u64_to_le_bytes(STATE_MAGIC);
        let mut piece: Vec<u8> = u64_to_le_bytes(n_idx as u64);
        out.append(&mut piece);
        let mut piece2: Vec<u8> = u64_to_le_bytes(n_del as u64);
        out.append(&mut piece2);
        let ghost prefix = out@;
        proof {
            assert(entries_bytes(self.index.view().take(0)) =~= Seq::<u8>::empty());
            assert(out@ =~= prefix + entries_bytes(self.index.view().take(0)));
        }
        let mut i: usize = 0;
        while i < n_idx
            invariant
                n_idx == self.index.view().len(),
                i <= n_idx,
                out@ == prefix + entries_bytes(self.index.view().take(i as int)),
            decreases n_idx - i,
        {
            let entry: (&Vec<u8>, FilePointer) = self.index.entry_at(i);
            let mut klen_b: Vec<u8> = u64_to_le_bytes(entry.0.len() as u64);
            out.append(&mut klen_b);
            let mut ptr_b: Vec<u8> = u64_to_le_bytes(entry.1);
            out.append(&mut ptr_b);
            let mut key_b: Vec<u8> = slice_to_vec(entry.0.as_slice());
            out.append(&mut key_b);
            proof {
                lemma_auto_spec_u64_to_from_le_bytes();
                assert(self.index.view().take(i + 1).drop_last() =~= self.index.view().take(
                    i as int,
                ));
                assert(self.index.view().take(i + 1).last() == self.index.view()[i as int]);
                assert(out@ =~= prefix + entries_bytes(self.index.view().take(i + 1)));
            }
            i = i + 1;
        }
        proof {
            assert(self.index.view().take(n_idx as int) =~= self.index.view());
        }
        let ghost prefix2 = out@;
        proof {
            assert(ptrs_bytes(self.deleted.view().take(0)) =~= Seq::<u8>::empty());
            assert(out@ =~= prefix2 + ptrs_bytes(self.deleted.view().take(0)));
        }
        let mut j: usize = 0;
        while j < n_del
            invariant
                n_del == self.deleted.view().len(),
                j <= n_del,
                out@ == prefix2 + ptrs_bytes(self.deleted.view().take(j as int)),
            decreases n_del - j,
        {
            let p: FilePointer = self.deleted.ptr_at(j);
            let mut ptr_b: Vec<u8> = u64_to_le_bytes(p);
            out.append(&mut ptr_b);
            proof {
                lemma_auto_spec_u64_to_from_le_bytes();
                assert(self.deleted.view().take(j + 1).drop_last() =~= self.deleted.view().take(
                    j as int,
                ));
                assert(out@ =~= prefix2 + ptrs_bytes(self.deleted.view().take(j + 1)));
            }
            j = j + 1;
        }
        proof {
            assert(self.deleted.view().take(n_del as int) =~= self.deleted.view());
            assert(out@ =~= state_bytes(self.index.view(), self.deleted.view()));
        }
        out
    }

    /// Reads a state back from the strand bytes starting at `ptr`.
    ///
    /// The loaded index and deleted set pass the load-time validity
    /// checks — unique keys of lawful length, unique pointers — and
    /// the scanned strand bytes are exactly their serialisation.  Any
    /// framing violation fails with [`Error::Corrupt`].
    pub fn decode(strand: &mut Strand, dev: &Memory, ptr: FilePointer) -> (r: Result<
        DatastoreState,
        Error,
    >)
        requires
            dev.wf(),
            old(strand).wf(dev.contents().len() as int),
            old(strand).start <= ptr <= old(strand).start + old(strand).capacity,
        ensures
            final(strand).spec_frame() == old(strand).spec_frame(),
            final(strand).wf(dev.contents().len() as int),
            match r {
                Ok(st) => {
                    &&& st.index.wf()
                    &&& st.deleted.wf()
                    &&& (forall|k: Seq<u8>|
                        #[trigger] st.index.as_map().contains_key(k) ==> 1 <= k.len()
                            <= MAX_KEY_LEN)
                    &&& ptr + state_bytes(st.index.view(), st.deleted.view()).len() <= old(
                        strand,
                    ).start + old(strand).capacity
                    &&& dev.contents().subrange(
                        ptr as int,
                        ptr + state_bytes(st.index.view(), st.deleted.view()).len(),
                    ) == state_bytes(st.index.view(), st.deleted.view())
                    &&& valid_snapshot_at(
                        dev.contents(),
                        old(strand).start as int,
                        old(strand).capacity as int,
                        ptr as int,
                        st.index.view(),
                        st.deleted.view(),
                    )
                },
                Err(e) => {
                    &&& e is Corrupt
                    &&& (forall|idx: Seq<(Seq<u8>, FilePointer)>, del: Seq<FilePointer>|
                        !#[trigger] valid_snapshot_at(
                            dev.contents(),
                            old(strand).start as int,
                            old(strand).capacity as int,
                            ptr as int,
                            idx,
                            del,
                        ))
                },
            },
    {
        proof {
            lemma_auto_spec_u64_to_from_le_bytes();
        }
        let capacity: u64 = strand.get_capacity();
        let start: u64 = strand.get_start();
        let mut cursor: u64 = ptr - start;
        if capacity - cursor < 24 {
            proof {
                assert forall|idx: Seq<(Seq<u8>, FilePointer)>, del: Seq<FilePointer>|
                    !#[trigger] valid_snapshot_at(
                    dev.contents(),
                    old(strand).start as int,
                    old(strand).capacity as int,
                    ptr as int,
                    idx,
                    del,
                ) by {
                    if valid_snapshot_at(
                    dev.contents(),
                    old(strand).start as int,
                    old(strand).capacity as int,
                    ptr as int,
                    idx,
                    del,
                ) {
                        lemma_snapshot_head_agrees(
                            dev.contents(),
                            old(strand).start as int,
                            old(strand).capacity as int,
                            ptr as int,
                            idx,
                            del,
                        );
                    }
                }
            }
            return Err(Error::Corrupt);
        }
        let mut reader: StrandReader = StrandReader::new(strand, ptr);
        let hdr: Vec<u8> = match reader.read_exact(strand, dev, 24) {
            Ok(v) => v,
            Err(_) => {
                return Err(Error::Corrupt);
            },
        };
        cursor = cursor + 24;
        proof {
            lemma_subrange_of_subrange(dev.contents(), ptr as int, ptr + 24, 0, 8);
            lemma_subrange_of_subrange(dev.contents(), ptr as int, ptr + 24, 8, 16);
            lemma_subrange_of_subrange(dev.contents(), ptr as int, ptr + 24, 16, 24);
        }
        let magic: u64 = get_u64(hdr.as_slice(), 0);
        let n_idx: u64 = get_u64(hdr.as_slice(), 8);
        let n_del: u64 = get_u64(hdr.as_slice(), 16);
        if magic != STATE_MAGIC {
            proof {
                assert forall|idx: Seq<(Seq<u8>, FilePointer)>, del: Seq<FilePointer>|
                    !#[trigger] valid_snapshot_at(
                    dev.contents(),
                    old(strand).start as int,
                    old(strand).capacity as int,
                    ptr as int,
                    idx,
                    del,
                ) by {
                    if valid_snapshot_at(
                    dev.contents(),
                    old(strand).start as int,
                    old(strand).capacity as int,
                    ptr as int,
                    idx,
                    del,
                ) {
                        lemma_snapshot_head_agrees(
                            dev.contents(),
                            old(strand).start as int,
                            old(strand).capacity as int,
                            ptr as int,
                            idx,
                            del,
                        );
                    }
                }
            }
            return Err(Error::Corrupt);
        }
        let ghost start_abs = old(strand).start as int;
        proof {
            vstd::assert_seqs_equal!(
                dev.contents().subrange(ptr as int, ptr + 24)
                    == spec_u64_to_le_bytes(STATE_MAGIC) + spec_u64_to_le_bytes(n_idx)
                    + spec_u64_to_le_bytes(n_del)
            );
        }
        // Every entry takes at least 16 bytes, every pointer 8: the
        // counts cannot outrun the strand.
        let left: u64 = capacity - cursor;
        if n_idx > left / 16 || n_del > left / 8 {
            proof {
                assert forall|idx: Seq<(Seq<u8>, FilePointer)>, del: Seq<FilePointer>|
                    !#[trigger] valid_snapshot_at(
                    dev.contents(),
                    old(strand).start as int,
                    old(strand).capacity as int,
                    ptr as int,
                    idx,
                    del,
                ) by {
                    if valid_snapshot_at(
                    dev.contents(),
                    old(strand).start as int,
                    old(strand).capacity as int,
                    ptr as int,
                    idx,
                    del,
                ) {
                        lemma_snapshot_head_agrees(
                            dev.contents(),
                            old(strand).start as int,
                            old(strand).capacity as int,
                            ptr as int,
                            idx,
                            del,
                        );
                        vstd::arithmetic::div_mod::lemma_div_is_ordered(
                            16 * idx.len() as int,
                            left as int,
                            16,
                        );
                        vstd::arithmetic::div_mod::lemma_div_multiples_vanish(idx.len() as int, 16);
                        vstd::arithmetic::div_mod::lemma_div_is_ordered(
                            8 * del.len() as int,
                            left as int,
                            8,
                        );
                        vstd::arithmetic::div_mod::lemma_div_multiples_vanish(del.len() as int, 8);
                    }
                }
            }
            return Err(Error::Corrupt);
        }
        let mut index: Index = Index::new();
        proof {
            assert(entries_bytes(index.view()) =~= Seq::<u8>::empty());
            vstd::assert_seqs_equal!(
                dev.contents().subrange(ptr as int, start_abs + cursor)
                    == spec_u64_to_le_bytes(STATE_MAGIC) + spec_u64_to_le_bytes(n_idx)
                    + spec_u64_to_le_bytes(n_del) + entries_bytes(index.view())
            );
            assert forall|idx: Seq<(Seq<u8>, FilePointer)>, del: Seq<FilePointer>| #[trigger] valid_snapshot_at(
                        dev.contents(),
                        old(strand).start as int,
                        old(strand).capacity as int,
                        ptr as int,
                        idx,
                        del,
                    ) implies idx.len() == n_idx && del.len() == n_del && index.view()
                == idx.take(0) by {
                lemma_snapshot_head_agrees(
                    dev.contents(),
                    old(strand).start as int,
                    old(strand).capacity as int,
                    ptr as int,
                    idx,
                    del,
                );
                assert(index.view() =~= idx.take(0));
            }
        }
        let mut i: u64 = 0;
        while i < n_idx
            invariant
                dev.wf(),
                strand.wf(dev.contents().len() as int),
                strand.spec_frame() == old(strand).spec_frame(),
                reader.inv(dev, strand),
                reader.spec_cursor() == cursor,
                cursor <= strand.capacity,
                index.wf(),
                i <= n_idx,
                index.view().len() == i,
                start_abs == old(strand).start,
                ptr >= start_abs,
                ptr + 24 <= start_abs + cursor,
                dev.contents().subrange(ptr as int, start_abs + cursor) == spec_u64_to_le_bytes(
                    STATE_MAGIC,
                ) + spec_u64_to_le_bytes(n_idx) + spec_u64_to_le_bytes(n_del) + entries_bytes(
                    index.view(),
                ),
                forall|k: Seq<u8>|
                    #[trigger] index.as_map().contains_key(k) ==> 1 <= k.len() <= MAX_KEY_LEN,
                forall|q: int|
                    0 <= q < index.view().len() ==> 1 <= (#[trigger] index.view()[q]).0.len()
                        <= MAX_KEY_LEN,
                forall|idx: Seq<(Seq<u8>, FilePointer)>, del: Seq<FilePointer>| #[trigger] valid_snapshot_at(
                        dev.contents(),
                        old(strand).start as int,
                        old(strand).capacity as int,
                        ptr as int,
                        idx,
                        del,
                    ) ==> idx.len() == n_idx && del.len() == n_del && index.view() == idx.take(
                    i as int,
                ),
            decreases n_idx - i,
        {
            let ghost c0 = cursor;
            if strand.get_capacity() - cursor < 16 {
                proof {
                    assert forall|idx: Seq<(Seq<u8>, FilePointer)>, del: Seq<FilePointer>|
                        !#[trigger] valid_snapshot_at(
                            dev.contents(),
                            old(strand).start as int,
                            old(strand).capacity as int,
                            ptr as int,
                            idx,
                            del,
                        ) by {
                        if valid_snapshot_at(
                            dev.contents(),
                            old(strand).start as int,
                            old(strand).capacity as int,
                            ptr as int,
                            idx,
                            del,
                        ) {
                        let gi = i as int;
                        lemma_auto_spec_u64_to_from_le_bytes();
                        assert(index.view() == idx.take(gi));
                        assert(dev.contents().subrange(ptr as int, start_abs + c0).len()
                            == start_abs + c0 - ptr);
                        assert(start_abs + c0 == ptr + 24 + entries_bytes(idx.take(gi)).len());
                        lemma_snapshot_entry_agrees(
                            dev.contents(),
                            old(strand).start as int,
                            old(strand).capacity as int,
                            ptr as int,
                            idx,
                            del,
                            gi,
                        );
                        }
                    }
                }
                return Err(Error::Corrupt);
            }
            let ehdr: Vec<u8> = match reader.read_exact(strand, dev, 16) {
                Ok(v) => v,
                Err(_) => {
                    return Err(Error::Corrupt);
                },
            };
            cursor = cursor + 16;
            let klen: u64 = get_u64(ehdr.as_slice(), 0);
            let p: u64 = get_u64(ehdr.as_slice(), 8);
            if klen < 1 || klen > MAX_KEY_LEN {
                proof {
                    assert forall|idx: Seq<(Seq<u8>, FilePointer)>, del: Seq<FilePointer>|
                        !#[trigger] valid_snapshot_at(
                            dev.contents(),
                            old(strand).start as int,
                            old(strand).capacity as int,
                            ptr as int,
                            idx,
                            del,
                        ) by {
                        if valid_snapshot_at(
                            dev.contents(),
                            old(strand).start as int,
                            old(strand).capacity as int,
                            ptr as int,
                            idx,
                            del,
                        ) {
                        let gi = i as int;
                        lemma_auto_spec_u64_to_from_le_bytes();
                        assert(index.view() == idx.take(gi));
                        assert(dev.contents().subrange(ptr as int, start_abs + c0).len()
                            == start_abs + c0 - ptr);
                        assert(start_abs + c0 == ptr + 24 + entries_bytes(idx.take(gi)).len());
                        lemma_snapshot_entry_agrees(
                            dev.contents(),
                            old(strand).start as int,
                            old(strand).capacity as int,
                            ptr as int,
                            idx,
                            del,
                            gi,
                        );
                        lemma_subrange_of_subrange(
                            dev.contents(),
                            start_abs + c0,
                            start_abs + c0 + 16,
                            0,
                            8,
                        );
                        lemma_subrange_of_subrange(
                            dev.contents(),
                            start_abs + c0,
                            start_abs + c0 + 16,
                            8,
                            16,
                        );
                        assert(klen == idx[gi].0.len() as u64);
                        assert(p == idx[gi].1);
                        }
                    }
                }
                return Err(Error::Corrupt);
            }
            if strand.get_capacity() - cursor < klen {
                proof {
                    assert forall|idx: Seq<(Seq<u8>, FilePointer)>, del: Seq<FilePointer>|
                        !#[trigger] valid_snapshot_at(
                            dev.contents(),
                            old(strand).start as int,
                            old(strand).capacity as int,
                            ptr as int,
                            idx,
                            del,
                        ) by {
                        if valid_snapshot_at(
                            dev.contents(),
                            old(strand).start as int,
                            old(strand).capacity as int,
                            ptr as int,
                            idx,
                            del,
                        ) {
                        let gi = i as int;
                        lemma_auto_spec_u64_to_from_le_bytes();
                        assert(index.view() == idx.take(gi));
                        assert(dev.contents().subrange(ptr as int, start_abs + c0).len()
                            == start_abs + c0 - ptr);
                        assert(start_abs + c0 == ptr + 24 + entries_bytes(idx.take(gi)).len());
                        lemma_snapshot_entry_agrees(
                            dev.contents(),
                            old(strand).start as int,
                            old(strand).capacity as int,
                            ptr as int,
                            idx,
                            del,
                            gi,
                        );
                        lemma_subrange_of_subrange(
                            dev.contents(),
                            start_abs + c0,
                            start_abs + c0 + 16,
                            0,
                            8,
                        );
                        lemma_subrange_of_subrange(
                            dev.contents(),
                            start_abs + c0,
                            start_abs + c0 + 16,
                            8,
                            16,
                        );
                        assert(klen == idx[gi].0.len() as u64);
                        assert(p == idx[gi].1);
                        }
                    }
                }
                return Err(Error::Corrupt);
            }
            let key: Vec<u8> = match reader.read_exact(strand, dev, klen as usize) {
                Ok(v) => v,
                Err(_) => {
                    return Err(Error::Corrupt);
                },
            };
            cursor = cursor + klen;
            if index.contains(key.as_slice()) {
                proof {
                    assert forall|idx: Seq<(Seq<u8>, FilePointer)>, del: Seq<FilePointer>|
                        !#[trigger] valid_snapshot_at(
                            dev.contents(),
                            old(strand).start as int,
                            old(strand).capacity as int,
                            ptr as int,
                            idx,
                            del,
                        ) by {
                        if valid_snapshot_at(
                            dev.contents(),
                            old(strand).start as int,
                            old(strand).capacity as int,
                            ptr as int,
                            idx,
                            del,
                        ) {
                        let gi = i as int;
                        lemma_auto_spec_u64_to_from_le_bytes();
                        assert(index.view() == idx.take(gi));
                        assert(dev.contents().subrange(ptr as int, start_abs + c0).len()
                            == start_abs + c0 - ptr);
                        assert(start_abs + c0 == ptr + 24 + entries_bytes(idx.take(gi)).len());
                        lemma_snapshot_entry_agrees(
                            dev.contents(),
                            old(strand).start as int,
                            old(strand).capacity as int,
                            ptr as int,
                            idx,
                            del,
                            gi,
                        );
                        lemma_subrange_of_subrange(
                            dev.contents(),
                            start_abs + c0,
                            start_abs + c0 + 16,
                            0,
                            8,
                        );
                        lemma_subrange_of_subrange(
                            dev.contents(),
                            start_abs + c0,
                            start_abs + c0 + 16,
                            8,
                            16,
                        );
                        assert(klen == idx[gi].0.len() as u64);
                        assert(p == idx[gi].1);
                        assert(key@ == idx[gi].0);
                        let w = crate::index::lemma_idx_find_witness(index.view(), key@);
                        assert(idx[w].0 == idx[gi].0);
                        assert(w < gi);
                        }
                    }
                }
                return Err(Error::Corrupt);
            }
            proof {
                assert forall|j: int| 0 <= j < index.view().len() implies (
                #[trigger] index.view()[j]).0 != key@ by {
                    crate::index::lemma_idx_find_at(index.view(), j);
                }
            }
            let ghost prev_entries = index.view();
            index.set(key.as_slice(), p);
            proof {
                lemma_auto_spec_u64_to_from_le_bytes();
                assert(index.view() == prev_entries.push((key@, p)));
                assert(index.view().drop_last() =~= prev_entries);
                assert(index.view().last() == (key@, p));
                assert(entries_bytes(index.view()) == entries_bytes(prev_entries) + entry_bytes(
                    key@,
                    p,
                ));
                assert(ehdr@.subrange(0, 8) =~= spec_u64_to_le_bytes(klen));
                assert(ehdr@.subrange(8, 16) =~= spec_u64_to_le_bytes(p));
                vstd::assert_seqs_equal!(
                    dev.contents().subrange(start_abs + c0, start_abs + cursor)
                        == entry_bytes(key@, p)
                );
                lemma_subrange_split(
                    dev.contents(),
                    ptr as int,
                    start_abs + c0,
                    start_abs + cursor,
                );
                vstd::assert_seqs_equal!(
                    dev.contents().subrange(ptr as int, start_abs + cursor)
                        == spec_u64_to_le_bytes(STATE_MAGIC) + spec_u64_to_le_bytes(n_idx)
                        + spec_u64_to_le_bytes(n_del) + entries_bytes(index.view())
                );
                assert forall|idx: Seq<(Seq<u8>, FilePointer)>, del: Seq<FilePointer>| #[trigger] valid_snapshot_at(
                            dev.contents(),
                            old(strand).start as int,
                            old(strand).capacity as int,
                            ptr as int,
                            idx,
                            del,
                        ) implies idx.len() == n_idx && del.len() == n_del && index.view()
                    == idx.take(i + 1) by {
                        let gi = i as int;
                        lemma_auto_spec_u64_to_from_le_bytes();
                        assert(prev_entries == idx.take(gi));
                        assert(dev.contents().subrange(ptr as int, start_abs + c0).len()
                            == start_abs + c0 - ptr);
                        assert(start_abs + c0 == ptr + 24 + entries_bytes(idx.take(gi)).len());
                        lemma_snapshot_entry_agrees(
                            dev.contents(),
                            old(strand).start as int,
                            old(strand).capacity as int,
                            ptr as int,
                            idx,
                            del,
                            gi,
                        );
                        lemma_subrange_of_subrange(
                            dev.contents(),
                            start_abs + c0,
                            start_abs + c0 + 16,
                            0,
                            8,
                        );
                        lemma_subrange_of_subrange(
                            dev.contents(),
                            start_abs + c0,
                            start_abs + c0 + 16,
                            8,
                            16,
                        );
                        assert(klen == idx[gi].0.len() as u64);
                        assert(p == idx[gi].1);
                        assert(key@ == idx[gi].0);
                        assert(idx.take(gi + 1).drop_last() =~= idx.take(gi));
                        assert(index.view() =~= idx.take(gi + 1));
                }
            }
            i = i + 1;
        }
        let ghost final_entries = index.view();
        let mut deleted: Deleted = Deleted::new();
        proof {
            assert(ptrs_bytes(deleted.view()) =~= Seq::<u8>::empty());
            assert forall|idx: Seq<(Seq<u8>, FilePointer)>, del: Seq<FilePointer>| #[trigger] valid_snapshot_at(
                            dev.contents(),
                            old(strand).start as int,
                            old(strand).capacity as int,
                            ptr as int,
                            idx,
                            del,
                        ) implies final_entries == idx && del.len() == n_del && deleted.view()
                == del.take(0) by {
                assert(final_entries == idx.take(idx.len() as int));
                assert(idx.take(idx.len() as int) =~= idx);
                assert(deleted.view() =~= del.take(0));
            }
        }
        let mut j: u64 = 0;
        while j < n_del
            invariant
                dev.wf(),
                strand.wf(dev.contents().len() as int),
                strand.spec_frame() == old(strand).spec_frame(),
                reader.inv(dev, strand),
                reader.spec_cursor() == cursor,
                cursor <= strand.capacity,
                deleted.wf(),
                j <= n_del,
                deleted.view().len() == j,
                start_abs == old(strand).start,
                ptr >= start_abs,
                ptr + 24 <= start_abs + cursor,
                final_entries == index.view(),
                index.wf(),
                forall|q: int|
                    0 <= q < index.view().len() ==> 1 <= (#[trigger] index.view()[q]).0.len()
                        <= MAX_KEY_LEN,
                index.view().len() == n_idx,
                dev.contents().subrange(ptr as int, start_abs + cursor) == spec_u64_to_le_bytes(
                    STATE_MAGIC,
                ) + spec_u64_to_le_bytes(n_idx) + spec_u64_to_le_bytes(n_del) + entries_bytes(
                    final_entries,
                ) + ptrs_bytes(deleted.view()),
                forall|idx: Seq<(Seq<u8>, FilePointer)>, del: Seq<FilePointer>| #[trigger] valid_snapshot_at(
                            dev.contents(),
                            old(strand).start as int,
                            old(strand).capacity as int,
                            ptr as int,
                            idx,
                            del,
                        ) ==> final_entries == idx && del.len() == n_del && deleted.view() == del.take(
                    j as int,
                ),
            decreases n_del - j,
        {
            let ghost c0 = cursor;
            if strand.get_capacity() - cursor < 8 {
                proof {
                    assert forall|idx: Seq<(Seq<u8>, FilePointer)>, del: Seq<FilePointer>|
                        !#[trigger] valid_snapshot_at(
                            dev.contents(),
                            old(strand).start as int,
                            old(strand).capacity as int,
                            ptr as int,
                            idx,
                            del,
                        ) by {
                        if valid_snapshot_at(
                            dev.contents(),
                            old(strand).start as int,
                            old(strand).capacity as int,
                            ptr as int,
                            idx,
                            del,
                        ) {
                        let gj = j as int;
                        lemma_auto_spec_u64_to_from_le_bytes();
                        assert(final_entries == idx);
                        assert(deleted.view() == del.take(gj));
                        lemma_ptrs_bytes_len(deleted.view());
                        assert(dev.contents().subrange(ptr as int, start_abs + c0).len()
                            == start_abs + c0 - ptr);
                        assert(start_abs + c0 == ptr + 24 + entries_bytes(idx).len() + 8 * gj);
                        lemma_snapshot_ptr_agrees(
                            dev.contents(),
                            old(strand).start as int,
                            old(strand).capacity as int,
                            ptr as int,
                            idx,
                            del,
                            gj,
                        );
                        }
                    }
                }
                return Err(Error::Corrupt);
            }
            let pb: Vec<u8> = match reader.read_exact(strand, dev, 8) {
                Ok(v) => v,
                Err(_) => {
                    return Err(Error::Corrupt);
                },
            };
            cursor = cursor + 8;
            let p: u64 = get_u64(pb.as_slice(), 0);
            if deleted.contains(p) {
                proof {
                    assert forall|idx: Seq<(Seq<u8>, FilePointer)>, del: Seq<FilePointer>|
                        !#[trigger] valid_snapshot_at(
                            dev.contents(),
                            old(strand).start as int,
                            old(strand).capacity as int,
                            ptr as int,
                            idx,
                            del,
                        ) by {
                        if valid_snapshot_at(
                            dev.contents(),
                            old(strand).start as int,
                            old(strand).capacity as int,
                            ptr as int,
                            idx,
                            del,
                        ) {
                        let gj = j as int;
                        lemma_auto_spec_u64_to_from_le_bytes();
                        assert(final_entries == idx);
                        assert(deleted.view() == del.take(gj));
                        lemma_ptrs_bytes_len(deleted.view());
                        assert(dev.contents().subrange(ptr as int, start_abs + c0).len()
                            == start_abs + c0 - ptr);
                        assert(start_abs + c0 == ptr + 24 + entries_bytes(idx).len() + 8 * gj);
                        lemma_snapshot_ptr_agrees(
                            dev.contents(),
                            old(strand).start as int,
                            old(strand).capacity as int,
                            ptr as int,
                            idx,
                            del,
                            gj,
                        );
                        lemma_subrange_of_subrange(
                            dev.contents(),
                            start_abs + c0,
                            start_abs + c0 + 8,
                            0,
                            8,
                        );
                        assert(pb@.subrange(0, 8) =~= pb@);
                        assert(p == del[gj]);
                        let w = choose|w: int|
                            0 <= w < deleted.view().len() && deleted.view()[w] == p;
                        assert(del[w] == del[gj]);
                        assert(w < gj);
                        }
                    }
                }
                return Err(Error::Corrupt);
            }
            let ghost prev_ptrs = deleted.view();
            deleted.add(p);
            proof {
                lemma_auto_spec_u64_to_from_le_bytes();
                assert(deleted.view().drop_last() =~= prev_ptrs);
                assert(deleted.view().last() == p);
                assert(ptrs_bytes(deleted.view()) == ptrs_bytes(prev_ptrs) + spec_u64_to_le_bytes(
                    p,
                ));
                assert(pb@ =~= spec_u64_to_le_bytes(p));
                lemma_subrange_split(
                    dev.contents(),
                    ptr as int,
                    start_abs + c0,
                    start_abs + cursor,
                );
                vstd::assert_seqs_equal!(
                    dev.contents().subrange(ptr as int, start_abs + cursor)
                        == spec_u64_to_le_bytes(STATE_MAGIC) + spec_u64_to_le_bytes(n_idx)
                        + spec_u64_to_le_bytes(n_del) + entries_bytes(final_entries)
                        + ptrs_bytes(deleted.view())
                );
                assert forall|idx: Seq<(Seq<u8>, FilePointer)>, del: Seq<FilePointer>| #[trigger] valid_snapshot_at(
                            dev.contents(),
                            old(strand).start as int,
                            old(strand).capacity as int,
                            ptr as int,
                            idx,
                            del,
                        ) implies final_entries == idx && del.len() == n_del && deleted.view()
                    == del.take(j + 1) by {
                        let gj = j as int;
                        lemma_auto_spec_u64_to_from_le_bytes();
                        assert(prev_ptrs == del.take(gj));
                        lemma_ptrs_bytes_len(prev_ptrs);
                        assert(dev.contents().subrange(ptr as int, start_abs + c0).len()
                            == start_abs + c0 - ptr);
                        assert(start_abs + c0 == ptr + 24 + entries_bytes(idx).len() + 8 * gj);
                        lemma_snapshot_ptr_agrees(
                            dev.contents(),
                            old(strand).start as int,
                            old(strand).capacity as int,
                            ptr as int,
                            idx,
                            del,
                            gj,
                        );
                        lemma_subrange_of_subrange(
                            dev.contents(),
                            start_abs + c0,
                            start_abs + c0 + 8,
                            0,
                            8,
                        );
                        assert(pb@.subrange(0, 8) =~= pb@);
                        assert(p == del[gj]);
                        assert(del.take(gj + 1).drop_last() =~= del.take(gj));
                        assert(deleted.view() =~= del.take(gj + 1));
                }
            }
            j = j + 1;
        }
        proof {
            lemma_auto_spec_u64_to_from_le_bytes();
            assert(n_idx == index.view().len() as u64);
            assert(n_del == deleted.view().len() as u64);
            vstd::assert_seqs_equal!(
                dev.contents().subrange(ptr as int, start_abs + cursor)
                    == state_bytes(index.view(), deleted.view())
            );
            assert(dev.contents().subrange(ptr as int, start_abs + cursor).len()
                == start_abs + cursor - ptr);
            assert(valid_snapshot_at(
                dev.contents(),
                old(strand).start as int,
                old(strand).capacity as int,
                ptr as int,
                index.view(),
                deleted.view(),
            ));
        }
        Ok(DatastoreState { index, deleted })
    }
}

} // verus!
