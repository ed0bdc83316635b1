//! Laws the datastore obeys, stated over the store's view.
//!
//! Each CRUD operation's contract pins down the new view as a map
//! operation on the old one.  The laws here combine those contracts
//! across calls; their premises are exactly what the operations'
//! `ensures` clauses give.

use vstd::prelude::*;

use crate::store::Store;
use crate::volume::{lemma_strand_coverage, strands_capacity_sum};
use crate::PAGE_SIZE;

verus! {

/// Round trip on a single key.
///
/// A successful [`Store::insert`] of `(k, v)` ensures the view gains
/// exactly that pair; [`Store::lookup`] then copies the viewed value,
/// so it returns `v.len()` bytes equal to `v` whenever the caller's
/// buffer is large enough.
pub proof fn law_round_trip(before: Store, after: Store, k: Seq<u8>, v: Seq<u8>)
    requires
        after.view() == before.view().insert(k, v),
    ensures
        after.view().contains_key(k),
        after.view()[k] == v,
{
}

/// Insert uniqueness.
///
/// After a successful insert of `(k, v)` the key is present, so by
/// [`Store::insert`]'s contract a second insert under `k` fails with
/// `ItemExists` and leaves the view — and with it the stored value —
/// unchanged.
pub proof fn law_insert_unique(before: Store, after: Store, k: Seq<u8>, v: Seq<u8>)
    requires
        after.view() == before.view().insert(k, v),
    ensures
        after.view().contains_key(k),
        after.view()[k] == v,
        after.view().insert(k, v) == after.view(),
{
    assert(after.view().insert(k, v) =~= after.view());
}

/// Put is upsert.
///
/// Two successive successful [`Store::put`] calls under one key leave
/// the view exactly as a single put of the second value would, so a
/// lookup yields the second value.
pub proof fn law_put_upsert(m: Map<Seq<u8>, Seq<u8>>, k: Seq<u8>, v1: Seq<u8>, v2: Seq<u8>)
    ensures
        m.insert(k, v1).insert(k, v2) == m.insert(k, v2),
        m.insert(k, v2)[k] == v2,
{
    assert(m.insert(k, v1).insert(k, v2) =~= m.insert(k, v2));
}

/// Remove then lookup.
///
/// After [`Store::remove`] the key is gone: a lookup fails with
/// `ItemNotFound` and [`Store::contains`] answers false.  Removing a
/// key that was only just inserted restores the view it had before.
pub proof fn law_remove_then_lookup(m: Map<Seq<u8>, Seq<u8>>, k: Seq<u8>, v: Seq<u8>)
    ensures
        !m.insert(k, v).remove(k).contains_key(k),
        !m.contains_key(k) ==> m.insert(k, v).remove(k) == m,
{
    if !m.contains_key(k) {
        assert(m.insert(k, v).remove(k) =~= m);
    }
}

/// Delete returns the old value.
///
/// [`Store::delete`] copies the viewed value before unbinding the
/// key: after an insert of `(k, v)` it returns `v.len()` bytes equal
/// to `v`, and a subsequent lookup fails with `ItemNotFound`.
pub proof fn law_delete_returns_old(before: Store, after: Store, k: Seq<u8>, v: Seq<u8>)
    requires
        after.view() == before.view().insert(k, v),
    ensures
        after.view()[k] == v,
        !after.view().remove(k).contains_key(k),
{
}

/// Strand coverage.
///
/// In any sound store the strands are page-aligned, pairwise
/// disjoint, and together leave at least one page — the volume
/// header — uncovered: the sum of their capacities is bounded by the
/// device capacity less one page.
pub proof fn law_strand_coverage(s: Store)
    requires
        s.inv(),
    ensures
        strands_capacity_sum(s.volume.strands@) <= s.dev().len() - PAGE_SIZE,
        forall|i: int|
            0 <= i < s.volume.strands@.len() ==> (#[trigger] s.volume.strands@[i]).start % (
            PAGE_SIZE as u64) == 0 && (s.volume.strands@[i]).capacity % (PAGE_SIZE as u64) == 0,
        forall|i: int, j: int|
            0 <= i < j < s.volume.strands@.len() ==> (#[trigger] s.volume.strands@[i]).start
                + s.volume.strands@[i].capacity <= (#[trigger] s.volume.strands@[j]).start,
{
    lemma_strand_coverage(s.volume.strands@, s.dev().len() as int);
}

} // verus!
