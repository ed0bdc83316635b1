//! Per-strand and whole-datastore statistics.

use vstd::prelude::*;

verus! {

/// Statistics describing the state of a datastore or of one strand.
///
/// A whole-datastore figure is the field-wise sum over all strands.
#[derive(Debug, Clone, Copy, PartialEq, Eq, Structural)]
pub struct Stats {
    /// Total number of bytes read from the device.
    pub read_bytes: u64,
    /// Total number of bytes written to the device.
    pub written_bytes: u64,
    /// Total number of bytes trimmed on the device.
    pub trimmed_bytes: u64,
    /// Number of bytes logically read through the page buffer.
    pub buffer_read_bytes: u64,
    /// Number of bytes logically written through the block buffer.
    pub buffer_written_bytes: u64,
    /// Number of valid items.
    pub valid_items: u64,
    /// Number of logically deleted items not yet vacuumed.
    pub deleted_items: u64,
}

/// `a + b`, saturating at the largest `u64`.
pub open spec fn spec_sat_add(a: u64, b: u64) -> u64 {
    if a + b <= u64::MAX {
        (a + b) as u64
    } else {
        u64::MAX
    }
}

/// Field-wise saturating sum of two statistics records.
pub open spec fn spec_stats_add(a: Stats, b: Stats) -> Stats {
    Stats {
        read_bytes: spec_sat_add(a.read_bytes, b.read_bytes),
        written_bytes: spec_sat_add(a.written_bytes, b.written_bytes),
        trimmed_bytes: spec_sat_add(a.trimmed_bytes, b.trimmed_bytes),
        buffer_read_bytes: spec_sat_add(a.buffer_read_bytes, b.buffer_read_bytes),
        buffer_written_bytes: spec_sat_add(a.buffer_written_bytes, b.buffer_written_bytes),
        valid_items: spec_sat_add(a.valid_items, b.valid_items),
        deleted_items: spec_sat_add(a.deleted_items, b.deleted_items),
    }
}

/// `a + b`, saturating at the largest `u64`.
pub fn sat_add(a: u64, b: u64) -> (r: u64)
    ensures
        r == spec_sat_add(a, b),
{
    if a <= u64::MAX - b {
        a + b
    } else {
        u64::MAX
    }
}

impl Stats {
    /// A statistics record with every counter at zero.
    pub fn zero() -> (r: Stats)
        ensures
            r == Stats::spec_zero(),
    {
        Stats {
            read_bytes: 0,
            written_bytes: 0,
            trimmed_bytes: 0,
            buffer_read_bytes: 0,
            buffer_written_bytes: 0,
            valid_items: 0,
            deleted_items: 0,
        }
    }

    /// The record with every counter at zero.
    pub open spec fn spec_zero() -> Stats {
        Stats {
            read_bytes: 0,
            written_bytes: 0,
            trimmed_bytes: 0,
            buffer_read_bytes: 0,
            buffer_written_bytes: 0,
            valid_items: 0,
            deleted_items: 0,
        }
    }

    /// Adds `rhs` into `self`, field by field, saturating on overflow.
    pub fn add(&mut self, rhs: &Stats)
        ensures
            *final(self) == spec_stats_add(*old(self), *rhs),
    {
        self.read_bytes = sat_add(self.read_bytes, rhs.read_bytes);
        self.written_bytes = sat_add(self.written_bytes, rhs.written_bytes);
        self.trimmed_bytes = sat_add(self.trimmed_bytes, rhs.trimmed_bytes);
        self.buffer_read_bytes = sat_add(self.buffer_read_bytes, rhs.buffer_read_bytes);
        self.buffer_written_bytes = sat_add(self.buffer_written_bytes, rhs.buffer_written_bytes);
        self.valid_items = sat_add(self.valid_items, rhs.valid_items);
        self.deleted_items = sat_add(self.deleted_items, rhs.deleted_items);
    }
}

impl Default for Stats {
    /// The default statistics record has every counter at zero.
    fn default() -> (r: Stats)
        ensures
            r == Stats::spec_zero(),
    {
        Stats::zero()
    }
}

} // verus!
