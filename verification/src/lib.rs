//! A persistent key/value store engine for solid-state devices.
//!
//! The engine organises a fixed-capacity block device into parallel
//! append-only regions called strands.  Item records are appended to a
//! strand through an erase-block sized write buffer and located again
//! through an in-memory index that maps each key to the absolute byte
//! offset of its record.  A snapshot of the index and of the set of
//! logically deleted records is written on close and read back on open.

use vstd::prelude::*;

mod buffer;
mod cache;
mod deleted;
mod device;
mod error;
mod header;
mod index;
mod io;
mod item;
mod laws;
mod options;
mod serial;
mod state;
mod sync;
mod strand;
mod stats;
mod store;
mod utils;
mod volume;

pub use buffer::{Buffer, BufferStatus};
pub use cache::ReadCache;
pub use deleted::Deleted;
pub use device::Memory;
pub use error::Error;
pub use header::{StrandHeader, VolumeHeader};
pub use index::Index;
pub use io::{StrandReader, StrandWriter};
pub use item::{Item, ReadContext};
pub use header::{law_strand_header_corruption, law_volume_header_corruption};
pub use laws::{law_delete_returns_old, law_insert_unique, law_put_upsert, law_remove_then_lookup, law_round_trip, law_strand_coverage};
pub use options::{OpenMode, OpenOptions};
pub use state::{law_snapshot_determines_state, DatastoreState};
pub use stats::Stats;
pub use store::Store;
pub use strand::Strand;
pub use sync::CopyRwLock;
pub use utils::{align, align_up, block_align, block_align_up};
pub use volume::{Volume, VolumeState};

verus! {

/// Absolute byte offset on the device, identifying one item record.
pub type FilePointer = u64;

/// Read/write alignment unit: every device access covers whole pages.
pub const PAGE_SIZE: u64 = 4096;

/// Erase-block unit: granularity of the write buffer and of trims.
pub const TRIM_SIZE: u64 = 262144;

/// The maximum length of a valid key (128 KiB).  Valid keys are never
/// empty.
pub const MAX_KEY_LEN: u64 = 131072;

/// The maximum length of a valid value (512 GiB).
pub const MAX_VAL_LEN: u64 = 549755813888;

/// The minimum number of strands that a datastore can be created with.
pub const MIN_STRANDS: u16 = 2;

/// Major component of the on-disk format version; only this component
/// gates compatibility.
pub const VERSION_MAJOR: u8 = 0;

/// Minor component of the on-disk format version.
pub const VERSION_MINOR: u8 = 1;

/// Patch component of the on-disk format version.
pub const VERSION_PATCH: u8 = 0;

} // verus!
