//! Error kinds exposed by the engine.

use vstd::prelude::*;

verus! {

/// Everything that can go wrong while operating on a datastore.
#[derive(Debug)]
pub enum Error {
    /// The path is neither a regular file nor a block device.
    FileType,
    /// An on-disk structure failed validation: bad signature, bad
    /// framing, or a duplicate entry in the persisted state.
    Corrupt,
    /// A caller-supplied value is outside the engine's contract.
    BadArgument(&'static str),
    /// The volume header carries a different major format version.
    IncompatibleVersion,
    /// The selected strand cannot hold the record being appended.
    OutOfSpace,
    /// An insert found the key already present.
    ItemExists,
    /// An update, delete or lookup found no item under the key.
    ItemNotFound,
    /// The key is empty or longer than [`crate::MAX_KEY_LEN`].
    InvalidKey,
    /// The value is longer than [`crate::MAX_VAL_LEN`].
    InvalidValue,
    /// The requested path is recognised but not implemented.
    Unimplemented,
    /// Reserved for remote backends.
    Network,
    /// A lower-level I/O operation failed.
    Io,
}

impl Error {
    /// A short description of the error, for diagnostics.
    pub fn describe(&self) -> (r: &'static str) {
        match self {
            Error::FileType => "invalid file type",
            Error::Corrupt => "volume is corrupt",
            Error::BadArgument(desc) => desc,
            Error::IncompatibleVersion => "volume is formatted with an incompatible version",
            Error::OutOfSpace => "strand is out of space",
            Error::ItemExists => "item already exists",
            Error::ItemNotFound => "item not found",
            Error::InvalidKey => "specified key was invalid",
            Error::InvalidValue => "specified value was invalid",
            Error::Unimplemented => "operation is not implemented",
            Error::Network => "general network error",
            Error::Io => "low level I/O failure",
        }
    }
}

} // verus!
