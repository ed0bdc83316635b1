//! Options recognised when opening a datastore.

use vstd::prelude::*;

verus! {

/// How to open the datastore.
#[derive(Debug, Copy, Clone, PartialEq, Eq, Structural)]
pub enum OpenMode {
    /// Open the datastore that already exists on the device.
    Read,
    /// Format a new datastore.
    Create,
    /// The same as `Create`, but trims the entire device before
    /// formatting the volume.
    Truncate,
}

impl Default for OpenMode {
    /// The default mode reads an existing datastore.
    fn default() -> (r: OpenMode)
        ensures
            r == OpenMode::Read,
    {
        OpenMode::Read
    }
}

/// Options recognised when opening a datastore.
#[derive(Debug, Clone)]
pub struct OpenOptions {
    /// What mode to open the volume in.
    pub mode: OpenMode,
    /// How many strands to use when creating the volume.  When `None`,
    /// a default is derived from the device capacity and the number of
    /// processors.  Ignored unless a new datastore is created.
    pub strands: Option<u16>,
    /// How many items to keep in the read cache.  When `None`, a
    /// default capacity is used.
    pub read_cache: Option<usize>,
    /// When `true`, ignore the persisted index and rebuild it from the
    /// records on the device.
    pub reindex: bool,
}

impl OpenOptions {
    /// Creates the default options: read mode, derived strand count,
    /// default cache capacity, no reindexing.
    pub fn new() -> (r: OpenOptions)
        ensures
            r.mode == OpenMode::Read,
            r.strands is None,
            r.read_cache is None,
            !r.reindex,
    {
        OpenOptions { mode: OpenMode::Read, strands: None, read_cache: None, reindex: false }
    }

    /// Sets the mode to [`OpenMode::Create`].
    pub fn create(&mut self) -> (r: &mut OpenOptions)
        ensures
            *r == (OpenOptions { mode: OpenMode::Create, ..*old(self) }),
            *final(self) == *final(r),
    {
        self.mode = OpenMode::Create;
        self
    }

    /// Sets the mode to [`OpenMode::Truncate`].
    pub fn truncate(&mut self) -> (r: &mut OpenOptions)
        ensures
            *r == (OpenOptions { mode: OpenMode::Truncate, ..*old(self) }),
            *final(self) == *final(r),
    {
        self.mode = OpenMode::Truncate;
        self
    }

    /// Sets the number of strands used at creation.
    pub fn strands(&mut self, strands: u16) -> (r: &mut OpenOptions)
        ensures
            *r == (OpenOptions { strands: Some(strands), ..*old(self) }),
            *final(self) == *final(r),
    {
        self.strands = Some(strands);
        self
    }

    /// Sets the capacity of the read cache, in items.
    pub fn read_cache(&mut self, items: usize) -> (r: &mut OpenOptions)
        ensures
            *r == (OpenOptions { read_cache: Some(items), ..*old(self) }),
            *final(self) == *final(r),
    {
        self.read_cache = Some(items);
        self
    }

    /// Requests that the index be rebuilt from the records on the
    /// device instead of the persisted snapshot.
    pub fn reindex(&mut self) -> (r: &mut OpenOptions)
        ensures
            *r == (OpenOptions { reindex: true, ..*old(self) }),
            *final(self) == *final(r),
    {
        self.reindex = true;
        self
    }
}

impl Default for OpenOptions {
    /// The default options: read mode, derived strand count, default
    /// cache capacity, no reindexing.
    fn default() -> (r: OpenOptions)
        ensures
            r.mode == OpenMode::Read,
            r.strands is None,
            r.read_cache is None,
            !r.reindex,
    {
        OpenOptions::new()
    }
}

} // verus!
