//! The plain values the storage collaborator reports. Reading and writing
//! files is the embedding program's work; the shapes and the one sum it
//! computes stand here.

use vstd::prelude::*;

verus! {

/// What a file looks like to the storage collaborator: its size in bytes,
/// its creation and modification instants as seconds since the epoch where
/// the filesystem reports them, and whether it is a regular file.
#[derive(Debug, Clone)]
pub struct FileMetadata {
    pub size: u64,
    pub created: Option<u64>,
    pub modified: Option<u64>,
    pub is_file: bool,
}

/// The sizes of the two storage areas and their total.
#[derive(Debug, Clone)]
pub struct StorageStats {
    pub data_size: u64,
    pub cache_size: u64,
    pub total_size: u64,
}

impl StorageStats {
    /// Totals the two areas.
    pub fn new(data_size: u64, cache_size: u64) -> (r: StorageStats)
        requires
            data_size + cache_size <= u64::MAX,
        ensures
            r.data_size == data_size,
            r.cache_size == cache_size,
            r.total_size == data_size + cache_size,
    {
        StorageStats { data_size, cache_size, total_size: data_size + cache_size }
    }
}

/// Whether one more write stays within the configured maximum file size:
/// the storage collaborator asks before every write.
pub fn within_size_limit(written: u64, chunk_len: u64, max_file_size: u64) -> (r: bool)
    ensures
        r == (written + chunk_len <= max_file_size),
{
    chunk_len <= max_file_size && written <= max_file_size - chunk_len
}

} // verus!
