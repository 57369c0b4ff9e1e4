//! The local file-hash cache: for each game file path, the hash computed the
//! last time the file was read and the modification time it had then.
use vstd::prelude::*;
use crate::table::{Duplicate, StringTable};

verus! {

/// A file modification time: whole seconds from the Unix epoch (negative
/// before it) and the nanoseconds after them.
#[derive(Clone, Copy, PartialEq, Eq, Structural, Debug)]
pub struct FileTime {
    pub secs: i64,
    pub nanos: u32,
}

/// A cache record: the file's hash and its modification time.
pub struct CachedFile {
    pub hash: String,
    pub modified: FileTime,
}

impl Duplicate for CachedFile {
    fn duplicate(&self) -> (r: CachedFile) {
        CachedFile { hash: self.hash.clone(), modified: self.modified }
    }
}

/// The cache, keyed by manifest path.
pub type FileCache = StringTable<CachedFile>;

} // verus!
