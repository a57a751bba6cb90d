use vstd::prelude::*;

verus! {

/// What a storage backend reports of a file: its size in bytes and the
/// text of its last modification time.
#[derive(Debug)]
pub struct FileAttr {
    pub file_size: i64,
    pub last_modify: String,
}

} // verus!
