use vstd::prelude::*;
use crate::error::last_os_error;

verus! {

/// The read position of an open file, and whether the file opened well.
pub struct FileCursor {
    cur_offset: i64,
    is_init_ok: bool,
}

impl FileCursor {
    /// The position the next read starts at.
    pub closed spec fn offset_view(self) -> int {
        self.cur_offset as int
    }

    /// Whether the file opened well.
    pub closed spec fn init_ok_view(self) -> bool {
        self.is_init_ok
    }

    /// The cursor of a file just opened: at the start, opened well.
    pub fn open() -> (cursor: FileCursor)
        ensures
            cursor.offset_view() == 0,
            cursor.init_ok_view(),
    {
        FileCursor { cur_offset: 0, is_init_ok: true }
    }

    /// The position the next read starts at.
    pub fn offset(&self) -> (offset: i64)
        ensures
            offset == self.offset_view(),
    {
        self.cur_offset
    }

    /// Moves to `offset` where the file opened well; fails, and stays,
    /// where it did not.
    pub fn seek(&mut self, offset: i64) -> (r: Result<(), std::io::Error>)
        ensures
            old(self).init_ok_view() ==> r is Ok && final(self).offset_view() == offset,
            !old(self).init_ok_view() ==> r is Err && final(self).offset_view() == old(self).offset_view(),
            final(self).init_ok_view() == old(self).init_ok_view(),
    {
        if self.is_init_ok {
            self.cur_offset = offset;
            Ok(())
        } else {
            Err(last_os_error())
        }
    }
}

} // verus!
