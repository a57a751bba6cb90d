use vstd::prelude::*;
use crate::cache::disk::CacheFlag;
use crate::file_opt::FileAttr;

verus! {

/// A client for files reached over FTP. It keeps a read position and
/// serves no data: reads give nothing and writes, listings and deletions
/// succeed without effect.
#[derive(Debug, Default)]
pub struct FtpClient {
    client: i32,
    read_offset: i64,
}

impl FtpClient {
    /// The connection handle.
    pub closed spec fn client_view(self) -> int {
        self.client as int
    }

    /// The read position.
    pub closed spec fn read_offset_view(self) -> int {
        self.read_offset as int
    }

    /// Opens `path`: a client with handle 1, reading from the start.
    pub fn open(path: &str, flag: Option<CacheFlag>) -> (client: FtpClient)
        ensures
            client.client_view() == 1,
            client.read_offset_view() == 0,
    {
        FtpClient { client: 1, read_offset: 0 }
    }

    /// Gives no attributes.
    pub fn get_attr(&self) -> (attr: Option<FileAttr>)
        ensures
            attr is None,
    {
        None
    }

    /// Moves the read position to `offset`.
    pub fn seek(&mut self, offset: i64) -> (r: Result<(), std::io::Error>)
        ensures
            r is Ok,
            final(self).read_offset_view() == offset,
            final(self).client_view() == old(self).client_view(),
    {
        self.read_offset = offset;
        Ok(())
    }

    /// Reads nothing.
    pub fn read(&mut self, len: i64) -> (data: Option<Vec<u8>>)
        ensures
            data is None,
            *final(self) == *old(self),
    {
        None
    }

    /// Copies nothing into `path` and succeeds.
    pub fn read_to_file(&mut self, len: i64, path: &str) -> (r: Result<(), std::io::Error>)
        ensures
            r is Ok,
            *final(self) == *old(self),
    {
        Ok(())
    }

    /// Takes every path as existing.
    pub fn is_exist(path: &str) -> (exists: bool)
        ensures
            exists,
    {
        true
    }

    /// Accepts `buffer` and succeeds.
    pub fn write(&self, buffer: &[u8]) -> (r: Result<(), std::io::Error>)
        ensures
            r is Ok,
    {
        Ok(())
    }

    /// Does nothing.
    pub fn close(&self) {
    }

    /// Lists no entry under `path`.
    pub fn enumerate(path: &str) -> (r: Result<Vec<String>, std::io::Error>)
        ensures
            r matches Ok(names) && names@.len() == 0,
    {
        let ret: Vec<String> = Vec::new();
        Ok(ret)
    }

    /// Deletes nothing and succeeds.
    pub fn delete(path: &str) -> (r: Result<(), std::io::Error>)
        ensures
            r is Ok,
    {
        Ok(())
    }
}

} // verus!
