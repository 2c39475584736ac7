use vstd::prelude::*;

use crate::error::FsError;

verus! {

/// Owner-read permission bit of a node's mode.
pub const S_IRUSR: u16 = 0o400;

/// Owner-write permission bit of a node's mode.
pub const S_IWUSR: u16 = 0o200;

/// What a node reports about itself.
#[derive(Debug, Clone, Copy, PartialEq, Eq, Structural)]
pub struct Metadata {
    /// Length of the content in bytes.
    pub size: usize,
    /// Permission bits; only the owner bits are consulted.
    pub mode: u16,
}

/// Whether permission bits grant the owner read access.
pub open spec fn mode_allows_read(mode: u16) -> bool {
    mode & S_IRUSR == S_IRUSR
}

/// Whether permission bits grant the owner write access.
pub open spec fn mode_allows_write(mode: u16) -> bool {
    mode & S_IWUSR == S_IWUSR
}

/// The storage object beneath open-file handles: content, metadata and
/// directory entries. A node is shared by the handles opened on it and is
/// responsible for its own synchronisation, so its content may change between
/// any two calls. Each call is described by a predicate that a node may define:
/// what it may return for the arguments it was given. By default nothing is
/// known of an answer.
pub trait INode {
    /// A read of `len` bytes at `offset` may return `r` and leave the buffer
    /// holding `data`.
    closed spec fn read_outcome(&self, offset: usize, len: usize, r: Result<usize, FsError>, data: Seq<u8>) -> bool {
        true
    }

    /// A write of `data` at `offset` may return `r`.
    closed spec fn write_outcome(&self, offset: usize, data: Seq<u8>, r: Result<usize, FsError>) -> bool {
        true
    }

    /// A metadata request may return `r`.
    closed spec fn metadata_outcome(&self, r: Result<Metadata, FsError>) -> bool {
        true
    }

    /// A resize to `len` may return `r`.
    closed spec fn resize_outcome(&self, len: usize, r: Result<(), FsError>) -> bool {
        true
    }

    /// A lookup of the directory entry at `id` may return `r`.
    closed spec fn entry_outcome(&self, id: usize, r: Result<String, FsError>) -> bool {
        true
    }

    /// Reads bytes at `offset` into `buf`; returns how many were read.
    fn read_at(&self, offset: usize, buf: &mut [u8]) -> (r: Result<usize, FsError>)
        ensures
            self.read_outcome(offset, old(buf)@.len() as usize, r, final(buf)@),
            final(buf)@.len() == old(buf)@.len(),
    ;

    /// Writes `buf` at `offset`; returns how many bytes were written.
    fn write_at(&self, offset: usize, buf: &[u8]) -> (r: Result<usize, FsError>)
        ensures
            self.write_outcome(offset, buf@, r),
    ;

    /// The node's size and permission bits.
    fn metadata(&self) -> (r: Result<Metadata, FsError>)
        ensures
            self.metadata_outcome(r),
    ;

    /// Sets the content's length to `len`.
    fn resize(&self, len: usize) -> (r: Result<(), FsError>)
        ensures
            self.resize_outcome(len, r),
    ;

    /// Flushes content and metadata to durable storage.
    fn sync_all(&self) -> (r: Result<(), FsError>);

    /// Flushes content to durable storage.
    fn sync_data(&self) -> (r: Result<(), FsError>);

    /// The name of the directory entry at index `id`.
    fn get_entry(&self, id: usize) -> (r: Result<String, FsError>)
        ensures
            self.entry_outcome(id, r),
    ;
}

/// Whether permission bits grant the owner read access.
pub fn allows_read(mode: u16) -> (r: bool)
    ensures
        r == mode_allows_read(mode),
{
    (mode & S_IRUSR) == S_IRUSR
}

/// Whether permission bits grant the owner write access.
pub fn allows_write(mode: u16) -> (r: bool)
    ensures
        r == mode_allows_write(mode),
{
    (mode & S_IWUSR) == S_IWUSR
}

/// Helpers that every node has through its metadata and content calls.
pub trait INodeExt: INode {
    /// The whole content, read from offset 0 into a buffer of the reported size.
    fn read_as_vec(&self) -> (r: Result<Vec<u8>, FsError>)
        ensures
            r matches Ok(v) ==> exists|m: Metadata, n: usize|
                #![trigger self.read_outcome(0, m.size, Ok::<usize, FsError>(n), v@)]
                self.metadata_outcome(Ok::<Metadata, FsError>(m)) && self.read_outcome(
                    0,
                    m.size,
                    Ok::<usize, FsError>(n),
                    v@,
                ) && v@.len() == m.size,
            r matches Err(e) ==> self.metadata_outcome(Err::<Metadata, FsError>(e)) || exists|
                m: Metadata,
                d: Seq<u8>,
            |
                #![trigger self.read_outcome(0, m.size, Err::<usize, FsError>(e), d)]
                self.metadata_outcome(Ok::<Metadata, FsError>(m)) && self.read_outcome(
                    0,
                    m.size,
                    Err::<usize, FsError>(e),
                    d,
                ),
{
        let info = match self.metadata() {
            Ok(info) => info,
            Err(e) => return Err(e),
        };
        let mut buf: Vec<u8> = vec![0u8; info.size];
        assert(buf@.len() == info.size);
        match self.read_at(0, buf.as_mut_slice()) {
            Ok(n) => {
                assert(self.read_outcome(0, info.size, Ok::<usize, FsError>(n), buf@));
                assert(buf@.len() == info.size);
                assert(self.metadata_outcome(Ok::<Metadata, FsError>(info)));
                let out: Result<Vec<u8>, FsError> = Ok(buf);
                assert(out matches Ok(v) && v@ == buf@);
                out
            },
            Err(e) => {
                assert(self.metadata_outcome(Ok::<Metadata, FsError>(info)));
                assert(self.read_outcome(0, info.size, Err::<usize, FsError>(e), buf@));
                Err(e)
            },
        }
    }

    /// Whether the node's permission bits grant the owner write access.
    fn allow_write(&self) -> (r: Result<bool, FsError>)
        ensures
            r matches Ok(b) ==> exists|m: Metadata|
                #![trigger self.metadata_outcome(Ok::<Metadata, FsError>(m))]
                self.metadata_outcome(Ok::<Metadata, FsError>(m)) && b == mode_allows_write(
                    m.mode,
                ),
            r matches Err(e) ==> self.metadata_outcome(Err::<Metadata, FsError>(e)),
{
        match self.metadata() {
            Ok(info) => Ok(allows_write(info.mode)),
            Err(e) => Err(e),
        }
    }

    /// Whether the node's permission bits grant the owner read access.
    fn allow_read(&self) -> (r: Result<bool, FsError>)
        ensures
            r matches Ok(b) ==> exists|m: Metadata|
                #![trigger self.metadata_outcome(Ok::<Metadata, FsError>(m))]
                self.metadata_outcome(Ok::<Metadata, FsError>(m)) && b == mode_allows_read(
                    m.mode,
                ),
            r matches Err(e) ==> self.metadata_outcome(Err::<Metadata, FsError>(e)),
{
        match self.metadata() {
            Ok(info) => Ok(allows_read(info.mode)),
            Err(e) => Err(e),
        }
    }
}

impl<T: INode> INodeExt for T {

}


} // verus!
