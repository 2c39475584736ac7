use vstd::prelude::*;

verus! {

/// An error reported by a node (the storage layer beneath a handle).
#[derive(Debug, Clone, Copy, PartialEq, Eq, Structural)]
pub enum FsError {
    NotSupported,
    NotFile,
    IsDir,
    NotDir,
    EntryNotFound,
    EntryExist,
    InvalidParam,
    NoDeviceSpace,
    IOError,
}

/// An error of an open-file handle.
#[derive(Debug, Clone, Copy, PartialEq, Eq, Structural)]
pub enum Error {
    /// The handle's access mode, or the node's permission bits, forbid the operation.
    AccessDenied,
    /// A seek would move the cursor before the start of the content.
    InvalidArgument,
    /// A position does not fit in the cursor's range.
    Overflow,
    /// An error reported by the node, passed through unchanged.
    Node(FsError),
}

} // verus!
