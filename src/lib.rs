//! Open-file handles over an abstract inode: access modes, a cursor, and
//! vectored transfers with partial completion.

pub mod error;
pub mod inode_file;
pub mod node;
pub mod transfer;

pub use error::{Error, FsError};
pub use inode_file::{INodeFile, OpenOptions, SeekFrom};
pub use node::{INode, INodeExt, Metadata};
