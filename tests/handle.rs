use inode_file::inode_file::{access_gate, seek_offset};
use inode_file::node::{allows_read, allows_write, S_IRUSR, S_IWUSR};
use inode_file::transfer::{transfer_step, transfer_total, Transfer};
use inode_file::{Error, FsError, INode, INodeExt, INodeFile, Metadata, OpenOptions, SeekFrom};
use std::cell::{Cell, RefCell};
use std::sync::Arc;

/// A node that keeps its content in memory.
struct MemNode {
    content: RefCell<Vec<u8>>,
    mode: u16,
    entries: Vec<String>,
    fail_metadata: Cell<bool>,
    syncs: Cell<usize>,
}

impl MemNode {
    fn new(content: &[u8], mode: u16) -> MemNode {
        MemNode {
            content: RefCell::new(content.to_vec()),
            mode,
            entries: Vec::new(),
            fail_metadata: Cell::new(false),
            syncs: Cell::new(0),
        }
    }
}

impl INode for MemNode {
    fn read_at(&self, offset: usize, buf: &mut [u8]) -> Result<usize, FsError> {
        let c = self.content.borrow();
        if offset >= c.len() {
            return Ok(0);
        }
        let n = std::cmp::min(buf.len(), c.len() - offset);
        buf[..n].copy_from_slice(&c[offset..offset + n]);
        Ok(n)
    }

    fn write_at(&self, offset: usize, buf: &[u8]) -> Result<usize, FsError> {
        let mut c = self.content.borrow_mut();
        if c.len() < offset + buf.len() {
            c.resize(offset + buf.len(), 0);
        }
        c[offset..offset + buf.len()].copy_from_slice(buf);
        Ok(buf.len())
    }

    fn metadata(&self) -> Result<Metadata, FsError> {
        if self.fail_metadata.get() {
            return Err(FsError::IOError);
        }
        Ok(Metadata { size: self.content.borrow().len(), mode: self.mode })
    }

    fn resize(&self, len: usize) -> Result<(), FsError> {
        self.content.borrow_mut().resize(len, 0);
        Ok(())
    }

    fn sync_all(&self) -> Result<(), FsError> {
        self.syncs.set(self.syncs.get() + 1);
        Ok(())
    }

    fn sync_data(&self) -> Result<(), FsError> {
        self.syncs.set(self.syncs.get() + 10);
        Ok(())
    }

    fn get_entry(&self, id: usize) -> Result<String, FsError> {
        match self.entries.get(id) {
            Some(name) => Ok(name.clone()),
            None => Err(FsError::EntryNotFound),
        }
    }
}

/// A node whose transfers return scripted outcomes, one per call, and that
/// records the offset of each call.
struct ScriptNode {
    outcomes: Vec<Result<usize, FsError>>,
    next: Cell<usize>,
    offsets: RefCell<Vec<usize>>,
}

impl ScriptNode {
    fn new(outcomes: Vec<Result<usize, FsError>>) -> ScriptNode {
        ScriptNode { outcomes, next: Cell::new(0), offsets: RefCell::new(Vec::new()) }
    }

    fn take(&self, offset: usize) -> Result<usize, FsError> {
        self.offsets.borrow_mut().push(offset);
        let i = self.next.get();
        self.next.set(i + 1);
        self.outcomes[i]
    }
}

impl INode for ScriptNode {
    fn read_at(&self, offset: usize, _buf: &mut [u8]) -> Result<usize, FsError> {
        self.take(offset)
    }

    fn write_at(&self, offset: usize, _buf: &[u8]) -> Result<usize, FsError> {
        self.take(offset)
    }

    fn metadata(&self) -> Result<Metadata, FsError> {
        Ok(Metadata { size: 100, mode: 0o600 })
    }

    fn resize(&self, _len: usize) -> Result<(), FsError> {
        Ok(())
    }

    fn sync_all(&self) -> Result<(), FsError> {
        Ok(())
    }

    fn sync_data(&self) -> Result<(), FsError> {
        Ok(())
    }

    fn get_entry(&self, _id: usize) -> Result<String, FsError> {
        Err(FsError::NotDir)
    }
}

fn opts(read: bool, write: bool, append: bool) -> OpenOptions {
    OpenOptions { read, write, append }
}

fn cursor<N: INode>(f: &mut INodeFile<N>) -> i64 {
    f.seek(SeekFrom::Current(0)).unwrap()
}

#[test]
fn open_checks_owner_bits() {
    let ro = Arc::new(MemNode::new(b"x", 0o400));
    assert!(INodeFile::open(ro.clone(), opts(true, false, false)).is_ok());
    assert_eq!(INodeFile::open(ro, opts(true, true, false)).err(), Some(Error::AccessDenied));
    let wo = Arc::new(MemNode::new(b"x", 0o200));
    assert!(INodeFile::open(wo.clone(), opts(false, true, false)).is_ok());
    assert_eq!(INodeFile::open(wo, opts(true, false, false)).err(), Some(Error::AccessDenied));
    let other_bits = Arc::new(MemNode::new(b"x", 0o066));
    assert_eq!(
        INodeFile::open(other_bits, opts(true, false, false)).err(),
        Some(Error::AccessDenied)
    );
}

#[test]
fn open_propagates_metadata_error() {
    let node = MemNode::new(b"x", 0o600);
    node.fail_metadata.set(true);
    let node = Arc::new(node);
    assert_eq!(
        INodeFile::open(node.clone(), opts(true, false, false)).err(),
        Some(Error::Node(FsError::IOError))
    );
    assert!(INodeFile::open(node, opts(false, false, false)).is_ok());
}

#[test]
fn permission_bits() {
    assert!(allows_read(S_IRUSR));
    assert!(!allows_read(S_IWUSR));
    assert!(allows_write(0o644));
    assert!(!allows_write(0o444));
    let node = MemNode::new(b"", 0o400);
    assert_eq!(node.allow_read(), Ok(true));
    assert_eq!(node.allow_write(), Ok(false));
}

#[test]
fn read_as_vec_returns_content() {
    let node = MemNode::new(b"hello", 0o600);
    assert_eq!(node.read_as_vec(), Ok(b"hello".to_vec()));
}

#[test]
fn not_readable_denies_reads_and_keeps_cursor() {
    let node = Arc::new(MemNode::new(b"abcdef", 0o600));
    let mut f = INodeFile::open(node, opts(false, true, false)).unwrap();
    f.seek(SeekFrom::Start(2)).unwrap();
    let mut buf = [0u8; 3];
    assert_eq!(f.read(&mut buf), Err(Error::AccessDenied));
    let mut bufs = vec![vec![0u8; 2], vec![0u8; 2]];
    assert_eq!(f.readv(&mut bufs), Err(Error::AccessDenied));
    assert_eq!(f.read_entry(), Err(Error::AccessDenied));
    assert_eq!(f.read_at(0, &mut buf), Err(Error::AccessDenied));
    assert_eq!(cursor(&mut f), 2);
}

#[test]
fn not_writable_denies_writes() {
    let node = Arc::new(MemNode::new(b"abc", 0o600));
    let mut f = INodeFile::open(node.clone(), opts(true, false, false)).unwrap();
    assert_eq!(f.write(b"zz"), Err(Error::AccessDenied));
    assert_eq!(f.writev(&vec![b"zz".to_vec()]), Err(Error::AccessDenied));
    assert_eq!(f.set_len(0), Err(Error::AccessDenied));
    assert_eq!(f.write_at(0, b"zz"), Err(Error::AccessDenied));
    assert_eq!(*node.content.borrow(), b"abc".to_vec());
    assert_eq!(cursor(&mut f), 0);
}

#[test]
fn seek_start_then_current() {
    let node = Arc::new(MemNode::new(b"abc", 0o600));
    let mut f = INodeFile::open(node, opts(true, false, false)).unwrap();
    for n in [0u64, 1, 3, 1234, i64::MAX as u64] {
        assert_eq!(f.seek(SeekFrom::Start(n)), Ok(n as i64));
        assert_eq!(f.seek(SeekFrom::Current(0)), Ok(n as i64));
    }
}

#[test]
fn seek_relative_and_errors() {
    let node = Arc::new(MemNode::new(b"0123456789", 0o600));
    let mut f = INodeFile::open(node, opts(true, false, false)).unwrap();
    assert_eq!(f.seek(SeekFrom::End(-3)), Ok(7));
    assert_eq!(f.seek(SeekFrom::Current(-2)), Ok(5));
    assert_eq!(f.seek(SeekFrom::Current(-6)), Err(Error::InvalidArgument));
    assert_eq!(f.seek(SeekFrom::End(-11)), Err(Error::InvalidArgument));
    assert_eq!(f.seek(SeekFrom::Start(u64::MAX)), Err(Error::Overflow));
    assert_eq!(cursor(&mut f), 5);
    assert_eq!(f.seek(SeekFrom::End(4)), Ok(14));
}

#[test]
fn seek_offset_values() {
    assert_eq!(seek_offset(SeekFrom::Start(9), 3, 20), Ok(9));
    assert_eq!(seek_offset(SeekFrom::Current(-3), 3, 20), Ok(0));
    assert_eq!(seek_offset(SeekFrom::Current(-4), 3, 20), Err(Error::InvalidArgument));
    assert_eq!(seek_offset(SeekFrom::End(5), 3, 20), Ok(25));
    assert_eq!(seek_offset(SeekFrom::Current(i64::MAX), 1, 0), Err(Error::Overflow));
}

#[test]
fn write_and_read_advance_cursor() {
    let node = Arc::new(MemNode::new(b"", 0o600));
    let mut f = INodeFile::open(node.clone(), opts(true, true, false)).unwrap();
    assert_eq!(f.write(b"hello"), Ok(5));
    assert_eq!(cursor(&mut f), 5);
    assert_eq!(f.write(b" world"), Ok(6));
    assert_eq!(cursor(&mut f), 11);
    f.seek(SeekFrom::Start(3)).unwrap();
    let mut buf = [0u8; 4];
    assert_eq!(f.read(&mut buf), Ok(4));
    assert_eq!(&buf, b"lo w");
    assert_eq!(cursor(&mut f), 7);
    assert_eq!(f.read(&mut buf), Ok(4));
    assert_eq!(f.read(&mut buf), Ok(0));
    assert_eq!(cursor(&mut f), 11);
}

#[test]
fn append_write_starts_at_size() {
    let node = Arc::new(MemNode::new(b"hello", 0o600));
    let mut f = INodeFile::open(node.clone(), opts(true, true, true)).unwrap();
    assert_eq!(f.write(b"abc"), Ok(3));
    assert_eq!(cursor(&mut f), 8);
    node.write_at(8, b"XY").unwrap();
    f.seek(SeekFrom::Start(0)).unwrap();
    assert_eq!(f.writev(&vec![b"1".to_vec(), b"23".to_vec()]), Ok(3));
    assert_eq!(*node.content.borrow(), b"helloabcXY123".to_vec());
    assert_eq!(cursor(&mut f), 13);
}

#[test]
fn positional_io_keeps_cursor() {
    let node = Arc::new(MemNode::new(b"abcdef", 0o600));
    let mut f = INodeFile::open(node.clone(), opts(true, true, false)).unwrap();
    f.seek(SeekFrom::Start(1)).unwrap();
    assert_eq!(f.write_at(4, b"XY"), Ok(2));
    let mut buf = [0u8; 3];
    assert_eq!(f.read_at(3, &mut buf), Ok(3));
    assert_eq!(&buf, b"dXY");
    assert_eq!(cursor(&mut f), 1);
}

#[test]
fn readv_partial_completion() {
    let node = Arc::new(ScriptNode::new(vec![Ok(4), Err(FsError::IOError), Ok(4)]));
    let mut f = INodeFile::open(node.clone(), opts(true, true, false)).unwrap();
    f.seek(SeekFrom::Start(10)).unwrap();
    let mut bufs = vec![vec![0u8; 4], vec![0u8; 4], vec![0u8; 4]];
    assert_eq!(f.readv(&mut bufs), Ok(4));
    assert_eq!(*node.offsets.borrow(), vec![10, 14]);
    assert_eq!(cursor(&mut f), 14);
}

#[test]
fn writev_partial_completion() {
    let node = Arc::new(ScriptNode::new(vec![Ok(4), Err(FsError::NoDeviceSpace), Ok(4)]));
    let mut f = INodeFile::open(node.clone(), opts(true, true, false)).unwrap();
    let bufs = vec![vec![1u8; 4], vec![2u8; 4], vec![3u8; 4]];
    assert_eq!(f.writev(&bufs), Ok(4));
    assert_eq!(*node.offsets.borrow(), vec![0, 4]);
    assert_eq!(cursor(&mut f), 4);
}

#[test]
fn vectored_first_failure_is_error() {
    let node = Arc::new(ScriptNode::new(vec![Err(FsError::IOError), Ok(4)]));
    let mut f = INodeFile::open(node.clone(), opts(true, true, false)).unwrap();
    let mut bufs = vec![vec![0u8; 4], vec![0u8; 4]];
    assert_eq!(f.readv(&mut bufs), Err(Error::Node(FsError::IOError)));
    assert_eq!(cursor(&mut f), 0);
    let node = Arc::new(ScriptNode::new(vec![Ok(0), Err(FsError::IOError)]));
    let mut f = INodeFile::open(node, opts(true, true, false)).unwrap();
    let bufs = vec![vec![1u8; 4], vec![2u8; 4]];
    assert_eq!(f.writev(&bufs), Err(Error::Node(FsError::IOError)));
    assert_eq!(cursor(&mut f), 0);
}

#[test]
fn readv_fills_buffers_in_order() {
    let node = Arc::new(MemNode::new(b"abcdefg", 0o600));
    let mut f = INodeFile::open(node, opts(true, false, false)).unwrap();
    let mut bufs = vec![vec![0u8; 3], vec![0u8; 3], vec![0u8; 3]];
    assert_eq!(f.readv(&mut bufs), Ok(7));
    assert_eq!(bufs, vec![b"abc".to_vec(), b"def".to_vec(), vec![b'g', 0, 0]]);
    assert_eq!(cursor(&mut f), 7);
}

#[test]
fn transfer_total_policy() {
    let three = vec![Ok(4), Err(FsError::IOError), Ok(4)];
    assert_eq!(transfer_total(0, &three), Ok(4));
    let first = vec![Err(FsError::IOError), Ok(4)];
    assert_eq!(transfer_total(0, &first), Err(Error::Node(FsError::IOError)));
    assert_eq!(transfer_total(0, &vec![Ok(2), Ok(3)]), Ok(5));
    assert_eq!(transfer_total(0, &vec![]), Ok(0));
    assert_eq!(transfer_total(usize::MAX - 1, &vec![Ok(2)]), Err(Error::Overflow));
    assert_eq!(transfer_total(usize::MAX - 3, &vec![Ok(2), Ok(2)]), Ok(2));
    assert!(matches!(transfer_step(0, 3, Ok(2)), Transfer::Going(5)));
    assert!(matches!(transfer_step(0, 0, Err(FsError::IOError)), Transfer::Done(Err(_))));
}

#[test]
fn read_entry_sequence() {
    let mut node = MemNode::new(b"", 0o600);
    node.entries = vec!["a".to_string(), "b".to_string()];
    let mut f = INodeFile::open(Arc::new(node), opts(true, false, false)).unwrap();
    assert_eq!(f.read_entry(), Ok("a".to_string()));
    assert_eq!(f.read_entry(), Ok("b".to_string()));
    assert_eq!(cursor(&mut f), 2);
    assert_eq!(f.read_entry(), Err(Error::Node(FsError::EntryNotFound)));
    assert_eq!(cursor(&mut f), 2);
}

#[test]
fn truncate_write_read_back() {
    let node = Arc::new(MemNode::new(b"old content", 0o600));
    let mut f = INodeFile::open(node.clone(), opts(true, true, false)).unwrap();
    assert_eq!(f.set_len(0), Ok(()));
    assert_eq!(f.metadata().unwrap().size, 0);
    assert_eq!(f.write(b"data"), Ok(4));
    let mut buf = [0u8; 4];
    assert_eq!(f.read_at(0, &mut buf), Ok(4));
    assert_eq!(&buf, b"data");
}

#[test]
fn metadata_and_sync_forward() {
    let node = Arc::new(MemNode::new(b"abc", 0o640));
    let f = INodeFile::open(node.clone(), opts(false, false, false)).unwrap();
    assert_eq!(f.metadata(), Ok(Metadata { size: 3, mode: 0o640 }));
    assert_eq!(f.sync_all(), Ok(()));
    assert_eq!(f.sync_data(), Ok(()));
    assert_eq!(node.syncs.get(), 11);
}

#[test]
fn append_metadata_error_propagates() {
    let node = Arc::new(MemNode::new(b"abc", 0o600));
    let mut f = INodeFile::open(node.clone(), opts(false, true, true)).unwrap();
    node.fail_metadata.set(true);
    assert_eq!(f.write(b"x"), Err(Error::Node(FsError::IOError)));
    assert_eq!(f.seek(SeekFrom::End(0)), Err(Error::Node(FsError::IOError)));
}

#[test]
fn access_gate_decides_from_owner_bits() {
    assert_eq!(access_gate(opts(true, false, false), 0o400), Ok(()));
    assert_eq!(access_gate(opts(true, true, false), 0o400), Err(Error::AccessDenied));
    assert_eq!(access_gate(opts(false, true, true), 0o200), Ok(()));
    assert_eq!(access_gate(opts(true, false, false), 0o044), Err(Error::AccessDenied));
    assert_eq!(access_gate(opts(false, false, false), 0), Ok(()));
}

#[test]
fn readv_leaves_later_buffers_after_failure() {
    let node = Arc::new(ScriptNode::new(vec![Ok(2), Err(FsError::IOError)]));
    let mut f = INodeFile::open(node, opts(true, false, false)).unwrap();
    let mut bufs = vec![vec![7u8; 2], vec![8u8; 2], vec![9u8; 2]];
    assert_eq!(f.readv(&mut bufs), Ok(2));
    assert_eq!(bufs[2], vec![9u8; 2]);
}
