use vstd::prelude::*;

use std::sync::Arc;

use crate::error::{Error, FsError};
use crate::node::{mode_allows_read, mode_allows_write, INode, Metadata};
use crate::transfer::{
    lemma_progress_push, lemma_single, lemma_take_push, progress, transfer_result, transfer_step,
    Transfer,
};

verus! {

/// The access mode a handle is opened with; fixed for the handle's lifetime.
#[derive(Debug, Clone, Copy, PartialEq, Eq, Structural)]
pub struct OpenOptions {
    pub read: bool,
    pub write: bool,
    /// Before each write, the file offset is positioned at the end of the file.
    pub append: bool,
}

/// Where a seek moves the cursor from.
#[derive(Debug, Clone, Copy, PartialEq, Eq, Structural)]
pub enum SeekFrom {
    /// To this many bytes from the start.
    Start(u64),
    /// To the node's size plus this amount.
    End(i64),
    /// To the cursor plus this amount.
    Current(i64),
}

/// The position a seek aims at, before any range check.
pub open spec fn seek_target(pos: SeekFrom, cursor: usize, size: usize) -> int {
    match pos {
        SeekFrom::Start(n) => n as int,
        SeekFrom::End(d) => size + d,
        SeekFrom::Current(d) => cursor + d,
    }
}

/// The new cursor of a seek: the target, if it is neither negative nor beyond
/// what both the cursor and a signed 64-bit offset can hold.
pub open spec fn seek_result(pos: SeekFrom, cursor: usize, size: usize) -> Result<usize, Error> {
    let t = seek_target(pos, cursor, size);
    if t < 0 {
        Err(Error::InvalidArgument)
    } else if t > i64::MAX || t > usize::MAX {
        Err(Error::Overflow)
    } else {
        Ok(t as usize)
    }
}

/// Computes the cursor that a seek moves to; `size` is the node's size and is
/// consulted only for `SeekFrom::End`.
pub fn seek_offset(pos: SeekFrom, cursor: usize, size: usize) -> (r: Result<usize, Error>)
    ensures
        r == seek_result(pos, cursor, size),
{
    let t: i128 = match pos {
        SeekFrom::Start(n) => n as i128,
        SeekFrom::End(d) => size as i128 + d as i128,
        SeekFrom::Current(d) => cursor as i128 + d as i128,
    };
    if t < 0 {
        Err(Error::InvalidArgument)
    } else if t > i64::MAX as i128 || t > usize::MAX as i128 {
        Err(Error::Overflow)
    } else {
        Ok(t as usize)
    }
}

/// Whether permission bits admit an open with these options.
pub open spec fn access_granted(options: OpenOptions, mode: u16) -> bool {
    &&& options.read ==> mode_allows_read(mode)
    &&& options.write ==> mode_allows_write(mode)
}

/// Checks the requested access against a node's permission bits.
pub fn access_gate(options: OpenOptions, mode: u16) -> (r: Result<(), Error>)
    ensures
        r == (if access_granted(options, mode) {
            Ok::<(), Error>(())
        } else {
            Err::<(), Error>(Error::AccessDenied)
        }),
{
    if options.read && !crate::node::allows_read(mode) {
        return Err(Error::AccessDenied);
    }
    if options.write && !crate::node::allows_write(mode) {
        return Err(Error::AccessDenied);
    }
    Ok(())
}

/// A node's answer as the handle reports it.
pub open spec fn lift<T>(o: Result<T, FsError>) -> Result<T, Error> {
    match o {
        Ok(v) => Ok(v),
        Err(e) => Err(Error::Node(e)),
    }
}

/// The cursor after a transfer that began at `start` and returned `r`.
pub open spec fn moved(start: usize, r: Result<usize, Error>) -> int {
    match r {
        Ok(k) => start + k,
        Err(_) => start as int,
    }
}

/// What a seek returns when its new cursor is `s`.
pub open spec fn seek_returns(s: Result<usize, Error>, r: Result<i64, Error>) -> bool {
    match s {
        Ok(n) => r == Ok::<i64, Error>(n as i64),
        Err(e) => r == Err::<i64, Error>(e),
    }
}

/// Where buffer `i` of a multi-buffer call is transferred: the start plus
/// the bytes moved by the buffers before it.
pub open spec fn offset_before(start: usize, outcomes: Seq<Result<usize, FsError>>, i: int) -> usize {
    match progress(start, outcomes.take(i)) {
        Transfer::Going(t) => (start + t) as usize,
        Transfer::Done(_) => start,
    }
}

/// A multi-buffer call over `n` buffers went on after every outcome but the
/// last, and stopped before the last buffer only because the transfer ended.
pub open spec fn ran(start: usize, outcomes: Seq<Result<usize, FsError>>, n: nat) -> bool {
    &&& outcomes.len() <= n
    &&& forall|i: int|
        0 <= i < outcomes.len() ==> #[trigger] progress(start, outcomes.take(i)) is Going
    &&& (outcomes.len() == n || progress(start, outcomes) is Done)
}

/// Buffer `i` was handed to the node at `offset_before(start, outcomes, i)`,
/// and the node answered `outcomes[i]`.
pub open spec fn writes_asked<N: INode>(
    node: N,
    start: usize,
    bufs: Seq<Vec<u8>>,
    outcomes: Seq<Result<usize, FsError>>,
) -> bool {
    forall|i: int|
        #![trigger outcomes[i]]
        0 <= i < outcomes.len() ==> node.write_outcome(
            offset_before(start, outcomes, i),
            bufs[i]@,
            outcomes[i],
        )
}

/// Buffer `i` was read from the node at `offset_before(start, outcomes, i)`,
/// the node answered `outcomes[i]` and left the buffer as it now is; the
/// buffers after the last outcome are untouched.
pub open spec fn reads_asked<N: INode>(
    node: N,
    start: usize,
    before: Seq<Vec<u8>>,
    after: Seq<Vec<u8>>,
    outcomes: Seq<Result<usize, FsError>>,
) -> bool {
    &&& after.len() == before.len()
    &&& forall|i: int|
        #![trigger outcomes[i]]
        0 <= i < outcomes.len() ==> node.read_outcome(
            offset_before(start, outcomes, i),
            before[i]@.len() as usize,
            outcomes[i],
            after[i]@,
        )
    &&& forall|i: int| outcomes.len() <= i < before.len() ==> #[trigger] after[i] == before[i]
}

/// Recording the node's answer for the next buffer of a multi-buffer read
/// keeps the record of what the node was asked.
proof fn lemma_reads_extend<N: INode>(
    node: &N,
    start: usize,
    before: Seq<Vec<u8>>,
    mid: Seq<Vec<u8>>,
    after: Seq<Vec<u8>>,
    outcomes: Seq<Result<usize, FsError>>,
    o: Result<usize, FsError>,
    total: usize,
)
    requires
        reads_asked(*node, start, before, mid, outcomes),
        forall|j: int| 0 <= j < outcomes.len() ==> #[trigger] progress(start, outcomes.take(j)) is Going,
        progress(start, outcomes) == Transfer::Going(total),
        outcomes.len() < before.len(),
        after == mid.update(outcomes.len() as int, after[outcomes.len() as int]),
        node.read_outcome(
            (start + total) as usize,
            mid[outcomes.len() as int]@.len() as usize,
            o,
            after[outcomes.len() as int]@,
        ),
    ensures
        reads_asked(*node, start, before, after, outcomes.push(o)),
        forall|j: int|
            0 <= j < outcomes.len() + 1 ==> #[trigger] progress(start, outcomes.push(o).take(j)) is Going,
        progress(start, outcomes.push(o)) == crate::transfer::step(start, Transfer::Going(total), o),
{
    let i = outcomes.len() as int;
    let pushed = outcomes.push(o);
    lemma_progress_push(start, outcomes, o);
    assert(pushed.take(i) =~= outcomes);
    assert(outcomes.take(i) =~= outcomes);
    assert forall|j: int| 0 <= j < i + 1 implies #[trigger] progress(start, pushed.take(j)) is Going by {
        lemma_take_push(outcomes, o, j);
    }
    assert forall|j: int| #![trigger pushed[j]] 0 <= j < pushed.len() implies node.read_outcome(
        offset_before(start, pushed, j),
        before[j]@.len() as usize,
        pushed[j],
        after[j]@,
    ) by {
        lemma_take_push(outcomes, o, j);
        if j < i {
            assert(outcomes[j] == pushed[j]);
            assert(node.read_outcome(
                offset_before(start, outcomes, j),
                before[j]@.len() as usize,
                outcomes[j],
                mid[j]@,
            ));
        } else {
            assert(mid[i] == before[i]);
        }
    }
    assert forall|j: int| pushed.len() <= j < before.len() implies #[trigger] after[j]
        == before[j] by {
        assert(mid[j] == before[j]);
    }
}

/// Recording the node's answer for the next buffer of a multi-buffer write
/// keeps the record of what the node was asked.
proof fn lemma_writes_extend<N: INode>(
    node: &N,
    start: usize,
    bufs: Seq<Vec<u8>>,
    outcomes: Seq<Result<usize, FsError>>,
    o: Result<usize, FsError>,
    total: usize,
)
    requires
        writes_asked(*node, start, bufs, outcomes),
        forall|j: int| 0 <= j < outcomes.len() ==> #[trigger] progress(start, outcomes.take(j)) is Going,
        progress(start, outcomes) == Transfer::Going(total),
        outcomes.len() < bufs.len(),
        node.write_outcome((start + total) as usize, bufs[outcomes.len() as int]@, o),
    ensures
        writes_asked(*node, start, bufs, outcomes.push(o)),
        forall|j: int|
            0 <= j < outcomes.len() + 1 ==> #[trigger] progress(start, outcomes.push(o).take(j)) is Going,
        progress(start, outcomes.push(o)) == crate::transfer::step(start, Transfer::Going(total), o),
{
    let i = outcomes.len() as int;
    let pushed = outcomes.push(o);
    lemma_progress_push(start, outcomes, o);
    assert(pushed.take(i) =~= outcomes);
    assert(outcomes.take(i) =~= outcomes);
    assert forall|j: int| 0 <= j < i + 1 implies #[trigger] progress(start, pushed.take(j)) is Going by {
        lemma_take_push(outcomes, o, j);
    }
    assert forall|j: int| #![trigger pushed[j]] 0 <= j < pushed.len() implies node.write_outcome(
        offset_before(start, pushed, j),
        bufs[j]@,
        pushed[j],
    ) by {
        lemma_take_push(outcomes, o, j);
        if j < i {
            assert(outcomes[j] == pushed[j]);
            assert(node.write_outcome(offset_before(start, outcomes, j), bufs[j]@, outcomes[j]));
        }
    }
}

/// An open file: a node, an access mode and a cursor.
///
/// Cursor-dependent operations take `&mut self`, so each runs with exclusive
/// access to the cursor from the node call through the advance; a handle
/// shared between threads is shared behind a lock. Positional operations take
/// `&self` and never touch the cursor. The cursor counts bytes for content
/// operations and entries for `read_entry`; a handle is used as one or the
/// other.
pub struct INodeFile<N: INode> {
    inode: Arc<N>,
    offset: usize,
    options: OpenOptions,
}

impl<N: INode> INodeFile<N> {
    /// The cursor.
    pub closed spec fn cursor(&self) -> usize {
        self.offset
    }

    /// The access mode.
    pub closed spec fn mode(&self) -> OpenOptions {
        self.options
    }

    /// The node.
    pub closed spec fn node(&self) -> Arc<N> {
        self.inode
    }

    /// Whether `other` is this handle with, at most, another cursor.
    pub open spec fn same_file(&self, other: &Self) -> bool {
        &&& other.node() == self.node()
        &&& other.mode() == self.mode()
    }

    /// Opens `inode` with `options`. Read access needs the owner-read bit of
    /// the node's mode, write access the owner-write bit; a handle that asks
    /// for neither opens without asking the node.
    pub fn open(inode: Arc<N>, options: OpenOptions) -> (r: Result<Self, Error>)
        ensures
            r matches Ok(f) ==> f.cursor() == 0 && f.mode() == options && f.node() == inode,
            !options.read && !options.write ==> r is Ok,
            options.read || options.write ==> (exists|e: FsError|
                (*inode).metadata_outcome(Err::<Metadata, FsError>(e)) && (r matches Err(x) && x
                    == Error::Node(e))) || (exists|m: Metadata|
                (*inode).metadata_outcome(Ok::<Metadata, FsError>(m)) && (r is Ok
                    <==> access_granted(options, m.mode)) && (r matches Err(x) ==> x
                    == Error::AccessDenied)),
    {
        if options.read || options.write {
            let m = inode.metadata();
            assert((*inode).metadata_outcome(m));
            match m {
                Ok(info) => {
                    if let Err(e) = access_gate(options, info.mode) {
                        return Err(e);
                    }
                },
                Err(e) => return Err(Error::Node(e)),
            }
        }
        Ok(INodeFile { inode, offset: 0, options })
    }

    /// Reads from the cursor into `buf` and advances the cursor by the count
    /// the node returns.
    pub fn read(&mut self, buf: &mut [u8]) -> (r: Result<usize, Error>)
        ensures
            !old(self).mode().read ==> r == Err::<usize, Error>(Error::AccessDenied) && final(buf)@ == old(buf)@,
            old(self).mode().read ==> r != Err::<usize, Error>(Error::AccessDenied),
            old(self).mode().read ==> exists|o: Result<usize, FsError>|
                (*old(self).node()).read_outcome(
                    old(self).cursor(),
                    old(buf)@.len() as usize,
                    o,
                    final(buf)@,
                ) && r == transfer_result(old(self).cursor(), seq![o]),
            r is Err ==> *final(self) == *old(self),
            r matches Ok(k) ==> old(self).same_file(final(self)) && final(self).cursor()
                == old(self).cursor() + k,
    {
        if !self.options.read {
            return Err(Error::AccessDenied);
        }
        let start = self.offset;
        let o = self.inode.read_at(start, buf);
        proof {
            lemma_single(start, o);
        }
        let r = match transfer_step(start, 0, o) {
            Transfer::Going(k) => {
                self.offset = start + k;
                Ok(k)
            },
            Transfer::Done(r) => r,
        };
        assert((*old(self).node()).read_outcome(start, old(buf)@.len() as usize, o, buf@) && r
            == transfer_result(start, seq![o]));
        r
    }

    /// Writes `buf` at the cursor, or first moves the cursor to the node's
    /// size in append mode, and advances the cursor by the count written.
    pub fn write(&mut self, buf: &[u8]) -> (r: Result<usize, Error>)
        ensures
            !old(self).mode().write ==> r == Err::<usize, Error>(Error::AccessDenied) && *final(self) == *old(self),
            old(self).mode().write ==> r != Err::<usize, Error>(Error::AccessDenied),
            old(self).same_file(final(self)),
            old(self).mode().write && !old(self).mode().append ==> exists|
                o: Result<usize, FsError>,
            |
                (*old(self).node()).write_outcome(old(self).cursor(), buf@, o) && r
                    == transfer_result(old(self).cursor(), seq![o]),
            old(self).mode().write && old(self).mode().append ==> (exists|e: FsError|
                (*old(self).node()).metadata_outcome(Err::<Metadata, FsError>(e)) && r
                    == Err::<usize, Error>(Error::Node(e)) && *final(self) == *old(self)) || (
            exists|m: Metadata, o: Result<usize, FsError>|
                (*old(self).node()).metadata_outcome(Ok::<Metadata, FsError>(m)) && (*old(self).node()).write_outcome(m.size, buf@, o) && r == transfer_result(m.size, seq![o])
                    && final(self).cursor() == moved(m.size, r)),
            !old(self).mode().append ==> (r matches Ok(k) ==> final(self).cursor() == old(self).cursor() + k),
            r is Err && !old(self).mode().append ==> *final(self) == *old(self),
    {
        if !self.options.write {
            return Err(Error::AccessDenied);
        }
        let ghost mut seen = Metadata { size: 0, mode: 0 };
        if self.options.append {
            let m = self.inode.metadata();
            match m {
                Ok(info) => {
                    self.offset = info.size;
                    proof {
                        seen = info;
                    }
                },
                Err(e) => {
                    assert((*old(self).node()).metadata_outcome(m));
                    return Err(Error::Node(e));
                },
            }
            assert((*old(self).node()).metadata_outcome(Ok::<Metadata, FsError>(seen)));
        }
        let start = self.offset;
        let o = self.inode.write_at(start, buf);
        proof {
            lemma_single(start, o);
        }
        let r = match transfer_step(start, 0, o) {
            Transfer::Going(k) => {
                self.offset = start + k;
                Ok(k)
            },
            Transfer::Done(r) => r,
        };
        assert((*old(self).node()).write_outcome(start, buf@, o) && r == transfer_result(
            start,
            seq![o],
        ));
        if !self.options.append {
            assert((*old(self).node()).write_outcome(old(self).cursor(), buf@, o) && r
                == transfer_result(old(self).cursor(), seq![o]));
        }
        r
    }

    /// Reads at `offset` into `buf`; the cursor is neither used nor moved.
    pub fn read_at(&self, offset: usize, buf: &mut [u8]) -> (r: Result<usize, Error>)
        ensures
            !self.mode().read ==> r == Err::<usize, Error>(Error::AccessDenied) && final(buf)@
                == old(buf)@,
            self.mode().read ==> exists|o: Result<usize, FsError>|
                (*self.node()).read_outcome(offset, old(buf)@.len() as usize, o, final(buf)@) && r
                    == lift(o),
    {
        if !self.options.read {
            return Err(Error::AccessDenied);
        }
        let o = self.inode.read_at(offset, buf);
        let r = match o {
            Ok(len) => Ok(len),
            Err(e) => Err(Error::Node(e)),
        };
        assert((*self.node()).read_outcome(offset, old(buf)@.len() as usize, o, buf@) && r == lift(
            o,
        ));
        r
    }

    /// Writes `buf` at `offset`; the cursor is neither used nor moved.
    pub fn write_at(&self, offset: usize, buf: &[u8]) -> (r: Result<usize, Error>)
        ensures
            !self.mode().write ==> r == Err::<usize, Error>(Error::AccessDenied),
            self.mode().write ==> exists|o: Result<usize, FsError>|
                (*self.node()).write_outcome(offset, buf@, o) && r == lift(o),
    {
        if !self.options.write {
            return Err(Error::AccessDenied);
        }
        let o = self.inode.write_at(offset, buf);
        let r = match o {
            Ok(len) => Ok(len),
            Err(e) => Err(Error::Node(e)),
        };
        assert((*self.node()).write_outcome(offset, buf@, o) && r == lift(o));
        r
    }

    /// Reads into each buffer in turn from the cursor, advancing the cursor
    /// after each. A failure after some bytes were read ends the call with
    /// that count; a failure before any fails the call.
    pub fn readv(&mut self, bufs: &mut Vec<Vec<u8>>) -> (r: Result<usize, Error>)
        ensures
            !old(self).mode().read ==> r == Err::<usize, Error>(Error::AccessDenied) && final(bufs)@ == old(bufs)@,
            old(self).mode().read ==> r != Err::<usize, Error>(Error::AccessDenied),
            old(self).mode().read ==> exists|outcomes: Seq<Result<usize, FsError>>|
                ran(old(self).cursor(), outcomes, old(bufs)@.len()) && reads_asked(
                    *old(self).node(),
                    old(self).cursor(),
                    old(bufs)@,
                    final(bufs)@,
                    outcomes,
                ) && r == transfer_result(old(self).cursor(), outcomes),
            r is Err ==> *final(self) == *old(self),
            r matches Ok(t) ==> old(self).same_file(final(self)) && final(self).cursor()
                == old(self).cursor() + t,
            final(bufs)@.len() == old(bufs)@.len(),
    {
        if !self.options.read {
            return Err(Error::AccessDenied);
        }
        let start = self.offset;
        let ghost mut outcomes: Seq<Result<usize, FsError>> = Seq::empty();
        let mut total: usize = 0;
        let mut i: usize = 0;
        while i < bufs.len()
            invariant
                i <= bufs@.len() == old(bufs)@.len(),
                start == old(self).cursor(),
                old(self).mode().read,
                old(self).same_file(self),
                outcomes.len() == i,
                forall|j: int| 0 <= j < i ==> #[trigger] progress(start, outcomes.take(j)) is Going,
                progress(start, outcomes) == Transfer::Going(total),
                reads_asked(*self.inode, start, old(bufs)@, bufs@, outcomes),
                start + total <= usize::MAX,
                self.offset == start + total,
            decreases bufs@.len() - i,
        {
            let ghost mid = bufs@;
            let o = self.inode.read_at(self.offset, bufs[i].as_mut_slice());
            proof {
                lemma_reads_extend(&*self.inode, start, old(bufs)@, mid, bufs@, outcomes, o, total);
                outcomes = outcomes.push(o);
            }
            match transfer_step(start, total, o) {
                Transfer::Going(t) => {
                    total = t;
                    self.offset = start + t;
                },
                Transfer::Done(r) => {
                    assert(r == transfer_result(start, outcomes));
                    assert(ran(start, outcomes, old(bufs)@.len()) && reads_asked(
                        *old(self).node(),
                        start,
                        old(bufs)@,
                        bufs@,
                        outcomes,
                    ));
                    return r;
                },
            }
            i += 1;
        }
        assert(Ok::<usize, Error>(total) == transfer_result(start, outcomes));
        assert(ran(start, outcomes, old(bufs)@.len()) && reads_asked(
            *old(self).node(),
            start,
            old(bufs)@,
            bufs@,
            outcomes,
        ));
        Ok(total)
    }

    /// Writes each buffer in turn at the cursor, advancing the cursor after
    /// each; in append mode the cursor first moves to the node's size. A
    /// failure after some bytes were written ends the call with that count; a
    /// failure before any fails the call.
    pub fn writev(&mut self, bufs: &Vec<Vec<u8>>) -> (r: Result<usize, Error>)
        ensures
            !old(self).mode().write ==> r == Err::<usize, Error>(Error::AccessDenied) && *final(self) == *old(self),
            old(self).mode().write ==> r != Err::<usize, Error>(Error::AccessDenied),
            old(self).same_file(final(self)),
            old(self).mode().write && !old(self).mode().append ==> exists|
                outcomes: Seq<Result<usize, FsError>>,
            |
                ran(old(self).cursor(), outcomes, bufs@.len()) && writes_asked(
                    *old(self).node(),
                    old(self).cursor(),
                    bufs@,
                    outcomes,
                ) && r == transfer_result(old(self).cursor(), outcomes),
            old(self).mode().write && old(self).mode().append ==> (exists|e: FsError|
                (*old(self).node()).metadata_outcome(Err::<Metadata, FsError>(e)) && r
                    == Err::<usize, Error>(Error::Node(e)) && *final(self) == *old(self)) || (
            exists|m: Metadata, outcomes: Seq<Result<usize, FsError>>|
                (*old(self).node()).metadata_outcome(Ok::<Metadata, FsError>(m)) && ran(
                    m.size,
                    outcomes,
                    bufs@.len(),
                ) && writes_asked(*old(self).node(), m.size, bufs@, outcomes) && r
                    == transfer_result(m.size, outcomes) && final(self).cursor() == moved(
                    m.size,
                    r,
                )),
            old(self).mode().write && !old(self).mode().append && bufs@.len() == 0 ==> r
                == Ok::<usize, Error>(0),
            !old(self).mode().append ==> (r matches Ok(t) ==> final(self).cursor() == old(self).cursor() + t),
            r is Err && !old(self).mode().append ==> *final(self) == *old(self),
    {
        if !self.options.write {
            return Err(Error::AccessDenied);
        }
        let ghost mut info_seen: Metadata = Metadata { size: 0, mode: 0 };
        if self.options.append {
            let m = self.inode.metadata();
            match m {
                Ok(info) => {
                    self.offset = info.size;
                    proof {
                        info_seen = info;
                    }
                },
                Err(e) => {
                    assert((*old(self).node()).metadata_outcome(m));
                    return Err(Error::Node(e));
                },
            }
        }
        let start = self.offset;
        let ghost mut outcomes: Seq<Result<usize, FsError>> = Seq::empty();
        let mut total: usize = 0;
        let mut i: usize = 0;
        while i < bufs.len()
            invariant
                i <= bufs@.len(),
                old(self).mode().write,
                !old(self).mode().append ==> start == old(self).cursor(),
                old(self).mode().append ==> start == info_seen.size && (*old(self).node()).metadata_outcome(Ok::<Metadata, FsError>(info_seen)),
                old(self).same_file(self),
                outcomes.len() == i,
                forall|j: int| 0 <= j < i ==> #[trigger] progress(start, outcomes.take(j)) is Going,
                progress(start, outcomes) == Transfer::Going(total),
                writes_asked(*self.inode, start, bufs@, outcomes),
                start + total <= usize::MAX,
                self.offset == start + total,
            decreases bufs@.len() - i,
        {
            let o = self.inode.write_at(self.offset, bufs[i].as_slice());
            proof {
                lemma_writes_extend(&*self.inode, start, bufs@, outcomes, o, total);
                outcomes = outcomes.push(o);
            }
            match transfer_step(start, total, o) {
                Transfer::Going(t) => {
                    total = t;
                    self.offset = start + t;
                },
                Transfer::Done(r) => {
                    assert(r == transfer_result(start, outcomes));
                    assert(ran(start, outcomes, bufs@.len()) && writes_asked(
                        *old(self).node(),
                        start,
                        bufs@,
                        outcomes,
                    ));
                    return r;
                },
            }
            i += 1;
        }
        assert(Ok::<usize, Error>(total) == transfer_result(start, outcomes));
        assert(ran(start, outcomes, bufs@.len()) && writes_asked(
            *old(self).node(),
            start,
            bufs@,
            outcomes,
        ));
        Ok(total)
    }

    /// Moves the cursor and returns its new value. `SeekFrom::End` asks the
    /// node for its size. A target before the start fails with
    /// `InvalidArgument`, one beyond a signed 64-bit offset with `Overflow`;
    /// either leaves the cursor where it was.
    pub fn seek(&mut self, pos: SeekFrom) -> (r: Result<i64, Error>)
        ensures
            old(self).same_file(final(self)),
            !(pos is End) ==> seek_returns(seek_result(pos, old(self).cursor(), 0), r),
            pos is End ==> (exists|e: FsError|
                (*old(self).node()).metadata_outcome(Err::<Metadata, FsError>(e)) && r
                    == Err::<i64, Error>(Error::Node(e))) || (exists|m: Metadata|
                (*old(self).node()).metadata_outcome(Ok::<Metadata, FsError>(m)) && seek_returns(
                    seek_result(pos, old(self).cursor(), m.size),
                    r,
                )),
            r matches Ok(n) ==> 0 <= n && final(self).cursor() == n,
            r is Err ==> *final(self) == *old(self),
    {
        let size = match pos {
            SeekFrom::End(_) => {
                let m = self.inode.metadata();
                assert((*old(self).node()).metadata_outcome(m));
                match m {
                    Ok(info) => info.size,
                    Err(e) => return Err(Error::Node(e)),
                }
            },
            _ => 0,
        };
        match seek_offset(pos, self.offset, size) {
            Ok(n) => {
                self.offset = n;
                Ok(n as i64)
            },
            Err(e) => Err(e),
        }
    }

    /// The node's metadata.
    pub fn metadata(&self) -> (r: Result<Metadata, Error>)
        ensures
            exists|o: Result<Metadata, FsError>|
                (*self.node()).metadata_outcome(o) && r == lift(o),
    {
        let o = self.inode.metadata();
        let r = match o {
            Ok(info) => Ok(info),
            Err(e) => Err(Error::Node(e)),
        };
        assert((*self.node()).metadata_outcome(o) && r == lift(o));
        r
    }

    /// Resizes the node's content to `len` bytes.
    pub fn set_len(&self, len: u64) -> (r: Result<(), Error>)
        ensures
            !self.mode().write ==> r == Err::<(), Error>(Error::AccessDenied),
            self.mode().write && len > usize::MAX ==> r == Err::<(), Error>(Error::Overflow),
            self.mode().write && len <= usize::MAX ==> exists|o: Result<(), FsError>|
                (*self.node()).resize_outcome(len as usize, o) && r == lift(o),
    {
        if !self.options.write {
            return Err(Error::AccessDenied);
        }
        if len > usize::MAX as u64 {
            return Err(Error::Overflow);
        }
        let o = self.inode.resize(len as usize);
        let r = match o {
            Ok(()) => Ok(()),
            Err(e) => Err(Error::Node(e)),
        };
        assert((*self.node()).resize_outcome(len as usize, o) && r == lift(o));
        r
    }

    /// Asks the node to make content and metadata durable.
    pub fn sync_all(&self) -> (r: Result<(), Error>)
        ensures
            r matches Err(e) ==> e is Node,
    {
        match self.inode.sync_all() {
            Ok(()) => Ok(()),
            Err(e) => Err(Error::Node(e)),
        }
    }

    /// Asks the node to make content durable.
    pub fn sync_data(&self) -> (r: Result<(), Error>)
        ensures
            r matches Err(e) ==> e is Node,
    {
        match self.inode.sync_data() {
            Ok(()) => Ok(()),
            Err(e) => Err(Error::Node(e)),
        }
    }

    /// Returns the name of the directory entry at the cursor, taken as an
    /// entry index, and advances the cursor by one.
    pub fn read_entry(&mut self) -> (r: Result<String, Error>)
        ensures
            !old(self).mode().read ==> r == Err::<String, Error>(Error::AccessDenied),
            old(self).mode().read && old(self).cursor() == usize::MAX ==> r == Err::<
                String,
                Error,
            >(Error::Overflow),
            old(self).mode().read && old(self).cursor() < usize::MAX ==> exists|
                o: Result<String, FsError>,
            | (*old(self).node()).entry_outcome(old(self).cursor(), o) && r == lift(o),
            r is Err ==> *final(self) == *old(self),
            r is Ok ==> old(self).same_file(final(self)) && final(self).cursor() == old(self).cursor() + 1,
    {
        if !self.options.read {
            return Err(Error::AccessDenied);
        }
        if self.offset == usize::MAX {
            return Err(Error::Overflow);
        }
        let o = self.inode.get_entry(self.offset);
        assert((*old(self).node()).entry_outcome(old(self).cursor(), o));
        match o {
            Ok(name) => {
                self.offset = self.offset + 1;
                assert(Ok::<String, Error>(name) == lift(o));
                Ok(name)
            },
            Err(e) => Err(Error::Node(e)),
        }
    }

    /// The cursor's current value.
    pub fn offset(&self) -> (r: usize)
        ensures
            r == self.cursor(),
    {
        self.offset
    }

    /// The access mode the handle was opened with.
    pub fn options(&self) -> (r: OpenOptions)
        ensures
            r == self.mode(),
    {
        self.options
    }
}

/// Seeking to `Start(n)` and then by `Current(0)` both yield `n`, for every
/// `n` that a signed 64-bit offset and the cursor can hold.
pub proof fn lemma_seek_start_then_current(n: u64, cursor: usize, size: usize)
    requires
        n <= i64::MAX,
        n <= usize::MAX,
    ensures
        seek_result(SeekFrom::Start(n), cursor, size) == Ok::<usize, Error>(n as usize),
        seek_result(SeekFrom::Current(0), n as usize, size) == Ok::<usize, Error>(n as usize),
{
}

} // verus!
