//! The decisions of the file service's request loop: which capabilities a
//! request needs, what an open does with the path it resolved, the replies
//! for each operation, and when to try mounting ext2 again.

use vstd::prelude::*;

use crate::fs_service::{
    area_capability, cap_for_path, entry_names, errno_of, list_page, listing_bytes, listing_next, needs_read, needs_write, path_area,
    spec_write_intent, vfs_error_to_errno, FS_DATA_MAX, O_ACCMODE, O_CREAT, O_TRUNC, O_WRONLY,
};
use crate::user::fs_client::{
    FsResponseIp, OP_EXEC_STREAM, OP_FSTAT, OP_OPEN, OP_READ, OP_READDIR, OP_STAT, OP_WRITE,
};
use crate::vfs::{DirEntry, FileAttr, VfsError};

verus! {

/// Idle polls between two tries at mounting ext2.
pub const MOUNT_RETRY_POLLS: u64 = 200;

/// Bytes of a file sent per message when a program is streamed.
pub const EXEC_CHUNK: u64 = 4000;

/// The capabilities that a request needs on `path` (for an open, the path
/// asked for; otherwise the path its descriptor was opened by), in the
/// order they are checked: an open checks reading unless it is write-only,
/// then writing where it means to write; a write needs the right to write;
/// reads, stats, listings and program streams the right to read; closing
/// and seeking need nothing.
pub open spec fn spec_required_caps(op: u64, flags: u64, path: Seq<char>) -> Seq<Seq<char>> {
    let read_cap = area_capability(path_area(path), false);
    let write_cap = area_capability(path_area(path), true);
    if op == OP_OPEN {
        (if flags & O_ACCMODE != O_WRONLY {
            seq![read_cap]
        } else {
            Seq::empty()
        }) + (if spec_write_intent(flags) {
            seq![write_cap]
        } else {
            Seq::empty()
        })
    } else if op == OP_WRITE {
        seq![write_cap]
    } else if op == OP_READ || op == OP_STAT || op == OP_FSTAT || op == OP_READDIR || op
        == OP_EXEC_STREAM {
        seq![read_cap]
    } else {
        Seq::empty()
    }
}

/// The names of `caps`.
pub open spec fn cap_names(caps: Seq<&'static str>) -> Seq<Seq<char>> {
    caps.map_values(|c: &'static str| c@)
}

/// The capabilities that a request needs, as [`spec_required_caps`] says.
pub fn required_capabilities(op: u64, flags: u64, path: &str) -> (r: Vec<&'static str>)
    ensures
        cap_names(r@) == spec_required_caps(op, flags, path@),
{
    let mut out: Vec<&'static str> = Vec::new();
    if op == OP_OPEN {
        if needs_read(flags) {
            out.push(cap_for_path(path, false));
        }
        if needs_write(flags) {
            out.push(cap_for_path(path, true));
        }
    } else if op == OP_WRITE {
        out.push(cap_for_path(path, true));
    } else if op == OP_READ || op == OP_STAT || op == OP_FSTAT || op == OP_READDIR || op
        == OP_EXEC_STREAM {
        out.push(cap_for_path(path, false));
    }
    proof {
        assert(cap_names(out@) =~= spec_required_caps(op, flags, path@));
    }
    out
}

/// One more idle poll: the new count, and whether to try mounting ext2 now
/// (every `MOUNT_RETRY_POLLS` polls).
pub fn idle_poll(polls: u64) -> (r: (u64, bool))
    ensures
        r.0 == polls.wrapping_add(1),
        r.1 == (r.0 % MOUNT_RETRY_POLLS == 0),
{
    let next = polls.wrapping_add(1);
    (next, next % MOUNT_RETRY_POLLS == 0)
}

/// Whether the disk service has been seen, now that it is `present` or not;
/// and whether this is the first time, when a request should try mounting
/// ext2 at once.
pub fn disk_appearance(disk_seen: bool, present: bool) -> (r: (bool, bool))
    ensures
        r == (disk_seen || present, !disk_seen && present),
{
    (disk_seen || present, !disk_seen && present)
}

/// What an open does with the result of resolving its path.
#[derive(Debug, Clone, Copy, PartialEq, Eq, Structural)]
pub enum OpenStep {
    /// Open this inode.
    Use(u64),
    /// Create the file in its parent directory.
    Create,
    /// Answer with this status.
    Fail(i64),
}

/// The next step of an open whose path resolved to `resolved`: the inode;
/// creating the file where it is missing and `O_CREAT` is given; else the
/// error's status.
pub fn open_step(resolved: Result<u64, VfsError>, flags: u64) -> (r: OpenStep)
    ensures
        r == match resolved {
            Ok(i) => OpenStep::Use(i),
            Err(e) => if e == VfsError::NotFound && flags & O_CREAT != 0 {
                OpenStep::Create
            } else {
                OpenStep::Fail(errno_of(e) as i64)
            },
        },
{
    match resolved {
        Ok(i) => OpenStep::Use(i),
        Err(e) => {
            if e == VfsError::NotFound && flags & O_CREAT != 0 {
                OpenStep::Create
            } else {
                OpenStep::Fail(vfs_error_to_errno(e))
            }
        },
    }
}

/// The inode that creating a file gave, or the status to answer: -22
/// (EINVAL) where the path has no parent and name, else the error's.
pub fn created_inode(had_parent: bool, created: Result<u64, VfsError>) -> (r: Result<u64, i64>)
    ensures
        r == if !had_parent {
            Err::<u64, i64>(-22i64)
        } else {
            match created {
                Ok(i) => Ok::<u64, i64>(i),
                Err(e) => Err::<u64, i64>(errno_of(e) as i64),
            }
        },
{
    if !had_parent {
        return Err(-22);
    }
    match created {
        Ok(i) => Ok(i),
        Err(e) => Err(vfs_error_to_errno(e)),
    }
}

/// Whether an open with `flags` empties the file.
pub fn truncates(flags: u64) -> (r: bool)
    ensures
        r == (flags & O_TRUNC != 0),
{
    flags & O_TRUNC != 0
}

/// A reply with `status`, `len` and `data` padded with zeros to a whole
/// data field.
pub open spec fn reply_of(status: i64, len: u64, data: Seq<u8>) -> (i64, u64, Seq<u8>) {
    (status, len, data + Seq::new((FS_DATA_MAX - data.len()) as nat, |i: int| 0u8))
}

/// The reply's status, length and data field.
pub open spec fn reply_parts(r: FsResponseIp) -> (i64, u64, Seq<u8>) {
    (r.status, r.len, r.data@)
}

fn make_reply(status: i64, len: u64, data: &[u8]) -> (r: FsResponseIp)
    requires
        data@.len() <= FS_DATA_MAX,
    ensures
        reply_parts(r) == reply_of(status, len, data@),
{
    let mut out: Vec<u8> = Vec::new();
    let mut i: usize = 0;
    while i < FS_DATA_MAX
        invariant
            i <= FS_DATA_MAX,
            data@.len() <= FS_DATA_MAX,
            out@.len() == i,
            forall|k: int| 0 <= k < i ==> #[trigger] out@[k] == if k < data@.len() {
                data@[k]
            } else {
                0u8
            },
        decreases FS_DATA_MAX - i,
    {
        if i < data.len() {
            out.push(data[i]);
        } else {
            out.push(0u8);
        }
        i = i + 1;
    }
    proof {
        assert(out@ =~= data@ + Seq::new((FS_DATA_MAX - data@.len()) as nat, |i: int| 0u8));
    }
    FsResponseIp { status, len, data: out }
}

/// The reply with `status` alone: no data.
pub fn status_reply(status: i64) -> (r: FsResponseIp)
    ensures
        reply_parts(r) == reply_of(status, 0, Seq::empty()),
{
    make_reply(status, 0, &[])
}

/// The reply to a read that gave `result`, the bytes read being the start
/// of `bytes`: the count as status and length, and the bytes; else the
/// error's status.
pub fn read_reply(result: Result<usize, VfsError>, bytes: &Vec<u8>) -> (r: FsResponseIp)
    requires
        result is Ok ==> result->Ok_0 <= bytes@.len() && result->Ok_0 <= FS_DATA_MAX,
    ensures
        reply_parts(r) == match result {
            Ok(n) => reply_of(n as i64, n as u64, bytes@.subrange(0, n as int)),
            Err(e) => reply_of(errno_of(e) as i64, 0, Seq::empty()),
        },
{
    match result {
        Ok(n) => {
            let head = crate::bytes::copy_range(bytes, 0, n);
            make_reply(n as i64, n as u64, head.as_slice())
        },
        Err(e) => status_reply(vfs_error_to_errno(e)),
    }
}

/// The reply to a stat that gave `result`: the mode as status and the size
/// as length; else the error's status.
pub fn stat_reply(result: Result<FileAttr, VfsError>) -> (r: FsResponseIp)
    ensures
        reply_parts(r) == match result {
            Ok(a) => reply_of(a.mode as i64, a.size, Seq::empty()),
            Err(e) => reply_of(errno_of(e) as i64, 0, Seq::empty()),
        },
{
    match result {
        Ok(a) => make_reply(a.mode as i64, a.size, &[]),
        Err(e) => status_reply(vfs_error_to_errno(e)),
    }
}

/// The reply to a listing request with argument `arg2` (first entry in its
/// high half, most bytes in its low half) on a directory whose entries
/// came out as `result`: a page of names, the index to go on from as
/// status; else the error's status.
pub fn readdir_reply(result: &Result<Vec<DirEntry>, VfsError>, arg2: u64) -> (r: FsResponseIp)
    ensures
        match result {
            Ok(entries) => {
                let start = (arg2 >> 32u64) as usize;
                let max = (arg2 & 0xFFFF_FFFFu64) as usize;
                let room = if max < FS_DATA_MAX {
                    max as int
                } else {
                    FS_DATA_MAX as int
                };
                let names = entry_names(entries@);
                let bytes = listing_bytes(names, start as int, room);
                reply_parts(r) == reply_of(
                    listing_next(names, start as int, room) as i64,
                    bytes.len() as u64,
                    bytes,
                )
            },
            Err(e) => reply_parts(r) == reply_of(errno_of(*e) as i64, 0, Seq::empty()),
        },
{
    match result {
        Ok(entries) => {
            let start = (arg2 >> 32u64) as usize;
            let max = (arg2 & 0xFFFF_FFFFu64) as usize;
            let page = list_page(entries, start, max);
            make_reply(page.next as i64, page.bytes.len() as u64, page.bytes.as_slice())
        },
        Err(e) => status_reply(vfs_error_to_errno(*e)),
    }
}

/// The status of the reply to a write to a file: the error's status where
/// a part failed; otherwise -1, the status the reply was made with (the
/// service never puts the count there).
pub fn write_reply_status(failed: Option<VfsError>) -> (r: i64)
    ensures
        r == match failed {
            Some(e) => errno_of(e) as i64,
            None => -1i64,
        },
{
    match failed {
        Some(e) => vfs_error_to_errno(e),
        None => -1,
    }
}

/// How many bytes of a data message of `msg_len` bytes a write with
/// `remaining` bytes still to come takes: no more than is left, than one
/// message carries, or than the message holds.
pub fn write_piece_len(remaining: usize, msg_len: u64) -> (r: usize)
    ensures
        r <= remaining,
        r <= crate::disk::IPC_MAX_MSG_SIZE,
        r <= msg_len,
        r == remaining || r == crate::disk::IPC_MAX_MSG_SIZE || r == msg_len,
{
    let want = if remaining < crate::disk::IPC_MAX_MSG_SIZE {
        remaining
    } else {
        crate::disk::IPC_MAX_MSG_SIZE
    };
    if (msg_len as u128) < (want as u128) {
        msg_len as usize
    } else {
        want
    }
}

/// How many bytes of a streamed program of `file_size` bytes to send next
/// from `offset`: a whole piece, or what is left.
pub fn exec_chunk_len(file_size: u64, offset: u64) -> (r: u64)
    requires
        offset < file_size,
    ensures
        r == if file_size - offset < EXEC_CHUNK {
            file_size - offset
        } else {
            EXEC_CHUNK as int
        },
        0 < r <= EXEC_CHUNK,
{
    if file_size - offset < EXEC_CHUNK {
        file_size - offset
    } else {
        EXEC_CHUNK
    }
}

} // verus!
