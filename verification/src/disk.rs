//! Disks reached through the disk service or through the kernel: the
//! requests sent, the checks on replies, where each part of a multi-sector
//! read goes, and the messages held back while a reply is awaited.

use vstd::prelude::*;

use crate::bytes::{le_u64, push_u64_le, read_u64_le, u64_le};
use crate::vfs::VfsError;

verus! {

/// Bytes in a sector.
pub const SECTOR_SIZE: usize = 512;

/// Most sectors asked for in one request.
pub const MAX_SECTORS_PER_REQ: usize = 64;

/// Sectors carried by one reply message of a multi-sector read.
pub const BULK_SECTORS_PER_MSG: usize = 4;

/// Read sectors.
pub const DISK_OP_READ: u64 = 1;

/// Write a sector.
pub const DISK_OP_WRITE: u64 = 2;

/// Describe the disk.
pub const DISK_OP_INFO: u64 = 3;

/// Bytes in a one-sector reply: status, length, one sector.
pub const DISK_RESPONSE_SIZE: usize = 528;

/// Most messages held back at once; the oldest goes first when full.
pub const STASH_CAP: usize = 32;

/// Largest message that IPC carries.
pub const IPC_MAX_MSG_SIZE: usize = 4128;

/// A disk reached through the disk service.
#[derive(Debug, Clone, Copy, PartialEq, Eq, Structural)]
pub struct DiskServiceDevice {
    pub disk_service_pid: u64,
    pub disk_id: u64,
    pub sector_size: usize,
}

impl DiskServiceDevice {
    /// Disk `disk_id` of the disk service running as `disk_service_pid`,
    /// with 512-byte sectors.
    pub fn new(disk_service_pid: u64, disk_id: u64) -> (r: Self)
        ensures
            r == (DiskServiceDevice { disk_service_pid, disk_id, sector_size: SECTOR_SIZE }),
    {
        DiskServiceDevice { disk_service_pid, disk_id, sector_size: SECTOR_SIZE }
    }

    /// The request for `count` sectors from `lba` (or, for a write, one
    /// sector holding `data`).
    pub fn request(&self, op: u64, lba: u64, count: u64, data: &Vec<u8>) -> (r: Vec<u8>)
        requires
            data@.len() == SECTOR_SIZE,
        ensures
            r@ == u64_le(op) + u64_le(self.disk_id) + u64_le(lba) + u64_le(count) + data@,
    {
        let mut out: Vec<u8> = Vec::new();
        push_u64_le(&mut out, op);
        push_u64_le(&mut out, self.disk_id);
        push_u64_le(&mut out, lba);
        push_u64_le(&mut out, count);
        let ghost head = out@;
        let mut i: usize = 0;
        while i < data.len()
            invariant
                i <= data@.len(),
                out@ == head + data@.subrange(0, i as int),
            decreases data@.len() - i,
        {
            out.push(data[i]);
            i = i + 1;
            proof {
                assert(out@ =~= head + data@.subrange(0, i as int));
            }
        }
        proof {
            assert(data@.subrange(0, data@.len() as int) =~= data@);
        }
        out
    }
}

/// A disk reached through the kernel's block calls.
#[derive(Debug, Clone, Copy, PartialEq, Eq, Structural)]
pub struct KernelBlockDevice {
    pub disk_id: u64,
    pub sector_size: usize,
}

impl KernelBlockDevice {
    /// Disk `disk_id`, with 512-byte sectors.
    pub fn new(disk_id: u64) -> (r: Self)
        ensures
            r == (KernelBlockDevice { disk_id, sector_size: SECTOR_SIZE }),
    {
        KernelBlockDevice { disk_id, sector_size: SECTOR_SIZE }
    }
}

/// Number of reply messages for a read of `count` sectors.
pub open spec fn chunk_count(count: int) -> int {
    (count + BULK_SECTORS_PER_MSG - 1) / (BULK_SECTORS_PER_MSG as int)
}

/// Sectors carried by reply message `chunk` of a read of `count` sectors.
pub open spec fn chunk_sectors(count: int, chunk: int) -> int {
    let remaining = count - chunk * BULK_SECTORS_PER_MSG;
    if remaining < BULK_SECTORS_PER_MSG {
        remaining
    } else {
        BULK_SECTORS_PER_MSG as int
    }
}

/// Copies the first `expected` bytes of `src` to where part `chunk_index`
/// of a multi-sector read goes in `dst`: `IoError` where `src` is too
/// short, `InvalidArgument` where the place overflows or lies past `dst`.
pub fn copy_bulk_chunk(
    sector_size: usize,
    chunk_index: usize,
    expected: usize,
    src: &[u8],
    dst: &mut Vec<u8>,
) -> (r: Result<(), VfsError>)
    ensures
        final(dst)@.len() == old(dst)@.len(),
        ({
            let start = chunk_index * BULK_SECTORS_PER_MSG * sector_size;
            let end = start + expected;
            if src@.len() < expected {
                r == Err::<(), VfsError>(VfsError::IoError) && final(dst)@ == old(dst)@
            } else if chunk_index * BULK_SECTORS_PER_MSG > usize::MAX || end > usize::MAX || end > old(
                dst,
            )@.len() {
                r == Err::<(), VfsError>(VfsError::InvalidArgument) && final(dst)@ == old(dst)@
            } else {
                &&& r == Ok::<(), VfsError>(())
                &&& final(dst)@ == old(dst)@.subrange(0, start) + src@.subrange(0, expected as int)
                    + old(dst)@.subrange(end, old(dst)@.len() as int)
            }
        }),
{
    if src.len() < expected {
        return Err(VfsError::IoError);
    }
    let a = match chunk_index.checked_mul(BULK_SECTORS_PER_MSG) {
        Some(a) => a,
        None => return Err(VfsError::InvalidArgument),
    };
    let start = match a.checked_mul(sector_size) {
        Some(s) => s,
        None => {
            proof {
                assert(chunk_index * BULK_SECTORS_PER_MSG * sector_size > usize::MAX);
            }
            return Err(VfsError::InvalidArgument);
        },
    };
    let end = match start.checked_add(expected) {
        Some(e) => e,
        None => return Err(VfsError::InvalidArgument),
    };
    if end > dst.len() {
        return Err(VfsError::InvalidArgument);
    }
    let ghost before = dst@;
    let mut i: usize = 0;
    while i < expected
        invariant
            i <= expected,
            expected <= src@.len(),
            start + expected == end,
            end <= dst@.len(),
            dst@.len() == before.len(),
            forall|k: int| 0 <= k < start ==> #[trigger] dst@[k] == before[k],
            forall|k: int| end <= k < dst@.len() ==> #[trigger] dst@[k] == before[k],
            forall|k: int| 0 <= k < i ==> #[trigger] dst@[start + k] == src@[k],
            forall|k: int| i <= k < expected ==> #[trigger] dst@[start + k] == before[start + k],
        decreases expected - i,
    {
        dst.set(start + i, src[i]);
        i = i + 1;
    }
    proof {
        let want = before.subrange(0, start as int) + src@.subrange(0, expected as int) + before.subrange(
            end as int,
            before.len() as int,
        );
        assert forall|k: int| 0 <= k < dst@.len() implies dst@[k] == want[k] by {
            if start <= k < end {
                assert(dst@[start + (k - start)] == src@[k - start]);
            }
        }
        assert(dst@ =~= want);
    }
    Ok(())
}

/// What a reply to one part of a read holds: either the one-sector reply
/// form (for a one-sector part) or the status, the length and the data.
pub open spec fn bulk_reply(bytes: Seq<u8>, len: int, chunk_sectors: int, sector_size: int) -> Result<
    Seq<u8>,
    VfsError,
> {
    let expected = chunk_sectors * sector_size;
    if len == DISK_RESPONSE_SIZE && chunk_sectors == 1 {
        if le_u64(bytes, 0) != 0 || le_u64(bytes, 8) != sector_size {
            Err(VfsError::IoError)
        } else {
            Ok(bytes.subrange(16, 16 + SECTOR_SIZE))
        }
    } else if len < 16 + expected {
        Err(VfsError::IoError)
    } else if le_u64(bytes, 0) != 0 || le_u64(bytes, 8) != expected {
        Err(VfsError::IoError)
    } else {
        Ok(bytes.subrange(16, 16 + expected))
    }
}

/// The data of a reply of `len` bytes (held in `bytes`) to a part of
/// `chunk_sectors` sectors of a read.
pub fn parse_bulk_reply(bytes: &[u8], len: usize, chunk_sectors: usize, sector_size: usize) -> (r:
    Result<Vec<u8>, VfsError>)
    requires
        len <= bytes@.len(),
        chunk_sectors <= BULK_SECTORS_PER_MSG,
        sector_size <= SECTOR_SIZE,
    ensures
        match r {
            Ok(v) => bulk_reply(bytes@, len as int, chunk_sectors as int, sector_size as int) == Ok::<
                Seq<u8>,
                VfsError,
            >(v@),
            Err(e) => bulk_reply(bytes@, len as int, chunk_sectors as int, sector_size as int) == Err::<
                Seq<u8>,
                VfsError,
            >(e),
        },
{
    let expected = chunk_sectors * sector_size;
    if len == DISK_RESPONSE_SIZE && chunk_sectors == 1 {
        let status = read_u64_le(bytes, 0);
        let data_len = read_u64_le(bytes, 8);
        if status != 0 || data_len != sector_size as u64 {
            return Err(VfsError::IoError);
        }
        return Ok(copy_part(bytes, 16, 16 + SECTOR_SIZE));
    }
    if len < 16 + expected {
        return Err(VfsError::IoError);
    }
    let status = read_u64_le(bytes, 0);
    let data_len = read_u64_le(bytes, 8);
    if status != 0 || data_len != expected as u64 {
        return Err(VfsError::IoError);
    }
    Ok(copy_part(bytes, 16, 16 + expected))
}

/// A copy of `b[from .. to]`.
fn copy_part(b: &[u8], from: usize, to: usize) -> (r: Vec<u8>)
    requires
        from <= to <= b@.len(),
    ensures
        r@ == b@.subrange(from as int, to as int),
{
    let mut v: Vec<u8> = Vec::new();
    let mut i: usize = from;
    while i < to
        invariant
            from <= i <= to,
            to <= b@.len(),
            v@ == b@.subrange(from as int, i as int),
        decreases to - i,
    {
        v.push(b[i]);
        i = i + 1;
        proof {
            assert(v@ =~= b@.subrange(from as int, i as int));
        }
    }
    v
}

/// The status of a write's reply: success only where the reply is whole
/// and its status is 0.
pub fn write_reply_ok(bytes: &[u8], len: usize) -> (r: Result<(), VfsError>)
    requires
        len <= bytes@.len(),
    ensures
        r == if len < DISK_RESPONSE_SIZE || le_u64(bytes@, 0) != 0 {
            Err::<(), VfsError>(VfsError::IoError)
        } else {
            Ok::<(), VfsError>(())
        },
{
    if len < DISK_RESPONSE_SIZE {
        return Err(VfsError::IoError);
    }
    if read_u64_le(bytes, 0) != 0 {
        return Err(VfsError::IoError);
    }
    Ok(())
}

/// A one-sector read or write needs a buffer of at least a sector:
/// `InvalidArgument` for a shorter one.
pub fn sector_buffer_check(buf_len: usize) -> (r: Result<(), VfsError>)
    ensures
        r == if buf_len < SECTOR_SIZE {
            Err::<(), VfsError>(VfsError::InvalidArgument)
        } else {
            Ok::<(), VfsError>(())
        },
{
    if buf_len < SECTOR_SIZE {
        Err(VfsError::InvalidArgument)
    } else {
        Ok(())
    }
}

/// The sector that a reply of `len` bytes (held in `bytes`) to a one-sector
/// read carries; `IoError` where the reply is short or reports a failure.
pub fn sector_reply(bytes: &[u8], len: usize) -> (r: Result<Vec<u8>, VfsError>)
    requires
        len <= bytes@.len(),
    ensures
        r is Ok <==> len >= DISK_RESPONSE_SIZE && le_u64(bytes@, 0) == 0,
        r is Ok ==> r->Ok_0@ == bytes@.subrange(16, 16 + SECTOR_SIZE),
        r is Err ==> r->Err_0 == VfsError::IoError,
{
    match write_reply_ok(bytes, len) {
        Ok(()) => Ok(copy_part(bytes, 16, 16 + SECTOR_SIZE)),
        Err(e) => Err(e),
    }
}

/// Whether a read of `count` sectors of `sector_size` bytes into a buffer
/// of `buf_len` bytes may be asked for: 1 to `MAX_SECTORS_PER_REQ` sectors
/// whose bytes fit in the buffer; their number of bytes, or
/// `InvalidArgument`.
pub fn read_sectors_check(count: usize, sector_size: usize, buf_len: usize) -> (r: Result<usize, VfsError>)
    ensures
        r == if count == 0 || count > MAX_SECTORS_PER_REQ || count * sector_size > usize::MAX
            || buf_len < count * sector_size {
            Err::<usize, VfsError>(VfsError::InvalidArgument)
        } else {
            Ok::<usize, VfsError>((count * sector_size) as usize)
        },
{
    if count == 0 || count > MAX_SECTORS_PER_REQ {
        return Err(VfsError::InvalidArgument);
    }
    let total = match count.checked_mul(sector_size) {
        Some(t) => t,
        None => return Err(VfsError::InvalidArgument),
    };
    if buf_len < total {
        return Err(VfsError::InvalidArgument);
    }
    Ok(total)
}

/// Number of reply messages for a read of `count` sectors.
pub fn reply_count(count: usize) -> (r: usize)
    ensures
        r == chunk_count(count as int),
{
    count / BULK_SECTORS_PER_MSG + if count % BULK_SECTORS_PER_MSG == 0 {
        0
    } else {
        1
    }
}

/// Sectors carried by reply `chunk_index` of a read of `count` sectors.
pub fn reply_sectors(count: usize, chunk_index: usize) -> (r: usize)
    requires
        chunk_index < chunk_count(count as int),
    ensures
        r == chunk_sectors(count as int, chunk_index as int),
        1 <= r <= BULK_SECTORS_PER_MSG,
{
    proof {
        assert(chunk_index * BULK_SECTORS_PER_MSG < count) by (nonlinear_arith)
            requires
                chunk_index < (count + BULK_SECTORS_PER_MSG - 1) / (BULK_SECTORS_PER_MSG as int),
        ;
    }
    let remaining = count - chunk_index * BULK_SECTORS_PER_MSG;
    if remaining < BULK_SECTORS_PER_MSG {
        remaining
    } else {
        BULK_SECTORS_PER_MSG
    }
}

impl DiskServiceDevice {
    /// Takes in the reply of `len` bytes (held in `bytes`) to part
    /// `chunk_index` of a read of `count` sectors: checks it and copies its
    /// data to where that part goes in `dst`.
    pub fn store_reply(
        &self,
        bytes: &[u8],
        len: usize,
        count: usize,
        chunk_index: usize,
        dst: &mut Vec<u8>,
    ) -> (r: Result<(), VfsError>)
        requires
            len <= bytes@.len(),
            chunk_index < chunk_count(count as int),
            self.sector_size <= SECTOR_SIZE,
        ensures
            final(dst)@.len() == old(dst)@.len(),
            ({
                let cs = chunk_sectors(count as int, chunk_index as int);
                let expected = cs * self.sector_size;
                match bulk_reply(bytes@, len as int, cs, self.sector_size as int) {
                    Err(e) => r == Err::<(), VfsError>(e) && final(dst)@ == old(dst)@,
                    Ok(data) => {
                        let start = chunk_index * BULK_SECTORS_PER_MSG * self.sector_size;
                        let end = start + expected;
                        if data.len() < expected {
                            r == Err::<(), VfsError>(VfsError::IoError) && final(dst)@ == old(dst)@
                        } else if chunk_index * BULK_SECTORS_PER_MSG > usize::MAX || end > usize::MAX
                            || end > old(dst)@.len() {
                            r == Err::<(), VfsError>(VfsError::InvalidArgument) && final(dst)@ == old(dst)@
                        } else {
                            &&& r == Ok::<(), VfsError>(())
                            &&& final(dst)@ == old(dst)@.subrange(0, start) + data.subrange(0, expected)
                                + old(dst)@.subrange(end, old(dst)@.len() as int)
                        }
                    },
                }
            }),
    {
        let cs = reply_sectors(count, chunk_index);
        proof {
            assert(cs * self.sector_size <= BULK_SECTORS_PER_MSG * SECTOR_SIZE) by (nonlinear_arith)
                requires
                    cs <= BULK_SECTORS_PER_MSG,
                    self.sector_size <= SECTOR_SIZE,
            ;
        }
        let expected = cs * self.sector_size;
        let data = match parse_bulk_reply(bytes, len, cs, self.sector_size) {
            Ok(d) => d,
            Err(e) => return Err(e),
        };
        copy_bulk_chunk(self.sector_size, chunk_index, expected, data.as_slice(), dst)
    }
}

/// The next run of a multi-sector read split into requests of at most
/// `MAX_SECTORS_PER_REQ` sectors: its first sector and the bytes of the
/// buffer it fills.
#[derive(Debug, Clone, Copy, PartialEq, Eq, Structural)]
pub struct SectorRun {
    pub lba: u64,
    pub sectors: usize,
    pub begin: usize,
    pub end: usize,
}

/// The run that starts `done` sectors into a read of `count` sectors from
/// `start_block`: at most `MAX_SECTORS_PER_REQ` sectors; `Err` where its
/// first sector number passes `u64::MAX`.
pub fn next_run(start_block: u64, count: usize, done: usize, sector_size: usize) -> (r: Result<SectorRun, ()>)
    requires
        done < count,
        count * sector_size <= usize::MAX,
    ensures
        ({
            let n = if count - done < MAX_SECTORS_PER_REQ {
                count - done
            } else {
                MAX_SECTORS_PER_REQ as int
            };
            &&& start_block + done > u64::MAX ==> r is Err
            &&& start_block + done <= u64::MAX ==> r == Ok::<SectorRun, ()>(
                SectorRun {
                    lba: (start_block + done) as u64,
                    sectors: n as usize,
                    begin: (done * sector_size) as usize,
                    end: ((done + n) * sector_size) as usize,
                },
            )
        }),
{
    let n = if count - done < MAX_SECTORS_PER_REQ {
        count - done
    } else {
        MAX_SECTORS_PER_REQ
    };
    let lba = match start_block.checked_add(done as u64) {
        Some(l) => l,
        None => return Err(()),
    };
    proof {
        assert((done + n) * sector_size <= count * sector_size) by (nonlinear_arith)
            requires
                done + n <= count,
        ;
        assert(done * sector_size <= (done + n) * sector_size) by (nonlinear_arith);
    }
    Ok(SectorRun { lba, sectors: n, begin: done * sector_size, end: (done + n) * sector_size })
}

/// A message held back: who sent it and its bytes.
#[derive(Debug)]
pub struct StashedMsg {
    pub sender: u64,
    pub data: Vec<u8>,
}

/// What a held message is.
pub struct StashedView {
    pub sender: u64,
    pub data: Seq<u8>,
}

/// Messages held back while a disk reply is awaited, oldest first.
pub struct MessageStash {
    queue: Vec<StashedMsg>,
}

pub open spec fn stash_views(q: Seq<StashedMsg>) -> Seq<StashedView> {
    q.map_values(|m: StashedMsg| StashedView { sender: m.sender, data: m.data@ })
}

impl View for MessageStash {
    type V = Seq<StashedView>;

    closed spec fn view(&self) -> Seq<StashedView> {
        stash_views(self.queue@)
    }
}

impl MessageStash {
    /// An empty stash.
    pub fn new() -> (r: Self)
        ensures
            r@ == Seq::<StashedView>::empty(),
    {
        let r = MessageStash { queue: Vec::new() };
        proof {
            assert(r@ =~= Seq::<StashedView>::empty());
        }
        r
    }

    /// Holds a message from `sender` (at most one IPC message's worth of
    /// `bytes`), dropping the oldest one when the stash is full.
    pub fn push(&mut self, sender: u64, bytes: &[u8])
        ensures
            ({
                let n = if bytes@.len() < IPC_MAX_MSG_SIZE {
                    bytes@.len() as int
                } else {
                    IPC_MAX_MSG_SIZE as int
                };
                let kept = if old(self)@.len() >= STASH_CAP {
                    old(self)@.subrange(1, old(self)@.len() as int)
                } else {
                    old(self)@
                };
                final(self)@ == kept.push(StashedView { sender, data: bytes@.subrange(0, n) })
            }),
    {
        let ghost q0 = self.queue@;
        if self.queue.len() >= STASH_CAP {
            let _oldest = self.queue.remove(0);
            proof {
                assert(stash_views(self.queue@) =~= stash_views(q0).subrange(1, q0.len() as int));
            }
        }
        let n = if bytes.len() < IPC_MAX_MSG_SIZE {
            bytes.len()
        } else {
            IPC_MAX_MSG_SIZE
        };
        let ghost q1 = self.queue@;
        let m = StashedMsg { sender, data: copy_part(bytes, 0, n) };
        self.queue.push(m);
        proof {
            assert(stash_views(self.queue@) =~= stash_views(q1).push(
                StashedView { sender, data: bytes@.subrange(0, n as int) },
            ));
        }
    }

    /// Takes out the oldest message, copying as much of it as fits to the
    /// start of `into`; returns its sender and the number of bytes copied.
    pub fn pop(&mut self, into: &mut Vec<u8>) -> (r: Option<(u64, u64)>)
        ensures
            old(self)@.len() == 0 ==> r is None && final(self)@ == old(self)@ && final(into)@ == old(
                into,
            )@,
            old(self)@.len() > 0 ==> {
                let m = old(self)@[0];
                let n = if old(into)@.len() < m.data.len() {
                    old(into)@.len() as int
                } else {
                    m.data.len() as int
                };
                &&& r == Some((m.sender, n as u64))
                &&& final(self)@ == old(self)@.subrange(1, old(self)@.len() as int)
                &&& final(into)@ == m.data.subrange(0, n) + old(into)@.subrange(n, old(into)@.len() as int)
            },
    {
        if self.queue.len() == 0 {
            return None;
        }
        let ghost q0 = self.queue@;
        let msg = self.queue.remove(0);
        proof {
            assert(stash_views(self.queue@) =~= stash_views(q0).subrange(1, q0.len() as int));
        }
        let n = if into.len() < msg.data.len() {
            into.len()
        } else {
            msg.data.len()
        };
        crate::bytes::copy_into(into, 0, &msg.data, 0, n);
        proof {
            assert(old(into)@.subrange(0, 0) + msg.data@.subrange(0, n as int) + old(into)@.subrange(
                n as int,
                old(into)@.len() as int,
            ) =~= msg.data@.subrange(0, n as int) + old(into)@.subrange(n as int, old(into)@.len() as int));
        }
        Some((msg.sender, n as u64))
    }
}

} // verus!
