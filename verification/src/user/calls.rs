//! What the user library makes of system call arguments and results: the
//! checks made before a call and the meaning given to the raw value that
//! comes back.

use vstd::prelude::*;

verus! {

/// Bytes in a disk sector.
pub const SECTOR_SIZE: usize = 512;

/// Highest address of user space.
pub const USER_SPACE_END: u64 = 0x0000_7FFF_FFFF_FFFF;

/// Lowest address at which mappings are made for user programs.
pub const USER_MAP_FLOOR: u64 = 0x7100_0000_0000;

/// Bytes in a page.
pub const PAGE_SIZE: usize = 4096;

/// The value a call returns when there is no data yet (`u64::MAX - 4`, as
/// the keyboard service knows it).
pub const ENODATA: u64 = 0xFFFF_FFFF_FFFF_FFFB;

/// Invalid argument, negated.
pub const EINVAL: i64 = -22;

/// No child process, negated.
pub const ECHILD: i64 = -10;

/// The system calls that the file service's own library makes.
#[derive(Debug, Clone, Copy, PartialEq, Eq, Structural)]
pub enum SyscallNumber {
    Yield,
    GetTicks,
    IpcSend,
    IpcRecv,
    Exec,
    Exit,
    Write,
    Read,
    GetPid,
    GetTid,
    Sleep,
    Open,
    Close,
    Fork,
    Wait,
}

/// The number by which the kernel knows each call.
pub open spec fn syscall_code(n: SyscallNumber) -> u64 {
    match n {
        SyscallNumber::Yield => 1,
        SyscallNumber::GetTicks => 2,
        SyscallNumber::IpcSend => 3,
        SyscallNumber::IpcRecv => 4,
        SyscallNumber::Exec => 5,
        SyscallNumber::Exit => 6,
        SyscallNumber::Write => 7,
        SyscallNumber::Read => 8,
        SyscallNumber::GetPid => 9,
        SyscallNumber::GetTid => 10,
        SyscallNumber::Sleep => 11,
        SyscallNumber::Open => 12,
        SyscallNumber::Close => 13,
        SyscallNumber::Fork => 14,
        SyscallNumber::Wait => 15,
    }
}

impl SyscallNumber {
    /// The number by which the kernel knows this call.
    pub fn code(self) -> (r: u64)
        ensures
            r == syscall_code(self),
    {
        match self {
            SyscallNumber::Yield => 1,
            SyscallNumber::GetTicks => 2,
            SyscallNumber::IpcSend => 3,
            SyscallNumber::IpcRecv => 4,
            SyscallNumber::Exec => 5,
            SyscallNumber::Exit => 6,
            SyscallNumber::Write => 7,
            SyscallNumber::Read => 8,
            SyscallNumber::GetPid => 9,
            SyscallNumber::GetTid => 10,
            SyscallNumber::Sleep => 11,
            SyscallNumber::Open => 12,
            SyscallNumber::Close => 13,
            SyscallNumber::Fork => 14,
            SyscallNumber::Wait => 15,
        }
    }
}

/// An open or close call's raw result: `u64::MAX` is -1, anything else the
/// number it carries.
pub fn call_status(ret: u64) -> (r: i64)
    ensures
        r == if ret == u64::MAX {
            -1i64
        } else {
            ret as i64
        },
{
    if ret == u64::MAX {
        -1
    } else {
        ret as i64
    }
}

/// A message receive's raw result with the sender it reported: the sender
/// and the value, or (0, 0) for the error values at the top of the range.
pub fn received(sender: u64, ret: u64) -> (r: (u64, u64))
    ensures
        r == if ret >= 0xffff_ffff_ffff_ff00 {
            (0u64, 0u64)
        } else {
            (sender, ret)
        },
{
    if ret >= 0xffff_ffff_ffff_ff00 {
        (0, 0)
    } else {
        (sender, ret)
    }
}

/// Whether a block transfer of `sector_count` sectors fits in a buffer of
/// `buf_len` bytes: `Err(-22)` where the sector bytes overflow or do not
/// fit.
pub fn block_transfer_check(buf_len: usize, sector_count: u64) -> (r: Result<(), i64>)
    ensures
        r is Ok <==> (sector_count as usize) * SECTOR_SIZE <= usize::MAX && buf_len >= (
        sector_count as usize) * SECTOR_SIZE,
        r is Err ==> r == Err::<(), i64>(EINVAL),
{
    let need = match (sector_count as usize).checked_mul(SECTOR_SIZE) {
        Some(n) => n,
        None => return Err(EINVAL),
    };
    if buf_len < need {
        return Err(EINVAL);
    }
    Ok(())
}

/// A block call's raw result: negative (as a signed number) is the error,
/// anything else success.
pub fn block_result(ret: u64) -> (r: Result<(), i64>)
    ensures
        (ret as i64) < 0 ==> r == Err::<(), i64>(ret as i64),
        (ret as i64) >= 0 ==> r == Ok::<(), i64>(()),
{
    let v = ret as i64;
    if v < 0 {
        Err(v)
    } else {
        Ok(())
    }
}

/// Whether a capability check may be asked for: a nonzero thread and a
/// name of 1 to 128 bytes; `Err(-22)` otherwise.
pub fn capability_query_check(thread_id: u64, name_len: usize) -> (r: Result<(), i64>)
    ensures
        r is Ok <==> (thread_id != 0 && name_len != 0 && name_len <= 128),
        r is Err ==> r == Err::<(), i64>(EINVAL),
{
    if thread_id == 0 || name_len == 0 || name_len > 128 {
        return Err(EINVAL);
    }
    Ok(())
}

/// A capability check's raw result: negative is the error; otherwise
/// whether the thread holds the capability.
pub fn capability_result(ret: u64) -> (r: Result<bool, i64>)
    ensures
        (ret as i64) < 0 ==> r == Err::<bool, i64>(ret as i64),
        (ret as i64) >= 0 ==> r == Ok::<bool, i64>(ret != 0),
{
    let v = ret as i64;
    if v < 0 {
        Err(v)
    } else {
        Ok(ret != 0)
    }
}

/// The pid that `fork` gives from its raw result: -1 on error.
pub fn fork_result(ret: u64) -> (r: i64)
    ensures
        r == if (ret as i64) < 0 {
            -1i64
        } else {
            ret as i64
        },
{
    if (ret as i64) < 0 {
        -1
    } else {
        ret as i64
    }
}

/// The pid and status that `wait` gives from its raw result.
pub fn wait_result(ret: u64) -> (r: (i64, i32))
    ensures
        r == if (ret as i64) < 0 {
            (-1i64, 0i32)
        } else {
            (ret as i64, 0i32)
        },
{
    if (ret as i64) < 0 {
        (-1, 0)
    } else {
        (ret as i64, 0)
    }
}

/// How a wait that does not block ended.
#[derive(Debug, Clone, Copy, PartialEq, Eq, Structural)]
pub enum WaitNonblockingStatus {
    Exited(i64),
    Running,
    NoChild,
    Error(i64),
}

/// The outcome of a wait that does not block, from its raw result: a
/// positive pid exited, 0 still running, -10 no child, any other negative
/// value an error.
pub fn wait_nonblocking_status(ret: u64) -> (r: WaitNonblockingStatus)
    ensures
        r == if (ret as i64) > 0 {
            WaitNonblockingStatus::Exited(ret as i64)
        } else if (ret as i64) == 0 {
            WaitNonblockingStatus::Running
        } else if (ret as i64) == ECHILD {
            WaitNonblockingStatus::NoChild
        } else {
            WaitNonblockingStatus::Error(ret as i64)
        },
{
    let v = ret as i64;
    if v > 0 {
        WaitNonblockingStatus::Exited(v)
    } else if v == 0 {
        WaitNonblockingStatus::Running
    } else if v == ECHILD {
        WaitNonblockingStatus::NoChild
    } else {
        WaitNonblockingStatus::Error(v)
    }
}

/// The pid of a child that exited, if the wait says one did.
pub fn wait_nonblocking(status: WaitNonblockingStatus) -> (r: Option<i64>)
    ensures
        r == match status {
            WaitNonblockingStatus::Exited(pid) => Some(pid),
            _ => None::<i64>,
        },
{
    match status {
        WaitNonblockingStatus::Exited(pid) => Some(pid),
        _ => None,
    }
}

/// Whether a process may be looked up by a name of `name_len` bytes: 1 to
/// 64.
pub fn process_name_ok(name_len: usize) -> (r: bool)
    ensures
        r == (name_len != 0 && name_len <= 64),
{
    name_len != 0 && name_len <= 64
}

/// The pid that a lookup by name gives from its raw result: 0 is none.
pub fn process_lookup_result(ret: u64) -> (r: Option<u64>)
    ensures
        r == if ret == 0 {
            None
        } else {
            Some(ret)
        },
{
    if ret == 0 {
        None
    } else {
        Some(ret)
    }
}

/// Whether a physical range may be mapped: nonempty, and its end within
/// 64 bits; `Err(22)` (EINVAL as an unsigned code) otherwise.
pub fn map_physical_check(phys_addr: u64, size: usize) -> (r: Result<(), u64>)
    ensures
        r is Ok <==> (size != 0 && phys_addr + size <= u64::MAX),
        r is Err ==> r == Err::<(), u64>((-22i64) as u64),
{
    let einval: u64 = 0xFFFF_FFFF_FFFF_FFEA;
    proof {
        assert((-22i64) as u64 == 0xFFFF_FFFF_FFFF_FFEAu64) by (bit_vector);
    }
    if size == 0 {
        return Err(einval);
    }
    if phys_addr.checked_add(size as u64).is_none() {
        return Err(einval);
    }
    Ok(())
}

/// A memory call's raw result: values from -4095 to -1 (as signed numbers)
/// are errors, given as the positive code; anything else is the address.
pub fn address_result(ret: u64) -> (r: Result<u64, u64>)
    ensures
        -4095 <= (ret as i64) <= -1 ==> r == Err::<u64, u64>((-(ret as i64)) as u64),
        !(-4095 <= (ret as i64) <= -1) ==> r == Ok::<u64, u64>(ret),
{
    let v = ret as i64;
    if -4095 <= v && v <= -1 {
        Err((-v) as u64)
    } else {
        Ok(ret)
    }
}

/// A keyboard read's raw result: no data yet, or the scan code (its low
/// byte).
pub fn read_scancode(ret: u64) -> (r: Option<u8>)
    ensures
        r == if ret == ENODATA {
            None
        } else {
            Some(ret as u8)
        },
{
    if ret == ENODATA {
        None
    } else {
        Some(ret as u8)
    }
}

/// A read of the keyboard tap's raw result: no data yet, an error (a
/// negative value), or the scan code.
pub fn read_scancode_tap(ret: u64) -> (r: Result<Option<u8>, u64>)
    ensures
        r == if ret == ENODATA {
            Ok::<Option<u8>, u64>(None)
        } else if (ret as i64) < 0 {
            Err::<Option<u8>, u64>(ret)
        } else {
            Ok::<Option<u8>, u64>(Some(ret as u8))
        },
{
    if ret == ENODATA {
        Ok(None)
    } else if (ret as i64) < 0 {
        Err(ret)
    } else {
        Ok(Some(ret as u8))
    }
}

/// Whether `bytes` at `addr` look like a mapping made for a user program:
/// page-aligned, at least a page, from the mapping floor up, and ending
/// inside user space.
pub open spec fn spec_user_mapping(addr: u64, bytes: usize) -> bool {
    &&& addr != 0
    &&& addr >= USER_MAP_FLOOR
    &&& addr <= USER_SPACE_END
    &&& addr % 4096 == 0
    &&& bytes >= PAGE_SIZE
    &&& addr + (bytes - 1) <= USER_SPACE_END
}

/// Whether `bytes` at `addr` look like a mapping made for a user program.
pub fn looks_like_user_mapping(addr: u64, bytes: usize) -> (r: bool)
    ensures
        r == spec_user_mapping(addr, bytes),
{
    if addr == 0 {
        return false;
    }
    if addr < USER_MAP_FLOOR {
        return false;
    }
    if addr > USER_SPACE_END {
        return false;
    }
    if (addr & 0xFFF) != 0 {
        proof {
            assert(addr & 0xFFF != 0 ==> addr % 4096 != 0) by (bit_vector);
        }
        return false;
    }
    proof {
        assert(addr & 0xFFF == 0 ==> addr % 4096 == 0) by (bit_vector);
    }
    if bytes < PAGE_SIZE {
        return false;
    }
    let end = match addr.checked_add(bytes.saturating_sub(1) as u64) {
        Some(e) => e,
        None => return false,
    };
    end <= USER_SPACE_END
}

/// The heap break that growing the heap by `incr` asks for, from the
/// current break `cur`: `None` where the current break is unusable (0 or in
/// the last page), `incr` is negative, or the sum overflows; `cur` itself
/// where `incr` is 0.
pub fn sbrk_target(cur: u64, incr: i64) -> (r: Option<u64>)
    ensures
        r == if cur == 0 || cur > 0xffff_ffff_ffff_f000 || incr < 0 || cur + incr > u64::MAX {
            None
        } else {
            Some((cur + incr) as u64)
        },
{
    if cur == 0 || cur > 0xffff_ffff_ffff_f000 {
        return None;
    }
    if incr < 0 {
        return None;
    }
    if incr == 0 {
        return Some(cur);
    }
    cur.checked_add(incr as u64)
}

/// Whether descriptor `fd` is a terminal: the standard three are.
pub fn isatty(fd: i32) -> (r: i32)
    ensures
        r == if 0 <= fd <= 2 {
            1i32
        } else {
            0i32
        },
{
    if fd >= 0 && fd <= 2 {
        1
    } else {
        0
    }
}

/// A read or write's raw result for C: `u64::MAX` is -1, anything else the
/// count.
pub fn c_io_result(ret: u64) -> (r: isize)
    ensures
        r == if ret == u64::MAX {
            -1isize
        } else {
            ret as isize
        },
{
    if ret == u64::MAX {
        -1
    } else {
        ret as isize
    }
}

} // verus!
