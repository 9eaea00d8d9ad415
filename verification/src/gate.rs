//! The device, network and window services as they stand: each checks that
//! the caller holds the capabilities an operation needs and answers
//! "not implemented", or "permission denied" where a check fails.

use vstd::prelude::*;

use crate::bytes::{le_u64, push_u64_le, read_u64_le, u64_le};

verus! {

/// Bytes in a request: an operation and three arguments.
pub const GATE_REQUEST_SIZE: usize = 32;

/// The answer to every request that passes its checks: not implemented.
pub const ENOSYS: i64 = -38;

/// The answer to a request whose caller lacks a capability.
pub const EACCES: i64 = -13;

/// Which of the services answers.
#[derive(Debug, Clone, Copy, PartialEq, Eq, Structural)]
pub enum GateService {
    Device,
    Net,
    Window,
}

/// A request: the operation and its arguments.
#[derive(Debug, Clone, Copy, PartialEq, Eq, Structural)]
pub struct GateRequest {
    pub op: u64,
    pub arg0: u64,
    pub arg1: u64,
    pub arg2: u64,
}

/// The capability that operation `op` of service `s` needs, if any.
pub open spec fn spec_required_capability(s: GateService, op: u64) -> Option<Seq<char>> {
    match s {
        GateService::Device => if op == 1 {
            Some("device.gpu"@)
        } else if op == 2 {
            Some("device.audio"@)
        } else if op == 3 {
            Some("device.input"@)
        } else if op == 4 {
            Some("device.storage"@)
        } else if op == 5 {
            Some("device.net"@)
        } else if op == 6 {
            Some("usb.access"@)
        } else if op == 7 {
            Some("serial.access"@)
        } else if op == 8 {
            Some("bluetooth.access"@)
        } else {
            None
        },
        GateService::Net => if op == 1 {
            Some("net.connect"@)
        } else if op == 2 {
            Some("net.listen"@)
        } else if op == 3 {
            Some("net.raw"@)
        } else {
            None
        },
        GateService::Window => if op == 1 {
            Some("window.create"@)
        } else if op == 2 {
            Some("window.overlay"@)
        } else if op == 3 {
            Some("window.capture"@)
        } else if op == 4 {
            Some("display.capture"@)
        } else {
            None
        },
    }
}

/// The capability that operation `op` of service `s` needs, if any.
pub fn required_capability(s: GateService, op: u64) -> (r: Option<&'static str>)
    ensures
        match r {
            Some(c) => spec_required_capability(s, op) == Some(c@),
            None => spec_required_capability(s, op) is None,
        },
{
    match s {
        GateService::Device => if op == 1 {
            Some("device.gpu")
        } else if op == 2 {
            Some("device.audio")
        } else if op == 3 {
            Some("device.input")
        } else if op == 4 {
            Some("device.storage")
        } else if op == 5 {
            Some("device.net")
        } else if op == 6 {
            Some("usb.access")
        } else if op == 7 {
            Some("serial.access")
        } else if op == 8 {
            Some("bluetooth.access")
        } else {
            None
        },
        GateService::Net => if op == 1 {
            Some("net.connect")
        } else if op == 2 {
            Some("net.listen")
        } else if op == 3 {
            Some("net.raw")
        } else {
            None
        },
        GateService::Window => if op == 1 {
            Some("window.create")
        } else if op == 2 {
            Some("window.overlay")
        } else if op == 3 {
            Some("window.capture")
        } else if op == 4 {
            Some("display.capture")
        } else {
            None
        },
    }
}

/// What to do with a message of `len` bytes from `sender`.
#[derive(Debug, Clone, Copy, PartialEq, Eq, Structural)]
pub enum GateArrival {
    /// The kernel had nothing: give up the CPU.
    Yield,
    /// No sender, or too short for a request: sleep and wait on.
    Skip,
    /// A request to answer.
    Request,
}

/// What to do with a message of `len` bytes from `sender`.
pub fn classify_gate_arrival(sender: u64, len: u64) -> (r: GateArrival)
    ensures
        r == if sender == 0xFFFF_FFFF || len == 0xFFFF_FFFD {
            GateArrival::Yield
        } else if sender == 0 || (len as usize) < GATE_REQUEST_SIZE {
            GateArrival::Skip
        } else {
            GateArrival::Request
        },
{
    if sender == 0xFFFF_FFFF || len == 0xFFFF_FFFD {
        GateArrival::Yield
    } else if sender == 0 || (len as usize) < GATE_REQUEST_SIZE {
        GateArrival::Skip
    } else {
        GateArrival::Request
    }
}

/// The request in `b`, or `None` where it is too short.
pub fn decode_gate_request(b: &[u8]) -> (r: Option<GateRequest>)
    ensures
        b@.len() < GATE_REQUEST_SIZE ==> r is None,
        b@.len() >= GATE_REQUEST_SIZE ==> r == Some(
            GateRequest {
                op: le_u64(b@, 0),
                arg0: le_u64(b@, 8),
                arg1: le_u64(b@, 16),
                arg2: le_u64(b@, 24),
            },
        ),
{
    if b.len() < GATE_REQUEST_SIZE {
        return None;
    }
    Some(
        GateRequest {
            op: read_u64_le(b, 0),
            arg0: read_u64_le(b, 8),
            arg1: read_u64_le(b, 16),
            arg2: read_u64_le(b, 24),
        },
    )
}

/// The status of the answer, given the outcome of the capability check
/// (`None` where no capability is needed): permission denied where the
/// check failed or could not be made, not implemented otherwise.
pub fn gate_status(check: Option<Result<bool, i64>>) -> (r: i64)
    ensures
        r == match check {
            Some(Ok(true)) => ENOSYS,
            None => ENOSYS,
            _ => EACCES,
        },
{
    match check {
        None => ENOSYS,
        Some(Ok(true)) => ENOSYS,
        Some(_) => EACCES,
    }
}

/// The bytes of an answer: the status (two's complement) and a value,
/// little-endian.
pub fn encode_status_reply(status: i64, value: u64) -> (r: Vec<u8>)
    ensures
        r@ == u64_le(status as u64) + u64_le(value),
{
    let mut out: Vec<u8> = Vec::new();
    push_u64_le(&mut out, status as u64);
    push_u64_le(&mut out, value);
    out
}

} // verus!
