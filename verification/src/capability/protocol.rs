//! The messages of the capability service: fixed-size requests and
//! replies, their fields little-endian.

use vstd::prelude::*;

use crate::bytes::{le_u64, push_u64_le, read_u64_le, u64_le};

verus! {

/// Operation code by which a service reports that it is ready.
pub const OP_NOTIFY_READY: u64 = 0xFF;

/// Is a capability name known to the registry?
pub const OP_RESOLVE: u64 = 1;

/// Does a thread hold a capability?
pub const OP_CHECK: u64 = 2;

/// Which of the capabilities asked for may a program about to run get?
pub const OP_GRANT_FOR_EXEC: u64 = 3;

/// Which capabilities were recorded for a process?
pub const OP_LIST_GRANTED: u64 = 4;

/// Record the capabilities granted to a process.
pub const OP_RECORD_GRANTED: u64 = 5;

/// Bytes of payload in a request or a reply.
pub const MSG_DATA_SIZE: usize = 512;

/// Bytes in a request: five numbers and the payload.
pub const REQUEST_SIZE: usize = 552;

/// Bytes in a reply: three numbers and the payload.
pub const RESPONSE_SIZE: usize = 536;

/// Bytes of the buffer that requests are received into.
pub const RECV_BUF_SIZE: usize = 576;

/// A request: operation, two arguments, two lengths, and the payload.
#[derive(Debug)]
pub struct CapabilityRequestMsg {
    pub op: u64,
    pub arg0: u64,
    pub arg1: u64,
    pub len0: u64,
    pub len1: u64,
    pub data: Vec<u8>,
}

/// A reply: the operation it answers, a status, a length and the payload.
#[derive(Debug)]
pub struct CapabilityResponseMsg {
    pub op: u64,
    pub status: i64,
    pub len: u64,
    pub data: Vec<u8>,
}

/// The buffer that requests are received into.
pub struct AlignedBuf(pub Vec<u8>);

impl AlignedBuf {
    /// A zeroed receive buffer.
    pub fn new() -> (r: Self)
        ensures
            r.0@ == Seq::new(RECV_BUF_SIZE as nat, |i: int| 0u8),
    {
        AlignedBuf(crate::bytes::zeroed(RECV_BUF_SIZE))
    }
}

/// Who a capability is asked for.
#[derive(Debug, Clone, Copy, PartialEq, Eq, Structural)]
pub enum SubjectType {
    App,
    Service,
}

/// The number that stands for each subject type in a message.
pub open spec fn subject_code(t: SubjectType) -> u64 {
    match t {
        SubjectType::App => 1,
        SubjectType::Service => 2,
    }
}

impl SubjectType {
    /// The subject type numbered `v` in a message: 1 an app, 2 a service.
    pub fn from_u64(v: u64) -> (r: Option<Self>)
        ensures
            v == 1 ==> r == Some(SubjectType::App),
            v == 2 ==> r == Some(SubjectType::Service),
            v != 1 && v != 2 ==> r is None,
    {
        if v == 1 {
            Some(SubjectType::App)
        } else if v == 2 {
            Some(SubjectType::Service)
        } else {
            None
        }
    }
}

/// The request that `b` holds, read from its first `REQUEST_SIZE` bytes.
pub open spec fn spec_request(b: Seq<u8>) -> (CapabilityRequestMsgView) {
    CapabilityRequestMsgView {
        op: le_u64(b, 0),
        arg0: le_u64(b, 8),
        arg1: le_u64(b, 16),
        len0: le_u64(b, 24),
        len1: le_u64(b, 32),
        data: b.subrange(40, 552),
    }
}

/// What a request holds.
pub struct CapabilityRequestMsgView {
    pub op: u64,
    pub arg0: u64,
    pub arg1: u64,
    pub len0: u64,
    pub len1: u64,
    pub data: Seq<u8>,
}

impl View for CapabilityRequestMsg {
    type V = CapabilityRequestMsgView;

    open spec fn view(&self) -> CapabilityRequestMsgView {
        CapabilityRequestMsgView {
            op: self.op,
            arg0: self.arg0,
            arg1: self.arg1,
            len0: self.len0,
            len1: self.len1,
            data: self.data@,
        }
    }
}

/// The request in `b`, or `None` where `b` is too short to hold one.
pub fn decode_request(b: &[u8]) -> (r: Option<CapabilityRequestMsg>)
    ensures
        b@.len() < REQUEST_SIZE ==> r is None,
        b@.len() >= REQUEST_SIZE ==> r is Some && r->Some_0@ == spec_request(b@),
{
    if b.len() < REQUEST_SIZE {
        return None;
    }
    let mut data: Vec<u8> = Vec::new();
    let mut i: usize = 40;
    while i < REQUEST_SIZE
        invariant
            40 <= i <= REQUEST_SIZE,
            REQUEST_SIZE <= b@.len(),
            data@ == b@.subrange(40, i as int),
        decreases REQUEST_SIZE - i,
    {
        data.push(b[i]);
        i = i + 1;
        proof {
            assert(data@ =~= b@.subrange(40, i as int));
        }
    }
    Some(
        CapabilityRequestMsg {
            op: read_u64_le(b, 0),
            arg0: read_u64_le(b, 8),
            arg1: read_u64_le(b, 16),
            len0: read_u64_le(b, 24),
            len1: read_u64_le(b, 32),
            data,
        },
    )
}

/// The bytes of a request: its five numbers little-endian, then the payload.
pub open spec fn spec_request_bytes(m: CapabilityRequestMsgView) -> Seq<u8> {
    u64_le(m.op) + u64_le(m.arg0) + u64_le(m.arg1) + u64_le(m.len0) + u64_le(m.len1) + m.data
}

/// The bytes that carry `req`.
pub fn encode_request(req: &CapabilityRequestMsg) -> (r: Vec<u8>)
    ensures
        r@ == spec_request_bytes(req@),
{
    let mut out: Vec<u8> = Vec::new();
    push_u64_le(&mut out, req.op);
    push_u64_le(&mut out, req.arg0);
    push_u64_le(&mut out, req.arg1);
    push_u64_le(&mut out, req.len0);
    push_u64_le(&mut out, req.len1);
    let ghost head = out@;
    let mut i: usize = 0;
    while i < req.data.len()
        invariant
            i <= req.data@.len(),
            out@ == head + req.data@.subrange(0, i as int),
        decreases req.data@.len() - i,
    {
        out.push(req.data[i]);
        i = i + 1;
        proof {
            assert(out@ =~= head + req.data@.subrange(0, i as int));
        }
    }
    proof {
        assert(req.data@.subrange(0, req.data@.len() as int) =~= req.data@);
    }
    out
}

/// Eight bytes that hold `x` read back as `x`.
proof fn lemma_field(b: Seq<u8>, off: int, x: u64)
    requires
        0 <= off,
        off + 8 <= b.len(),
        b.subrange(off, off + 8) == u64_le(x),
    ensures
        le_u64(b, off) == x,
{
    crate::bytes::lemma_le_u64_window(b, off);
    crate::bytes::law_u64_le_roundtrip(x);
}

/// The part of `a + b` that lies in `a`, or in `b`.
proof fn lemma_concat_parts(a: Seq<u8>, b: Seq<u8>)
    ensures
        (a + b).subrange(0, a.len() as int) == a,
        (a + b).subrange(a.len() as int, (a + b).len() as int) == b,
{
    assert((a + b).subrange(0, a.len() as int) =~= a);
    assert((a + b).subrange(a.len() as int, (a + b).len() as int) =~= b);
}

/// The window `[from, to)` of a prefix of `b` is that window of `b`.
proof fn lemma_window_of_prefix(b: Seq<u8>, n: int, from: int, to: int)
    requires
        0 <= from <= to <= n <= b.len(),
    ensures
        b.subrange(0, n).subrange(from, to) == b.subrange(from, to),
{
    assert(b.subrange(0, n).subrange(from, to) =~= b.subrange(from, to));
}

/// A request read back from its bytes is the request that was sent.
pub proof fn law_request_round_trip(m: CapabilityRequestMsgView)
    requires
        m.data.len() == MSG_DATA_SIZE,
    ensures
        spec_request(spec_request_bytes(m)) == m,
{
    let h0 = u64_le(m.op);
    let h1 = h0 + u64_le(m.arg0);
    let h2 = h1 + u64_le(m.arg1);
    let h3 = h2 + u64_le(m.len0);
    let h4 = h3 + u64_le(m.len1);
    let b = h4 + m.data;
    assert(b == spec_request_bytes(m));
    lemma_concat_parts(h4, m.data);
    lemma_concat_parts(h3, u64_le(m.len1));
    lemma_concat_parts(h2, u64_le(m.len0));
    lemma_concat_parts(h1, u64_le(m.arg1));
    lemma_concat_parts(h0, u64_le(m.arg0));
    lemma_window_of_prefix(b, 40, 32, 40);
    lemma_window_of_prefix(b, 40, 0, 32);
    lemma_window_of_prefix(b, 32, 24, 32);
    lemma_window_of_prefix(b, 32, 0, 24);
    lemma_window_of_prefix(b, 24, 16, 24);
    lemma_window_of_prefix(b, 24, 0, 16);
    lemma_window_of_prefix(b, 16, 8, 16);
    lemma_window_of_prefix(b, 16, 0, 8);
    lemma_field(b, 0, m.op);
    lemma_field(b, 8, m.arg0);
    lemma_field(b, 16, m.arg1);
    lemma_field(b, 24, m.len0);
    lemma_field(b, 32, m.len1);
}

/// The bytes of a reply: the operation, the status (two's complement) and
/// the length, little-endian, then the payload.
pub open spec fn spec_response_bytes(op: u64, status: i64, len: u64, data: Seq<u8>) -> Seq<u8> {
    u64_le(op) + u64_le(status as u64) + u64_le(len) + data
}

/// The bytes that carry `resp`.
pub fn encode_response(resp: &CapabilityResponseMsg) -> (r: Vec<u8>)
    ensures
        r@ == spec_response_bytes(resp.op, resp.status, resp.len, resp.data@),
{
    let mut out: Vec<u8> = Vec::new();
    push_u64_le(&mut out, resp.op);
    push_u64_le(&mut out, resp.status as u64);
    push_u64_le(&mut out, resp.len);
    let ghost head = out@;
    let mut i: usize = 0;
    while i < resp.data.len()
        invariant
            i <= resp.data@.len(),
            out@ == head + resp.data@.subrange(0, i as int),
        decreases resp.data@.len() - i,
    {
        out.push(resp.data[i]);
        i = i + 1;
        proof {
            assert(out@ =~= head + resp.data@.subrange(0, i as int));
        }
    }
    proof {
        assert(resp.data@.subrange(0, resp.data@.len() as int) =~= resp.data@);
    }
    out
}

} // verus!
