//! The client side of the file service protocol: building requests,
//! reading replies, and holding replies that arrive for someone else.

use vstd::prelude::*;
use vstd::string::StringSliceAdditionalSpecFns;
use vstd::utf8::{decode_utf8, valid_utf8};

use crate::bytes::{le_u64, push_u64_le, read_u64_le, u64_le};
use crate::fs_service::{FS_DATA_MAX, FS_PATH_MAX};
use crate::text::string_from_utf8;

verus! {

pub const OP_OPEN: u64 = 1;

pub const OP_READ: u64 = 2;

pub const OP_WRITE: u64 = 3;

pub const OP_CLOSE: u64 = 4;

pub const OP_EXEC: u64 = 5;

pub const OP_STAT: u64 = 6;

pub const OP_FSTAT: u64 = 7;

pub const OP_READDIR: u64 = 8;

pub const OP_EXEC_STREAM: u64 = 9;

pub const OP_READDIR_ALL: u64 = 10;

pub const OP_SEEK: u64 = 11;

/// Bytes in a request: three numbers and the path.
pub const FS_REQUEST_SIZE: usize = 536;

/// Bytes in a reply: two numbers and the data.
pub const FS_RESPONSE_SIZE: usize = 4112;

/// Replies held at most for other senders.
pub const FS_PENDING_CAPACITY: usize = 16;

/// I/O error, negated.
pub const EIO: i64 = -5;

/// A request to the file service.
#[derive(Debug)]
pub struct FsRequestIp {
    pub op: u64,
    pub arg1: u64,
    pub arg2: u64,
    pub path: Vec<u8>,
}

/// A reply of the file service.
#[derive(Debug)]
pub struct FsResponseIp {
    pub status: i64,
    pub len: u64,
    pub data: Vec<u8>,
}

/// `bytes` followed by zeros, `total` bytes in all.
pub open spec fn zero_padded(bytes: Seq<u8>, total: int) -> Seq<u8> {
    Seq::new(total as nat, |i: int| if i < bytes.len() { bytes[i] } else { 0u8 })
}

/// `bytes[..n]` followed by zeros up to `total` bytes.
fn padded(bytes: &[u8], n: usize, total: usize) -> (r: Vec<u8>)
    requires
        n <= bytes@.len(),
        n <= total,
    ensures
        r@ == zero_padded(bytes@.subrange(0, n as int), total as int),
{
    let mut v: Vec<u8> = Vec::new();
    let mut i: usize = 0;
    while i < total
        invariant
            i <= total,
            n <= bytes@.len(),
            n <= total,
            v@ == zero_padded(bytes@.subrange(0, n as int), total as int).subrange(0, i as int),
        decreases total - i,
    {
        if i < n {
            v.push(bytes[i]);
        } else {
            v.push(0u8);
        }
        i = i + 1;
        proof {
            assert(v@ =~= zero_padded(bytes@.subrange(0, n as int), total as int).subrange(
                0,
                i as int,
            ));
        }
    }
    proof {
        assert(v@ =~= zero_padded(bytes@.subrange(0, n as int), total as int));
    }
    v
}

/// A path for a system call: its bytes, cut to 511, in a zeroed 512-byte
/// buffer, and how many were kept.
pub fn path_buf(path: &str) -> (r: (Vec<u8>, usize))
    ensures
        ({
            let b = path.spec_bytes();
            let n = if b.len() < 511 {
                b.len() as int
            } else {
                511
            };
            &&& r.1 == n
            &&& r.0@ == zero_padded(b.subrange(0, n), 512)
        }),
{
    let bytes = path.as_bytes();
    let len = if bytes.len() < 511 {
        bytes.len()
    } else {
        511
    };
    (padded(bytes, len, 512), len)
}

/// The request that `op` on `path` makes, or `None` where the path does not
/// fit with its terminating zero.
fn path_request(op: u64, path: &str) -> (r: Option<FsRequestIp>)
    ensures
        path.spec_bytes().len() >= FS_PATH_MAX ==> r is None,
        path.spec_bytes().len() < FS_PATH_MAX ==> r is Some && r->Some_0.op == op && r->Some_0.arg1
            == 0 && r->Some_0.arg2 == 0 && r->Some_0.path@ == zero_padded(
            path.spec_bytes(),
            FS_PATH_MAX as int,
        ),
{
    let bytes = path.as_bytes();
    if bytes.len() >= FS_PATH_MAX {
        return None;
    }
    let p = padded(bytes, bytes.len(), FS_PATH_MAX);
    proof {
        assert(bytes@.subrange(0, bytes@.len() as int) =~= bytes@);
    }
    Some(FsRequestIp { op, arg1: 0, arg2: 0, path: p })
}

impl FsRequestIp {
    /// A request to run the program at `path`; `None` where the path is too
    /// long.
    pub fn exec(path: &str) -> (r: Option<Self>)
        ensures
            path.spec_bytes().len() >= FS_PATH_MAX ==> r is None,
            path.spec_bytes().len() < FS_PATH_MAX ==> r is Some && r->Some_0.op == OP_EXEC
                && r->Some_0.arg1 == 0 && r->Some_0.arg2 == 0 && r->Some_0.path@ == zero_padded(
                path.spec_bytes(),
                FS_PATH_MAX as int,
            ),
    {
        path_request(OP_EXEC, path)
    }

    /// A request to open `path`; `None` where the path is too long.
    pub fn open(path: &str) -> (r: Option<Self>)
        ensures
            path.spec_bytes().len() >= FS_PATH_MAX ==> r is None,
            path.spec_bytes().len() < FS_PATH_MAX ==> r is Some && r->Some_0.op == OP_OPEN
                && r->Some_0.arg1 == 0 && r->Some_0.arg2 == 0 && r->Some_0.path@ == zero_padded(
                path.spec_bytes(),
                FS_PATH_MAX as int,
            ),
    {
        path_request(OP_OPEN, path)
    }

    /// A request with no path.
    pub fn plain(op: u64, arg1: u64, arg2: u64) -> (r: Self)
        ensures
            r.op == op && r.arg1 == arg1 && r.arg2 == arg2,
            r.path@ == Seq::new(FS_PATH_MAX as nat, |i: int| 0u8),
    {
        let empty: Vec<u8> = Vec::new();
        let p = padded(empty.as_slice(), 0, FS_PATH_MAX);
        proof {
            assert(p@ =~= Seq::new(FS_PATH_MAX as nat, |i: int| 0u8));
        }
        FsRequestIp { op, arg1, arg2, path: p }
    }

    /// The bytes of the request: the three numbers little-endian, then the
    /// path.
    pub fn encode(&self) -> (r: Vec<u8>)
        ensures
            r@ == u64_le(self.op) + u64_le(self.arg1) + u64_le(self.arg2) + self.path@,
    {
        let mut out: Vec<u8> = Vec::new();
        push_u64_le(&mut out, self.op);
        push_u64_le(&mut out, self.arg1);
        push_u64_le(&mut out, self.arg2);
        append_bytes(&mut out, &self.path);
        out
    }

    /// The request in `b`, or `None` where `b` is too short to hold one.
    pub fn decode(b: &[u8]) -> (r: Option<Self>)
        ensures
            b@.len() < FS_REQUEST_SIZE ==> r is None,
            b@.len() >= FS_REQUEST_SIZE ==> r is Some && r->Some_0.op == le_u64(b@, 0)
                && r->Some_0.arg1 == le_u64(b@, 8) && r->Some_0.arg2 == le_u64(b@, 16)
                && r->Some_0.path@ == b@.subrange(24, 536),
    {
        if b.len() < FS_REQUEST_SIZE {
            return None;
        }
        let path = copy_slice(b, 24, FS_REQUEST_SIZE);
        Some(
            FsRequestIp {
                op: read_u64_le(b, 0),
                arg1: read_u64_le(b, 8),
                arg2: read_u64_le(b, 16),
                path,
            },
        )
    }
}

/// A copy of `b[from .. to]`.
fn copy_slice(b: &[u8], from: usize, to: usize) -> (r: Vec<u8>)
    requires
        from <= to <= b@.len(),
    ensures
        r@ == b@.subrange(from as int, to as int),
{
    let mut v: Vec<u8> = Vec::new();
    let mut i: usize = from;
    while i < to
        invariant
            from <= i <= to,
            to <= b@.len(),
            v@ == b@.subrange(from as int, i as int),
        decreases to - i,
    {
        v.push(b[i]);
        i = i + 1;
        proof {
            assert(v@ =~= b@.subrange(from as int, i as int));
        }
    }
    v
}

/// Appends the bytes of `more` to `out`.
fn append_bytes(out: &mut Vec<u8>, more: &Vec<u8>)
    ensures
        final(out)@ == old(out)@ + more@,
{
    let ghost start = out@;
    let mut i: usize = 0;
    while i < more.len()
        invariant
            i <= more@.len(),
            out@ == start + more@.subrange(0, i as int),
            start == old(out)@,
        decreases more@.len() - i,
    {
        out.push(more[i]);
        i = i + 1;
        proof {
            assert(out@ =~= start + more@.subrange(0, i as int));
        }
    }
    proof {
        assert(more@.subrange(0, more@.len() as int) =~= more@);
    }
}

impl FsResponseIp {
    /// The reply in `b`, or `None` where `b` is too short to hold one.
    pub fn decode(b: &[u8]) -> (r: Option<Self>)
        ensures
            b@.len() < FS_RESPONSE_SIZE ==> r is None,
            b@.len() >= FS_RESPONSE_SIZE ==> r is Some && r->Some_0.status == le_u64(b@, 0) as i64
                && r->Some_0.len == le_u64(b@, 8) && r->Some_0.data@ == b@.subrange(16, 4112),
    {
        if b.len() < FS_RESPONSE_SIZE {
            return None;
        }
        let data = copy_slice(b, 16, FS_RESPONSE_SIZE);
        Some(FsResponseIp { status: read_u64_le(b, 0) as i64, len: read_u64_le(b, 8), data })
    }

    /// The bytes of the reply: status (two's complement) and length
    /// little-endian, then the data.
    pub fn encode(&self) -> (r: Vec<u8>)
        ensures
            r@ == u64_le(self.status as u64) + u64_le(self.len) + self.data@,
    {
        let mut out: Vec<u8> = Vec::new();
        push_u64_le(&mut out, self.status as u64);
        push_u64_le(&mut out, self.len);
        append_bytes(&mut out, &self.data);
        out
    }
}

/// What a reply to an open or run request means: a negative status is the
/// error, anything else the descriptor or pid.
pub fn status_result(status: i64) -> (r: Result<u64, i64>)
    ensures
        r == if status < 0 {
            Err::<u64, i64>(status)
        } else {
            Ok::<u64, i64>(status as u64)
        },
{
    if status < 0 {
        Err(status)
    } else {
        Ok(status as u64)
    }
}

/// Takes the data of a read reply into the start of `out`: the error of a
/// negative status; -5 (EIO) where the reply claims more than `out` or one
/// reply holds; else the number of bytes, copied.
pub fn read_reply(resp: &FsResponseIp, out: &mut Vec<u8>) -> (r: Result<usize, i64>)
    requires
        resp.data@.len() == FS_DATA_MAX,
    ensures
        final(out)@.len() == old(out)@.len(),
        resp.status < 0 ==> r == Err::<usize, i64>(resp.status) && final(out)@ == old(out)@,
        resp.status >= 0 && (resp.len as usize > old(out)@.len() || resp.len as usize > FS_DATA_MAX)
            ==> r == Err::<usize, i64>(EIO) && final(out)@ == old(out)@,
        resp.status >= 0 && resp.len as usize <= old(out)@.len() && resp.len as usize <= FS_DATA_MAX
            ==> {
            let n = resp.len as usize as int;
            &&& r == Ok::<usize, i64>(n as usize)
            &&& final(out)@ == resp.data@.subrange(0, n) + old(out)@.subrange(n, old(out)@.len() as int)
        },
{
    if resp.status < 0 {
        return Err(resp.status);
    }
    let n = resp.len as usize;
    if n > out.len() || n > FS_DATA_MAX {
        return Err(EIO);
    }
    crate::bytes::copy_into(out, 0, &resp.data, 0, n);
    proof {
        assert(old(out)@.subrange(0, 0) + resp.data@.subrange(0, n as int) + old(out)@.subrange(
            n as int,
            old(out)@.len() as int,
        ) =~= resp.data@.subrange(0, n as int) + old(out)@.subrange(n as int, old(out)@.len() as int));
    }
    Ok(n)
}

/// The length of the text at the start of `buf`: up to its first zero
/// byte, or all of it.
pub open spec fn text_len(buf: Seq<u8>) -> int
    decreases buf.len(),
{
    if buf.len() == 0 {
        0
    } else if text_len(buf.drop_last()) < buf.len() - 1 {
        text_len(buf.drop_last())
    } else if buf.last() == 0 {
        buf.len() - 1
    } else {
        buf.len() as int
    }
}

/// The working directory that a `getcwd` call wrote into `buf`, from its
/// raw result: `None` where the call failed (0, or an error value), or the
/// text up to the first zero byte is not UTF-8.
pub fn cwd_from_buffer(ret: u64, buf: &Vec<u8>) -> (r: Option<String>)
    ensures
        (ret == 0 || ret > 0xFFFF_FFFF_0000_0000) ==> r is None,
        !(ret == 0 || ret > 0xFFFF_FFFF_0000_0000) ==> {
            let t = buf@.subrange(0, text_len(buf@));
            &&& r is Some <==> valid_utf8(t)
            &&& r is Some ==> r->Some_0@ == decode_utf8(t)
        },
{
    if ret == 0 || ret > 0xFFFF_FFFF_0000_0000 {
        return None;
    }
    let mut n: usize = 0;
    while n < buf.len() && buf[n] != 0
        invariant
            n <= buf@.len(),
            text_len(buf@.subrange(0, n as int)) == n,
        decreases buf@.len() - n,
    {
        proof {
            assert(buf@.subrange(0, n + 1).drop_last() =~= buf@.subrange(0, n as int));
        }
        n = n + 1;
    }
    proof {
        lemma_text_len_stays(buf@, n as int, buf@.len() as int);
        assert(buf@.subrange(0, buf@.len() as int) =~= buf@);
    }
    let bytes = crate::bytes::copy_range(buf, 0, n);
    string_from_utf8(bytes)
}

proof fn lemma_text_len_stays(buf: Seq<u8>, n: int, m: int)
    requires
        0 <= n <= m <= buf.len(),
        text_len(buf.subrange(0, n)) == n,
        n < m ==> buf[n] == 0,
    ensures
        text_len(buf.subrange(0, m)) == n,
    decreases m - n,
{
    if m > n {
        lemma_text_len_stays(buf, n, m - 1);
        assert(buf.subrange(0, m).drop_last() =~= buf.subrange(0, m - 1));
        if m - 1 == n {
            assert(buf.subrange(0, m).last() == buf[n]);
        }
    }
}

/// What to do with a message received while waiting for a reply from
/// `expected`.
#[derive(Debug, Clone, Copy, PartialEq, Eq, Structural)]
pub enum Arrival {
    /// Nothing arrived: wait on.
    Nothing,
    /// A message for someone else, or too short to be the reply: hold it.
    Hold,
    /// The reply.
    Reply,
}

/// What to do with a message of `len` bytes from `sender` while waiting for
/// a reply of `reply_size` bytes from `expected`.
pub fn classify_arrival(sender: u64, len: u64, expected: u64, reply_size: usize) -> (r: Arrival)
    ensures
        r == if sender == 0 && len == 0 {
            Arrival::Nothing
        } else if sender != expected || (len as usize) < reply_size {
            Arrival::Hold
        } else {
            Arrival::Reply
        },
{
    if sender == 0 && len == 0 {
        Arrival::Nothing
    } else if sender != expected || (len as usize) < reply_size {
        Arrival::Hold
    } else {
        Arrival::Reply
    }
}

/// A message held for later.
#[derive(Debug)]
pub struct PendingMessage {
    pub sender: u64,
    pub bytes: Vec<u8>,
}

/// What a held message is.
pub struct PendingView {
    pub sender: u64,
    pub bytes: Seq<u8>,
}

/// The messages held for later, in a fixed number of slots.
pub struct PendingQueue {
    slots: Vec<Option<PendingMessage>>,
}

pub open spec fn pending_views(s: Seq<Option<PendingMessage>>) -> Seq<Option<PendingView>> {
    s.map_values(|o: Option<PendingMessage>| match o {
        Some(m) => Some(PendingView { sender: m.sender, bytes: m.bytes@ }),
        None => None,
    })
}

/// The lowest slot that satisfies `p`, or -1.
pub open spec fn first_slot(s: Seq<Option<PendingView>>, p: spec_fn(Option<PendingView>) -> bool) -> int
    decreases s.len(),
{
    if s.len() == 0 {
        -1
    } else {
        let r = first_slot(s.drop_last(), p);
        if r >= 0 {
            r
        } else if p(s.last()) {
            s.len() - 1
        } else {
            -1
        }
    }
}

proof fn lemma_first_slot(s: Seq<Option<PendingView>>, p: spec_fn(Option<PendingView>) -> bool)
    ensures
        -1 <= first_slot(s, p) < s.len(),
        first_slot(s, p) >= 0 ==> p(s[first_slot(s, p)]),
        forall|k: int|
            0 <= k < s.len() && (first_slot(s, p) == -1 || k < first_slot(s, p)) ==> !p(#[trigger] s[k]),
    decreases s.len(),
{
    if s.len() > 0 {
        lemma_first_slot(s.drop_last(), p);
        assert forall|k: int|
            0 <= k < s.len() && (first_slot(s, p) == -1 || k < first_slot(s, p)) implies !p(
            #[trigger] s[k],
        ) by {
            if k < s.len() - 1 {
                assert(s[k] == s.drop_last()[k]);
            }
        }
    }
}

/// A slot that is free.
pub open spec fn is_free_slot() -> spec_fn(Option<PendingView>) -> bool {
    |o: Option<PendingView>| o is None
}

/// A slot holding a whole reply from `sender`.
pub open spec fn holds_reply_from(sender: u64) -> spec_fn(Option<PendingView>) -> bool {
    |o: Option<PendingView>|
        o is Some && o->Some_0.sender == sender && o->Some_0.bytes.len() >= FS_RESPONSE_SIZE
}

impl View for PendingQueue {
    type V = Seq<Option<PendingView>>;

    closed spec fn view(&self) -> Seq<Option<PendingView>> {
        pending_views(self.slots@)
    }
}

impl PendingQueue {
    /// A queue with every slot free.
    pub fn new() -> (r: Self)
        ensures
            r@ == Seq::new(FS_PENDING_CAPACITY as nat, |i: int| None::<PendingView>),
    {
        let mut slots: Vec<Option<PendingMessage>> = Vec::new();
        let mut i: usize = 0;
        while i < FS_PENDING_CAPACITY
            invariant
                i <= FS_PENDING_CAPACITY,
                slots@.len() == i,
                forall|k: int| 0 <= k < i ==> #[trigger] slots@[k] is None,
            decreases FS_PENDING_CAPACITY - i,
        {
            slots.push(None);
            i = i + 1;
        }
        let r = PendingQueue { slots };
        proof {
            assert(r@ =~= Seq::new(FS_PENDING_CAPACITY as nat, |i: int| None::<PendingView>));
        }
        r
    }

    /// Holds the first `len` bytes of `bytes` (at most a reply's worth)
    /// from `sender` in the lowest free slot; `false` where none is free.
    pub fn enqueue(&mut self, sender: u64, len: usize, bytes: &[u8]) -> (r: bool)
        ensures
            ({
                let f = first_slot(old(self)@, is_free_slot());
                let n = if len < bytes@.len() {
                    if len < FS_RESPONSE_SIZE {
                        len as int
                    } else {
                        FS_RESPONSE_SIZE as int
                    }
                } else if bytes@.len() < FS_RESPONSE_SIZE {
                    bytes@.len() as int
                } else {
                    FS_RESPONSE_SIZE as int
                };
                &&& r == (f >= 0)
                &&& f >= 0 ==> final(self)@ == old(self)@.update(
                    f,
                    Some(PendingView { sender, bytes: bytes@.subrange(0, n) }),
                )
                &&& f < 0 ==> final(self)@ == old(self)@
            }),
    {
        let cap = if bytes.len() < FS_RESPONSE_SIZE {
            bytes.len()
        } else {
            FS_RESPONSE_SIZE
        };
        let copy_len = if len < cap {
            len
        } else {
            cap
        };
        proof {
            lemma_first_slot(self@, is_free_slot());
        }
        let mut i: usize = 0;
        while i < self.slots.len()
            invariant
                i <= self.slots@.len(),
                self@ == old(self)@,
                self@.len() == self.slots@.len(),
                copy_len <= bytes@.len(),
                copy_len == if len < bytes@.len() {
                    if len < FS_RESPONSE_SIZE {
                        len as int
                    } else {
                        FS_RESPONSE_SIZE as int
                    }
                } else if bytes@.len() < FS_RESPONSE_SIZE {
                    bytes@.len() as int
                } else {
                    FS_RESPONSE_SIZE as int
                },
                forall|k: int| 0 <= k < i ==> #[trigger] self.slots@[k] is Some,
            decreases self.slots@.len() - i,
        {
            if self.slots[i].is_none() {
                proof {
                    lemma_first_slot(self@, is_free_slot());
                    let f = first_slot(self@, is_free_slot());
                    assert(self@[i as int] is None);
                    if f >= 0 && f < i {
                        assert(self.slots@[f] is Some);
                        assert(self@[f] is Some);
                    }
                    if f == -1 || i < f {
                        assert(!is_free_slot()(self@[i as int]));
                    }
                    assert(f == i);
                }
                let msg = PendingMessage { sender, bytes: copy_slice(bytes, 0, copy_len) };
                self.slots.set(i, Some(msg));
                proof {
                    assert(self@ =~= old(self)@.update(
                        i as int,
                        Some(PendingView { sender, bytes: bytes@.subrange(0, copy_len as int) }),
                    ));
                }
                return true;
            }
            i = i + 1;
        }
        proof {
            lemma_first_slot(self@, is_free_slot());
            let f = first_slot(self@, is_free_slot());
            if f >= 0 {
                assert(self.slots@[f] is Some);
                assert(self@[f] is Some);
            }
        }
        false
    }

    /// Takes out the lowest held reply from `sender` that is a whole reply.
    pub fn take_for(&mut self, sender: u64) -> (r: Option<FsResponseIp>)
        ensures
            ({
                let f = first_slot(old(self)@, holds_reply_from(sender));
                &&& f < 0 ==> r is None && final(self)@ == old(self)@
                &&& f >= 0 ==> {
                    let b = old(self)@[f]->Some_0.bytes;
                    &&& final(self)@ == old(self)@.update(f, None)
                    &&& r is Some
                    &&& r->Some_0.status == le_u64(b, 0) as i64
                    &&& r->Some_0.len == le_u64(b, 8)
                    &&& r->Some_0.data@ == b.subrange(16, 4112)
                }
            }),
    {
        proof {
            lemma_first_slot(self@, holds_reply_from(sender));
        }
        let mut i: usize = 0;
        while i < self.slots.len()
            invariant
                i <= self.slots@.len(),
                self@ == old(self)@,
                self@.len() == self.slots@.len(),
                forall|k: int| 0 <= k < i ==> !holds_reply_from(sender)(#[trigger] self@[k]),
            decreases self.slots@.len() - i,
        {
            let hit = match &self.slots[i] {
                Some(m) => m.sender == sender && m.bytes.len() >= FS_RESPONSE_SIZE,
                None => false,
            };
            proof {
                assert(hit == holds_reply_from(sender)(self@[i as int]));
            }
            if hit {
                proof {
                    lemma_first_slot(self@, holds_reply_from(sender));
                    let f = first_slot(self@, holds_reply_from(sender));
                    if f == -1 || i < f {
                        assert(!holds_reply_from(sender)(self@[i as int]));
                    }
                    if f >= 0 && f < i {
                        assert(!holds_reply_from(sender)(self@[f]));
                    }
                    assert(f == i);
                }
                let taken = self.slots.remove(i);
                self.slots.insert(i, None);
                proof {
                    assert(self@ =~= old(self)@.update(i as int, None));
                }
                match taken {
                    Some(m) => {
                        return FsResponseIp::decode(m.bytes.as_slice());
                    },
                    None => {
                        return None;
                    },
                }
            }
            i = i + 1;
        }
        proof {
            lemma_first_slot(self@, holds_reply_from(sender));
            let f = first_slot(self@, holds_reply_from(sender));
            if f >= 0 {
                assert(!holds_reply_from(sender)(self@[f]));
            }
        }
        None
    }
}

/// Reading a whole file in pieces, up to a limit: what came so far, and
/// whether the file service has said that the file ended.
pub struct WholeFileRead {
    pub out: Vec<u8>,
    pub max_size: usize,
    pub finished: bool,
}

impl WholeFileRead {
    /// Nothing read yet.
    pub fn new(max_size: usize) -> (r: Self)
        ensures
            r.out@ == Seq::<u8>::empty(),
            r.max_size == max_size,
            !r.finished,
    {
        WholeFileRead { out: Vec::new(), max_size, finished: false }
    }

    /// How many bytes to ask for next: a full piece, or what is left under
    /// the limit; `None` once the file ended or the limit is reached.
    pub fn next_request(&self) -> (r: Option<usize>)
        ensures
            r == if self.finished || self.out@.len() >= self.max_size {
                None
            } else if self.max_size - self.out@.len() < FS_DATA_MAX {
                Some((self.max_size - self.out@.len()) as usize)
            } else {
                Some(FS_DATA_MAX)
            },
    {
        if self.finished || self.out.len() >= self.max_size {
            None
        } else if self.max_size - self.out.len() < FS_DATA_MAX {
            Some(self.max_size - self.out.len())
        } else {
            Some(FS_DATA_MAX)
        }
    }

    /// Takes what one read gave: an empty piece means the file ended.
    pub fn take(&mut self, piece: &[u8])
        requires
            old(self).out@.len() + piece@.len() <= usize::MAX,
        ensures
            final(self).max_size == old(self).max_size,
            piece@.len() == 0 ==> final(self).finished && final(self).out@ == old(self).out@,
            piece@.len() > 0 ==> final(self).finished == old(self).finished
                && final(self).out@ == old(self).out@ + piece@,
    {
        if piece.len() == 0 {
            self.finished = true;
            return;
        }
        let ghost before = self.out@;
        let mut i: usize = 0;
        while i < piece.len()
            invariant
                i <= piece@.len(),
                before.len() + piece@.len() <= usize::MAX,
                self.out@ == before + piece@.subrange(0, i as int),
                self.max_size == old(self).max_size,
                self.finished == old(self).finished,
            decreases piece@.len() - i,
        {
            self.out.push(piece[i]);
            i = i + 1;
            proof {
                assert(self.out@ =~= before + piece@.subrange(0, i as int));
            }
        }
        proof {
            assert(piece@.subrange(0, piece@.len() as int) =~= piece@);
        }
    }
}

} // verus!
