//! What the services that start programs send to the capability service,
//! and what they make of its replies.

use vstd::prelude::*;
use vstd::string::StringSliceAdditionalSpecFns;
use vstd::utf8::encode_utf8;

use super::protocol::{
    subject_code, CapabilityResponseMsg, CapabilityRequestMsg, SubjectType, MSG_DATA_SIZE,
    OP_GRANT_FOR_EXEC, OP_RECORD_GRANTED, RESPONSE_SIZE,
};
use super::service::{
    clip_payload, encode_nul_list, law_nul_list_round_trip, lemma_nul_join_prefix, listable, nul_join,
    nul_list, spec_read_str, split_nul_list, texts,
};
use crate::bytes::{le_u64, read_u64_le};

verus! {

/// `bytes` followed by zeros, one payload in all.
pub open spec fn padded_payload(bytes: Seq<u8>) -> Seq<u8> {
    Seq::new(MSG_DATA_SIZE as nat, |i: int| if i < bytes.len() { bytes[i] } else { 0u8 })
}

/// A payload holding `bytes`, zeros after them.
fn pad_payload(bytes: &Vec<u8>) -> (r: Vec<u8>)
    requires
        bytes@.len() <= MSG_DATA_SIZE,
    ensures
        r@ == padded_payload(bytes@),
{
    let mut out: Vec<u8> = Vec::new();
    let mut i: usize = 0;
    while i < MSG_DATA_SIZE
        invariant
            i <= MSG_DATA_SIZE,
            bytes@.len() <= MSG_DATA_SIZE,
            out@ == padded_payload(bytes@).subrange(0, i as int),
        decreases MSG_DATA_SIZE - i,
    {
        if i < bytes.len() {
            out.push(bytes[i]);
        } else {
            out.push(0u8);
        }
        i = i + 1;
        proof {
            assert(out@ =~= padded_payload(bytes@).subrange(0, i as int));
        }
    }
    proof {
        assert(out@ =~= padded_payload(bytes@));
    }
    out
}

/// The names of `items` joined with zero bytes, where that takes at most
/// `limit` bytes.
fn join_within(items: &Vec<String>, limit: usize) -> (r: Option<Vec<u8>>)
    ensures
        match r {
            Some(v) => v@ == nul_join(texts(items@)) && v@.len() <= limit,
            None => nul_join(texts(items@)).len() > limit,
        },
{
    let ghost all = texts(items@);
    let mut out: Vec<u8> = Vec::new();
    let mut i: usize = 0;
    proof {
        assert(all.take(0) =~= Seq::<Seq<char>>::empty());
    }
    while i < items.len()
        invariant
            i <= items@.len(),
            all == texts(items@),
            out@ == nul_join(all.take(i as int)),
            out@.len() <= limit,
        decreases items@.len() - i,
    {
        let bytes = items[i].as_str().as_bytes();
        proof {
            assert(all.take(i + 1).drop_last() =~= all.take(i as int));
            assert(all.take(i + 1).last() == all[i as int]);
            assert(nul_join(all.take(i + 1)) == out@ + bytes@ + seq![0u8]);
        }
        if bytes.len() >= limit - out.len() {
            proof {
                lemma_nul_join_prefix(all, i + 1);
            }
            return None;
        }
        let ghost before = out@;
        let mut k: usize = 0;
        while k < bytes.len()
            invariant
                k <= bytes@.len(),
                out@ == before + bytes@.subrange(0, k as int),
            decreases bytes@.len() - k,
        {
            out.push(bytes[k]);
            k = k + 1;
            proof {
                assert(out@ =~= before + bytes@.subrange(0, k as int));
            }
        }
        out.push(0u8);
        proof {
            assert(bytes@.subrange(0, bytes@.len() as int) =~= bytes@);
            assert(out@ =~= nul_join(all.take(i + 1)));
        }
        i = i + 1;
    }
    proof {
        assert(all.take(i as int) =~= all);
    }
    Some(out)
}

/// The payload of a grant request: the subject's id, then the requested
/// names joined with zero bytes.
pub open spec fn grant_payload(id: Seq<char>, requested: Seq<Seq<char>>) -> Seq<u8> {
    encode_utf8(id) + nul_join(requested)
}

/// The request, sent by thread `tid`, to grant `subject` (named `id`) the
/// capabilities `requested` for a program about to run; `None` where the id
/// and the joined names do not fit in one payload.
pub fn grant_request(subject: SubjectType, id: &str, requested: &Vec<String>, tid: u64) -> (r: Option<
    CapabilityRequestMsg,
>)
    ensures
        ({
            let idb = id.spec_bytes();
            let blob = nul_join(texts(requested@));
            &&& r is None <==> idb.len() + blob.len() > MSG_DATA_SIZE
            &&& r is Some ==> {
                let m = r->Some_0;
                &&& m.op == OP_GRANT_FOR_EXEC
                &&& m.arg0 == subject_code(subject)
                &&& m.arg1 == tid
                &&& m.len0 == idb.len()
                &&& m.len1 == blob.len()
                &&& m.data@ == padded_payload(idb + blob)
            }
        }),
{
    let idb = id.as_bytes();
    if idb.len() > MSG_DATA_SIZE {
        return None;
    }
    let blob = match join_within(requested, MSG_DATA_SIZE - idb.len()) {
        Some(b) => b,
        None => return None,
    };
    let mut payload: Vec<u8> = Vec::new();
    let mut i: usize = 0;
    while i < idb.len()
        invariant
            i <= idb@.len(),
            payload@ == idb@.subrange(0, i as int),
        decreases idb@.len() - i,
    {
        payload.push(idb[i]);
        i = i + 1;
        proof {
            assert(payload@ =~= idb@.subrange(0, i as int));
        }
    }
    let ghost head = payload@;
    let mut k: usize = 0;
    while k < blob.len()
        invariant
            k <= blob@.len(),
            payload@ == head + blob@.subrange(0, k as int),
        decreases blob@.len() - k,
    {
        payload.push(blob[k]);
        k = k + 1;
        proof {
            assert(payload@ =~= head + blob@.subrange(0, k as int));
        }
    }
    proof {
        assert(idb@.subrange(0, idb@.len() as int) =~= idb@);
        assert(blob@.subrange(0, blob@.len() as int) =~= blob@);
    }
    let code: u64 = match subject {
        SubjectType::App => 1,
        SubjectType::Service => 2,
    };
    let data = pad_payload(&payload);
    Some(
        CapabilityRequestMsg {
            op: OP_GRANT_FOR_EXEC,
            arg0: code,
            arg1: tid,
            len0: idb.len() as u64,
            len1: blob.len() as u64,
            data,
        },
    )
}

/// The capability service reads a grant request as it was meant: the id
/// at the start of the payload, and the requested names after it, when
/// those names are nonempty and hold no NUL character.
pub proof fn law_grant_request_is_understood(id: Seq<char>, requested: Seq<Seq<char>>)
    requires
        listable(requested),
        encode_utf8(id).len() + nul_join(requested).len() <= MSG_DATA_SIZE,
    ensures
        ({
            let data = padded_payload(grant_payload(id, requested));
            let len0 = encode_utf8(id).len() as int;
            let len1 = nul_join(requested).len() as int;
            &&& spec_read_str(data, 0, len0) == Some(id)
            &&& nul_list(data.subrange(len0, len0 + len1)) == requested
        }),
{
    let idb = encode_utf8(id);
    let blob = nul_join(requested);
    let data = padded_payload(grant_payload(id, requested));
    assert(data.subrange(0, idb.len() as int) =~= idb);
    assert(data.subrange(idb.len() as int, (idb.len() + blob.len()) as int) =~= blob);
    vstd::utf8::encode_utf8_valid_utf8(id);
    vstd::utf8::encode_utf8_decode_utf8(id);
    law_nul_list_round_trip(requested);
}

/// The request to record `granted` as what process `pid` was granted: the
/// names joined with zero bytes, cut to one payload.
pub fn record_request(pid: u64, granted: &Vec<String>) -> (r: CapabilityRequestMsg)
    ensures
        ({
            let blob = clip_payload(nul_join(texts(granted@)));
            &&& r.op == OP_RECORD_GRANTED
            &&& r.arg0 == pid
            &&& r.arg1 == 0
            &&& r.len0 == blob.len()
            &&& r.len1 == 0
            &&& r.data@ == padded_payload(blob)
        }),
{
    let blob = encode_nul_list(granted);
    let data = pad_payload(&blob);
    CapabilityRequestMsg { op: OP_RECORD_GRANTED, arg0: pid, arg1: 0, len0: blob.len() as u64, len1: 0, data }
}

/// The reply that `b` holds, read from its first `RESPONSE_SIZE` bytes:
/// operation, status and length little-endian, then the payload.
pub fn decode_response(b: &[u8]) -> (r: Option<CapabilityResponseMsg>)
    ensures
        b@.len() < RESPONSE_SIZE ==> r is None,
        b@.len() >= RESPONSE_SIZE ==> r is Some && r->Some_0.op == le_u64(b@, 0)
            && r->Some_0.status == le_u64(b@, 8) as i64 && r->Some_0.len == le_u64(b@, 16)
            && r->Some_0.data@ == b@.subrange(24, 536),
{
    if b.len() < RESPONSE_SIZE {
        return None;
    }
    let mut data: Vec<u8> = Vec::new();
    let mut i: usize = 24;
    while i < RESPONSE_SIZE
        invariant
            24 <= i <= RESPONSE_SIZE,
            RESPONSE_SIZE <= b@.len(),
            data@ == b@.subrange(24, i as int),
        decreases RESPONSE_SIZE - i,
    {
        data.push(b[i]);
        i = i + 1;
        proof {
            assert(data@ =~= b@.subrange(24, i as int));
        }
    }
    Some(
        CapabilityResponseMsg {
            op: read_u64_le(b, 0),
            status: read_u64_le(b, 8) as i64,
            len: read_u64_le(b, 16),
            data,
        },
    )
}

/// Bytes of a reply laid out as a status, a length and a payload (the
/// layout the process service reads replies in).
pub const STATUS_REPLY_SIZE: usize = 528;

/// A reply read as a status, a length and a payload.
#[derive(Debug)]
pub struct StatusReply {
    pub status: i64,
    pub len: u64,
    pub data: Vec<u8>,
}

/// The reply in `b` read as a status, a length and a payload, or `None`
/// where it is too short.
pub fn decode_status_reply(b: &[u8]) -> (r: Option<StatusReply>)
    ensures
        b@.len() < STATUS_REPLY_SIZE ==> r is None,
        b@.len() >= STATUS_REPLY_SIZE ==> r is Some && r->Some_0.status == le_u64(b@, 0) as i64
            && r->Some_0.len == le_u64(b@, 8) && r->Some_0.data@ == b@.subrange(16, 528),
{
    if b.len() < STATUS_REPLY_SIZE {
        return None;
    }
    let mut data: Vec<u8> = Vec::new();
    let mut i: usize = 16;
    while i < STATUS_REPLY_SIZE
        invariant
            16 <= i <= STATUS_REPLY_SIZE,
            STATUS_REPLY_SIZE <= b@.len(),
            data@ == b@.subrange(16, i as int),
        decreases STATUS_REPLY_SIZE - i,
    {
        data.push(b[i]);
        i = i + 1;
        proof {
            assert(data@ =~= b@.subrange(16, i as int));
        }
    }
    Some(StatusReply { status: read_u64_le(b, 0) as i64, len: read_u64_le(b, 8), data })
}

/// The names granted by a reply with `status`, claiming `len` bytes of
/// `data`: `None` where the status is not 0; otherwise the zero-separated
/// names in the first `len` bytes (at most all of `data`).
pub fn granted_names_of(status: i64, len: u64, data: &Vec<u8>) -> (r: Option<Vec<String>>)
    ensures
        status != 0 ==> r is None,
        status == 0 ==> r is Some && texts(r->Some_0@) == nul_list(
            data@.subrange(
                0,
                if (len as usize) < data@.len() {
                    len as usize as int
                } else {
                    data@.len() as int
                },
            ),
        ),
{
    if status != 0 {
        return None;
    }
    let n = if (len as usize) < data.len() {
        len as usize
    } else {
        data.len()
    };
    let blob = crate::bytes::copy_range(data, 0, n);
    Some(split_nul_list(blob.as_slice()))
}

} // verus!
