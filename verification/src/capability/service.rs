//! How the capability service answers its requests: reading names out of
//! a request, lists of names separated by zero bytes, the grant decision
//! for a program about to run, and the record of what each process got.

use vstd::prelude::*;
use vstd::string::StringSliceAdditionalSpecFns;
use vstd::utf8::{
    decode_utf8, encode_scalar, encode_utf8, last_continuation_byte, leading_byte_width_1,
    leading_byte_width_2, leading_byte_width_3, leading_byte_width_4, second_last_continuation_byte,
    third_last_continuation_byte, valid_utf8,
};

use super::db::AllowDb;
use super::policy::{grant_rule, should_grant};
use super::protocol::{subject_code, CapabilityRequestMsg, CapabilityResponseMsg, SubjectType, MSG_DATA_SIZE};
use super::registry::CapabilityRegistry;
use crate::bytes::{copy_range, find_byte, find_byte_from, lemma_find_byte_from, split_bytes_from};
use crate::text::string_from_utf8;

verus! {

/// The texts of a list of strings.
pub open spec fn texts(v: Seq<String>) -> Seq<Seq<char>> {
    v.map_values(|s: String| s@)
}

/// The names in `pieces`: the nonempty ones that are UTF-8, in order.
pub open spec fn nul_items(pieces: Seq<Seq<u8>>) -> Seq<Seq<char>>
    decreases pieces.len(),
{
    if pieces.len() == 0 {
        Seq::empty()
    } else {
        let rest = nul_items(pieces.drop_last());
        let p = pieces.last();
        if p.len() > 0 && valid_utf8(p) {
            rest.push(decode_utf8(p))
        } else {
            rest
        }
    }
}

/// The names in a list whose entries are separated by zero bytes.
pub open spec fn nul_list(bytes: Seq<u8>) -> Seq<Seq<char>> {
    nul_items(split_bytes_from(bytes, 0, 0))
}

/// The names of a zero-separated list, leaving out empty entries and
/// those that are not UTF-8.
pub fn split_nul_list(bytes: &[u8]) -> (r: Vec<String>)
    ensures
        texts(r@) == nul_list(bytes@),
{
    let n = bytes.len();
    let mut out: Vec<String> = Vec::new();
    let mut from: usize = 0;
    let ghost pieces = split_bytes_from(bytes@, 0, 0);
    let ghost mut done: Seq<Seq<u8>> = Seq::empty();
    let mut finished = false;
    proof {
        assert(texts(out@) =~= nul_items(done));
    }
    while !finished
        invariant
            n == bytes@.len(),
            pieces == split_bytes_from(bytes@, 0, 0),
            !finished ==> from <= n,
            !finished ==> done + split_bytes_from(bytes@, 0, from as int) == pieces,
            finished ==> done == pieces,
            texts(out@) == nul_items(done),
        decreases n + 1 - from, if finished { 0int } else { 1int },
    {
        proof {
            lemma_find_byte_from(bytes@, 0, from as int);
        }
        let i = find_byte(bytes, 0, from);
        let ghost d0 = done;
        let ghost before = out@;
        let piece = copy_range_slice(bytes, from, i);
        let plen = piece.len();
        if plen > 0 {
            match string_from_utf8(piece) {
                Some(s) => {
                    out.push(s);
                    proof {
                        assert(texts(out@) =~= texts(before).push(out@.last()@));
                    }
                },
                None => {},
            }
        }
        proof {
            let d1 = d0.push(bytes@.subrange(from as int, i as int));
            assert(d1.drop_last() =~= d0);
            done = d1;
        }
        if i >= n {
            finished = true;
            proof {
                assert(split_bytes_from(bytes@, 0, from as int) == seq![bytes@.subrange(from as int, n as int)]);
                assert(done =~= pieces);
            }
        } else {
            proof {
                assert(split_bytes_from(bytes@, 0, from as int) == seq![bytes@.subrange(from as int, i as int)]
                    + split_bytes_from(bytes@, 0, i + 1));
                assert(d0 + split_bytes_from(bytes@, 0, from as int) =~= done + split_bytes_from(
                    bytes@,
                    0,
                    i + 1,
                ));
            }
            from = i + 1;
        }
    }
    out
}

/// A copy of `src[from .. to]`.
fn copy_range_slice(src: &[u8], from: usize, to: usize) -> (r: Vec<u8>)
    requires
        from <= to <= src@.len(),
    ensures
        r@ == src@.subrange(from as int, to as int),
{
    let mut v: Vec<u8> = Vec::new();
    let mut i: usize = from;
    while i < to
        invariant
            from <= i <= to,
            to <= src@.len(),
            v@ == src@.subrange(from as int, i as int),
        decreases to - i,
    {
        v.push(src[i]);
        i = i + 1;
        proof {
            assert(v@ =~= src@.subrange(from as int, i as int));
        }
    }
    v
}

/// The names joined into one list: each one's UTF-8 bytes and a zero byte.
pub open spec fn nul_join(items: Seq<Seq<char>>) -> Seq<u8>
    decreases items.len(),
{
    if items.len() == 0 {
        Seq::empty()
    } else {
        nul_join(items.drop_last()) + encode_utf8(items.last()) + seq![0u8]
    }
}

/// Joining fewer names gives a prefix of joining more.
pub proof fn lemma_nul_join_prefix(items: Seq<Seq<char>>, k: int)
    requires
        0 <= k <= items.len(),
    ensures
        nul_join(items.take(k)).is_prefix_of(nul_join(items)),
    decreases items.len() - k,
{
    if k < items.len() {
        lemma_nul_join_prefix(items, k + 1);
        assert(items.take(k + 1).drop_last() =~= items.take(k));
    } else {
        assert(items.take(k) =~= items);
    }
}

/// No byte of the UTF-8 encoding of a nonzero scalar is zero.
proof fn lemma_scalar_bytes_nonzero(c: u32)
    requires
        0 < c,
    ensures
        forall|k: int| 0 <= k < encode_scalar(c).len() ==> #[trigger] encode_scalar(c)[k] != 0u8,
{
    assert(0 < c && c <= 0x7F ==> leading_byte_width_1(c) != 0u8) by (bit_vector);
    assert(leading_byte_width_2(c) != 0u8) by (bit_vector);
    assert(leading_byte_width_3(c) != 0u8) by (bit_vector);
    assert(leading_byte_width_4(c) != 0u8) by (bit_vector);
    assert(last_continuation_byte(c) != 0u8) by (bit_vector);
    assert(second_last_continuation_byte(c) != 0u8) by (bit_vector);
    assert(third_last_continuation_byte(c) != 0u8) by (bit_vector);
}

/// The encoding of a text without the NUL character holds no zero byte,
/// and is empty only for the empty text.
proof fn lemma_encoding_has_no_zero(t: Seq<char>)
    requires
        !t.contains('\0'),
    ensures
        forall|k: int| 0 <= k < encode_utf8(t).len() ==> #[trigger] encode_utf8(t)[k] != 0u8,
        t.len() > 0 ==> encode_utf8(t).len() > 0,
    decreases t.len(),
{
    if t.len() > 0 {
        let rest = t.drop_first();
        assert forall|c: char| rest.contains(c) implies t.contains(c) by {
            let i = choose|i: int| 0 <= i < rest.len() && rest[i] == c;
            assert(t[i + 1] == c);
        }
        lemma_encoding_has_no_zero(rest);
        assert(t[0] != '\0') by {
            assert(t.contains(t[0]));
        }
        vstd::utf8::char_is_scalar(t[0]);
        assert((t[0] as u32) != 0u32) by {
            vstd::utf8::char_u32_cast(t[0], t[0] as u32);
            vstd::utf8::char_u32_cast('\0', 0u32);
        }
        lemma_scalar_bytes_nonzero(t[0] as u32);
        let head = encode_scalar(t[0] as u32);
        assert(head.len() > 0);
        assert forall|k: int| 0 <= k < encode_utf8(t).len() implies #[trigger] encode_utf8(t)[k] != 0u8 by {
            if k < head.len() {
                assert(encode_utf8(t)[k] == head[k]);
            } else {
                assert(encode_utf8(t)[k] == encode_utf8(rest)[k - head.len()]);
            }
        }
    }
}

/// The names that may travel in a zero-separated list: nonempty, without
/// the NUL character.
pub open spec fn listable(items: Seq<Seq<char>>) -> bool {
    forall|i: int| 0 <= i < items.len() ==> #[trigger] items[i].len() > 0 && !items[i].contains('\0')
}

/// The pieces of a joined list, from the start of its entry `k` on: the
/// encoding of each entry from `k`, then the empty piece after the last zero.
proof fn lemma_split_joined(items: Seq<Seq<char>>, k: int)
    requires
        listable(items),
        0 <= k <= items.len(),
    ensures
        split_bytes_from(nul_join(items), 0, nul_join(items.take(k)).len() as int)
            == items.skip(k).map_values(|t: Seq<char>| encode_utf8(t)).push(Seq::<u8>::empty()),
    decreases items.len() - k,
{
    let j = nul_join(items);
    let from = nul_join(items.take(k)).len() as int;
    lemma_nul_join_prefix(items, k);
    if k == items.len() {
        assert(items.take(k) =~= items);
        lemma_find_byte_from(j, 0, from);
        assert(items.skip(k).map_values(|t: Seq<char>| encode_utf8(t)) =~= Seq::<Seq<u8>>::empty());
        assert(j.subrange(from, j.len() as int) =~= Seq::<u8>::empty());
    } else {
        lemma_split_joined(items, k + 1);
        lemma_nul_join_prefix(items, k + 1);
        let e = encode_utf8(items[k]);
        assert(items.take(k + 1).drop_last() =~= items.take(k));
        assert(items.take(k + 1).last() == items[k]);
        let next = nul_join(items.take(k + 1));
        assert(next == nul_join(items.take(k)) + e + seq![0u8]);
        assert(next.len() == from + e.len() + 1);
        lemma_encoding_has_no_zero(items[k]);
        assert forall|p: int| from <= p < from + e.len() implies #[trigger] j[p] != 0u8 by {
            assert(j[p] == next[p]);
            assert(next[p] == e[p - from]);
        }
        assert(j[from + e.len()] == 0u8) by {
            assert(j[from + e.len()] == next[from + e.len()]);
        }
        lemma_find_byte_from(j, 0, from);
        assert(find_byte_from(j, 0, from) == from + e.len());
        assert(j.subrange(from, from + e.len()) =~= e) by {
            assert forall|p: int| 0 <= p < e.len() implies j.subrange(from, from + e.len())[p] == e[p] by {
                assert(j[from + p] == next[from + p]);
            }
        }
        assert(items.skip(k).map_values(|t: Seq<char>| encode_utf8(t)).push(Seq::<u8>::empty())
            =~= seq![e] + items.skip(k + 1).map_values(|t: Seq<char>| encode_utf8(t)).push(
            Seq::<u8>::empty(),
        ));
    }
}

/// Reading back the encodings of listable names gives the names.
proof fn lemma_items_of_encodings(items: Seq<Seq<char>>)
    requires
        listable(items),
    ensures
        nul_items(items.map_values(|t: Seq<char>| encode_utf8(t))) == items,
    decreases items.len(),
{
    if items.len() > 0 {
        let rest = items.drop_last();
        assert(listable(rest)) by {
            assert forall|i: int| 0 <= i < rest.len() implies #[trigger] rest[i].len() > 0
                && !rest[i].contains('\0') by {
                assert(rest[i] == items[i]);
            }
        }
        lemma_items_of_encodings(rest);
        let m = items.map_values(|t: Seq<char>| encode_utf8(t));
        assert(m.drop_last() =~= rest.map_values(|t: Seq<char>| encode_utf8(t)));
        let last = items.last();
        assert(items[items.len() - 1] == last);
        lemma_encoding_has_no_zero(last);
        vstd::utf8::encode_utf8_valid_utf8(last);
        vstd::utf8::encode_utf8_decode_utf8(last);
        assert(items =~= rest.push(last));
    }
}

/// A list of names that are nonempty and hold no NUL character reads back
/// as the same names once joined with zero bytes.
pub proof fn law_nul_list_round_trip(items: Seq<Seq<char>>)
    requires
        listable(items),
    ensures
        nul_list(nul_join(items)) == items,
{
    lemma_split_joined(items, 0);
    assert(items.take(0) =~= Seq::<Seq<char>>::empty());
    assert(items.skip(0) =~= items);
    let m = items.map_values(|t: Seq<char>| encode_utf8(t));
    assert(m.push(Seq::<u8>::empty()).drop_last() =~= m);
    lemma_items_of_encodings(items);
}

/// A process recorded with a list of names that fits in one payload is
/// then listed with exactly that list: what `record_granted` stores for
/// the joined names, `list_granted` sends back byte for byte.
pub proof fn law_list_answers_what_was_recorded(
    ledger: Map<u64, Seq<Seq<char>>>,
    pid: u64,
    names: Seq<Seq<char>>,
)
    requires
        listable(names),
        nul_join(names).len() <= MSG_DATA_SIZE,
    ensures
        ({
            let after = ledger.insert(pid, nul_list(nul_join(names)));
            &&& after.contains_key(pid)
            &&& after[pid] == names
            &&& clip_payload(nul_join(after[pid])) == nul_join(names)
        }),
{
    law_nul_list_round_trip(names);
}

/// At most one payload of `a`: all of it, or its first `MSG_DATA_SIZE`
/// bytes.
pub open spec fn clip_payload(a: Seq<u8>) -> Seq<u8> {
    if a.len() <= MSG_DATA_SIZE {
        a
    } else {
        a.subrange(0, MSG_DATA_SIZE as int)
    }
}

/// The zero-separated list of `items`, cut to one payload.
pub fn encode_nul_list(items: &Vec<String>) -> (r: Vec<u8>)
    ensures
        r@ == clip_payload(nul_join(texts(items@))),
{
    let ghost all = texts(items@);
    let mut out: Vec<u8> = Vec::new();
    let mut i: usize = 0;
    proof {
        assert(all.take(0) =~= Seq::<Seq<char>>::empty());
    }
    while i < items.len()
        invariant
            i <= items@.len(),
            all == texts(items@),
            out@ == nul_join(all.take(i as int)),
            out@.len() < MSG_DATA_SIZE,
        decreases items@.len() - i,
    {
        let bytes = items[i].as_str().as_bytes();
        let ghost before = out@;
        let mut k: usize = 0;
        while k < bytes.len()
            invariant
                k <= bytes@.len(),
                before.len() < MSG_DATA_SIZE,
                out@ == before + bytes@.subrange(0, k as int),
            decreases bytes@.len() - k,
        {
            out.push(bytes[k]);
            k = k + 1;
            proof {
                assert(out@ =~= before + bytes@.subrange(0, k as int));
            }
        }
        out.push(0u8);
        proof {
            assert(bytes@.subrange(0, bytes@.len() as int) =~= bytes@);
            assert(all.take(i + 1).drop_last() =~= all.take(i as int));
            assert(all.take(i + 1).last() == all[i as int]);
            assert(out@ =~= nul_join(all.take(i + 1)));
        }
        i = i + 1;
        if out.len() >= MSG_DATA_SIZE {
            proof {
                lemma_nul_join_prefix(all, i as int);
                assert(out@.subrange(0, MSG_DATA_SIZE as int) =~= nul_join(all).subrange(
                    0,
                    MSG_DATA_SIZE as int,
                ));
            }
            out.truncate(MSG_DATA_SIZE);
            return out;
        }
    }
    proof {
        assert(all.take(i as int) =~= all);
    }
    out
}

/// The text at `data[offset .. offset + len]`, if it lies within the
/// payload and is UTF-8.
pub open spec fn spec_read_str(data: Seq<u8>, offset: int, len: int) -> Option<Seq<char>> {
    if offset + len <= data.len() && valid_utf8(data.subrange(offset, offset + len)) {
        Some(decode_utf8(data.subrange(offset, offset + len)))
    } else {
        None
    }
}

/// The text at `msg.data[offset .. offset + len]`, if it lies within the
/// payload and is UTF-8.
pub fn read_str_from_msg(msg: &CapabilityRequestMsg, offset: usize, len: usize) -> (r: Option<
    String,
>)
    ensures
        match r {
            Some(s) => spec_read_str(msg.data@, offset as int, len as int) == Some(s@),
            None => spec_read_str(msg.data@, offset as int, len as int) is None,
        },
{
    let _n = msg.data.len();
    let end = match offset.checked_add(len) {
        Some(e) => e,
        None => return None,
    };
    if end > msg.data.len() {
        return None;
    }
    let bytes = copy_range(&msg.data, offset, end);
    string_from_utf8(bytes)
}

/// A reply to `op` with `status`, carrying `payload` (at most one
/// payload's worth), padded with zeros.
pub fn make_response(op: u64, status: i64, payload: &Vec<u8>) -> (r: CapabilityResponseMsg)
    requires
        payload@.len() <= MSG_DATA_SIZE,
    ensures
        r.op == op,
        r.status == status,
        r.len == payload@.len(),
        r.data@.len() == MSG_DATA_SIZE,
        r.data@.subrange(0, payload@.len() as int) == payload@,
        forall|i: int| payload@.len() <= i < MSG_DATA_SIZE ==> r.data@[i] == 0,
{
    let mut data: Vec<u8> = Vec::new();
    let mut i: usize = 0;
    while i < MSG_DATA_SIZE
        invariant
            i <= MSG_DATA_SIZE,
            payload@.len() <= MSG_DATA_SIZE,
            data@.len() == i,
            forall|k: int| 0 <= k < i && k < payload@.len() ==> data@[k] == payload@[k],
            forall|k: int| 0 <= k < i && k >= payload@.len() ==> data@[k] == 0,
        decreases MSG_DATA_SIZE - i,
    {
        if i < payload.len() {
            data.push(payload[i]);
        } else {
            data.push(0u8);
        }
        i = i + 1;
    }
    proof {
        assert(data@.subrange(0, payload@.len() as int) =~= payload@);
    }
    CapabilityResponseMsg { op, status, len: payload.len() as u64, data }
}

/// The names of `requested` that the registry knows and the grant rule
/// lets through, in order.
pub open spec fn granted_names(
    requested: Seq<Seq<char>>,
    registry: Set<Seq<char>>,
    db: super::db::DbView,
    t: SubjectType,
    id: Seq<char>,
    allow_sensitive: bool,
    allow_dangerous: bool,
) -> Seq<Seq<char>>
    decreases requested.len(),
{
    if requested.len() == 0 {
        Seq::empty()
    } else {
        let rest = granted_names(
            requested.drop_last(),
            registry,
            db,
            t,
            id,
            allow_sensitive,
            allow_dangerous,
        );
        let c = requested.last();
        if registry.contains(c) && grant_rule(db, t, id, c, allow_sensitive, allow_dangerous) {
            rest.push(c)
        } else {
            rest
        }
    }
}

/// A status and a payload.
pub struct GrantReply {
    pub status: int,
    pub payload: Seq<u8>,
}

/// The answer to a grant request: -1 where the caller is not trusted;
/// -22 where the subject type is unknown, the subject id is not UTF-8 text
/// within the payload, or the list of requested names does not fit after
/// it; otherwise 0, with the granted names as a zero-separated list.
pub open spec fn grant_reply(
    req: super::protocol::CapabilityRequestMsgView,
    registry: Set<Seq<char>>,
    db: super::db::DbView,
    trusted: bool,
    allow_sensitive: bool,
    allow_dangerous: bool,
) -> GrantReply {
    let id_len = req.len0 as usize as int;
    let req_len = req.len1 as usize as int;
    if !trusted {
        GrantReply { status: -1, payload: Seq::empty() }
    } else if req.arg0 != 1 && req.arg0 != 2 {
        GrantReply { status: -22, payload: Seq::empty() }
    } else if spec_read_str(req.data, 0, id_len) is None {
        GrantReply { status: -22, payload: Seq::empty() }
    } else if id_len + req_len > req.data.len() {
        GrantReply { status: -22, payload: Seq::empty() }
    } else {
        let t = if req.arg0 == 1 {
            SubjectType::App
        } else {
            SubjectType::Service
        };
        let id = spec_read_str(req.data, 0, id_len)->Some_0;
        let requested = nul_list(req.data.subrange(id_len, id_len + req_len));
        GrantReply {
            status: 0,
            payload: clip_payload(
                nul_join(
                    granted_names(requested, registry, db, t, id, allow_sensitive, allow_dangerous),
                ),
            ),
        }
    }
}

/// Answers a request to grant capabilities to a program about to run.
/// `trusted` says whether the caller is one of the processes allowed to
/// ask; the two switches are the developer settings of the grant rule.
pub fn grant_for_exec(
    req: &CapabilityRequestMsg,
    registry: &CapabilityRegistry,
    db: &AllowDb,
    trusted: bool,
    allow_sensitive: bool,
    allow_dangerous: bool,
) -> (r: CapabilityResponseMsg)
    requires
        db.wf(),
        req.data@.len() == MSG_DATA_SIZE,
        trusted ==> req.len0 as usize + req.len1 as usize <= usize::MAX,
    ensures
        ({
            let want = grant_reply(req@, registry@, db@, trusted, allow_sensitive, allow_dangerous);
            &&& r.op == req.op
            &&& r.status == want.status
            &&& r.len == want.payload.len()
            &&& r.data@.subrange(0, want.payload.len() as int) == want.payload
            &&& r.data@.len() == MSG_DATA_SIZE
            &&& forall|i: int| want.payload.len() <= i < MSG_DATA_SIZE ==> r.data@[i] == 0
        }),
{
    let empty: Vec<u8> = Vec::new();
    if !trusted {
        return make_response(req.op, -1, &empty);
    }
    let subject_type = match SubjectType::from_u64(req.arg0) {
        Some(t) => t,
        None => return make_response(req.op, -22, &empty),
    };
    let subject_id_len = req.len0 as usize;
    let requested_len = req.len1 as usize;
    let subject_id = match read_str_from_msg(req, 0, subject_id_len) {
        Some(s) => s,
        None => return make_response(req.op, -22, &empty),
    };
    let requested_off = subject_id_len;
    if requested_off + requested_len > req.data.len() {
        return make_response(req.op, -22, &empty);
    }
    let blob = copy_range(&req.data, requested_off, requested_off + requested_len);
    let requested = split_nul_list(blob.as_slice());
    let ghost want_list = texts(requested@);
    let mut granted: Vec<String> = Vec::new();
    let mut i: usize = 0;
    proof {
        assert(want_list.take(0) =~= Seq::<Seq<char>>::empty());
    }
    while i < requested.len()
        invariant
            i <= requested@.len(),
            db.wf(),
            want_list == texts(requested@),
            texts(granted@) == granted_names(
                want_list.take(i as int),
                registry@,
                db@,
                subject_type,
                subject_id@,
                allow_sensitive,
                allow_dangerous,
            ),
        decreases requested@.len() - i,
    {
        let cap = &requested[i];
        let ghost before = granted@;
        proof {
            assert(want_list.take(i + 1).drop_last() =~= want_list.take(i as int));
            assert(want_list.take(i + 1).last() == cap@);
        }
        if registry.contains(cap.as_str()) && should_grant(
            subject_type,
            subject_id.as_str(),
            cap.as_str(),
            db,
            allow_sensitive,
            allow_dangerous,
        ) {
            granted.push(cap.clone());
            proof {
                assert(texts(granted@) =~= texts(before).push(cap@));
            }
        }
        i = i + 1;
    }
    proof {
        assert(want_list.take(i as int) =~= want_list);
    }
    let out = encode_nul_list(&granted);
    make_response(req.op, 0, &out)
}

/// What each process was recorded as granted.
pub struct GrantLedger {
    entries: Vec<LedgerEntry>,
}

struct LedgerEntry {
    pid: u64,
    caps: Vec<String>,
}

spec fn ledger_pids(e: Seq<LedgerEntry>) -> Seq<u64> {
    e.map_values(|x: LedgerEntry| x.pid)
}

spec fn ledger_index(e: Seq<LedgerEntry>, pid: u64) -> int {
    choose|i: int| 0 <= i < e.len() && #[trigger] e[i].pid == pid
}

proof fn lemma_ledger_index(e: Seq<LedgerEntry>, i: int)
    requires
        ledger_pids(e).no_duplicates(),
        0 <= i < e.len(),
    ensures
        ledger_index(e, e[i].pid) == i,
        ledger_pids(e).contains(e[i].pid),
{
    let pid = e[i].pid;
    let j = ledger_index(e, pid);
    assert(ledger_pids(e)[i] == pid);
    assert(ledger_pids(e)[j] == pid);
}

impl View for GrantLedger {
    type V = Map<u64, Seq<Seq<char>>>;

    closed spec fn view(&self) -> Map<u64, Seq<Seq<char>>> {
        Map::new(
            |pid: u64| ledger_pids(self.entries@).contains(pid),
            |pid: u64| texts(self.entries@[ledger_index(self.entries@, pid)].caps@),
        )
    }
}
/// A copy of a list of strings.
fn copy_strings(v: &Vec<String>) -> (r: Vec<String>)
    ensures
        texts(r@) == texts(v@),
{
    let mut out: Vec<String> = Vec::new();
    let mut i: usize = 0;
    while i < v.len()
        invariant
            i <= v@.len(),
            texts(out@) == texts(v@).take(i as int),
        decreases v@.len() - i,
    {
        let ghost before = out@;
        let c = v[i].clone();
        proof {
            assert(c@ == v@[i as int]@);
        }
        out.push(c);
        proof {
            assert(texts(out@) =~= texts(before).push(c@));
            assert(texts(v@).take(i + 1) =~= texts(v@).take(i as int).push(texts(v@)[i as int]));
        }
        i = i + 1;
    }
    proof {
        assert(texts(v@).take(i as int) =~= texts(v@));
    }
    out
}

impl GrantLedger {
    pub closed spec fn wf(&self) -> bool {
        ledger_pids(self.entries@).no_duplicates()
    }

    /// The empty record.
    pub fn new() -> (r: Self)
        ensures
            r.wf(),
            r@ == Map::<u64, Seq<Seq<char>>>::empty(),
    {
        let r = GrantLedger { entries: Vec::new() };
        proof {
            assert(r@ =~= Map::<u64, Seq<Seq<char>>>::empty());
        }
        r
    }

    fn find(&self, pid: u64) -> (r: Option<usize>)
        ensures
            match r {
                Some(i) => i < self.entries@.len() && self.entries@[i as int].pid == pid,
                None => !ledger_pids(self.entries@).contains(pid),
            },
    {
        let mut i: usize = 0;
        while i < self.entries.len()
            invariant
                i <= self.entries@.len(),
                forall|k: int| 0 <= k < i ==> #[trigger] self.entries@[k].pid != pid,
            decreases self.entries@.len() - i,
        {
            if self.entries[i].pid == pid {
                return Some(i);
            }
            i = i + 1;
        }
        proof {
            if ledger_pids(self.entries@).contains(pid) {
                let j = choose|j: int| 0 <= j < ledger_pids(self.entries@).len() && ledger_pids(self.entries@)[j] == pid;
                assert(self.entries@[j].pid == pid);
            }
        }
        None
    }

    /// The names recorded for `pid` (none where nothing was recorded).
    pub fn list(&self, pid: u64) -> (r: Vec<String>)
        requires
            self.wf(),
        ensures
            texts(r@) == if self@.contains_key(pid) {
                self@[pid]
            } else {
                Seq::empty()
            },
    {
        match self.find(pid) {
            Some(i) => {
                proof {
                    lemma_ledger_index(self.entries@, i as int);
                }
                copy_strings(&self.entries[i].caps)
            },
            None => {
                let r: Vec<String> = Vec::new();
                proof {
                    assert(texts(r@) =~= Seq::<Seq<char>>::empty());
                }
                r
            },
        }
    }
    /// Records `caps` as what `pid` was granted, in place of anything
    /// recorded before.
    pub fn record(&mut self, pid: u64, caps: Vec<String>)
        requires
            old(self).wf(),
        ensures
            final(self).wf(),
            final(self)@ == old(self)@.insert(pid, texts(caps@)),
    {
        let ghost e0 = self.entries@;
        let ghost m = self@.insert(pid, texts(caps@));
        match self.find(pid) {
            Some(i) => {
                self.entries.set(i, LedgerEntry { pid, caps });
                proof {
                    let e1 = self.entries@;
                    assert(ledger_pids(e1) =~= ledger_pids(e0));
                    assert(ledger_pids(e0)[i as int] == pid);
                    assert(self@.dom() =~= m.dom());
                    assert forall|k: u64| #[trigger] self@.dom().contains(k) implies self@[k] == m[k] by {
                        let j = choose|j: int| 0 <= j < ledger_pids(e1).len() && ledger_pids(e1)[j] == k;
                        assert(e1[j].pid == k);
                        lemma_ledger_index(e1, j);
                        if k != pid {
                            assert(e0[j] == e1[j]);
                            lemma_ledger_index(e0, j);
                        } else {
                            lemma_ledger_index(e1, i as int);
                        }
                    }
                    assert(self@ =~= m);
                }
            },
            None => {
                self.entries.push(LedgerEntry { pid, caps });
                proof {
                    let e1 = self.entries@;
                    assert(ledger_pids(e1) =~= ledger_pids(e0).push(pid));
                    assert forall|a: int, b: int| 0 <= a < b < ledger_pids(e1).len() implies ledger_pids(e1)[a]
                        != ledger_pids(e1)[b] by {
                        if b == e0.len() {
                            assert(ledger_pids(e0)[a] == e0[a].pid);
                            assert(ledger_pids(e0).contains(e0[a].pid));
                        } else {
                            assert(ledger_pids(e0)[a] != ledger_pids(e0)[b]);
                        }
                    }
                    assert forall|k: u64| ledger_pids(e1).contains(k) <==> (ledger_pids(e0).contains(k) || k == pid) by {
                        if ledger_pids(e0).contains(k) {
                            let j = choose|j: int| 0 <= j < ledger_pids(e0).len() && ledger_pids(e0)[j] == k;
                            assert(ledger_pids(e1)[j] == k);
                        }
                        if k == pid {
                            assert(ledger_pids(e1)[e0.len() as int] == k);
                        }
                        if ledger_pids(e1).contains(k) {
                            let j = choose|j: int| 0 <= j < ledger_pids(e1).len() && ledger_pids(e1)[j] == k;
                            if j < e0.len() {
                                assert(ledger_pids(e0)[j] == k);
                            }
                        }
                    }
                    assert(self@.dom() =~= m.dom());
                    assert forall|k: u64| #[trigger] self@.dom().contains(k) implies self@[k] == m[k] by {
                        let j = choose|j: int| 0 <= j < ledger_pids(e1).len() && ledger_pids(e1)[j] == k;
                        assert(e1[j].pid == k);
                        lemma_ledger_index(e1, j);
                        if k != pid {
                            assert(j < e0.len());
                            assert(e0[j] == e1[j]);
                            lemma_ledger_index(e0, j);
                        } else {
                            lemma_ledger_index(e1, e0.len() as int);
                        }
                    }
                    assert(self@ =~= m);
                }
            },
        }
    }
}

/// The status of a request to resolve a capability name: 0 where the
/// registry knows the name at the start of the payload, -22 otherwise.
pub fn resolve_status(req: &CapabilityRequestMsg, registry: &CapabilityRegistry) -> (r: i64)
    ensures
        r == match spec_read_str(req.data@, 0, req.len0 as usize as int) {
            Some(name) => if registry@.contains(name) {
                0i64
            } else {
                -22i64
            },
            None => -22i64,
        },
{
    match read_str_from_msg(req, 0, req.len0 as usize) {
        Some(name) => if registry.contains(name.as_str()) {
            0
        } else {
            -22
        },
        None => -22,
    }
}

/// The status of a capability check: 1 where the thread holds it, 0 where
/// it does not, and the error the kernel gave otherwise.
pub fn check_status(result: Result<bool, i64>) -> (r: i64)
    ensures
        r == match result {
            Ok(true) => 1i64,
            Ok(false) => 0i64,
            Err(e) => e,
        },
{
    match result {
        Ok(ok) => if ok {
            1
        } else {
            0
        },
        Err(e) => e,
    }
}

/// Whether `sender` may ask for grants: it is the core service or the
/// process service, as found by name.
pub fn is_trusted_grant_caller(sender: u64, core_pid: Option<u64>, process_pid: Option<u64>) -> (r:
    bool)
    ensures
        r == (core_pid == Some(sender) || process_pid == Some(sender)),
{
    let by_core = match core_pid {
        Some(p) => p == sender,
        None => false,
    };
    let by_process = match process_pid {
        Some(p) => p == sender,
        None => false,
    };
    by_core || by_process
}

/// The reply listing what process `req.arg0` was recorded as granted.
pub fn list_granted(req: &CapabilityRequestMsg, ledger: &GrantLedger) -> (r: CapabilityResponseMsg)
    requires
        ledger.wf(),
    ensures
        ({
            let list = if ledger@.contains_key(req.arg0) {
                ledger@[req.arg0]
            } else {
                Seq::empty()
            };
            let payload = clip_payload(nul_join(list));
            &&& r.op == req.op
            &&& r.status == 0
            &&& r.len == payload.len()
            &&& r.data@.subrange(0, payload.len() as int) == payload
            &&& r.data@.len() == MSG_DATA_SIZE
            &&& forall|i: int| payload.len() <= i < MSG_DATA_SIZE ==> r.data@[i] == 0
        }),
{
    let list = ledger.list(req.arg0);
    let out = encode_nul_list(&list);
    make_response(req.op, 0, &out)
}

/// Records, for process `req.arg0`, the zero-separated list at the start
/// of the payload (`req.len0` bytes, at most the payload); -1, recording
/// nothing, where the caller is not trusted.
pub fn record_granted(req: &CapabilityRequestMsg, ledger: &mut GrantLedger, trusted: bool) -> (r: i64)
    requires
        old(ledger).wf(),
    ensures
        final(ledger).wf(),
        !trusted ==> r == -1 && final(ledger)@ == old(ledger)@,
        trusted ==> {
            let n = if (req.len0 as usize) < req.data@.len() {
                req.len0 as usize as int
            } else {
                req.data@.len() as int
            };
            &&& r == 0
            &&& final(ledger)@ == old(ledger)@.insert(req.arg0, nul_list(req.data@.subrange(0, n)))
        },
{
    if !trusted {
        return -1;
    }
    let blob_len = if (req.len0 as usize) < req.data.len() {
        req.len0 as usize
    } else {
        req.data.len()
    };
    let blob = copy_range(&req.data, 0, blob_len);
    let list = split_nul_list(blob.as_slice());
    ledger.record(req.arg0, list);
    0
}

} // verus!
