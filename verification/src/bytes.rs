//! Byte buffers: filling, copying and slicing.

use vstd::prelude::*;

verus! {

/// A buffer of `n` zero bytes.
pub fn zeroed(n: usize) -> (r: Vec<u8>)
    ensures
        r@ == Seq::new(n as nat, |i: int| 0u8),
{
    let mut v: Vec<u8> = Vec::with_capacity(n);
    let mut i: usize = 0;
    while i < n
        invariant
            i <= n,
            v@ =~= Seq::new(i as nat, |k: int| 0u8),
        decreases n - i,
    {
        v.push(0);
        i = i + 1;
    }
    v
}

/// A copy of `src[from .. to]`.
pub fn copy_range(src: &Vec<u8>, from: usize, to: usize) -> (r: Vec<u8>)
    requires
        from <= to <= src@.len(),
    ensures
        r@ == src@.subrange(from as int, to as int),
{
    let mut v: Vec<u8> = Vec::with_capacity(to - from);
    let mut i: usize = from;
    while i < to
        invariant
            from <= i <= to,
            to <= src@.len(),
            v@ =~= src@.subrange(from as int, i as int),
        decreases to - i,
    {
        v.push(src[i]);
        i = i + 1;
    }
    v
}

/// Copies `src[src_off .. src_off + n]` over `dst[dst_off .. dst_off + n]`.
pub fn copy_into(dst: &mut Vec<u8>, dst_off: usize, src: &Vec<u8>, src_off: usize, n: usize)
    requires
        dst_off + n <= old(dst)@.len(),
        src_off + n <= src@.len(),
    ensures
        final(dst)@ == old(dst)@.subrange(0, dst_off as int) + src@.subrange(
            src_off as int,
            src_off + n,
        ) + old(dst)@.subrange(dst_off + n, old(dst)@.len() as int),
{
    let ghost before = dst@;
    let _dl = dst.len();
    let _sl = src.len();
    let mut i: usize = 0;
    while i < n
        invariant
            i <= n,
            dst@.len() <= usize::MAX,
            src@.len() <= usize::MAX,
            dst_off + n <= dst@.len(),
            src_off + n <= src@.len(),
            dst@.len() == before.len(),
            forall|m: int| 0 <= m < dst_off ==> #[trigger] dst@[m] == before[m],
            forall|m: int| 0 <= m < i ==> #[trigger] dst@[dst_off + m] == src@[src_off + m],
            forall|m: int| dst_off + i <= m < dst@.len() ==> #[trigger] dst@[m] == before[m],
        decreases n - i,
    {
        dst.set(dst_off + i, src[src_off + i]);
        i = i + 1;
    }
    proof {
        let want = before.subrange(0, dst_off as int) + src@.subrange(src_off as int, src_off + n)
            + before.subrange(dst_off + n, before.len() as int);
        assert forall|m: int| 0 <= m < dst@.len() implies dst@[m] == want[m] by {
            if dst_off <= m < dst_off + n {
                assert(dst@[dst_off + (m - dst_off)] == src@[src_off + (m - dst_off)]);
            }
        }
        assert(dst@ =~= want);
    }
}

/// Sets `dst[from .. to]` to zero.
pub fn fill_zero(dst: &mut Vec<u8>, from: usize, to: usize)
    requires
        from <= to <= old(dst)@.len(),
    ensures
        final(dst)@ == old(dst)@.subrange(0, from as int) + Seq::new(
            (to - from) as nat,
            |i: int| 0u8,
        ) + old(dst)@.subrange(to as int, old(dst)@.len() as int),
{
    let ghost before = dst@;
    let mut i: usize = from;
    while i < to
        invariant
            from <= i <= to,
            to <= dst@.len(),
            dst@.len() == before.len(),
            forall|m: int| 0 <= m < from ==> #[trigger] dst@[m] == before[m],
            forall|m: int| from <= m < i ==> #[trigger] dst@[m] == 0u8,
            forall|m: int| i <= m < dst@.len() ==> #[trigger] dst@[m] == before[m],
        decreases to - i,
    {
        dst.set(i, 0);
        i = i + 1;
    }
    proof {
        let want = before.subrange(0, from as int) + Seq::new((to - from) as nat, |i: int| 0u8)
            + before.subrange(to as int, before.len() as int);
        assert(dst@ =~= want);
    }
}

/// Whether `a[off .. off + len]` holds exactly the bytes of `b`.
pub fn range_equals(a: &Vec<u8>, off: usize, len: usize, b: &[u8]) -> (r: bool)
    requires
        off + len <= a@.len(),
    ensures
        r == (a@.subrange(off as int, off + len) == b@),
{
    let _n = a.len();
    if len != b.len() {
        proof {
            assert(a@.subrange(off as int, off + len).len() != b@.len());
        }
        return false;
    }
    let mut i: usize = 0;
    while i < len
        invariant
            i <= len,
            len == b@.len(),
            off + len <= a@.len(),
            a@.len() <= usize::MAX,
            forall|k: int| 0 <= k < i ==> a@[off + k] == b@[k],
        decreases len - i,
    {
        if a[off + i] != b[i] {
            proof {
                assert(a@.subrange(off as int, off + len)[i as int] != b@[i as int]);
            }
            return false;
        }
        i = i + 1;
    }
    proof {
        assert(a@.subrange(off as int, off + len) =~= b@);
    }
    true
}

/// Byte-wise lexicographic order: `a` sorts strictly before `b`.
pub open spec fn lex_lt(a: Seq<u8>, b: Seq<u8>) -> bool
    decreases a.len(),
{
    if b.len() == 0 {
        false
    } else if a.len() == 0 {
        true
    } else if a[0] != b[0] {
        a[0] < b[0]
    } else {
        lex_lt(a.drop_first(), b.drop_first())
    }
}

/// No sequence sorts before itself.
pub proof fn lemma_lex_irreflexive(a: Seq<u8>)
    ensures
        !lex_lt(a, a),
    decreases a.len(),
{
    if a.len() > 0 {
        lemma_lex_irreflexive(a.drop_first());
    }
}

/// The order is transitive.
pub proof fn lemma_lex_transitive(a: Seq<u8>, b: Seq<u8>, c: Seq<u8>)
    requires
        lex_lt(a, b),
        lex_lt(b, c),
    ensures
        lex_lt(a, c),
    decreases a.len(),
{
    if a.len() > 0 && b.len() > 0 && c.len() > 0 && a[0] == b[0] && b[0] == c[0] {
        lemma_lex_transitive(a.drop_first(), b.drop_first(), c.drop_first());
    }
}

/// Two different sequences are ordered one way or the other.
pub proof fn lemma_lex_total(a: Seq<u8>, b: Seq<u8>)
    requires
        a != b,
    ensures
        lex_lt(a, b) || lex_lt(b, a),
    decreases a.len(),
{
    if a.len() == 0 && b.len() == 0 {
        assert(a =~= b);
    } else if a.len() > 0 && b.len() > 0 && a[0] == b[0] {
        if a.drop_first() == b.drop_first() {
            assert(a.drop_first().len() == b.drop_first().len());
            assert(a.len() == b.len());
            assert(a =~= b) by {
                assert forall|i: int| 0 <= i < a.len() implies a[i] == b[i] by {
                    if i > 0 {
                        assert(a[i] == a.drop_first()[i - 1]);
                        assert(b[i] == b.drop_first()[i - 1]);
                    }
                }
            }
        } else {
            lemma_lex_total(a.drop_first(), b.drop_first());
        }
    }
}

/// Whether the bytes of `a` sort strictly before those of `b`.
pub fn bytes_less(a: &[u8], b: &[u8]) -> (r: bool)
    ensures
        r == lex_lt(a@, b@),
{
    let mut i: usize = 0;
    proof {
        assert(a@.skip(0) =~= a@);
        assert(b@.skip(0) =~= b@);
    }
    while i < a.len() && i < b.len()
        invariant
            i <= a@.len(),
            i <= b@.len(),
            lex_lt(a@, b@) == lex_lt(a@.skip(i as int), b@.skip(i as int)),
        decreases a@.len() - i,
    {
        if a[i] != b[i] {
            return a[i] < b[i];
        }
        proof {
            assert(a@.skip(i as int).drop_first() =~= a@.skip(i + 1));
            assert(b@.skip(i as int).drop_first() =~= b@.skip(i + 1));
        }
        i = i + 1;
    }
    i < b.len()
}

/// Whether `a` and `b` hold the same bytes.
pub fn bytes_equal(a: &[u8], b: &[u8]) -> (r: bool)
    ensures
        r == (a@ == b@),
{
    if a.len() != b.len() {
        return false;
    }
    let mut i: usize = 0;
    while i < a.len()
        invariant
            i <= a@.len(),
            a@.len() == b@.len(),
            forall|k: int| 0 <= k < i ==> a@[k] == b@[k],
        decreases a@.len() - i,
    {
        if a[i] != b[i] {
            return false;
        }
        i = i + 1;
    }
    proof {
        assert(a@ =~= b@);
    }
    true
}

/// The little-endian 64-bit number in `b[off .. off + 8]`.
pub open spec fn le_u64(b: Seq<u8>, off: int) -> u64 {
    (b[off] + 0x100 * b[off + 1] + 0x1_0000 * b[off + 2] + 0x100_0000 * b[off + 3] + 0x1_0000_0000
        * b[off + 4] + 0x100_0000_0000 * b[off + 5] + 0x1_0000_0000_0000 * b[off + 6]
        + 0x100_0000_0000_0000 * b[off + 7]) as u64
}

/// The number at `off` is the number at the start of the eight bytes from
/// `off`.
pub proof fn lemma_le_u64_window(b: Seq<u8>, off: int)
    requires
        0 <= off,
        off + 8 <= b.len(),
    ensures
        le_u64(b, off) == le_u64(b.subrange(off, off + 8), 0),
{
    let w = b.subrange(off, off + 8);
    assert(w[0] == b[off] && w[1] == b[off + 1] && w[2] == b[off + 2] && w[3] == b[off + 3]);
    assert(w[4] == b[off + 4] && w[5] == b[off + 5] && w[6] == b[off + 6] && w[7] == b[off + 7]);
}

/// The eight little-endian bytes of `x`.
pub open spec fn u64_le(x: u64) -> Seq<u8> {
    seq![
        (x % 0x100) as u8,
        ((x / 0x100) % 0x100) as u8,
        ((x / 0x1_0000) % 0x100) as u8,
        ((x / 0x100_0000) % 0x100) as u8,
        ((x / 0x1_0000_0000) % 0x100) as u8,
        ((x / 0x100_0000_0000) % 0x100) as u8,
        ((x / 0x1_0000_0000_0000) % 0x100) as u8,
        ((x / 0x100_0000_0000_0000) % 0x100) as u8,
    ]
}

/// The little-endian 64-bit number in `b[off .. off + 8]`.
pub fn read_u64_le(b: &[u8], off: usize) -> (r: u64)
    requires
        off + 8 <= b@.len(),
    ensures
        r == le_u64(b@, off as int),
{
    let _n = b.len();
    let v = b[off] as u64 + 0x100 * (b[off + 1] as u64) + 0x1_0000 * (b[off + 2] as u64) + 0x100_0000
        * (b[off + 3] as u64) + 0x1_0000_0000 * (b[off + 4] as u64) + 0x100_0000_0000 * (b[off
        + 5] as u64) + 0x1_0000_0000_0000 * (b[off + 6] as u64) + 0x100_0000_0000_0000 * (b[off
        + 7] as u64);
    v
}

/// Appends the eight little-endian bytes of `x` to `out`.
pub fn push_u64_le(out: &mut Vec<u8>, x: u64)
    ensures
        final(out)@ == old(out)@ + u64_le(x),
{
    out.push((x % 0x100) as u8);
    out.push(((x / 0x100) % 0x100) as u8);
    out.push(((x / 0x1_0000) % 0x100) as u8);
    out.push(((x / 0x100_0000) % 0x100) as u8);
    out.push(((x / 0x1_0000_0000) % 0x100) as u8);
    out.push(((x / 0x100_0000_0000) % 0x100) as u8);
    out.push(((x / 0x1_0000_0000_0000) % 0x100) as u8);
    out.push(((x / 0x100_0000_0000_0000) % 0x100) as u8);
    proof {
        assert(out@ =~= old(out)@ + u64_le(x));
    }
}

/// Reading back the bytes of a number gives the number.
pub proof fn law_u64_le_roundtrip(x: u64)
    ensures
        le_u64(u64_le(x), 0) == x,
{
    let b = u64_le(x);
    assert(x == (x % 0x100) + 0x100 * ((x / 0x100) % 0x100) + 0x1_0000 * ((x / 0x1_0000) % 0x100)
        + 0x100_0000 * ((x / 0x100_0000) % 0x100) + 0x1_0000_0000 * ((x / 0x1_0000_0000) % 0x100)
        + 0x100_0000_0000 * ((x / 0x100_0000_0000) % 0x100) + 0x1_0000_0000_0000 * ((x
        / 0x1_0000_0000_0000) % 0x100) + 0x100_0000_0000_0000 * ((x / 0x100_0000_0000_0000) % 0x100))
        by (bit_vector);
}

/// The first index at or after `from` where `s` holds `b`, or the length
/// of `s` where there is none.
pub open spec fn find_byte_from(s: Seq<u8>, b: u8, from: int) -> int
    decreases s.len() - from,
{
    if from >= s.len() {
        s.len() as int
    } else if s[from] == b {
        from
    } else {
        find_byte_from(s, b, from + 1)
    }
}

pub proof fn lemma_find_byte_from(s: Seq<u8>, b: u8, from: int)
    requires
        0 <= from <= s.len(),
    ensures
        from <= find_byte_from(s, b, from) <= s.len(),
        find_byte_from(s, b, from) < s.len() ==> s[find_byte_from(s, b, from)] == b,
        forall|k: int| from <= k < find_byte_from(s, b, from) ==> s[k] != b,
    decreases s.len() - from,
{
    if from < s.len() && s[from] != b {
        lemma_find_byte_from(s, b, from + 1);
    }
}

/// The pieces of `s` from `from` on between the occurrences of `b`.
pub open spec fn split_bytes_from(s: Seq<u8>, b: u8, from: int) -> Seq<Seq<u8>>
    decreases s.len() - from,
{
    let i = find_byte_from(s, b, from);
    if from < 0 || from > s.len() || i >= s.len() {
        seq![s.subrange(from, s.len() as int)]
    } else {
        proof {
            lemma_find_byte_from(s, b, from);
        }
        seq![s.subrange(from, i)] + split_bytes_from(s, b, i + 1)
    }
}

/// The first index at or after `from` where `s` holds `b`, or the length
/// of `s`.
pub fn find_byte(s: &[u8], b: u8, from: usize) -> (r: usize)
    requires
        from <= s@.len(),
    ensures
        r == find_byte_from(s@, b, from as int),
{
    let mut i: usize = from;
    while i < s.len()
        invariant
            from <= i <= s@.len(),
            find_byte_from(s@, b, from as int) == find_byte_from(s@, b, i as int),
        decreases s@.len() - i,
    {
        if s[i] == b {
            return i;
        }
        i = i + 1;
    }
    i
}

} // verus!
