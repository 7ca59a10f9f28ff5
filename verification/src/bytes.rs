//! Big-endian integers and raw byte runs, as the XFBIN format stores them.

use vstd::prelude::*;

verus! {

/// The `u16` whose big-endian bytes are `b0 b1`.
pub open spec fn be_u16(b0: u8, b1: u8) -> u16 {
    ((b0 as u16) << 8u16) | (b1 as u16)
}

/// The `u32` whose big-endian bytes are `b0 b1 b2 b3`.
pub open spec fn be_u32(b0: u8, b1: u8, b2: u8, b3: u8) -> u32 {
    ((b0 as u32) << 24u32) | ((b1 as u32) << 16u32) | ((b2 as u32) << 8u32) | (b3 as u32)
}

/// The big-endian `u16` stored at `p` in `s`.
pub open spec fn u16_at(s: Seq<u8>, p: int) -> u16 {
    be_u16(s[p], s[p + 1])
}

/// The big-endian `u32` stored at `p` in `s`.
pub open spec fn u32_at(s: Seq<u8>, p: int) -> u32 {
    be_u32(s[p], s[p + 1], s[p + 2], s[p + 3])
}

/// The big-endian encoding of `v`.
pub open spec fn u16_bytes(v: u16) -> Seq<u8> {
    seq![(v >> 8u16) as u8, v as u8]
}

/// The big-endian encoding of `v`.
pub open spec fn u32_bytes(v: u32) -> Seq<u8> {
    seq![(v >> 24u32) as u8, (v >> 16u32) as u8, (v >> 8u32) as u8, v as u8]
}

/// `n` zero bytes.
pub open spec fn zeros(n: nat) -> Seq<u8> {
    Seq::new(n, |i: int| 0u8)
}

/// `s` holds `w` at position `p`.
pub open spec fn holds_at(s: Seq<u8>, p: int, w: Seq<u8>) -> bool {
    &&& 0 <= p
    &&& p + w.len() <= s.len()
    &&& s.subrange(p, p + w.len()) == w
}

/// A window holding `a + b` holds `a`, and `b` right after it.
pub proof fn lemma_holds_at_split(s: Seq<u8>, p: int, a: Seq<u8>, b: Seq<u8>)
    requires
        holds_at(s, p, a + b),
    ensures
        holds_at(s, p, a),
        holds_at(s, p + a.len(), b),
{
    let w = s.subrange(p, p + (a + b).len());
    assert forall|k: int| 0 <= k < a.len() implies s.subrange(p, p + a.len())[k] == a[k] by {
        assert(w[k] == s[p + k]);
        assert(w[k] == (a + b)[k]);
    }
    assert(s.subrange(p, p + a.len()) =~= a);
    assert forall|k: int| 0 <= k < b.len() implies s.subrange(
        p + a.len(),
        p + a.len() + b.len(),
    )[k] == b[k] by {
        assert(w[a.len() + k] == s[p + a.len() + k]);
        assert(w[a.len() + k] == (a + b)[a.len() + k]);
    }
    assert(s.subrange(p + a.len(), p + a.len() + b.len()) =~= b);
}

/// The byte at offset `k` of a window is the byte at `p + k`.
pub proof fn lemma_holds_at_index(s: Seq<u8>, p: int, w: Seq<u8>, k: int)
    requires
        holds_at(s, p, w),
        0 <= k < w.len(),
    ensures
        s[p + k] == w[k],
{
    assert(s.subrange(p, p + w.len())[k] == s[p + k]);
}

/// From `p` on, `s` holds the beginning of `w`, and ends before `w` does.
pub open spec fn cut_at(s: Seq<u8>, p: int, w: Seq<u8>) -> bool {
    &&& 0 <= p <= s.len()
    &&& s.len() < p + w.len()
    &&& s.subrange(p, s.len() as int) == w.take(s.len() - p)
}

/// Where `s` holds the beginning of `w` from `p` on, it holds each shorter
/// beginning in full.
pub proof fn lemma_cut_at_prefix(s: Seq<u8>, p: int, w: Seq<u8>, k: int)
    requires
        cut_at(s, p, w),
        0 <= k <= s.len() - p,
    ensures
        holds_at(s, p, w.take(k)),
{
    assert forall|i: int| 0 <= i < k implies s.subrange(p, p + k)[i] == w.take(k)[i] by {
        assert(s.subrange(p, s.len() as int)[i] == s[p + i]);
        assert(w.take(s.len() - p)[i] == w[i]);
    }
    assert(s.subrange(p, p + k) =~= w.take(k));
}

/// Where `s` holds the beginning of `a + b` from `p` on and all of `a` fits,
/// it holds `a`, and after it the beginning of `b`.
pub proof fn lemma_cut_at_split(s: Seq<u8>, p: int, a: Seq<u8>, b: Seq<u8>)
    requires
        cut_at(s, p, a + b),
        p + a.len() <= s.len(),
    ensures
        holds_at(s, p, a),
        cut_at(s, p + a.len(), b),
{
    lemma_cut_at_prefix(s, p, a + b, a.len() as int);
    assert((a + b).take(a.len() as int) =~= a);
    let q = p + a.len();
    assert forall|i: int| 0 <= i < s.len() - q implies s.subrange(q, s.len() as int)[i] == b.take(
        s.len() - q,
    )[i] by {
        assert(s.subrange(p, s.len() as int)[a.len() + i] == s[q + i]);
        assert((a + b).take(s.len() - p)[a.len() + i] == b[i]);
    }
    assert(s.subrange(q, s.len() as int) =~= b.take(s.len() - q));
}

/// A window held by `s` is held by any beginning of `s` that contains it.
pub proof fn lemma_holds_at_take(s: Seq<u8>, p: int, w: Seq<u8>, c: int)
    requires
        holds_at(s, p, w),
        p + w.len() <= c <= s.len(),
    ensures
        holds_at(s.take(c), p, w),
{
    assert(s.take(c).subrange(p, p + w.len()) =~= s.subrange(p, p + w.len()));
}

/// Cutting `s` inside a window it holds leaves the beginning of the window.
pub proof fn lemma_holds_at_cut(s: Seq<u8>, p: int, w: Seq<u8>, c: int)
    requires
        holds_at(s, p, w),
        p <= c <= p + w.len(),
    ensures
        s.take(c).subrange(p, c) == w.take(c - p),
{
    assert forall|i: int| 0 <= i < c - p implies s.take(c).subrange(p, c)[i] == w.take(c - p)[i] by {
        assert(s.subrange(p, p + w.len())[i] == s[p + i]);
    }
    assert(s.take(c).subrange(p, c) =~= w.take(c - p));
}

/// Reading back an encoded `u16` gives the value.
pub proof fn lemma_u16_roundtrip(s: Seq<u8>, p: int, v: u16)
    requires
        holds_at(s, p, u16_bytes(v)),
    ensures
        u16_at(s, p) == v,
{
    assert(s[p] == s.subrange(p, p + 2)[0]);
    assert(s[p + 1] == s.subrange(p, p + 2)[1]);
    let b0 = (v >> 8u16) as u8;
    let b1 = v as u8;
    assert(be_u16(b0, b1) == v) by (bit_vector)
        requires
            b0 == (v >> 8u16) as u8,
            b1 == v as u8,
    ;
}

/// Reading back an encoded `u32` gives the value.
pub proof fn lemma_u32_roundtrip(s: Seq<u8>, p: int, v: u32)
    requires
        holds_at(s, p, u32_bytes(v)),
    ensures
        u32_at(s, p) == v,
{
    let w = s.subrange(p, p + 4);
    assert(s[p] == w[0] && s[p + 1] == w[1] && s[p + 2] == w[2] && s[p + 3] == w[3]);
    let b0 = (v >> 24u32) as u8;
    let b1 = (v >> 16u32) as u8;
    let b2 = (v >> 8u32) as u8;
    let b3 = v as u8;
    assert(be_u32(b0, b1, b2, b3) == v) by (bit_vector)
        requires
            b0 == (v >> 24u32) as u8,
            b1 == (v >> 16u32) as u8,
            b2 == (v >> 8u32) as u8,
            b3 == v as u8,
    ;
}

/// The big-endian `u16` at `pos`.
pub fn read_u16_be(bytes: &[u8], pos: usize) -> (v: u16)
    requires
        pos + 2 <= bytes@.len(),
    ensures
        v == u16_at(bytes@, pos as int),
{
    ((bytes[pos] as u16) << 8u16) | (bytes[pos + 1] as u16)
}

/// The big-endian `u32` at `pos`.
pub fn read_u32_be(bytes: &[u8], pos: usize) -> (v: u32)
    requires
        pos + 4 <= bytes@.len(),
    ensures
        v == u32_at(bytes@, pos as int),
{
    ((bytes[pos] as u32) << 24u32) | ((bytes[pos + 1] as u32) << 16u32) | ((bytes[pos + 2] as u32)
        << 8u32) | (bytes[pos + 3] as u32)
}

/// Appends the big-endian encoding of `v`.
pub fn push_u16_be(out: &mut Vec<u8>, v: u16)
    ensures
        final(out)@ == old(out)@ + u16_bytes(v),
{
    out.push((v >> 8u16) as u8);
    out.push(v as u8);
    assert(final(out)@ =~= old(out)@ + u16_bytes(v));
}

/// Appends the big-endian encoding of `v`.
pub fn push_u32_be(out: &mut Vec<u8>, v: u32)
    ensures
        final(out)@ == old(out)@ + u32_bytes(v),
{
    out.push((v >> 24u32) as u8);
    out.push((v >> 16u32) as u8);
    out.push((v >> 8u32) as u8);
    out.push(v as u8);
    assert(final(out)@ =~= old(out)@ + u32_bytes(v));
}

/// Appends `n` zero bytes.
pub fn push_zeros(out: &mut Vec<u8>, n: usize)
    ensures
        final(out)@ == old(out)@ + zeros(n as nat),
{
    let mut i: usize = 0;
    while i < n
        invariant
            i <= n,
            out@ == old(out)@ + zeros(i as nat),
        decreases n - i,
    {
        out.push(0u8);
        i = i + 1;
        assert(out@ =~= old(out)@ + zeros(i as nat));
    }
}

/// Appends the bytes of `src`.
pub fn push_bytes(out: &mut Vec<u8>, src: &[u8])
    ensures
        final(out)@ == old(out)@ + src@,
{
    let mut i: usize = 0;
    while i < src.len()
        invariant
            i <= src@.len(),
            out@ == old(out)@ + src@.subrange(0, i as int),
        decreases src@.len() - i,
    {
        out.push(src[i]);
        i = i + 1;
        assert(out@ =~= old(out)@ + src@.subrange(0, i as int));
    }
    assert(src@.subrange(0, src@.len() as int) =~= src@);
}

/// The bytes `bytes[start..end]`, copied.
pub fn copy_range(bytes: &[u8], start: usize, end: usize) -> (r: Vec<u8>)
    requires
        start <= end <= bytes@.len(),
    ensures
        r@ == bytes@.subrange(start as int, end as int),
{
    let part = vstd::slice::slice_subrange(bytes, start, end);
    vstd::slice::slice_to_vec(part)
}

/// `a` and `b` hold the same bytes.
pub fn bytes_eq(a: &[u8], b: &[u8]) -> (r: bool)
    ensures
        r == (a@ == b@),
{
    if a.len() != b.len() {
        return false;
    }
    let mut i: usize = 0;
    while i < a.len()
        invariant
            a@.len() == b@.len(),
            i <= a@.len(),
            forall|k: int| 0 <= k < i ==> a@[k] == b@[k],
        decreases a@.len() - i,
    {
        if a[i] != b[i] {
            return false;
        }
        i = i + 1;
    }
    assert(a@ =~= b@);
    true
}

} // verus!
