//! Small vector and colour records of animation data, and their big-endian
//! byte forms: each component in turn, a 16-bit integer as two bytes and an
//! 8-bit one as one.

use vstd::prelude::*;

use crate::bytes::{holds_at, lemma_holds_at_split, lemma_u16_roundtrip, push_u16_be, read_u16_be, u16_at, u16_bytes};
use crate::nucc::xfbin::XfbinError;

verus! {

/// Three 16-bit components.
#[derive(Debug, Clone, Copy, PartialEq, Eq)]
pub struct Vector3Short {
    pub x: i16,
    pub y: i16,
    pub z: i16,
}

/// A quaternion with 16-bit components.
#[derive(Debug, Clone, Copy, PartialEq, Eq)]
pub struct QuaternionShort {
    pub x: i16,
    pub y: i16,
    pub z: i16,
    pub w: i16,
}

/// An 8-bit colour.
#[derive(Debug, Clone, Copy, PartialEq, Eq)]
#[allow(clippy::upper_case_acronyms)]
pub struct RGB {
    pub r: u8,
    pub g: u8,
    pub b: u8,
}

/// The big-endian `i16` stored at `p` in `s`.
pub open spec fn i16_at(s: Seq<u8>, p: int) -> i16 {
    u16_at(s, p) as i16
}

/// The big-endian encoding of `v`, in two's complement.
pub open spec fn i16_bytes(v: i16) -> Seq<u8> {
    u16_bytes(v as u16)
}

/// Reading back the encoding of an `i16` gives it again.
pub proof fn lemma_i16_roundtrip(s: Seq<u8>, p: int, v: i16)
    requires
        holds_at(s, p, i16_bytes(v)),
    ensures
        i16_at(s, p) == v,
{
    lemma_u16_roundtrip(s, p, v as u16);
    assert(((v as u16) as i16) == v) by (bit_vector);
}

/// The three components at `p`.
pub open spec fn vector3_short_at(s: Seq<u8>, p: int) -> Vector3Short {
    Vector3Short { x: i16_at(s, p), y: i16_at(s, p + 2), z: i16_at(s, p + 4) }
}

/// The six bytes of `v`.
pub open spec fn vector3_short_bytes(v: Vector3Short) -> Seq<u8> {
    i16_bytes(v.x) + i16_bytes(v.y) + i16_bytes(v.z)
}

/// The four components at `p`.
pub open spec fn quaternion_short_at(s: Seq<u8>, p: int) -> QuaternionShort {
    QuaternionShort {
        x: i16_at(s, p),
        y: i16_at(s, p + 2),
        z: i16_at(s, p + 4),
        w: i16_at(s, p + 6),
    }
}

/// The eight bytes of `q`.
pub open spec fn quaternion_short_bytes(q: QuaternionShort) -> Seq<u8> {
    i16_bytes(q.x) + i16_bytes(q.y) + i16_bytes(q.z) + i16_bytes(q.w)
}

/// The colour at `p`.
pub open spec fn rgb_at(s: Seq<u8>, p: int) -> RGB {
    RGB { r: s[p], g: s[p + 1], b: s[p + 2] }
}

/// The three bytes of `c`.
pub open spec fn rgb_bytes(c: RGB) -> Seq<u8> {
    seq![c.r, c.g, c.b]
}

/// Reading back the bytes of a vector gives it again.
pub proof fn lemma_vector3_short_roundtrip(s: Seq<u8>, p: int, v: Vector3Short)
    requires
        holds_at(s, p, vector3_short_bytes(v)),
    ensures
        vector3_short_at(s, p) == v,
{
    lemma_holds_at_split(s, p, i16_bytes(v.x) + i16_bytes(v.y), i16_bytes(v.z));
    lemma_holds_at_split(s, p, i16_bytes(v.x), i16_bytes(v.y));
    lemma_i16_roundtrip(s, p, v.x);
    lemma_i16_roundtrip(s, p + 2, v.y);
    lemma_i16_roundtrip(s, p + 4, v.z);
}

/// Reading back the bytes of a quaternion gives it again.
pub proof fn lemma_quaternion_short_roundtrip(s: Seq<u8>, p: int, q: QuaternionShort)
    requires
        holds_at(s, p, quaternion_short_bytes(q)),
    ensures
        quaternion_short_at(s, p) == q,
{
    let a = i16_bytes(q.x) + i16_bytes(q.y) + i16_bytes(q.z);
    lemma_holds_at_split(s, p, a, i16_bytes(q.w));
    lemma_holds_at_split(s, p, i16_bytes(q.x) + i16_bytes(q.y), i16_bytes(q.z));
    lemma_holds_at_split(s, p, i16_bytes(q.x), i16_bytes(q.y));
    lemma_i16_roundtrip(s, p, q.x);
    lemma_i16_roundtrip(s, p + 2, q.y);
    lemma_i16_roundtrip(s, p + 4, q.z);
    lemma_i16_roundtrip(s, p + 6, q.w);
}

/// Reading back the bytes of a colour gives it again.
pub proof fn lemma_rgb_roundtrip(s: Seq<u8>, p: int, c: RGB)
    requires
        holds_at(s, p, rgb_bytes(c)),
    ensures
        rgb_at(s, p) == c,
{
    assert(s[p] == s.subrange(p, p + 3)[0]);
    assert(s[p + 1] == s.subrange(p, p + 3)[1]);
    assert(s[p + 2] == s.subrange(p, p + 3)[2]);
}

/// The big-endian `i16` at `pos`.
fn read_i16_be(bytes: &[u8], pos: usize) -> (v: i16)
    requires
        pos + 2 <= bytes@.len(),
    ensures
        v == i16_at(bytes@, pos as int),
{
    read_u16_be(bytes, pos) as i16
}

/// Appends the big-endian encoding of `v`.
fn push_i16_be(out: &mut Vec<u8>, v: i16)
    ensures
        final(out)@ == old(out)@ + i16_bytes(v),
{
    push_u16_be(out, v as u16);
}

impl Vector3Short {
    /// Reads a vector at `pos`.
    pub fn read_be(bytes: &[u8], pos: usize) -> (r: Result<(Vector3Short, usize), XfbinError>)
        ensures
            match r {
                Ok((v, q)) => pos + 6 <= bytes@.len() && v == vector3_short_at(bytes@, pos as int)
                    && q == pos + 6,
                Err(e) => bytes@.len() < pos + 6 && e == XfbinError::UnexpectedEof,
            },
    {
        if pos > bytes.len() || bytes.len() - pos < 6 {
            return Err(XfbinError::UnexpectedEof);
        }
        let v = Vector3Short {
            x: read_i16_be(bytes, pos),
            y: read_i16_be(bytes, pos + 2),
            z: read_i16_be(bytes, pos + 4),
        };
        Ok((v, pos + 6))
    }

    /// Appends the six bytes of the vector.
    pub fn write_be(&self, out: &mut Vec<u8>)
        ensures
            final(out)@ == old(out)@ + vector3_short_bytes(*self),
    {
        push_i16_be(out, self.x);
        push_i16_be(out, self.y);
        push_i16_be(out, self.z);
        assert(final(out)@ =~= old(out)@ + vector3_short_bytes(*self));
    }
}

impl QuaternionShort {
    /// Reads a quaternion at `pos`.
    pub fn read_be(bytes: &[u8], pos: usize) -> (r: Result<(QuaternionShort, usize), XfbinError>)
        ensures
            match r {
                Ok((v, q)) => pos + 8 <= bytes@.len() && v == quaternion_short_at(bytes@, pos as int)
                    && q == pos + 8,
                Err(e) => bytes@.len() < pos + 8 && e == XfbinError::UnexpectedEof,
            },
    {
        if pos > bytes.len() || bytes.len() - pos < 8 {
            return Err(XfbinError::UnexpectedEof);
        }
        let v = QuaternionShort {
            x: read_i16_be(bytes, pos),
            y: read_i16_be(bytes, pos + 2),
            z: read_i16_be(bytes, pos + 4),
            w: read_i16_be(bytes, pos + 6),
        };
        Ok((v, pos + 8))
    }

    /// Appends the eight bytes of the quaternion.
    pub fn write_be(&self, out: &mut Vec<u8>)
        ensures
            final(out)@ == old(out)@ + quaternion_short_bytes(*self),
    {
        push_i16_be(out, self.x);
        push_i16_be(out, self.y);
        push_i16_be(out, self.z);
        push_i16_be(out, self.w);
        assert(final(out)@ =~= old(out)@ + quaternion_short_bytes(*self));
    }
}

impl RGB {
    /// Reads a colour at `pos`.
    pub fn read_be(bytes: &[u8], pos: usize) -> (r: Result<(RGB, usize), XfbinError>)
        ensures
            match r {
                Ok((c, q)) => pos + 3 <= bytes@.len() && c == rgb_at(bytes@, pos as int) && q
                    == pos + 3,
                Err(e) => bytes@.len() < pos + 3 && e == XfbinError::UnexpectedEof,
            },
    {
        if pos > bytes.len() || bytes.len() - pos < 3 {
            return Err(XfbinError::UnexpectedEof);
        }
        Ok((RGB { r: bytes[pos], g: bytes[pos + 1], b: bytes[pos + 2] }, pos + 3))
    }

    /// Appends the three bytes of the colour.
    pub fn write_be(&self, out: &mut Vec<u8>)
        ensures
            final(out)@ == old(out)@ + rgb_bytes(*self),
    {
        out.push(self.r);
        out.push(self.g);
        out.push(self.b);
        assert(final(out)@ =~= old(out)@ + rgb_bytes(*self));
    }
}

} // verus!
