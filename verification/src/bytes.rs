//! Little-endian integers inside byte buffers.
use vstd::prelude::*;

verus! {

broadcast use vstd::slice::group_slice_axioms;

/// The little-endian value of `s[off]`, `s[off + 1]`.
pub open spec fn le16(s: Seq<u8>, off: int) -> int {
    s[off] + 256 * s[off + 1]
}

/// The little-endian value of the four bytes of `s` from `off`.
pub open spec fn le32(s: Seq<u8>, off: int) -> int {
    s[off] + 256 * s[off + 1] + 65536 * s[off + 2] + 16777216 * s[off + 3]
}

/// The little-endian value of the eight bytes of `s` from `off`.
pub open spec fn le64(s: Seq<u8>, off: int) -> int {
    le32(s, off) + 4294967296 * le32(s, off + 4)
}

/// The two little-endian bytes of `v`.
pub open spec fn u16_le(v: u16) -> Seq<u8> {
    seq![(v % 256) as u8, (v / 256) as u8]
}

/// The four little-endian bytes of `v`.
pub open spec fn u32_le(v: u32) -> Seq<u8> {
    seq![
        (v % 256) as u8,
        ((v / 256) % 256) as u8,
        ((v / 65536) % 256) as u8,
        (v / 16777216) as u8,
    ]
}

/// The eight little-endian bytes of `v`.
pub open spec fn u64_le(v: u64) -> Seq<u8> {
    u32_le((v % 4294967296) as u32) + u32_le((v / 4294967296) as u32)
}

/// `s` with the bytes of `part` written over it from `off`.
pub open spec fn splice(s: Seq<u8>, off: int, part: Seq<u8>) -> Seq<u8> {
    s.subrange(0, off) + part + s.subrange(off + part.len(), s.len() as int)
}

pub proof fn lemma_u16_le(v: u16)
    ensures
        u16_le(v).len() == 2,
        le16(u16_le(v), 0) == v,
{
}

pub proof fn lemma_u32_le(v: u32)
    ensures
        u32_le(v).len() == 4,
        le32(u32_le(v), 0) == v,
{
    let b0 = v % 256;
    let b1 = (v / 256) % 256;
    let b2 = (v / 65536) % 256;
    let b3 = v / 16777216;
    assert(b0 + 256 * b1 + 65536 * b2 + 16777216 * b3 == v) by (nonlinear_arith)
        requires
            b0 == v % 256,
            b1 == (v / 256) % 256,
            b2 == (v / 65536) % 256,
            b3 == v / 16777216,
    ;
}

pub proof fn lemma_u64_le(v: u64)
    ensures
        u64_le(v).len() == 8,
        le64(u64_le(v), 0) == v,
{
    let lo = (v % 4294967296) as u32;
    let hi = (v / 4294967296) as u32;
    lemma_u32_le(lo);
    lemma_u32_le(hi);
    let s = u64_le(v);
    assert(le32(s, 0) == le32(u32_le(lo), 0));
    assert(le32(s, 4) == le32(u32_le(hi), 0));
    assert(lo + 4294967296 * hi == v) by (nonlinear_arith)
        requires
            lo == v % 4294967296,
            hi == v / 4294967296,
    ;
}

/// Reading back what was written: the value of a spliced field, and the
/// bytes outside it.
pub proof fn lemma_splice(s: Seq<u8>, off: int, part: Seq<u8>)
    requires
        0 <= off,
        off + part.len() <= s.len(),
    ensures
        splice(s, off, part).len() == s.len(),
        forall|i: int| 0 <= i < part.len() ==> #[trigger] splice(s, off, part)[off + i] == part[i],
        forall|i: int|
            0 <= i < s.len() && !(off <= i < off + part.len()) ==> #[trigger] splice(s, off, part)[i]
                == s[i],
{
}

/// Reads a little-endian `u16` at `off`.
pub fn read_u16_le(b: &[u8], off: usize) -> (v: u16)
    requires
        off + 2 <= b@.len(),
    ensures
        v == le16(b@, off as int),
{
    let b0 = b[off];
    let b1 = b[off + 1];
    let v = (b0 as u16) | ((b1 as u16) << 8u16);
    assert(v == b0 + 256 * b1) by (bit_vector)
        requires
            v == (b0 as u16) | ((b1 as u16) << 8u16),
    ;
    v
}

/// Reads a little-endian `u32` at `off`.
pub fn read_u32_le(b: &[u8], off: usize) -> (v: u32)
    requires
        off + 4 <= b@.len(),
    ensures
        v == le32(b@, off as int),
{
    let b0 = b[off];
    let b1 = b[off + 1];
    let b2 = b[off + 2];
    let b3 = b[off + 3];
    let v = (b0 as u32) | ((b1 as u32) << 8u32) | ((b2 as u32) << 16u32) | ((b3 as u32) << 24u32);
    assert(v == b0 + 256 * b1 + 65536 * b2 + 16777216 * b3) by (bit_vector)
        requires
            v == (b0 as u32) | ((b1 as u32) << 8u32) | ((b2 as u32) << 16u32) | ((b3 as u32)
                << 24u32),
    ;
    v
}

/// Reads a little-endian `u64` at `off`.
pub fn read_u64_le(b: &[u8], off: usize) -> (v: u64)
    requires
        off + 8 <= b@.len(),
    ensures
        v == le64(b@, off as int),
{
    let _n = b.len();
    let lo = read_u32_le(b, off);
    let hi = read_u32_le(b, off + 4);
    let v = (lo as u64) | ((hi as u64) << 32u64);
    assert(v == lo + 4294967296 * hi) by (bit_vector)
        requires
            v == (lo as u64) | ((hi as u64) << 32u64),
    ;
    v
}

/// Writes `v` as two little-endian bytes at `off`.
pub fn write_u16_le(out: &mut [u8], off: usize, v: u16)
    requires
        off + 2 <= old(out)@.len(),
    ensures
        final(out)@ == splice(old(out)@, off as int, u16_le(v)),
{
    let b0 = (v & 0xff) as u8;
    let b1 = (v >> 8u16) as u8;
    assert(b0 == v % 256 && b1 == v / 256) by (bit_vector)
        requires
            b0 == (v & 0xff) as u8,
            b1 == (v >> 8u16) as u8,
    ;
    out[off] = b0;
    out[off + 1] = b1;
    assert(out@ =~= splice(old(out)@, off as int, u16_le(v)));
}

/// Writes `v` as four little-endian bytes at `off`.
pub fn write_u32_le(out: &mut [u8], off: usize, v: u32)
    requires
        off + 4 <= old(out)@.len(),
    ensures
        final(out)@ == splice(old(out)@, off as int, u32_le(v)),
{
    let b0 = (v & 0xff) as u8;
    let b1 = ((v >> 8u32) & 0xff) as u8;
    let b2 = ((v >> 16u32) & 0xff) as u8;
    let b3 = (v >> 24u32) as u8;
    assert(b0 == v % 256 && b1 == (v / 256) % 256 && b2 == (v / 65536) % 256 && b3 == v
        / 16777216) by (bit_vector)
        requires
            b0 == (v & 0xff) as u8,
            b1 == ((v >> 8u32) & 0xff) as u8,
            b2 == ((v >> 16u32) & 0xff) as u8,
            b3 == (v >> 24u32) as u8,
    ;
    out[off] = b0;
    out[off + 1] = b1;
    out[off + 2] = b2;
    out[off + 3] = b3;
    assert(out@ =~= splice(old(out)@, off as int, u32_le(v)));
}

/// Writes `v` as eight little-endian bytes at `off`.
pub fn write_u64_le(out: &mut [u8], off: usize, v: u64)
    requires
        off + 8 <= old(out)@.len(),
    ensures
        final(out)@ == splice(old(out)@, off as int, u64_le(v)),
{
    let lo = (v & 0xffff_ffff) as u32;
    let hi = (v >> 32u64) as u32;
    assert(lo == v % 4294967296 && hi == v / 4294967296) by (bit_vector)
        requires
            lo == (v & 0xffff_ffff) as u32,
            hi == (v >> 32u64) as u32,
    ;
    let _n = out.len();
    let ghost s0 = out@;
    write_u32_le(out, off, lo);
    write_u32_le(out, off + 4, hi);
    assert(out@ =~= splice(s0, off as int, u64_le(v)));
}

/// Copies `src` into `out` from `off`.
pub fn write_bytes(out: &mut [u8], off: usize, src: &[u8])
    requires
        off + src@.len() <= old(out)@.len(),
    ensures
        final(out)@ == splice(old(out)@, off as int, src@),
{
    let out_len = out.len();
    let ghost s0 = out@;
    let mut i: usize = 0;
    while i < src.len()
        invariant
            off + src@.len() <= out@.len(),
            out_len == s0.len(),
            out@.len() == s0.len(),
            i <= src@.len(),
            forall|j: int| 0 <= j < off ==> #[trigger] out@[j] == s0[j],
            forall|j: int| 0 <= j < i ==> #[trigger] out@[off + j] == src@[j],
            forall|j: int| off + i <= j < out@.len() ==> #[trigger] out@[j] == s0[j],
        decreases src@.len() - i,
    {
        out[off + i] = src[i];
        i = i + 1;
    }
    assert forall|k: int| off <= k < off + src@.len() implies out@[k] == src@[k - off] by {
        assert(out@[off + (k - off)] == src@[k - off]);
    }
    assert(out@ =~= splice(s0, off as int, src@));
}

/// Sets `out[start..end]` to `value`.
pub fn fill_bytes(out: &mut [u8], start: usize, end: usize, value: u8)
    requires
        start <= end <= old(out)@.len(),
    ensures
        final(out)@ == splice(old(out)@, start as int, Seq::new((end - start) as nat, |i: int| value)),
{
    let ghost s0 = out@;
    let mut i: usize = start;
    while i < end
        invariant
            start <= i <= end <= out@.len(),
            out@.len() == s0.len(),
            forall|j: int| 0 <= j < start ==> #[trigger] out@[j] == s0[j],
            forall|j: int| start <= j < i ==> #[trigger] out@[j] == value,
            forall|j: int| i <= j < out@.len() ==> #[trigger] out@[j] == s0[j],
        decreases end - i,
    {
        out[i] = value;
        i = i + 1;
    }
    assert(out@ =~= splice(s0, start as int, Seq::new((end - start) as nat, |i: int| value)));
}

/// Whether the bytes of `a` equal those of `b`, compared without an early exit.
pub fn bytes_equal(a: &[u8], b: &[u8]) -> (r: bool)
    ensures
        r <==> a@ == b@,
{
    if a.len() != b.len() {
        return false;
    }
    let mut diff: u8 = 0;
    let mut i: usize = 0;
    while i < a.len()
        invariant
            a@.len() == b@.len(),
            i <= a@.len(),
            (diff == 0) <==> (forall|j: int| 0 <= j < i ==> a@[j] == b@[j]),
        decreases a@.len() - i,
    {
        let x = a[i];
        let y = b[i];
        let d = diff | (x ^ y);
        assert((d == 0) <==> (diff == 0 && x == y)) by (bit_vector)
            requires
                d == diff | (x ^ y),
        ;
        diff = d;
        i = i + 1;
    }
    if diff == 0 {
        assert(a@ =~= b@);
    }
    diff == 0
}

/// Appends the two little-endian bytes of `x` to `v`.
pub fn push_u16_le(v: &mut Vec<u8>, x: u16)
    ensures
        final(v)@ == old(v)@ + u16_le(x),
{
    let b0 = (x & 0xff) as u8;
    let b1 = (x >> 8u16) as u8;
    assert(b0 == x % 256 && b1 == x / 256) by (bit_vector)
        requires
            b0 == (x & 0xff) as u8,
            b1 == (x >> 8u16) as u8,
    ;
    let ghost v0 = v@;
    v.push(b0);
    v.push(b1);
    assert(v@ =~= v0 + u16_le(x));
}

/// Appends the four little-endian bytes of `x` to `v`.
pub fn push_u32_le(v: &mut Vec<u8>, x: u32)
    ensures
        final(v)@ == old(v)@ + u32_le(x),
{
    let b0 = (x & 0xff) as u8;
    let b1 = ((x >> 8u32) & 0xff) as u8;
    let b2 = ((x >> 16u32) & 0xff) as u8;
    let b3 = (x >> 24u32) as u8;
    assert(b0 == x % 256 && b1 == (x / 256) % 256 && b2 == (x / 65536) % 256 && b3 == x
        / 16777216) by (bit_vector)
        requires
            b0 == (x & 0xff) as u8,
            b1 == ((x >> 8u32) & 0xff) as u8,
            b2 == ((x >> 16u32) & 0xff) as u8,
            b3 == (x >> 24u32) as u8,
    ;
    let ghost v0 = v@;
    v.push(b0);
    v.push(b1);
    v.push(b2);
    v.push(b3);
    assert(v@ =~= v0 + u32_le(x));
}

/// Appends the eight little-endian bytes of `x` to `v`.
pub fn push_u64_le(v: &mut Vec<u8>, x: u64)
    ensures
        final(v)@ == old(v)@ + u64_le(x),
{
    let lo = (x & 0xffff_ffff) as u32;
    let hi = (x >> 32u64) as u32;
    assert(lo == x % 4294967296 && hi == x / 4294967296) by (bit_vector)
        requires
            lo == (x & 0xffff_ffff) as u32,
            hi == (x >> 32u64) as u32,
    ;
    let ghost v0 = v@;
    push_u32_le(v, lo);
    push_u32_le(v, hi);
    assert(v@ =~= v0 + u64_le(x));
}

/// Appends the bytes of `src` to `v`.
pub fn push_bytes(v: &mut Vec<u8>, src: &[u8])
    ensures
        final(v)@ == old(v)@ + src@,
{
    let ghost v0 = v@;
    let mut i: usize = 0;
    while i < src.len()
        invariant
            i <= src@.len(),
            v@ == v0 + src@.subrange(0, i as int),
        decreases src@.len() - i,
    {
        v.push(src[i]);
        i = i + 1;
        assert(v@ =~= v0 + src@.subrange(0, i as int));
    }
    assert(src@.subrange(0, src@.len() as int) =~= src@);
}

/// Writing `a` and then `b` right after it is writing `a + b`.
pub proof fn lemma_splice_concat(s: Seq<u8>, off: int, a: Seq<u8>, b: Seq<u8>)
    requires
        0 <= off,
        off + a.len() + b.len() <= s.len(),
    ensures
        splice(splice(s, off, a), off + a.len(), b) == splice(s, off, a + b),
{
    assert(splice(splice(s, off, a), off + a.len(), b) =~= splice(s, off, a + b));
}

// ---------------------------------------------------------------- regions

/// Whether the bytes of `s` from `a` are `part`.
pub open spec fn at(s: Seq<u8>, a: int, part: Seq<u8>) -> bool {
    0 <= a && a + part.len() <= s.len() && s.subrange(a, a + part.len() as int) == part
}

pub proof fn lemma_at_read(s: Seq<u8>, a: int, part: Seq<u8>, j: int)
    requires
        at(s, a, part),
        0 <= j < part.len(),
    ensures
        s[a + j] == part[j],
{
    assert(s.subrange(a, a + part.len() as int)[j] == s[a + j]);
}

pub proof fn lemma_at_split(s: Seq<u8>, a: int, x: Seq<u8>, y: Seq<u8>)
    requires
        at(s, a, x + y),
    ensures
        at(s, a, x),
        at(s, a + x.len(), y),
{
    assert forall|j: int| 0 <= j < x.len() implies s.subrange(a, a + x.len() as int)[j] == x[j] by {
        lemma_at_read(s, a, x + y, j);
    }
    assert(s.subrange(a, a + x.len() as int) =~= x);
    assert forall|j: int| 0 <= j < y.len() implies s.subrange(
        a + x.len(),
        a + x.len() + y.len(),
    )[j] == y[j] by {
        lemma_at_read(s, a, x + y, x.len() + j);
    }
    assert(s.subrange(a + x.len(), a + x.len() + y.len()) =~= y);
}

pub proof fn lemma_at_sub(s: Seq<u8>, a: int, part: Seq<u8>, b: int, c: int)
    requires
        at(s, a, part),
        a <= b <= c <= a + part.len(),
    ensures
        s.subrange(b, c) == part.subrange(b - a, c - a),
{
    assert forall|j: int| 0 <= j < c - b implies s.subrange(b, c)[j] == part.subrange(
        b - a,
        c - a,
    )[j] by {
        lemma_at_read(s, a, part, b - a + j);
    }
    assert(s.subrange(b, c) =~= part.subrange(b - a, c - a));
}

pub proof fn lemma_at_le16(s: Seq<u8>, a: int, v: u16)
    requires
        at(s, a, u16_le(v)),
    ensures
        le16(s, a) == v,
{
    lemma_u16_le(v);
    lemma_at_read(s, a, u16_le(v), 0);
    lemma_at_read(s, a, u16_le(v), 1);
}

pub proof fn lemma_at_le32(s: Seq<u8>, a: int, v: u32)
    requires
        at(s, a, u32_le(v)),
    ensures
        le32(s, a) == v,
{
    lemma_u32_le(v);
    lemma_at_read(s, a, u32_le(v), 0);
    lemma_at_read(s, a, u32_le(v), 1);
    lemma_at_read(s, a, u32_le(v), 2);
    lemma_at_read(s, a, u32_le(v), 3);
}

pub proof fn lemma_at_le64(s: Seq<u8>, a: int, v: u64)
    requires
        at(s, a, u64_le(v)),
    ensures
        le64(s, a) == v,
{
    lemma_u64_le(v);
    let x = u64_le(v);
    lemma_at_split(s, a, u32_le((v % 4294967296) as u32), u32_le((v / 4294967296) as u32));
    lemma_at_le32(s, a, (v % 4294967296) as u32);
    lemma_at_le32(s, a + 4, (v / 4294967296) as u32);
    lemma_u32_le((v % 4294967296) as u32);
    lemma_u32_le((v / 4294967296) as u32);
}

/// A region inside the first `n` bytes is still there once the rest is cut.
pub proof fn lemma_at_prefix(s: Seq<u8>, n: int, a: int, part: Seq<u8>)
    requires
        at(s, a, part),
        a + part.len() <= n <= s.len(),
    ensures
        at(s.subrange(0, n), a, part),
{
    assert(s.subrange(0, n).subrange(a, a + part.len() as int) =~= s.subrange(
        a,
        a + part.len() as int,
    ));
}

/// A region of a prefix is a region of the whole.
pub proof fn lemma_at_from_prefix(s: Seq<u8>, n: int, a: int, part: Seq<u8>)
    requires
        at(s.subrange(0, n), a, part),
        0 <= n <= s.len(),
    ensures
        at(s, a, part),
{
    assert(s.subrange(0, n).subrange(a, a + part.len() as int) =~= s.subrange(
        a,
        a + part.len() as int,
    ));
}

pub proof fn lemma_at_splice_new(s: Seq<u8>, off: int, part: Seq<u8>)
    requires
        0 <= off,
        off + part.len() <= s.len(),
    ensures
        at(splice(s, off, part), off, part),
        splice(s, off, part).len() == s.len(),
{
    assert(splice(s, off, part).subrange(off, off + part.len() as int) =~= part);
}

pub proof fn lemma_at_splice_keep(s: Seq<u8>, off: int, part: Seq<u8>, a: int, x: Seq<u8>)
    requires
        at(s, a, x),
        0 <= off,
        off + part.len() <= s.len(),
        off + part.len() <= a || a + x.len() <= off,
    ensures
        at(splice(s, off, part), a, x),
{
    assert(splice(s, off, part).subrange(a, a + x.len() as int) =~= s.subrange(
        a,
        a + x.len() as int,
    ));
}

} // verus!
