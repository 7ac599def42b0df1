//! The names and the header of the parameter pool files the trainer shares
//! between runs: decimal file names built from the model's shape, and the
//! 36-byte header that records a teacher model's shape.
use crate::bytes::{
    le32, lemma_u32_le, push_bytes, push_u32_le, read_u32_le, splice, u32_le, write_bytes,
};
use vstd::prelude::*;

verus! {

broadcast use vstd::slice::group_slice_axioms;

/// The capacity a path buffer must have.
pub const POOL_PATH_CAP: usize = 128;

/// The length of a teacher file's header.
pub const TEACHER_HEADER: usize = 36;

/// `"/tmp/.nnn_pool/lm_"`.
pub open spec fn pool_prefix() -> Seq<u8> {
    seq![
        0x2fu8, 0x74, 0x6d, 0x70, 0x2f, 0x2e, 0x6e, 0x6e, 0x6e, 0x5f, 0x70, 0x6f, 0x6f, 0x6c,
        0x2f, 0x6c, 0x6d, 0x5f,
    ]
}

/// `"/tmp/.nnn_pool/teacher_"`.
pub open spec fn teacher_prefix() -> Seq<u8> {
    seq![
        0x2fu8, 0x74, 0x6d, 0x70, 0x2f, 0x2e, 0x6e, 0x6e, 0x6e, 0x5f, 0x70, 0x6f, 0x6f, 0x6c,
        0x2f, 0x74, 0x65, 0x61, 0x63, 0x68, 0x65, 0x72, 0x5f,
    ]
}

/// `".bin"` and the terminating zero byte.
pub open spec fn bin_suffix() -> Seq<u8> {
    seq![0x2eu8, 0x62, 0x69, 0x6e, 0x00]
}

fn pool_prefix_bytes() -> (r: Vec<u8>)
    ensures
        r@ == pool_prefix(),
{
    let r: Vec<u8> = vec![
        0x2fu8, 0x74, 0x6d, 0x70, 0x2f, 0x2e, 0x6e, 0x6e, 0x6e, 0x5f, 0x70, 0x6f, 0x6f, 0x6c,
        0x2f, 0x6c, 0x6d, 0x5f,
    ];
    assert(r@ =~= pool_prefix());
    r
}

fn teacher_prefix_bytes() -> (r: Vec<u8>)
    ensures
        r@ == teacher_prefix(),
{
    let r: Vec<u8> = vec![
        0x2fu8, 0x74, 0x6d, 0x70, 0x2f, 0x2e, 0x6e, 0x6e, 0x6e, 0x5f, 0x70, 0x6f, 0x6f, 0x6c,
        0x2f, 0x74, 0x65, 0x61, 0x63, 0x68, 0x65, 0x72, 0x5f,
    ];
    assert(r@ =~= teacher_prefix());
    r
}

fn bin_suffix_bytes() -> (r: Vec<u8>)
    ensures
        r@ == bin_suffix(),
{
    let r: Vec<u8> = vec![0x2eu8, 0x62, 0x69, 0x6e, 0x00];
    assert(r@ =~= bin_suffix());
    r
}

/// The ASCII digits of `v`, least significant first; none for zero.
pub open spec fn digits_lsf(v: nat) -> Seq<u8>
    decreases v,
{
    if v == 0 {
        Seq::empty()
    } else {
        seq![(48 + v % 10) as u8] + digits_lsf(v / 10)
    }
}

/// The decimal representation of `v` in ASCII, most significant digit
/// first, without leading zeros; `"0"` for zero.
pub open spec fn decimal(v: nat) -> Seq<u8> {
    if v == 0 {
        seq![48u8]
    } else {
        digits_lsf(v).reverse()
    }
}

/// `10^k`.
pub open spec fn pow10(k: nat) -> nat
    decreases k,
{
    if k == 0 {
        1
    } else {
        10 * pow10((k - 1) as nat)
    }
}

proof fn lemma_digits_len(v: nat, k: nat)
    requires
        v < pow10(k),
    ensures
        digits_lsf(v).len() <= k,
    decreases v,
{
    if v > 0 {
        if k > 0 {
            let p = pow10((k - 1) as nat);
            assert(v / 10 < p) by (nonlinear_arith)
                requires
                    v < 10 * p,
            ;
            lemma_digits_len(v / 10, (k - 1) as nat);
        }
    }
}

/// A `u32` has at most ten decimal digits.
proof fn lemma_decimal_len(v: u32)
    ensures
        1 <= decimal(v as nat).len() <= 10,
{
    reveal_with_fuel(pow10, 11);
    assert(pow10(10) == 10000000000);
    lemma_digits_len(v as nat, 10);
    if v > 0 {
        assert(digits_lsf(v as nat).len() >= 1);
    }
}

/// The decimal digits of `value`.
fn decimal_digits(value: u32) -> (r: Vec<u8>)
    ensures
        r@ == decimal(value as nat),
        1 <= r@.len() <= 10,
{
    proof {
        lemma_decimal_len(value);
    }
    let mut tmp: Vec<u8> = Vec::new();
    if value == 0 {
        tmp.push(48u8);
        return tmp;
    }
    let mut v = value;
    while v > 0
        invariant
            tmp@ + digits_lsf(v as nat) == digits_lsf(value as nat),
        decreases v,
    {
        let d = (v % 10) as u8;
        proof {
            assert(digits_lsf(v as nat) == seq![(48 + v % 10) as u8] + digits_lsf(
                (v / 10) as nat,
            ));
            assert(tmp@.push((48 + d) as u8) + digits_lsf((v / 10) as nat) =~= tmp@ + digits_lsf(
                v as nat,
            ));
        }
        tmp.push(48 + d);
        v = v / 10;
    }
    assert(tmp@ =~= digits_lsf(value as nat));
    let n = tmp.len();
    let mut out: Vec<u8> = Vec::new();
    let mut k: usize = 0;
    while k < n
        invariant
            n == tmp@.len(),
            k <= n,
            out@ == tmp@.reverse().subrange(0, k as int),
        decreases n - k,
    {
        out.push(tmp[n - 1 - k]);
        k = k + 1;
        assert(out@ =~= tmp@.reverse().subrange(0, k as int));
    }
    assert(out@ =~= tmp@.reverse());
    out
}

/// Writes the decimal digits of `value` into `buf` from `off` and returns
/// the offset just past them.
pub fn write_u32(buf: &mut [u8], off: usize, value: u32) -> (end: usize)
    requires
        off + 10 <= old(buf)@.len(),
    ensures
        end == off + decimal(value as nat).len(),
        final(buf)@ == splice(old(buf)@, off as int, decimal(value as nat)),
{
    let blen = buf.len();
    let digits = decimal_digits(value);
    write_bytes(buf, off, &digits);
    off + digits.len()
}

/// The shape of a language model as the pool files record it; the RoPE
/// base is kept as its `f32` bit pattern.
#[derive(Clone, Copy, Debug, PartialEq, Eq, Structural)]
pub struct LmShape {
    pub vocab_size: usize,
    pub context_len: usize,
    pub hidden_size: usize,
    pub ffw_size: usize,
    pub num_layers: usize,
    pub num_heads: usize,
    pub num_kv_heads: usize,
    pub head_hidden: usize,
    pub rope_theta_bits: u32,
}

/// The name of the pool file of a model: the prefix, then the vocabulary,
/// hidden, feed-forward and layer sizes and the parameter count in decimal,
/// separated by underscores, then `".bin"` and a zero byte. Sizes are taken
/// modulo 2^32.
pub open spec fn pool_path_bytes(cfg: LmShape, param_count: usize) -> Seq<u8> {
    pool_prefix() + decimal(cfg.vocab_size as u32 as nat) + seq![0x5fu8] + decimal(
        cfg.hidden_size as u32 as nat,
    ) + seq![0x5fu8] + decimal(cfg.ffw_size as u32 as nat) + seq![0x5fu8] + decimal(
        cfg.num_layers as u32 as nat,
    ) + seq![0x5fu8] + decimal(param_count as u32 as nat) + bin_suffix()
}

/// Writes the pool file name of a model to the start of `buf` and returns
/// its length; `None`, writing nothing, when `buf` is shorter than
/// `POOL_PATH_CAP`.
pub fn pool_path(cfg: &LmShape, param_count: usize, buf: &mut [u8]) -> (r: Option<usize>)
    ensures
        old(buf)@.len() < POOL_PATH_CAP ==> r is None && final(buf)@ == old(buf)@,
        old(buf)@.len() >= POOL_PATH_CAP ==> r == Some(pool_path_bytes(*cfg, param_count).len() as usize)
            && final(buf)@ == splice(old(buf)@, 0, pool_path_bytes(*cfg, param_count)),
{
    if buf.len() < POOL_PATH_CAP {
        return None;
    }
    let mut path = pool_prefix_bytes();
    push_bytes(&mut path, &decimal_digits(cfg.vocab_size as u32));
    path.push(0x5f);
    push_bytes(&mut path, &decimal_digits(cfg.hidden_size as u32));
    path.push(0x5f);
    push_bytes(&mut path, &decimal_digits(cfg.ffw_size as u32));
    path.push(0x5f);
    push_bytes(&mut path, &decimal_digits(cfg.num_layers as u32));
    path.push(0x5f);
    push_bytes(&mut path, &decimal_digits(param_count as u32));
    push_bytes(&mut path, &bin_suffix_bytes());
    assert(path@ =~= pool_path_bytes(*cfg, param_count));
    write_bytes(buf, 0, &path);
    Some(path.len())
}

/// The name of the teacher file for a vocabulary size.
pub open spec fn teacher_path_bytes(vocab: u32) -> Seq<u8> {
    teacher_prefix() + decimal(vocab as nat) + bin_suffix()
}

/// Writes the teacher file name for `vocab` to the start of `buf` and
/// returns its length; `None`, writing nothing, when `buf` is shorter than
/// `POOL_PATH_CAP`.
pub fn teacher_path(vocab: u32, buf: &mut [u8]) -> (r: Option<usize>)
    ensures
        old(buf)@.len() < POOL_PATH_CAP ==> r is None && final(buf)@ == old(buf)@,
        old(buf)@.len() >= POOL_PATH_CAP ==> r == Some(teacher_path_bytes(vocab).len() as usize)
            && final(buf)@ == splice(old(buf)@, 0, teacher_path_bytes(vocab)),
{
    if buf.len() < POOL_PATH_CAP {
        return None;
    }
    let mut path = teacher_prefix_bytes();
    push_bytes(&mut path, &decimal_digits(vocab));
    push_bytes(&mut path, &bin_suffix_bytes());
    assert(path@ =~= teacher_path_bytes(vocab));
    write_bytes(buf, 0, &path);
    Some(path.len())
}

/// The teacher header: the nine fields of the shape, each a little-endian
/// `u32`, sizes taken modulo 2^32.
pub open spec fn header_bytes(cfg: LmShape) -> Seq<u8> {
    u32_le(cfg.vocab_size as u32) + u32_le(cfg.context_len as u32) + u32_le(
        cfg.hidden_size as u32,
    ) + u32_le(cfg.ffw_size as u32) + u32_le(cfg.num_layers as u32) + u32_le(
        cfg.num_heads as u32,
    ) + u32_le(cfg.num_kv_heads as u32) + u32_le(cfg.head_hidden as u32) + u32_le(
        cfg.rope_theta_bits,
    )
}

/// Writes the teacher header of `cfg` into the first 36 bytes of `buf`.
pub fn build_header(cfg: &LmShape, buf: &mut [u8])
    requires
        old(buf)@.len() == TEACHER_HEADER,
    ensures
        final(buf)@ == header_bytes(*cfg),
{
    let mut h: Vec<u8> = Vec::new();
    push_u32_le(&mut h, cfg.vocab_size as u32);
    push_u32_le(&mut h, cfg.context_len as u32);
    push_u32_le(&mut h, cfg.hidden_size as u32);
    push_u32_le(&mut h, cfg.ffw_size as u32);
    push_u32_le(&mut h, cfg.num_layers as u32);
    push_u32_le(&mut h, cfg.num_heads as u32);
    push_u32_le(&mut h, cfg.num_kv_heads as u32);
    push_u32_le(&mut h, cfg.head_hidden as u32);
    push_u32_le(&mut h, cfg.rope_theta_bits);
    assert(h@ =~= header_bytes(*cfg));
    let ghost b0 = buf@;
    write_bytes(buf, 0, &h);
    assert(buf@ =~= header_bytes(*cfg));
}

/// The shape a teacher header records.
pub open spec fn shape_of_header(h: Seq<u8>) -> LmShape {
    LmShape {
        vocab_size: le32(h, 0) as usize,
        context_len: le32(h, 4) as usize,
        hidden_size: le32(h, 8) as usize,
        ffw_size: le32(h, 12) as usize,
        num_layers: le32(h, 16) as usize,
        num_heads: le32(h, 20) as usize,
        num_kv_heads: le32(h, 24) as usize,
        head_hidden: le32(h, 28) as usize,
        rope_theta_bits: le32(h, 32) as u32,
    }
}

/// Reads the shape back out of a teacher header.
pub fn parse_header(buf: &[u8]) -> (r: LmShape)
    requires
        buf@.len() == TEACHER_HEADER,
    ensures
        r == shape_of_header(buf@),
{
    LmShape {
        vocab_size: read_u32_le(buf, 0) as usize,
        context_len: read_u32_le(buf, 4) as usize,
        hidden_size: read_u32_le(buf, 8) as usize,
        ffw_size: read_u32_le(buf, 12) as usize,
        num_layers: read_u32_le(buf, 16) as usize,
        num_heads: read_u32_le(buf, 20) as usize,
        num_kv_heads: read_u32_le(buf, 24) as usize,
        head_hidden: read_u32_le(buf, 28) as usize,
        rope_theta_bits: read_u32_le(buf, 32),
    }
}

/// A teacher header reads back the shape it was built from, each size taken
/// modulo 2^32.
pub proof fn law_teacher_header_roundtrip(cfg: LmShape)
    ensures
        shape_of_header(header_bytes(cfg)) == (LmShape {
            vocab_size: cfg.vocab_size as u32 as usize,
            context_len: cfg.context_len as u32 as usize,
            hidden_size: cfg.hidden_size as u32 as usize,
            ffw_size: cfg.ffw_size as u32 as usize,
            num_layers: cfg.num_layers as u32 as usize,
            num_heads: cfg.num_heads as u32 as usize,
            num_kv_heads: cfg.num_kv_heads as u32 as usize,
            head_hidden: cfg.head_hidden as u32 as usize,
            rope_theta_bits: cfg.rope_theta_bits,
        }),
{
    let h = header_bytes(cfg);
    lemma_u32_le(cfg.vocab_size as u32);
    lemma_u32_le(cfg.context_len as u32);
    lemma_u32_le(cfg.hidden_size as u32);
    lemma_u32_le(cfg.ffw_size as u32);
    lemma_u32_le(cfg.num_layers as u32);
    lemma_u32_le(cfg.num_heads as u32);
    lemma_u32_le(cfg.num_kv_heads as u32);
    lemma_u32_le(cfg.head_hidden as u32);
    lemma_u32_le(cfg.rope_theta_bits);
    assert(le32(h, 0) == le32(u32_le(cfg.vocab_size as u32), 0));
    assert(le32(h, 4) == le32(u32_le(cfg.context_len as u32), 0));
    assert(le32(h, 8) == le32(u32_le(cfg.hidden_size as u32), 0));
    assert(le32(h, 12) == le32(u32_le(cfg.ffw_size as u32), 0));
    assert(le32(h, 16) == le32(u32_le(cfg.num_layers as u32), 0));
    assert(le32(h, 20) == le32(u32_le(cfg.num_heads as u32), 0));
    assert(le32(h, 24) == le32(u32_le(cfg.num_kv_heads as u32), 0));
    assert(le32(h, 28) == le32(u32_le(cfg.head_hidden as u32), 0));
    assert(le32(h, 32) == le32(u32_le(cfg.rope_theta_bits), 0));
}

} // verus!
