//! A byte-oriented LZ77 codec: an 8-byte header ("LZ77" and the original
//! length), then groups of up to eight tokens, each group led by a flag byte
//! whose bit `k` tells whether token `k` is a back-reference (two bytes:
//! 12-bit distance, 4-bit length minus three) or a literal byte.
use vstd::prelude::*;
use crate::bytes::{le32, read_u32_le, u32_le, write_u32_le, splice, lemma_u32_le, lemma_splice};

verus! {

broadcast use vstd::slice::group_slice_axioms;

pub const LZ77_HEADER_LEN: usize = 8;

pub const LZ77_HASH_SIZE: usize = 512;

pub const LZ77_WINDOW: usize = 4095;

pub const LZ77_MIN_MATCH: usize = 3;

pub const LZ77_MAX_MATCH: usize = 18;

/// The magic bytes "LZ77".
pub open spec fn lz77_magic() -> Seq<u8> {
    seq![0x4cu8, 0x5au8, 0x37u8, 0x37u8]
}

/// Whether `input` starts with a complete LZ77 header.
pub open spec fn has_lz77_header(input: Seq<u8>) -> bool {
    input.len() >= 8 && input.subrange(0, 4) == lz77_magic()
}

/// The original length recorded in the header.
pub open spec fn lz77_stored_len(input: Seq<u8>) -> int {
    le32(input, 4)
}

/// Appends `len` bytes to `out`, each copied from `offset` positions back,
/// stopping early once `out` reaches `limit` bytes.
pub open spec fn copy_back(out: Seq<u8>, offset: int, len: nat, limit: int) -> Seq<u8>
    decreases len,
{
    if len == 0 || out.len() >= limit {
        out
    } else {
        copy_back(out.push(out[out.len() - offset]), offset, (len - 1) as nat, limit)
    }
}

/// The 16-bit word of a back-reference stored as bytes `b0`, `b1`.
pub open spec fn match_word(b0: u8, b1: u8) -> u16 {
    ((b0 as u16) << 8u16) | (b1 as u16)
}

/// Decoding from byte `pos` at the start of a group, with `out` produced so
/// far and `n` bytes expected in all.
pub open spec fn lz_stream(input: Seq<u8>, pos: int, out: Seq<u8>, n: int) -> Option<Seq<u8>>
    decreases input.len() - pos, 0int,
{
    if pos < input.len() && out.len() < n {
        lz_group(input, pos + 1, out, n, input[pos], 0)
    } else if out.len() == n {
        Some(out)
    } else {
        None
    }
}

/// Decoding token `bit` of a group whose flag byte is `flags`.
pub open spec fn lz_group(input: Seq<u8>, pos: int, out: Seq<u8>, n: int, flags: u8, bit: int) -> Option<
    Seq<u8>,
>
    decreases input.len() - pos, if 0 <= bit <= 8 {
        9 - bit
    } else {
        1
    },
{
    if bit >= 8 || out.len() >= n || pos >= input.len() {
        lz_stream(input, pos, out, n)
    } else if (flags >> (bit as u8)) & 1u8 == 1u8 {
        if pos + 2 > input.len() {
            None
        } else {
            let w = match_word(input[pos], input[pos + 1]);
            let offset = (w >> 4u16) as int;
            let len = (w & 0x0fu16) as int + 3;
            if offset == 0 || out.len() < offset {
                None
            } else {
                lz_group(input, pos + 2, copy_back(out, offset, len as nat, n), n, flags, bit + 1)
            }
        }
    } else {
        lz_group(input, pos + 1, out.push(input[pos]), n, flags, bit + 1)
    }
}

/// What `lz77_decompress` recovers from `input`, if it is well formed.
pub open spec fn lz77_decode(input: Seq<u8>) -> Option<Seq<u8>> {
    if !has_lz77_header(input) {
        None
    } else {
        lz_stream(input, 8, Seq::empty(), lz77_stored_len(input))
    }
}

/// The worst-case size of a compressed stream for `n` input bytes.
pub open spec fn lz77_bound(n: int) -> int {
    8 + n + n / 8 + 2
}

/// Upper bound on the compressed size of `input_len` bytes.
pub fn lz77_compressed_bound(input_len: usize) -> (r: usize)
    requires
        lz77_bound(input_len as int) <= usize::MAX,
    ensures
        r == lz77_bound(input_len as int),
{
    LZ77_HEADER_LEN + input_len + (input_len / 8) + 2
}

/// The original length recorded in an LZ77 header.
pub fn lz77_decompressed_len(input: &[u8]) -> (r: Option<usize>)
    ensures
        r is Some <==> has_lz77_header(input@),
        r matches Some(v) ==> v == lz77_stored_len(input@),
{
    if input.len() < LZ77_HEADER_LEN {
        return None;
    }
    if !(input[0] == 0x4c && input[1] == 0x5a && input[2] == 0x37 && input[3] == 0x37) {
        assert(input@.subrange(0, 4) != lz77_magic()) by {
            if input@.subrange(0, 4) == lz77_magic() {
                assert(input@.subrange(0, 4)[0] == input@[0]);
                assert(input@.subrange(0, 4)[1] == input@[1]);
                assert(input@.subrange(0, 4)[2] == input@[2]);
                assert(input@.subrange(0, 4)[3] == input@[3]);
            }
        }
        return None;
    }
    assert(input@.subrange(0, 4) =~= lz77_magic());
    Some(read_u32_le(input, 4) as usize)
}

/// The multiplicative hash of three bytes, reduced to a bucket: the sum of
/// the bytes times three odd constants, modulo the bucket count. (The
/// products wrap at the width of `usize`, a multiple of the bucket count,
/// so wrapping does not change the bucket.)
pub open spec fn hash3_spec(a: u8, b: u8, c: u8) -> int {
    (a * 2654435761int + b * 2246822519int + c * 2246822313int) % 512
}

proof fn lemma_mod_shift(x: int, t: int, k: int)
    ensures
        (x - 512 * k * t) % 512 == x % 512,
{
    vstd::arithmetic::div_mod::lemma_mod_multiples_vanish(-(k * t), x, 512);
    assert(512 * (-(k * t)) + x == x - 512 * k * t) by (nonlinear_arith);
}

/// The hash bucket of the three bytes starting a candidate match.
pub fn lz77_hash3(a: u8, b: u8, c: u8) -> (h: usize)
    ensures
        h < LZ77_HASH_SIZE,
        h == hash3_spec(a, b, c),
{
    let m1 = (a as usize).wrapping_mul(2654435761);
    let m2 = (b as usize).wrapping_mul(2246822519);
    let m3 = (c as usize).wrapping_mul(2246822313);
    let s12 = m1.wrapping_add(m2);
    let h = s12.wrapping_add(m3);
    let r = h & (LZ77_HASH_SIZE - 1);
    assert(r == h % 512) by (bit_vector)
        requires
            r == h & 511usize,
    ;
    proof {
        let big: int = usize::MAX as int + 1;
        assert(big == 0x1_0000_0000 || big == 0x1_0000_0000_0000_0000);
        let k: int = big / 512;
        assert(big == 512 * k);
        let p1: int = a * 2654435761int;
        let p2: int = b * 2246822519int;
        let p3: int = c * 2246822313int;
        vstd::arithmetic::div_mod::lemma_fundamental_div_mod(p1, big);
        vstd::arithmetic::div_mod::lemma_fundamental_div_mod(p2, big);
        vstd::arithmetic::div_mod::lemma_fundamental_div_mod(p3, big);
        let t1 = p1 / big;
        let t2 = p2 / big;
        let t3 = p3 / big;
        assert(m1 == p1 - big * t1);
        assert(m2 == p2 - big * t2);
        assert(m3 == p3 - big * t3);
        let w12: int = if m1 + m2 > usize::MAX {
            1
        } else {
            0
        };
        let w: int = if s12 + m3 > usize::MAX {
            1
        } else {
            0
        };
        assert(s12 == m1 + m2 - big * w12);
        assert(h == s12 + m3 - big * w);
        let t = t1 + t2 + t3 + w12 + w;
        assert(h == p1 + p2 + p3 - big * t) by (nonlinear_arith)
            requires
                h == s12 + m3 - big * w,
                s12 == m1 + m2 - big * w12,
                m1 == p1 - big * t1,
                m2 == p2 - big * t2,
                m3 == p3 - big * t3,
                t == t1 + t2 + t3 + w12 + w,
        ;
        assert(big * t == 512 * k * t) by (nonlinear_arith)
            requires
                big == 512 * k,
        ;
        lemma_mod_shift(p1 + p2 + p3, t, k);
    }
    r
}

/// Decompresses `input` into the start of `output`; true when the stream is
/// well formed and decodes to exactly the recorded length.
pub fn lz77_decompress(input: &[u8], output: &mut [u8]) -> (r: bool)
    ensures
        r <==> (lz77_decode(input@) is Some && lz77_stored_len(input@) <= old(output)@.len()),
        final(output)@.len() == old(output)@.len(),
        r ==> final(output)@.subrange(0, lz77_stored_len(input@)) == lz77_decode(input@).unwrap(),
        r ==> final(output)@.subrange(lz77_stored_len(input@), old(output)@.len() as int)
            == old(output)@.subrange(lz77_stored_len(input@), old(output)@.len() as int),
{
    let orig_len = match lz77_decompressed_len(input) {
        Some(v) => v,
        None => return false,
    };
    let out_cap = output.len();
    if out_cap < orig_len {
        return false;
    }
    let in_len = input.len();
    let ghost n = orig_len as int;
    let ghost target = lz77_decode(input@);
    let ghost old_out = output@;
    let mut in_pos: usize = LZ77_HEADER_LEN;
    let mut out_pos: usize = 0;
    assert(output@.subrange(0, 0) =~= Seq::<u8>::empty());
    while in_pos < in_len && out_pos < orig_len
        invariant
            in_len == input@.len(),
            out_cap == output@.len(),
            out_cap == old_out.len(),
            old_out == old(output)@,
            target == lz77_decode(input@),
            n == lz77_stored_len(input@),
            orig_len == n,
            out_pos <= orig_len <= out_cap,
            in_pos <= in_len,
            lz_stream(input@, in_pos as int, output@.subrange(0, out_pos as int), n) == target,
            output@.subrange(orig_len as int, out_cap as int) == old_out.subrange(
                orig_len as int,
                out_cap as int,
            ),
        decreases in_len - in_pos,
    {
        let flags = input[in_pos];
        in_pos = in_pos + 1;
        let ghost pos0 = in_pos;
        let mut bit: u8 = 0;
        while bit < 8
            invariant
                in_len == input@.len(),
                out_cap == output@.len(),
                out_cap == old_out.len(),
                old_out == old(output)@,
                target == lz77_decode(input@),
                orig_len == n,
                out_pos <= orig_len <= out_cap,
                in_pos <= in_len,
                pos0 <= in_pos,
                bit <= 8,
                lz_group(input@, in_pos as int, output@.subrange(0, out_pos as int), n, flags, bit as int)
                    == target,
                output@.subrange(orig_len as int, out_cap as int) == old_out.subrange(
                    orig_len as int,
                    out_cap as int,
                ),
            ensures
                out_pos <= orig_len,
                in_pos <= in_len,
                pos0 <= in_pos,
                lz_stream(input@, in_pos as int, output@.subrange(0, out_pos as int), n) == target,
                output@.subrange(orig_len as int, out_cap as int) == old_out.subrange(
                    orig_len as int,
                    out_cap as int,
                ),
            decreases 8 - bit,
        {
            if out_pos >= orig_len {
                break;
            }
            if in_pos >= in_len {
                break;
            }
            let ghost prefix = output@.subrange(0, out_pos as int);
            if (flags >> bit) & 1 == 1 {
                if in_len - in_pos < 2 {
                    return false;
                }
                let enc: u16 = ((input[in_pos] as u16) << 8u16) | (input[in_pos + 1] as u16);
                assert(enc == match_word(input@[in_pos as int], input@[in_pos + 1]));
                in_pos = in_pos + 2;
                let offset = (enc >> 4u16) as usize;
                let len = ((enc & 0x0f) as usize) + LZ77_MIN_MATCH;
                if offset == 0 || out_pos < offset {
                    return false;
                }
                let start = out_pos - offset;
                let ghost total = len as nat;
                let mut j: usize = 0;
                while j < len && out_pos < orig_len
                    invariant
                        out_cap == output@.len(),
                        out_cap == old_out.len(),
                        orig_len == n,
                        out_pos <= orig_len <= out_cap,
                        start + offset + j == out_pos,
                        offset >= 1,
                        j <= len,
                        copy_back(prefix, offset as int, total, n) == copy_back(
                            output@.subrange(0, out_pos as int),
                            offset as int,
                            (len - j) as nat,
                            n,
                        ),
                        output@.subrange(orig_len as int, out_cap as int) == old_out.subrange(
                            orig_len as int,
                            out_cap as int,
                        ),
                    decreases len - j,
                {
                    let ghost cur = output@.subrange(0, out_pos as int);
                    let v = output[start + j];
                    assert(v == cur[cur.len() - offset]);
                    assert(copy_back(cur, offset as int, (len - j) as nat, n) == copy_back(
                        cur.push(v),
                        offset as int,
                        (len - (j + 1)) as nat,
                        n,
                    ));
                    output[out_pos] = v;
                    out_pos = out_pos + 1;
                    j = j + 1;
                    assert(output@.subrange(0, out_pos as int) =~= cur.push(cur[cur.len() - offset]));
                    assert(output@.subrange(orig_len as int, out_cap as int) =~= old_out.subrange(
                        orig_len as int,
                        out_cap as int,
                    ));
                }
            } else {
                let v = input[in_pos];
                output[out_pos] = v;
                in_pos = in_pos + 1;
                out_pos = out_pos + 1;
                assert(output@.subrange(0, out_pos as int) =~= prefix.push(v));
                assert(output@.subrange(orig_len as int, out_cap as int) =~= old_out.subrange(
                    orig_len as int,
                    out_cap as int,
                ));
            }
            bit = bit + 1;
        }
    }
    out_pos == orig_len
}


/// One token of a compressed stream: a literal byte, or a copy of `len`
/// bytes from `offset` bytes back.
pub enum LzToken {
    Literal(u8),
    Match(int, int),
}

/// The bytes a token adds to the output.
pub open spec fn token_len(t: LzToken) -> int {
    match t {
        LzToken::Literal(_) => 1,
        LzToken::Match(_, l) => l,
    }
}

/// The output after decoding token `t` after `out`.
pub open spec fn apply_token(out: Seq<u8>, t: LzToken) -> Seq<u8> {
    match t {
        LzToken::Literal(b) => out.push(b),
        LzToken::Match(o, l) => copy_back(out, o, l as nat, out.len() + l),
    }
}

/// Whether `t` can be encoded and decoded after `out_len` bytes of output.
pub open spec fn token_ok(out_len: int, t: LzToken) -> bool {
    match t {
        LzToken::Literal(_) => true,
        LzToken::Match(o, l) => 1 <= o <= 4095 && o <= out_len && 3 <= l <= 18,
    }
}

/// The output after decoding `toks` in order after `out`.
pub open spec fn apply_tokens(out: Seq<u8>, toks: Seq<LzToken>) -> Seq<u8>
    decreases toks.len(),
{
    if toks.len() == 0 {
        out
    } else {
        apply_tokens(apply_token(out, toks[0]), toks.drop_first())
    }
}

/// Whether every token of `toks` is valid where it stands.
pub open spec fn tokens_ok(out: Seq<u8>, toks: Seq<LzToken>) -> bool
    decreases toks.len(),
{
    if toks.len() == 0 {
        true
    } else {
        token_ok(out.len() as int, toks[0]) && tokens_ok(apply_token(out, toks[0]), toks.drop_first())
    }
}

/// The 16-bit code of a back-reference.
pub open spec fn match_code(offset: u16, len_minus_min: u16) -> u16 {
    ((offset & 0x0fffu16) << 4u16) | (len_minus_min & 0x0fu16)
}

/// The encoded bytes of one token.
pub open spec fn token_bytes(t: LzToken) -> Seq<u8> {
    match t {
        LzToken::Literal(b) => seq![b],
        LzToken::Match(o, l) => {
            let c = match_code(o as u16, (l - 3) as u16);
            seq![(c >> 8u16) as u8, (c & 0xffu16) as u8]
        },
    }
}

/// The encoded bytes of a run of tokens.
pub open spec fn body_bytes(toks: Seq<LzToken>) -> Seq<u8>
    decreases toks.len(),
{
    if toks.len() == 0 {
        Seq::empty()
    } else {
        token_bytes(toks[0]) + body_bytes(toks.drop_first())
    }
}

/// The flag byte of a group: bit `k` set when token `k` is a back-reference.
pub open spec fn flags_of(toks: Seq<LzToken>) -> u8
    decreases toks.len(),
{
    if toks.len() == 0 {
        0
    } else {
        let f = flags_of(toks.drop_last());
        match toks.last() {
            LzToken::Match(_, _) => f | (1u8 << ((toks.len() - 1) as u8)),
            LzToken::Literal(_) => f,
        }
    }
}

/// The encoded bytes of a list of groups.
pub open spec fn groups_bytes(gs: Seq<Seq<LzToken>>) -> Seq<u8>
    decreases gs.len(),
{
    if gs.len() == 0 {
        Seq::empty()
    } else {
        seq![flags_of(gs[0])] + body_bytes(gs[0]) + groups_bytes(gs.drop_first())
    }
}

/// All tokens of a list of groups, in order.
pub open spec fn all_tokens(gs: Seq<Seq<LzToken>>) -> Seq<LzToken>
    decreases gs.len(),
{
    if gs.len() == 0 {
        Seq::empty()
    } else {
        gs[0] + all_tokens(gs.drop_first())
    }
}

/// Every group holds one to eight tokens, and only the last may hold fewer
/// than eight.
pub open spec fn groups_shape(gs: Seq<Seq<LzToken>>) -> bool {
    forall|i: int|
        0 <= i < gs.len() ==> 1 <= #[trigger] gs[i].len() <= 8 && (i < gs.len() - 1 ==> gs[i].len()
            == 8)
}

proof fn lemma_set_bit(f: u8, k: u8, j: u8)
    requires
        k < 8,
        j < 8,
    ensures
        ((f | (1u8 << k)) >> j) & 1u8 == if j == k {
            1u8
        } else {
            (f >> j) & 1u8
        },
{
    assert(((f | (1u8 << k)) >> j) & 1u8 == if j == k {
        1u8
    } else {
        (f >> j) & 1u8
    }) by (bit_vector)
        requires
            k < 8,
            j < 8,
    ;
}

/// Bit `j` of the flag byte tells whether token `j` is a back-reference.
proof fn lemma_flags_of_bits(toks: Seq<LzToken>)
    requires
        toks.len() <= 8,
    ensures
        forall|j: u8|
            j < 8 ==> (#[trigger] ((flags_of(toks) >> j) & 1u8) == 1u8) == (j < toks.len()
                && toks[j as int] is Match),
    decreases toks.len(),
{
    if toks.len() == 0 {
        assert forall|j: u8| j < 8 implies (#[trigger] ((flags_of(toks) >> j) & 1u8) == 1u8) == (j
            < toks.len() && toks[j as int] is Match) by {
            assert(((0u8 >> j) & 1u8) == 0u8) by (bit_vector);
        }
    } else {
        let d = toks.drop_last();
        lemma_flags_of_bits(d);
        let k = (toks.len() - 1) as u8;
        assert forall|j: u8| j < 8 implies (#[trigger] ((flags_of(toks) >> j) & 1u8) == 1u8) == (j
            < toks.len() && toks[j as int] is Match) by {
            assert(((flags_of(d) >> j) & 1u8) == 1u8 <==> (j < d.len() && d[j as int] is Match));
            if j < d.len() {
                assert(d[j as int] == toks[j as int]);
            }
            match toks.last() {
                LzToken::Match(_, _) => {
                    lemma_set_bit(flags_of(d), k, j);
                },
                LzToken::Literal(_) => {},
            }
        }
    }
}

proof fn lemma_copy_back_limit(out: Seq<u8>, o: int, l: nat, lim: int)
    requires
        out.len() + l <= lim,
    ensures
        copy_back(out, o, l, lim) == copy_back(out, o, l, (out.len() + l) as int),
        copy_back(out, o, l, lim).len() == out.len() + l,
    decreases l,
{
    if l > 0 {
        let next = out.push(out[out.len() - o]);
        lemma_copy_back_limit(next, o, (l - 1) as nat, lim);
        lemma_copy_back_limit(next, o, (l - 1) as nat, (out.len() + l) as int);
    }
}

/// A back-reference whose source agrees with what follows it reproduces the
/// input.
proof fn lemma_copy_back_repeats(input: Seq<u8>, q: int, o: int, r: nat)
    requires
        1 <= o <= q,
        q + r <= input.len(),
        forall|j: int| q <= j < q + r ==> #[trigger] input[j - o] == input[j],
    ensures
        copy_back(input.subrange(0, q), o, r, q + r) == input.subrange(0, q + r),
    decreases r,
{
    if r > 0 {
        let cur = input.subrange(0, q);
        assert(cur.push(cur[cur.len() - o]) =~= input.subrange(0, q + 1)) by {
            assert(input[q - o] == input[q]);
        }
        lemma_copy_back_repeats(input, q + 1, o, (r - 1) as nat);
    } else {
        assert(input.subrange(0, q + r) =~= input.subrange(0, q));
    }
}

proof fn lemma_apply_token_len(out: Seq<u8>, t: LzToken)
    requires
        token_ok(out.len() as int, t),
    ensures
        apply_token(out, t).len() == out.len() + token_len(t),
        token_len(t) >= 1,
{
    if let LzToken::Match(o, l) = t {
        lemma_copy_back_limit(out, o, l as nat, out.len() + l);
    }
}

proof fn lemma_apply_tokens_len(out: Seq<u8>, toks: Seq<LzToken>)
    requires
        tokens_ok(out, toks),
    ensures
        apply_tokens(out, toks).len() >= out.len() + toks.len(),
    decreases toks.len(),
{
    if toks.len() > 0 {
        lemma_apply_token_len(out, toks[0]);
        lemma_apply_tokens_len(apply_token(out, toks[0]), toks.drop_first());
    }
}

proof fn lemma_apply_tokens_push(out: Seq<u8>, toks: Seq<LzToken>, t: LzToken)
    ensures
        apply_tokens(out, toks.push(t)) == apply_token(apply_tokens(out, toks), t),
        tokens_ok(out, toks.push(t)) == (tokens_ok(out, toks) && token_ok(
            apply_tokens(out, toks).len() as int,
            t,
        )),
    decreases toks.len(),
{
    assert(toks.push(t)[0] == if toks.len() == 0 {
        t
    } else {
        toks[0]
    });
    if toks.len() == 0 {
        assert(toks.push(t).drop_first() =~= Seq::<LzToken>::empty());
        assert(apply_tokens(apply_token(out, t), Seq::<LzToken>::empty()) == apply_token(out, t));
        assert(tokens_ok(apply_token(out, t), Seq::<LzToken>::empty()));
    } else {
        assert(toks.push(t).drop_first() =~= toks.drop_first().push(t));
        lemma_apply_tokens_push(apply_token(out, toks[0]), toks.drop_first(), t);
    }
}

proof fn lemma_apply_tokens_concat(out: Seq<u8>, a: Seq<LzToken>, b: Seq<LzToken>)
    ensures
        apply_tokens(out, a + b) == apply_tokens(apply_tokens(out, a), b),
        tokens_ok(out, a + b) == (tokens_ok(out, a) && tokens_ok(apply_tokens(out, a), b)),
    decreases a.len(),
{
    if a.len() == 0 {
        assert(a + b =~= b);
    } else {
        assert((a + b).drop_first() =~= a.drop_first() + b);
        lemma_apply_tokens_concat(apply_token(out, a[0]), a.drop_first(), b);
    }
}

proof fn lemma_body_bytes_push(toks: Seq<LzToken>, t: LzToken)
    ensures
        body_bytes(toks.push(t)) == body_bytes(toks) + token_bytes(t),
    decreases toks.len(),
{
    assert(toks.push(t)[0] == if toks.len() == 0 {
        t
    } else {
        toks[0]
    });
    if toks.len() == 0 {
        assert(toks.push(t).drop_first() =~= Seq::<LzToken>::empty());
        assert(body_bytes(toks.push(t).drop_first()) == Seq::<u8>::empty());
        assert(body_bytes(toks.push(t)) == token_bytes(t) + Seq::<u8>::empty());
        assert(body_bytes(toks.push(t)) =~= body_bytes(toks) + token_bytes(t));
    } else {
        assert(toks.push(t).drop_first() =~= toks.drop_first().push(t));
        lemma_body_bytes_push(toks.drop_first(), t);
        assert(body_bytes(toks.push(t)) == token_bytes(toks[0]) + body_bytes(
            toks.drop_first().push(t),
        ));
        assert(body_bytes(toks) == token_bytes(toks[0]) + body_bytes(toks.drop_first()));
        assert(body_bytes(toks.push(t)) =~= body_bytes(toks) + token_bytes(t));
    }
}

proof fn lemma_groups_push(gs: Seq<Seq<LzToken>>, g: Seq<LzToken>)
    ensures
        groups_bytes(gs.push(g)) == groups_bytes(gs) + seq![flags_of(g)] + body_bytes(g),
        all_tokens(gs.push(g)) == all_tokens(gs) + g,
    decreases gs.len(),
{
    assert(gs.push(g)[0] == if gs.len() == 0 {
        g
    } else {
        gs[0]
    });
    if gs.len() == 0 {
        assert(gs.push(g).drop_first() =~= Seq::<Seq<LzToken>>::empty());
        assert(groups_bytes(gs.push(g).drop_first()) == Seq::<u8>::empty());
        assert(all_tokens(gs.push(g).drop_first()) == Seq::<LzToken>::empty());
        assert(groups_bytes(gs.push(g)) == seq![flags_of(g)] + body_bytes(g) + Seq::<u8>::empty());
        assert(all_tokens(gs.push(g)) == g + Seq::<LzToken>::empty());
        assert(groups_bytes(gs.push(g)) =~= groups_bytes(gs) + seq![flags_of(g)] + body_bytes(g));
        assert(all_tokens(gs.push(g)) =~= all_tokens(gs) + g);
    } else {
        assert(gs.push(g).drop_first() =~= gs.drop_first().push(g));
        lemma_groups_push(gs.drop_first(), g);
        let h = gs[0];
        assert(groups_bytes(gs.push(g)) == seq![flags_of(h)] + body_bytes(h) + groups_bytes(
            gs.drop_first().push(g),
        ));
        assert(groups_bytes(gs) == seq![flags_of(h)] + body_bytes(h) + groups_bytes(gs.drop_first()));
        assert(groups_bytes(gs.push(g)) =~= groups_bytes(gs) + seq![flags_of(g)] + body_bytes(g));
        assert(all_tokens(gs.push(g)) == h + all_tokens(gs.drop_first().push(g)));
        assert(all_tokens(gs) == h + all_tokens(gs.drop_first()));
        assert(all_tokens(gs.push(g)) =~= all_tokens(gs) + g);
    }
}

proof fn lemma_match_code_roundtrip(o: u16, l3: u16)
    requires
        1 <= o <= 4095,
        l3 <= 15,
    ensures
        ({
            let c = match_code(o, l3);
            let w = match_word((c >> 8u16) as u8, (c & 0xffu16) as u8);
            &&& (w >> 4u16) == o
            &&& (w & 0x0fu16) == l3
        }),
{
    let c = match_code(o, l3);
    let w = match_word((c >> 8u16) as u8, (c & 0xffu16) as u8);
    assert((w >> 4u16) == o && (w & 0x0fu16) == l3) by (bit_vector)
        requires
            1 <= o <= 4095,
            l3 <= 15,
            c == ((o & 0x0fffu16) << 4u16) | (l3 & 0x0fu16),
            w == (((c >> 8u16) as u8 as u16) << 8u16) | ((c & 0xffu16) as u8 as u16),
    ;
}

proof fn lemma_subrange_advance(input: Seq<u8>, pos: int, k: int, x: Seq<u8>)
    requires
        0 <= pos,
        0 <= k <= x.len(),
        pos <= input.len(),
        input.subrange(pos, input.len() as int) == x,
    ensures
        input.subrange(pos + k, input.len() as int) == x.skip(k),
{
    assert forall|j: int| 0 <= j < x.len() - k implies #[trigger] input.subrange(
        pos + k,
        input.len() as int,
    )[j] == x.skip(k)[j] by {
        assert(input.subrange(pos, input.len() as int)[j + k] == input[pos + j + k]);
    }
    assert(input.subrange(pos + k, input.len() as int) =~= x.skip(k));
}

/// Decoding the bytes of a list of groups, from a group start, yields the
/// tokens' output.
proof fn lemma_decode_stream(input: Seq<u8>, pos: int, out: Seq<u8>, n: int, gs: Seq<Seq<LzToken>>)
    requires
        0 <= pos <= input.len(),
        input.subrange(pos, input.len() as int) == groups_bytes(gs),
        groups_shape(gs),
        tokens_ok(out, all_tokens(gs)),
        apply_tokens(out, all_tokens(gs)).len() == n,
    ensures
        lz_stream(input, pos, out, n) == Some(apply_tokens(out, all_tokens(gs))),
    decreases gs.len(), 10int,
{
    if gs.len() == 0 {
        assert(input.subrange(pos, input.len() as int).len() == 0);
    } else {
        let g = gs[0];
        let rest = gs.drop_first();
        assert(all_tokens(gs) == g + all_tokens(rest));
        lemma_apply_tokens_len(out, all_tokens(gs));
        assert(input.subrange(pos, input.len() as int)[0] == flags_of(g));
        assert(input.subrange(pos + 1, input.len() as int) == body_bytes(g.skip(0)) + groups_bytes(
            rest,
        )) by {
            assert(g.skip(0) =~= g);
            let x = groups_bytes(gs);
            assert(x == seq![flags_of(g)] + body_bytes(g) + groups_bytes(rest));
            lemma_subrange_advance(input, pos, 1, x);
            assert(x.skip(1) =~= body_bytes(g) + groups_bytes(rest));
        }
        assert(g.skip(0) =~= g);
        lemma_decode_group(input, pos + 1, out, n, gs, 0);
    }
}

/// Decoding the remaining tokens of the first group, then the groups after it.
proof fn lemma_decode_group(
    input: Seq<u8>,
    pos: int,
    out: Seq<u8>,
    n: int,
    gs: Seq<Seq<LzToken>>,
    i: int,
)
    requires
        gs.len() >= 1,
        groups_shape(gs),
        0 <= i <= gs[0].len(),
        0 <= pos <= input.len(),
        input.subrange(pos, input.len() as int) == body_bytes(gs[0].skip(i)) + groups_bytes(
            gs.drop_first(),
        ),
        tokens_ok(out, gs[0].skip(i) + all_tokens(gs.drop_first())),
        apply_tokens(out, gs[0].skip(i) + all_tokens(gs.drop_first())).len() == n,
    ensures
        lz_group(input, pos, out, n, flags_of(gs[0]), i) == Some(
            apply_tokens(out, gs[0].skip(i) + all_tokens(gs.drop_first())),
        ),
    decreases gs.len(), 9 - i,
{
    let g = gs[0];
    let rest = gs.drop_first();
    let flags = flags_of(g);
    assert(gs[0].len() <= 8);
    lemma_flags_of_bits(g);
    let toks = g.skip(i) + all_tokens(rest);
    if i == g.len() {
        assert(g.skip(i) =~= Seq::<LzToken>::empty());
        assert(toks =~= all_tokens(rest));
        assert(input.subrange(pos, input.len() as int) =~= groups_bytes(rest));
        assert(groups_shape(rest)) by {
            assert forall|k: int| 0 <= k < rest.len() implies 1 <= #[trigger] rest[k].len() <= 8 && (k
                < rest.len() - 1 ==> rest[k].len() == 8) by {
                assert(rest[k] == gs[k + 1]);
            }
        }
        if g.len() == 8 {
            lemma_decode_stream(input, pos, out, n, rest);
            assert(lz_group(input, pos, out, n, flags, i) == lz_stream(input, pos, out, n));
        } else {
            assert(rest.len() == 0);
            assert(all_tokens(rest) =~= Seq::<LzToken>::empty());
            assert(input.subrange(pos, input.len() as int).len() == 0);
            assert(apply_tokens(out, toks) == out);
            assert(out.len() == n);
            assert(lz_stream(input, pos, out, n) == Some(out));
            assert(lz_group(input, pos, out, n, flags, i) == lz_stream(input, pos, out, n));
        }
    } else {
        let t = g[i];
        let tail = g.skip(i + 1) + all_tokens(rest);
        assert(toks[0] == t);
        assert(toks.drop_first() =~= tail);
        assert(g.skip(i) =~= seq![t] + g.skip(i + 1));
        assert(g.skip(i)[0] == t);
        assert(g.skip(i).drop_first() =~= g.skip(i + 1));
        lemma_apply_token_len(out, t);
        lemma_apply_tokens_len(apply_token(out, t), tail);
        let s = input.subrange(pos, input.len() as int);
        assert(s =~= token_bytes(t) + (body_bytes(g.skip(i + 1)) + groups_bytes(rest)));
        let bit = i as u8;
        assert(((flags >> bit) & 1u8 == 1u8) == (t is Match));
        match t {
            LzToken::Literal(b) => {
                assert(s[0] == b);
                lemma_subrange_advance(input, pos, 1, s);
                assert(s.skip(1) =~= body_bytes(g.skip(i + 1)) + groups_bytes(rest));
                assert(tokens_ok(apply_token(out, t), tail));
                assert(apply_tokens(out, toks) == apply_tokens(apply_token(out, t), tail));
                lemma_decode_group(input, pos + 1, apply_token(out, t), n, gs, i + 1);
                assert(lz_group(input, pos, out, n, flags, i) == lz_group(input, pos + 1, out.push(b), n, flags, i + 1));
            },
            LzToken::Match(o, l) => {
                let c = match_code(o as u16, (l - 3) as u16);
                assert(s[0] == (c >> 8u16) as u8);
                assert(s[1] == (c & 0xffu16) as u8);
                lemma_match_code_roundtrip(o as u16, (l - 3) as u16);
                let w = match_word(input[pos], input[pos + 1]);
                assert((w >> 4u16) as int == o);
                assert((w & 0x0fu16) as int + 3 == l);
                lemma_copy_back_limit(out, o, l as nat, n);
                lemma_subrange_advance(input, pos, 2, s);
                assert(s.skip(2) =~= body_bytes(g.skip(i + 1)) + groups_bytes(rest));
                assert(tokens_ok(apply_token(out, t), tail));
                assert(apply_tokens(out, toks) == apply_tokens(apply_token(out, t), tail));
                lemma_decode_group(input, pos + 2, apply_token(out, t), n, gs, i + 1);
                assert(lz_group(input, pos, out, n, flags, i) == lz_group(input, pos + 2, copy_back(out, o, l as nat, n), n, flags, i + 1));
            },
        }
    }
}


/// The eight header bytes for an input of `n` bytes.
pub open spec fn lz77_header_bytes(n: u32) -> Seq<u8> {
    lz77_magic() + u32_le(n)
}

proof fn lemma_header_decodes(f: Seq<u8>, n: u32)
    requires
        f.len() >= 8,
        f.subrange(0, 8) == lz77_header_bytes(n),
    ensures
        has_lz77_header(f),
        lz77_stored_len(f) == n,
{
    lemma_u32_le(n);
    let h = lz77_header_bytes(n);
    assert(f.subrange(0, 4) =~= lz77_magic()) by {
        assert forall|k: int| 0 <= k < 4 implies f[k] == lz77_magic()[k] by {
            assert(f.subrange(0, 8)[k] == f[k]);
        }
    }
    assert forall|k: int| 0 <= k < 4 implies f[4 + k] == u32_le(n)[k] by {
        assert(f.subrange(0, 8)[4 + k] == f[4 + k]);
        assert(h[4 + k] == u32_le(n)[k]);
    }
    assert(le32(f, 4) == le32(u32_le(n), 0));
}

// ---------------------------------------------------------------- the compressor's choices

/// The length of the common run of `input` from `a` and from `b`, counted
/// from `k` and capped at `max`.
pub open spec fn run_len(input: Seq<u8>, a: int, b: int, k: int, max: int) -> int
    decreases max - k,
{
    if k < max && input[a + k] == input[b + k] {
        run_len(input, a, b, k + 1, max)
    } else {
        k
    }
}

/// The hash bucket of the three bytes at `pos`.
pub open spec fn bucket_at(input: Seq<u8>, pos: int) -> int {
    hash3_spec(input[pos], input[pos + 1], input[pos + 2])
}

/// The token the compressor emits at `pos`, given its table of the last
/// position seen in each hash bucket: a back-reference to the position the
/// bucket recorded, when that lies within the window and the two runs agree
/// on at least three bytes (and at most 18), otherwise the literal byte.
pub open spec fn lz_token_at(input: Seq<u8>, pos: int, table: Seq<u32>) -> LzToken {
    let n = input.len();
    if pos + 3 <= n {
        let prev = table[bucket_at(input, pos)] as int;
        if prev != u32::MAX as int && pos >= prev && 1 <= pos - prev <= 4095 {
            let max = if n - pos < 18 {
                n - pos
            } else {
                18
            };
            let len = run_len(input, prev, pos, 0, max);
            if len >= 3 {
                LzToken::Match(pos - prev, len)
            } else {
                LzToken::Literal(input[pos])
            }
        } else {
            LzToken::Literal(input[pos])
        }
    } else {
        LzToken::Literal(input[pos])
    }
}

/// The table after the compressor looks at `pos`: the bucket of the three
/// bytes there now records `pos` (kept in 32 bits).
pub open spec fn lz_table_after(input: Seq<u8>, pos: int, table: Seq<u32>) -> Seq<u32> {
    if pos + 3 <= input.len() {
        table.update(bucket_at(input, pos), pos as u32)
    } else {
        table
    }
}

/// The tokens the compressor emits from `pos` on, greedily, one per step.
#[verifier::opaque]
pub open spec fn lz_tokens_from(input: Seq<u8>, pos: int, table: Seq<u32>) -> Seq<LzToken>
    decreases input.len() - pos,
{
    if pos < 0 || pos >= input.len() {
        Seq::empty()
    } else {
        let t = lz_token_at(input, pos, table);
        if token_len(t) < 1 || pos + token_len(t) > input.len() {
            Seq::empty()
        } else {
            seq![t] + lz_tokens_from(input, pos + token_len(t), lz_table_after(input, pos, table))
        }
    }
}

/// The empty hash table: every bucket unset.
pub open spec fn empty_table() -> Seq<u32> {
    Seq::new(LZ77_HASH_SIZE as nat, |i: int| u32::MAX)
}

/// Tokens cut into groups of eight, the last possibly shorter.
#[verifier::opaque]
pub open spec fn chunk8(toks: Seq<LzToken>) -> Seq<Seq<LzToken>>
    decreases toks.len(),
{
    if toks.len() == 0 {
        Seq::empty()
    } else if toks.len() <= 8 {
        seq![toks]
    } else {
        seq![toks.take(8)] + chunk8(toks.skip(8))
    }
}

/// What the compressor writes for `input`: the header, then the greedy
/// tokens in groups of eight, each group behind its flag byte.
pub open spec fn lz77_encoded(input: Seq<u8>) -> Seq<u8> {
    lz77_header_bytes(input.len() as u32) + groups_bytes(
        chunk8(lz_tokens_from(input, 0, empty_table())),
    )
}

proof fn lemma_token_at_len(input: Seq<u8>, pos: int, table: Seq<u32>)
    requires
        0 <= pos < input.len(),
    ensures
        token_len(lz_token_at(input, pos, table)) >= 1,
        pos + token_len(lz_token_at(input, pos, table)) <= input.len(),
        token_bytes(lz_token_at(input, pos, table)).len() >= 1,
        lz_tokens_from(input, pos, table) == seq![lz_token_at(input, pos, table)]
            + lz_tokens_from(
            input,
            pos + token_len(lz_token_at(input, pos, table)),
            lz_table_after(input, pos, table),
        ),
{
    reveal(lz_tokens_from);
    let n = input.len();
    if pos + 3 <= n {
        let prev = table[bucket_at(input, pos)] as int;
        if prev != u32::MAX as int && pos >= prev && 1 <= pos - prev <= 4095 {
            let max = if n - pos < 18 {
                n - pos
            } else {
                18
            };
            lemma_run_len_bound(input, prev, pos, 0, max);
        }
    }
}

proof fn lemma_run_len_bound(input: Seq<u8>, a: int, b: int, k: int, max: int)
    requires
        k <= max,
    ensures
        k <= run_len(input, a, b, k, max) <= max,
    decreases max - k,
{
    if k < max && input[a + k] == input[b + k] {
        lemma_run_len_bound(input, a, b, k + 1, max);
    }
}

proof fn lemma_tokens_end(input: Seq<u8>, pos: int, table: Seq<u32>)
    requires
        pos >= input.len(),
    ensures
        lz_tokens_from(input, pos, table) == Seq::<LzToken>::empty(),
{
    reveal(lz_tokens_from);
}

proof fn lemma_chunk8_empty()
    ensures
        chunk8(Seq::<LzToken>::empty()) == Seq::<Seq<LzToken>>::empty(),
{
    reveal(chunk8);
}

proof fn lemma_tail_shrink(a: Seq<u8>, b: Seq<u8>, i: int, j: int, n: int)
    requires
        0 <= i <= j <= n,
        n <= a.len(),
        n <= b.len(),
        a.subrange(i, n) == b.subrange(i, n),
    ensures
        a.subrange(j, n) == b.subrange(j, n),
{
    assert forall|k: int| 0 <= k < n - j implies a.subrange(j, n)[k] == b.subrange(j, n)[k] by {
        let q = k + j - i;
        assert(0 <= q < n - i);
        assert(a.subrange(i, n)[q] == a[i + q]);
        assert(b.subrange(i, n)[q] == b[i + q]);
        assert(a.subrange(i, n)[q] == b.subrange(i, n)[q]);
        assert(a.subrange(j, n)[k] == a[j + k]);
        assert(b.subrange(j, n)[k] == b[j + k]);
    }
    assert(a.subrange(j, n) =~= b.subrange(j, n));
}

proof fn lemma_body_bytes_append(a: Seq<LzToken>, b: Seq<LzToken>)
    ensures
        body_bytes(a + b) == body_bytes(a) + body_bytes(b),
    decreases a.len(),
{
    if a.len() == 0 {
        assert(a + b =~= b);
        assert(body_bytes(a) == Seq::<u8>::empty());
        assert(body_bytes(a) + body_bytes(b) =~= body_bytes(b));
    } else {
        assert((a + b).drop_first() =~= a.drop_first() + b);
        assert((a + b)[0] == a[0]);
        lemma_body_bytes_append(a.drop_first(), b);
        assert(body_bytes(a + b) =~= body_bytes(a) + body_bytes(b));
    }
}

proof fn lemma_groups_bytes_append(a: Seq<Seq<LzToken>>, b: Seq<Seq<LzToken>>)
    ensures
        groups_bytes(a + b) == groups_bytes(a) + groups_bytes(b),
    decreases a.len(),
{
    if a.len() == 0 {
        assert(a + b =~= b);
        assert(groups_bytes(a) == Seq::<u8>::empty());
        assert(groups_bytes(a) + groups_bytes(b) =~= groups_bytes(b));
    } else {
        assert((a + b).drop_first() =~= a.drop_first() + b);
        assert((a + b)[0] == a[0]);
        lemma_groups_bytes_append(a.drop_first(), b);
        assert(groups_bytes(a + b) =~= groups_bytes(a) + groups_bytes(b));
    }
}

/// A full group (or the final one) splits off the front of the chunking.
proof fn lemma_chunk8_front(cur: Seq<LzToken>, rest: Seq<LzToken>)
    requires
        1 <= cur.len() <= 8,
        cur.len() == 8 || rest.len() == 0,
    ensures
        chunk8(cur + rest) == seq![cur] + chunk8(rest),
{
    reveal(chunk8);
    let s = cur + rest;
    if rest.len() == 0 {
        assert(s =~= cur);
        assert(chunk8(rest) =~= Seq::<Seq<LzToken>>::empty());
        assert(seq![cur] + chunk8(rest) =~= seq![cur]);
    } else {
        assert(s.take(8) =~= cur);
        assert(s.skip(8) =~= rest);
    }
}

/// The encoding of a token run whose first group starts with `p` is at
/// least the flag byte and the bytes of `p` long.
proof fn lemma_chunk8_first_len(p: Seq<LzToken>, r: Seq<LzToken>)
    requires
        1 <= p.len() <= 8,
    ensures
        groups_bytes(chunk8(p + r)).len() >= 1 + body_bytes(p).len(),
{
    reveal(chunk8);
    let s = p + r;
    let first = if s.len() <= 8 {
        s
    } else {
        s.take(8)
    };
    assert(chunk8(s)[0] == first);
    assert(first =~= p + first.skip(p.len() as int));
    lemma_body_bytes_append(p, first.skip(p.len() as int));
    assert(groups_bytes(chunk8(s)) == seq![flags_of(first)] + body_bytes(first) + groups_bytes(
        chunk8(s).drop_first(),
    ));
}

/// The run the match loop measures.
proof fn lemma_run_len_done(input: Seq<u8>, a: int, b: int, k: int, max: int)
    requires
        k >= max || input[a + k] != input[b + k],
    ensures
        run_len(input, a, b, k, max) == k,
{
}

/// The compressor's choice at `in_pos`: a back-reference `(offset, len)`
/// to where the bucket of the next three bytes last pointed, when the runs
/// agree on at least three bytes, or none (a literal); the bucket then
/// records `in_pos`.
fn lz77_choose(input: &[u8], in_pos: usize, table: &mut Vec<u32>) -> (best: Option<(usize, usize)>)
    requires
        in_pos < input@.len(),
        old(table)@.len() == LZ77_HASH_SIZE,
    ensures
        final(table)@ == lz_table_after(input@, in_pos as int, old(table)@),
        final(table)@.len() == LZ77_HASH_SIZE,
        match best {
            Some((o, l)) => {
                &&& lz_token_at(input@, in_pos as int, old(table)@) == LzToken::Match(o as int, l as int)
                &&& 1 <= o <= 4095
                &&& o <= in_pos
                &&& 3 <= l <= 18
                &&& in_pos + l <= input@.len()
                &&& forall|k: int| 0 <= k < l ==> #[trigger] input@[(in_pos - o) + k] == input@[in_pos + k]
            },
            None => lz_token_at(input@, in_pos as int, old(table)@) == LzToken::Literal(input@[in_pos as int]),
        },
{
    let in_len = input.len();
    let mut best: Option<(usize, usize)> = None;
    if in_len - in_pos >= LZ77_MIN_MATCH {
        let h = lz77_hash3(input[in_pos], input[in_pos + 1], input[in_pos + 2]);
        let prev = table[h] as usize;
        table[h] = in_pos as u32;
        if prev != (u32::MAX as usize) && in_pos >= prev && in_pos - prev >= 1 && in_pos - prev
            <= LZ77_WINDOW {
            let offset = in_pos - prev;
            let max_len = if in_len - in_pos < LZ77_MAX_MATCH {
                in_len - in_pos
            } else {
                LZ77_MAX_MATCH
            };
            let mut len: usize = 0;
            while len < max_len && input[prev + len] == input[in_pos + len]
                invariant
                    in_len == input@.len(),
                    prev < in_pos,
                    in_pos + max_len <= in_len,
                    len <= max_len,
                    forall|k: int| 0 <= k < len ==> #[trigger] input@[prev + k] == input@[in_pos + k],
                    run_len(input@, prev as int, in_pos as int, 0, max_len as int) == run_len(
                        input@,
                        prev as int,
                        in_pos as int,
                        len as int,
                        max_len as int,
                    ),
                decreases max_len - len,
            {
                len = len + 1;
            }
            proof {
                lemma_run_len_done(input@, prev as int, in_pos as int, len as int, max_len as int);
            }
            if len >= LZ77_MIN_MATCH {
                best = Some((offset, len));
            }
        }
    }
    best
}

/// Compresses `input` into `output` and returns the compressed length.
///
/// What is written is `lz77_encoded(input)`: the header and the greedy
/// hash-bucket tokens in flagged groups of eight; `None` exactly when that
/// does not fit. The result decodes back to `input` (its length is recorded
/// in 32 bits), and an output of `lz77_bound(input.len())` bytes always
/// suffices. Bytes past the result are left alone.
#[verifier::rlimit(60)]
#[verifier::spinoff_prover]
pub fn lz77_compress(input: &[u8], output: &mut [u8]) -> (r: Option<usize>)
    ensures
        final(output)@.len() == old(output)@.len(),
        old(output)@.len() < 8 ==> r is None,
        old(output)@.len() >= lz77_bound(input@.len() as int) ==> r is Some,
        r is Some <==> lz77_encoded(input@).len() <= old(output)@.len(),
        r matches Some(m) ==> {
            &&& 8 <= m <= old(output)@.len()
            &&& m == lz77_encoded(input@).len()
            &&& final(output)@.subrange(0, m as int) == lz77_encoded(input@)
            &&& final(output)@.subrange(m as int, old(output)@.len() as int) == old(
                output,
            )@.subrange(m as int, old(output)@.len() as int)
            &&& input@.len() <= u32::MAX ==> lz77_decode(final(output)@.subrange(0, m as int))
                == Some(input@)
        },
{
    let out_cap = output.len();
    proof {
        lemma_u32_le(input@.len() as u32);
        assert(lz77_encoded(input@).len() >= 8);
    }
    if out_cap < LZ77_HEADER_LEN {
        return None;
    }
    let in_len = input.len();
    output[0] = 0x4c;
    output[1] = 0x5a;
    output[2] = 0x37;
    output[3] = 0x37;
    let ghost first4 = output@;
    assert(first4.subrange(8, out_cap as int) =~= old(output)@.subrange(8, out_cap as int));
    write_u32_le(output, 4, in_len as u32);
    let ghost hdr = lz77_header_bytes(in_len as u32);
    proof {
        lemma_u32_le(in_len as u32);
        assert(output@.subrange(0, 8) =~= hdr) by {
            assert forall|k: int| 0 <= k < 4 implies output@[k] == first4[k] by {}
        }
        assert(output@.subrange(8, out_cap as int) =~= old(output)@.subrange(8, out_cap as int));
    }
    let ghost full = lz_tokens_from(input@, 0, empty_table());
    if in_len == 0 {
        proof {
            lemma_tokens_end(input@, 0, empty_table());
            lemma_chunk8_empty();
            assert(lz77_encoded(input@) =~= hdr);
            let f = output@.subrange(0, 8);
            assert(f.subrange(0, 8) =~= f);
            lemma_header_decodes(f, in_len as u32);
            assert(input@ =~= Seq::<u8>::empty());
        }
        return Some(LZ77_HEADER_LEN);
    }
    let mut out_pos: usize = LZ77_HEADER_LEN;
    let mut in_pos: usize = 0;
    let mut table: Vec<u32> = vec![u32::MAX; LZ77_HASH_SIZE];
    let ghost mut done: Seq<Seq<LzToken>> = Seq::empty();
    proof {
        assert(output@.subrange(8, 8) =~= Seq::<u8>::empty());
        assert(input@.subrange(0, 0) =~= Seq::<u8>::empty());
        assert(table@ =~= empty_table());
        assert(done + chunk8(full) =~= chunk8(full));
    }
    while in_pos < in_len
        invariant
            out_cap == output@.len(),
            out_cap == old(output)@.len(),
            in_len == input@.len(),
            in_len > 0,
            table@.len() == LZ77_HASH_SIZE,
            8 <= out_pos <= out_cap,
            in_pos <= in_len,
            hdr == lz77_header_bytes(in_len as u32),
            output@.subrange(0, 8) == hdr,
            output@.subrange(8, out_pos as int) == groups_bytes(done),
            groups_shape(done),
            done.len() > 0 ==> (done.last().len() == 8 || in_pos == in_len),
            tokens_ok(Seq::empty(), all_tokens(done)),
            apply_tokens(Seq::empty(), all_tokens(done)) == input@.subrange(0, in_pos as int),
            out_pos <= 8 + in_pos + done.len(),
            in_pos < in_len ==> 8 * done.len() <= in_pos,
            full == lz_tokens_from(input@, 0, empty_table()),
            done + chunk8(lz_tokens_from(input@, in_pos as int, table@)) == chunk8(full),
            output@.subrange(out_pos as int, out_cap as int) == old(output)@.subrange(
                out_pos as int,
                out_cap as int,
            ),
        decreases in_len - in_pos,
    {
        let flag_pos = out_pos;
        if out_pos >= out_cap {
            proof {
                lemma_token_at_len(input@, in_pos as int, table@);
                let rest = lz_tokens_from(input@, in_pos as int, table@);
                let t0 = lz_token_at(input@, in_pos as int, table@);
                assert(rest == seq![t0] + rest.drop_first());
                assert(seq![t0] + rest.drop_first() =~= rest);
                lemma_chunk8_first_len(seq![t0], rest.drop_first());
                lemma_groups_bytes_append(done, chunk8(rest));
                assert(lz77_encoded(input@).len() > out_cap);
            }
            return None;
        }
        out_pos = out_pos + 1;
        let mut flags: u8 = 0;
        let mut tokens: u8 = 0;
        let ghost mut cur: Seq<LzToken> = Seq::empty();
        let ghost in_start = in_pos;
        let ghost tbl0 = table@;
        proof {
            assert(cur + lz_tokens_from(input@, in_pos as int, table@) =~= lz_tokens_from(
                input@,
                in_start as int,
                tbl0,
            ));
            lemma_tail_shrink(output@, old(output)@, flag_pos as int, out_pos as int, out_cap as int);
            assert(output@.subrange(flag_pos + 1, out_pos as int) =~= Seq::<u8>::empty());
            assert(all_tokens(done) + cur =~= all_tokens(done));
        }
        while tokens < 8 && in_pos < in_len
            invariant
                out_cap == output@.len(),
                out_cap == old(output)@.len(),
                in_len == input@.len(),
                table@.len() == LZ77_HASH_SIZE,
                8 <= flag_pos,
                flag_pos + 1 <= out_pos <= out_cap,
                in_start <= in_pos <= in_len,
                in_start < in_len,
                hdr == lz77_header_bytes(in_len as u32),
                output@.subrange(0, 8) == hdr,
                output@.subrange(8, flag_pos as int) == groups_bytes(done),
                output@.subrange(flag_pos + 1, out_pos as int) == body_bytes(cur),
                groups_shape(done),
                done.len() > 0 ==> done.last().len() == 8,
                cur.len() == tokens,
                tokens <= 8,
                flags == flags_of(cur),
                tokens_ok(Seq::empty(), all_tokens(done) + cur),
                apply_tokens(Seq::empty(), all_tokens(done) + cur) == input@.subrange(0, in_pos as int),
                in_pos - in_start >= tokens,
                tokens == 0 ==> in_pos == in_start,
                out_pos - (flag_pos + 1) <= in_pos - in_start,
                flag_pos <= 8 + in_start + done.len(),
                8 * done.len() <= in_start,
                full == lz_tokens_from(input@, 0, empty_table()),
                done + chunk8(lz_tokens_from(input@, in_start as int, tbl0)) == chunk8(full),
                lz_tokens_from(input@, in_start as int, tbl0) == cur + lz_tokens_from(
                    input@,
                    in_pos as int,
                    table@,
                ),
                output@.subrange(out_pos as int, out_cap as int) == old(output)@.subrange(
                    out_pos as int,
                    out_cap as int,
                ),
            decreases in_len - in_pos,
        {
            let ghost tbl = table@;
            proof {
                lemma_token_at_len(input@, in_pos as int, tbl);
            }
            let best = lz77_choose(input, in_pos, &mut table);
            let ghost tok = lz_token_at(input@, in_pos as int, tbl);
            let ghost before = input@.subrange(0, in_pos as int);
            let ghost body_before = output@;
            match best {
                Some((offset, len)) => {
                    flags = flags | (1u8 << tokens);
                    if out_cap - out_pos < 2 {
                        proof {
                            let rest = lz_tokens_from(input@, in_pos as int, tbl);
                            let p = cur.push(tok);
                            assert(rest == seq![tok] + rest.drop_first());
                            assert(lz_tokens_from(input@, in_start as int, tbl0) =~= p + rest.drop_first());
                            lemma_chunk8_first_len(p, rest.drop_first());
                            lemma_body_bytes_push(cur, tok);
                            lemma_groups_bytes_append(done, chunk8(lz_tokens_from(input@, in_start as int, tbl0)));
                            assert(lz77_encoded(input@).len() >= out_pos + token_bytes(tok).len());
                        }
                        return None;
                    }
                    let enc: u16 = (((offset as u16) & 0x0fff) << 4u16) | (((len - LZ77_MIN_MATCH)
                        as u16) & 0x0f);
                    output[out_pos] = (enc >> 8u16) as u8;
                    output[out_pos + 1] = (enc & 0xff) as u8;
                    let ghost t = LzToken::Match(offset as int, len as int);
                    proof {
                        assert(enc == match_code((offset as int) as u16, ((len as int) - 3) as u16));
                        lemma_body_bytes_push(cur, t);
                        assert(output@.subrange(flag_pos + 1, out_pos + 2) =~= body_bytes(cur)
                            + token_bytes(t));
                        assert(output@.subrange(8, flag_pos as int) =~= body_before.subrange(
                            8,
                            flag_pos as int,
                        ));
                        assert(output@.subrange(0, 8) =~= body_before.subrange(0, 8));
                        assert(cur.push(t).drop_last() =~= cur);
                        assert((all_tokens(done) + cur).push(t) =~= all_tokens(done) + cur.push(t));
                        lemma_apply_tokens_push(Seq::empty(), all_tokens(done) + cur, t);
                        assert forall|j: int| in_pos <= j < in_pos + len implies #[trigger] input@[j
                            - offset] == input@[j] by {
                            assert(input@[(in_pos - offset) + (j - in_pos)] == input@[in_pos + (j
                                - in_pos)]);
                        }
                        lemma_copy_back_repeats(input@, in_pos as int, offset as int, len as nat);
                        let rest = lz_tokens_from(input@, in_pos as int, tbl);
                        assert(cur.push(t) + lz_tokens_from(input@, in_pos + len, table@) =~= cur
                            + rest);
                        assert(output@.subrange(out_pos + 2, out_cap as int) =~= body_before.subrange(
                            out_pos + 2,
                            out_cap as int,
                        ));
                        lemma_tail_shrink(body_before, old(output)@, out_pos as int, out_pos + 2, out_cap as int);
                        cur = cur.push(t);
                    }
                    out_pos = out_pos + 2;
                    in_pos = in_pos + len;
                },
                None => {
                    if out_pos >= out_cap {
                        proof {
                            let rest = lz_tokens_from(input@, in_pos as int, tbl);
                            let p = cur.push(tok);
                            assert(rest == seq![tok] + rest.drop_first());
                            assert(lz_tokens_from(input@, in_start as int, tbl0) =~= p + rest.drop_first());
                            lemma_chunk8_first_len(p, rest.drop_first());
                            lemma_body_bytes_push(cur, tok);
                            lemma_groups_bytes_append(done, chunk8(lz_tokens_from(input@, in_start as int, tbl0)));
                            assert(lz77_encoded(input@).len() >= out_pos + token_bytes(tok).len());
                        }
                        return None;
                    }
                    let b = input[in_pos];
                    output[out_pos] = b;
                    let ghost t = LzToken::Literal(b);
                    proof {
                        lemma_body_bytes_push(cur, t);
                        assert(output@.subrange(flag_pos + 1, out_pos + 1) =~= body_bytes(cur)
                            + token_bytes(t));
                        assert(output@.subrange(8, flag_pos as int) =~= body_before.subrange(
                            8,
                            flag_pos as int,
                        ));
                        assert(output@.subrange(0, 8) =~= body_before.subrange(0, 8));
                        assert(cur.push(t).drop_last() =~= cur);
                        assert((all_tokens(done) + cur).push(t) =~= all_tokens(done) + cur.push(t));
                        lemma_apply_tokens_push(Seq::empty(), all_tokens(done) + cur, t);
                        assert(before.push(b) =~= input@.subrange(0, in_pos + 1));
                        let rest = lz_tokens_from(input@, in_pos as int, tbl);
                        assert(cur.push(t) + lz_tokens_from(input@, in_pos + 1, table@) =~= cur
                            + rest);
                        assert(output@.subrange(out_pos + 1, out_cap as int) =~= body_before.subrange(
                            out_pos + 1,
                            out_cap as int,
                        ));
                        lemma_tail_shrink(body_before, old(output)@, out_pos as int, out_pos + 1, out_cap as int);
                        cur = cur.push(t);
                    }
                    out_pos = out_pos + 1;
                    in_pos = in_pos + 1;
                },
            }
            tokens = tokens + 1;
        }
        let ghost body_end = output@;
        output[flag_pos] = flags;
        proof {
            lemma_groups_push(done, cur);
            assert(output@.subrange(8, out_pos as int) =~= groups_bytes(done) + seq![flags_of(cur)]
                + body_bytes(cur)) by {
                assert(body_end.subrange(8, flag_pos as int) == groups_bytes(done));
                assert(body_end.subrange(flag_pos + 1, out_pos as int) == body_bytes(cur));
            }
            assert(output@.subrange(0, 8) =~= body_end.subrange(0, 8));
            let rest = lz_tokens_from(input@, in_pos as int, table@);
            if in_pos >= in_len {
                lemma_tokens_end(input@, in_pos as int, table@);
            }
            lemma_chunk8_front(cur, rest);
            assert(done.push(cur) + chunk8(rest) =~= done + (seq![cur] + chunk8(rest)));
            assert(output@.subrange(out_pos as int, out_cap as int) =~= body_end.subrange(
                out_pos as int,
                out_cap as int,
            ));
            done = done.push(cur);
        }
    }
    proof {
        lemma_tokens_end(input@, in_pos as int, table@);
        lemma_chunk8_empty();
        assert(done =~= chunk8(full));
        assert(output@.subrange(0, out_pos as int) =~= output@.subrange(0, 8) + output@.subrange(
            8,
            out_pos as int,
        ));
        assert(output@.subrange(0, out_pos as int) =~= lz77_encoded(input@));
        let f = output@.subrange(0, out_pos as int);
        assert(f.subrange(0, 8) =~= output@.subrange(0, 8));
        if in_len <= u32::MAX {
            lemma_header_decodes(f, in_len as u32);
            assert(f.subrange(8, f.len() as int) =~= output@.subrange(8, out_pos as int));
            assert(input@.subrange(0, in_len as int) =~= input@);
            lemma_decode_stream(f, 8, Seq::empty(), in_len as int, done);
        }
    }
    Some(out_pos)
}

} // verus!
