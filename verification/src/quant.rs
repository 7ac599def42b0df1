//! Ternary quantization codes: five trits (0, 1 or 2) per byte, the first
//! in the lowest base-3 digit.
use crate::math::Float;
use vstd::prelude::*;

verus! {

broadcast use vstd::slice::group_slice_axioms;

/// Errors of the quantizers.
#[derive(Clone, Copy, Debug, PartialEq, Eq, Structural)]
pub enum QuantError {
    Empty,
    ShapeMismatch,
    InvalidScale,
}

/// The number of bytes that hold `n` trits.
pub open spec fn packed_len_spec(n: int) -> int {
    (n + 4) / 5
}

pub fn ternary_packed_len(n: usize) -> (r: usize)
    ensures
        r == packed_len_spec(n as int),
{
    let q = n / 5;
    if n % 5 != 0 {
        q + 1
    } else {
        q
    }
}

/// Trit `i` of `t`, zero past its end.
pub open spec fn trit_at(t: Seq<u8>, i: int) -> int {
    if 0 <= i < t.len() {
        t[i] as int
    } else {
        0
    }
}

/// The code of group `g`: trits `5g` to `5g + 4` as base-3 digits.
pub open spec fn group_code(t: Seq<u8>, g: int) -> int {
    trit_at(t, 5 * g) + 3 * trit_at(t, 5 * g + 1) + 9 * trit_at(t, 5 * g + 2) + 27 * trit_at(
        t,
        5 * g + 3,
    ) + 81 * trit_at(t, 5 * g + 4)
}

/// Whether every value of `t` is a trit.
pub open spec fn all_trits(t: Seq<u8>) -> bool {
    forall|i: int| 0 <= i < t.len() ==> #[trigger] t[i] <= 2
}

/// Packs trits five to a byte into the start of `packed`: byte `g` holds
/// trits `5g..5g + 5`. An empty input is `Empty`, a buffer shorter than
/// `ternary_packed_len` is `ShapeMismatch`; bytes past the packed length
/// are left alone.
pub fn pack_ternary(trits: &[u8], packed: &mut [u8]) -> (r: Result<(), QuantError>)
    requires
        all_trits(trits@),
    ensures
        r is Ok <==> trits@.len() > 0 && old(packed)@.len() >= packed_len_spec(
            trits@.len() as int,
        ),
        trits@.len() == 0 ==> r == Err::<(), QuantError>(QuantError::Empty) && final(packed)@
            == old(packed)@,
        trits@.len() > 0 && old(packed)@.len() < packed_len_spec(trits@.len() as int) ==> r == Err::<
            (),
            QuantError,
        >(QuantError::ShapeMismatch) && final(packed)@ == old(packed)@,
        r is Ok ==> {
            &&& final(packed)@.len() == old(packed)@.len()
            &&& forall|g: int|
                0 <= g < packed_len_spec(trits@.len() as int) ==> #[trigger] final(packed)@[g]
                    == group_code(trits@, g)
            &&& forall|g: int|
                packed_len_spec(trits@.len() as int) <= g < old(packed)@.len()
                    ==> #[trigger] final(packed)@[g] == old(packed)@[g]
        },
{
    let n = trits.len();
    if n == 0 {
        return Err(QuantError::Empty);
    }
    let needed = ternary_packed_len(n);
    if packed.len() < needed {
        return Err(QuantError::ShapeMismatch);
    }
    let ghost p0 = packed@;
    let mut g: usize = 0;
    while g < needed
        invariant
            n == trits@.len(),
            all_trits(trits@),
            needed == packed_len_spec(n as int),
            needed <= packed@.len(),
            packed@.len() == p0.len(),
            g <= needed,
            forall|j: int| 0 <= j < g ==> #[trigger] packed@[j] == group_code(trits@, j),
            forall|j: int| g <= j < packed@.len() ==> #[trigger] packed@[j] == p0[j],
        decreases needed - g,
    {
        let base = g * 5;
        let mut code: u8 = 0;
        let mut mul: u8 = 1;
        let mut k: usize = 0;
        while k < 5
            invariant
                n == trits@.len(),
                all_trits(trits@),
                base == 5 * g,
                g < needed,
                needed == packed_len_spec(n as int),
                k <= 5,
                mul == (if k == 0 {
                    1int
                } else if k == 1 {
                    3int
                } else if k == 2 {
                    9int
                } else if k == 3 {
                    27int
                } else {
                    81int
                }),
                code == (if k >= 1 {
                    trit_at(trits@, base as int)
                } else {
                    0
                }) + (if k >= 2 {
                    3 * trit_at(trits@, base + 1)
                } else {
                    0
                }) + (if k >= 3 {
                    9 * trit_at(trits@, base + 2)
                } else {
                    0
                }) + (if k >= 4 {
                    27 * trit_at(trits@, base + 3)
                } else {
                    0
                }) + (if k >= 5 {
                    81 * trit_at(trits@, base + 4)
                } else {
                    0
                }),
            decreases 5 - k,
        {
            let idx = base + k;
            let t: u8 = if idx < n {
                trits[idx]
            } else {
                0
            };
            code = code + t * mul;
            if k < 4 {
                mul = mul * 3;
            }
            k = k + 1;
        }
        packed[g] = code;
        g = g + 1;
    }
    Ok(())
}

/// Trit `i` of a packed code.
pub open spec fn unpacked_trit(packed: Seq<u8>, i: int) -> int {
    let code = packed[i / 5] as int;
    let j = i % 5;
    if j == 0 {
        code % 3
    } else if j == 1 {
        (code / 3) % 3
    } else if j == 2 {
        (code / 9) % 3
    } else if j == 3 {
        (code / 27) % 3
    } else {
        (code / 81) % 3
    }
}

/// Reads `n` trits back out of a packed code; `ShapeMismatch` when the code
/// is shorter than `ternary_packed_len(n)`.
pub fn unpack_ternary(packed: &[u8], n: usize) -> (r: Result<Vec<u8>, QuantError>)
    ensures
        r is Ok <==> packed@.len() >= packed_len_spec(n as int),
        r matches Ok(t) ==> t@.len() == n && forall|i: int|
            0 <= i < n ==> #[trigger] t@[i] == unpacked_trit(packed@, i),
        r matches Err(e) ==> e == QuantError::ShapeMismatch,
{
    let needed = ternary_packed_len(n);
    if packed.len() < needed {
        return Err(QuantError::ShapeMismatch);
    }
    let mut out: Vec<u8> = Vec::new();
    let mut i: usize = 0;
    while i < n
        invariant
            needed == packed_len_spec(n as int),
            needed <= packed@.len(),
            i <= n,
            out@.len() == i,
            forall|j: int| 0 <= j < i ==> #[trigger] out@[j] == unpacked_trit(packed@, j),
        decreases n - i,
    {
        let mut code = packed[i / 5];
        let j = i % 5;
        let mut s: usize = 0;
        while s < j
            invariant
                j == i % 5,
                s <= j,
                code == (if s == 0 {
                    packed@[(i / 5) as int] as int
                } else if s == 1 {
                    packed@[(i / 5) as int] as int / 3
                } else if s == 2 {
                    packed@[(i / 5) as int] as int / 9
                } else if s == 3 {
                    packed@[(i / 5) as int] as int / 27
                } else {
                    packed@[(i / 5) as int] as int / 81
                }),
            decreases j - s,
        {
            code = code / 3;
            s = s + 1;
        }
        out.push(code % 3);
        i = i + 1;
    }
    Ok(out)
}

proof fn lemma_digits(t0: u8, t1: u8, t2: u8, t3: u8, t4: u8)
    requires
        t0 <= 2,
        t1 <= 2,
        t2 <= 2,
        t3 <= 2,
        t4 <= 2,
    ensures
        ({
            let c = t0 + 3 * t1 + 9 * t2 + 27 * t3 + 81 * t4;
            &&& c <= 242
            &&& c % 3 == t0
            &&& (c / 3) % 3 == t1
            &&& (c / 9) % 3 == t2
            &&& (c / 27) % 3 == t3
            &&& (c / 81) % 3 == t4
        }),
{
    let c = t0 + 3 * t1 + 9 * t2 + 27 * t3 + 81 * t4;
    assert(c % 3 == t0) by (nonlinear_arith)
        requires
            c == t0 + 3 * t1 + 9 * t2 + 27 * t3 + 81 * t4,
            t0 <= 2,
    ;
    assert(c / 3 == t1 + 3 * t2 + 9 * t3 + 27 * t4) by (nonlinear_arith)
        requires
            c == t0 + 3 * t1 + 9 * t2 + 27 * t3 + 81 * t4,
            t0 <= 2,
    ;
    assert(c / 9 == t2 + 3 * t3 + 9 * t4) by (nonlinear_arith)
        requires
            c == t0 + 3 * t1 + 9 * t2 + 27 * t3 + 81 * t4,
            t0 <= 2,
            t1 <= 2,
    ;
    assert(c / 27 == t3 + 3 * t4) by (nonlinear_arith)
        requires
            c == t0 + 3 * t1 + 9 * t2 + 27 * t3 + 81 * t4,
            t0 <= 2,
            t1 <= 2,
            t2 <= 2,
    ;
    assert(c / 81 == t4) by (nonlinear_arith)
        requires
            c == t0 + 3 * t1 + 9 * t2 + 27 * t3 + 81 * t4,
            t0 <= 2,
            t1 <= 2,
            t2 <= 2,
            t3 <= 2,
    ;
}

/// Packing is lossless: reading trit `i` back from the packed code gives
/// trit `i` of the input, for every trit of the input.
pub proof fn law_ternary_roundtrip(trits: Seq<u8>, packed: Seq<u8>)
    requires
        all_trits(trits),
        packed.len() >= packed_len_spec(trits.len() as int),
        forall|g: int|
            0 <= g < packed_len_spec(trits.len() as int) ==> #[trigger] packed[g] == group_code(
                trits,
                g,
            ),
    ensures
        forall|i: int| 0 <= i < trits.len() ==> #[trigger] unpacked_trit(packed, i) == trits[i],
{
    assert forall|i: int| 0 <= i < trits.len() implies #[trigger] unpacked_trit(packed, i)
        == trits[i] by {
        let g = i / 5;
        assert(0 <= g < packed_len_spec(trits.len() as int));
        let b = 5 * g;
        assert(packed[g] == group_code(trits, g));
        let t0 = trit_at(trits, b) as u8;
        let t1 = trit_at(trits, b + 1) as u8;
        let t2 = trit_at(trits, b + 2) as u8;
        let t3 = trit_at(trits, b + 3) as u8;
        let t4 = trit_at(trits, b + 4) as u8;
        assert(0 <= trit_at(trits, b) <= 2);
        assert(0 <= trit_at(trits, b + 1) <= 2);
        assert(0 <= trit_at(trits, b + 2) <= 2);
        assert(0 <= trit_at(trits, b + 3) <= 2);
        assert(0 <= trit_at(trits, b + 4) <= 2);
        lemma_digits(t0, t1, t2, t3, t4);
    }
}

// ---------------------------------------------------------------- quantizing

/// `0.7` as an `f32` bit pattern: the fraction of the mean magnitude below
/// which a value quantizes to zero.
pub const THRESHOLD_RATIO_BITS: u32 = 0x3f33_3333;

/// The running sum of magnitudes, added from the first value on.
pub open spec fn abs_sum<T: Float>(s: Seq<T>) -> T
    decreases s.len(),
{
    if s.len() == 0 {
        T::zero_spec()
    } else {
        abs_sum(s.drop_last()).plus_spec(s.last().abs_spec())
    }
}

/// The mean magnitude of the values.
pub open spec fn mean_abs<T: Float>(s: Seq<T>) -> T {
    abs_sum(s).over_spec(T::from_usize_spec(s.len() as usize))
}

/// The trit of `v`: 2 above `threshold`, 0 below `-threshold`, 1 between.
pub open spec fn trit_of<T: Float>(v: T, threshold: T) -> u8 {
    if threshold.lt_spec(v) {
        2
    } else if v.lt_spec(threshold.neg_spec()) {
        0
    } else {
        1
    }
}

/// The trits of all values at the threshold `0.7 * mean_abs`.
pub open spec fn ternary_trits<T: Float>(s: Seq<T>) -> Seq<u8> {
    let threshold = T::from_f32_bits_spec(THRESHOLD_RATIO_BITS).times_spec(mean_abs(s));
    s.map_values(|v: T| trit_of(v, threshold))
}

/// The scale a quantized row is read back with: the mean magnitude, or 1
/// when that is not positive.
pub open spec fn ternary_scale<T: Float>(s: Seq<T>) -> T {
    if mean_abs(s).le_spec(T::zero_spec()) {
        T::one_spec()
    } else {
        mean_abs(s)
    }
}

fn encode_trit<T: Float>(v: T, threshold: T) -> (r: u8)
    ensures
        r == trit_of(v, threshold),
{
    if threshold.lt(v) {
        2
    } else if v.lt(threshold.neg()) {
        0
    } else {
        1
    }
}

/// Quantizes `input` to trits at the threshold `0.7 * mean |v|` and packs
/// them into the start of `packed`, returning the scale to read them back
/// with. An empty input is `Empty`, a buffer shorter than
/// `ternary_packed_len` is `ShapeMismatch`, and on an error `packed` is left
/// alone; bytes past the packed length are never touched.
pub fn quantize_ternary<T: Float>(input: &[T], packed: &mut [u8]) -> (r: Result<T, QuantError>)
    ensures
        input@.len() == 0 ==> r == Err::<T, QuantError>(QuantError::Empty),
        input@.len() > 0 && old(packed)@.len() < packed_len_spec(input@.len() as int) ==> r
            == Err::<T, QuantError>(QuantError::ShapeMismatch),
        r is Err ==> final(packed)@ == old(packed)@,
        input@.len() > 0 && old(packed)@.len() >= packed_len_spec(input@.len() as int) ==> {
            &&& r == Ok::<T, QuantError>(ternary_scale(input@))
            &&& final(packed)@.len() == old(packed)@.len()
            &&& forall|g: int|
                0 <= g < packed_len_spec(input@.len() as int) ==> #[trigger] final(packed)@[g]
                    == group_code(ternary_trits(input@), g)
            &&& forall|g: int|
                packed_len_spec(input@.len() as int) <= g < old(packed)@.len()
                    ==> #[trigger] final(packed)@[g] == old(packed)@[g]
        },
{
    let n = input.len();
    if n == 0 {
        return Err(QuantError::Empty);
    }
    let needed = ternary_packed_len(n);
    if packed.len() < needed {
        return Err(QuantError::ShapeMismatch);
    }
    let mut sum = T::zero();
    let mut i: usize = 0;
    while i < n
        invariant
            n == input@.len(),
            i <= n,
            sum == abs_sum(input@.subrange(0, i as int)),
        decreases n - i,
    {
        assert(input@.subrange(0, i + 1).drop_last() =~= input@.subrange(0, i as int));
        sum = sum.plus(input[i].abs());
        i = i + 1;
    }
    assert(input@.subrange(0, n as int) =~= input@);
    let mean = sum.over(T::from_usize(n));
    let scale = if mean.le(T::zero()) {
        T::one()
    } else {
        mean
    };
    let threshold = T::from_f32_bits(THRESHOLD_RATIO_BITS).times(mean);
    let mut trits: Vec<u8> = Vec::new();
    let mut k: usize = 0;
    while k < n
        invariant
            n == input@.len(),
            k <= n,
            threshold == T::from_f32_bits_spec(THRESHOLD_RATIO_BITS).times_spec(mean_abs(input@)),
            trits@.len() == k,
            forall|j: int| 0 <= j < k ==> #[trigger] trits@[j] == trit_of(input@[j], threshold),
        decreases n - k,
    {
        trits.push(encode_trit(input[k], threshold));
        k = k + 1;
    }
    assert(trits@ =~= ternary_trits(input@));
    assert(all_trits(trits@));
    let packed_result = pack_ternary(&trits, packed);
    match packed_result {
        Ok(()) => Ok(scale),
        Err(e) => Err(e),
    }
}

// ---------------------------------------------------------------- ternary matvec

/// Trit `i` of a packed code that starts at byte `start`.
pub open spec fn trit_in(packed: Seq<u8>, start: int, i: int) -> int {
    let code = packed[start + i / 5] as int;
    let j = i % 5;
    if j == 0 {
        code % 3
    } else if j == 1 {
        (code / 3) % 3
    } else if j == 2 {
        (code / 9) % 3
    } else if j == 3 {
        (code / 27) % 3
    } else {
        (code / 81) % 3
    }
}

fn trit_at_offset(packed: &[u8], start: usize, i: usize) -> (r: u8)
    requires
        start + i / 5 < packed@.len(),
    ensures
        r == trit_in(packed@, start as int, i as int),
        r <= 2,
{
    let plen = packed.len();
    assert(start + i / 5 < plen);
    let mut code = packed[start + i / 5];
    let j = i % 5;
    let ghost c0 = code as int;
    let mut s: usize = 0;
    while s < j
        invariant
            j == i % 5,
            s <= j,
            c0 == packed@[start + i / 5] as int,
            code == (if s == 0 {
                c0
            } else if s == 1 {
                c0 / 3
            } else if s == 2 {
                c0 / 9
            } else if s == 3 {
                c0 / 27
            } else {
                c0 / 81
            }),
        decreases j - s,
    {
        code = code / 3;
        s = s + 1;
    }
    code % 3
}

/// The dot product of `inp[..n]` with the trits, read as -1, 0 or +1, of
/// the packed row that starts at byte `start`, summed from the first term
/// on.
pub open spec fn ternary_dot<T: Float>(inp: Seq<T>, packed: Seq<u8>, start: int, n: nat) -> T
    decreases n,
{
    if n == 0 {
        T::zero_spec()
    } else {
        let i = n - 1;
        ternary_dot(inp, packed, start, i as nat).plus_spec(
            inp[i].times_spec(T::from_i32_spec((trit_in(packed, start, i) - 1) as i32)),
        )
    }
}

/// Multiplies the input by a ternary matrix of `out_d` packed rows of
/// `in_d` trits each (row `o` starts at byte `o * ternary_packed_len(in_d)`
/// and is scaled by `w_scales[o]`), writing `out[..out_d]`. A zero dimension
/// is `Empty`; a buffer too short is `ShapeMismatch`. On an error, and past
/// `out_d`, `out` is left alone.
pub fn matvec_ternary<T: Float>(
    inp: &[T],
    w_packed: &[u8],
    w_scales: &[T],
    in_d: usize,
    out_d: usize,
    out: &mut [T],
) -> (r: Result<(), QuantError>)
    ensures
        in_d == 0 || out_d == 0 ==> r == Err::<(), QuantError>(QuantError::Empty),
        in_d > 0 && out_d > 0 ==> (r is Ok <==> packed_len_spec(in_d as int) * out_d <= usize::MAX
            && inp@.len() >= in_d && w_packed@.len() >= packed_len_spec(in_d as int) * out_d
            && w_scales@.len() >= out_d && old(out)@.len() >= out_d),
        r is Err ==> final(out)@ == old(out)@,
        r is Err && in_d > 0 && out_d > 0 ==> r == Err::<(), QuantError>(QuantError::ShapeMismatch),
        r is Ok ==> {
            &&& final(out)@.len() == old(out)@.len()
            &&& forall|o: int|
                0 <= o < out_d ==> #[trigger] final(out)@[o] == ternary_dot(
                    inp@,
                    w_packed@,
                    o * packed_len_spec(in_d as int),
                    in_d as nat,
                ).times_spec(w_scales@[o])
            &&& forall|o: int| out_d <= o < old(out)@.len() ==> #[trigger] final(out)@[o] == old(
                out,
            )@[o]
        },
{
    if in_d == 0 || out_d == 0 {
        return Err(QuantError::Empty);
    }
    let row_bytes = ternary_packed_len(in_d);
    let total = match row_bytes.checked_mul(out_d) {
        Some(t) => t,
        None => {
            return Err(QuantError::ShapeMismatch);
        },
    };
    if inp.len() < in_d || w_packed.len() < total || w_scales.len() < out_d || out.len() < out_d {
        return Err(QuantError::ShapeMismatch);
    }
    let ghost o0 = out@;
    let mut o: usize = 0;
    while o < out_d
        invariant
            row_bytes == packed_len_spec(in_d as int),
            total == row_bytes * out_d,
            in_d <= inp@.len(),
            total <= w_packed@.len(),
            out_d <= w_scales@.len(),
            out_d <= o0.len(),
            out@.len() == o0.len(),
            o <= out_d,
            forall|k: int|
                0 <= k < o ==> #[trigger] out@[k] == ternary_dot(
                    inp@,
                    w_packed@,
                    k * row_bytes,
                    in_d as nat,
                ).times_spec(w_scales@[k]),
            forall|k: int| o <= k < o0.len() ==> #[trigger] out@[k] == o0[k],
        decreases out_d - o,
    {
        proof {
            assert((o + 1) * row_bytes <= out_d * row_bytes) by (nonlinear_arith)
                requires
                    o + 1 <= out_d,
            ;
            assert((o + 1) * row_bytes == o * row_bytes + row_bytes) by (nonlinear_arith);
            assert(out_d * row_bytes == row_bytes * out_d) by (nonlinear_arith);
        }
        let base = o * row_bytes;
        let mut acc = T::zero();
        let mut i: usize = 0;
        while i < in_d
            invariant
                row_bytes == packed_len_spec(in_d as int),
                base + row_bytes <= w_packed@.len(),
                in_d <= inp@.len(),
                i <= in_d,
                acc == ternary_dot(inp@, w_packed@, base as int, i as nat),
            decreases in_d - i,
        {
            let t = trit_at_offset(w_packed, base, i);
            let signed: i32 = (t as i32) - 1;
            acc = acc.plus(inp[i].times(T::from_i32(signed)));
            i = i + 1;
        }
        out[o] = acc.times(w_scales[o]);
        o = o + 1;
    }
    Ok(())
}

/// What `quantize_ternary` packs is what `matvec_ternary` reads: trit `i`
/// of the packed row, read from its first byte, is the trit value `i` was
/// quantized to.
pub proof fn law_quantized_trits_read_back<T: Float>(input: Seq<T>, packed: Seq<u8>)
    requires
        packed.len() >= packed_len_spec(input.len() as int),
        forall|g: int|
            0 <= g < packed_len_spec(input.len() as int) ==> #[trigger] packed[g] == group_code(
                ternary_trits(input),
                g,
            ),
    ensures
        forall|i: int|
            0 <= i < input.len() ==> #[trigger] trit_in(packed, 0, i) == ternary_trits(input)[i],
{
    let t = ternary_trits(input);
    assert(all_trits(t));
    law_ternary_roundtrip(t, packed);
    assert forall|i: int| 0 <= i < input.len() implies #[trigger] trit_in(packed, 0, i) == t[i] by {
        assert(unpacked_trit(packed, i) == t[i]);
    }
}

/// Quantization reads each value against `0.7` times the mean magnitude:
/// above the threshold is trit 2 (+1), below its negation trit 0 (-1), and
/// anything between trit 1 (0); the mean is the sum of magnitudes over the
/// count, and the scale is that mean unless it is not positive.
pub proof fn law_ternary_thresholds<T: Float>(s: Seq<T>, x: T, i: int)
    requires
        0 <= i < s.len(),
    ensures
        ({
            let th = T::from_f32_bits_spec(THRESHOLD_RATIO_BITS).times_spec(
                abs_sum(s).over_spec(T::from_usize_spec(s.len() as usize)),
            );
            &&& th.lt_spec(s[i]) ==> ternary_trits(s)[i] == 2
            &&& !th.lt_spec(s[i]) && s[i].lt_spec(th.neg_spec()) ==> ternary_trits(s)[i] == 0
            &&& !th.lt_spec(s[i]) && !s[i].lt_spec(th.neg_spec()) ==> ternary_trits(s)[i] == 1
        }),
        abs_sum(s.push(x)) == abs_sum(s).plus_spec(x.abs_spec()),
        abs_sum(Seq::<T>::empty()) == T::zero_spec(),
        ternary_scale(s) == if mean_abs(s).le_spec(T::zero_spec()) {
            T::one_spec()
        } else {
            abs_sum(s).over_spec(T::from_usize_spec(s.len() as usize))
        },
{
    assert(s.push(x).drop_last() =~= s);
}

/// The ternary product reads trits as -1, 0 and +1: each input value adds
/// itself times `trit - 1` to the running sum, which starts at zero.
pub proof fn law_ternary_dot_signed<T: Float>(inp: Seq<T>, packed: Seq<u8>, start: int, n: nat)
    ensures
        ternary_dot(inp, packed, start, 0) == T::zero_spec(),
        ternary_dot(inp, packed, start, n + 1) == ternary_dot(inp, packed, start, n).plus_spec(
            inp[n as int].times_spec(T::from_i32_spec((trit_in(packed, start, n as int) - 1) as i32)),
        ),
{
}

} // verus!
