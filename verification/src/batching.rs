use vstd::prelude::*;

verus! {

broadcast use vstd::slice::group_slice_axioms;

/// Errors reported by the batching helpers.
#[derive(Clone, Copy, Debug, PartialEq, Eq)]
pub enum BatchError {
    ShapeMismatch,
    Empty,
}

/// The token that cell `t` of a row of width `max_len` receives from `seq`.
pub open spec fn padded_cell(seq: Seq<u32>, t: int, pad_id: u32) -> u32 {
    if t < seq.len() {
        seq[t]
    } else {
        pad_id
    }
}

/// `out` holds, row after row, each sequence cut or padded to `max_len` cells;
/// what lies past the last row is `rest`.
pub open spec fn is_padded_batch(
    sequences: Seq<&[u32]>,
    pad_id: u32,
    max_len: int,
    out: Seq<u32>,
    rest: Seq<u32>,
) -> bool {
    &&& out.len() == rest.len()
    &&& forall|b: int, t: int|
        0 <= b < sequences.len() && 0 <= t < max_len ==> #[trigger] out[b * max_len + t]
            == padded_cell(sequences[b]@, t, pad_id)
    &&& forall|i: int| sequences.len() * max_len <= i < out.len() ==> #[trigger] out[i] == rest[i]
}

/// A cell of an earlier row lies before the first cell of row `b`.
proof fn lemma_row_cell_below(bb: int, b: int, t: int, width: int)
    requires
        0 <= bb < b,
        0 <= t < width,
    ensures
        0 <= bb * width + t < b * width,
{
    vstd::arithmetic::mul::lemma_mul_is_distributive_add_other_way(width, bb, 1);
    vstd::arithmetic::mul::lemma_mul_inequality(bb + 1, b, width);
    vstd::arithmetic::mul::lemma_mul_nonnegative(bb, width);
}

/// Writes `sequences` into `out` as a row-major `[sequences.len(), max_len]`
/// matrix, truncating long sequences and padding short ones with `pad_id`.
pub fn pad_sequences_u32(
    sequences: &[&[u32]],
    pad_id: u32,
    out: &mut [u32],
    max_len: usize,
) -> (r: Result<(), BatchError>)
    ensures
        (sequences@.len() == 0 || max_len == 0) <==> r == Err::<(), BatchError>(BatchError::Empty),
        r == Err::<(), BatchError>(BatchError::ShapeMismatch) <==> (sequences@.len() > 0 && max_len
            > 0 && sequences@.len() * max_len > old(out)@.len()),
        r is Ok ==> is_padded_batch(sequences@, pad_id, max_len as int, final(out)@, old(out)@),
        r is Err ==> final(out)@ == old(out)@,
{
    let out_len = out.len();
    if sequences.len() == 0 || max_len == 0 {
        return Err(BatchError::Empty);
    }
    let needed = match sequences.len().checked_mul(max_len) {
        Some(v) => v,
        None => {
            assert(sequences@.len() * max_len > out_len);
            return Err(BatchError::ShapeMismatch);
        },
    };
    if out.len() < needed {
        return Err(BatchError::ShapeMismatch);
    }
    let n = sequences.len();
    let ghost old_out = out@;
    let mut b: usize = 0;
    while b < n
        invariant
            n == sequences@.len(),
            needed == n * max_len,
            needed <= out@.len(),
            b <= n,
            out@.len() == old_out.len(),
            forall|bb: int, t: int|
                0 <= bb < b && 0 <= t < max_len ==> #[trigger] out@[bb * max_len + t]
                    == padded_cell(sequences@[bb]@, t, pad_id),
            forall|i: int| b * max_len <= i < out@.len() ==> #[trigger] out@[i] == old_out[i],
        decreases n - b,
    {
        let seq: &[u32] = sequences[b];
        proof {
            vstd::arithmetic::mul::lemma_mul_is_distributive_add_other_way(max_len as int, b as int, 1);
            vstd::arithmetic::mul::lemma_mul_inequality(b as int + 1, n as int, max_len as int);
        }
        let base: usize = b * max_len;
        let ghost row_start = out@;
        let mut t: usize = 0;
        while t < max_len
            invariant
                n == sequences@.len(),
                needed == n * max_len,
                needed <= out@.len(),
                b < n,
                base == b * max_len,
                (b + 1) * max_len <= needed,
                (b + 1) * max_len == base + max_len,
                seq@ == sequences@[b as int]@,
                t <= max_len,
                out@.len() == old_out.len(),
                forall|i: int| 0 <= i < base ==> #[trigger] out@[i] == row_start[i],
                forall|tt: int| 0 <= tt < t ==> #[trigger] out@[base + tt] == padded_cell(seq@, tt, pad_id),
                forall|i: int| base + t <= i < out@.len() ==> #[trigger] out@[i] == old_out[i],
            decreases max_len - t,
        {
            let v = if t < seq.len() {
                seq[t]
            } else {
                pad_id
            };
            out[base + t] = v;
            t = t + 1;
        }
        proof {
            assert forall|bb: int, tt: int|
                0 <= bb < b + 1 && 0 <= tt < max_len implies #[trigger] out@[bb * max_len + tt]
                    == padded_cell(sequences@[bb]@, tt, pad_id) by {
                if bb == b {
                    assert(out@[base + tt] == padded_cell(seq@, tt, pad_id));
                } else {
                    lemma_row_cell_below(bb, b as int, tt, max_len as int);
                    assert(out@[bb * max_len + tt] == row_start[bb * max_len + tt]);
                }
            }
        }
        b = b + 1;
    }
    Ok(())
}

} // verus!

verus! {

/// `out_mask[i]` is 0 where `tokens[i]` is the padding token, 1 elsewhere.
pub open spec fn mask_bit(tok: u32, pad_id: u32) -> u8 {
    if tok == pad_id {
        0
    } else {
        1
    }
}

/// Fills `out_mask` with 0 where a token equals `pad_id` and 1 elsewhere.
pub fn make_padding_mask(tokens: &[u32], pad_id: u32, out_mask: &mut [u8]) -> (r: Result<
    (),
    BatchError,
>)
    ensures
        tokens@.len() == 0 <==> r == Err::<(), BatchError>(BatchError::Empty),
        r == Err::<(), BatchError>(BatchError::ShapeMismatch) <==> (tokens@.len() > 0
            && old(out_mask)@.len() < tokens@.len()),
        final(out_mask)@.len() == old(out_mask)@.len(),
        r is Ok ==> forall|i: int|
            0 <= i < old(out_mask)@.len() ==> #[trigger] final(out_mask)@[i] == if i
                < tokens@.len() {
                mask_bit(tokens@[i], pad_id)
            } else {
                old(out_mask)@[i]
            },
        r is Err ==> final(out_mask)@ == old(out_mask)@,
{
    if tokens.len() == 0 {
        return Err(BatchError::Empty);
    }
    if out_mask.len() < tokens.len() {
        return Err(BatchError::ShapeMismatch);
    }
    let ghost old_mask = out_mask@;
    let mut i: usize = 0;
    while i < tokens.len()
        invariant
            tokens@.len() <= out_mask@.len(),
            out_mask@.len() == old_mask.len(),
            i <= tokens@.len(),
            forall|j: int| 0 <= j < i ==> #[trigger] out_mask@[j] == mask_bit(tokens@[j], pad_id),
            forall|j: int| i <= j < out_mask@.len() ==> #[trigger] out_mask@[j] == old_mask[j],
        decreases tokens@.len() - i,
    {
        out_mask[i] = if tokens[i] == pad_id {
            0
        } else {
            1
        };
        i = i + 1;
    }
    Ok(())
}

/// Calls `f(r, row)` on each consecutive row of `row_width` tokens, in order,
/// when `tokens` splits into whole rows; reports whether it did. `f` must
/// accept each row index with the tokens of that row, the only arguments it
/// is given.
pub fn for_each_token_row<F: FnMut(usize, &[u32])>(tokens: &[u32], row_width: usize, mut f: F) -> (r:
    bool)
    requires
        forall|row: usize, s: &[u32]|
            row_width > 0 && row < (tokens@.len() as int) / (row_width as int) && s@ == tokens@.subrange(
                row * row_width,
                row * row_width + row_width,
            ) ==> #[trigger] call_requires(f, (row, s)),
    ensures
        r <==> (row_width > 0 && (tokens@.len() as int) % (row_width as int) == 0),
{
    let n = tokens.len();
    if row_width == 0 || n % row_width != 0 {
        return false;
    }
    let rows = n / row_width;
    let mut r: usize = 0;
    while r < rows
        invariant
            row_width > 0,
            rows == (tokens@.len() as int) / (row_width as int),
            n == tokens@.len(),
            (n as int) % (row_width as int) == 0,
            r <= rows,
            forall|row: usize, s: &[u32]|
                row_width > 0 && row < (tokens@.len() as int) / (row_width as int) && s@ == tokens@.subrange(
                    row * row_width,
                    row * row_width + row_width,
                ) ==> #[trigger] call_requires(f, (row, s)),
        decreases rows - r,
    {
        proof {
            vstd::arithmetic::div_mod::lemma_fundamental_div_mod(tokens@.len() as int, row_width as int);
            vstd::arithmetic::mul::lemma_mul_inequality(r as int + 1, rows as int, row_width as int);
            vstd::arithmetic::mul::lemma_mul_is_distributive_add_other_way(row_width as int, r as int, 1);
        }
        let off = r * row_width;
        let row = vstd::slice::slice_subrange(tokens, off, off + row_width);
        f(r, row);
        r = r + 1;
    }
    true
}

/// The number of entries of `tokens` that differ from `pad_id`.
pub open spec fn non_pad_count(tokens: Seq<u32>, pad_id: u32) -> nat
    decreases tokens.len(),
{
    if tokens.len() == 0 {
        0
    } else {
        non_pad_count(tokens.drop_last(), pad_id) + if tokens.last() != pad_id {
            1nat
        } else {
            0nat
        }
    }
}

proof fn lemma_non_pad_count_bound(tokens: Seq<u32>, pad_id: u32)
    ensures
        non_pad_count(tokens, pad_id) <= tokens.len(),
    decreases tokens.len(),
{
    if tokens.len() > 0 {
        lemma_non_pad_count_bound(tokens.drop_last(), pad_id);
    }
}

/// Counts the tokens that are not `pad_id`.
pub fn count_non_pad(tokens: &[u32], pad_id: u32) -> (c: usize)
    ensures
        c == non_pad_count(tokens@, pad_id),
{
    let mut c: usize = 0;
    let mut i: usize = 0;
    while i < tokens.len()
        invariant
            i <= tokens@.len(),
            c == non_pad_count(tokens@.take(i as int), pad_id),
        decreases tokens@.len() - i,
    {
        proof {
            assert(tokens@.take(i as int + 1).drop_last() =~= tokens@.take(i as int));
            lemma_non_pad_count_bound(tokens@.take(i as int), pad_id);
        }
        if tokens[i] != pad_id {
            c = c + 1;
        }
        i = i + 1;
    }
    assert(tokens@.take(tokens@.len() as int) =~= tokens@);
    c
}

/// The length of the longest sequence (0 for a list of empty sequences).
pub open spec fn longest(sequences: Seq<&[u32]>) -> nat
    decreases sequences.len(),
{
    if sequences.len() == 0 {
        0
    } else {
        let m = longest(sequences.drop_last());
        if sequences.last()@.len() > m {
            sequences.last()@.len()
        } else {
            m
        }
    }
}

/// The length of the longest sequence, or `None` for an empty list.
pub fn max_sequence_len(sequences: &[&[u32]]) -> (r: Option<usize>)
    ensures
        sequences@.len() == 0 <==> r is None,
        r matches Some(m) ==> m == longest(sequences@),
{
    if sequences.len() == 0 {
        return None;
    }
    let mut max_len: usize = 0;
    let mut i: usize = 0;
    while i < sequences.len()
        invariant
            i <= sequences@.len(),
            max_len == longest(sequences@.take(i as int)),
        decreases sequences@.len() - i,
    {
        proof {
            assert(sequences@.take(i as int + 1).drop_last() =~= sequences@.take(i as int));
        }
        let s: &[u32] = sequences[i];
        if s.len() > max_len {
            max_len = s.len();
        }
        i = i + 1;
    }
    assert(sequences@.take(sequences@.len() as int) =~= sequences@);
    Some(max_len)
}

/// Writes the length of each sequence into `out`, when `out` is long enough.
pub fn sequence_lengths(sequences: &[&[u32]], out: &mut [usize]) -> (r: bool)
    ensures
        r <==> sequences@.len() <= old(out)@.len(),
        final(out)@.len() == old(out)@.len(),
        forall|i: int|
            0 <= i < old(out)@.len() ==> #[trigger] final(out)@[i] == if r && i
                < sequences@.len() {
                sequences@[i]@.len() as usize
            } else {
                old(out)@[i]
            },
{
    if out.len() < sequences.len() {
        return false;
    }
    let ghost old_out = out@;
    let mut i: usize = 0;
    while i < sequences.len()
        invariant
            sequences@.len() <= out@.len(),
            out@.len() == old_out.len(),
            i <= sequences@.len(),
            forall|j: int| 0 <= j < i ==> #[trigger] out@[j] == sequences@[j]@.len() as usize,
            forall|j: int| i <= j < out@.len() ==> #[trigger] out@[j] == old_out[j],
        decreases sequences@.len() - i,
    {
        let s: &[u32] = sequences[i];
        out[i] = s.len();
        i = i + 1;
    }
    true
}

} // verus!
