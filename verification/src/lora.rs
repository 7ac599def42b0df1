//! Low-rank adapters: merging `B A` into a weight matrix, and the adapter's
//! contribution to a forward pass. Matrices are row-major.
use crate::math::Float;
use vstd::prelude::*;

verus! {

broadcast use vstd::slice::group_slice_axioms;

/// Errors of the adapter kernels.
#[derive(Clone, Copy, Debug, PartialEq, Eq, Structural)]
pub enum LoraError {
    ShapeMismatch,
}

/// The position of entry `(r, j)` of a row-major matrix with `cols` columns.
pub open spec fn idx(r: int, j: int, cols: int) -> int {
    r * cols + j
}

proof fn lemma_idx_in_row(r: int, j: int, cols: int)
    requires
        0 <= j < cols,
        0 <= r,
    ensures
        r * cols <= idx(r, j, cols) < (r + 1) * cols,
{
    assert((r + 1) * cols == r * cols + cols) by (nonlinear_arith);
}

proof fn lemma_rows_ordered(r1: int, r2: int, cols: int)
    requires
        0 <= r1 < r2,
        0 <= cols,
    ensures
        (r1 + 1) * cols <= r2 * cols,
{
    assert((r1 + 1) * cols <= r2 * cols) by (nonlinear_arith)
        requires
            r1 + 1 <= r2,
            0 <= cols,
    ;
}

/// `x[xo] * y[yo] + ... + x[xo + n - 1] * y[yo + n - 1]`, summed from the
/// first term on.
pub open spec fn dot_at<T: Float>(x: Seq<T>, xo: int, y: Seq<T>, yo: int, n: nat) -> T
    decreases n,
{
    if n == 0 {
        T::zero_spec()
    } else {
        let i = n - 1;
        dot_at(x, xo, y, yo, i as nat).plus_spec(x[xo + i].times_spec(y[yo + i]))
    }
}

fn dot<T: Float>(x: &[T], xo: usize, y: &[T], yo: usize, n: usize) -> (r: T)
    requires
        xo + n <= x@.len(),
        yo + n <= y@.len(),
    ensures
        r == dot_at(x@, xo as int, y@, yo as int, n as nat),
{
    let xlen = x.len();
    let ylen = y.len();
    let mut acc = T::zero();
    let mut i: usize = 0;
    while i < n
        invariant
            xlen == x@.len(),
            ylen == y@.len(),
            xo + n <= x@.len(),
            yo + n <= y@.len(),
            i <= n,
            acc == dot_at(x@, xo as int, y@, yo as int, i as nat),
        decreases n - i,
    {
        acc = acc.plus(x[xo + i].times(y[yo + i]));
        i = i + 1;
    }
    acc
}

/// Adds `alpha * x[xo..xo + n]` to `w[wo..wo + n]`.
fn axpy<T: Float>(w: &mut [T], wo: usize, alpha: T, x: &[T], xo: usize, n: usize)
    requires
        wo + n <= old(w)@.len(),
        xo + n <= x@.len(),
    ensures
        final(w)@.len() == old(w)@.len(),
        forall|j: int|
            0 <= j < n ==> #[trigger] final(w)@[wo + j] == old(w)@[wo + j].plus_spec(
                alpha.times_spec(x@[xo + j]),
            ),
        forall|p: int|
            0 <= p < old(w)@.len() && (p < wo || wo + n <= p) ==> #[trigger] final(w)@[p] == old(
                w,
            )@[p],
{
    let ghost w0 = w@;
    let wlen = w.len();
    let xlen = x.len();
    let mut j: usize = 0;
    while j < n
        invariant
            wlen == w0.len(),
            xlen == x@.len(),
            wo + n <= w0.len(),
            xo + n <= x@.len(),
            w@.len() == w0.len(),
            j <= n,
            forall|i: int|
                0 <= i < j ==> #[trigger] w@[wo + i] == w0[wo + i].plus_spec(
                    alpha.times_spec(x@[xo + i]),
                ),
            forall|p: int| 0 <= p < w0.len() && (p < wo || wo + j <= p) ==> #[trigger] w@[p] == w0[p],
        decreases n - j,
    {
        let cur = w[wo + j];
        w[wo + j] = cur.plus(alpha.times(x[xo + j]));
        j = j + 1;
    }
}

/// Entry `(r, j)` of the weight after the first `k` rank-one terms of
/// `scale * B A` have been added to `w`; a term whose coefficient
/// `B[r, k] * scale` has zero magnitude is skipped.
pub open spec fn lora_acc<T: Float>(
    w: T,
    a: Seq<T>,
    b: Seq<T>,
    r: int,
    j: int,
    rank: int,
    cols: int,
    scale: T,
    k: nat,
) -> T
    decreases k,
{
    if k == 0 {
        w
    } else {
        let i = k - 1;
        let prev = lora_acc(w, a, b, r, j, rank, cols, scale, i as nat);
        let bk = b[idx(r, i, rank)].times_spec(scale);
        if T::zero_spec().lt_spec(bk.abs_spec()) {
            prev.plus_spec(bk.times_spec(a[idx(i, j, cols)]))
        } else {
            prev
        }
    }
}

/// The adapter scale `alpha / rank`.
pub open spec fn lora_scale<T: Float>(alpha: T, rank: usize) -> T {
    alpha.over_spec(T::from_usize_spec(rank))
}

/// Adds `(alpha / rank) * B A` to the `rows x cols` weight matrix, with `A`
/// of shape `rank x cols` and `B` of shape `rows x rank`. A non-finite
/// `alpha`, a zero rank or a buffer of the wrong length is `ShapeMismatch`,
/// and leaves the weights alone.
pub fn apply_lora_delta<T: Float>(
    base_weight: &mut [T],
    rows: usize,
    cols: usize,
    a: &[T],
    b: &[T],
    rank: usize,
    alpha: T,
) -> (r: Result<(), LoraError>)
    requires
        rows * cols <= usize::MAX,
        rank * cols <= usize::MAX,
        rows * rank <= usize::MAX,
    ensures
        r is Ok <==> alpha.is_finite_spec() && rank > 0 && old(base_weight)@.len() == rows * cols
            && a@.len() == rank * cols && b@.len() == rows * rank,
        r is Err ==> r == Err::<(), LoraError>(LoraError::ShapeMismatch) && final(base_weight)@
            == old(base_weight)@,
        r is Ok ==> final(base_weight)@.len() == old(base_weight)@.len() && forall|i: int, j: int|
            0 <= i < rows && 0 <= j < cols ==> #[trigger] final(base_weight)@[idx(i, j, cols as int)]
                == lora_acc(
                old(base_weight)@[idx(i, j, cols as int)],
                a@,
                b@,
                i,
                j,
                rank as int,
                cols as int,
                lora_scale(alpha, rank),
                rank as nat,
            ),
{
    if !alpha.is_finite() || rank == 0 {
        return Err(LoraError::ShapeMismatch);
    }
    if base_weight.len() != rows * cols || a.len() != rank * cols || b.len() != rows * rank {
        return Err(LoraError::ShapeMismatch);
    }
    let scale = alpha.over(T::from_usize(rank));
    let ghost w0 = base_weight@;
    let ghost ci = cols as int;
    let ghost ki = rank as int;
    let mut r: usize = 0;
    while r < rows
        invariant
            base_weight@.len() == w0.len(),
            w0.len() == rows * cols,
            a@.len() == rank * cols,
            b@.len() == rows * rank,
            rows * cols <= usize::MAX,
            rank * cols <= usize::MAX,
            rows * rank <= usize::MAX,
            ci == cols,
            ki == rank,
            scale == lora_scale(alpha, rank),
            r <= rows,
            forall|i: int, j: int|
                0 <= i < r && 0 <= j < cols ==> #[trigger] base_weight@[idx(i, j, ci)] == lora_acc(
                    w0[idx(i, j, ci)],
                    a@,
                    b@,
                    i,
                    j,
                    ki,
                    ci,
                    scale,
                    rank as nat,
                ),
            forall|p: int| r * cols <= p < w0.len() ==> #[trigger] base_weight@[p] == w0[p],
        decreases rows - r,
    {
        proof {
            lemma_rows_ordered(r as int, rows as int, cols as int);
            lemma_rows_ordered(r as int, rows as int, rank as int);
            assert((r + 1) * cols == r * cols + cols) by (nonlinear_arith);
            assert((r + 1) * rank == r * rank + rank) by (nonlinear_arith);
        }
        let row_start = r * cols;
        let b_start = r * rank;
        let mut k: usize = 0;
        while k < rank
            invariant
                base_weight@.len() == w0.len(),
                w0.len() == rows * cols,
                a@.len() == rank * cols,
                b@.len() == rows * rank,
                rank * cols <= usize::MAX,
                rows * cols <= usize::MAX,
                rows * rank <= usize::MAX,
                ci == cols,
                ki == rank,
                scale == lora_scale(alpha, rank),
                r < rows,
                row_start == r * cols,
                row_start + cols <= w0.len(),
                b_start == r * rank,
                b_start + rank <= b@.len(),
                k <= rank,
                forall|i: int, j: int|
                    0 <= i < r && 0 <= j < cols ==> #[trigger] base_weight@[idx(i, j, ci)]
                        == lora_acc(w0[idx(i, j, ci)], a@, b@, i, j, ki, ci, scale, rank as nat),
                forall|j: int|
                    0 <= j < cols ==> #[trigger] base_weight@[row_start + j] == lora_acc(
                        w0[row_start + j],
                        a@,
                        b@,
                        r as int,
                        j,
                        ki,
                        ci,
                        scale,
                        k as nat,
                    ),
                forall|p: int| row_start + cols <= p < w0.len() ==> #[trigger] base_weight@[p] == w0[p],
            decreases rank - k,
        {
            let bk = b[b_start + k].times(scale);
            if T::zero().lt(bk.abs()) {
                proof {
                    lemma_rows_ordered(k as int, rank as int, cols as int);
                    assert((k + 1) * cols == k * cols + cols) by (nonlinear_arith);
                }
                let a_start = k * cols;
                let ghost before = base_weight@;
                axpy(base_weight, row_start, bk, a, a_start, cols);
                proof {
                    assert forall|i: int, j: int| 0 <= i < r && 0 <= j < cols implies #[trigger]
                        base_weight@[idx(i, j, ci)] == before[idx(i, j, ci)] by {
                        lemma_idx_in_row(i, j, ci);
                        lemma_rows_ordered(i, r as int, ci);
                    }
                }
            }
            k = k + 1;
        }
        proof {
            assert forall|j: int| 0 <= j < cols implies #[trigger] base_weight@[idx(
                r as int,
                j,
                ci,
            )] == lora_acc(w0[idx(r as int, j, ci)], a@, b@, r as int, j, ki, ci, scale, rank as nat) by {
                assert(idx(r as int, j, ci) == row_start + j);
            }
        }
        r = r + 1;
    }
    Ok(())
}

/// Fills `tmp[row, k]` with `x[row] . A[k]` for every row of `x` and every
/// adapter rank.
fn project_down<T: Float>(
    x: &[T],
    a: &[T],
    tmp: &mut [T],
    rows: usize,
    in_d: usize,
    rank: usize,
)
    requires
        rows * in_d <= x@.len(),
        rank * in_d <= a@.len(),
        rows * rank <= old(tmp)@.len(),
    ensures
        final(tmp)@.len() == old(tmp)@.len(),
        forall|i: int, k: int|
            0 <= i < rows && 0 <= k < rank ==> #[trigger] final(tmp)@[idx(i, k, rank as int)]
                == dot_at(x@, i * in_d, a@, k * in_d, in_d as nat),
        forall|p: int|
            rows * rank <= p < old(tmp)@.len() ==> #[trigger] final(tmp)@[p] == old(tmp)@[p],
{
    let ghost t0 = tmp@;
    let ghost ki = rank as int;
    let xlen = x.len();
    let alen = a.len();
    let tlen = tmp.len();
    let mut row: usize = 0;
    while row < rows
        invariant
            xlen == x@.len(),
            alen == a@.len(),
            tlen == t0.len(),
            tmp@.len() == t0.len(),
            rows * in_d <= x@.len(),
            rank * in_d <= a@.len(),
            rows * rank <= t0.len(),
            ki == rank,
            row <= rows,
            forall|i: int, k: int|
                0 <= i < row && 0 <= k < rank ==> #[trigger] tmp@[idx(i, k, ki)] == dot_at(
                    x@,
                    i * in_d,
                    a@,
                    k * in_d,
                    in_d as nat,
                ),
            forall|p: int| row * rank <= p < t0.len() ==> #[trigger] tmp@[p] == t0[p],
        decreases rows - row,
    {
        proof {
            lemma_rows_ordered(row as int, rows as int, in_d as int);
            lemma_rows_ordered(row as int, rows as int, rank as int);
            assert((row + 1) * in_d == row * in_d + in_d) by (nonlinear_arith);
            assert((row + 1) * rank == row * rank + rank) by (nonlinear_arith);
        }
        let x_start = row * in_d;
        let t_start = row * rank;
        let mut k: usize = 0;
        while k < rank
            invariant
                xlen == x@.len(),
                alen == a@.len(),
                tlen == t0.len(),
                tmp@.len() == t0.len(),
                rank * in_d <= a@.len(),
                ki == rank,
                row < rows,
                x_start == row * in_d,
                x_start + in_d <= x@.len(),
                t_start == row * rank,
                t_start + rank <= t0.len(),
                k <= rank,
                forall|i: int, k2: int|
                    0 <= i < row && 0 <= k2 < rank ==> #[trigger] tmp@[idx(i, k2, ki)] == dot_at(
                        x@,
                        i * in_d,
                        a@,
                        k2 * in_d,
                        in_d as nat,
                    ),
                forall|k2: int|
                    0 <= k2 < k ==> #[trigger] tmp@[t_start + k2] == dot_at(
                        x@,
                        row * in_d,
                        a@,
                        k2 * in_d,
                        in_d as nat,
                    ),
                forall|p: int| t_start + k <= p < t0.len() ==> #[trigger] tmp@[p] == t0[p],
            decreases rank - k,
        {
            proof {
                lemma_rows_ordered(k as int, rank as int, in_d as int);
                assert((k + 1) * in_d == k * in_d + in_d) by (nonlinear_arith);
            }
            let d = dot(x, x_start, a, k * in_d, in_d);
            let ghost before = tmp@;
            tmp[t_start + k] = d;
            proof {
                assert forall|i: int, k2: int| 0 <= i < row && 0 <= k2 < rank implies #[trigger]
                    tmp@[idx(i, k2, ki)] == before[idx(i, k2, ki)] by {
                    lemma_idx_in_row(i, k2, ki);
                    lemma_rows_ordered(i, row as int, ki);
                }
            }
            k = k + 1;
        }
        proof {
            assert forall|k2: int| 0 <= k2 < rank implies #[trigger] tmp@[idx(row as int, k2, ki)]
                == dot_at(x@, row * in_d, a@, k2 * in_d, in_d as nat) by {
                assert(idx(row as int, k2, ki) == t_start + k2);
            }
        }
        row = row + 1;
    }
}

/// Adds `scale * (tmp[row] . B[o])` to `out[row, o]` for every row and
/// every output column.
fn project_up<T: Float>(
    tmp: &[T],
    b: &[T],
    out: &mut [T],
    rows: usize,
    out_d: usize,
    rank: usize,
    scale: T,
)
    requires
        rows * rank <= tmp@.len(),
        out_d * rank <= b@.len(),
        rows * out_d <= old(out)@.len(),
    ensures
        final(out)@.len() == old(out)@.len(),
        forall|i: int, o: int|
            0 <= i < rows && 0 <= o < out_d ==> #[trigger] final(out)@[idx(i, o, out_d as int)]
                == old(out)@[idx(i, o, out_d as int)].plus_spec(
                dot_at(tmp@, i * rank, b@, o * rank, rank as nat).times_spec(scale),
            ),
        forall|p: int|
            rows * out_d <= p < old(out)@.len() ==> #[trigger] final(out)@[p] == old(out)@[p],
{
    let ghost o0 = out@;
    let ghost di = out_d as int;
    let tlen = tmp.len();
    let blen = b.len();
    let olen = out.len();
    let mut row: usize = 0;
    while row < rows
        invariant
            tlen == tmp@.len(),
            blen == b@.len(),
            olen == o0.len(),
            out@.len() == o0.len(),
            rows * rank <= tmp@.len(),
            out_d * rank <= b@.len(),
            rows * out_d <= o0.len(),
            di == out_d,
            row <= rows,
            forall|i: int, o: int|
                0 <= i < row && 0 <= o < out_d ==> #[trigger] out@[idx(i, o, di)] == o0[idx(
                    i,
                    o,
                    di,
                )].plus_spec(dot_at(tmp@, i * rank, b@, o * rank, rank as nat).times_spec(scale)),
            forall|p: int| row * out_d <= p < o0.len() ==> #[trigger] out@[p] == o0[p],
        decreases rows - row,
    {
        proof {
            lemma_rows_ordered(row as int, rows as int, rank as int);
            lemma_rows_ordered(row as int, rows as int, out_d as int);
            assert((row + 1) * rank == row * rank + rank) by (nonlinear_arith);
            assert((row + 1) * out_d == row * out_d + out_d) by (nonlinear_arith);
        }
        let t_start = row * rank;
        let o_start = row * out_d;
        let mut o: usize = 0;
        while o < out_d
            invariant
                tlen == tmp@.len(),
                blen == b@.len(),
                olen == o0.len(),
                out@.len() == o0.len(),
                out_d * rank <= b@.len(),
                di == out_d,
                row < rows,
                t_start == row * rank,
                t_start + rank <= tmp@.len(),
                o_start == row * out_d,
                o_start + out_d <= o0.len(),
                o <= out_d,
                forall|i: int, o2: int|
                    0 <= i < row && 0 <= o2 < out_d ==> #[trigger] out@[idx(i, o2, di)] == o0[idx(
                        i,
                        o2,
                        di,
                    )].plus_spec(
                        dot_at(tmp@, i * rank, b@, o2 * rank, rank as nat).times_spec(scale),
                    ),
                forall|o2: int|
                    0 <= o2 < o ==> #[trigger] out@[o_start + o2] == o0[o_start + o2].plus_spec(
                        dot_at(tmp@, row * rank, b@, o2 * rank, rank as nat).times_spec(scale),
                    ),
                forall|p: int| o_start + o <= p < o0.len() ==> #[trigger] out@[p] == o0[p],
            decreases out_d - o,
        {
            proof {
                lemma_rows_ordered(o as int, out_d as int, rank as int);
                assert((o + 1) * rank == o * rank + rank) by (nonlinear_arith);
            }
            let delta = dot(tmp, t_start, b, o * rank, rank).times(scale);
            let cur = out[o_start + o];
            let ghost before = out@;
            out[o_start + o] = cur.plus(delta);
            proof {
                assert forall|i: int, o2: int| 0 <= i < row && 0 <= o2 < out_d implies #[trigger]
                    out@[idx(i, o2, di)] == before[idx(i, o2, di)] by {
                    lemma_idx_in_row(i, o2, di);
                    lemma_rows_ordered(i, row as int, di);
                }
            }
            o = o + 1;
        }
        proof {
            assert forall|o2: int| 0 <= o2 < out_d implies #[trigger] out@[idx(row as int, o2, di)]
                == o0[idx(row as int, o2, di)].plus_spec(
                dot_at(tmp@, row * rank, b@, o2 * rank, rank as nat).times_spec(scale),
            ) by {
                assert(idx(row as int, o2, di) == o_start + o2);
            }
        }
        row = row + 1;
    }
}

/// Adds the adapter's output `(alpha / rank) * (x A^T) B^T` to `out`, for
/// `rows` input rows of width `in_d`, with `A` of shape `rank x in_d` and
/// `B` of shape `out_d x rank`; `tmp` receives `x A^T`. A non-finite
/// `alpha`, a zero rank or a buffer too short is `ShapeMismatch`, and leaves
/// `out` and `tmp` alone. Entries past the shapes are not touched.
pub fn lora_forward_delta<T: Float>(
    x: &[T],
    a: &[T],
    b: &[T],
    out: &mut [T],
    tmp: &mut [T],
    rows: usize,
    in_d: usize,
    out_d: usize,
    rank: usize,
    alpha: T,
) -> (r: Result<(), LoraError>)
    requires
        rows * in_d <= usize::MAX,
        rank * in_d <= usize::MAX,
        out_d * rank <= usize::MAX,
        rows * out_d <= usize::MAX,
        rows * rank <= usize::MAX,
    ensures
        r is Ok <==> alpha.is_finite_spec() && rank > 0 && x@.len() >= rows * in_d && a@.len()
            >= rank * in_d && b@.len() >= out_d * rank && old(out)@.len() >= rows * out_d && old(
            tmp,
        )@.len() >= rows * rank,
        r is Err ==> r == Err::<(), LoraError>(LoraError::ShapeMismatch) && final(out)@ == old(
            out,
        )@ && final(tmp)@ == old(tmp)@,
        r is Ok ==> {
            &&& final(tmp)@.len() == old(tmp)@.len()
            &&& forall|i: int, k: int|
                0 <= i < rows && 0 <= k < rank ==> #[trigger] final(tmp)@[idx(i, k, rank as int)]
                    == dot_at(x@, i * in_d, a@, k * in_d, in_d as nat)
            &&& forall|p: int|
                rows * rank <= p < old(tmp)@.len() ==> #[trigger] final(tmp)@[p] == old(tmp)@[p]
            &&& final(out)@.len() == old(out)@.len()
            &&& forall|i: int, o: int|
                0 <= i < rows && 0 <= o < out_d ==> #[trigger] final(out)@[idx(i, o, out_d as int)]
                    == old(out)@[idx(i, o, out_d as int)].plus_spec(
                    dot_at(final(tmp)@, i * rank, b@, o * rank, rank as nat).times_spec(
                        lora_scale(alpha, rank),
                    ),
                )
            &&& forall|p: int|
                rows * out_d <= p < old(out)@.len() ==> #[trigger] final(out)@[p] == old(out)@[p]
        },
{
    if !alpha.is_finite() || rank == 0 {
        return Err(LoraError::ShapeMismatch);
    }
    if x.len() < rows * in_d || a.len() < rank * in_d || b.len() < out_d * rank || out.len() < rows
        * out_d || tmp.len() < rows * rank {
        return Err(LoraError::ShapeMismatch);
    }
    let scale = alpha.over(T::from_usize(rank));
    project_down(x, a, tmp, rows, in_d, rank);
    project_up(tmp, b, out, rows, out_d, rank, scale);
    Ok(())
}

/// Merging adds every rank-one term whose coefficient `B[i, k] * scale` has
/// a nonzero magnitude, positive or negative: the entry grows by that
/// coefficient times `A[k, j]`. Only a coefficient of zero magnitude leaves
/// the entry as it was.
pub proof fn law_lora_terms_added<T: Float>(
    w: T,
    a: Seq<T>,
    b: Seq<T>,
    i: int,
    j: int,
    rank: int,
    cols: int,
    scale: T,
    k: nat,
)
    ensures
        ({
            let bk = b[i * rank + k].times_spec(scale);
            let before = lora_acc(w, a, b, i, j, rank, cols, scale, k);
            &&& T::zero_spec().lt_spec(bk.abs_spec()) ==> lora_acc(w, a, b, i, j, rank, cols, scale, k + 1)
                == before.plus_spec(bk.times_spec(a[k * cols + j]))
            &&& !T::zero_spec().lt_spec(bk.abs_spec()) ==> lora_acc(w, a, b, i, j, rank, cols, scale, k + 1)
                == before
        }),
{
    assert(idx(i, k as int, rank) == i * rank + k);
    assert(idx(k as int, j, cols) == k * cols + j);
}

/// With a single adapter rank the merged entry is `w + (B[i] * scale) * A[j]`
/// whenever the coefficient has nonzero magnitude.
pub proof fn law_lora_rank_one<T: Float>(w: T, a: Seq<T>, b: Seq<T>, i: int, j: int, cols: int, scale: T)
    ensures
        ({
            let bk = b[i].times_spec(scale);
            lora_acc(w, a, b, i, j, 1, cols, scale, 1) == if T::zero_spec().lt_spec(bk.abs_spec()) {
                w.plus_spec(bk.times_spec(a[j]))
            } else {
                w
            }
        }),
{
    assert(idx(i, 0, 1) == i);
    assert(idx(0, j, cols) == j);
    assert(lora_acc(w, a, b, i, j, 1, cols, scale, 0) == w);
    assert(lora_acc(w, a, b, i, j, 1, cols, scale, 1) == if T::zero_spec().lt_spec(
        b[idx(i, 0, 1)].times_spec(scale).abs_spec(),
    ) {
        lora_acc(w, a, b, i, j, 1, cols, scale, 0).plus_spec(
            b[idx(i, 0, 1)].times_spec(scale).times_spec(a[idx(0, j, cols)]),
        )
    } else {
        lora_acc(w, a, b, i, j, 1, cols, scale, 0)
    });
}

/// The adapter's products are dot products: zero for no terms, and each
/// further term adds `x[xo + i] * y[yo + i]`.
pub proof fn law_lora_dot<T: Float>(x: Seq<T>, xo: int, y: Seq<T>, yo: int, n: nat)
    ensures
        dot_at(x, xo, y, yo, 0) == T::zero_spec(),
        dot_at(x, xo, y, yo, n + 1) == dot_at(x, xo, y, yo, n).plus_spec(
            x[xo + n].times_spec(y[yo + n]),
        ),
        lora_scale(T::one_spec(), 1) == T::one_spec().over_spec(T::from_usize_spec(1)),
{
}

} // verus!
