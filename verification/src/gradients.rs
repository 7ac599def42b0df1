//! Gradient utilities: the global L2 norm, clipping by it, and the finiteness
//! check.
use crate::math::Float;
use crate::training::GradientError;
use vstd::prelude::*;

verus! {

broadcast use vstd::slice::group_slice_axioms;

/// The running sum of squares, added from the first value on.
pub open spec fn sum_squares<T: Float>(s: Seq<T>) -> T
    decreases s.len(),
{
    if s.len() == 0 {
        T::zero_spec()
    } else {
        sum_squares(s.drop_last()).plus_spec(s.last().times_spec(s.last()))
    }
}

/// The L2 norm: the square root of the sum of squares.
pub open spec fn norm_spec<T: Float>(s: Seq<T>) -> T {
    sum_squares(s).sqrt_spec()
}

/// A clipping threshold is usable when it is finite and positive.
pub open spec fn threshold_ok<T: Float>(max_norm: T) -> bool {
    max_norm.is_finite_spec() && !max_norm.le_spec(T::zero_spec())
}

/// The values after clipping: scaled by `max_norm / norm` when the norm
/// exceeds `max_norm`, unchanged otherwise.
pub open spec fn clipped<T: Float>(s: Seq<T>, max_norm: T) -> Seq<T> {
    let n = norm_spec(s);
    if max_norm.lt_spec(n) {
        s.map_values(|v: T| v.times_spec(max_norm.over_spec(n)))
    } else {
        s
    }
}

proof fn lemma_sum_squares_step<T: Float>(s: Seq<T>, i: int)
    requires
        0 <= i < s.len(),
    ensures
        sum_squares(s.subrange(0, i + 1)) == sum_squares(s.subrange(0, i)).plus_spec(
            s[i].times_spec(s[i]),
        ),
{
    assert(s.subrange(0, i + 1).drop_last() =~= s.subrange(0, i));
}

fn sum_of_squares<T: Float>(values: &[T]) -> (r: T)
    ensures
        r == sum_squares(values@),
{
    let mut sum = T::zero();
    let mut i: usize = 0;
    while i < values.len()
        invariant
            i <= values@.len(),
            sum == sum_squares(values@.subrange(0, i as int)),
        decreases values@.len() - i,
    {
        let v = values[i];
        proof {
            lemma_sum_squares_step(values@, i as int);
        }
        sum = sum.plus(v.times(v));
        i = i + 1;
    }
    assert(values@.subrange(0, values@.len() as int) =~= values@);
    sum
}

/// The L2 norm of `values`; `Empty` when there are none.
pub fn l2_norm<T: Float>(values: &[T]) -> (r: Result<T, GradientError>)
    ensures
        values@.len() == 0 ==> r == Err::<T, GradientError>(GradientError::Empty),
        values@.len() > 0 ==> r == Ok::<T, GradientError>(norm_spec(values@)),
{
    if values.len() == 0 {
        return Err(GradientError::Empty);
    }
    Ok(sum_of_squares(values).sqrt())
}

/// Scales `values` down so that their L2 norm is `max_norm` when it exceeds
/// it, and returns the norm before clipping. `Empty` when there are no
/// values, `InvalidThreshold` when `max_norm` is not finite and positive; on
/// an error the values are left alone.
pub fn clip_by_global_norm<T: Float>(values: &mut [T], max_norm: T) -> (r: Result<
    T,
    GradientError,
>)
    ensures
        old(values)@.len() == 0 ==> r == Err::<T, GradientError>(GradientError::Empty),
        old(values)@.len() > 0 && !threshold_ok(max_norm) ==> r == Err::<T, GradientError>(
            GradientError::InvalidThreshold,
        ),
        r is Err ==> final(values)@ == old(values)@,
        old(values)@.len() > 0 && threshold_ok(max_norm) ==> r == Ok::<T, GradientError>(
            norm_spec(old(values)@),
        ) && final(values)@ == clipped(old(values)@, max_norm),
{
    if values.len() == 0 {
        return Err(GradientError::Empty);
    }
    if !max_norm.is_finite() || max_norm.le(T::zero()) {
        return Err(GradientError::InvalidThreshold);
    }
    let norm = sum_of_squares(values).sqrt();
    if max_norm.lt(norm) {
        let scale = max_norm.over(norm);
        let ghost s0 = values@;
        let mut i: usize = 0;
        while i < values.len()
            invariant
                values@.len() == s0.len(),
                i <= s0.len(),
                forall|j: int| 0 <= j < i ==> #[trigger] values@[j] == s0[j].times_spec(scale),
                forall|j: int| i <= j < s0.len() ==> #[trigger] values@[j] == s0[j],
            decreases s0.len() - i,
        {
            let v = values[i];
            values[i] = v.times(scale);
            i = i + 1;
        }
        assert(values@ =~= clipped(s0, max_norm));
    }
    Ok(norm)
}

/// Whether every value is finite.
pub fn all_finite<T: Float>(values: &[T]) -> (r: bool)
    ensures
        r == (forall|i: int| 0 <= i < values@.len() ==> (#[trigger] values@[i]).is_finite_spec()),
{
    let mut i: usize = 0;
    while i < values.len()
        invariant
            i <= values@.len(),
            forall|j: int| 0 <= j < i ==> (#[trigger] values@[j]).is_finite_spec(),
        decreases values@.len() - i,
    {
        if !values[i].is_finite() {
            return false;
        }
        i = i + 1;
    }
    true
}

/// The norm squares and sums: no values give zero, and one more value `x`
/// adds `x * x` to the running sum; the clipping factor is
/// `max_norm / norm`, applied to every value exactly when `max_norm < norm`.
pub proof fn law_norm_sums_squares<T: Float>(s: Seq<T>, x: T, max_norm: T)
    ensures
        sum_squares(Seq::<T>::empty()) == T::zero_spec(),
        sum_squares(s.push(x)) == sum_squares(s).plus_spec(x.times_spec(x)),
        norm_spec(s) == sum_squares(s).sqrt_spec(),
        max_norm.lt_spec(norm_spec(s)) ==> forall|i: int|
            0 <= i < s.len() ==> #[trigger] clipped(s, max_norm)[i] == s[i].times_spec(
                max_norm.over_spec(sum_squares(s).sqrt_spec()),
            ),
        !max_norm.lt_spec(norm_spec(s)) ==> clipped(s, max_norm) == s,
        clipped(s, max_norm).len() == s.len(),
{
    assert(s.push(x).drop_last() =~= s);
}

} // verus!
