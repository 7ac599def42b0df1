//! Learning-rate schedules: step decay, cosine decay, linear and
//! inverse-square-root warmup, and the dispatcher over them.
use crate::math::Float;
use crate::training::{LrSchedule, ScheduleError};
use vstd::prelude::*;

verus! {

/// The bit pattern of the `f32` nearest to pi.
pub const PI_F32_BITS: u32 = 0x4049_0fdb;

/// A base learning rate is usable when it is finite and positive.
pub open spec fn rate_ok<T: Float>(v: T) -> bool {
    v.is_finite_spec() && !v.le_spec(T::zero_spec())
}

/// A step number, with step 0 counted as step 1.
pub open spec fn step_at_least_one(step: u32) -> u32 {
    if step == 0 {
        1
    } else {
        step
    }
}

fn first_step(step: u32) -> (r: u32)
    ensures
        r == step_at_least_one(step),
{
    if step == 0 {
        1
    } else {
        step
    }
}

/// The step, at least 1, capped at `cap`.
pub open spec fn clamped_step(step: u32, cap: u32) -> u32 {
    let s = step_at_least_one(step);
    if s < cap {
        s
    } else {
        cap
    }
}

/// Step decay: `base_lr * gamma^k` with `k = (step - 1) / step_size`.
pub open spec fn step_decay_spec<T: Float>(base_lr: T, step: u32, step_size: u32, gamma: T) -> Option<T> {
    if step_size == 0 || !rate_ok(base_lr) || !rate_ok(gamma) {
        None
    } else {
        let k = ((step_at_least_one(step) - 1) as u32 / step_size) as u32;
        Some(base_lr.times_spec(gamma.powf_spec(T::from_i32_spec(k as i32))))
    }
}

/// Multiplies `base_lr` by `gamma` once every `step_size` steps; `None` when
/// `step_size` is zero or `base_lr` or `gamma` is not finite and positive.
pub fn step_decay<T: Float>(base_lr: T, step: u32, step_size: u32, gamma: T) -> (r: Option<T>)
    ensures
        r == step_decay_spec(base_lr, step, step_size, gamma),
{
    if step_size == 0 || !base_lr.is_finite() || base_lr.le(T::zero()) || !gamma.is_finite()
        || gamma.le(T::zero()) {
        return None;
    }
    let k: u32 = (first_step(step) - 1) / step_size;
    Some(base_lr.times(gamma.powf(T::from_i32(k as i32))))
}

/// Whether a minimum-rate ratio lies in `[0, 1]` and is finite.
pub open spec fn ratio_ok<T: Float>(r: T) -> bool {
    r.is_finite_spec() && !r.lt_spec(T::zero_spec()) && !T::one_spec().lt_spec(r)
}

/// Cosine decay from `base_lr` down to `base_lr * min_lr_ratio` over
/// `total_steps` steps.
pub open spec fn cosine_decay_spec<T: Float>(
    base_lr: T,
    step: u32,
    total_steps: u32,
    min_lr_ratio: T,
) -> Option<T> {
    if total_steps == 0 || !rate_ok(base_lr) || !ratio_ok(min_lr_ratio) {
        None
    } else {
        let s = clamped_step(step, total_steps);
        let progress = T::from_i32_spec(s as i32).over_spec(T::from_i32_spec(total_steps as i32));
        let pi = T::from_f32_bits_spec(PI_F32_BITS);
        let cosine = T::half_spec().times_spec(
            T::one_spec().plus_spec(pi.times_spec(progress).cos_spec()),
        );
        Some(
            base_lr.times_spec(
                min_lr_ratio.plus_spec(T::one_spec().minus_spec(min_lr_ratio).times_spec(cosine)),
            ),
        )
    }
}

/// Cosine decay; `None` when `total_steps` is zero, `base_lr` is not finite
/// and positive, or `min_lr_ratio` is not a finite value in `[0, 1]`.
pub fn cosine_decay<T: Float>(base_lr: T, step: u32, total_steps: u32, min_lr_ratio: T) -> (r:
    Option<T>)
    ensures
        r == cosine_decay_spec(base_lr, step, total_steps, min_lr_ratio),
{
    if total_steps == 0 || !base_lr.is_finite() || base_lr.le(T::zero()) || !min_lr_ratio.is_finite()
        || min_lr_ratio.lt(T::zero()) || T::one().lt(min_lr_ratio) {
        return None;
    }
    let s1 = first_step(step);
    let s = if s1 < total_steps {
        s1
    } else {
        total_steps
    };
    let progress = T::from_i32(s as i32).over(T::from_i32(total_steps as i32));
    let pi = T::from_f32_bits(PI_F32_BITS);
    let cosine = T::half().times(T::one().plus(pi.times(progress).cos()));
    Some(base_lr.times(min_lr_ratio.plus(T::one().minus(min_lr_ratio).times(cosine))))
}

/// Linear warmup: `base_lr * s / warmup_steps` with `s` the step clamped to
/// `[1, warmup_steps]`.
pub open spec fn linear_warmup_spec<T: Float>(base_lr: T, step: u32, warmup_steps: u32) -> Option<T> {
    if warmup_steps == 0 || !rate_ok(base_lr) {
        None
    } else {
        let s = clamped_step(step, warmup_steps);
        Some(
            base_lr.times_spec(
                T::from_i32_spec(s as i32).over_spec(T::from_i32_spec(warmup_steps as i32)),
            ),
        )
    }
}

/// Linear warmup; `None` when `warmup_steps` is zero or `base_lr` is not
/// finite and positive.
pub fn linear_warmup<T: Float>(base_lr: T, step: u32, warmup_steps: u32) -> (r: Option<T>)
    ensures
        r == linear_warmup_spec(base_lr, step, warmup_steps),
{
    if warmup_steps == 0 || !base_lr.is_finite() || base_lr.le(T::zero()) {
        return None;
    }
    let s1 = first_step(step);
    let s = if s1 < warmup_steps {
        s1
    } else {
        warmup_steps
    };
    Some(base_lr.times(T::from_i32(s as i32).over(T::from_i32(warmup_steps as i32))))
}

/// The inverse-square-root schedule: the rate rises linearly to `base_lr`
/// at `warmup_steps` and then falls as `sqrt(warmup_steps / step)`.
pub open spec fn inv_sqrt_rate<T: Float>(base_lr: T, step: u32, warmup_steps: u32) -> T {
    let one = T::from_i32_spec(1);
    let w = T::from_i32_spec(warmup_steps as i32);
    let s = T::from_i32_spec(step_at_least_one(step) as i32);
    let w_sqrt = w.sqrt_spec();
    let decay = one.over_spec(s.sqrt_spec());
    let warm = s.over_spec(w.times_spec(w_sqrt));
    base_lr.times_spec(w_sqrt.times_spec(decay.min_spec(warm)))
}

pub open spec fn inv_sqrt_warmup_spec<T: Float>(base_lr: T, step: u32, warmup_steps: u32) -> Option<
    T,
> {
    if warmup_steps == 0 || !rate_ok(base_lr) {
        None
    } else {
        let lr = inv_sqrt_rate(base_lr, step, warmup_steps);
        if lr.is_finite_spec() && T::zero_spec().lt_spec(lr) {
            Some(lr)
        } else {
            None
        }
    }
}

/// Inverse-square-root warmup; `None` when `warmup_steps` is zero, `base_lr`
/// is not finite and positive, or the rate comes out so.
pub fn inv_sqrt_warmup<T: Float>(base_lr: T, step: u32, warmup_steps: u32) -> (r: Option<T>)
    ensures
        r == inv_sqrt_warmup_spec(base_lr, step, warmup_steps),
{
    if warmup_steps == 0 || !base_lr.is_finite() || base_lr.le(T::zero()) {
        return None;
    }
    let one = T::from_i32(1);
    let w = T::from_i32(warmup_steps as i32);
    let s = T::from_i32(first_step(step) as i32);
    let w_sqrt = w.sqrt();
    let decay = one.over(s.sqrt());
    let warm = s.over(w.times(w_sqrt));
    let scale = w_sqrt.times(decay.min(warm));
    let lr = base_lr.times(scale);
    if lr.is_finite() && T::zero().lt(lr) {
        Some(lr)
    } else {
        None
    }
}

/// The rate a schedule gives at `step`, before the final check.
pub open spec fn schedule_spec<T: Float>(base_lr: T, step: u32, schedule: LrSchedule<T>) -> Option<
    T,
> {
    match schedule {
        LrSchedule::Constant => Some(base_lr),
        LrSchedule::StepDecay { step_size, gamma } => step_decay_spec(
            base_lr,
            step,
            step_size,
            gamma,
        ),
        LrSchedule::Cosine { total_steps, min_lr_ratio } => cosine_decay_spec(
            base_lr,
            step,
            total_steps,
            min_lr_ratio,
        ),
        LrSchedule::LinearWarmup { warmup_steps } => linear_warmup_spec(
            base_lr,
            step,
            warmup_steps,
        ),
        LrSchedule::InvSqrt { warmup_steps } => inv_sqrt_warmup_spec(base_lr, step, warmup_steps),
    }
}

/// The learning rate of `schedule` at `step`: `Ok` exactly when the schedule
/// gives a rate and that rate is finite and positive, `InvalidConfig`
/// otherwise.
pub fn compute_learning_rate<T: Float>(base_lr: T, step: u32, schedule: LrSchedule<T>) -> (r:
    Result<T, ScheduleError>)
    ensures
        r is Ok <==> (schedule_spec(base_lr, step, schedule) matches Some(lr) && rate_ok(lr)),
        r matches Ok(lr) ==> schedule_spec(base_lr, step, schedule) == Some(lr),
        r matches Err(e) ==> e == ScheduleError::InvalidConfig,
{
    let lr = match schedule {
        LrSchedule::Constant => Some(base_lr),
        LrSchedule::StepDecay { step_size, gamma } => step_decay(base_lr, step, step_size, gamma),
        LrSchedule::Cosine { total_steps, min_lr_ratio } => cosine_decay(
            base_lr,
            step,
            total_steps,
            min_lr_ratio,
        ),
        LrSchedule::LinearWarmup { warmup_steps } => linear_warmup(base_lr, step, warmup_steps),
        LrSchedule::InvSqrt { warmup_steps } => inv_sqrt_warmup(base_lr, step, warmup_steps),
    };
    match lr {
        None => Err(ScheduleError::InvalidConfig),
        Some(lr) => {
            if !lr.is_finite() || lr.le(T::zero()) {
                Err(ScheduleError::InvalidConfig)
            } else {
                Ok(lr)
            }
        },
    }
}

/// Step decay does not decay during the first window: for every step from 1
/// to `step_size` the rate is `base_lr * gamma^0`, the same as at step 1.
pub proof fn law_step_decay_first_window<T: Float>(base_lr: T, step: u32, step_size: u32, gamma: T)
    requires
        1 <= step <= step_size,
        rate_ok(base_lr),
        rate_ok(gamma),
    ensures
        step_decay_spec(base_lr, step, step_size, gamma) == Some(
            base_lr.times_spec(gamma.powf_spec(T::from_i32_spec(0))),
        ),
        step_decay_spec(base_lr, step, step_size, gamma) == step_decay_spec(
            base_lr,
            1,
            step_size,
            gamma,
        ),
{
    vstd::arithmetic::div_mod::lemma_basic_div((step - 1) as int, step_size as int);
    vstd::arithmetic::div_mod::lemma_basic_div(0, step_size as int);
}

/// Each further `step_size` steps apply `gamma` once more: at step
/// `step + step_size` the exponent is one more than at `step`, namely
/// `(step - 1) / step_size + 1`.
pub proof fn law_step_decay_next_window<T: Float>(base_lr: T, step: u32, step_size: u32, gamma: T)
    requires
        1 <= step,
        step_size > 0,
        step + step_size <= u32::MAX,
        rate_ok(base_lr),
        rate_ok(gamma),
    ensures
        step_decay_spec(base_lr, step, step_size, gamma) == Some(
            base_lr.times_spec(gamma.powf_spec(T::from_i32_spec(((step - 1) / (step_size as int)) as i32))),
        ),
        step_decay_spec(base_lr, (step + step_size) as u32, step_size, gamma) == Some(
            base_lr.times_spec(
                gamma.powf_spec(T::from_i32_spec(((step - 1) / (step_size as int) + 1) as i32)),
            ),
        ),
{
    vstd::arithmetic::div_mod::lemma_div_plus_one((step - 1) as int, step_size as int);
    assert(((step + step_size) as u32 - 1) as int == step_size + (step - 1));
}

/// Linear warmup reaches `base_lr * s / warmup_steps` at step `s` of the
/// warmup, counting step 0 as step 1, and stays at `base_lr * w / w` after.
pub proof fn law_linear_warmup_ramp<T: Float>(base_lr: T, step: u32, warmup_steps: u32)
    requires
        warmup_steps > 0,
        rate_ok(base_lr),
    ensures
        1 <= step <= warmup_steps ==> linear_warmup_spec(base_lr, step, warmup_steps) == Some(
            base_lr.times_spec(
                T::from_i32_spec(step as i32).over_spec(T::from_i32_spec(warmup_steps as i32)),
            ),
        ),
        step > warmup_steps ==> linear_warmup_spec(base_lr, step, warmup_steps) == linear_warmup_spec(
            base_lr,
            warmup_steps,
            warmup_steps,
        ),
        linear_warmup_spec(base_lr, 0, warmup_steps) == linear_warmup_spec(base_lr, 1, warmup_steps),
{
}

/// A constant schedule gives the base rate; cosine decay at the last step
/// gives `base_lr * (r + (1 - r) * cos_term)` with the full progress
/// `total / total`; and the dispatcher reports exactly the rate of the
/// schedule chosen.
pub proof fn law_schedule_dispatch<T: Float>(base_lr: T, step: u32, total_steps: u32, min_lr_ratio: T)
    ensures
        schedule_spec(base_lr, step, LrSchedule::Constant) == Some(base_lr),
        total_steps > 0 && rate_ok(base_lr) && ratio_ok(min_lr_ratio) && step >= total_steps
            ==> cosine_decay_spec(base_lr, step, total_steps, min_lr_ratio) == Some(
            base_lr.times_spec(
                min_lr_ratio.plus_spec(
                    T::one_spec().minus_spec(min_lr_ratio).times_spec(
                        T::half_spec().times_spec(
                            T::one_spec().plus_spec(
                                T::from_f32_bits_spec(PI_F32_BITS).times_spec(
                                    T::from_i32_spec(total_steps as i32).over_spec(
                                        T::from_i32_spec(total_steps as i32),
                                    ),
                                ).cos_spec(),
                            ),
                        ),
                    ),
                ),
            ),
        ),
        schedule_spec(base_lr, step, LrSchedule::Cosine { total_steps, min_lr_ratio })
            == cosine_decay_spec(base_lr, step, total_steps, min_lr_ratio),
{
}

} // verus!
