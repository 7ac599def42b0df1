//! The optimizer half of a language-model training step: clip the
//! accumulated gradients, pick the scheduled rate, take an AdamW step and
//! clear the gradients.
use crate::gradients::{clip_by_global_norm, clipped, norm_spec, threshold_ok};
use crate::math::Float;
use crate::optim::{adamw_error, adamw_ms, adamw_params, adamw_vs, step_adamw};
use crate::schedule::{compute_learning_rate, rate_ok, schedule_spec};
use crate::training::{AdamwConfig, LmTrainConfig, OptimizerError};
use vstd::prelude::*;

verus! {

broadcast use vstd::slice::group_slice_axioms;

/// Errors of the language-model trainer.
#[derive(Clone, Copy, Debug, PartialEq, Eq, Structural)]
pub enum LmError {
    ShapeMismatch,
    InvalidConfig,
    NonFinite,
    ScratchTooSmall,
}

/// `1e-8` as an `f32` bit pattern: the AdamW epsilon of the trainer.
pub const TRAIN_EPS_BITS: u32 = 0x322b_cc77;

/// How an optimizer error is reported by the trainer.
pub open spec fn lm_error_of(e: OptimizerError) -> LmError {
    match e {
        OptimizerError::StepOverflow => LmError::InvalidConfig,
        OptimizerError::InvalidHyperParams => LmError::InvalidConfig,
        OptimizerError::ShapeMismatch => LmError::ShapeMismatch,
    }
}

fn map_opt_err(e: OptimizerError) -> (r: LmError)
    ensures
        r == lm_error_of(e),
{
    match e {
        OptimizerError::StepOverflow => LmError::InvalidConfig,
        OptimizerError::InvalidHyperParams => LmError::InvalidConfig,
        OptimizerError::ShapeMismatch => LmError::ShapeMismatch,
    }
}

/// Whether the gradients are clipped: a positive clip threshold, and
/// gradients and threshold that the clipper accepts.
pub open spec fn clips<T: Float>(grads: Seq<T>, grad_clip: T) -> bool {
    T::zero_spec().lt_spec(grad_clip) && grads.len() > 0 && threshold_ok(grad_clip)
}

/// The gradients after clipping.
pub open spec fn clipped_grads<T: Float>(grads: Seq<T>, grad_clip: T) -> Seq<T> {
    if clips(grads, grad_clip) {
        clipped(grads, grad_clip)
    } else {
        grads
    }
}

/// The gradient norm reported: the norm before clipping when clipping
/// happens, zero otherwise.
pub open spec fn reported_norm<T: Float>(grads: Seq<T>, grad_clip: T) -> T {
    if clips(grads, grad_clip) {
        norm_spec(grads)
    } else {
        T::zero_spec()
    }
}

/// The rate the step uses: the scheduled rate when it is usable, the base
/// rate otherwise.
pub open spec fn effective_rate<T: Float>(cfg: LmTrainConfig<T>, step: u32) -> T {
    match schedule_spec(cfg.base_lr, step, cfg.schedule) {
        Some(lr) => if rate_ok(lr) {
            lr
        } else {
            cfg.base_lr
        },
        None => cfg.base_lr,
    }
}

/// The AdamW configuration of the step.
pub open spec fn train_adamw_config<T: Float>(cfg: LmTrainConfig<T>, step: u32) -> AdamwConfig<T> {
    AdamwConfig {
        learning_rate: effective_rate(cfg, step),
        step,
        beta1: cfg.beta1,
        beta2: cfg.beta2,
        eps: T::from_f32_bits_spec(TRAIN_EPS_BITS),
        weight_decay: cfg.weight_decay,
    }
}

/// Applies the accumulated gradients: clips them by their global norm when
/// `grad_clip` is positive, takes an AdamW step at the scheduled rate (the
/// base rate when the schedule gives none), zeroes the gradients and
/// returns the norm before clipping (zero when no clipping happened).
/// Buffers of unequal length are `ShapeMismatch` and change nothing; an
/// AdamW error is reported as `InvalidConfig` or `ShapeMismatch`, with the
/// gradients left clipped and the rest unchanged.
pub fn apply_grads_adamw<T: Float>(
    train_cfg: &LmTrainConfig<T>,
    w_params: &mut [T],
    w_grads: &mut [T],
    w_m: &mut [T],
    w_v: &mut [T],
    step: u32,
) -> (r: Result<T, LmError>)
    ensures
        ({
            let n = old(w_params)@.len();
            let same = old(w_grads)@.len() == n && old(w_m)@.len() == n && old(w_v)@.len() == n;
            let g1 = clipped_grads(old(w_grads)@, train_cfg.grad_clip);
            let cfg = train_adamw_config(*train_cfg, step);
            &&& !same ==> r == Err::<T, LmError>(LmError::ShapeMismatch) && final(w_params)@ == old(
                w_params,
            )@ && final(w_grads)@ == old(w_grads)@ && final(w_m)@ == old(w_m)@ && final(w_v)@
                == old(w_v)@
            &&& same && adamw_error(cfg, n, n, n, n) is Some ==> r == Err::<T, LmError>(
                lm_error_of(adamw_error(cfg, n, n, n, n)->0),
            ) && final(w_params)@ == old(w_params)@ && final(w_grads)@ == g1 && final(w_m)@
                == old(w_m)@ && final(w_v)@ == old(w_v)@
            &&& same && adamw_error(cfg, n, n, n, n) is None ==> {
                &&& r == Ok::<T, LmError>(reported_norm(old(w_grads)@, train_cfg.grad_clip))
                &&& final(w_params)@ == adamw_params(old(w_params)@, g1, old(w_m)@, old(w_v)@, cfg)
                &&& final(w_m)@ == adamw_ms(old(w_params)@, g1, old(w_m)@, cfg)
                &&& final(w_v)@ == adamw_vs(old(w_params)@, g1, old(w_v)@, cfg)
                &&& final(w_grads)@ == Seq::new(n, |i: int| T::zero_spec())
            }
        }),
{
    let n = w_params.len();
    if w_grads.len() != n || w_m.len() != n || w_v.len() != n {
        return Err(LmError::ShapeMismatch);
    }
    let zero = T::zero();
    let grad_norm = if zero.lt(train_cfg.grad_clip) {
        match clip_by_global_norm(w_grads, train_cfg.grad_clip) {
            Ok(norm) => norm,
            Err(_) => zero,
        }
    } else {
        zero
    };
    let lr = match compute_learning_rate(train_cfg.base_lr, step, train_cfg.schedule) {
        Ok(lr) => lr,
        Err(_) => train_cfg.base_lr,
    };
    let cfg = AdamwConfig {
        learning_rate: lr,
        step,
        beta1: train_cfg.beta1,
        beta2: train_cfg.beta2,
        eps: T::from_f32_bits(TRAIN_EPS_BITS),
        weight_decay: train_cfg.weight_decay,
    };
    match step_adamw(w_params, w_grads, w_m, w_v, cfg) {
        Ok(()) => {},
        Err(e) => {
            return Err(map_opt_err(e));
        },
    }
    let mut i: usize = 0;
    while i < n
        invariant
            w_grads@.len() == n,
            i <= n,
            forall|j: int| 0 <= j < i ==> #[trigger] w_grads@[j] == T::zero_spec(),
        decreases n - i,
    {
        w_grads[i] = T::zero();
        i = i + 1;
    }
    assert(w_grads@ =~= Seq::new(n as nat, |j: int| T::zero_spec()));
    Ok(grad_norm)
}

/// The step trains at the scheduled rate: whenever the schedule gives a
/// finite positive rate at `step` (exactly when `compute_learning_rate`
/// succeeds), the AdamW step uses that rate; only otherwise the base rate.
/// Under linear warmup over `w` steps this is `base_lr * s / w` at steps
/// `1 <= s <= w`.
pub proof fn law_train_rate_follows_schedule<T: Float>(cfg: LmTrainConfig<T>, step: u32)
    ensures
        (schedule_spec(cfg.base_lr, step, cfg.schedule) matches Some(lr) && rate_ok(lr))
            ==> train_adamw_config(cfg, step).learning_rate == schedule_spec(
            cfg.base_lr,
            step,
            cfg.schedule,
        ).unwrap(),
        !(schedule_spec(cfg.base_lr, step, cfg.schedule) matches Some(lr) && rate_ok(lr))
            ==> train_adamw_config(cfg, step).learning_rate == cfg.base_lr,
        ({
            let lr = cfg.base_lr.times_spec(
                T::from_i32_spec(step as i32).over_spec(
                    T::from_i32_spec(cfg.schedule->LinearWarmup_warmup_steps as i32),
                ),
            );
            cfg.schedule is LinearWarmup && 1 <= step <= cfg.schedule->LinearWarmup_warmup_steps
                && rate_ok(cfg.base_lr) && rate_ok(lr) ==> train_adamw_config(cfg, step).learning_rate
                == lr
        }),
{
}

} // verus!
