//! The optimizers: SGD with momentum, AdamW, and the step that dispatches
//! between them over one flat state buffer.
use crate::math::Float;
use crate::schedule::rate_ok;
use crate::training::{state_len_spec, AdamwConfig, OptimizerError, OptimizerKind};
use vstd::prelude::*;

verus! {

broadcast use vstd::slice::group_slice_axioms;

// ---------------------------------------------------------------- SGD

/// A momentum is usable when it is finite and in `[0, 1)`.
pub open spec fn momentum_ok<T: Float>(momentum: T) -> bool {
    momentum.is_finite_spec() && !momentum.lt_spec(T::zero_spec()) && !T::one_spec().le_spec(
        momentum,
    )
}

/// The new velocity: `momentum * velocity + grad`.
pub open spec fn sgd_velocity<T: Float>(velocity: T, grad: T, momentum: T) -> T {
    momentum.times_spec(velocity).plus_spec(grad)
}

/// The new parameter, given the new velocity `v`: the update is `v`, or
/// `momentum * v + grad` with Nesterov momentum, scaled by the rate.
pub open spec fn sgd_param<T: Float>(
    param: T,
    grad: T,
    v: T,
    learning_rate: T,
    momentum: T,
    nesterov: bool,
) -> T {
    let update = if nesterov {
        momentum.times_spec(v).plus_spec(grad)
    } else {
        v
    };
    param.minus_spec(learning_rate.times_spec(update))
}

pub open spec fn sgd_velocities<T: Float>(velocity: Seq<T>, grads: Seq<T>, momentum: T) -> Seq<T> {
    Seq::new(velocity.len(), |i: int| sgd_velocity(velocity[i], grads[i], momentum))
}

pub open spec fn sgd_params<T: Float>(
    params: Seq<T>,
    grads: Seq<T>,
    velocity: Seq<T>,
    learning_rate: T,
    momentum: T,
    nesterov: bool,
) -> Seq<T> {
    Seq::new(
        params.len(),
        |i: int|
            sgd_param(
                params[i],
                grads[i],
                sgd_velocity(velocity[i], grads[i], momentum),
                learning_rate,
                momentum,
                nesterov,
            ),
    )
}

/// The error of an SGD step, if any: the momentum is checked first, the
/// shapes second.
pub open spec fn sgd_error<T: Float>(momentum: T, n: nat, ng: nat, nv: nat) -> Option<
    OptimizerError,
> {
    if !momentum_ok(momentum) {
        Some(OptimizerError::InvalidHyperParams)
    } else if n != ng || nv != n {
        Some(OptimizerError::ShapeMismatch)
    } else {
        None
    }
}

/// The result that an error, or none, makes.
pub open spec fn outcome(e: Option<OptimizerError>) -> Result<(), OptimizerError> {
    match e {
        Some(e) => Err(e),
        None => Ok(()),
    }
}

/// One SGD step with momentum over parameters, gradients and velocities of
/// equal length; on an error nothing is changed.
pub fn step_sgd<T: Float>(
    params: &mut [T],
    grads: &[T],
    velocity: &mut [T],
    learning_rate: T,
    momentum: T,
    nesterov: bool,
) -> (r: Result<(), OptimizerError>)
    ensures
        r == outcome(
            sgd_error(momentum, old(params)@.len(), grads@.len(), old(velocity)@.len()),
        ),
        r is Err ==> final(params)@ == old(params)@ && final(velocity)@ == old(velocity)@,
        r is Ok ==> final(velocity)@ == sgd_velocities(old(velocity)@, grads@, momentum)
            && final(params)@ == sgd_params(
            old(params)@,
            grads@,
            old(velocity)@,
            learning_rate,
            momentum,
            nesterov,
        ),
{
    if !momentum.is_finite() || momentum.lt(T::zero()) || T::one().le(momentum) {
        return Err(OptimizerError::InvalidHyperParams);
    }
    if params.len() != grads.len() || velocity.len() != params.len() {
        return Err(OptimizerError::ShapeMismatch);
    }
    let ghost p0 = params@;
    let ghost v0 = velocity@;
    let n = params.len();
    let mut i: usize = 0;
    while i < n
        invariant
            n == p0.len(),
            n == grads@.len(),
            n == v0.len(),
            params@.len() == n,
            velocity@.len() == n,
            i <= n,
            forall|j: int|
                0 <= j < i ==> #[trigger] velocity@[j] == sgd_velocity(v0[j], grads@[j], momentum),
            forall|j: int|
                0 <= j < i ==> #[trigger] params@[j] == sgd_param(
                    p0[j],
                    grads@[j],
                    sgd_velocity(v0[j], grads@[j], momentum),
                    learning_rate,
                    momentum,
                    nesterov,
                ),
            forall|j: int| i <= j < n ==> #[trigger] velocity@[j] == v0[j],
            forall|j: int| i <= j < n ==> #[trigger] params@[j] == p0[j],
        decreases n - i,
    {
        let g = grads[i];
        let v = momentum.times(velocity[i]).plus(g);
        velocity[i] = v;
        let update = if nesterov {
            momentum.times(v).plus(g)
        } else {
            v
        };
        let p = params[i];
        params[i] = p.minus(learning_rate.times(update));
        i = i + 1;
    }
    assert(velocity@ =~= sgd_velocities(v0, grads@, momentum));
    assert(params@ =~= sgd_params(p0, grads@, v0, learning_rate, momentum, nesterov));
    Ok(())
}

// ---------------------------------------------------------------- AdamW

/// The hyperparameters are finite, both betas lie in `[0, 1)` and `eps` is
/// positive.
pub open spec fn adamw_hyper_ok<T: Float>(cfg: AdamwConfig<T>) -> bool {
    &&& cfg.beta1.is_finite_spec()
    &&& cfg.beta2.is_finite_spec()
    &&& cfg.eps.is_finite_spec()
    &&& cfg.weight_decay.is_finite_spec()
    &&& !cfg.beta1.lt_spec(T::zero_spec())
    &&& !T::one_spec().le_spec(cfg.beta1)
    &&& !cfg.beta2.lt_spec(T::zero_spec())
    &&& !T::one_spec().le_spec(cfg.beta2)
    &&& !cfg.eps.le_spec(T::zero_spec())
}

/// The bias corrections `1 - beta^t` at step `t`.
pub open spec fn bias_correction<T: Float>(beta: T, step: u32) -> T {
    T::one_spec().minus_spec(beta.powf_spec(T::from_i32_spec(step as i32)))
}

/// The error of an AdamW step, if any, in the order the checks are made: a
/// zero step, bad hyperparameters, unequal lengths, and bias corrections
/// that are not positive.
pub open spec fn adamw_error<T: Float>(cfg: AdamwConfig<T>, n: nat, ng: nat, nm: nat, nv: nat) -> Option<
    OptimizerError,
> {
    if cfg.step == 0 {
        Some(OptimizerError::StepOverflow)
    } else if !adamw_hyper_ok(cfg) {
        Some(OptimizerError::InvalidHyperParams)
    } else if n != ng || nm != n || nv != n {
        Some(OptimizerError::ShapeMismatch)
    } else if bias_correction(cfg.beta1, cfg.step).le_spec(T::zero_spec()) || bias_correction(
        cfg.beta2,
        cfg.step,
    ).le_spec(T::zero_spec()) {
        Some(OptimizerError::StepOverflow)
    } else {
        None
    }
}

/// The decayed gradient `grad + weight_decay * param`.
pub open spec fn adamw_grad<T: Float>(param: T, grad: T, cfg: AdamwConfig<T>) -> T {
    grad.plus_spec(cfg.weight_decay.times_spec(param))
}

/// The new first moment.
pub open spec fn adamw_m<T: Float>(m: T, g: T, cfg: AdamwConfig<T>) -> T {
    cfg.beta1.times_spec(m).plus_spec(T::one_spec().minus_spec(cfg.beta1).times_spec(g))
}

/// The new second moment.
pub open spec fn adamw_v<T: Float>(v: T, g: T, cfg: AdamwConfig<T>) -> T {
    cfg.beta2.times_spec(v).plus_spec(
        T::one_spec().minus_spec(cfg.beta2).times_spec(g).times_spec(g),
    )
}

/// The new parameter from the new moments `m` and `v`.
pub open spec fn adamw_param<T: Float>(param: T, m: T, v: T, cfg: AdamwConfig<T>) -> T {
    let m_hat = m.over_spec(bias_correction(cfg.beta1, cfg.step));
    let v_hat = v.over_spec(bias_correction(cfg.beta2, cfg.step));
    param.minus_spec(
        cfg.learning_rate.times_spec(m_hat).over_spec(v_hat.sqrt_spec().plus_spec(cfg.eps)),
    )
}

pub open spec fn adamw_ms<T: Float>(
    params: Seq<T>,
    grads: Seq<T>,
    m: Seq<T>,
    cfg: AdamwConfig<T>,
) -> Seq<T> {
    Seq::new(m.len(), |i: int| adamw_m(m[i], adamw_grad(params[i], grads[i], cfg), cfg))
}

pub open spec fn adamw_vs<T: Float>(
    params: Seq<T>,
    grads: Seq<T>,
    v: Seq<T>,
    cfg: AdamwConfig<T>,
) -> Seq<T> {
    Seq::new(v.len(), |i: int| adamw_v(v[i], adamw_grad(params[i], grads[i], cfg), cfg))
}

pub open spec fn adamw_params<T: Float>(
    params: Seq<T>,
    grads: Seq<T>,
    m: Seq<T>,
    v: Seq<T>,
    cfg: AdamwConfig<T>,
) -> Seq<T> {
    Seq::new(
        params.len(),
        |i: int|
            adamw_param(
                params[i],
                adamw_m(m[i], adamw_grad(params[i], grads[i], cfg), cfg),
                adamw_v(v[i], adamw_grad(params[i], grads[i], cfg), cfg),
                cfg,
            ),
    )
}

/// One AdamW step (Adam with decoupled weight decay folded into the
/// gradient) over parameters, gradients and both moments; on an error
/// nothing is changed.
pub fn step_adamw<T: Float>(
    params: &mut [T],
    grads: &[T],
    m: &mut [T],
    v: &mut [T],
    cfg: AdamwConfig<T>,
) -> (r: Result<(), OptimizerError>)
    ensures
        r == outcome(
            adamw_error(cfg, old(params)@.len(), grads@.len(), old(m)@.len(), old(v)@.len()),
        ),
        r is Err ==> final(params)@ == old(params)@ && final(m)@ == old(m)@ && final(v)@ == old(
            v,
        )@,
        r is Ok ==> final(m)@ == adamw_ms(old(params)@, grads@, old(m)@, cfg) && final(v)@
            == adamw_vs(old(params)@, grads@, old(v)@, cfg) && final(params)@ == adamw_params(
            old(params)@,
            grads@,
            old(m)@,
            old(v)@,
            cfg,
        ),
{
    if cfg.step == 0 {
        return Err(OptimizerError::StepOverflow);
    }
    if !cfg.beta1.is_finite() || !cfg.beta2.is_finite() || !cfg.eps.is_finite()
        || !cfg.weight_decay.is_finite() {
        return Err(OptimizerError::InvalidHyperParams);
    }
    let zero = T::zero();
    let one = T::one();
    if cfg.beta1.lt(zero) || one.le(cfg.beta1) || cfg.beta2.lt(zero) || one.le(cfg.beta2)
        || cfg.eps.le(zero) {
        return Err(OptimizerError::InvalidHyperParams);
    }
    let n = params.len();
    if n != grads.len() || m.len() != n || v.len() != n {
        return Err(OptimizerError::ShapeMismatch);
    }
    let t = T::from_i32(cfg.step as i32);
    let bc1 = one.minus(cfg.beta1.powf(t));
    let bc2 = one.minus(cfg.beta2.powf(t));
    if bc1.le(zero) || bc2.le(zero) {
        return Err(OptimizerError::StepOverflow);
    }
    let one_minus_b1 = one.minus(cfg.beta1);
    let one_minus_b2 = one.minus(cfg.beta2);
    let ghost p0 = params@;
    let ghost m0 = m@;
    let ghost v0 = v@;
    let mut i: usize = 0;
    while i < n
        invariant
            n == p0.len(),
            n == grads@.len(),
            n == m0.len(),
            n == v0.len(),
            params@.len() == n,
            m@.len() == n,
            v@.len() == n,
            i <= n,
            bc1 == bias_correction(cfg.beta1, cfg.step),
            bc2 == bias_correction(cfg.beta2, cfg.step),
            one_minus_b1 == T::one_spec().minus_spec(cfg.beta1),
            one_minus_b2 == T::one_spec().minus_spec(cfg.beta2),
            forall|j: int|
                0 <= j < i ==> #[trigger] m@[j] == adamw_m(
                    m0[j],
                    adamw_grad(p0[j], grads@[j], cfg),
                    cfg,
                ),
            forall|j: int|
                0 <= j < i ==> #[trigger] v@[j] == adamw_v(
                    v0[j],
                    adamw_grad(p0[j], grads@[j], cfg),
                    cfg,
                ),
            forall|j: int|
                0 <= j < i ==> #[trigger] params@[j] == adamw_param(
                    p0[j],
                    adamw_m(m0[j], adamw_grad(p0[j], grads@[j], cfg), cfg),
                    adamw_v(v0[j], adamw_grad(p0[j], grads@[j], cfg), cfg),
                    cfg,
                ),
            forall|j: int| i <= j < n ==> #[trigger] m@[j] == m0[j],
            forall|j: int| i <= j < n ==> #[trigger] v@[j] == v0[j],
            forall|j: int| i <= j < n ==> #[trigger] params@[j] == p0[j],
        decreases n - i,
    {
        let p = params[i];
        let g = grads[i].plus(cfg.weight_decay.times(p));
        let mi = cfg.beta1.times(m[i]).plus(one_minus_b1.times(g));
        let vi = cfg.beta2.times(v[i]).plus(one_minus_b2.times(g).times(g));
        m[i] = mi;
        v[i] = vi;
        let m_hat = mi.over(bc1);
        let v_hat = vi.over(bc2);
        params[i] = p.minus(cfg.learning_rate.times(m_hat).over(v_hat.sqrt().plus(cfg.eps)));
        i = i + 1;
    }
    assert(m@ =~= adamw_ms(p0, grads@, m0, cfg));
    assert(v@ =~= adamw_vs(p0, grads@, v0, cfg));
    assert(params@ =~= adamw_params(p0, grads@, m0, v0, cfg));
    Ok(())
}

// ---------------------------------------------------------------- dispatch

/// `2 * n`, saturated at `usize::MAX`.
pub open spec fn double_saturated(n: nat) -> int {
    if 2 * n <= usize::MAX {
        (2 * n) as int
    } else {
        usize::MAX as int
    }
}

/// The AdamW step configuration that an optimizer step builds.
pub open spec fn adamw_config<T>(
    learning_rate: T,
    step: u32,
    beta1: T,
    beta2: T,
    eps: T,
    weight_decay: T,
) -> AdamwConfig<T> {
    AdamwConfig { learning_rate, step, beta1, beta2, eps, weight_decay }
}

/// What one optimizer step over a flat state gives: the result, the new
/// parameters and the new state. SGD keeps its velocities in the state;
/// AdamW keeps the first moments in its first half and the second moments
/// in its second half.
pub open spec fn optimizer_step_spec<T: Float>(
    kind: OptimizerKind<T>,
    params: Seq<T>,
    grads: Seq<T>,
    state: Seq<T>,
    learning_rate: T,
    step: u32,
) -> (Result<(), OptimizerError>, Seq<T>, Seq<T>) {
    if !rate_ok(learning_rate) {
        (Err(OptimizerError::InvalidHyperParams), params, state)
    } else if params.len() != grads.len() {
        (Err(OptimizerError::ShapeMismatch), params, state)
    } else {
        match kind {
            OptimizerKind::Sgd { momentum, nesterov } => {
                let e = sgd_error(momentum, params.len(), grads.len(), state.len());
                if e is Some {
                    (outcome(e), params, state)
                } else {
                    (
                        Ok(()),
                        sgd_params(params, grads, state, learning_rate, momentum, nesterov),
                        sgd_velocities(state, grads, momentum),
                    )
                }
            },
            OptimizerKind::AdamW { beta1, beta2, eps, weight_decay } => {
                let n = params.len();
                if state.len() != double_saturated(n) {
                    (Err(OptimizerError::ShapeMismatch), params, state)
                } else {
                    let cfg = adamw_config(learning_rate, step, beta1, beta2, eps, weight_decay);
                    let m = state.subrange(0, n as int);
                    let v = state.subrange(n as int, state.len() as int);
                    let e = adamw_error(cfg, n, grads.len(), m.len(), v.len());
                    if e is Some {
                        (outcome(e), params, state)
                    } else {
                        (
                            Ok(()),
                            adamw_params(params, grads, m, v, cfg),
                            adamw_ms(params, grads, m, cfg) + adamw_vs(params, grads, v, cfg),
                        )
                    }
                }
            },
        }
    }
}

/// One optimizer step of `kind` at the given rate and step number, over
/// a flat state buffer. A rate that is not finite and positive is
/// `InvalidHyperParams`, parameters and gradients of unequal length and an
/// AdamW state that is not twice the parameters are `ShapeMismatch`; the
/// rest is the step of the optimizer chosen.
pub fn apply_optimizer_step<T: Float>(
    kind: OptimizerKind<T>,
    params: &mut [T],
    grads: &[T],
    state: &mut [T],
    learning_rate: T,
    step: u32,
) -> (r: Result<(), OptimizerError>)
    ensures
        (r, final(params)@, final(state)@) == optimizer_step_spec(
            kind,
            old(params)@,
            grads@,
            old(state)@,
            learning_rate,
            step,
        ),
{
    if !learning_rate.is_finite() || learning_rate.le(T::zero()) {
        return Err(OptimizerError::InvalidHyperParams);
    }
    if params.len() != grads.len() {
        return Err(OptimizerError::ShapeMismatch);
    }
    let kind = match kind {
        OptimizerKind::Sgd { momentum, nesterov } => OptimizerKind::Sgd { momentum, nesterov },
        OptimizerKind::AdamW { beta1, beta2, eps, weight_decay } => OptimizerKind::adamw(
            beta1,
            beta2,
            eps,
            weight_decay,
        ),
    };
    match kind {
        OptimizerKind::Sgd { momentum, nesterov } => {
            step_sgd(params, grads, state, learning_rate, momentum, nesterov)
        },
        OptimizerKind::AdamW { beta1, beta2, eps, weight_decay } => {
            let n = params.len();
            let want = match n.checked_mul(2) {
                Some(w) => w,
                None => usize::MAX,
            };
            if state.len() != want {
                return Err(OptimizerError::ShapeMismatch);
            }
            let cfg = AdamwConfig { learning_rate, step, beta1, beta2, eps, weight_decay };
            let (m, v) = state.split_at_mut(n);
            step_adamw(params, grads, m, v, cfg)
        },
    }
}

/// A state buffer of the length that `optimizer_state_len` gives is one the
/// optimizer step accepts: with a usable rate and as many gradients as
/// parameters, the step never fails on shapes.
pub proof fn law_state_len_accepted<T: Float>(
    kind: OptimizerKind<T>,
    params: Seq<T>,
    grads: Seq<T>,
    state: Seq<T>,
    learning_rate: T,
    step: u32,
)
    requires
        state_len_spec(kind, params.len() as int) <= usize::MAX,
        state.len() == state_len_spec(kind, params.len() as int),
        grads.len() == params.len(),
        rate_ok(learning_rate),
    ensures
        optimizer_step_spec(kind, params, grads, state, learning_rate, step).0 != Err::<
            (),
            OptimizerError,
        >(OptimizerError::ShapeMismatch),
{
    match kind {
        OptimizerKind::Sgd { .. } => {},
        OptimizerKind::AdamW { .. } => {
            let n = params.len();
            assert(state.subrange(n as int, state.len() as int).len() == n);
        },
    }
}

/// SGD with momentum, position by position: the new velocity is
/// `momentum * old_velocity + grad`, so the old velocity carries over, and
/// the parameter moves against `lr` times the new velocity, or, with
/// Nesterov momentum, against `lr * (momentum * new_velocity + grad)`.
pub proof fn law_sgd_momentum<T: Float>(
    params: Seq<T>,
    grads: Seq<T>,
    velocity: Seq<T>,
    learning_rate: T,
    momentum: T,
    nesterov: bool,
    i: int,
)
    requires
        params.len() == grads.len(),
        velocity.len() == grads.len(),
        0 <= i < params.len(),
    ensures
        ({
            let v_new = momentum.times_spec(velocity[i]).plus_spec(grads[i]);
            &&& sgd_velocities(velocity, grads, momentum)[i] == v_new
            &&& sgd_params(params, grads, velocity, learning_rate, momentum, nesterov)[i] == if nesterov {
                params[i].minus_spec(
                    learning_rate.times_spec(momentum.times_spec(v_new).plus_spec(grads[i])),
                )
            } else {
                params[i].minus_spec(learning_rate.times_spec(v_new))
            }
        }),
{
}

/// AdamW, position by position: the gradient is decayed as
/// `g = grad + weight_decay * param`; the moments become
/// `beta1 * m + (1 - beta1) * g` and `beta2 * v + (1 - beta2) * g * g`; and
/// the parameter moves by `lr * m_hat / (sqrt(v_hat) + eps)`, where the
/// bias-corrected moments divide by `1 - beta^t` for the step number `t`.
pub proof fn law_adamw_bias_corrected<T: Float>(
    params: Seq<T>,
    grads: Seq<T>,
    m: Seq<T>,
    v: Seq<T>,
    cfg: AdamwConfig<T>,
    i: int,
)
    requires
        params.len() == grads.len(),
        m.len() == grads.len(),
        v.len() == grads.len(),
        0 <= i < params.len(),
    ensures
        ({
            let one = T::one_spec();
            let t = T::from_i32_spec(cfg.step as i32);
            let g = grads[i].plus_spec(cfg.weight_decay.times_spec(params[i]));
            let m1 = cfg.beta1.times_spec(m[i]).plus_spec(one.minus_spec(cfg.beta1).times_spec(g));
            let v1 = cfg.beta2.times_spec(v[i]).plus_spec(
                one.minus_spec(cfg.beta2).times_spec(g).times_spec(g),
            );
            let m_hat = m1.over_spec(one.minus_spec(cfg.beta1.powf_spec(t)));
            let v_hat = v1.over_spec(one.minus_spec(cfg.beta2.powf_spec(t)));
            &&& adamw_ms(params, grads, m, cfg)[i] == m1
            &&& adamw_vs(params, grads, v, cfg)[i] == v1
            &&& adamw_params(params, grads, m, v, cfg)[i] == params[i].minus_spec(
                cfg.learning_rate.times_spec(m_hat).over_spec(v_hat.sqrt_spec().plus_spec(cfg.eps)),
            )
        }),
{
}

} // verus!
