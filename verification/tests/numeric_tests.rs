use native_neural_network::gradients::{all_finite, clip_by_global_norm, l2_norm};
use native_neural_network::lora::{apply_lora_delta, lora_forward_delta, LoraError};
use native_neural_network::math::Float;
use native_neural_network::optim::{apply_optimizer_step, step_adamw, step_sgd};
use native_neural_network::lm_step::{apply_grads_adamw, LmError};
use native_neural_network::quant::{matvec_ternary, quantize_ternary, unpack_ternary, QuantError};
use native_neural_network::schedule::{
    compute_learning_rate, cosine_decay, inv_sqrt_warmup, linear_warmup, step_decay,
};
use native_neural_network::training::{
    optimizer_state_len, AdamwConfig, GradientError, LmTrainConfig, LrSchedule, OptimizerError,
    OptimizerKind, ScheduleError,
};

#[derive(Clone, Copy, Debug, PartialEq)]
struct F(f64);

impl Float for F {
    fn zero() -> Self {
        F(0.0)
    }
    fn one() -> Self {
        F(1.0)
    }
    fn half() -> Self {
        F(0.5)
    }
    fn from_i32(v: i32) -> Self {
        F(v as f64)
    }
    fn from_usize(v: usize) -> Self {
        F(v as f64)
    }
    fn from_f32_bits(bits: u32) -> Self {
        F(f32::from_bits(bits) as f64)
    }
    fn plus(self, o: Self) -> Self {
        F(self.0 + o.0)
    }
    fn minus(self, o: Self) -> Self {
        F(self.0 - o.0)
    }
    fn times(self, o: Self) -> Self {
        F(self.0 * o.0)
    }
    fn over(self, o: Self) -> Self {
        F(self.0 / o.0)
    }
    fn neg(self) -> Self {
        F(-self.0)
    }
    fn abs(self) -> Self {
        F(self.0.abs())
    }
    fn sqrt(self) -> Self {
        F(self.0.sqrt())
    }
    fn powf(self, e: Self) -> Self {
        F(self.0.powf(e.0))
    }
    fn cos(self) -> Self {
        F(self.0.cos())
    }
    fn min(self, o: Self) -> Self {
        F(self.0.min(o.0))
    }
    fn is_finite(self) -> bool {
        self.0.is_finite()
    }
    fn lt(self, o: Self) -> bool {
        self.0 < o.0
    }
    fn le(self, o: Self) -> bool {
        self.0 <= o.0
    }
    fn zero_spec() -> Self {
        Self::zero()
    }
    fn one_spec() -> Self {
        Self::one()
    }
    fn half_spec() -> Self {
        Self::half()
    }
    fn from_i32_spec(v: i32) -> Self {
        Self::from_i32(v)
    }
    fn from_usize_spec(v: usize) -> Self {
        Self::from_usize(v)
    }
    fn from_f32_bits_spec(bits: u32) -> Self {
        Self::from_f32_bits(bits)
    }
    fn plus_spec(self, o: Self) -> Self {
        self.plus(o)
    }
    fn minus_spec(self, o: Self) -> Self {
        self.minus(o)
    }
    fn times_spec(self, o: Self) -> Self {
        self.times(o)
    }
    fn over_spec(self, o: Self) -> Self {
        self.over(o)
    }
    fn neg_spec(self) -> Self {
        self.neg()
    }
    fn abs_spec(self) -> Self {
        self.abs()
    }
    fn sqrt_spec(self) -> Self {
        self.sqrt()
    }
    fn powf_spec(self, e: Self) -> Self {
        self.powf(e)
    }
    fn cos_spec(self) -> Self {
        self.cos()
    }
    fn min_spec(self, o: Self) -> Self {
        self.min(o)
    }
    fn is_finite_spec(self) -> bool {
        self.is_finite()
    }
    fn lt_spec(self, o: Self) -> bool {
        self.lt(o)
    }
    fn le_spec(self, o: Self) -> bool {
        self.le(o)
    }
}

fn close(a: F, b: f64) -> bool {
    (a.0 - b).abs() < 1e-9
}

fn fs(v: &[f64]) -> Vec<F> {
    v.iter().map(|&x| F(x)).collect()
}

#[test]
fn l2_norm_of_three_four_is_five() {
    assert!(close(l2_norm(&fs(&[3.0, 4.0])).unwrap(), 5.0));
    assert_eq!(l2_norm::<F>(&[]), Err(GradientError::Empty));
}

#[test]
fn clipping_scales_down_only_above_the_threshold() {
    let mut v = fs(&[3.0, 4.0]);
    let norm = clip_by_global_norm(&mut v, F(1.0)).unwrap();
    assert!(close(norm, 5.0));
    assert!(close(v[0], 0.6) && close(v[1], 0.8));

    let mut w = fs(&[3.0, 4.0]);
    assert!(close(clip_by_global_norm(&mut w, F(10.0)).unwrap(), 5.0));
    assert_eq!(w, fs(&[3.0, 4.0]));

    let mut u = fs(&[3.0, 4.0]);
    assert_eq!(clip_by_global_norm(&mut u, F(0.0)), Err(GradientError::InvalidThreshold));
    assert_eq!(clip_by_global_norm(&mut u, F(f64::NAN)), Err(GradientError::InvalidThreshold));
    assert_eq!(u, fs(&[3.0, 4.0]));
    let mut e: Vec<F> = Vec::new();
    assert_eq!(clip_by_global_norm(&mut e, F(1.0)), Err(GradientError::Empty));
}

#[test]
fn finiteness_check() {
    assert!(all_finite(&fs(&[1.0, -2.0, 0.0])));
    assert!(!all_finite(&fs(&[1.0, f64::INFINITY])));
    assert!(!all_finite(&fs(&[f64::NAN])));
    assert!(all_finite::<F>(&[]));
}

#[test]
fn schedules_give_their_formulas() {
    assert!(close(step_decay(F(1.0), 5, 2, F(0.5)).unwrap(), 0.25));
    assert!(close(step_decay(F(1.0), 0, 2, F(0.5)).unwrap(), 1.0));
    assert_eq!(step_decay(F(1.0), 5, 0, F(0.5)), None);
    assert_eq!(step_decay(F(-1.0), 5, 2, F(0.5)), None);

    assert!(close(linear_warmup(F(1.0), 2, 4).unwrap(), 0.5));
    assert!(close(linear_warmup(F(1.0), 0, 4).unwrap(), 0.25));
    assert!(close(linear_warmup(F(1.0), 9, 4).unwrap(), 1.0));
    assert_eq!(linear_warmup(F(1.0), 2, 0), None);

    assert!(close(inv_sqrt_warmup(F(1.0), 16, 4).unwrap(), 0.5));
    assert!(close(inv_sqrt_warmup(F(1.0), 4, 4).unwrap(), 1.0));
    assert_eq!(inv_sqrt_warmup(F(0.0), 4, 4), None);

    let end = cosine_decay(F(1.0), 10, 10, F(0.1)).unwrap();
    assert!((end.0 - 0.1).abs() < 1e-6);
    let mid = cosine_decay(F(1.0), 5, 10, F(0.0)).unwrap();
    assert!((mid.0 - 0.5).abs() < 1e-6);
    assert_eq!(cosine_decay(F(1.0), 5, 10, F(1.5)), None);
    assert_eq!(cosine_decay(F(1.0), 5, 0, F(0.5)), None);
}

#[test]
fn learning_rate_dispatch() {
    assert!(close(compute_learning_rate(F(0.5), 3, LrSchedule::Constant).unwrap(), 0.5));
    assert_eq!(
        compute_learning_rate(F(0.0), 3, LrSchedule::Constant),
        Err(ScheduleError::InvalidConfig)
    );
    let lr = compute_learning_rate(F(1.0), 2, LrSchedule::LinearWarmup { warmup_steps: 4 });
    assert!(close(lr.unwrap(), 0.5));
    assert_eq!(
        compute_learning_rate(F(1.0), 2, LrSchedule::StepDecay { step_size: 0, gamma: F(0.5) }),
        Err(ScheduleError::InvalidConfig)
    );
}

#[test]
fn sgd_step_with_and_without_nesterov() {
    let mut p = fs(&[1.0]);
    let mut v = fs(&[0.0]);
    step_sgd(&mut p, &fs(&[0.5]), &mut v, F(0.1), F(0.9), false).unwrap();
    assert!(close(v[0], 0.5) && close(p[0], 0.95));

    let mut p = fs(&[1.0]);
    let mut v = fs(&[0.0]);
    step_sgd(&mut p, &fs(&[0.5]), &mut v, F(0.1), F(0.9), true).unwrap();
    assert!(close(v[0], 0.5) && close(p[0], 0.905));

    let mut p = fs(&[1.0]);
    let mut v = fs(&[0.0]);
    assert_eq!(
        step_sgd(&mut p, &fs(&[0.5]), &mut v, F(0.1), F(1.0), false),
        Err(OptimizerError::InvalidHyperParams)
    );
    assert_eq!(
        step_sgd(&mut p, &fs(&[0.5, 1.0]), &mut v, F(0.1), F(0.5), false),
        Err(OptimizerError::ShapeMismatch)
    );
    assert_eq!(p, fs(&[1.0]));
}

fn adam_cfg(step: u32) -> AdamwConfig<F> {
    AdamwConfig {
        learning_rate: F(0.1),
        step,
        beta1: F(0.9),
        beta2: F(0.999),
        eps: F(1e-8),
        weight_decay: F(0.0),
    }
}

#[test]
fn adamw_first_step() {
    let mut p = fs(&[1.0]);
    let mut m = fs(&[0.0]);
    let mut v = fs(&[0.0]);
    step_adamw(&mut p, &fs(&[0.1]), &mut m, &mut v, adam_cfg(1)).unwrap();
    assert!(close(m[0], 0.01));
    assert!((v[0].0 - 1e-5).abs() < 1e-12);
    assert!((p[0].0 - 0.9).abs() < 1e-6);

    let mut p = fs(&[1.0]);
    assert_eq!(
        step_adamw(&mut p, &fs(&[0.1]), &mut m, &mut v, adam_cfg(0)),
        Err(OptimizerError::StepOverflow)
    );
    let mut short = fs(&[]);
    assert_eq!(
        step_adamw(&mut p, &fs(&[0.1]), &mut short, &mut v, adam_cfg(1)),
        Err(OptimizerError::ShapeMismatch)
    );
    assert_eq!(p, fs(&[1.0]));
}

#[test]
fn optimizer_step_over_flat_state() {
    let kind = OptimizerKind::adamw(F(0.9), F(0.999), F(1e-8), F(0.0));
    let mut p = fs(&[1.0, 2.0]);
    assert_eq!(optimizer_state_len(kind, p.len()), Some(4));
    let mut state = fs(&[0.0; 4]);
    apply_optimizer_step(kind, &mut p, &fs(&[0.1, 0.1]), &mut state, F(0.1), 1).unwrap();
    assert!(close(state[0], 0.01) && close(state[1], 0.01));
    assert!((state[2].0 - 1e-5).abs() < 1e-12);
    assert!((p[0].0 - 0.9).abs() < 1e-6 && (p[1].0 - 1.9).abs() < 1e-6);

    let mut bad_state = fs(&[0.0; 3]);
    assert_eq!(
        apply_optimizer_step(kind, &mut p, &fs(&[0.1, 0.1]), &mut bad_state, F(0.1), 1),
        Err(OptimizerError::ShapeMismatch)
    );
    assert_eq!(
        apply_optimizer_step(kind, &mut p, &fs(&[0.1, 0.1]), &mut state, F(0.0), 1),
        Err(OptimizerError::InvalidHyperParams)
    );

    let sgd = OptimizerKind::Sgd { momentum: F(0.0), nesterov: false };
    let mut q = fs(&[1.0]);
    let mut vel = fs(&[0.0]);
    apply_optimizer_step(sgd, &mut q, &fs(&[1.0]), &mut vel, F(0.5), 1).unwrap();
    assert!(close(q[0], 0.5) && close(vel[0], 1.0));
}

#[test]
fn trainer_defaults() {
    let d = LmTrainConfig::<F>::default_adam();
    assert_eq!(d.base_lr, F(3e-4f32 as f64));
    assert_eq!(d.weight_decay, F(0.01f32 as f64));
    assert_eq!(d.beta1, F(0.9f32 as f64));
    assert_eq!(d.beta2, F(0.999f32 as f64));
    assert_eq!(d.grad_clip, F(1.0));
    assert_eq!(d.pad_id, 0);
    assert!(matches!(d.schedule, LrSchedule::Constant));
    let w = LmTrainConfig::with_warmup(F(0.02), 7);
    assert_eq!(w.base_lr, F(0.02));
    assert!(matches!(w.schedule, LrSchedule::LinearWarmup { warmup_steps: 7 }));
}

#[test]
fn ternary_quantization_round_trips_the_trits() {
    let input = fs(&[1.0, -1.0, 0.0, 0.1, 2.0, -3.0]);
    let mut packed = [0xEEu8; 3];
    let scale = quantize_ternary(&input, &mut packed).unwrap();
    assert!((scale.0 - 7.1 / 6.0).abs() < 1e-9);
    assert_eq!(packed[0], 2 + 9 + 27 + 2 * 81);
    assert_eq!(packed[1], 0);
    assert_eq!(packed[2], 0xEE);
    assert_eq!(unpack_ternary(&packed, 6).unwrap(), vec![2, 0, 1, 1, 2, 0]);

    let zeros = fs(&[0.0, 0.0]);
    let mut p = [0u8; 1];
    assert_eq!(quantize_ternary(&zeros, &mut p).unwrap(), F(1.0));
    assert_eq!(p[0], 1 + 3);

    assert_eq!(quantize_ternary::<F>(&[], &mut p), Err(QuantError::Empty));
    let mut none: [u8; 0] = [];
    assert_eq!(quantize_ternary(&input, &mut none), Err(QuantError::ShapeMismatch));
}

#[test]
fn lora_merge_adds_scaled_outer_product() {
    let mut w = fs(&[1.0, 1.0, 1.0, 1.0]);
    let a = fs(&[1.0, 2.0]);
    let b = fs(&[3.0, 0.0]);
    apply_lora_delta(&mut w, 2, 2, &a, &b, 1, F(2.0)).unwrap();
    assert_eq!(w, fs(&[7.0, 13.0, 1.0, 1.0]));
    assert_eq!(
        apply_lora_delta(&mut w, 2, 2, &a, &b, 0, F(2.0)),
        Err(LoraError::ShapeMismatch)
    );
    assert_eq!(
        apply_lora_delta(&mut w, 2, 3, &a, &b, 1, F(2.0)),
        Err(LoraError::ShapeMismatch)
    );
}

#[test]
fn lora_forward_adds_the_adapter_output() {
    let x = fs(&[1.0, 1.0, 2.0, 0.0]);
    let a = fs(&[2.0, 3.0]);
    let b = fs(&[2.0, -1.0]);
    let mut out = fs(&[10.0, 10.0, 10.0, 10.0, 99.0]);
    let mut tmp = fs(&[0.0, 0.0, 7.0]);
    lora_forward_delta(&x, &a, &b, &mut out, &mut tmp, 2, 2, 2, 1, F(1.0)).unwrap();
    assert_eq!(tmp, fs(&[5.0, 4.0, 7.0]));
    assert_eq!(out, fs(&[20.0, 5.0, 18.0, 6.0, 99.0]));
    assert_eq!(
        lora_forward_delta(&x, &a, &b, &mut out, &mut tmp, 3, 2, 2, 1, F(1.0)),
        Err(LoraError::ShapeMismatch)
    );
}

#[test]
fn ternary_matvec_reads_signed_trits() {
    let inp = fs(&[1.0, 2.0, 3.0, 4.0, 5.0, 6.0]);
    let w_packed = [200u8, 0, 121, 1];
    let scales = fs(&[2.0, 3.0]);
    let mut out = fs(&[0.0, 0.0, 99.0]);
    matvec_ternary(&inp, &w_packed, &scales, 6, 2, &mut out).unwrap();
    assert_eq!(out, fs(&[-4.0, 0.0, 99.0]));
    assert_eq!(
        matvec_ternary(&inp, &w_packed, &scales, 0, 2, &mut out),
        Err(QuantError::Empty)
    );
    assert_eq!(
        matvec_ternary(&inp, &w_packed[..3], &scales, 6, 2, &mut out),
        Err(QuantError::ShapeMismatch)
    );
    assert_eq!(out, fs(&[-4.0, 0.0, 99.0]));
}

#[test]
fn quantized_row_feeds_the_matvec() {
    let row = fs(&[1.0, -1.0, 0.0, 0.1, 2.0, -3.0]);
    let mut packed = [0u8; 2];
    let scale = quantize_ternary(&row, &mut packed).unwrap();
    let mut out = fs(&[0.0]);
    let inp = fs(&[1.0, 2.0, 3.0, 4.0, 5.0, 6.0]);
    matvec_ternary(&inp, &packed, &[scale], 6, 1, &mut out).unwrap();
    assert!(close(out[0], (1.0 - 2.0 + 5.0 - 6.0) * scale.0));
}

fn lm_cfg(grad_clip: f64) -> LmTrainConfig<F> {
    LmTrainConfig {
        base_lr: F(0.1),
        schedule: LrSchedule::Constant,
        grad_clip: F(grad_clip),
        weight_decay: F(0.0),
        beta1: F(0.9),
        beta2: F(0.999),
        pad_id: 0,
    }
}

#[test]
fn applying_gradients_clips_steps_and_clears() {
    let mut p = fs(&[1.0]);
    let mut g = fs(&[0.1]);
    let mut m = fs(&[0.0]);
    let mut v = fs(&[0.0]);
    let norm = apply_grads_adamw(&lm_cfg(0.0), &mut p, &mut g, &mut m, &mut v, 1).unwrap();
    assert_eq!(norm, F(0.0));
    assert!((p[0].0 - 0.9).abs() < 1e-6);
    assert_eq!(g, fs(&[0.0]));

    let mut p = fs(&[1.0, 1.0]);
    let mut g = fs(&[3.0, 4.0]);
    let mut m = fs(&[0.0, 0.0]);
    let mut v = fs(&[0.0, 0.0]);
    let norm = apply_grads_adamw(&lm_cfg(1.0), &mut p, &mut g, &mut m, &mut v, 1).unwrap();
    assert!(close(norm, 5.0));
    assert!(close(m[0], 0.1 * 0.6) && close(m[1], 0.1 * 0.8));
    assert_eq!(g, fs(&[0.0, 0.0]));

    let mut g = fs(&[3.0, 4.0]);
    assert_eq!(
        apply_grads_adamw(&lm_cfg(1.0), &mut p, &mut g, &mut m, &mut v, 0),
        Err(LmError::InvalidConfig)
    );
    assert!(close(g[0], 0.6) && close(g[1], 0.8));

    let mut short = fs(&[]);
    assert_eq!(
        apply_grads_adamw(&lm_cfg(1.0), &mut p, &mut g, &mut short, &mut v, 1),
        Err(LmError::ShapeMismatch)
    );
}
