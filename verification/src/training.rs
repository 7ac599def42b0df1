//! The bookkeeping of the training engine: buffer sizes of a language-model
//! configuration, topology checks, and the configuration types (with their
//! defaults) that the optimizers and schedules are driven by.
use crate::math::Float;
use vstd::prelude::*;

verus! {

// ---------------------------------------------------------------- errors and kinds

/// Errors of the gradient utilities.
#[derive(Clone, Copy, Debug, PartialEq, Eq, Structural)]
pub enum GradientError {
    Empty,
    InvalidThreshold,
}

/// Errors of the optimizers.
#[derive(Clone, Copy, Debug, PartialEq, Eq, Structural)]
pub enum OptimizerError {
    InvalidHyperParams,
    ShapeMismatch,
    StepOverflow,
}

/// The optimizer to apply, with its hyperparameters of scalar type `T`.
#[derive(Clone, Copy, Debug)]
pub enum OptimizerKind<T> {
    Sgd { momentum: T, nesterov: bool },
    AdamW { beta1: T, beta2: T, eps: T, weight_decay: T },
}

impl<T> OptimizerKind<T> {
    /// The AdamW optimizer with the given hyperparameters.
    pub fn adamw(beta1: T, beta2: T, eps: T, weight_decay: T) -> (r: Self)
        ensures
            r == (OptimizerKind::AdamW { beta1, beta2, eps, weight_decay }),
    {
        OptimizerKind::AdamW { beta1, beta2, eps, weight_decay }
    }
}

/// The state an optimizer keeps for `param_count` parameters: one value each
/// for SGD (momentum), two for AdamW (first and second moments).
pub open spec fn state_len_spec<T>(kind: OptimizerKind<T>, param_count: int) -> int {
    match kind {
        OptimizerKind::Sgd { .. } => param_count,
        OptimizerKind::AdamW { .. } => 2 * param_count,
    }
}

/// The state length an optimizer needs; `None` when it does not fit.
pub fn optimizer_state_len<T>(kind: OptimizerKind<T>, param_count: usize) -> (r: Option<usize>)
    ensures
        r is Some <==> state_len_spec(kind, param_count as int) <= usize::MAX,
        r matches Some(n) ==> n == state_len_spec(kind, param_count as int),
{
    match kind {
        OptimizerKind::Sgd { .. } => Some(param_count),
        OptimizerKind::AdamW { .. } => param_count.checked_mul(2),
    }
}

/// The configuration of one AdamW step.
#[derive(Clone, Copy, Debug)]
pub struct AdamwConfig<T> {
    pub learning_rate: T,
    pub step: u32,
    pub beta1: T,
    pub beta2: T,
    pub eps: T,
    pub weight_decay: T,
}

/// A learning-rate schedule.
#[derive(Clone, Copy, Debug)]
pub enum LrSchedule<T> {
    Constant,
    StepDecay { step_size: u32, gamma: T },
    Cosine { total_steps: u32, min_lr_ratio: T },
    LinearWarmup { warmup_steps: u32 },
    InvSqrt { warmup_steps: u32 },
}

/// Errors of the learning-rate schedules.
#[derive(Clone, Copy, Debug, PartialEq, Eq, Structural)]
pub enum ScheduleError {
    InvalidConfig,
}

/// Errors of the trainers.
#[derive(Clone, Copy, Debug, PartialEq, Eq, Structural)]
pub enum TrainError {
    InvalidShape,
    InvalidConfig,
    CountMismatch,
    BufferTooSmall,
    ForwardNaN,
    LossError,
}

/// How the language-model trainer walks its data.
#[derive(Clone, Copy, Debug, PartialEq, Eq, Structural)]
pub enum LmTrainMode {
    Batched,
    Sequential,
    SequentialMasked,
    Accumulate,
    AccumulateMasked,
    MultiSequence,
}

/// The trainer's hyperparameters, of scalar type `T`.
#[derive(Clone, Copy, Debug)]
pub struct LmTrainConfig<T> {
    pub base_lr: T,
    pub schedule: LrSchedule<T>,
    pub grad_clip: T,
    pub weight_decay: T,
    pub beta1: T,
    pub beta2: T,
    pub pad_id: u32,
}

/// `3e-4` as an `f32` bit pattern: the default base learning rate.
pub const DEFAULT_LR_BITS: u32 = 0x399d_4952;

/// `0.01` as an `f32` bit pattern: the default weight decay.
pub const DEFAULT_WEIGHT_DECAY_BITS: u32 = 0x3c23_d70a;

/// `0.9` as an `f32` bit pattern: the default first-moment decay.
pub const DEFAULT_BETA1_BITS: u32 = 0x3f66_6666;

/// `0.999` as an `f32` bit pattern: the default second-moment decay.
pub const DEFAULT_BETA2_BITS: u32 = 0x3f7f_be77;

/// The defaults shared by the constructors, with the given rate and schedule.
pub open spec fn lm_config_with<T: Float>(base_lr: T, schedule: LrSchedule<T>) -> LmTrainConfig<T> {
    LmTrainConfig {
        base_lr,
        schedule,
        grad_clip: T::one_spec(),
        weight_decay: T::from_f32_bits_spec(DEFAULT_WEIGHT_DECAY_BITS),
        beta1: T::from_f32_bits_spec(DEFAULT_BETA1_BITS),
        beta2: T::from_f32_bits_spec(DEFAULT_BETA2_BITS),
        pad_id: 0,
    }
}

impl<T: Float> LmTrainConfig<T> {
    /// AdamW defaults: rate `3e-4` on a constant schedule, clipping at 1,
    /// weight decay `0.01`, betas `0.9` and `0.999`, padding id 0.
    pub fn default_adam() -> (r: Self)
        ensures
            r == lm_config_with(T::from_f32_bits_spec(DEFAULT_LR_BITS), LrSchedule::Constant),
    {
        LmTrainConfig {
            base_lr: T::from_f32_bits(DEFAULT_LR_BITS),
            schedule: LrSchedule::Constant,
            grad_clip: T::one(),
            weight_decay: T::from_f32_bits(DEFAULT_WEIGHT_DECAY_BITS),
            beta1: T::from_f32_bits(DEFAULT_BETA1_BITS),
            beta2: T::from_f32_bits(DEFAULT_BETA2_BITS),
            pad_id: 0,
        }
    }

    /// The AdamW defaults with rate `base_lr` and linear warmup over
    /// `warmup_steps` steps.
    pub fn with_warmup(base_lr: T, warmup_steps: u32) -> (r: Self)
        ensures
            r == lm_config_with(base_lr, LrSchedule::LinearWarmup { warmup_steps }),
    {
        LmTrainConfig {
            base_lr,
            schedule: LrSchedule::LinearWarmup { warmup_steps },
            grad_clip: T::one(),
            weight_decay: T::from_f32_bits(DEFAULT_WEIGHT_DECAY_BITS),
            beta1: T::from_f32_bits(DEFAULT_BETA1_BITS),
            beta2: T::from_f32_bits(DEFAULT_BETA2_BITS),
            pad_id: 0,
        }
    }
}

/// What one run of the language-model trainer is given besides its buffers.
pub struct LmTrainRun<'a> {
    pub target_active: &'a [bool],
    pub seq_lens: &'a [usize],
    pub mode: LmTrainMode,
    pub train_window: usize,
    pub num_steps: usize,
    pub accum_micro: usize,
    pub seed: u64,
    pub distill_targets: Option<&'a [u32]>,
    pub deadline_ns: u64,
}

/// The parameters, gradient buffer and AdamW moments one step updates.
pub struct AdamState<'a, T> {
    pub params: &'a mut [T],
    pub grads_buf: &'a mut [T],
    pub m: &'a mut [T],
    pub v: &'a mut [T],
    pub step: u32,
}

/// The buffers of the batched trainer.
pub struct TrainBatchedBuffers<'a, T> {
    pub params: &'a mut [T],
    pub m: &'a mut [T],
    pub v: &'a mut [T],
    pub grad_layer: &'a mut [T],
    pub embed_grad: &'a mut [T],
    pub final_grad: &'a mut [T],
    pub work: &'a mut [T],
    pub checkpoints: &'a mut [T],
}

/// The buffers of one run of the language-model trainer.
pub struct LmTrainBufs<'a, T> {
    pub params: &'a mut [T],
    pub grads_buf: &'a mut [T],
    pub m_buf: &'a mut [T],
    pub v_buf: &'a mut [T],
    pub work_buf: &'a mut [T],
    pub checkpoints_buf: &'a mut [T],
    pub fwd_buf: &'a mut [T],
    pub acts_buf: &'a mut [T],
    pub back_tmp1: &'a mut [T],
    pub back_tmp2: &'a mut [T],
    pub back_dscores: &'a mut [T],
    pub kv_buf: &'a mut [T],
    pub metrics_out: &'a mut [T],
}

// ---------------------------------------------------------------- sizes

/// The dimensions of a language model that the buffer sizes depend on;
/// `kv_h` is the width of the key and value projections.
#[derive(Clone, Copy, Debug, PartialEq, Eq, Structural)]
pub struct LmDims {
    pub vocab_size: usize,
    pub context_len: usize,
    pub hidden_size: usize,
    pub kv_h: usize,
    pub ffw_size: usize,
    pub num_layers: usize,
    pub num_heads: usize,
}

/// The working-buffer length of the batched trainer: the stored
/// activations of a layer and the scratch of its forward and backward
/// passes.
pub open spec fn work_count_spec(c: LmDims) -> int {
    let s = c.context_len as int;
    let h = c.hidden_size as int;
    let kv = c.kv_h as int;
    let f = c.ffw_size as int;
    let nh = c.num_heads as int;
    let v = c.vocab_size as int;
    let stored = 6 * (s * h) + 2 * (s * kv) + 2 * (s * f) + nh * s * s;
    let working = 10 * (s * h) + 2 * (s * kv) + 3 * (s * f) + nh * s + s * v + v;
    stored + working
}

pub fn batched_work_count(cfg: &LmDims) -> (r: usize)
    requires
        work_count_spec(*cfg) <= usize::MAX,
    ensures
        r == work_count_spec(*cfg),
{
    let s = cfg.context_len;
    let h = cfg.hidden_size;
    let kv_h = cfg.kv_h;
    let ffw = cfg.ffw_size;
    let nh = cfg.num_heads;
    let v = cfg.vocab_size;
    proof {
        assert(s * h >= 0 && s * kv_h >= 0 && s * ffw >= 0 && nh * s * s >= 0 && nh * s >= 0 && s
            * v >= 0) by (nonlinear_arith);
    }
    let sh = s * h;
    let skv = s * kv_h;
    let sf = s * ffw;
    let nss = nh * s * s;
    let stored = 6 * sh + 2 * skv + 2 * sf + nss;
    let working = 10 * sh + 2 * skv + 3 * sf + nh * s + s * v + v;
    stored + working
}

/// The number of checkpointed activations: one hidden vector per position
/// and layer.
pub fn checkpoint_count(cfg: &LmDims) -> (r: usize)
    requires
        cfg.num_layers * cfg.context_len <= usize::MAX,
        cfg.num_layers * cfg.context_len * cfg.hidden_size <= usize::MAX,
    ensures
        r == cfg.num_layers * cfg.context_len * cfg.hidden_size,
{
    cfg.num_layers * cfg.context_len * cfg.hidden_size
}

/// The parameter count of one transformer block: two norms, the attention
/// projections, and the gated feed-forward.
pub open spec fn block_params_spec(c: LmDims) -> int {
    let h = c.hidden_size as int;
    let kv = c.kv_h as int;
    let f = c.ffw_size as int;
    h + h * h + kv * h + kv * h + h * h + h + f * h + f * h + h * f
}

pub fn block_param_count(cfg: &LmDims) -> (r: usize)
    requires
        block_params_spec(*cfg) <= usize::MAX,
    ensures
        r == block_params_spec(*cfg),
{
    let h = cfg.hidden_size;
    let kv_h = cfg.kv_h;
    let ffw = cfg.ffw_size;
    proof {
        assert(h * h >= 0 && kv_h * h >= 0 && ffw * h >= 0 && h * ffw >= 0) by (nonlinear_arith);
    }
    h + h * h + kv_h * h + kv_h * h + h * h + h + ffw * h + ffw * h + h * ffw
}

/// The sum of the first `k` layer sizes.
pub open spec fn sizes_sum(layers: Seq<usize>, k: int) -> int
    decreases k,
{
    if k <= 0 {
        0
    } else {
        sizes_sum(layers, k - 1) + layers[k - 1]
    }
}

proof fn lemma_sizes_sum_grows(layers: Seq<usize>, j: int, k: int)
    requires
        0 <= j <= k <= layers.len(),
    ensures
        sizes_sum(layers, j) <= sizes_sum(layers, k),
    decreases k - j,
{
    if j < k {
        lemma_sizes_sum_grows(layers, j, k - 1);
    }
}

/// The activation buffer a topology needs: one value per neuron; `None` for
/// an empty topology or a sum that does not fit.
pub fn required_train_buffer_len(layers: &[usize]) -> (r: Option<usize>)
    ensures
        r is Some <==> layers@.len() > 0 && sizes_sum(layers@, layers@.len() as int) <= usize::MAX,
        r matches Some(n) ==> n == sizes_sum(layers@, layers@.len() as int),
{
    if layers.len() == 0 {
        return None;
    }
    let mut total: usize = 0;
    let mut i: usize = 0;
    while i < layers.len()
        invariant
            i <= layers@.len(),
            total == sizes_sum(layers@, i as int),
        decreases layers@.len() - i,
    {
        if total > usize::MAX - layers[i] {
            proof {
                lemma_sizes_sum_grows(layers@, i + 1, layers@.len() as int);
            }
            return None;
        }
        total = total + layers[i];
        i = i + 1;
    }
    Some(total)
}

/// Whether an input and a target fit the first and last layer of a topology
/// of at least two layers.
pub fn io_matches_layers(layers: &[usize], input_len: usize, target_len: usize) -> (r: bool)
    ensures
        r <==> layers@.len() >= 2 && input_len == layers@[0] && target_len == layers@.last(),
{
    if layers.len() < 2 {
        return false;
    }
    input_len == layers[0] && target_len == layers[layers.len() - 1]
}

} // verus!
