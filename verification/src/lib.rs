//! Verified core of a no-std neural-network toolkit: token batching, the RMD1
//! payload and RNN0 container formats, compression codecs, ternary
//! quantization, low-rank adapters, and the optimizers, schedules and
//! bookkeeping of the training engine.

pub mod batching;
pub mod bytes;
pub mod codec;
pub mod digest;
pub mod format;
pub mod gradients;
pub mod graph;
pub mod lm_step;
pub mod lora;
pub mod math;
pub mod optim;
pub mod paths;
pub mod pool_files;
pub mod quant;
pub mod rnn_format;
pub mod schedule;
pub mod training;
