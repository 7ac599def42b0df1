//! The RMD1 payload and the RNN0 container.
pub mod blob;
pub mod container;
pub mod layout;
pub mod lmlp;
pub mod names;
pub mod payload;
pub mod rmd1;
pub mod rnn_encode;
pub mod summary;
pub mod train_config;
