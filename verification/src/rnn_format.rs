//! Reading and checking RNN0 containers.
pub mod bounds;
pub mod parser;
pub mod scanner;
pub mod roundtrip;
