//! Byte codecs used inside containers.
pub mod lz77;
