//! Descriptions of the blobs written into a container, and protocol errors.
use vstd::prelude::*;
use vstd::string::StringSliceAdditionalSpecFns;

verus! {

/// Errors of the container encoder and the payload readers.
#[derive(Clone, Copy, Debug, PartialEq, Eq)]
pub enum RnnProtocolError {
    Truncated,
    BadMagic,
    BadVersion,
    BadHeader,
    CapacityTooSmall,
    InvalidPayload,
}

/// One blob to be written into a container.
#[derive(Clone, Copy)]
pub struct BlobDesc<'a> {
    pub name: &'a str,
    pub dtype: u8,
    pub dims: [u32; 2],
    pub ndim: u8,
    pub payload: &'a [u8],
}

/// The name of a blob as bytes.
pub open spec fn desc_name(d: BlobDesc) -> Seq<u8> {
    d.name.spec_bytes()
}

/// The magic of an RNN0 container, "RNN\0".
pub open spec fn rnn0_magic() -> Seq<u8> {
    seq![0x52u8, 0x4e, 0x4e, 0x00]
}

/// The magic of an RMD1 payload, "RMD1".
pub open spec fn rmd1_magic() -> Seq<u8> {
    seq![0x52u8, 0x4d, 0x44, 0x31]
}

pub const RNN0_VERSION: u16 = 1;

pub const TLV_BLOB_TABLE: u8 = 0x03;

pub const TLV_HEADER_MODEL_NAME: u8 = 0x04;

pub const TLV_HEADER_NETWORK_SUMMARY: u8 = 0x05;

pub const TLV_HEADER_BENCHMARK: u8 = 0x06;

pub const TLV_VIZ_INDEX: u8 = 0x07;

pub const LAYER_META_SIZE: usize = 20;

pub const NEURON_POSITION_COLS: usize = 7;

} // verus!
