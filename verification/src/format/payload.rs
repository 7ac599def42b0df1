//! Reading an RMD1 payload's parts, the header records of an RNN0
//! container, and the neuron counts of the layer metadata.
use vstd::prelude::*;
use crate::bytes::{le16, le32, read_u16_le, read_u32_le, bytes_equal};
use crate::format::blob::{RnnProtocolError, rnn0_magic, rmd1_magic};

verus! {

broadcast use vstd::slice::group_slice_axioms;

/// The parts of an RMD1 payload.
pub struct Payload<'a> {
    pub dtype: u8,
    pub layer_count: usize,
    pub weights_len: usize,
    pub biases_len: usize,
    pub layer_meta: &'a [u8],
    pub weights: &'a [u8],
    pub biases: &'a [u8],
}

/// The element size of dtype 0 (4) or 1 (8).
pub open spec fn elem_size(dtype: u8) -> int {
    if dtype == 0 {
        4
    } else {
        8
    }
}

/// Where the layer metadata, the weights and the biases end, for the header
/// of `b`.
pub open spec fn layers_end(b: Seq<u8>) -> int {
    20 + 20 * le32(b, 8)
}

pub open spec fn weights_end(b: Seq<u8>) -> int {
    layers_end(b) + elem_size(b[6]) * le32(b, 12)
}

pub open spec fn biases_end(b: Seq<u8>) -> int {
    weights_end(b) + elem_size(b[6]) * le32(b, 16)
}

/// What reading the payload `b` gives: its error, or success.
pub open spec fn payload_error(b: Seq<u8>) -> Option<RnnProtocolError> {
    if b.len() < 20 {
        Some(RnnProtocolError::Truncated)
    } else if b.subrange(0, 4) != rmd1_magic() {
        Some(RnnProtocolError::BadMagic)
    } else if le16(b, 4) != 1 {
        Some(RnnProtocolError::BadVersion)
    } else if b[6] > 1 {
        Some(RnnProtocolError::BadHeader)
    } else if biases_end(b) > usize::MAX {
        Some(RnnProtocolError::BadHeader)
    } else if biases_end(b) > b.len() {
        Some(RnnProtocolError::Truncated)
    } else {
        None
    }
}

/// Splits an RMD1 payload into its header fields, layer metadata, weights
/// and biases.
pub fn parse_payload<'a>(bytes: &'a [u8]) -> (r: Result<Payload<'a>, RnnProtocolError>)
    ensures
        match r {
            Ok(p) => {
                let b = bytes@;
                &&& payload_error(b) is None
                &&& p.dtype == b[6]
                &&& p.layer_count == le32(b, 8)
                &&& p.weights_len == le32(b, 12)
                &&& p.biases_len == le32(b, 16)
                &&& p.layer_meta@ == b.subrange(20, layers_end(b))
                &&& p.weights@ == b.subrange(layers_end(b), weights_end(b))
                &&& p.biases@ == b.subrange(weights_end(b), biases_end(b))
            },
            Err(e) => payload_error(bytes@) == Some(e),
        },
{
    let n = bytes.len();
    if n < 20 {
        return Err(RnnProtocolError::Truncated);
    }
    let magic: [u8; 4] = [0x52, 0x4d, 0x44, 0x31];
    assert(magic@ =~= rmd1_magic());
    if !bytes_equal(vstd::slice::slice_subrange(bytes, 0, 4), &magic) {
        return Err(RnnProtocolError::BadMagic);
    }
    let version = read_u16_le(bytes, 4);
    if version != 1 {
        return Err(RnnProtocolError::BadVersion);
    }
    let dtype = bytes[6];
    if dtype != 0 && dtype != 1 {
        return Err(RnnProtocolError::BadHeader);
    }
    let layer_count = read_u32_le(bytes, 8) as usize;
    let weights_len = read_u32_le(bytes, 12) as usize;
    let biases_len = read_u32_le(bytes, 16) as usize;
    let es: usize = if dtype == 0 {
        4
    } else {
        8
    };
    let layer_meta_bytes = match layer_count.checked_mul(20) {
        Some(v) => v,
        None => {
            proof {
                assert(es * weights_len >= 0) by (nonlinear_arith);
                assert(es * biases_len >= 0) by (nonlinear_arith);
            }
            return Err(RnnProtocolError::BadHeader);
        },
    };
    let weights_bytes = match weights_len.checked_mul(es) {
        Some(v) => v,
        None => {
            proof {
                assert(es * weights_len == weights_len * es) by (nonlinear_arith);
                assert(es * biases_len >= 0) by (nonlinear_arith);
            }
            return Err(RnnProtocolError::BadHeader);
        },
    };
    let biases_bytes = match biases_len.checked_mul(es) {
        Some(v) => v,
        None => {
            proof {
                assert(es * biases_len == biases_len * es) by (nonlinear_arith);
                assert(es * weights_len == weights_len * es) by (nonlinear_arith);
            }
            return Err(RnnProtocolError::BadHeader);
        },
    };
    proof {
        assert(weights_bytes == es * weights_len) by (nonlinear_arith)
            requires
                weights_bytes == weights_len * es,
        ;
        assert(biases_bytes == es * biases_len) by (nonlinear_arith)
            requires
                biases_bytes == biases_len * es,
        ;
    }
    if layer_meta_bytes > usize::MAX - 20 {
        return Err(RnnProtocolError::BadHeader);
    }
    let layers_end = 20 + layer_meta_bytes;
    if weights_bytes > usize::MAX - layers_end {
        return Err(RnnProtocolError::BadHeader);
    }
    let weights_end = layers_end + weights_bytes;
    if biases_bytes > usize::MAX - weights_end {
        return Err(RnnProtocolError::BadHeader);
    }
    let biases_end = weights_end + biases_bytes;
    if biases_end > n {
        return Err(RnnProtocolError::Truncated);
    }
    Ok(
        Payload {
            dtype,
            layer_count,
            weights_len,
            biases_len,
            layer_meta: vstd::slice::slice_subrange(bytes, 20, layers_end),
            weights: vstd::slice::slice_subrange(bytes, layers_end, weights_end),
            biases: vstd::slice::slice_subrange(bytes, weights_end, biases_end),
        },
    )
}

// ---------------------------------------------------------------- header records

/// The record of type `wanted` in the TLV records of a header of `h` bytes,
/// from `cursor`: its start and end, or the error the walk meets.
pub open spec fn tlv_find(b: Seq<u8>, cursor: int, h: int, wanted: u8) -> Result<
    (int, int),
    RnnProtocolError,
>
    decreases h - cursor,
{
    if cursor >= h || cursor < 0 {
        Err(RnnProtocolError::InvalidPayload)
    } else if b[cursor] == 0 {
        tlv_find(b, cursor + 1, h, wanted)
    } else if cursor + 5 > h {
        Err(RnnProtocolError::BadHeader)
    } else {
        let c = cursor + 5;
        let end = c + le32(b, cursor + 1);
        if end > h {
            Err(RnnProtocolError::BadHeader)
        } else if b[cursor] == wanted {
            Ok((c, end))
        } else {
            tlv_find(b, end, h, wanted)
        }
    }
}

/// What looking up a header record of type `wanted` gives.
pub open spec fn header_tlv_spec(b: Seq<u8>, wanted: u8) -> Result<(int, int), RnnProtocolError> {
    if b.len() < 12 {
        Err(RnnProtocolError::Truncated)
    } else if b.subrange(0, 4) != rnn0_magic() {
        Err(RnnProtocolError::BadMagic)
    } else if le16(b, 4) != 1 {
        Err(RnnProtocolError::BadVersion)
    } else if le32(b, 8) > b.len() || le32(b, 8) < 12 {
        Err(RnnProtocolError::BadHeader)
    } else {
        tlv_find(b, 12, le32(b, 8), wanted)
    }
}

/// The payload of the first header record of type `wanted` in an RNN0
/// container.
pub fn header_tlv_payload(bytes: &[u8], wanted_type: u8) -> (r: Result<&[u8], RnnProtocolError>)
    ensures
        match r {
            Ok(p) => header_tlv_spec(bytes@, wanted_type) matches Ok((s, e)) && p@ == bytes@.subrange(
                s,
                e,
            ),
            Err(err) => header_tlv_spec(bytes@, wanted_type) == Err::<(int, int), RnnProtocolError>(
                err,
            ),
        },
{
    let n = bytes.len();
    if n < 12 {
        return Err(RnnProtocolError::Truncated);
    }
    let magic: [u8; 4] = [0x52, 0x4e, 0x4e, 0x00];
    assert(magic@ =~= rnn0_magic());
    if !bytes_equal(vstd::slice::slice_subrange(bytes, 0, 4), &magic) {
        return Err(RnnProtocolError::BadMagic);
    }
    if read_u16_le(bytes, 4) != 1 {
        return Err(RnnProtocolError::BadVersion);
    }
    let header_size = read_u32_le(bytes, 8) as usize;
    if header_size > n || header_size < 12 {
        return Err(RnnProtocolError::BadHeader);
    }
    let ghost target = header_tlv_spec(bytes@, wanted_type);
    let mut cursor: usize = 12;
    while cursor < header_size
        invariant
            n == bytes@.len(),
            12 <= cursor,
            header_size <= n,
            header_size == le32(bytes@, 8),
            target == header_tlv_spec(bytes@, wanted_type),
            target == tlv_find(bytes@, cursor as int, header_size as int, wanted_type),
        decreases header_size - cursor,
    {
        if bytes[cursor] == 0 {
            cursor = cursor + 1;
            continue;
        }
        if header_size - cursor < 5 {
            return Err(RnnProtocolError::BadHeader);
        }
        let t = bytes[cursor];
        let l = read_u32_le(bytes, cursor + 1) as usize;
        let c = cursor + 5;
        if l > header_size - c {
            return Err(RnnProtocolError::BadHeader);
        }
        let end = c + l;
        if t == wanted_type {
            return Ok(vstd::slice::slice_subrange(bytes, c, end));
        }
        cursor = end;
    }
    Err(RnnProtocolError::InvalidPayload)
}

// ---------------------------------------------------------------- neuron counts

/// The input size of the first layer plus the output sizes of the first `k`
/// layers.
pub open spec fn neurons_sum(lm: Seq<u8>, k: int) -> int
    decreases k,
{
    if k <= 0 {
        le32(lm, 0)
    } else {
        neurons_sum(lm, k - 1) + le32(lm, 20 * (k - 1) + 4)
    }
}

/// Whether layer metadata holds at least one whole 20-byte record and no
/// partial one.
pub open spec fn layer_meta_ok(lm: Seq<u8>) -> bool {
    lm.len() >= 20 && lm.len() % 20 == 0
}

proof fn lemma_neurons_sum_grows(lm: Seq<u8>, j: int, k: int)
    requires
        0 <= j <= k,
    ensures
        neurons_sum(lm, j) <= neurons_sum(lm, k),
    decreases k - j,
{
    if j < k {
        lemma_neurons_sum_grows(lm, j, k - 1);
        assert(le32(lm, 20 * (k - 1) + 4) >= 0);
    }
}

/// The number of neurons the layer metadata describes: the first layer's
/// inputs and every layer's outputs.
pub fn total_neurons_from_layer_meta(layer_meta: &[u8]) -> (r: Result<usize, RnnProtocolError>)
    ensures
        match r {
            Ok(t) => layer_meta_ok(layer_meta@) && t == neurons_sum(
                layer_meta@,
                layer_meta@.len() as int / 20,
            ),
            Err(e) => if !layer_meta_ok(layer_meta@) {
                e == RnnProtocolError::InvalidPayload
            } else {
                e == RnnProtocolError::BadHeader && neurons_sum(layer_meta@, layer_meta@.len() as int / 20)
                    > usize::MAX
            },
        },
{
    let n = layer_meta.len();
    if n < 20 || n % 20 != 0 {
        return Err(RnnProtocolError::InvalidPayload);
    }
    let count = n / 20;
    let mut total = read_u32_le(layer_meta, 0) as usize;
    let mut idx: usize = 0;
    while idx < count
        invariant
            n == layer_meta@.len(),
            count == n / 20,
            layer_meta_ok(layer_meta@),
            idx <= count,
            total == neurons_sum(layer_meta@, idx as int),
        decreases count - idx,
    {
        let out = read_u32_le(layer_meta, idx * 20 + 4) as usize;
        if total > usize::MAX - out {
            proof {
                lemma_neurons_sum_grows(layer_meta@, idx + 1, count as int);
            }
            return Err(RnnProtocolError::BadHeader);
        }
        total = total + out;
        idx = idx + 1;
    }
    Ok(total)
}

/// The number of rows of the neuron-positions blob: one per neuron and one
/// for the header row.
pub fn neuron_positions_rows(layer_meta: &[u8]) -> (r: Result<usize, RnnProtocolError>)
    ensures
        match r {
            Ok(rows) => layer_meta_ok(layer_meta@) && rows == neurons_sum(
                layer_meta@,
                layer_meta@.len() as int / 20,
            ) + 1,
            Err(e) => if !layer_meta_ok(layer_meta@) {
                e == RnnProtocolError::InvalidPayload
            } else {
                e == RnnProtocolError::BadHeader && neurons_sum(layer_meta@, layer_meta@.len() as int / 20)
                    + 1 > usize::MAX
            },
        },
{
    let total = match total_neurons_from_layer_meta(layer_meta) {
        Ok(t) => t,
        Err(e) => {
            return Err(e);
        },
    };
    if total == usize::MAX {
        return Err(RnnProtocolError::BadHeader);
    }
    Ok(total + 1)
}

/// The byte size of the neuron-positions blob: seven values per row.
pub fn neuron_positions_blob_size(dtype: u8, layer_meta: &[u8]) -> (r: Result<usize, RnnProtocolError>)
    ensures
        match r {
            Ok(size) => dtype <= 1 && layer_meta_ok(layer_meta@) && size == (neurons_sum(
                layer_meta@,
                layer_meta@.len() as int / 20,
            ) + 1) * 7 * (if dtype == 0 {
                4int
            } else {
                8int
            }),
            Err(e) => if dtype > 1 || !layer_meta_ok(layer_meta@) {
                e == RnnProtocolError::InvalidPayload
            } else {
                e == RnnProtocolError::BadHeader && (neurons_sum(layer_meta@, layer_meta@.len() as int / 20)
                    + 1) * 7 * (if dtype == 0 {
                    4int
                } else {
                    8int
                }) > usize::MAX
            },
        },
{
    let n = layer_meta.len();
    if (dtype != 0 && dtype != 1) || n < 20 || n % 20 != 0 {
        return Err(RnnProtocolError::InvalidPayload);
    }
    let total = match total_neurons_from_layer_meta(layer_meta) {
        Ok(t) => t,
        Err(e) => {
            return Err(e);
        },
    };
    let es: usize = if dtype == 0 {
        4
    } else {
        8
    };
    if total == usize::MAX {
        proof {
            assert((total + 1) * 7 * es > usize::MAX) by (nonlinear_arith)
                requires
                    total == usize::MAX,
                    es >= 4,
            ;
        }
        return Err(RnnProtocolError::BadHeader);
    }
    let rows = total + 1;
    if rows > usize::MAX / 7 {
        proof {
            assert(rows * 7 * es > usize::MAX) by (nonlinear_arith)
                requires
                    rows > usize::MAX / 7,
                    es >= 4,
            ;
        }
        return Err(RnnProtocolError::BadHeader);
    }
    let per = rows * 7;
    if per > usize::MAX / es {
        proof {
            assert(per * es > usize::MAX) by (nonlinear_arith)
                requires
                    per > usize::MAX / es,
                    es >= 4,
            ;
        }
        return Err(RnnProtocolError::BadHeader);
    }
    Ok(per * es)
}

/// The largest of the first layer's inputs and of every layer's outputs,
/// after the first `k` layers.
pub open spec fn largest_upto(lm: Seq<u8>, k: int) -> int
    decreases k,
{
    if k <= 0 {
        le32(lm, 0)
    } else {
        let m = largest_upto(lm, k - 1);
        let v = le32(lm, 20 * (k - 1) + 4);
        if v > m {
            v
        } else {
            m
        }
    }
}

/// The size of the largest layer; `InvalidPayload` when it is zero.
pub fn largest_layer_size(layer_meta: &[u8]) -> (r: Result<usize, RnnProtocolError>)
    requires
        layer_meta@.len() >= 4,
    ensures
        largest_upto(layer_meta@, layer_meta@.len() as int / 20) == 0 ==> r == Err::<
            usize,
            RnnProtocolError,
        >(RnnProtocolError::InvalidPayload),
        largest_upto(layer_meta@, layer_meta@.len() as int / 20) != 0 ==> r == Ok::<
            usize,
            RnnProtocolError,
        >(largest_upto(layer_meta@, layer_meta@.len() as int / 20) as usize),
{
    let n = layer_meta.len();
    let count = n / 20;
    let mut max = read_u32_le(layer_meta, 0) as usize;
    let mut idx: usize = 0;
    while idx < count
        invariant
            n == layer_meta@.len(),
            n >= 4,
            count == n / 20,
            idx <= count,
            max == largest_upto(layer_meta@, idx as int),
            max <= u32::MAX,
        decreases count - idx,
    {
        let sz = read_u32_le(layer_meta, idx * 20 + 4) as usize;
        if sz > max {
            max = sz;
        }
        idx = idx + 1;
    }
    if max == 0 {
        return Err(RnnProtocolError::InvalidPayload);
    }
    Ok(max)
}

} // verus!
