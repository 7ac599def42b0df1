//! Validation results and the decoders of the header summary records.
use vstd::prelude::*;
use crate::bytes::{le16, le32, read_u16_le, read_u32_le, bytes_equal};
use crate::bytes::{lemma_u32_le, lemma_u16_le};
use crate::format::blob::BlobDesc;
use crate::format::payload::{header_tlv_payload, header_tlv_spec};
use crate::format::summary::{
    rle_expand, rle_well_formed, law_rle_roundtrip, summary_fields, header_summary_bytes,
    plain_summary_bytes, compact_summary_bytes, rle_encode, sat16, sat8,
};

verus! {

broadcast use vstd::slice::group_slice_axioms;

/// Why a container was rejected.
#[derive(Clone, Copy, Debug, PartialEq, Eq)]
pub enum Error {
    Truncated,
    BadMagic,
    BadVersion,
    BadHeader,
    BadBounds,
    CapacityTooSmall,
    InvalidPayload,
    InvalidContainer,
}

/// The network summary a container header carries.
#[derive(Clone, Copy, Debug, PartialEq, Eq, Structural)]
pub struct HeaderSummary {
    pub dtype: u8,
    pub layer_count: u32,
    pub total_neurons: u32,
    pub weights_len: u32,
    pub biases_len: u32,
    pub blob_count: u32,
    pub flags: u32,
}

/// What validating a container found.
#[derive(Clone, Copy, Debug, PartialEq, Eq)]
pub struct ScanReport {
    pub encrypted: bool,
    pub header: Option<HeaderSummary>,
    pub has_benchmark: Option<bool>,
    pub has_model_name: Option<bool>,
    pub has_model_precision: Option<bool>,
    pub key_version: Option<u32>,
    pub issue_counter: Option<u64>,
    pub crypto_timestamp: Option<u64>,
}

/// The fields of a plain 30-byte summary ("S5D0").
pub open spec fn summary_from_plain(p: Seq<u8>) -> HeaderSummary {
    HeaderSummary {
        dtype: p[5],
        layer_count: le32(p, 6) as u32,
        total_neurons: le32(p, 10) as u32,
        weights_len: le32(p, 14) as u32,
        biases_len: le32(p, 18) as u32,
        blob_count: le32(p, 22) as u32,
        flags: le32(p, 26) as u32,
    }
}

/// What `decode_header_summary` makes of a run-length coded summary record.
pub open spec fn decode_header_summary_spec(payload: Seq<u8>) -> Result<HeaderSummary, Error> {
    if payload.len() < 2 || payload[0] != 1 || payload[1] != 1 {
        Err(Error::BadHeader)
    } else {
        let c = payload.skip(2);
        let plain = rle_expand(c);
        if !rle_well_formed(c) || plain.len() > usize::MAX || plain.len() < 30 {
            Err(Error::BadHeader)
        } else if plain.subrange(0, 4) != seq![0x53u8, 0x35, 0x44, 0x30] || plain[4] != 1 {
            Err(Error::BadHeader)
        } else {
            Ok(summary_from_plain(plain.take(30)))
        }
    }
}

/// What `decode_compact_viz_summary` makes of a 16-byte compact record ("VIZ\\0").
pub open spec fn decode_compact_viz_summary_spec(payload: Seq<u8>) -> Result<HeaderSummary, Error> {
    if payload.len() < 16 || payload.subrange(0, 4) != seq![0x56u8, 0x49, 0x5a, 0x00] {
        Err(Error::BadHeader)
    } else {
        Ok(
            HeaderSummary {
                dtype: payload[4],
                layer_count: le16(payload, 5) as u32,
                total_neurons: le32(payload, 7) as u32,
                weights_len: le16(payload, 11) as u32,
                biases_len: le16(payload, 13) as u32,
                blob_count: payload[15] as u32,
                flags: 0,
            },
        )
    }
}

pub proof fn lemma_rle_expand_append(a: Seq<u8>, b: Seq<u8>)
    requires
        a.len() % 2 == 0,
    ensures
        rle_expand(a + b) == rle_expand(a) + rle_expand(b),
    decreases a.len(),
{
    if a.len() == 0 {
        assert(a + b =~= b);
    } else {
        assert((a + b).skip(2) =~= a.skip(2) + b);
        lemma_rle_expand_append(a.skip(2), b);
        assert(rle_expand(a + b) =~= rle_expand(a) + rle_expand(b));
    }
}

/// Decodes a run-length coded summary record.
pub fn decode_header_summary(payload: &[u8]) -> (r: Result<HeaderSummary, Error>)
    ensures
        r == decode_header_summary_spec(payload@),
{
    let n = payload.len();
    if n < 2 {
        return Err(Error::BadHeader);
    }
    if payload[0] != 1 || payload[1] != 1 {
        return Err(Error::BadHeader);
    }
    let ghost c = payload@.skip(2);
    if (n - 2) % 2 != 0 {
        return Err(Error::BadHeader);
    }
    let mut plain: Vec<u8> = vec![0u8; 30];
    let mut plain_len: usize = 0;
    let mut idx: usize = 2;
    assert(c.take(0) =~= Seq::<u8>::empty());
    while idx < n
        invariant
            n == payload@.len(),
            c == payload@.skip(2),
            c.len() % 2 == 0,
            2 <= idx <= n,
            (idx - 2) % 2 == 0,
            plain@.len() == 30,
            rle_well_formed(c.take(idx - 2)),
            plain_len == rle_expand(c.take(idx - 2)).len(),
            forall|k: int| 0 <= k < 30 && k < plain_len ==> #[trigger] plain@[k] == rle_expand(
                c.take(idx - 2),
            )[k],
        decreases n - idx,
    {
        let run = payload[idx] as usize;
        let value = payload[idx + 1];
        let ghost pre = c.take(idx - 2);
        let ghost pair = seq![payload@[idx as int], value];
        proof {
            assert(c.take(idx - 2 + 2) =~= pre + pair);
            lemma_rle_expand_append(pre, pair);
            assert(pair.skip(2) =~= Seq::<u8>::empty());
            assert(rle_expand(pair.skip(2)) == Seq::<u8>::empty());
            assert(rle_expand(pair) == Seq::new(pair[0] as nat, |i: int| pair[1]) + rle_expand(pair.skip(2)));
            assert(rle_expand(pair) =~= Seq::new(run as nat, |i: int| value));
        }
        if run == 0 {
            proof {
                lemma_zero_run_rejected(c, idx - 2);
            }
            return Err(Error::BadHeader);
        }
        let new_len = match plain_len.checked_add(run) {
            Some(v) => v,
            None => {
                proof {
                    lemma_expand_prefix_len(c, idx - 2 + 2);
                }
                return Err(Error::BadHeader);
            },
        };
        let stop = if new_len < 30 {
            new_len
        } else {
            30
        };
        let mut k: usize = plain_len;
        while k < stop
            invariant
                plain@.len() == 30,
                plain_len <= k,
                stop <= 30,
                forall|j: int| 0 <= j < 30 && j < plain_len ==> #[trigger] plain@[j] == rle_expand(
                    pre,
                )[j],
                forall|j: int| plain_len <= j < k ==> #[trigger] plain@[j] == value,
            decreases stop - k,
        {
            plain.set(k, value);
            k = k + 1;
        }
        proof {
            assert forall|i: int| 0 <= i < c.take(idx - 2 + 2).len() && i % 2 == 0 implies #[trigger] c.take(
                idx - 2 + 2,
            )[i] > 0 by {
                if i < idx - 2 {
                    assert(c.take(idx - 2 + 2)[i] == pre[i]);
                }
            }
        }
        plain_len = new_len;
        idx = idx + 2;
    }
    proof {
        assert(c.take(n - 2) =~= c);
    }
    if plain_len < 30 {
        return Err(Error::BadHeader);
    }
    let ghost full = rle_expand(c);
    proof {
        assert(plain@ =~= full.take(30));
    }
    let ps = plain.as_slice();
    if !(ps[0] == 0x53 && ps[1] == 0x35 && ps[2] == 0x44 && ps[3] == 0x30) {
        proof {
            if full.subrange(0, 4) == seq![0x53u8, 0x35, 0x44, 0x30] {
                assert(full.subrange(0, 4)[0] == full[0]);
                assert(full.subrange(0, 4)[1] == full[1]);
                assert(full.subrange(0, 4)[2] == full[2]);
                assert(full.subrange(0, 4)[3] == full[3]);
            }
        }
        return Err(Error::BadHeader);
    }
    assert(full.subrange(0, 4) =~= seq![0x53u8, 0x35, 0x44, 0x30]);
    if ps[4] != 1 {
        return Err(Error::BadHeader);
    }
    Ok(
        HeaderSummary {
            dtype: ps[5],
            layer_count: read_u32_le(ps, 6),
            total_neurons: read_u32_le(ps, 10),
            weights_len: read_u32_le(ps, 14),
            biases_len: read_u32_le(ps, 18),
            blob_count: read_u32_le(ps, 22),
            flags: read_u32_le(ps, 26),
        },
    )
}

proof fn lemma_zero_run_rejected(c: Seq<u8>, i: int)
    requires
        0 <= i < c.len(),
        i % 2 == 0,
        c[i] == 0,
    ensures
        !rle_well_formed(c),
{
}

proof fn lemma_expand_prefix_len(c: Seq<u8>, k: int)
    requires
        0 <= k <= c.len(),
        k % 2 == 0,
        c.len() % 2 == 0,
    ensures
        rle_expand(c.take(k)).len() <= rle_expand(c).len(),
{
    assert(c =~= c.take(k) + c.skip(k));
    lemma_rle_expand_append(c.take(k), c.skip(k));
}

/// Decodes a 16-byte compact summary record.
pub fn decode_compact_viz_summary(payload: &[u8]) -> (r: Result<HeaderSummary, Error>)
    ensures
        r == decode_compact_viz_summary_spec(payload@),
{
    if payload.len() < 16 {
        return Err(Error::BadHeader);
    }
    let magic: [u8; 4] = [0x56, 0x49, 0x5a, 0x00];
    if !bytes_equal(vstd::slice::slice_subrange(payload, 0, 4), &magic) {
        return Err(Error::BadHeader);
    }
    if payload[3] != 0 {
        return Err(Error::BadHeader);
    }
    Ok(
        HeaderSummary {
            dtype: payload[4],
            layer_count: read_u16_le(payload, 5) as u32,
            total_neurons: read_u32_le(payload, 7),
            weights_len: read_u16_le(payload, 11) as u32,
            biases_len: read_u16_le(payload, 13) as u32,
            blob_count: payload[15] as u32,
            flags: 0,
        },
    )
}


/// The summary a header stores for blobs that include neuron positions
/// decodes back to the fields collected from those blobs.
pub proof fn law_header_summary_roundtrip(records: Seq<BlobDesc>)
    requires
        summary_fields(records).flags & 8 != 0,
    ensures
        ({
            let f = summary_fields(records);
            decode_header_summary_spec(header_summary_bytes(records)) == Ok::<HeaderSummary, Error>(
                HeaderSummary {
                    dtype: f.dtype,
                    layer_count: f.layer_count,
                    total_neurons: f.total_neurons,
                    weights_len: f.weights_len,
                    biases_len: f.biases_len,
                    blob_count: records.len() as u32,
                    flags: f.flags,
                },
            )
        }),
{
    let f = summary_fields(records);
    let plain = plain_summary_bytes(records);
    let payload = header_summary_bytes(records);
    law_rle_roundtrip(plain);
    assert(payload.skip(2) =~= rle_encode(plain));
    assert(plain.len() == 30);
    assert(plain.take(30) =~= plain);
    assert(plain.subrange(0, 4) =~= seq![0x53u8, 0x35, 0x44, 0x30]);
    lemma_u32_le(f.layer_count);
    lemma_u32_le(f.total_neurons);
    lemma_u32_le(f.weights_len);
    lemma_u32_le(f.biases_len);
    lemma_u32_le(records.len() as u32);
    lemma_u32_le(f.flags);
}

/// The compact summary of blobs decodes back to the collected fields,
/// saturated to the widths of the compact record.
pub proof fn law_compact_summary_roundtrip(records: Seq<BlobDesc>)
    ensures
        ({
            let f = summary_fields(records);
            decode_compact_viz_summary_spec(compact_summary_bytes(records)) == Ok::<
                HeaderSummary,
                Error,
            >(
                HeaderSummary {
                    dtype: f.dtype,
                    layer_count: sat16(f.layer_count) as u32,
                    total_neurons: f.total_neurons,
                    weights_len: sat16(f.weights_len) as u32,
                    biases_len: sat16(f.biases_len) as u32,
                    blob_count: sat8(records.len() as int) as u32,
                    flags: 0,
                },
            )
        }),
{
    let f = summary_fields(records);
    let p = compact_summary_bytes(records);
    assert(p.subrange(0, 4) =~= seq![0x56u8, 0x49, 0x5a, 0x00]);
    lemma_u16_le(sat16(f.layer_count));
    lemma_u32_le(f.total_neurons);
    lemma_u16_le(sat16(f.weights_len));
    lemma_u16_le(sat16(f.biases_len));
}

/// The size of an RMD1 payload with these counts; `None` for a dtype other
/// than 0 or 1, or a size that does not fit.
pub open spec fn payload_size_spec(dtype: u8, layer_count: int, weights_len: int, biases_len: int) -> Option<int> {
    if dtype > 1 {
        None
    } else {
        let es: int = if dtype == 0 {
            4
        } else {
            8
        };
        let sz = 20 + 20 * layer_count + es * weights_len + es * biases_len;
        if sz <= usize::MAX {
            Some(sz)
        } else {
            None
        }
    }
}

pub fn encoded_payload_size(
    dtype: u8,
    layer_count: usize,
    weights_len: usize,
    biases_len: usize,
) -> (r: Option<usize>)
    ensures
        r matches Some(n) ==> payload_size_spec(
            dtype,
            layer_count as int,
            weights_len as int,
            biases_len as int,
        ) == Some(n as int),
        r is None ==> payload_size_spec(
            dtype,
            layer_count as int,
            weights_len as int,
            biases_len as int,
        ) is None,
{
    let es: usize = if dtype == 0 {
        4
    } else if dtype == 1 {
        8
    } else {
        return None;
    };
    let sb = crate::format::rmd1::encoded_size(es, layer_count, weights_len, biases_len);
    sb
}

/// The header summary of a container: its summary record decoded, in the
/// compact form when it starts with "VIZ\0" and has 16 bytes, else in the
/// run-length form; `InvalidPayload` when the record cannot be found.
pub open spec fn extract_summary_spec(b: Seq<u8>) -> Result<HeaderSummary, Error> {
    match header_tlv_spec(b, 5) {
        Err(_) => Err(Error::InvalidPayload),
        Ok((s, e)) => {
            let p = b.subrange(s, e);
            if p.len() >= 16 && p.subrange(0, 4) == seq![0x56u8, 0x49, 0x5a, 0x00] {
                decode_compact_viz_summary_spec(p)
            } else {
                decode_header_summary_spec(p)
            }
        },
    }
}

pub fn extract_header_summary(bytes: &[u8]) -> (r: Result<HeaderSummary, Error>)
    ensures
        r == extract_summary_spec(bytes@),
{
    let payload = match header_tlv_payload(bytes, 5) {
        Ok(p) => p,
        Err(_) => {
            return Err(Error::InvalidPayload);
        },
    };
    let magic: [u8; 4] = [0x56, 0x49, 0x5a, 0x00];
    assert(magic@ =~= seq![0x56u8, 0x49, 0x5a, 0x00]);
    if payload.len() >= 16 && bytes_equal(vstd::slice::slice_subrange(payload, 0, 4), &magic) {
        return decode_compact_viz_summary(payload);
    }
    decode_header_summary(payload)
}

} // verus!
