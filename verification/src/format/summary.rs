//! The network summary and benchmark records stored in a container header,
//! and the run-length code that compresses the summary.
use vstd::prelude::*;
use vstd::string::StringSliceAdditionalSpecFns;
use crate::bytes::{le32, u32_le, write_u32_le, write_u16_le, u16_le, splice, lemma_splice};
use crate::format::blob::{BlobDesc, desc_name};
use crate::format::names::{
    lemma_name_bytes, layer_meta_name, weights_name, biases_name, neuron_positions_name,
    tokenizer_vocab_name, tokenizer_merges_name, graph_ops_name, optimizer_state_name,
    tensors_snapshot_name, BLOB_LAYER_META, BLOB_WEIGHTS, BLOB_BIASES, BLOB_NEURON_POSITIONS,
    TOKENIZER_VOCAB_BLOB_DATA, TOKENIZER_MERGES_BLOB_DATA, GRAPH_OPS_BLOB_DATA,
    OPTIMIZER_STATE_BLOB_DATA, TENSORS_SNAPSHOT_BLOB_DATA,
};

verus! {

broadcast use vstd::slice::group_slice_axioms;

// ---------------------------------------------------------------- run-length code

/// The end of the run of copies of `s[0]` that continues from `k`, capped at
/// 255 bytes.
pub open spec fn run_end(s: Seq<u8>, k: int) -> int
    decreases s.len() - k,
{
    if 0 < k < s.len() && k < 255 && s[k] == s[0] {
        run_end(s, k + 1)
    } else {
        k
    }
}

pub proof fn lemma_run_end(s: Seq<u8>, k: int)
    requires
        1 <= k <= s.len(),
        k <= 255,
        forall|i: int| 1 <= i < k ==> #[trigger] s[i] == s[0],
    ensures
        k <= run_end(s, k) <= s.len(),
        run_end(s, k) <= 255,
        forall|i: int| 1 <= i < run_end(s, k) ==> #[trigger] s[i] == s[0],
    decreases s.len() - k,
{
    if 0 < k < s.len() && k < 255 && s[k] == s[0] {
        lemma_run_end(s, k + 1);
    }
}

/// The run-length code of `s`: (count, byte) pairs of maximal runs of at most
/// 255 bytes.
pub open spec fn rle_encode(s: Seq<u8>) -> Seq<u8>
    decreases s.len(),
{
    if s.len() == 0 {
        Seq::empty()
    } else {
        let r = run_end(s, 1);
        proof {
            lemma_run_end(s, 1);
        }
        seq![r as u8, s[0]] + rle_encode(s.skip(r))
    }
}

/// The bytes a run-length code stands for.
pub open spec fn rle_expand(c: Seq<u8>) -> Seq<u8>
    decreases c.len(),
{
    if c.len() < 2 {
        Seq::empty()
    } else {
        Seq::new(c[0] as nat, |i: int| c[1]) + rle_expand(c.skip(2))
    }
}

/// Whether `c` is a sequence of whole pairs with nonzero counts.
pub open spec fn rle_well_formed(c: Seq<u8>) -> bool {
    &&& c.len() % 2 == 0
    &&& forall|i: int| 0 <= i < c.len() && i % 2 == 0 ==> #[trigger] c[i] > 0
}

/// The run-length code of `s` is well formed, at most twice as long as
/// `s`, and expands back to `s`.
pub proof fn law_rle_roundtrip(s: Seq<u8>)
    ensures
        rle_well_formed(rle_encode(s)),
        rle_expand(rle_encode(s)) == s,
        rle_encode(s).len() <= 2 * s.len(),
    decreases s.len(),
{
    if s.len() > 0 {
        lemma_run_end(s, 1);
        let r = run_end(s, 1);
        let rest = s.skip(r);
        law_rle_roundtrip(rest);
        let c = rle_encode(s);
        assert(c == seq![r as u8, s[0]] + rle_encode(rest));
        assert(c.skip(2) =~= rle_encode(rest));
        assert(Seq::new(r as nat, |i: int| s[0]) =~= s.take(r));
        assert(s.take(r) + rest =~= s);
        assert forall|i: int| 0 <= i < c.len() && i % 2 == 0 implies #[trigger] c[i] > 0 by {
            if i >= 2 {
                assert(c[i] == rle_encode(rest)[i - 2]);
            }
        }
    }
}

/// Writes the run-length code of `input` at the start of `out`; `None` when
/// `out` is too short.
pub fn rle_encode_bytes(input: &[u8], out: &mut [u8]) -> (r: Option<usize>)
    ensures
        r is Some <==> rle_encode(input@).len() <= old(out)@.len(),
        final(out)@.len() == old(out)@.len(),
        r matches Some(n) ==> n == rle_encode(input@).len() && final(out)@ == splice(
            old(out)@,
            0,
            rle_encode(input@),
        ),
{
    let n = input.len();
    if n == 0 {
        assert(old(out)@ =~= splice(old(out)@, 0, rle_encode(input@)));
        return Some(0);
    }
    let out_len = out.len();
    let ghost s0 = out@;
    let mut idx: usize = 0;
    let mut cursor: usize = 0;
    assert(input@.skip(0) =~= input@);
    while idx < n
        invariant
            n == input@.len(),
            out_len == out@.len(),
            out_len == s0.len(),
            s0 == old(out)@,
            idx <= n,
            cursor <= out_len,
            out@.subrange(0, cursor as int) + rle_encode(input@.skip(idx as int)) == rle_encode(
                input@,
            ),
            out@.subrange(cursor as int, out_len as int) == s0.subrange(cursor as int, out_len as int),
        decreases n - idx,
    {
        let value = input[idx];
        let ghost rest = input@.skip(idx as int);
        let mut run: usize = 1;
        while idx + run < n && input[idx + run] == value && run < 255
            invariant
                n == input@.len(),
                idx < n,
                rest == input@.skip(idx as int),
                value == rest[0],
                1 <= run <= 255,
                idx + run <= n,
                forall|i: int| 1 <= i < run ==> #[trigger] rest[i] == rest[0],
                run_end(rest, run as int) == run_end(rest, 1),
            decreases n - run,
        {
            run = run + 1;
        }
        proof {
            lemma_run_end(rest, 1);
            assert(run_end(rest, run as int) == run as int);
            assert(rle_encode(rest) == seq![run as u8, value] + rle_encode(rest.skip(run as int)));
            assert(rest.skip(run as int) =~= input@.skip(idx + run));
        }
        if out_len - cursor < 2 {
            proof {
                assert(rle_encode(input@).len() >= cursor + 2);
            }
            return None;
        }
        let ghost before = out@;
        out[cursor] = run as u8;
        out[cursor + 1] = value;
        proof {
            assert(out@.subrange(0, cursor + 2) =~= before.subrange(0, cursor as int) + seq![
                run as u8,
                value,
            ]);
            assert(out@.subrange(cursor + 2, out_len as int) =~= s0.subrange(cursor + 2, out_len as int))
                by {
                assert(before.subrange(cursor as int, out_len as int) == s0.subrange(
                    cursor as int,
                    out_len as int,
                ));
                assert forall|k: int| cursor + 2 <= k < out_len implies out@[k] == s0[k] by {
                    assert(before.subrange(cursor as int, out_len as int)[k - cursor] == before[k]);
                }
            }
        }
        cursor = cursor + 2;
        idx = idx + run;
    }
    proof {
        assert(input@.skip(n as int) =~= Seq::<u8>::empty());
        assert(out@.subrange(0, cursor as int) == rle_encode(input@));
        assert(out@ =~= splice(s0, 0, rle_encode(input@))) by {
            assert forall|k: int| cursor <= k < out_len implies out@[k] == s0[k] by {
                assert(out@.subrange(cursor as int, out_len as int)[k - cursor] == out@[k]);
            }
        }
    }
    Some(cursor)
}


// ---------------------------------------------------------------- network summary

/// What the network summary records of a list of blobs.
#[derive(Clone, Copy)]
pub struct SummaryFields {
    pub flags: u32,
    pub dtype: u8,
    pub layer_count: u32,
    pub total_neurons: u32,
    pub weights_len: u32,
    pub biases_len: u32,
}

/// The summary of no blobs.
pub open spec fn initial_fields() -> SummaryFields {
    SummaryFields {
        flags: 0,
        dtype: 2,
        layer_count: 0,
        total_neurons: 0,
        weights_len: 0,
        biases_len: 0,
    }
}

/// `f` with flag bits `bits` added.
pub open spec fn with_flags(f: SummaryFields, bits: u32) -> SummaryFields {
    SummaryFields { flags: f.flags | bits, ..f }
}

/// The summary after one more blob: the last blob of each kind wins.
pub open spec fn update_fields(f: SummaryFields, d: BlobDesc) -> SummaryFields {
    let n = desc_name(d);
    if n == layer_meta_name() {
        SummaryFields { flags: f.flags | 1, dtype: d.dtype, layer_count: d.dims[0], ..f }
    } else if n == weights_name() {
        SummaryFields { flags: f.flags | 2, dtype: d.dtype, weights_len: d.dims[0], ..f }
    } else if n == biases_name() {
        SummaryFields { flags: f.flags | 4, dtype: d.dtype, biases_len: d.dims[0], ..f }
    } else if n == neuron_positions_name() {
        SummaryFields {
            flags: f.flags | 8,
            dtype: d.dtype,
            total_neurons: if d.dims[0] > 0 {
                (d.dims[0] - 1) as u32
            } else {
                0
            },
            ..f
        }
    } else if n == tokenizer_vocab_name() {
        with_flags(f, 16)
    } else if n == tokenizer_merges_name() {
        with_flags(f, 32)
    } else if n == graph_ops_name() {
        with_flags(f, 64)
    } else if n == optimizer_state_name() {
        with_flags(f, 128)
    } else if n == tensors_snapshot_name() {
        with_flags(f, 256)
    } else {
        f
    }
}

/// The summary of a list of blobs.
pub open spec fn summary_fields(records: Seq<BlobDesc>) -> SummaryFields
    decreases records.len(),
{
    if records.len() == 0 {
        initial_fields()
    } else {
        update_fields(summary_fields(records.drop_last()), records.last())
    }
}

/// `v` saturated to 16 bits.
pub open spec fn sat16(v: u32) -> u16 {
    if v > 65535 {
        65535
    } else {
        v as u16
    }
}

/// `v` saturated to 8 bits.
pub open spec fn sat8(v: int) -> u8 {
    if v > 255 {
        255
    } else {
        v as u8
    }
}

/// The 16-byte compact summary ("VIZ\0") of a list of blobs.
pub open spec fn compact_summary_bytes(records: Seq<BlobDesc>) -> Seq<u8> {
    let f = summary_fields(records);
    seq![0x56u8, 0x49, 0x5a, 0x00, f.dtype] + u16_le(sat16(f.layer_count)) + u32_le(f.total_neurons)
        + u16_le(sat16(f.weights_len)) + u16_le(sat16(f.biases_len)) + seq![sat8(records.len() as int)]
}

/// The 30-byte plain summary ("S5D0") of a list of blobs.
pub open spec fn plain_summary_bytes(records: Seq<BlobDesc>) -> Seq<u8> {
    let f = summary_fields(records);
    seq![0x53u8, 0x35, 0x44, 0x30, 1u8, f.dtype] + u32_le(f.layer_count) + u32_le(f.total_neurons)
        + u32_le(f.weights_len) + u32_le(f.biases_len) + u32_le(records.len() as u32) + u32_le(f.flags)
}

/// The summary stored in a container header: the compact form when no blob
/// holds neuron positions, else version 1, codec 1 and the run-length code of
/// the plain summary.
pub open spec fn header_summary_bytes(records: Seq<BlobDesc>) -> Seq<u8> {
    if summary_fields(records).flags & 8 == 0 {
        compact_summary_bytes(records)
    } else {
        seq![1u8, 1u8] + rle_encode(plain_summary_bytes(records))
    }
}

/// Whether `name` spells the same bytes as `which`.
pub fn name_is(name: &str, which: &str) -> (r: bool)
    ensures
        r == (name.spec_bytes() == which.spec_bytes()),
{
    crate::bytes::bytes_equal(name.as_bytes(), which.as_bytes())
}

/// Folds the summary over `records`.
fn collect_summary_fields(records: &[BlobDesc]) -> (f: SummaryFields)
    ensures
        f == summary_fields(records@),
{
    proof {
        lemma_name_bytes();
    }
    let mut f = SummaryFields {
        flags: 0,
        dtype: 2,
        layer_count: 0,
        total_neurons: 0,
        weights_len: 0,
        biases_len: 0,
    };
    let mut i: usize = 0;
    assert(records@.take(0) =~= Seq::<BlobDesc>::empty());
    while i < records.len()
        invariant
            i <= records@.len(),
            f == summary_fields(records@.take(i as int)),
            BLOB_LAYER_META.spec_bytes() == layer_meta_name(),
            BLOB_WEIGHTS.spec_bytes() == weights_name(),
            BLOB_BIASES.spec_bytes() == biases_name(),
            BLOB_NEURON_POSITIONS.spec_bytes() == neuron_positions_name(),
            TOKENIZER_VOCAB_BLOB_DATA.spec_bytes() == tokenizer_vocab_name(),
            TOKENIZER_MERGES_BLOB_DATA.spec_bytes() == tokenizer_merges_name(),
            GRAPH_OPS_BLOB_DATA.spec_bytes() == graph_ops_name(),
            OPTIMIZER_STATE_BLOB_DATA.spec_bytes() == optimizer_state_name(),
            TENSORS_SNAPSHOT_BLOB_DATA.spec_bytes() == tensors_snapshot_name(),
        decreases records@.len() - i,
    {
        let rec = records[i];
        proof {
            assert(records@.take(i + 1).drop_last() =~= records@.take(i as int));
            assert(records@.take(i + 1).last() == rec);
        }
        if name_is(rec.name, BLOB_LAYER_META) {
            f = SummaryFields { flags: f.flags | 1, dtype: rec.dtype, layer_count: rec.dims[0], ..f };
        } else if name_is(rec.name, BLOB_WEIGHTS) {
            f = SummaryFields { flags: f.flags | 2, dtype: rec.dtype, weights_len: rec.dims[0], ..f };
        } else if name_is(rec.name, BLOB_BIASES) {
            f = SummaryFields { flags: f.flags | 4, dtype: rec.dtype, biases_len: rec.dims[0], ..f };
        } else if name_is(rec.name, BLOB_NEURON_POSITIONS) {
            f = SummaryFields {
                flags: f.flags | 8,
                dtype: rec.dtype,
                total_neurons: rec.dims[0].saturating_sub(1),
                ..f
            };
        } else if name_is(rec.name, TOKENIZER_VOCAB_BLOB_DATA) {
            f = SummaryFields { flags: f.flags | 16, ..f };
        } else if name_is(rec.name, TOKENIZER_MERGES_BLOB_DATA) {
            f = SummaryFields { flags: f.flags | 32, ..f };
        } else if name_is(rec.name, GRAPH_OPS_BLOB_DATA) {
            f = SummaryFields { flags: f.flags | 64, ..f };
        } else if name_is(rec.name, OPTIMIZER_STATE_BLOB_DATA) {
            f = SummaryFields { flags: f.flags | 128, ..f };
        } else if name_is(rec.name, TENSORS_SNAPSHOT_BLOB_DATA) {
            f = SummaryFields { flags: f.flags | 256, ..f };
        }
        i = i + 1;
    }
    assert(records@.take(records@.len() as int) =~= records@);
    f
}

/// `v` saturated to 16 bits.
fn saturate_u16(v: u32) -> (r: u16)
    ensures
        r == sat16(v),
{
    if v > 65535 {
        65535
    } else {
        v as u16
    }
}

/// The 16-byte compact network summary of `records`.
pub fn compact_network_summary_blob(records: &[BlobDesc]) -> (out: Vec<u8>)
    ensures
        out@ == compact_summary_bytes(records@),
{
    let f = collect_summary_fields(records);
    let mut out: Vec<u8> = vec![0u8; 16];
    out.set(0, 0x56);
    out.set(1, 0x49);
    out.set(2, 0x5a);
    out.set(3, 0x00);
    out.set(4, f.dtype);
    write_u16_le(out.as_mut_slice(), 5, saturate_u16(f.layer_count));
    write_u32_le(out.as_mut_slice(), 7, f.total_neurons);
    write_u16_le(out.as_mut_slice(), 11, saturate_u16(f.weights_len));
    write_u16_le(out.as_mut_slice(), 13, saturate_u16(f.biases_len));
    let count: u8 = if records.len() > 255 {
        255
    } else {
        records.len() as u8
    };
    out.set(15, count);
    assert(out@ =~= compact_summary_bytes(records@));
    out
}


/// The 30-byte plain summary of `records`.
fn plain_network_summary(records: &[BlobDesc]) -> (plain: Vec<u8>)
    ensures
        plain@ == plain_summary_bytes(records@),
{
    let f = collect_summary_fields(records);
    let mut plain: Vec<u8> = vec![0u8; 30];
    plain.set(0, 0x53);
    plain.set(1, 0x35);
    plain.set(2, 0x44);
    plain.set(3, 0x30);
    plain.set(4, 1);
    plain.set(5, f.dtype);
    write_u32_le(plain.as_mut_slice(), 6, f.layer_count);
    write_u32_le(plain.as_mut_slice(), 10, f.total_neurons);
    write_u32_le(plain.as_mut_slice(), 14, f.weights_len);
    write_u32_le(plain.as_mut_slice(), 18, f.biases_len);
    write_u32_le(plain.as_mut_slice(), 22, records.len() as u32);
    write_u32_le(plain.as_mut_slice(), 26, f.flags);
    assert(plain@ =~= plain_summary_bytes(records@));
    plain
}

/// A summary record of at most 62 bytes.
pub struct SummaryBlob {
    bytes: Vec<u8>,
    len: usize,
}

impl SummaryBlob {
    /// The bytes of the record.
    pub closed spec fn contents(&self) -> Seq<u8> {
        self.bytes@.subrange(0, self.len as int)
    }

    /// The record's well-formedness: its length fits its buffer.
    pub closed spec fn wf(&self) -> bool {
        self.len <= self.bytes@.len()
    }

    /// The bytes of the record.
    pub fn as_slice(&self) -> (s: &[u8])
        requires
            self.wf(),
        ensures
            s@ == self.contents(),
    {
        vstd::slice::slice_subrange(self.bytes.as_slice(), 0, self.len)
    }

    /// The length of the record.
    pub fn len(&self) -> (n: usize)
        requires
            self.wf(),
        ensures
            n == self.contents().len(),
    {
        self.len
    }
}

/// The network summary a container header stores for `records`.
pub fn header_network_summary_blob(records: &[BlobDesc]) -> (r: Option<SummaryBlob>)
    ensures
        r matches Some(b) && b.wf() && b.contents() == header_summary_bytes(records@),
{
    let f = collect_summary_fields(records);
    if (f.flags & 8) == 0 {
        let compact = compact_network_summary_blob(records);
        let mut bytes: Vec<u8> = vec![0u8; 62];
        write_bytes_vec(&mut bytes, 0, compact.as_slice());
        proof {
            assert(bytes@.subrange(0, 16) =~= compact@);
        }
        return Some(SummaryBlob { bytes, len: 16 });
    }
    let plain = plain_network_summary(records);
    let mut code: Vec<u8> = vec![0u8; 60];
    proof {
        law_rle_roundtrip(plain@);
    }
    let used = match rle_encode_bytes(plain.as_slice(), code.as_mut_slice()) {
        Some(n) => n,
        None => {
            return None;
        },
    };
    let mut bytes: Vec<u8> = vec![0u8; 62];
    bytes.set(0, 1);
    bytes.set(1, 1);
    let ghost with_tag = bytes@;
    write_bytes_vec(&mut bytes, 2, vstd::slice::slice_subrange(code.as_slice(), 0, used));
    proof {
        assert(bytes@.subrange(0, 2 + used) =~= seq![1u8, 1u8] + rle_encode(plain@));
    }
    Some(SummaryBlob { bytes, len: 2 + used })
}

/// Copies `src` into the vector `out` from `off`.
fn write_bytes_vec(out: &mut Vec<u8>, off: usize, src: &[u8])
    requires
        off + src@.len() <= old(out)@.len(),
    ensures
        final(out)@ == splice(old(out)@, off as int, src@),
{
    let out_len = out.len();
    let ghost s0 = out@;
    let mut i: usize = 0;
    while i < src.len()
        invariant
            off + src@.len() <= out@.len(),
            out@.len() == s0.len(),
            out_len == s0.len(),
            i <= src@.len(),
            forall|j: int| 0 <= j < off ==> #[trigger] out@[j] == s0[j],
            forall|j: int| 0 <= j < i ==> #[trigger] out@[off + j] == src@[j],
            forall|j: int| off + i <= j < out@.len() ==> #[trigger] out@[j] == s0[j],
        decreases src@.len() - i,
    {
        out.set(off + i, src[i]);
        i = i + 1;
    }
    assert forall|k: int| off <= k < off + src@.len() implies out@[k] == src@[k - off] by {
        assert(out@[off + (k - off)] == src@[k - off]);
    }
    assert(out@ =~= splice(s0, off as int, src@));
}

// ---------------------------------------------------------------- benchmark record

/// The 32-byte compact benchmark record ("BMK\x01") the header keeps of a full
/// benchmark blob: the fields at fixed places when the blob has at least 168
/// bytes, zeros otherwise.
pub open spec fn compact_benchmark_bytes(full: Seq<u8>) -> Seq<u8> {
    Seq::new(
        32,
        |i: int|
            if i < 4 {
                seq![0x42u8, 0x4d, 0x4b, 0x01][i]
            } else if i == 4 {
                4u8
            } else if i == 5 {
                0u8
            } else if full.len() < 168 {
                0u8
            } else if i == 6 {
                full[68]
            } else if i == 7 {
                full[56]
            } else if i < 12 {
                full[60 + (i - 8)]
            } else if i < 16 {
                full[64 + (i - 12)]
            } else if i < 20 {
                full[48 + (i - 16)]
            } else if i < 24 {
                full[48 + (i - 20)]
            } else if i < 28 {
                full[36 + (i - 24)]
            } else {
                full[16 + (i - 28)]
            },
    )
}

/// The compact benchmark record of a full benchmark blob.
pub fn compact_benchmark_for_header(full_bmk: &[u8]) -> (out: Vec<u8>)
    ensures
        out@ == compact_benchmark_bytes(full_bmk@),
{
    let mut out: Vec<u8> = vec![0u8; 32];
    out.set(0, 0x42);
    out.set(1, 0x4d);
    out.set(2, 0x4b);
    out.set(3, 0x01);
    out.set(4, 4);
    out.set(5, 0);
    if full_bmk.len() >= 168 {
        out.set(24, full_bmk[36]);
        out.set(28, full_bmk[16]);
        out.set(20, full_bmk[48]);
        out.set(16, full_bmk[48]);
        out.set(8, full_bmk[60]);
        out.set(12, full_bmk[64]);
        out.set(25, full_bmk[37]);
        out.set(29, full_bmk[17]);
        out.set(21, full_bmk[49]);
        out.set(17, full_bmk[49]);
        out.set(9, full_bmk[61]);
        out.set(13, full_bmk[65]);
        out.set(26, full_bmk[38]);
        out.set(30, full_bmk[18]);
        out.set(22, full_bmk[50]);
        out.set(18, full_bmk[50]);
        out.set(10, full_bmk[62]);
        out.set(14, full_bmk[66]);
        out.set(27, full_bmk[39]);
        out.set(31, full_bmk[19]);
        out.set(23, full_bmk[51]);
        out.set(19, full_bmk[51]);
        out.set(11, full_bmk[63]);
        out.set(15, full_bmk[67]);
        out.set(7, full_bmk[56]);
        out.set(6, full_bmk[68]);
    }
    assert(out@ =~= compact_benchmark_bytes(full_bmk@));
    out
}

} // verus!
