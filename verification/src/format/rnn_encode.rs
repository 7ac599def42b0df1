//! Writing an RNN0 container: a header of TLV records (model name, benchmark,
//! network summary, index of compressed blobs, blob table) rounded up to four
//! bytes, then the blob payloads, each starting at a multiple of sixteen
//! bytes after the first.
use vstd::prelude::*;
use vstd::string::StringSliceAdditionalSpecFns;
use crate::bytes::{
    u16_le, u32_le, u64_le, le32, splice, push_u16_le, push_u32_le, push_u64_le, push_bytes,
    write_bytes, fill_bytes, lemma_splice, lemma_splice_concat, lemma_u32_le, lemma_u64_le,
    bytes_equal,
};
use crate::codec::lz77::{has_lz77_header, lz77_stored_len, lz77_decompressed_len, lz77_magic};
use crate::digest::{sha256_of, sha256_bytes};
use crate::format::blob::{BlobDesc, desc_name, rnn0_magic, RnnProtocolError};
use crate::format::layout::{
    align4, align16, align4_usize, align16_usize, desc_ok, desc_entry_len, descriptor_len_spec,
    payload_offset, aligned_sums_defined, aligned_sums_overflow, viz_content_size_spec,
    descriptor_len, payload_total_len_aligned, lemma_descriptor_len_monotone, payload_len_spec,
    payload_total_len,
};
use crate::format::summary::{header_summary_bytes, header_network_summary_blob};

verus! {

broadcast use vstd::slice::group_slice_axioms;

/// `n` zero bytes.
pub open spec fn zeros(n: int) -> Seq<u8> {
    Seq::new(n as nat, |i: int| 0u8)
}

/// A TLV record: the type byte, the payload length as four little-endian
/// bytes, the payload.
pub open spec fn tlv(t: u8, p: Seq<u8>) -> Seq<u8> {
    seq![t] + u32_le(p.len() as u32) + p
}

/// A TLV record when a payload is given, nothing otherwise.
pub open spec fn opt_tlv(t: u8, p: Option<Seq<u8>>) -> Seq<u8> {
    match p {
        Some(b) => tlv(t, b),
        None => Seq::empty(),
    }
}

/// The size of `opt_tlv(_, p)`.
pub open spec fn tlv_len(p: Option<Seq<u8>>) -> int {
    match p {
        Some(b) => 5 + b.len() as int,
        None => 0,
    }
}

/// The bytes of an optional string.
pub open spec fn str_bytes_opt(o: Option<&str>) -> Option<Seq<u8>> {
    match o {
        Some(s) => Some(s.spec_bytes()),
        None => None,
    }
}

/// The bytes of an optional byte slice.
pub open spec fn slice_bytes_opt(o: Option<&[u8]>) -> Option<Seq<u8>> {
    match o {
        Some(s) => Some(s@),
        None => None,
    }
}

/// The network-summary record of a container header.
#[verifier::opaque]
pub open spec fn summary_record(records: Seq<BlobDesc>) -> Seq<u8> {
    header_summary_bytes(records)
}

/// Where the index of compressed blobs starts: after the twelve fixed bytes
/// and the name, benchmark and summary records.
pub open spec fn viz_start(records: Seq<BlobDesc>, name: Option<Seq<u8>>, bmk: Option<Seq<u8>>) -> int {
    12 + tlv_len(name) + tlv_len(bmk) + 5 + summary_record(records).len()
}

/// Where the blob-table record starts.
pub open spec fn table_start(records: Seq<BlobDesc>, name: Option<Seq<u8>>, bmk: Option<Seq<u8>>) -> int {
    viz_start(records, name, bmk) + 5 + viz_content_size_spec(records)
}

/// Where the blob-table record ends.
pub open spec fn header_end(records: Seq<BlobDesc>, name: Option<Seq<u8>>, bmk: Option<Seq<u8>>) -> int {
    table_start(records, name, bmk) + 5 + descriptor_len_spec(records)
}

/// The header size: the end of the blob table rounded up to four bytes.
pub open spec fn header_size(records: Seq<BlobDesc>, name: Option<Seq<u8>>, bmk: Option<Seq<u8>>) -> int {
    align4(header_end(records, name, bmk))
}

/// The size the container needs: header and padded payloads, rounded up to
/// sixteen bytes.
pub open spec fn container_size(records: Seq<BlobDesc>, name: Option<Seq<u8>>, bmk: Option<Seq<u8>>) -> int {
    align16(header_size(records, name, bmk) + payload_offset(records, 0, records.len() as int))
}

/// Whether every size the encoder computes fits in `usize`.
pub open spec fn encode_sizes_ok(records: Seq<BlobDesc>, name: Option<Seq<u8>>, bmk: Option<Seq<u8>>) -> bool {
    &&& forall|i: int| 0 <= i < records.len() ==> desc_ok(#[trigger] records[i])
    &&& descriptor_len_spec(records) <= usize::MAX
    &&& !aligned_sums_overflow(records, 0, records.len() as int)
    &&& viz_content_size_spec(records) <= usize::MAX
    &&& header_end(records, name, bmk) <= usize::MAX
    &&& header_size(records, name, bmk) + payload_offset(records, 0, records.len() as int) <= usize::MAX
}

/// The inputs on which the encoder's arithmetic does not wrap: at most
/// sixteen blobs (the index of compressed blobs has sixteen slots), and no
/// size within a rounding step of `usize::MAX`.
pub open spec fn encode_wrap_free(records: Seq<BlobDesc>, name: Option<Seq<u8>>, bmk: Option<Seq<u8>>) -> bool {
    let n = records.len() as int;
    &&& n <= 16
    &&& tlv_len(name) <= usize::MAX
    &&& tlv_len(bmk) <= usize::MAX
    &&& aligned_sums_defined(records, 0, n)
    &&& (header_end(records, name, bmk) <= usize::MAX ==> header_end(records, name, bmk) + 3
        <= usize::MAX)
    &&& (header_size(records, name, bmk) + payload_offset(records, 0, n) <= usize::MAX
        ==> header_size(records, name, bmk) + payload_offset(records, 0, n) + 15 <= usize::MAX)
    &&& (encode_sizes_ok(records, name, bmk) ==> forall|k: int|
        0 <= k < n ==> #[trigger] payload_offset(records, header_size(records, name, bmk), k)
            + records[k].payload@.len() + 15 <= usize::MAX)
}

/// The fixed fields and the name, benchmark and summary records.
#[verifier::opaque]
pub open spec fn header_head(records: Seq<BlobDesc>, name: Option<Seq<u8>>, bmk: Option<Seq<u8>>, h: int) -> Seq<u8> {
    rnn0_magic() + u16_le(1) + u16_le(0) + u32_le(h as u32) + opt_tlv(4, name) + opt_tlv(6, bmk)
        + tlv(5, summary_record(records))
}

/// The stored dimensions of a blob.
pub open spec fn dims_bytes(d: BlobDesc) -> Seq<u8> {
    if d.ndim >= 2 {
        u32_le(d.dims[0]) + u32_le(d.dims[1])
    } else {
        u32_le(d.dims[0])
    }
}

/// The digest stored for a blob: its SHA-256 digest, or zeros.
pub open spec fn blob_digest(d: BlobDesc, with_digest: bool) -> Seq<u8> {
    if with_digest {
        sha256_of(d.payload@)
    } else {
        zeros(32)
    }
}

/// The blob-table entry of `d` when its payload is at `off`.
#[verifier::opaque]
pub open spec fn entry_bytes(d: BlobDesc, off: int, with_digest: bool) -> Seq<u8> {
    u16_le(desc_name(d).len() as u16) + desc_name(d) + seq![d.dtype, d.ndim] + dims_bytes(d)
        + u64_le(off as u64) + u64_le(d.payload@.len() as u64) + blob_digest(d, with_digest)
}

/// The bytes after the first `k` blobs are placed: each payload at its offset
/// and each table entry after the previous one, from `t0`.
pub open spec fn placed(
    s: Seq<u8>,
    records: Seq<BlobDesc>,
    h: int,
    t0: int,
    with_digest: bool,
    k: int,
) -> Seq<u8>
    decreases k,
{
    if k <= 0 {
        s
    } else {
        let prev = placed(s, records, h, t0, with_digest, k - 1);
        let d = records[k - 1];
        let p = payload_offset(records, h, k - 1);
        splice(
            splice(prev, p, d.payload@),
            t0 + descriptor_len_spec(records.take(k - 1)),
            entry_bytes(d, p, with_digest),
        )
    }
}

/// The length a compressed blob decodes to; the stored length otherwise.
pub open spec fn blob_orig_size(p: Seq<u8>) -> int {
    if has_lz77_header(p) {
        lz77_stored_len(p)
    } else {
        p.len() as int
    }
}

/// The entry of blob `i` in the index of compressed blobs.
#[verifier::opaque]
pub open spec fn viz_entry(records: Seq<BlobDesc>, h: int, i: int) -> Seq<u8> {
    let d = records[i];
    let p = d.payload@;
    seq![desc_name(d).len() as u8] + desc_name(d) + u64_le(payload_offset(records, h, i) as u64)
        + u64_le(blob_orig_size(p) as u64) + u64_le(p.len() as u64) + seq![
        if has_lz77_header(p) {
            1u8
        } else {
            0u8
        },
    ]
}

/// The entries of the first `k` blobs in the index of compressed blobs.
pub open spec fn viz_entries(records: Seq<BlobDesc>, h: int, k: int) -> Seq<u8>
    decreases k,
{
    if k <= 0 {
        Seq::empty()
    } else {
        viz_entries(records, h, k - 1) + viz_entry(records, h, k - 1)
    }
}

/// The record of the index of compressed blobs.
#[verifier::opaque]
pub open spec fn viz_record(records: Seq<BlobDesc>, h: int) -> Seq<u8> {
    seq![7u8] + u32_le(viz_content_size_spec(records) as u32) + seq![0x56u8, 0x49, 0x5a, 0x58, 1u8]
        + seq![records.len() as u8] + viz_entries(records, h, records.len() as int)
}

/// The bytes of `s` once the container for `records` is written over it.
#[verifier::opaque]
pub open spec fn encoded_container(
    s: Seq<u8>,
    records: Seq<BlobDesc>,
    name: Option<Seq<u8>>,
    bmk: Option<Seq<u8>>,
    with_digest: bool,
) -> Seq<u8> {
    let h = header_size(records, name, bmk);
    let n = records.len() as int;
    let ts = table_start(records, name, bmk);
    let he = header_end(records, name, bmk);
    let pn = payload_offset(records, h, n);
    let s1 = splice(s, 0, header_head(records, name, bmk, h));
    let s2 = splice(s1, ts, seq![3u8] + u32_le(descriptor_len_spec(records) as u32));
    let s3 = placed(s2, records, h, ts + 5, with_digest, n);
    let s4 = splice(s3, viz_start(records, name, bmk), viz_record(records, h));
    let s5 = splice(s4, he, zeros(h - he));
    splice(s5, pn, zeros(container_size(records, name, bmk) - pn))
}

/// The inputs that call for the fixed-size canonical header and a compact
/// blob table in place of the general layout: at most five blobs, each of
/// one or two dimensions and at most `u32::MAX` bytes, whose payloads total
/// at most `u32::MAX` bytes (an empty list among them). That header is
/// built by the model-configuration layer, which this library does not
/// have, so the encoder refuses these inputs with `BadHeader`.
pub open spec fn canonical_layout(records: Seq<BlobDesc>) -> bool {
    &&& records.len() <= 5
    &&& forall|i: int|
        0 <= i < records.len() ==> 1 <= (#[trigger] records[i]).ndim <= 2 && records[i].payload@.len()
            <= u32::MAX
    &&& payload_len_spec(records) <= u32::MAX
}

/// Whether `records` call for the canonical layout.
fn needs_canonical_layout(records: &[BlobDesc]) -> (r: bool)
    ensures
        r == canonical_layout(records@),
{
    if records.len() > 5 {
        return false;
    }
    let mut i: usize = 0;
    while i < records.len()
        invariant
            i <= records@.len(),
            forall|j: int|
                0 <= j < i ==> 1 <= (#[trigger] records@[j]).ndim <= 2 && records@[j].payload@.len()
                    <= u32::MAX,
        decreases records@.len() - i,
    {
        let d = &records[i];
        if d.ndim == 0 || d.ndim > 2 || d.payload.len() > 0xffff_ffff {
            return false;
        }
        i = i + 1;
    }
    match payload_total_len(records) {
        Ok(total) => total <= 0xffff_ffff,
        Err(_) => false,
    }
}

/// What the encoder does with `old` into `new`, returning `r`: on success the
/// container is written and the end of the last padded payload returned; a
/// blob that cannot be described, or a size that does not fit, is
/// `BadHeader`; a buffer smaller than the container is `CapacityTooSmall`,
/// and on error the buffer is unchanged.
pub open spec fn encode_outcome(
    old: Seq<u8>,
    new: Seq<u8>,
    r: Result<usize, RnnProtocolError>,
    records: Seq<BlobDesc>,
    name: Option<Seq<u8>>,
    bmk: Option<Seq<u8>>,
    with_digest: bool,
) -> bool {
    match r {
        Ok(n) => {
            &&& !canonical_layout(records)
            &&& encode_sizes_ok(records, name, bmk)
            &&& container_size(records, name, bmk) <= old.len()
            &&& n == payload_offset(records, header_size(records, name, bmk), records.len() as int)
            &&& new == encoded_container(old, records, name, bmk, with_digest)
            &&& with_digest ==> forall|k: int|
                0 <= k < records.len() ==> sha256_of((#[trigger] records[k]).payload@).len() == 32
        },
        Err(e) => {
            &&& new == old
            &&& (e == RnnProtocolError::BadHeader && (canonical_layout(records) || !encode_sizes_ok(
                records,
                name,
                bmk,
            ))) || (e == RnnProtocolError::CapacityTooSmall && !canonical_layout(records)
                && encode_sizes_ok(records, name, bmk) && old.len() < container_size(
                records,
                name,
                bmk,
            ))
        },
    }
}

// ---------------------------------------------------------------- arithmetic

pub proof fn lemma_align16(x: int)
    requires
        0 <= x,
    ensures
        x <= align16(x) < x + 16,
        align16(x) % 16 == 0,
{
    assert(x <= ((x + 15) / 16) * 16 < x + 16) by (nonlinear_arith)
        requires
            0 <= x,
    ;
    assert((((x + 15) / 16) * 16) % 16 == 0) by (nonlinear_arith);
}

pub proof fn lemma_align4(x: int)
    requires
        0 <= x,
    ensures
        x <= align4(x) < x + 4,
        align4(x) % 4 == 0,
{
    assert(x <= ((x + 3) / 4) * 4 < x + 4) by (nonlinear_arith)
        requires
            0 <= x,
    ;
    assert((((x + 3) / 4) * 4) % 4 == 0) by (nonlinear_arith);
}

pub proof fn lemma_align16_shift(x: int, m: int)
    requires
        0 <= x,
        0 <= m,
        m % 16 == 0,
    ensures
        align16(x + m) == align16(x) + m,
{
    let q = m / 16;
    assert(m == 16 * q) by (nonlinear_arith)
        requires
            m % 16 == 0,
            q == m / 16,
    ;
    assert((x + m + 15) / 16 == (x + 15) / 16 + q) by (nonlinear_arith)
        requires
            m == 16 * q,
            0 <= x,
    ;
}

pub proof fn lemma_align16_mono(x: int, y: int)
    requires
        0 <= x <= y,
    ensures
        align16(x) <= align16(y),
{
    assert((x + 15) / 16 <= (y + 15) / 16) by (nonlinear_arith)
        requires
            0 <= x <= y,
    ;
}

/// The padded payload offsets: from `h` they never exceed those from zero
/// shifted by `h` rounded up, the ones from zero are multiples of sixteen,
/// and both grow.
pub proof fn lemma_offsets(records: Seq<BlobDesc>, h: int, k: int)
    requires
        0 <= h,
        0 <= k <= records.len(),
    ensures
        h <= payload_offset(records, h, k) <= align16(h) + payload_offset(records, 0, k),
        0 <= payload_offset(records, 0, k),
        payload_offset(records, 0, k) % 16 == 0,
        k < records.len() ==> payload_offset(records, h, k) + records[k].payload@.len()
            <= payload_offset(records, h, k + 1),
        k < records.len() ==> payload_offset(records, 0, k) + records[k].payload@.len()
            <= payload_offset(records, 0, k + 1),
    decreases k,
{
    lemma_align16(h);
    if k > 0 {
        lemma_offsets(records, h, k - 1);
        let pk = payload_offset(records, h, k - 1);
        let bk = payload_offset(records, 0, k - 1);
        let l = records[k - 1].payload@.len() as int;
        lemma_align16(pk + l);
        lemma_align16(bk + l);
        lemma_align16_mono(pk + l, align16(h) + bk + l);
        lemma_align16_shift(bk + l, align16(h));
    }
    if k < records.len() {
        let l = records[k].payload@.len() as int;
        lemma_align16(payload_offset(records, h, k) + l);
        lemma_align16(payload_offset(records, 0, k) + l);
    }
}

/// The padded offsets from zero only grow.
pub proof fn lemma_offsets_grow(records: Seq<BlobDesc>, h: int, j: int, k: int)
    requires
        0 <= h,
        0 <= j <= k <= records.len(),
    ensures
        payload_offset(records, h, j) <= payload_offset(records, h, k),
    decreases k - j,
{
    if j < k {
        lemma_offsets(records, h, j);
        lemma_offsets_grow(records, h, j + 1, k);
    }
}

/// The size of the index of compressed blobs grows with the blobs.
pub proof fn lemma_viz_size_monotone(records: Seq<BlobDesc>, k: int)
    requires
        0 <= k <= records.len(),
    ensures
        viz_content_size_spec(records.take(k)) <= viz_content_size_spec(records),
    decreases records.len(),
{
    if k < records.len() {
        assert(records.drop_last().take(k) =~= records.take(k));
        lemma_viz_size_monotone(records.drop_last(), k);
    } else {
        assert(records.take(k) =~= records);
    }
}

pub proof fn lemma_viz_entries_len(records: Seq<BlobDesc>, h: int, k: int)
    requires
        0 <= k <= records.len(),
    ensures
        viz_entries(records, h, k).len() == viz_content_size_spec(records.take(k)) - 6,
    decreases k,
{
    if k > 0 {
        lemma_viz_entries_len(records, h, k - 1);
        assert(records.take(k).drop_last() =~= records.take(k - 1));
        reveal(viz_entry);
        lemma_u64_le(payload_offset(records, h, k - 1) as u64);
        lemma_u64_le(blob_orig_size(records[k - 1].payload@) as u64);
        lemma_u64_le(records[k - 1].payload@.len() as u64);
    } else {
        assert(records.take(0) =~= Seq::<BlobDesc>::empty());
    }
}

/// The entry of a blob has the size the table reserves for it.
pub proof fn lemma_entry_len(d: BlobDesc, off: int, with_digest: bool)
    requires
        desc_ok(d),
        blob_digest(d, with_digest).len() == 32,
    ensures
        entry_bytes(d, off, with_digest).len() == desc_entry_len(d),
{
    reveal(entry_bytes);
    lemma_u64_le(off as u64);
    lemma_u64_le(d.payload@.len() as u64);
}

pub proof fn lemma_head_len(records: Seq<BlobDesc>, name: Option<Seq<u8>>, bmk: Option<Seq<u8>>, h: int)
    ensures
        header_head(records, name, bmk, h).len() == viz_start(records, name, bmk),
{
    reveal(header_head);
    lemma_u32_le(h as u32);
    match name {
        Some(b) => {
            lemma_u32_le(b.len() as u32);
        },
        None => {},
    }
    match bmk {
        Some(b) => {
            lemma_u32_le(b.len() as u32);
        },
        None => {},
    }
    lemma_u32_le(summary_record(records).len() as u32);
}

pub proof fn lemma_viz_record_len(records: Seq<BlobDesc>, h: int)
    ensures
        viz_record(records, h).len() == 5 + viz_content_size_spec(records),
{
    reveal(viz_record);
    lemma_u32_le(viz_content_size_spec(records) as u32);
    lemma_viz_entries_len(records, h, records.len() as int);
    assert(records.take(records.len() as int) =~= records);
}

// ---------------------------------------------------------------- builders

/// The fixed fields and the name, benchmark and summary records.
fn build_head(
    records: &[BlobDesc],
    model_name_header: Option<&str>,
    benchmark_header: Option<&[u8]>,
    summary: &[u8],
    h: usize,
) -> (v: Vec<u8>)
    requires
        summary@ == summary_record(records@),
    ensures
        v@ == header_head(
            records@,
            str_bytes_opt(model_name_header),
            slice_bytes_opt(benchmark_header),
            h as int,
        ),
{
    let mut v: Vec<u8> = Vec::new();
    v.push(0x52);
    v.push(0x4e);
    v.push(0x4e);
    v.push(0x00);
    assert(v@ =~= rnn0_magic());
    push_u16_le(&mut v, 1);
    push_u16_le(&mut v, 0);
    push_u32_le(&mut v, h as u32);
    let ghost fixed = v@;
    match model_name_header {
        Some(nm) => {
            let nb = nm.as_bytes();
            v.push(4);
            push_u32_le(&mut v, nb.len() as u32);
            push_bytes(&mut v, nb);
            assert(v@ =~= fixed + tlv(4, nm.spec_bytes()));
        },
        None => {
            assert(v@ =~= fixed + Seq::<u8>::empty());
        },
    }
    let ghost with_name = v@;
    match benchmark_header {
        Some(b) => {
            v.push(6);
            push_u32_le(&mut v, b.len() as u32);
            push_bytes(&mut v, b);
            assert(v@ =~= with_name + tlv(6, b@));
        },
        None => {
            assert(v@ =~= with_name + Seq::<u8>::empty());
        },
    }
    let ghost with_bmk = v@;
    v.push(5);
    push_u32_le(&mut v, summary.len() as u32);
    push_bytes(&mut v, summary);
    assert(v@ =~= with_bmk + tlv(5, summary@));
    reveal(header_head);
    v
}

/// The stored dimensions of `d`.
fn push_dims(v: &mut Vec<u8>, d: &BlobDesc)
    requires
        1 <= d.ndim <= 2,
    ensures
        final(v)@ == old(v)@ + dims_bytes(*d),
{
    let ghost v0 = v@;
    push_u32_le(v, d.dims[0]);
    if d.ndim >= 2 {
        push_u32_le(v, d.dims[1]);
    }
    assert(v@ =~= v0 + dims_bytes(*d));
}

/// The blob-table entry of `d` with its payload at `off` and digest `digest`.
fn build_entry(d: &BlobDesc, off: usize, digest: &[u8], with_digest: Ghost<bool>) -> (v: Vec<u8>)
    requires
        1 <= d.ndim <= 2,
        digest@ == blob_digest(*d, with_digest@),
    ensures
        v@ == entry_bytes(*d, off as int, with_digest@),
{
    let nb = d.name.as_bytes();
    let mut v: Vec<u8> = Vec::new();
    push_u16_le(&mut v, nb.len() as u16);
    push_bytes(&mut v, nb);
    v.push(d.dtype);
    v.push(d.ndim);
    push_dims(&mut v, d);
    push_u64_le(&mut v, off as u64);
    push_u64_le(&mut v, d.payload.len() as u64);
    push_bytes(&mut v, digest);
    reveal(entry_bytes);
    assert(v@ =~= entry_bytes(*d, off as int, with_digest@));
    v
}

/// Whether `p` starts with a complete LZ77 header.
fn is_lz77_blob(p: &[u8]) -> (r: bool)
    ensures
        r == has_lz77_header(p@),
{
    if p.len() < 8 {
        return false;
    }
    let m: [u8; 4] = [0x4c, 0x5a, 0x37, 0x37];
    assert(m@ =~= lz77_magic());
    bytes_equal(vstd::slice::slice_subrange(p, 0, 4), &m)
}

/// Appends the entry of blob `i` to the index of compressed blobs.
fn push_viz_entry(v: &mut Vec<u8>, records: &[BlobDesc], i: usize, offset: usize, h: Ghost<int>)
    requires
        i < records@.len(),
        offset == payload_offset(records@, h@, i as int),
    ensures
        final(v)@ == old(v)@ + viz_entry(records@, h@, i as int),
{
    let d = records[i];
    let nb = d.name.as_bytes();
    let stored_len = d.payload.len();
    let compressed = is_lz77_blob(d.payload);
    let orig_size: u64 = if compressed {
        match lz77_decompressed_len(d.payload) {
            Some(n) => n as u64,
            None => stored_len as u64,
        }
    } else {
        stored_len as u64
    };
    let ghost v0 = v@;
    v.push(nb.len() as u8);
    push_bytes(v, nb);
    push_u64_le(v, offset as u64);
    push_u64_le(v, orig_size);
    push_u64_le(v, stored_len as u64);
    v.push(if compressed { 1u8 } else { 0u8 });
    reveal(viz_entry);
    assert(v@ =~= v0 + viz_entry(records@, h@, i as int));
}

// ---------------------------------------------------------------- encoder

/// Encodes `records` into an RNN0 container with a SHA-256 digest per blob.
pub fn encode_blob_payloads_with_header_metadata(
    records: &[BlobDesc],
    model_name_header: Option<&str>,
    benchmark_header: Option<&[u8]>,
    out: &mut [u8],
) -> (r: Result<usize, RnnProtocolError>)
    requires
        encode_wrap_free(
            records@,
            str_bytes_opt(model_name_header),
            slice_bytes_opt(benchmark_header),
        ),
    ensures
        encode_outcome(
            old(out)@,
            final(out)@,
            r,
            records@,
            str_bytes_opt(model_name_header),
            slice_bytes_opt(benchmark_header),
            true,
        ),
{
    encode_blob_records_impl(records, model_name_header, benchmark_header, out, true)
}

/// Encodes `records` into an RNN0 container whose digest fields are zero.
pub fn encode_blob_payloads_no_digest(
    records: &[BlobDesc],
    model_name_header: Option<&str>,
    benchmark_header: Option<&[u8]>,
    out: &mut [u8],
) -> (r: Result<usize, RnnProtocolError>)
    requires
        encode_wrap_free(
            records@,
            str_bytes_opt(model_name_header),
            slice_bytes_opt(benchmark_header),
        ),
    ensures
        encode_outcome(
            old(out)@,
            final(out)@,
            r,
            records@,
            str_bytes_opt(model_name_header),
            slice_bytes_opt(benchmark_header),
            false,
        ),
{
    encode_blob_records_impl(records, model_name_header, benchmark_header, out, false)
}

/// The size of the index of compressed blobs for `records`.
fn viz_content_size(records: &[BlobDesc]) -> (r: Option<usize>)
    ensures
        r is Some <==> viz_content_size_spec(records@) <= usize::MAX,
        r matches Some(v) ==> v == viz_content_size_spec(records@),
{
    let mut v: usize = 6;
    let mut i: usize = 0;
    assert(records@.take(0) =~= Seq::<BlobDesc>::empty());
    while i < records.len()
        invariant
            i <= records@.len(),
            v == viz_content_size_spec(records@.take(i as int)),
        decreases records@.len() - i,
    {
        proof {
            assert(records@.take(i + 1).drop_last() =~= records@.take(i as int));
            lemma_viz_size_monotone(records@, i + 1);
        }
        let nl = records[i].name.as_bytes().len();
        if v > usize::MAX - 26 || v + 26 > usize::MAX - nl {
            return None;
        }
        v = v + 26 + nl;
        i = i + 1;
    }
    assert(records@.take(records@.len() as int) =~= records@);
    Some(v)
}

/// The positions and sizes of a container's parts.
struct EncodeLayout {
    viz_at: usize,
    table_at: usize,
    table_end: usize,
    header_size: usize,
    total_size: usize,
    desc_len: usize,
    vcs: usize,
}

/// Whether `l` holds the positions and sizes of the container for `records`.
spec fn layout_matches(
    l: EncodeLayout,
    records: Seq<BlobDesc>,
    name: Option<Seq<u8>>,
    bmk: Option<Seq<u8>>,
) -> bool {
    &&& l.viz_at == viz_start(records, name, bmk)
    &&& l.table_at == table_start(records, name, bmk)
    &&& l.table_end == header_end(records, name, bmk)
    &&& l.header_size == header_size(records, name, bmk)
    &&& l.total_size == container_size(records, name, bmk)
    &&& l.desc_len == descriptor_len_spec(records)
    &&& l.vcs == viz_content_size_spec(records)
}

/// Computes the layout of the container, or `BadHeader` when a blob cannot
/// be described or a size does not fit.
fn plan_layout(
    records: &[BlobDesc],
    model_name_header: Option<&str>,
    benchmark_header: Option<&[u8]>,
    summary_len: usize,
) -> (r: Result<EncodeLayout, RnnProtocolError>)
    requires
        encode_wrap_free(
            records@,
            str_bytes_opt(model_name_header),
            slice_bytes_opt(benchmark_header),
        ),
        summary_len == summary_record(records@).len(),
    ensures
        match r {
            Ok(l) => layout_matches(
                l,
                records@,
                str_bytes_opt(model_name_header),
                slice_bytes_opt(benchmark_header),
            ) && encode_sizes_ok(
                records@,
                str_bytes_opt(model_name_header),
                slice_bytes_opt(benchmark_header),
            ),
            Err(e) => e == RnnProtocolError::BadHeader && !encode_sizes_ok(
                records@,
                str_bytes_opt(model_name_header),
                slice_bytes_opt(benchmark_header),
            ),
        },
{
    let ghost name = str_bytes_opt(model_name_header);
    let ghost bmk = slice_bytes_opt(benchmark_header);
    let desc_len = match descriptor_len(records) {
        Ok(v) => v,
        Err(e) => {
            return Err(e);
        },
    };
    let payload_len = match payload_total_len_aligned(records) {
        Ok(v) => v,
        Err(e) => {
            return Err(e);
        },
    };
    let vcs = match viz_content_size(records) {
        Some(v) => v,
        None => {
            return Err(RnnProtocolError::BadHeader);
        },
    };
    let mut h: usize = 12;
    match model_name_header {
        Some(nm) => {
            let a = 5 + nm.as_bytes().len();
            if h > usize::MAX - a {
                return Err(RnnProtocolError::BadHeader);
            }
            h = h + a;
        },
        None => {},
    }
    match benchmark_header {
        Some(b) => {
            let a = 5 + b.len();
            if h > usize::MAX - a {
                return Err(RnnProtocolError::BadHeader);
            }
            h = h + a;
        },
        None => {},
    }
    if summary_len > usize::MAX - 5 || h > usize::MAX - 5 - summary_len {
        return Err(RnnProtocolError::BadHeader);
    }
    h = h + 5 + summary_len;
    let viz_at = h;
    if h > usize::MAX - 5 || h + 5 > usize::MAX - vcs {
        return Err(RnnProtocolError::BadHeader);
    }
    h = h + 5 + vcs;
    let table_at = h;
    if h > usize::MAX - 5 || h + 5 > usize::MAX - desc_len {
        return Err(RnnProtocolError::BadHeader);
    }
    h = h + 5 + desc_len;
    let table_end = h;
    let hsize = align4_usize(table_end);
    if hsize > usize::MAX - payload_len {
        return Err(RnnProtocolError::BadHeader);
    }
    let total_size = align16_usize(hsize + payload_len);
    Ok(EncodeLayout { viz_at, table_at, table_end, header_size: hsize, total_size, desc_len, vcs })
}

/// Copies the payload of blob `i` to `pc` and writes its table entry at
/// `cursor`.
fn place_one(
    out: &mut [u8],
    records: &[BlobDesc],
    i: usize,
    pc: usize,
    cursor: usize,
    compute_digests: bool,
) -> (entry_len: usize)
    requires
        i < records@.len(),
        desc_ok(records@[i as int]),
        pc + records@[i as int].payload@.len() <= old(out)@.len(),
        cursor + desc_entry_len(records@[i as int]) <= old(out)@.len(),
        cursor + desc_entry_len(records@[i as int]) <= pc,
    ensures
        final(out)@ == splice(
            splice(old(out)@, pc as int, records@[i as int].payload@),
            cursor as int,
            entry_bytes(records@[i as int], pc as int, compute_digests),
        ),
        final(out)@.len() == old(out)@.len(),
        entry_len == desc_entry_len(records@[i as int]),
        compute_digests ==> sha256_of(records@[i as int].payload@).len() == 32,
{
    let rec = records[i];
    let _n = out.len();
    let next_payload = pc + rec.payload.len();
    let ghost before = out@;
    write_bytes(out, pc, rec.payload);
    proof {
        lemma_splice(before, pc as int, rec.payload@);
        assert(out@.subrange(pc as int, next_payload as int) =~= rec.payload@);
    }
    let digest: Vec<u8> = if compute_digests {
        sha256_bytes(vstd::slice::slice_subrange(out, pc, next_payload))
    } else {
        vec![0u8; 32]
    };
    assert(digest@ == blob_digest(rec, compute_digests));
    let entry = build_entry(&rec, pc, digest.as_slice(), Ghost(compute_digests));
    proof {
        lemma_entry_len(rec, pc as int, compute_digests);
    }
    write_bytes(out, cursor, entry.as_slice());
    entry.len()
}

/// Copies each payload to its offset and writes its table entry; appends the
/// entries of the index of compressed blobs to `viz`.
#[verifier::rlimit(40)]
fn place_blobs(
    out: &mut [u8],
    records: &[BlobDesc],
    hsize: usize,
    t0: usize,
    viz: &mut Vec<u8>,
    compute_digests: bool,
) -> (pn: usize)
    requires
        forall|i: int| 0 <= i < records@.len() ==> desc_ok(#[trigger] records@[i]),
        t0 + descriptor_len_spec(records@) <= hsize,
        payload_offset(records@, hsize as int, records@.len() as int) <= old(out)@.len(),
        forall|k: int|
            0 <= k < records@.len() ==> #[trigger] payload_offset(records@, hsize as int, k)
                + records@[k].payload@.len() + 15 <= usize::MAX,
    ensures
        final(out)@ == placed(
            old(out)@,
            records@,
            hsize as int,
            t0 as int,
            compute_digests,
            records@.len() as int,
        ),
        final(out)@.len() == old(out)@.len(),
        pn == payload_offset(records@, hsize as int, records@.len() as int),
        final(viz)@ == old(viz)@ + viz_entries(records@, hsize as int, records@.len() as int),
        compute_digests ==> forall|k: int|
            0 <= k < records@.len() ==> sha256_of((#[trigger] records@[k]).payload@).len() == 32,
{
    let ghost recs = records@;
    let ghost nrec = records@.len() as int;
    let ghost s0 = out@;
    let ghost v0 = viz@;
    let ghost h = hsize as int;
    proof {
        lemma_descriptor_len_monotone(recs, nrec);
        assert(recs.take(nrec) =~= recs);
    }
    let mut cursor: usize = t0;
    let mut payload_cursor: usize = hsize;
    let mut i: usize = 0;
    assert(recs.take(0) =~= Seq::<BlobDesc>::empty());
    while i < records.len()
        invariant
            recs == records@,
            nrec == recs.len(),
            i <= nrec,
            out@.len() == s0.len(),
            h == hsize,
            forall|j: int| 0 <= j < nrec ==> desc_ok(#[trigger] recs[j]),
            t0 + descriptor_len_spec(recs) <= hsize,
            payload_offset(recs, h, nrec) <= s0.len(),
            forall|k: int|
                0 <= k < nrec ==> #[trigger] payload_offset(recs, h, k) + recs[k].payload@.len()
                    + 15 <= usize::MAX,
            out@ == placed(s0, recs, h, t0 as int, compute_digests, i as int),
            cursor == t0 + descriptor_len_spec(recs.take(i as int)),
            payload_cursor == payload_offset(recs, h, i as int),
            viz@ == v0 + viz_entries(recs, h, i as int),
            compute_digests ==> forall|k: int|
                0 <= k < i ==> sha256_of((#[trigger] recs[k]).payload@).len() == 32,
        decreases nrec - i,
    {
        let stored_len = records[i].payload.len();
        proof {
            lemma_offsets(recs, h, i as int);
            lemma_offsets_grow(recs, h, i + 1, nrec);
            assert(recs.take(i + 1).drop_last() =~= recs.take(i as int));
            lemma_descriptor_len_monotone(recs, i + 1);
            assert(desc_ok(recs[i as int]));
            assert(payload_offset(recs, h, i as int) + recs[i as int].payload@.len() + 15
                <= usize::MAX);
        }
        let next_payload = payload_cursor + stored_len;
        push_viz_entry(viz, records, i, payload_cursor, Ghost(h));
        let entry_len = place_one(out, records, i, payload_cursor, cursor, compute_digests);
        cursor = cursor + entry_len;
        payload_cursor = align16_usize(next_payload);
        i = i + 1;
        assert(viz@ =~= v0 + viz_entries(recs, h, i as int));
    }
    payload_cursor
}

/// Writes the container for `records` into `out`, whose layout is `lay`.
#[verifier::rlimit(40)]
fn write_container(
    out: &mut [u8],
    records: &[BlobDesc],
    model_name_header: Option<&str>,
    benchmark_header: Option<&[u8]>,
    summary_bytes: &[u8],
    lay: &EncodeLayout,
    compute_digests: bool,
) -> (payload_end: usize)
    requires
        summary_bytes@ == summary_record(records@),
        layout_matches(
            *lay,
            records@,
            str_bytes_opt(model_name_header),
            slice_bytes_opt(benchmark_header),
        ),
        records@.len() <= 16,
        forall|i: int| 0 <= i < records@.len() ==> desc_ok(#[trigger] records@[i]),
        forall|k: int|
            0 <= k < records@.len() ==> #[trigger] payload_offset(records@, lay.header_size as int, k)
                + records@[k].payload@.len() + 15 <= usize::MAX,
        lay.table_end <= lay.header_size,
        payload_offset(records@, lay.header_size as int, records@.len() as int) <= lay.total_size,
        lay.total_size <= old(out)@.len(),
    ensures
        final(out)@ == encoded_container(
            old(out)@,
            records@,
            str_bytes_opt(model_name_header),
            slice_bytes_opt(benchmark_header),
            compute_digests,
        ),
        payload_end == payload_offset(records@, lay.header_size as int, records@.len() as int),
        compute_digests ==> forall|k: int|
            0 <= k < records@.len() ==> sha256_of((#[trigger] records@[k]).payload@).len() == 32,
{
    let ghost name = str_bytes_opt(model_name_header);
    let ghost bmk = slice_bytes_opt(benchmark_header);
    let ghost recs = records@;
    let ghost nrec = records@.len() as int;
    proof {
        lemma_u32_le(lay.desc_len as u32);
        lemma_head_len(recs, name, bmk, lay.header_size as int);
        lemma_viz_record_len(recs, lay.header_size as int);
        lemma_descriptor_len_monotone(recs, 0);
        lemma_viz_size_monotone(recs, 0);
        assert(recs.take(0) =~= Seq::<BlobDesc>::empty());
        lemma_offsets(recs, lay.header_size as int, nrec);
    }
    let ghost s0 = out@;
    let ghost hsz = lay.header_size as int;
    let head = build_head(records, model_name_header, benchmark_header, summary_bytes, lay.header_size);
    write_bytes(out, 0, head.as_slice());
    let ghost s1 = out@;
    let mut table_head: Vec<u8> = Vec::new();
    table_head.push(3);
    push_u32_le(&mut table_head, lay.desc_len as u32);
    assert(table_head@ =~= seq![3u8] + u32_le(lay.desc_len as u32));
    write_bytes(out, lay.table_at, table_head.as_slice());
    let ghost s2 = out@;
    let mut viz: Vec<u8> = Vec::new();
    viz.push(7);
    push_u32_le(&mut viz, lay.vcs as u32);
    viz.push(0x56);
    viz.push(0x49);
    viz.push(0x5a);
    viz.push(0x58);
    viz.push(1);
    viz.push(records.len() as u8);
    proof {
        lemma_descriptor_len_monotone(recs, nrec);
        assert(recs.take(nrec) =~= recs);
    }
    let payload_end = place_blobs(out, records, lay.header_size, lay.table_at + 5, &mut viz, compute_digests);
    let ghost s3 = out@;
    proof {
        lemma_viz_entries_len(recs, hsz, nrec);
    }
    assert(viz@ =~= viz_record(recs, hsz)) by {
        reveal(viz_record);
    }
    write_bytes(out, lay.viz_at, viz.as_slice());
    let ghost s4 = out@;
    fill_bytes(out, lay.table_end, lay.header_size, 0);
    assert(Seq::new((lay.header_size - lay.table_end) as nat, |i: int| 0u8) =~= zeros(
        lay.header_size - lay.table_end,
    ));
    let ghost s5 = out@;
    fill_bytes(out, payload_end, lay.total_size, 0);
    assert(Seq::new((lay.total_size - payload_end) as nat, |i: int| 0u8) =~= zeros(
        lay.total_size - payload_end,
    ));
    proof {
        assert(s1 == splice(s0, 0, header_head(recs, name, bmk, hsz)));
        assert(s2 == splice(s1, table_start(recs, name, bmk), seq![3u8] + u32_le(descriptor_len_spec(recs) as u32)));
        assert(s3 == placed(s2, recs, hsz, table_start(recs, name, bmk) + 5, compute_digests, nrec));
        assert(s4 == splice(s3, viz_start(recs, name, bmk), viz_record(recs, hsz)));
        assert(s5 == splice(s4, header_end(recs, name, bmk), zeros(hsz - header_end(recs, name, bmk))));
        assert(out@ == splice(s5, payload_end as int, zeros(container_size(recs, name, bmk) - payload_end)));
        reveal(encoded_container);
    }
    payload_end
}

#[verifier::rlimit(40)]
fn encode_blob_records_impl(
    records: &[BlobDesc],
    model_name_header: Option<&str>,
    benchmark_header: Option<&[u8]>,
    out: &mut [u8],
    compute_digests: bool,
) -> (r: Result<usize, RnnProtocolError>)
    requires
        encode_wrap_free(
            records@,
            str_bytes_opt(model_name_header),
            slice_bytes_opt(benchmark_header),
        ),
    ensures
        encode_outcome(
            old(out)@,
            final(out)@,
            r,
            records@,
            str_bytes_opt(model_name_header),
            slice_bytes_opt(benchmark_header),
            compute_digests,
        ),
{
    let ghost name = str_bytes_opt(model_name_header);
    let ghost bmk = slice_bytes_opt(benchmark_header);
    let ghost recs = records@;
    let ghost nrec = records@.len() as int;
    if needs_canonical_layout(records) {
        return Err(RnnProtocolError::BadHeader);
    }
    let summary = match header_network_summary_blob(records) {
        Some(b) => b,
        None => {
            return Err(RnnProtocolError::BadHeader);
        },
    };
    let summary_bytes = summary.as_slice();
    proof {
        reveal(summary_record);
    }
    let lay = match plan_layout(records, model_name_header, benchmark_header, summary.len()) {
        Ok(l) => l,
        Err(e) => {
            return Err(e);
        },
    };
    if out.len() < lay.total_size {
        return Err(RnnProtocolError::CapacityTooSmall);
    }
    proof {
        lemma_align4(lay.table_end as int);
        lemma_offsets(recs, lay.header_size as int, nrec);
        lemma_offsets(recs, 0, nrec);
        lemma_align16_shift(lay.header_size as int, payload_offset(recs, 0, nrec));
    }
    let payload_end = write_container(
        out,
        records,
        model_name_header,
        benchmark_header,
        summary_bytes,
        &lay,
        compute_digests,
    );
    Ok(payload_end)
}

/// What the encoder returns on success is the end of the last blob's
/// padding: a multiple of 16, within the buffer, after at least one blob
/// (an empty list calls for the canonical layout).
pub proof fn law_encoded_size_aligned(
    old: Seq<u8>,
    new: Seq<u8>,
    n: usize,
    records: Seq<BlobDesc>,
    name: Option<Seq<u8>>,
    bmk: Option<Seq<u8>>,
    with_digest: bool,
)
    requires
        encode_outcome(old, new, Ok(n), records, name, bmk, with_digest),
    ensures
        records.len() > 0,
        n % 16 == 0,
        n <= old.len(),
{
    assert(records.len() > 0) by {
        if records.len() == 0 {
            assert(payload_len_spec(records) == 0);
            assert(canonical_layout(records));
        }
    }
    let h = header_size(records, name, bmk);
    let k = records.len() as int;
    lemma_descriptor_len_monotone(records, 0);
    lemma_viz_size_monotone(records, 0);
    assert(records.take(0) =~= Seq::<BlobDesc>::empty());
    assert(descriptor_len_spec(Seq::<BlobDesc>::empty()) == 0);
    assert(viz_content_size_spec(Seq::<BlobDesc>::empty()) >= 0);
    lemma_align4(header_end(records, name, bmk));
    lemma_offsets(records, h, k);
    lemma_offsets(records, h, k - 1);
    lemma_align16(payload_offset(records, h, k - 1) + records[k - 1].payload@.len());
    lemma_align16(h + payload_offset(records, 0, k));
    lemma_align16(h);
}

} // verus!
