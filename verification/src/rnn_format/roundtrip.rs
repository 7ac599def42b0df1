//! Reading back a written container: the parser recovers every blob the
//! encoder wrote, in order, with its name, type, dimensions, place, length
//! and digest, and each payload lies where its entry says.
use vstd::prelude::*;
use crate::bytes::{
    u16_le, u32_le, u64_le, le16, le32, le64, splice, lemma_u16_le, lemma_u32_le, lemma_u64_le,
    at, lemma_at_read, lemma_at_split, lemma_at_sub, lemma_at_le16, lemma_at_le32, lemma_at_le64,
    lemma_at_prefix, lemma_at_from_prefix, lemma_at_splice_new, lemma_at_splice_keep,
};
use crate::digest::sha256_of;
use crate::format::blob::{BlobDesc, desc_name, rnn0_magic};
use crate::format::layout::{
    align4, desc_ok, desc_entry_len, descriptor_len_spec, payload_offset, viz_content_size_spec,
    lemma_descriptor_len_monotone,
};
use crate::format::rnn_encode::{
    zeros, tlv, opt_tlv, tlv_len, viz_start, table_start, header_end, header_size, container_size,
    encode_sizes_ok, encode_outcome, header_head, dims_bytes, blob_digest, entry_bytes, placed,
    viz_record, encoded_container, summary_record, lemma_offsets, lemma_offsets_grow, lemma_align4,
    lemma_entry_len, lemma_viz_record_len, lemma_head_len,
};
use crate::rnn_format::bounds::{blob_in_bounds, blob_digest_ok};
use crate::rnn_format::parser::{
    BlobMetaView, VizEntryView, ParseError, parse_rnn_spec, tlv_walk, table_entries, meta_with_viz,
    scan_viz, zeros32,
};

verus! {

// ---------------------------------------------------------------- the table

/// The blob-table entries of the first `k` blobs.
pub open spec fn table_bytes(records: Seq<BlobDesc>, h: int, with_digest: bool, k: int) -> Seq<u8>
    decreases k,
{
    if k <= 0 {
        Seq::empty()
    } else {
        table_bytes(records, h, with_digest, k - 1) + entry_bytes(
            records[k - 1],
            payload_offset(records, h, k - 1),
            with_digest,
        )
    }
}

/// Whether every blob of `records` can be described and, with digests, each
/// digest has 32 bytes.
pub open spec fn entries_ok(records: Seq<BlobDesc>, with_digest: bool) -> bool {
    &&& forall|i: int| 0 <= i < records.len() ==> desc_ok(#[trigger] records[i])
    &&& with_digest ==> forall|k: int|
        0 <= k < records.len() ==> sha256_of((#[trigger] records[k]).payload@).len() == 32
}

proof fn lemma_table_bytes_len(records: Seq<BlobDesc>, h: int, with_digest: bool, k: int)
    requires
        0 <= k <= records.len(),
        entries_ok(records, with_digest),
    ensures
        table_bytes(records, h, with_digest, k).len() == descriptor_len_spec(records.take(k)),
    decreases k,
{
    if k > 0 {
        lemma_table_bytes_len(records, h, with_digest, k - 1);
        assert(records.take(k).drop_last() =~= records.take(k - 1));
        assert(desc_ok(records[k - 1]));
        lemma_entry_len(records[k - 1], payload_offset(records, h, k - 1), with_digest);
    } else {
        assert(records.take(0) =~= Seq::<BlobDesc>::empty());
    }
}

/// Where the table entry of blob `j` starts, from `t0`.
pub open spec fn entry_at(records: Seq<BlobDesc>, t0: int, j: int) -> int {
    t0 + descriptor_len_spec(records.take(j))
}

proof fn lemma_entries_at(
    s: Seq<u8>,
    t0: int,
    records: Seq<BlobDesc>,
    h: int,
    with_digest: bool,
    k: int,
)
    requires
        0 <= k <= records.len(),
        entries_ok(records, with_digest),
        at(s, t0, table_bytes(records, h, with_digest, k)),
    ensures
        forall|j: int|
            0 <= j < k ==> at(
                s,
                #[trigger] entry_at(records, t0, j),
                entry_bytes(records[j], payload_offset(records, h, j), with_digest),
            ),
    decreases k,
{
    if k > 0 {
        let e = entry_bytes(records[k - 1], payload_offset(records, h, k - 1), with_digest);
        lemma_at_split(s, t0, table_bytes(records, h, with_digest, k - 1), e);
        lemma_table_bytes_len(records, h, with_digest, k - 1);
        lemma_entries_at(s, t0, records, h, with_digest, k - 1);
    }
}

// ---------------------------------------------------------------- placing blobs

proof fn lemma_descriptor_len_nonneg(records: Seq<BlobDesc>)
    ensures
        descriptor_len_spec(records) >= 0,
    decreases records.len(),
{
    if records.len() > 0 {
        lemma_descriptor_len_nonneg(records.drop_last());
    }
}

proof fn lemma_splice_head(s: Seq<u8>, off: int, part: Seq<u8>, h: int)
    requires
        0 <= off,
        off + part.len() <= h <= s.len(),
    ensures
        splice(s, off, part).subrange(0, h) == splice(s.subrange(0, h), off, part),
{
    assert(splice(s, off, part).subrange(0, h) =~= splice(s.subrange(0, h), off, part));
}

proof fn lemma_splice_tail(s: Seq<u8>, off: int, part: Seq<u8>, h: int)
    requires
        0 <= h <= off,
        off + part.len() <= s.len(),
    ensures
        splice(s, off, part).subrange(0, h) == s.subrange(0, h),
{
    assert(splice(s, off, part).subrange(0, h) =~= s.subrange(0, h));
}

/// Placing blobs writes the table entries into the header and leaves the
/// rest of the header alone.
#[verifier::rlimit(60)]
#[verifier::spinoff_prover]
proof fn lemma_placed_header(
    s: Seq<u8>,
    records: Seq<BlobDesc>,
    h: int,
    t0: int,
    with_digest: bool,
    k: int,
)
    requires
        0 <= k <= records.len(),
        0 <= t0,
        0 <= h,
        t0 + descriptor_len_spec(records) <= h,
        payload_offset(records, h, records.len() as int) <= s.len(),
        entries_ok(records, with_digest),
    ensures
        placed(s, records, h, t0, with_digest, k).len() == s.len(),
        placed(s, records, h, t0, with_digest, k).subrange(0, h) == splice(
            s,
            t0,
            table_bytes(records, h, with_digest, k),
        ).subrange(0, h),
    decreases k,
{
    let n = records.len() as int;
    lemma_offsets(records, h, n);
    lemma_descriptor_len_monotone(records, n);
    assert(records.take(n) =~= records);
    lemma_descriptor_len_monotone(records, 0);
    assert(records.take(0) =~= Seq::<BlobDesc>::empty());
    if k == 0 {
        assert(splice(s, t0, Seq::<u8>::empty()) =~= s);
    } else {
        lemma_placed_header(s, records, h, t0, with_digest, k - 1);
        let prev = placed(s, records, h, t0, with_digest, k - 1);
        let d = records[k - 1];
        let p = payload_offset(records, h, k - 1);
        let e = entry_bytes(d, p, with_digest);
        let tb = table_bytes(records, h, with_digest, k - 1);
        lemma_offsets(records, h, k - 1);
        lemma_offsets_grow(records, h, k, n);
        lemma_table_bytes_len(records, h, with_digest, k - 1);
        lemma_table_bytes_len(records, h, with_digest, k);
        lemma_descriptor_len_monotone(records, k);
        assert(desc_ok(records[k - 1]));
        lemma_entry_len(d, p, with_digest);
        assert(records.take(k).drop_last() =~= records.take(k - 1));
        let mid = splice(prev, p, d.payload@);
        lemma_splice_tail(prev, p, d.payload@, h);
        lemma_splice_head(mid, t0 + tb.len(), e, h);
        lemma_splice_head(splice(s, t0, tb), t0 + tb.len(), e, h);
        crate::bytes::lemma_splice_concat(s, t0, tb, e);
    }
}

/// Placing blobs copies each payload to its offset, and later steps leave it.
#[verifier::rlimit(60)]
#[verifier::spinoff_prover]
proof fn lemma_placed_payload(
    s: Seq<u8>,
    records: Seq<BlobDesc>,
    h: int,
    t0: int,
    with_digest: bool,
    k: int,
    j: int,
)
    requires
        0 <= j < k <= records.len(),
        0 <= t0,
        0 <= h,
        t0 + descriptor_len_spec(records) <= h,
        payload_offset(records, h, records.len() as int) <= s.len(),
        entries_ok(records, with_digest),
    ensures
        at(placed(s, records, h, t0, with_digest, k), payload_offset(records, h, j), records[j].payload@),
    decreases k,
{
    let n = records.len() as int;
    lemma_offsets(records, h, n);
    lemma_descriptor_len_monotone(records, n);
    assert(records.take(n) =~= records);
    lemma_placed_header(s, records, h, t0, with_digest, k - 1);
    let prev = placed(s, records, h, t0, with_digest, k - 1);
    let d = records[k - 1];
    let p = payload_offset(records, h, k - 1);
    let e = entry_bytes(d, p, with_digest);
    lemma_offsets(records, h, k - 1);
    lemma_offsets_grow(records, h, k, n);
    lemma_offsets(records, h, j);
    lemma_descriptor_len_nonneg(records.take(k - 1));
    lemma_descriptor_len_monotone(records, k);
    assert(desc_ok(records[k - 1]));
    lemma_entry_len(d, p, with_digest);
    assert(records.take(k).drop_last() =~= records.take(k - 1));
    lemma_descriptor_len_monotone(records, k - 1);
    let mid = splice(prev, p, d.payload@);
    if j == k - 1 {
        lemma_at_splice_new(prev, p, d.payload@);
    } else {
        lemma_offsets_grow(records, h, j + 1, k - 1);
        lemma_placed_payload(s, records, h, t0, with_digest, k - 1, j);
        lemma_at_splice_keep(prev, p, d.payload@, payload_offset(records, h, j), records[j].payload@);
    }
    lemma_at_splice_keep(
        mid,
        t0 + descriptor_len_spec(records.take(k - 1)),
        e,
        payload_offset(records, h, j),
        records[j].payload@,
    );
}

// ---------------------------------------------------------------- walking the header

proof fn lemma_tlv_skip(
    bytes: Seq<u8>,
    cursor: int,
    h: int,
    viz: Seq<VizEntryView>,
    acc: Seq<BlobMetaView>,
    t: u8,
    l: int,
)
    requires
        0 <= cursor,
        at(bytes, cursor, seq![t] + u32_le(l as u32)),
        0 <= l < 4294967296,
        t != 0,
        t != 3,
        cursor + 5 + l <= h,
    ensures
        tlv_walk(bytes, cursor, h, viz, acc) == tlv_walk(bytes, cursor + 5 + l, h, viz, acc),
{
    lemma_u32_le(l as u32);
    lemma_at_split(bytes, cursor, seq![t], u32_le(l as u32));
    lemma_at_read(bytes, cursor, seq![t], 0);
    lemma_at_le32(bytes, cursor + 1, l as u32);
}

proof fn lemma_tlv_zeros(bytes: Seq<u8>, c: int, h: int, viz: Seq<VizEntryView>, acc: Seq<BlobMetaView>)
    requires
        0 <= c <= h <= bytes.len(),
        forall|i: int| c <= i < h ==> bytes[i] == 0,
    ensures
        tlv_walk(bytes, c, h, viz, acc) == Ok::<Seq<BlobMetaView>, ParseError>(acc),
    decreases h - c,
{
    if c < h {
        lemma_tlv_zeros(bytes, c + 1, h, viz, acc);
    }
}

/// The metadata the parser makes of blob `k`.
pub open spec fn expected_meta(
    records: Seq<BlobDesc>,
    h: int,
    with_digest: bool,
    viz: Seq<VizEntryView>,
    k: int,
) -> BlobMetaView {
    let d = records[k];
    meta_with_viz(
        desc_name(d),
        d.dtype,
        d.ndim,
        dims_bytes(d),
        payload_offset(records, h, k) as u64,
        d.payload@.len() as u64,
        blob_digest(d, with_digest),
        viz,
    )
}

/// The metadata of blobs `k` to `n`.
pub open spec fn expected_from(
    records: Seq<BlobDesc>,
    h: int,
    with_digest: bool,
    viz: Seq<VizEntryView>,
    k: int,
) -> Seq<BlobMetaView> {
    Seq::new(
        (records.len() - k) as nat,
        |j: int| expected_meta(records, h, with_digest, viz, k + j),
    )
}

#[verifier::rlimit(60)]
#[verifier::spinoff_prover]
proof fn lemma_entry_parse(
    bytes: Seq<u8>,
    p: int,
    end: int,
    d: BlobDesc,
    off: int,
    with_digest: bool,
    viz: Seq<VizEntryView>,
    acc: Seq<BlobMetaView>,
)
    requires
        at(bytes, p, entry_bytes(d, off, with_digest)),
        p + desc_entry_len(d) <= end,
        desc_ok(d),
        d.dtype <= 2,
        blob_digest(d, with_digest).len() == 32,
        0 <= off <= usize::MAX,
        off + d.payload@.len() <= bytes.len(),
    ensures
        table_entries(bytes, p, end, viz, acc) == table_entries(
            bytes,
            p + desc_entry_len(d),
            end,
            viz,
            acc.push(
                meta_with_viz(
                    desc_name(d),
                    d.dtype,
                    d.ndim,
                    dims_bytes(d),
                    off as u64,
                    d.payload@.len() as u64,
                    blob_digest(d, with_digest),
                    viz,
                ),
            ),
        ),
{
    reveal(entry_bytes);
    let name = desc_name(d);
    let nl = name.len() as int;
    let a = u16_le(nl as u16);
    let b = seq![d.dtype, d.ndim];
    let dm = dims_bytes(d);
    let o = u64_le(off as u64);
    let l = u64_le(d.payload@.len() as u64);
    let g = blob_digest(d, with_digest);
    lemma_u16_le(nl as u16);
    lemma_u64_le(off as u64);
    lemma_u64_le(d.payload@.len() as u64);
    lemma_u32_le(d.dims[0]);
    lemma_u32_le(d.dims[1]);
    assert(dm.len() == d.ndim * 4);
    lemma_at_split(bytes, p, a + name + b + dm + o + l, g);
    lemma_at_split(bytes, p, a + name + b + dm + o, l);
    lemma_at_split(bytes, p, a + name + b + dm, o);
    lemma_at_split(bytes, p, a + name + b, dm);
    lemma_at_split(bytes, p, a + name, b);
    lemma_at_split(bytes, p, a, name);
    lemma_at_le16(bytes, p, nl as u16);
    let q = p + 2;
    lemma_at_read(bytes, q + nl, b, 0);
    lemma_at_read(bytes, q + nl, b, 1);
    let r = q + nl + 2;
    let sb = d.ndim * 4;
    lemma_at_le64(bytes, r + sb, off as u64);
    lemma_at_le64(bytes, r + sb + 8, d.payload@.len() as u64);
    lemma_at_sub(bytes, q, name, q, q + nl);
    lemma_at_sub(bytes, r, dm, r, r + sb);
    lemma_at_sub(bytes, r + sb + 16, g, r + sb + 16, r + sb + 48);
    assert(name.subrange(0, nl) =~= name);
    assert(dm.subrange(0, sb) =~= dm);
    assert(g.subrange(0, 32) =~= g);
}

#[verifier::rlimit(60)]
#[verifier::spinoff_prover]
proof fn lemma_table_walk(
    bytes: Seq<u8>,
    t0: int,
    records: Seq<BlobDesc>,
    h: int,
    with_digest: bool,
    viz: Seq<VizEntryView>,
    k: int,
    acc: Seq<BlobMetaView>,
)
    requires
        0 <= k <= records.len(),
        0 <= t0,
        0 <= h,
        entries_ok(records, with_digest),
        forall|i: int| 0 <= i < records.len() ==> (#[trigger] records[i]).dtype <= 2,
        payload_offset(records, h, records.len() as int) <= bytes.len(),
        payload_offset(records, h, records.len() as int) <= usize::MAX,
        forall|j: int|
            0 <= j < records.len() ==> at(
                bytes,
                #[trigger] entry_at(records, t0, j),
                entry_bytes(records[j], payload_offset(records, h, j), with_digest),
            ),
    ensures
        table_entries(
            bytes,
            entry_at(records, t0, k),
            entry_at(records, t0, records.len() as int),
            viz,
            acc,
        ) == Ok::<Seq<BlobMetaView>, ParseError>(acc + expected_from(records, h, with_digest, viz, k)),
    decreases records.len() - k,
{
    let n = records.len() as int;
    if k == n {
        assert(expected_from(records, h, with_digest, viz, k) =~= Seq::<BlobMetaView>::empty());
        assert(acc + Seq::<BlobMetaView>::empty() =~= acc);
    } else {
        let d = records[k];
        let p = payload_offset(records, h, k);
        assert(desc_ok(records[k]));
        assert(records[k].dtype <= 2);
        lemma_offsets(records, h, k);
        lemma_offsets_grow(records, h, k + 1, n);
        lemma_descriptor_len_monotone(records, k + 1);
        assert(records.take(k + 1).drop_last() =~= records.take(k));
        assert(records.take(n) =~= records);
        lemma_descriptor_len_monotone(records, n);
        assert(at(bytes, entry_at(records, t0, k), entry_bytes(d, p, with_digest)));
        lemma_entry_parse(
            bytes,
            entry_at(records, t0, k),
            entry_at(records, t0, n),
            d,
            p,
            with_digest,
            viz,
            acc,
        );
        let m = expected_meta(records, h, with_digest, viz, k);
        lemma_table_walk(bytes, t0, records, h, with_digest, viz, k + 1, acc.push(m));
        assert(acc.push(m) + expected_from(records, h, with_digest, viz, k + 1) =~= acc
            + expected_from(records, h, with_digest, viz, k));
    }
}

// ---------------------------------------------------------------- the image

/// What the written container holds: the fixed fields and first records,
/// the index record, the table record and entries, zeros to the end of the
/// header, and each payload at its offset.
#[verifier::rlimit(60)]
#[verifier::spinoff_prover]
proof fn lemma_image(
    old: Seq<u8>,
    records: Seq<BlobDesc>,
    name: Option<Seq<u8>>,
    bmk: Option<Seq<u8>>,
    with_digest: bool,
)
    requires
        encode_sizes_ok(records, name, bmk),
        container_size(records, name, bmk) <= old.len(),
        entries_ok(records, with_digest),
    ensures
        ({
            let new = encoded_container(old, records, name, bmk, with_digest);
            let h = header_size(records, name, bmk);
            let ts = table_start(records, name, bmk);
            &&& new.len() == old.len()
            &&& at(new, 0, header_head(records, name, bmk, h))
            &&& at(new, viz_start(records, name, bmk), viz_record(records, h))
            &&& at(new, ts, seq![3u8] + u32_le(descriptor_len_spec(records) as u32))
            &&& at(new, ts + 5, table_bytes(records, h, with_digest, records.len() as int))
            &&& forall|i: int| header_end(records, name, bmk) <= i < h ==> new[i] == 0
            &&& forall|j: int|
                0 <= j < records.len() ==> at(
                    new,
                    #[trigger] payload_offset(records, h, j),
                    records[j].payload@,
                )
        }),
{
    reveal(encoded_container);
    let h = header_size(records, name, bmk);
    let n = records.len() as int;
    let vs = viz_start(records, name, bmk);
    let ts = table_start(records, name, bmk);
    let he = header_end(records, name, bmk);
    let pn = payload_offset(records, h, n);
    let total = container_size(records, name, bmk);
    let head = header_head(records, name, bmk, h);
    let vr = viz_record(records, h);
    let t3 = seq![3u8] + u32_le(descriptor_len_spec(records) as u32);
    let tb = table_bytes(records, h, with_digest, n);
    let zh = zeros(h - he);
    let zt = zeros(total - pn);
    lemma_head_len(records, name, bmk, h);
    lemma_viz_record_len(records, h);
    lemma_u32_le(descriptor_len_spec(records) as u32);
    lemma_table_bytes_len(records, h, with_digest, n);
    assert(records.take(n) =~= records);
    lemma_descriptor_len_monotone(records, 0);
    crate::format::rnn_encode::lemma_viz_size_monotone(records, 0);
    assert(records.take(0) =~= Seq::<BlobDesc>::empty());
    lemma_align4(he);
    lemma_offsets(records, h, n);
    lemma_offsets(records, 0, n);
    crate::format::rnn_encode::lemma_align16_shift(h, payload_offset(records, 0, n));
    let s1 = splice(old, 0, head);
    lemma_at_splice_new(old, 0, head);
    let s2 = splice(s1, ts, t3);
    lemma_at_splice_new(s1, ts, t3);
    lemma_at_splice_keep(s1, ts, t3, 0, head);
    let s3 = placed(s2, records, h, ts + 5, with_digest, n);
    lemma_placed_header(s2, records, h, ts + 5, with_digest, n);
    let s2t = splice(s2, ts + 5, tb);
    lemma_at_splice_new(s2, ts + 5, tb);
    lemma_at_splice_keep(s2, ts + 5, tb, 0, head);
    lemma_at_splice_keep(s2, ts + 5, tb, ts, t3);
    lemma_at_prefix(s2t, h, 0, head);
    lemma_at_prefix(s2t, h, ts, t3);
    lemma_at_prefix(s2t, h, ts + 5, tb);
    lemma_at_from_prefix(s3, h, 0, head);
    lemma_at_from_prefix(s3, h, ts, t3);
    lemma_at_from_prefix(s3, h, ts + 5, tb);
    let s4 = splice(s3, vs, vr);
    lemma_at_splice_new(s3, vs, vr);
    lemma_at_splice_keep(s3, vs, vr, 0, head);
    lemma_at_splice_keep(s3, vs, vr, ts, t3);
    lemma_at_splice_keep(s3, vs, vr, ts + 5, tb);
    let s5 = splice(s4, he, zh);
    lemma_at_splice_new(s4, he, zh);
    lemma_at_splice_keep(s4, he, zh, 0, head);
    lemma_at_splice_keep(s4, he, zh, vs, vr);
    lemma_at_splice_keep(s4, he, zh, ts, t3);
    lemma_at_splice_keep(s4, he, zh, ts + 5, tb);
    let s6 = splice(s5, pn, zt);
    lemma_at_splice_new(s5, pn, zt);
    lemma_at_splice_keep(s5, pn, zt, 0, head);
    lemma_at_splice_keep(s5, pn, zt, vs, vr);
    lemma_at_splice_keep(s5, pn, zt, ts, t3);
    lemma_at_splice_keep(s5, pn, zt, ts + 5, tb);
    lemma_at_splice_keep(s5, pn, zt, he, zh);
    assert forall|i: int| he <= i < h implies s6[i] == 0 by {
        lemma_at_read(s6, he, zh, i - he);
    }
    assert forall|j: int| 0 <= j < n implies at(
        s6,
        #[trigger] payload_offset(records, h, j),
        records[j].payload@,
    ) by {
        let pj = payload_offset(records, h, j);
        let pl = records[j].payload@;
        lemma_placed_payload(s2, records, h, ts + 5, with_digest, n, j);
        lemma_offsets(records, h, j);
        lemma_offsets_grow(records, h, j + 1, n);
        lemma_at_splice_keep(s3, vs, vr, pj, pl);
        lemma_at_splice_keep(s4, he, zh, pj, pl);
        lemma_at_splice_keep(s5, pn, zt, pj, pl);
    }
}

// ---------------------------------------------------------------- the law

/// The header's records up to the index of compressed blobs are skipped.
#[verifier::rlimit(60)]
#[verifier::spinoff_prover]
proof fn lemma_walk_head(
    bytes: Seq<u8>,
    records: Seq<BlobDesc>,
    name: Option<Seq<u8>>,
    bmk: Option<Seq<u8>>,
    h: int,
    viz: Seq<VizEntryView>,
)
    requires
        at(bytes, 0, header_head(records, name, bmk, h)),
        0 <= h <= 65536,
        viz_start(records, name, bmk) <= h,
    ensures
        bytes.len() >= 12,
        bytes.subrange(0, 4) == rnn0_magic(),
        le32(bytes, 8) == h,
        tlv_walk(bytes, 12, h, viz, Seq::<BlobMetaView>::empty()) == tlv_walk(
            bytes,
            viz_start(records, name, bmk),
            h,
            viz,
            Seq::<BlobMetaView>::empty(),
        ),
{
    reveal(header_head);
    let fixed = rnn0_magic() + u16_le(1) + u16_le(0) + u32_le(h as u32);
    let nt = opt_tlv(4, name);
    let bt = opt_tlv(6, bmk);
    let sr = summary_record(records);
    let st = tlv(5, sr);
    lemma_u32_le(h as u32);
    lemma_at_split(bytes, 0, fixed + nt + bt, st);
    lemma_at_split(bytes, 0, fixed + nt, bt);
    lemma_at_split(bytes, 0, fixed, nt);
    lemma_at_split(bytes, 0, rnn0_magic() + u16_le(1) + u16_le(0), u32_le(h as u32));
    lemma_at_split(bytes, 0, rnn0_magic() + u16_le(1), u16_le(0));
    lemma_at_split(bytes, 0, rnn0_magic(), u16_le(1));
    lemma_at_sub(bytes, 0, rnn0_magic(), 0, 4);
    assert(rnn0_magic().subrange(0, 4) =~= rnn0_magic());
    lemma_at_le32(bytes, 8, h as u32);
    let c1 = 12 + tlv_len(name);
    let c2 = c1 + tlv_len(bmk);
    let empty = Seq::<BlobMetaView>::empty();
    match name {
        Some(b) => {
            lemma_u32_le(b.len() as u32);
            lemma_at_split(bytes, 12, seq![4u8] + u32_le(b.len() as u32), b);
            lemma_tlv_skip(bytes, 12, h, viz, empty, 4, b.len() as int);
        },
        None => {},
    }
    match bmk {
        Some(b) => {
            lemma_u32_le(b.len() as u32);
            lemma_at_split(bytes, c1, seq![6u8] + u32_le(b.len() as u32), b);
            lemma_tlv_skip(bytes, c1, h, viz, empty, 6, b.len() as int);
        },
        None => {},
    }
    lemma_u32_le(sr.len() as u32);
    lemma_at_split(bytes, c2, seq![5u8] + u32_le(sr.len() as u32), sr);
    lemma_tlv_skip(bytes, c2, h, viz, empty, 5, sr.len() as int);
}

/// The index of compressed blobs is skipped.
#[verifier::rlimit(60)]
#[verifier::spinoff_prover]
proof fn lemma_walk_viz(
    bytes: Seq<u8>,
    records: Seq<BlobDesc>,
    name: Option<Seq<u8>>,
    bmk: Option<Seq<u8>>,
    h: int,
    viz: Seq<VizEntryView>,
)
    requires
        at(bytes, viz_start(records, name, bmk), viz_record(records, h)),
        table_start(records, name, bmk) <= h <= 65536,
    ensures
        tlv_walk(bytes, viz_start(records, name, bmk), h, viz, Seq::<BlobMetaView>::empty())
            == tlv_walk(bytes, table_start(records, name, bmk), h, viz, Seq::<BlobMetaView>::empty()),
{
    reveal(viz_record);
    let vs = viz_start(records, name, bmk);
    let nr = records.len() as int;
    let vcs = viz_content_size_spec(records);
    let vr = viz_record(records, h);
    let vrest = seq![0x56u8, 0x49, 0x5a, 0x58, 1u8] + seq![records.len() as u8]
        + crate::format::rnn_encode::viz_entries(records, h, nr);
    assert(vr =~= (seq![7u8] + u32_le(vcs as u32)) + vrest);
    lemma_viz_record_len(records, h);
    lemma_u32_le(vcs as u32);
    crate::format::rnn_encode::lemma_viz_size_monotone(records, 0);
    assert(records.take(0) =~= Seq::<BlobDesc>::empty());
    lemma_at_split(bytes, vs, seq![7u8] + u32_le(vcs as u32), vrest);
    lemma_tlv_skip(bytes, vs, h, viz, Seq::<BlobMetaView>::empty(), 7, vcs);
}

/// The blob table yields the metadata of every blob.
#[verifier::rlimit(60)]
#[verifier::spinoff_prover]
proof fn lemma_walk_table(
    bytes: Seq<u8>,
    records: Seq<BlobDesc>,
    ts: int,
    h: int,
    with_digest: bool,
    viz: Seq<VizEntryView>,
)
    requires
        0 <= ts,
        ts + 5 + descriptor_len_spec(records) <= h <= 65536,
        at(bytes, ts, seq![3u8] + u32_le(descriptor_len_spec(records) as u32)),
        at(bytes, ts + 5, table_bytes(records, h, with_digest, records.len() as int)),
        entries_ok(records, with_digest),
        forall|i: int| 0 <= i < records.len() ==> (#[trigger] records[i]).dtype <= 2,
        records.len() > 0 ==> desc_name(records[0]).len() % 256 != 0xc1,
        payload_offset(records, h, records.len() as int) <= bytes.len(),
        payload_offset(records, h, records.len() as int) <= usize::MAX,
    ensures
        tlv_walk(bytes, ts, h, viz, Seq::<BlobMetaView>::empty()) == tlv_walk(
            bytes,
            ts + 5 + descriptor_len_spec(records),
            h,
            viz,
            expected_from(records, h, with_digest, viz, 0),
        ),
{
    let nr = records.len() as int;
    let dl = descriptor_len_spec(records);
    let empty = Seq::<BlobMetaView>::empty();
    lemma_table_bytes_len(records, h, with_digest, nr);
    assert(records.take(nr) =~= records);
    lemma_descriptor_len_monotone(records, 0);
    assert(records.take(0) =~= Seq::<BlobDesc>::empty());
    lemma_entries_at(bytes, ts + 5, records, h, with_digest, nr);
    lemma_table_walk(bytes, ts + 5, records, h, with_digest, viz, 0, empty);
    assert(entry_at(records, ts + 5, 0) == ts + 5);
    assert(entry_at(records, ts + 5, nr) == ts + 5 + dl);
    let ms = expected_from(records, h, with_digest, viz, 0);
    assert(empty + ms =~= ms);
    lemma_u32_le(dl as u32);
    lemma_at_split(bytes, ts, seq![3u8], u32_le(dl as u32));
    lemma_at_read(bytes, ts, seq![3u8], 0);
    lemma_at_le32(bytes, ts + 1, dl as u32);
    if nr > 0 {
        reveal(entry_bytes);
        let e0 = entry_bytes(records[0], payload_offset(records, h, 0), with_digest);
        assert(at(bytes, entry_at(records, ts + 5, 0), e0));
        lemma_at_read(bytes, ts + 5, e0, 0);
        lemma_u16_le(desc_name(records[0]).len() as u16);
    }
}

/// What parsing gives for blob `d` written at `off`: its name, type,
/// dimensions, place, length and stored digest.
pub open spec fn meta_matches(m: BlobMetaView, d: BlobDesc, off: int, with_digest: bool) -> bool {
    &&& m.name == desc_name(d)
    &&& m.dtype == d.dtype
    &&& m.ndim == d.ndim
    &&& m.dims == dims_bytes(d)
    &&& m.offset == off
    &&& m.length == d.payload@.len()
    &&& m.digest == blob_digest(d, with_digest)
}

/// A container the encoder wrote reads back: parsing its first `n` bytes
/// succeeds and yields one entry per blob, in order, with the blob's name,
/// type, dimensions, offset, length and digest; each blob lies inside the
/// container, its bytes are the payload that was given, and its stored
/// digest (when there is one) matches them. This holds when the header fits
/// the parser's 64 KiB limit, every type code is at most 2, and the first
/// blob's name length does not end in the byte 0xC1 that marks a compact
/// table.
#[verifier::rlimit(60)]
#[verifier::spinoff_prover]
pub proof fn law_container_roundtrip(
    old: Seq<u8>,
    new: Seq<u8>,
    n: usize,
    records: Seq<BlobDesc>,
    name: Option<Seq<u8>>,
    bmk: Option<Seq<u8>>,
    with_digest: bool,
)
    requires
        encode_outcome(old, new, Ok(n), records, name, bmk, with_digest),
        header_size(records, name, bmk) <= 65536,
        forall|i: int| 0 <= i < records.len() ==> (#[trigger] records[i]).dtype <= 2,
        records.len() > 0 ==> desc_name(records[0]).len() % 256 != 0xc1,
    ensures
        ({
            let bytes = new.subrange(0, n as int);
            let h = header_size(records, name, bmk);
            match parse_rnn_spec(bytes) {
                Ok(ms) => {
                    &&& ms.len() == records.len()
                    &&& forall|i: int|
                        0 <= i < records.len() ==> {
                            &&& meta_matches(
                                #[trigger] ms[i],
                                records[i],
                                payload_offset(records, h, i),
                                with_digest,
                            )
                            &&& blob_in_bounds(bytes, ms[i])
                            &&& blob_digest_ok(bytes, ms[i])
                            &&& bytes.subrange(
                                payload_offset(records, h, i),
                                payload_offset(records, h, i) + records[i].payload@.len(),
                            ) == records[i].payload@
                        }
                },
                Err(_) => false,
            }
        }),
{
    let h = header_size(records, name, bmk);
    let nr = records.len() as int;
    let vs = viz_start(records, name, bmk);
    let ts = table_start(records, name, bmk);
    let he = header_end(records, name, bmk);
    let dl = descriptor_len_spec(records);
    let bytes = new.subrange(0, n as int);
    assert(entries_ok(records, with_digest));
    lemma_image(old, records, name, bmk, with_digest);
    lemma_head_len(records, name, bmk, h);
    lemma_viz_record_len(records, h);
    lemma_table_bytes_len(records, h, with_digest, nr);
    assert(records.take(nr) =~= records);
    lemma_descriptor_len_monotone(records, 0);
    crate::format::rnn_encode::lemma_viz_size_monotone(records, 0);
    assert(records.take(0) =~= Seq::<BlobDesc>::empty());
    lemma_align4(he);
    lemma_offsets(records, h, nr);
    lemma_offsets(records, 0, nr);
    crate::format::rnn_encode::lemma_align16_shift(h, payload_offset(records, 0, nr));
    let head = header_head(records, name, bmk, h);
    let vr = viz_record(records, h);
    let t3 = seq![3u8] + u32_le(dl as u32);
    let tb = table_bytes(records, h, with_digest, nr);
    lemma_at_prefix(new, n as int, 0, head);
    lemma_at_prefix(new, n as int, vs, vr);
    lemma_at_prefix(new, n as int, ts, t3);
    lemma_at_prefix(new, n as int, ts + 5, tb);
    let viz = scan_viz(bytes, 12, h, Seq::empty());
    let ms = expected_from(records, h, with_digest, viz, 0);
    lemma_walk_head(bytes, records, name, bmk, h, viz);
    lemma_walk_viz(bytes, records, name, bmk, h, viz);
    lemma_walk_table(bytes, records, ts, h, with_digest, viz);
    assert forall|i: int| he <= i < h implies bytes[i] == 0 by {}
    lemma_tlv_zeros(bytes, he, h, viz, ms);
    assert(parse_rnn_spec(bytes) == Ok::<Seq<BlobMetaView>, ParseError>(ms));
    assert forall|i: int| 0 <= i < nr implies {
        &&& meta_matches(#[trigger] ms[i], records[i], payload_offset(records, h, i), with_digest)
        &&& blob_in_bounds(bytes, ms[i])
        &&& blob_digest_ok(bytes, ms[i])
        &&& bytes.subrange(
            payload_offset(records, h, i),
            payload_offset(records, h, i) + records[i].payload@.len(),
        ) == records[i].payload@
    } by {
        let pi = payload_offset(records, h, i);
        let pl = records[i].payload@;
        lemma_offsets(records, h, i);
        lemma_offsets_grow(records, h, i + 1, nr);
        lemma_at_prefix(new, n as int, pi, pl);
        lemma_at_sub(bytes, pi, pl, pi, pi + pl.len());
        assert(pl.subrange(0, pl.len() as int) =~= pl);
        assert(zeros(32) =~= zeros32());
    }
}

} // verus!
