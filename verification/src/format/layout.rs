//! The sizes and offsets of the parts of an RNN0 container.
use vstd::prelude::*;
use vstd::string::StringSliceAdditionalSpecFns;
use crate::format::blob::{BlobDesc, desc_name, RnnProtocolError};

verus! {

/// `x` rounded up to a multiple of 16.
pub open spec fn align16(x: int) -> int {
    ((x + 15) / 16) * 16
}

/// `x` rounded up to a multiple of 4.
pub open spec fn align4(x: int) -> int {
    ((x + 3) / 4) * 4
}

/// `x` rounded up to a multiple of 16.
pub fn align16_usize(x: usize) -> (r: usize)
    requires
        x + 15 <= usize::MAX,
    ensures
        r == align16(x as int),
{
    let y: usize = x + 15;
    let r = y & !15usize;
    assert(r == (y / 16) * 16) by (bit_vector)
        requires
            r == y & !15usize,
    ;
    r
}

/// `x` rounded up to a multiple of 4.
pub fn align4_usize(x: usize) -> (r: usize)
    requires
        x + 3 <= usize::MAX,
    ensures
        r == align4(x as int),
{
    let y: usize = x + 3;
    let r = y & !3usize;
    assert(r == (y / 4) * 4) by (bit_vector)
        requires
            r == y & !3usize,
    ;
    r
}

/// Whether a blob can be described in a blob table: a name of at most 65535
/// bytes and one or two dimensions.
pub open spec fn desc_ok(d: BlobDesc) -> bool {
    desc_name(d).len() <= 65535 && 1 <= d.ndim <= 2
}

/// The size of the blob-table entry of `d`.
pub open spec fn desc_entry_len(d: BlobDesc) -> int {
    2 + desc_name(d).len() + 2 + d.ndim * 4 + 48
}

/// The size of the blob table of `records`.
pub open spec fn descriptor_len_spec(records: Seq<BlobDesc>) -> int
    decreases records.len(),
{
    if records.len() == 0 {
        0
    } else {
        descriptor_len_spec(records.drop_last()) + desc_entry_len(records.last())
    }
}

/// The total payload size of `records`.
pub open spec fn payload_len_spec(records: Seq<BlobDesc>) -> int
    decreases records.len(),
{
    if records.len() == 0 {
        0
    } else {
        payload_len_spec(records.drop_last()) + records.last().payload@.len()
    }
}

/// Where payload `k` starts when the first starts at `start` and each is
/// followed by padding to a multiple of 16.
pub open spec fn payload_offset(records: Seq<BlobDesc>, start: int, k: int) -> int
    decreases k,
{
    if k <= 0 {
        start
    } else {
        align16(payload_offset(records, start, k - 1) + records[k - 1].payload@.len())
    }
}

/// Whether rounding the running payload offsets up never overflows: each
/// sum either fits with room for the rounding or exceeds `usize::MAX`.
pub open spec fn aligned_sums_defined(records: Seq<BlobDesc>, start: int, k: int) -> bool
    decreases k,
{
    if k <= 0 {
        true
    } else {
        aligned_sums_defined(records, start, k - 1) && {
            let c = payload_offset(records, start, k - 1) + records[k - 1].payload@.len();
            c > usize::MAX || c + 15 <= usize::MAX
        }
    }
}

/// Whether some running payload offset exceeds `usize::MAX`.
pub open spec fn aligned_sums_overflow(records: Seq<BlobDesc>, start: int, k: int) -> bool
    decreases k,
{
    if k <= 0 {
        false
    } else {
        aligned_sums_overflow(records, start, k - 1) || payload_offset(records, start, k - 1)
            + records[k - 1].payload@.len() > usize::MAX
    }
}

pub proof fn lemma_descriptor_len_monotone(records: Seq<BlobDesc>, k: int)
    requires
        0 <= k <= records.len(),
    ensures
        descriptor_len_spec(records.take(k)) <= descriptor_len_spec(records),
    decreases records.len(),
{
    if k < records.len() {
        assert(records.drop_last().take(k) =~= records.take(k));
        lemma_descriptor_len_monotone(records.drop_last(), k);
    } else {
        assert(records.take(k) =~= records);
    }
}

/// The size of the blob table of `records`.
pub fn descriptor_len(records: &[BlobDesc]) -> (r: Result<usize, RnnProtocolError>)
    ensures
        r is Ok <==> (forall|i: int| 0 <= i < records@.len() ==> desc_ok(#[trigger] records@[i]))
            && descriptor_len_spec(records@) <= usize::MAX,
        r matches Ok(n) ==> n == descriptor_len_spec(records@),
        r matches Err(e) ==> e == RnnProtocolError::BadHeader,
{
    let mut total: usize = 0;
    let mut i: usize = 0;
    assert(records@.take(0) =~= Seq::<BlobDesc>::empty());
    while i < records.len()
        invariant
            i <= records@.len(),
            forall|j: int| 0 <= j < i ==> desc_ok(#[trigger] records@[j]),
            total == descriptor_len_spec(records@.take(i as int)),
        decreases records@.len() - i,
    {
        let rec = records[i];
        proof {
            assert(records@.take(i + 1).drop_last() =~= records@.take(i as int));
        }
        let name_len = rec.name.as_bytes().len();
        if name_len > 65535 {
            return Err(RnnProtocolError::BadHeader);
        }
        if rec.ndim == 0 || rec.ndim > 2 {
            return Err(RnnProtocolError::BadHeader);
        }
        let entry = 2 + name_len + 2 + (rec.ndim as usize) * 4 + 48;
        if total > usize::MAX - entry {
            proof {
                lemma_descriptor_len_monotone(records@, i + 1);
            }
            return Err(RnnProtocolError::BadHeader);
        }
        total = total + entry;
        i = i + 1;
    }
    assert(records@.take(records@.len() as int) =~= records@);
    Ok(total)
}

proof fn lemma_payload_len_monotone(records: Seq<BlobDesc>, k: int)
    requires
        0 <= k <= records.len(),
    ensures
        payload_len_spec(records.take(k)) <= payload_len_spec(records),
    decreases records.len(),
{
    if k < records.len() {
        assert(records.drop_last().take(k) =~= records.take(k));
        lemma_payload_len_monotone(records.drop_last(), k);
    } else {
        assert(records.take(k) =~= records);
    }
}

/// The total payload size of `records`.
pub fn payload_total_len(records: &[BlobDesc]) -> (r: Result<usize, RnnProtocolError>)
    ensures
        r is Ok <==> payload_len_spec(records@) <= usize::MAX,
        r matches Ok(n) ==> n == payload_len_spec(records@),
        r matches Err(e) ==> e == RnnProtocolError::BadHeader,
{
    let mut total: usize = 0;
    let mut i: usize = 0;
    assert(records@.take(0) =~= Seq::<BlobDesc>::empty());
    while i < records.len()
        invariant
            i <= records@.len(),
            total == payload_len_spec(records@.take(i as int)),
        decreases records@.len() - i,
    {
        let rec = records[i];
        proof {
            assert(records@.take(i + 1).drop_last() =~= records@.take(i as int));
        }
        let len = rec.payload.len();
        if total > usize::MAX - len {
            proof {
                lemma_payload_len_monotone(records@, i + 1);
            }
            return Err(RnnProtocolError::BadHeader);
        }
        total = total + len;
        i = i + 1;
    }
    assert(records@.take(records@.len() as int) =~= records@);
    Ok(total)
}

/// The payload size of `records` with each payload padded to 16 bytes.
pub fn payload_total_len_aligned(records: &[BlobDesc]) -> (r: Result<usize, RnnProtocolError>)
    requires
        aligned_sums_defined(records@, 0, records@.len() as int),
    ensures
        r is Ok <==> !aligned_sums_overflow(records@, 0, records@.len() as int),
        r matches Ok(n) ==> n == payload_offset(records@, 0, records@.len() as int),
        r matches Err(e) ==> e == RnnProtocolError::BadHeader,
{
    let mut cursor: usize = 0;
    let mut i: usize = 0;
    while i < records.len()
        invariant
            i <= records@.len(),
            aligned_sums_defined(records@, 0, records@.len() as int),
            !aligned_sums_overflow(records@, 0, i as int),
            cursor == payload_offset(records@, 0, i as int),
        decreases records@.len() - i,
    {
        let len = records[i].payload.len();
        proof {
            lemma_sums_prefix(records@, 0, i + 1, records@.len() as int);
        }
        if cursor > usize::MAX - len {
            proof {
                lemma_overflow_persists(records@, 0, i + 1, records@.len() as int);
            }
            return Err(RnnProtocolError::BadHeader);
        }
        let c = cursor + len;
        cursor = align16_usize(c);
        i = i + 1;
    }
    Ok(cursor)
}

pub proof fn lemma_sums_prefix(records: Seq<BlobDesc>, start: int, k: int, n: int)
    requires
        0 <= k <= n,
        aligned_sums_defined(records, start, n),
    ensures
        aligned_sums_defined(records, start, k),
    decreases n - k,
{
    if k < n {
        lemma_sums_prefix(records, start, k, n - 1);
    }
}

pub proof fn lemma_overflow_persists(records: Seq<BlobDesc>, start: int, k: int, n: int)
    requires
        0 <= k <= n,
        aligned_sums_overflow(records, start, k),
    ensures
        aligned_sums_overflow(records, start, n),
    decreases n - k,
{
    if k < n {
        lemma_overflow_persists(records, start, k, n - 1);
    }
}

/// The size of the index of compressed blobs.
pub open spec fn viz_content_size_spec(records: Seq<BlobDesc>) -> int
    decreases records.len(),
{
    if records.len() == 0 {
        6
    } else {
        viz_content_size_spec(records.drop_last()) + 26 + desc_name(records.last()).len()
    }
}

} // verus!
