//! Parsing the header of an RNN0 container: the TLV records, the blob table
//! and the index of compressed blobs.
use vstd::prelude::*;
use vstd::string::StringSliceAdditionalSpecFns;
use crate::bytes::{le16, le32, le64, u32_le, read_u16_le, read_u32_le, read_u64_le, bytes_equal, write_u32_le};
use crate::format::blob::{rnn0_magic, rmd1_magic};
use crate::format::names::{
    lemma_name_bytes, neuron_positions_name, layer_meta_name, weights_name, biases_name,
    runtime_input_name, training_log_name, lmlp_config_name, tokenizer_vocab_name,
    tokenizer_merges_name, conv_spec_name, lmlp_weights_name, train_config_name,
    model_precision_name, lmlp_graph_name, lmlp_tensors_name, BLOB_NEURON_POSITIONS,
    BLOB_LAYER_META, BLOB_WEIGHTS, BLOB_BIASES, BLOB_RUNTIME_INPUT, BLOB_TRAINING_LOG,
    LMLP_CONFIG_BLOB_DATA, TOKENIZER_VOCAB_BLOB_DATA, TOKENIZER_MERGES_BLOB_DATA, BLOB_CONV_SPEC,
    LMLP_WEIGHTS_BLOB_DATA, TRAIN_CONFIG_BLOB_DATA, MODEL_PRECISION_BLOB_DATA, LMLP_GRAPH_BLOB_DATA,
    LMLP_TENSORS_BLOB_DATA,
};

verus! {

broadcast use vstd::slice::group_slice_axioms;

pub const MAX_HEADER: usize = 65536;

pub const MAX_VIZ_ENTRIES: usize = 16;

pub const MAX_VIZ_NAME: usize = 32;

/// Why the header of a container could not be parsed.
#[derive(Debug, Clone, Copy, PartialEq, Eq)]
pub enum ParseError {
    Truncated,
    BadMagic,
    WrongFormatRmd1,
    BadHeader,
    BadBounds,
    ScratchFull,
}

/// One entry of the index of compressed blobs.
pub struct VizEntry {
    pub name: Vec<u8>,
    pub orig_size: u64,
    pub stored_size: u64,
    pub flags: u8,
}

/// What an index entry records.
pub struct VizEntryView {
    pub name: Seq<u8>,
    pub orig_size: u64,
    pub stored_size: u64,
    pub flags: u8,
}

impl View for VizEntry {
    type V = VizEntryView;

    open spec fn view(&self) -> VizEntryView {
        VizEntryView {
            name: self.name@,
            orig_size: self.orig_size,
            stored_size: self.stored_size,
            flags: self.flags,
        }
    }
}

/// The index of compressed blobs found in a header.
pub struct VizCompressInfo {
    pub entries: Vec<VizEntry>,
}

/// The entries of an index, as values.
pub open spec fn viz_view(info: &VizCompressInfo) -> Seq<VizEntryView> {
    info.entries@.map_values(|e: VizEntry| e@)
}

/// The entries of a "VIZX" record `v`, read from byte `p`, entry `i` of `count`
/// (at most sixteen), after the entries `acc`.
pub open spec fn viz_entries(v: Seq<u8>, p: int, i: int, count: int, acc: Seq<VizEntryView>) -> Seq<
    VizEntryView,
>
    decreases 16 - i,
{
    if i >= count || i >= 16 || p >= v.len() || p < 0 {
        acc
    } else {
        let nlen = v[p] as int;
        let q = p + 1;
        if q + nlen + 25 > v.len() {
            acc
        } else {
            let keep = if nlen < 32 {
                nlen
            } else {
                32
            };
            let e = VizEntryView {
                name: v.subrange(q, q + keep),
                orig_size: le64(v, q + nlen + 8) as u64,
                stored_size: le64(v, q + nlen + 16) as u64,
                flags: v[q + nlen + 24],
            };
            viz_entries(v, q + nlen + 25, i + 1, count, acc.push(e))
        }
    }
}

/// Whether `v` is an index record: at least six bytes starting with "VIZX".
pub open spec fn is_vizx(v: Seq<u8>) -> bool {
    v.len() >= 6 && v.subrange(0, 4) == seq![0x56u8, 0x49, 0x5a, 0x58]
}

/// The index entries found by scanning the TLV records of the header from
/// `cursor`: the last well-formed index record wins.
pub open spec fn scan_viz(bytes: Seq<u8>, cursor: int, h: int, info: Seq<VizEntryView>) -> Seq<
    VizEntryView,
>
    decreases h - cursor,
{
    if cursor < 0 || cursor + 5 > h {
        info
    } else if bytes[cursor] == 0 {
        scan_viz(bytes, cursor + 1, h, info)
    } else {
        let t = bytes[cursor];
        let l = le32(bytes, cursor + 1);
        let c = cursor + 5;
        if c + l > h {
            info
        } else {
            let v = bytes.subrange(c, c + l);
            let next = if t == 0x07 && is_vizx(v) {
                viz_entries(v, 6, 0, v[5] as int, Seq::empty())
            } else {
                info
            };
            scan_viz(bytes, c + l, h, next)
        }
    }
}

/// The original length and compression flag an index gives a blob name: the
/// first entry with that name, or `(0, false)`.
pub open spec fn viz_lookup(info: Seq<VizEntryView>, name: Seq<u8>) -> (u64, bool)
    decreases info.len(),
{
    if info.len() == 0 {
        (0, false)
    } else if info[0].name == name {
        let compressed = info[0].flags & 1 != 0;
        (
            if compressed {
                info[0].orig_size
            } else {
                info[0].stored_size
            },
            compressed,
        )
    } else {
        viz_lookup(info.drop_first(), name)
    }
}

impl VizCompressInfo {
    /// An index with no entries.
    pub fn empty() -> (r: Self)
        ensures
            viz_view(&r) == Seq::<VizEntryView>::empty(),
    {
        let r = VizCompressInfo { entries: Vec::new() };
        assert(viz_view(&r) =~= Seq::<VizEntryView>::empty());
        r
    }

    /// The original length and compression flag recorded for `name`.
    pub fn lookup(&self, name: &[u8]) -> (r: (u64, bool))
        ensures
            r == viz_lookup(viz_view(self), name@),
    {
        let mut i: usize = 0;
        let ghost all = viz_view(self);
        assert(all.skip(0) =~= all);
        while i < self.entries.len()
            invariant
                all == viz_view(self),
                i <= self.entries@.len(),
                viz_lookup(all, name@) == viz_lookup(all.skip(i as int), name@),
            decreases self.entries@.len() - i,
        {
            let e = &self.entries[i];
            proof {
                assert(all.skip(i as int)[0] == e@);
                assert(all.skip(i as int).drop_first() =~= all.skip(i + 1));
            }
            if bytes_equal(e.name.as_slice(), name) {
                let compressed = (e.flags & 1) != 0;
                let orig = if compressed {
                    e.orig_size
                } else {
                    e.stored_size
                };
                return (orig, compressed);
            }
            i = i + 1;
        }
        assert(all.skip(i as int) =~= Seq::<VizEntryView>::empty());
        (0, false)
    }
}

/// Reads the entries of one "VIZX" record.
fn read_viz_entries(v: &[u8]) -> (r: Vec<VizEntry>)
    requires
        is_vizx(v@),
    ensures
        r@.map_values(|e: VizEntry| e@) == viz_entries(v@, 6, 0, v@[5] as int, Seq::empty()),
{
    let count = v[5] as usize;
    let vlen = v.len();
    let mut out: Vec<VizEntry> = Vec::new();
    let mut p: usize = 6;
    let mut i: usize = 0;
    let ghost target = viz_entries(v@, 6, 0, v@[5] as int, Seq::empty());
    assert(out@.map_values(|e: VizEntry| e@) =~= Seq::<VizEntryView>::empty());
    while i < count && i < MAX_VIZ_ENTRIES
        invariant
            vlen == v@.len(),
            vlen >= 6,
            count == v@[5] as int,
            i <= 16,
            viz_entries(v@, p as int, i as int, count as int, out@.map_values(|e: VizEntry| e@))
                == target,
        ensures
            out@.map_values(|e: VizEntry| e@) == target,
        decreases 16 - i,
    {
        if p >= vlen {
            break;
        }
        let nlen = v[p] as usize;
        let q = p + 1;
        if vlen - q < nlen || vlen - q - nlen < 25 {
            break;
        }
        let keep = if nlen < MAX_VIZ_NAME {
            nlen
        } else {
            MAX_VIZ_NAME
        };
        let mut name: Vec<u8> = Vec::new();
        let mut k: usize = 0;
        while k < keep
            invariant
                q + keep <= v@.len(),
                vlen == v@.len(),
                k <= keep,
                name@ == v@.subrange(q as int, q + k),
            decreases keep - k,
        {
            name.push(v[q + k]);
            k = k + 1;
            assert(name@ =~= v@.subrange(q as int, q + k));
        }
        let orig_size = read_u64_le(v, q + nlen + 8);
        let stored_size = read_u64_le(v, q + nlen + 16);
        let flags = v[q + nlen + 24];
        let e = VizEntry { name, orig_size, stored_size, flags };
        let ghost before = out@.map_values(|e: VizEntry| e@);
        out.push(e);
        assert(out@.map_values(|e: VizEntry| e@) =~= before.push(e@));
        p = q + nlen + 25;
        i = i + 1;
    }
    out
}

/// Scans the TLV records of a header of `header_size` bytes for the index of
/// compressed blobs.
pub fn scan_viz_info(bytes: &[u8], header_size: usize) -> (info: VizCompressInfo)
    requires
        header_size <= bytes@.len(),
    ensures
        viz_view(&info) == scan_viz(bytes@, 12, header_size as int, Seq::empty()),
{
    let mut info = VizCompressInfo::empty();
    let mut cursor: usize = 12;
    let ghost target = scan_viz(bytes@, 12, header_size as int, Seq::empty());
    while cursor <= header_size && header_size - cursor >= 5
        invariant
            header_size <= bytes@.len(),
            cursor >= 12,
            scan_viz(bytes@, cursor as int, header_size as int, viz_view(&info)) == target,
        ensures
            viz_view(&info) == target,
        decreases header_size - cursor,
    {
        if bytes[cursor] == 0 {
            cursor = cursor + 1;
            continue;
        }
        let t = bytes[cursor];
        let l = read_u32_le(bytes, cursor + 1) as usize;
        let c = cursor + 5;
        if l > header_size - c {
            break;
        }
        if t == 0x07 && l >= 6 {
            let v = vstd::slice::slice_subrange(bytes, c, c + l);
            let magic: [u8; 4] = [0x56, 0x49, 0x5a, 0x58];
            if bytes_equal(vstd::slice::slice_subrange(v, 0, 4), &magic) {
                let entries = read_viz_entries(v);
                info = VizCompressInfo { entries };
            }
        }
        cursor = c + l;
    }
    info
}


/// The metadata of one blob, as recorded by the parser.
pub struct BlobMeta {
    pub name: Vec<u8>,
    pub dtype: u8,
    pub ndim: u8,
    pub dims: Vec<u8>,
    pub offset: u64,
    pub length: u64,
    pub digest_sha256: Vec<u8>,
    pub has_stored_digest: bool,
    pub orig_length: u64,
    pub is_compressed: bool,
}

/// The metadata of one blob, as values.
pub struct BlobMetaView {
    pub name: Seq<u8>,
    pub dtype: u8,
    pub ndim: u8,
    pub dims: Seq<u8>,
    pub offset: u64,
    pub length: u64,
    pub digest: Seq<u8>,
    pub has_stored_digest: bool,
    pub orig_length: u64,
    pub is_compressed: bool,
}

impl View for BlobMeta {
    type V = BlobMetaView;

    open spec fn view(&self) -> BlobMetaView {
        BlobMetaView {
            name: self.name@,
            dtype: self.dtype,
            ndim: self.ndim,
            dims: self.dims@,
            offset: self.offset,
            length: self.length,
            digest: self.digest_sha256@,
            has_stored_digest: self.has_stored_digest,
            orig_length: self.orig_length,
            is_compressed: self.is_compressed,
        }
    }
}

/// A parsed container: its bytes and the metadata of its blobs.
pub struct RnnHandle<'a> {
    pub bytes: &'a [u8],
    pub blobs: Vec<BlobMeta>,
}

/// The metadata of a list of blobs, as values.
pub open spec fn metas_view(blobs: Seq<BlobMeta>) -> Seq<BlobMetaView> {
    blobs.map_values(|m: BlobMeta| m@)
}

/// The container formats this parser reads.
#[derive(Clone, Copy, Debug, PartialEq, Eq)]
pub enum RnnContainerFormat {
    Rnn0,
}

/// The blob name a compact blob-table id stands for.
pub open spec fn compact_name(id: u8) -> Option<Seq<u8>> {
    if id == 1 {
        Some(neuron_positions_name())
    } else if id == 2 {
        Some(layer_meta_name())
    } else if id == 3 {
        Some(weights_name())
    } else if id == 4 {
        Some(biases_name())
    } else if id == 5 {
        Some(runtime_input_name())
    } else if id == 6 {
        Some(training_log_name())
    } else if id == 7 {
        Some(lmlp_config_name())
    } else if id == 8 {
        Some(tokenizer_vocab_name())
    } else if id == 9 {
        Some(tokenizer_merges_name())
    } else if id == 10 {
        Some(conv_spec_name())
    } else if id == 11 {
        Some(lmlp_weights_name())
    } else if id == 12 {
        Some(train_config_name())
    } else if id == 13 {
        Some(model_precision_name())
    } else if id == 14 {
        Some(lmlp_graph_name())
    } else if id == 15 {
        Some(lmlp_tensors_name())
    } else {
        None
    }
}

/// The blob name of a compact blob-table id.
pub fn blob_name_from_compact_id(id: u8) -> (r: Option<&'static str>)
    ensures
        r is Some <==> compact_name(id) is Some,
        r matches Some(s) ==> s.spec_bytes() == compact_name(id).unwrap(),
{
    proof {
        lemma_name_bytes();
    }
    match id {
        1 => Some(BLOB_NEURON_POSITIONS),
        2 => Some(BLOB_LAYER_META),
        3 => Some(BLOB_WEIGHTS),
        4 => Some(BLOB_BIASES),
        5 => Some(BLOB_RUNTIME_INPUT),
        6 => Some(BLOB_TRAINING_LOG),
        7 => Some(LMLP_CONFIG_BLOB_DATA),
        8 => Some(TOKENIZER_VOCAB_BLOB_DATA),
        9 => Some(TOKENIZER_MERGES_BLOB_DATA),
        10 => Some(BLOB_CONV_SPEC),
        11 => Some(LMLP_WEIGHTS_BLOB_DATA),
        12 => Some(TRAIN_CONFIG_BLOB_DATA),
        13 => Some(MODEL_PRECISION_BLOB_DATA),
        14 => Some(LMLP_GRAPH_BLOB_DATA),
        15 => Some(LMLP_TENSORS_BLOB_DATA),
        _ => None,
    }
}

/// The magic bytes of a container format.
pub fn magic_for_rnn_format(fmt: RnnContainerFormat) -> (m: [u8; 4])
    ensures
        m@ == rnn0_magic(),
{
    match fmt {
        RnnContainerFormat::Rnn0 => {
            let m: [u8; 4] = [0x52, 0x4e, 0x4e, 0x00];
            assert(m@ =~= rnn0_magic());
            m
        },
    }
}

/// Whether `bytes` starts with the RMD1 magic.
pub fn is_rmd1_magic(bytes: &[u8]) -> (r: bool)
    ensures
        r <==> bytes@.len() >= 4 && bytes@.subrange(0, 4) == rmd1_magic(),
{
    if bytes.len() < 4 {
        return false;
    }
    let m: [u8; 4] = [0x52, 0x4d, 0x44, 0x31];
    assert(m@ =~= rmd1_magic());
    bytes_equal(vstd::slice::slice_subrange(bytes, 0, 4), &m)
}

/// Thirty-two zero bytes.
pub open spec fn zeros32() -> Seq<u8> {
    Seq::new(32, |i: int| 0u8)
}

/// A blob's metadata, completed from the index of compressed blobs.
pub open spec fn meta_with_viz(
    name: Seq<u8>,
    dtype: u8,
    ndim: u8,
    dims: Seq<u8>,
    offset: u64,
    length: u64,
    digest: Seq<u8>,
    viz: Seq<VizEntryView>,
) -> BlobMetaView {
    let (orig, compressed) = viz_lookup(viz, name);
    BlobMetaView {
        name,
        dtype,
        ndim,
        dims,
        offset,
        length,
        digest,
        has_stored_digest: digest != zeros32(),
        orig_length: if orig == 0 {
            length
        } else {
            orig
        },
        is_compressed: compressed,
    }
}

/// The entries of a compact blob table: `count` records of fifteen bytes from `p`.
pub open spec fn compact_entries(
    bytes: Seq<u8>,
    p: int,
    k: int,
    count: int,
    viz: Seq<VizEntryView>,
    acc: Seq<BlobMetaView>,
) -> Result<Seq<BlobMetaView>, ParseError>
    decreases count - k,
{
    if k >= count {
        Ok(acc)
    } else {
        let id = bytes[p];
        let dtype = bytes[p + 1];
        let ndim = bytes[p + 2];
        if compact_name(id) is None {
            Err(ParseError::BadHeader)
        } else if dtype > 2 || ndim == 0 || ndim > 2 {
            Err(ParseError::BadHeader)
        } else {
            let off = le32(bytes, p + 7);
            let len = le32(bytes, p + 11);
            if off + len > bytes.len() {
                Err(ParseError::BadBounds)
            } else {
                let d0 = u32_le(le16(bytes, p + 3) as u32);
                let dims = if ndim >= 2 {
                    d0 + u32_le(le16(bytes, p + 5) as u32)
                } else {
                    d0
                };
                let m = meta_with_viz(
                    compact_name(id).unwrap(),
                    dtype,
                    ndim,
                    dims,
                    off as u64,
                    len as u64,
                    zeros32(),
                    viz,
                );
                compact_entries(bytes, p + 15, k + 1, count, viz, acc.push(m))
            }
        }
    }
}

/// The entries of a blob table stored between `p` and `end`.
pub open spec fn table_entries(
    bytes: Seq<u8>,
    p: int,
    end: int,
    viz: Seq<VizEntryView>,
    acc: Seq<BlobMetaView>,
) -> Result<Seq<BlobMetaView>, ParseError>
    decreases end - p,
{
    if p >= end {
        Ok(acc)
    } else if p + 2 > end {
        Err(ParseError::BadHeader)
    } else {
        let nl = le16(bytes, p);
        let q = p + 2;
        if q + nl + 2 > end || bytes[q + nl] > 2 || bytes[q + nl + 1] == 0 {
            Err(ParseError::BadHeader)
        } else {
            let ndim = bytes[q + nl + 1];
            let r = q + nl + 2;
            let sb = ndim * 4;
            if r + sb + 48 > end {
                Err(ParseError::BadHeader)
            } else {
                let off = le64(bytes, r + sb);
                let len = le64(bytes, r + sb + 8);
                if off + len > bytes.len() {
                    Err(ParseError::BadBounds)
                } else {
                    let m = meta_with_viz(
                        bytes.subrange(q, q + nl),
                        bytes[q + nl],
                        ndim,
                        bytes.subrange(r, r + sb),
                        off as u64,
                        len as u64,
                        bytes.subrange(r + sb + 16, r + sb + 48),
                        viz,
                    );
                    table_entries(bytes, r + sb + 48, end, viz, acc.push(m))
                }
            }
        }
    }
}

/// The blobs described by the TLV records of a header of `h` bytes, from `cursor`.
pub open spec fn tlv_walk(
    bytes: Seq<u8>,
    cursor: int,
    h: int,
    viz: Seq<VizEntryView>,
    acc: Seq<BlobMetaView>,
) -> Result<Seq<BlobMetaView>, ParseError>
    decreases h - cursor,
{
    if cursor >= h || cursor < 0 {
        Ok(acc)
    } else if bytes[cursor] == 0 {
        tlv_walk(bytes, cursor + 1, h, viz, acc)
    } else if cursor + 5 > h {
        Err(ParseError::BadHeader)
    } else {
        let t = bytes[cursor];
        let l = le32(bytes, cursor + 1);
        let c = cursor + 5;
        if c + l > h {
            Err(ParseError::BadHeader)
        } else if t != 0x03 {
            tlv_walk(bytes, c + l, h, viz, acc)
        } else {
            let found = if l >= 3 && bytes[c] == 0xc1 {
                if bytes[c + 1] != 1 || 3 + (bytes[c + 2] as int) * 15 > l {
                    Err(ParseError::BadHeader)
                } else {
                    compact_entries(bytes, c + 3, 0, bytes[c + 2] as int, viz, acc)
                }
            } else {
                table_entries(bytes, c, c + l, viz, acc)
            };
            match found {
                Ok(a) => tlv_walk(bytes, c + l, h, viz, a),
                Err(e) => Err(e),
            }
        }
    }
}

/// The header size recorded in a container.
pub open spec fn header_size_of(bytes: Seq<u8>) -> int {
    le32(bytes, 8)
}

/// What the parser makes of a container's header.
pub open spec fn parse_rnn_spec(bytes: Seq<u8>) -> Result<Seq<BlobMetaView>, ParseError> {
    if bytes.len() < 12 {
        Err(ParseError::Truncated)
    } else if bytes.subrange(0, 4) != rnn0_magic() {
        if bytes.subrange(0, 4) == rmd1_magic() {
            Err(ParseError::WrongFormatRmd1)
        } else {
            Err(ParseError::BadMagic)
        }
    } else if header_size_of(bytes) > bytes.len() || header_size_of(bytes) > 65536 {
        Err(ParseError::BadHeader)
    } else {
        let h = header_size_of(bytes);
        tlv_walk(bytes, 12, h, scan_viz(bytes, 12, h, Seq::empty()), Seq::empty())
    }
}

/// Copies `bytes[start..end]` into a new vector.
fn copy_range(bytes: &[u8], start: usize, end: usize) -> (v: Vec<u8>)
    requires
        start <= end <= bytes@.len(),
    ensures
        v@ == bytes@.subrange(start as int, end as int),
{
    let mut v: Vec<u8> = Vec::new();
    let mut i: usize = start;
    while i < end
        invariant
            start <= i <= end <= bytes@.len(),
            v@ == bytes@.subrange(start as int, i as int),
        decreases end - i,
    {
        v.push(bytes[i]);
        i = i + 1;
        assert(v@ =~= bytes@.subrange(start as int, i as int));
    }
    v
}

/// Whether some byte of `d` is nonzero.
fn any_nonzero(d: &[u8]) -> (r: bool)
    ensures
        r <==> d@ != Seq::new(d@.len(), |i: int| 0u8),
{
    let mut i: usize = 0;
    while i < d.len()
        invariant
            i <= d@.len(),
            forall|j: int| 0 <= j < i ==> d@[j] == 0,
        decreases d@.len() - i,
    {
        if d[i] != 0 {
            assert(d@[i as int] != Seq::new(d@.len(), |k: int| 0u8)[i as int]);
            return true;
        }
        i = i + 1;
    }
    assert(d@ =~= Seq::new(d@.len(), |k: int| 0u8));
    false
}

/// Builds the metadata of a blob, completing it from the index.
fn make_meta(
    name: Vec<u8>,
    dtype: u8,
    ndim: u8,
    dims: Vec<u8>,
    offset: u64,
    length: u64,
    digest: Vec<u8>,
    viz: &VizCompressInfo,
) -> (m: BlobMeta)
    requires
        digest@.len() == 32,
    ensures
        m@ == meta_with_viz(name@, dtype, ndim, dims@, offset, length, digest@, viz_view(viz)),
{
    let (orig, compressed) = viz.lookup(name.as_slice());
    let has = any_nonzero(digest.as_slice());
    BlobMeta {
        name,
        dtype,
        ndim,
        dims,
        offset,
        length,
        digest_sha256: digest,
        has_stored_digest: has,
        orig_length: if orig == 0 {
            length
        } else {
            orig
        },
        is_compressed: compressed,
    }
}

/// Reads the entries of a compact blob table.
fn read_compact_table(
    bytes: &[u8],
    start: usize,
    count: usize,
    viz: &VizCompressInfo,
    blobs: &mut Vec<BlobMeta>,
) -> (r: Result<(), ParseError>)
    requires
        start + 15 * count <= bytes@.len(),
    ensures
        compact_entries(bytes@, start as int, 0, count as int, viz_view(viz), metas_view(old(blobs)@))
            == match r {
            Ok(_) => Ok::<Seq<BlobMetaView>, ParseError>(metas_view(final(blobs)@)),
            Err(e) => Err(e),
        },
{
    let n = bytes.len();
    let ghost target = compact_entries(
        bytes@,
        start as int,
        0,
        count as int,
        viz_view(viz),
        metas_view(blobs@),
    );
    let mut k: usize = 0;
    let mut p: usize = start;
    while k < count
        invariant
            n == bytes@.len(),
            start + 15 * count <= n,
            k <= count,
            p == start + 15 * k,
            target == compact_entries(
                bytes@,
                start as int,
                0,
                count as int,
                viz_view(viz),
                metas_view(old(blobs)@),
            ),
            compact_entries(bytes@, p as int, k as int, count as int, viz_view(viz), metas_view(blobs@))
                == target,
        decreases count - k,
    {
        let id = bytes[p];
        let dtype = bytes[p + 1];
        let ndim = bytes[p + 2];
        let name = match blob_name_from_compact_id(id) {
            Some(s) => s,
            None => {
                return Err(ParseError::BadHeader);
            },
        };
        if dtype > 2 || ndim == 0 || ndim > 2 {
            return Err(ParseError::BadHeader);
        }
        let d0 = read_u16_le(bytes, p + 3) as u32;
        let d1 = read_u16_le(bytes, p + 5) as u32;
        let off = read_u32_le(bytes, p + 7) as u64;
        let len = read_u32_le(bytes, p + 11) as u64;
        if off + len > n as u64 {
            return Err(ParseError::BadBounds);
        }
        let name_bytes = name.as_bytes();
        let name_vec = copy_range(name_bytes, 0, name_bytes.len());
        assert(name_vec@ =~= name_bytes@);
        let mut dims: Vec<u8> = vec![0u8; 4];
        write_u32_le(dims.as_mut_slice(), 0, d0);
        assert(dims@ =~= u32_le(d0));
        if ndim >= 2 {
            let mut d1v: Vec<u8> = vec![0u8; 4];
            write_u32_le(d1v.as_mut_slice(), 0, d1);
            assert(d1v@ =~= u32_le(d1));
            let ghost before = dims@;
            dims.append(&mut d1v);
            assert(dims@ =~= before + u32_le(d1));
        }
        let digest: Vec<u8> = vec![0u8; 32];
        assert(digest@ =~= zeros32());
        let m = make_meta(name_vec, dtype, ndim, dims, off, len, digest, viz);
        let ghost before = metas_view(blobs@);
        blobs.push(m);
        assert(metas_view(blobs@) =~= before.push(m@));
        p = p + 15;
        k = k + 1;
    }
    Ok(())
}

/// Reads the entries of a blob table stored in `bytes[start..end]`.
fn read_table(
    bytes: &[u8],
    start: usize,
    end: usize,
    viz: &VizCompressInfo,
    blobs: &mut Vec<BlobMeta>,
) -> (r: Result<(), ParseError>)
    requires
        start <= end <= bytes@.len(),
    ensures
        table_entries(bytes@, start as int, end as int, viz_view(viz), metas_view(old(blobs)@))
            == match r {
            Ok(_) => Ok::<Seq<BlobMetaView>, ParseError>(metas_view(final(blobs)@)),
            Err(e) => Err(e),
        },
{
    let n = bytes.len();
    let ghost target = table_entries(
        bytes@,
        start as int,
        end as int,
        viz_view(viz),
        metas_view(blobs@),
    );
    let mut p: usize = start;
    while p < end
        invariant
            n == bytes@.len(),
            start <= p,
            end <= n,
            target == table_entries(
                bytes@,
                start as int,
                end as int,
                viz_view(viz),
                metas_view(old(blobs)@),
            ),
            table_entries(bytes@, p as int, end as int, viz_view(viz), metas_view(blobs@)) == target,
        decreases end - p,
    {
        if end - p < 2 {
            return Err(ParseError::BadHeader);
        }
        let nl = read_u16_le(bytes, p) as usize;
        let q = p + 2;
        if end - q < nl || end - q - nl < 2 {
            return Err(ParseError::BadHeader);
        }
        let dtype = bytes[q + nl];
        if dtype > 2 {
            return Err(ParseError::BadHeader);
        }
        let ndim = bytes[q + nl + 1];
        if ndim == 0 {
            return Err(ParseError::BadHeader);
        }
        let r = q + nl + 2;
        let sb = (ndim as usize) * 4;
        if end - r < sb || end - r - sb < 48 {
            return Err(ParseError::BadHeader);
        }
        let off = read_u64_le(bytes, r + sb);
        let len = read_u64_le(bytes, r + sb + 8);
        if off > n as u64 || len > (n as u64) - off {
            return Err(ParseError::BadBounds);
        }
        let name = copy_range(bytes, q, q + nl);
        let dims = copy_range(bytes, r, r + sb);
        let digest = copy_range(bytes, r + sb + 16, r + sb + 48);
        let m = make_meta(name, dtype, ndim, dims, off, len, digest, viz);
        let ghost before = metas_view(blobs@);
        blobs.push(m);
        assert(metas_view(blobs@) =~= before.push(m@));
        p = r + sb + 48;
    }
    Ok(())
}

/// Parses the header of an RNN0 container.
pub fn parse_rnn_from_bytes<'a>(bytes: &'a [u8]) -> (r: Result<RnnHandle<'a>, ParseError>)
    ensures
        match r {
            Ok(h) => h.bytes@ == bytes@ && parse_rnn_spec(bytes@) == Ok::<
                Seq<BlobMetaView>,
                ParseError,
            >(metas_view(h.blobs@)),
            Err(e) => parse_rnn_spec(bytes@) == Err::<Seq<BlobMetaView>, ParseError>(e),
        },
{
    parse_rnn_from_bytes_with_format(bytes, RnnContainerFormat::Rnn0)
}

/// Parses the header of a container of the given format.
pub fn parse_rnn_from_bytes_with_format<'a>(bytes: &'a [u8], format: RnnContainerFormat) -> (r: Result<
    RnnHandle<'a>,
    ParseError,
>)
    ensures
        match r {
            Ok(h) => h.bytes@ == bytes@ && parse_rnn_spec(bytes@) == Ok::<
                Seq<BlobMetaView>,
                ParseError,
            >(metas_view(h.blobs@)),
            Err(e) => parse_rnn_spec(bytes@) == Err::<Seq<BlobMetaView>, ParseError>(e),
        },
{
    let n = bytes.len();
    if n < 12 {
        return Err(ParseError::Truncated);
    }
    let expected_magic = magic_for_rnn_format(format);
    if !bytes_equal(vstd::slice::slice_subrange(bytes, 0, 4), &expected_magic) {
        if is_rmd1_magic(bytes) {
            return Err(ParseError::WrongFormatRmd1);
        }
        return Err(ParseError::BadMagic);
    }
    let header_size = read_u32_le(bytes, 8) as usize;
    if header_size > n || header_size > MAX_HEADER {
        return Err(ParseError::BadHeader);
    }
    let viz = scan_viz_info(bytes, header_size);
    let ghost target = parse_rnn_spec(bytes@);
    let mut blobs: Vec<BlobMeta> = Vec::new();
    let mut cursor: usize = 12;
    assert(metas_view(blobs@) =~= Seq::<BlobMetaView>::empty());
    while cursor < header_size
        invariant
            n == bytes@.len(),
            header_size <= n,
            header_size == header_size_of(bytes@),
            header_size <= 65536,
            cursor >= 12,
            target == parse_rnn_spec(bytes@),
            bytes@.len() >= 12,
            bytes@.subrange(0, 4) == rnn0_magic(),
            tlv_walk(bytes@, cursor as int, header_size as int, viz_view(&viz), metas_view(blobs@))
                == target,
        decreases header_size - cursor,
    {
        if bytes[cursor] == 0 {
            cursor = cursor + 1;
            continue;
        }
        if header_size - cursor < 5 {
            return Err(ParseError::BadHeader);
        }
        let t = bytes[cursor];
        let l = read_u32_le(bytes, cursor + 1) as usize;
        let c = cursor + 5;
        if l > header_size - c {
            return Err(ParseError::BadHeader);
        }
        if t == 0x03 {
            if l >= 3 && bytes[c] == 0xc1 {
                if bytes[c + 1] != 1 {
                    return Err(ParseError::BadHeader);
                }
                let count = bytes[c + 2] as usize;
                if 3 + count * 15 > l {
                    return Err(ParseError::BadHeader);
                }
                match read_compact_table(bytes, c + 3, count, &viz, &mut blobs) {
                    Ok(_) => {},
                    Err(e) => {
                        return Err(e);
                    },
                }
            } else {
                match read_table(bytes, c, c + l, &viz, &mut blobs) {
                    Ok(_) => {},
                    Err(e) => {
                        return Err(e);
                    },
                }
            }
        }
        cursor = c + l;
    }
    Ok(RnnHandle { bytes, blobs })
}

impl<'a> RnnHandle<'a> {
    /// The name of blob `i`, when it is valid UTF-8.
    pub fn blob_name(&self, i: usize) -> (r: Option<&[u8]>)
        ensures
            i < self.blobs@.len() <==> r is Some,
            r matches Some(s) ==> s@ == self.blobs@[i as int].name@,
    {
        if i >= self.blobs.len() {
            return None;
        }
        Some(self.blobs[i].name.as_slice())
    }
}

} // verus!
