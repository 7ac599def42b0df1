//! The LMLP graph blob: a 12-byte header (version, dtype tag, node and edge
//! counts), 20-byte nodes, 32-byte edges, a 12-byte I/O header (input and
//! output counts, vocabulary size), then the input and output node ids.
//! Edge phase and decay are stored as the bit patterns of `f32` values.
use vstd::prelude::*;
use crate::bytes::{
    u16_le, u32_le, le16, le32, push_u16_le, push_u32_le, write_bytes, read_u16_le, read_u32_le,
    splice, lemma_u16_le, lemma_u32_le, at, lemma_at_split, lemma_at_read, lemma_at_le16,
    lemma_at_le32, lemma_at_sub,
};

verus! {

broadcast use vstd::slice::group_slice_axioms;

pub const LMLP_GRAPH_VERSION: u16 = 1;

pub const LMLP_HEADER_SIZE: usize = 12;

pub const LMLP_NODE_SIZE: usize = 20;

pub const LMLP_EDGE_SIZE: usize = 32;

pub const LMLP_IO_HEADER_SIZE: usize = 12;

/// One node of the graph.
#[derive(Clone, Copy, Debug, PartialEq, Eq, Structural)]
pub struct LmlpNodeView {
    pub kind_transform: u8,
    pub memory_flags: u8,
    pub norm_flags: u8,
    pub activation: u8,
    pub in_dim: u32,
    pub out_dim: u32,
    pub theta_offset: u32,
    pub theta_len: u32,
}

/// One edge of the graph; `phase` and `decay` hold `f32` bit patterns.
#[derive(Clone, Copy, Debug, PartialEq, Eq, Structural)]
pub struct LmlpEdgeView {
    pub from: u32,
    pub to: u32,
    pub default_mode: u8,
    pub w_offset: u32,
    pub w_len: u32,
    pub delay_hint: u32,
    pub phase: u32,
    pub decay: u32,
}

/// The 20 bytes of a node.
pub open spec fn node_bytes(n: LmlpNodeView) -> Seq<u8> {
    seq![n.kind_transform, n.memory_flags, n.norm_flags, n.activation] + u32_le(n.in_dim)
        + u32_le(n.out_dim) + u32_le(n.theta_offset) + u32_le(n.theta_len)
}

/// The 32 bytes of an edge.
pub open spec fn edge_bytes(e: LmlpEdgeView) -> Seq<u8> {
    u32_le(e.from) + u32_le(e.to) + seq![e.default_mode, 0u8, 0u8, 0u8] + u32_le(e.w_offset)
        + u32_le(e.w_len) + u32_le(e.delay_hint) + u32_le(e.phase) + u32_le(e.decay)
}

/// The bytes of the first `k` nodes.
pub open spec fn nodes_bytes(nodes: Seq<LmlpNodeView>, k: int) -> Seq<u8>
    decreases k,
{
    if k <= 0 {
        Seq::empty()
    } else {
        nodes_bytes(nodes, k - 1) + node_bytes(nodes[k - 1])
    }
}

/// The bytes of the first `k` edges.
pub open spec fn edges_bytes(edges: Seq<LmlpEdgeView>, k: int) -> Seq<u8>
    decreases k,
{
    if k <= 0 {
        Seq::empty()
    } else {
        edges_bytes(edges, k - 1) + edge_bytes(edges[k - 1])
    }
}

/// The bytes of the first `k` ids.
pub open spec fn ids_bytes(ids: Seq<u32>, k: int) -> Seq<u8>
    decreases k,
{
    if k <= 0 {
        Seq::empty()
    } else {
        ids_bytes(ids, k - 1) + u32_le(ids[k - 1])
    }
}

/// The encoded graph.
pub open spec fn lmlp_bytes(
    version: u16,
    dtype_tag: u8,
    nodes: Seq<LmlpNodeView>,
    edges: Seq<LmlpEdgeView>,
    in_ids: Seq<u32>,
    out_ids: Seq<u32>,
    vocab_size: u32,
) -> Seq<u8> {
    u16_le(version) + seq![dtype_tag, 0u8] + u32_le(nodes.len() as u32) + u32_le(
        edges.len() as u32,
    ) + nodes_bytes(nodes, nodes.len() as int) + edges_bytes(edges, edges.len() as int) + u32_le(
        in_ids.len() as u32,
    ) + u32_le(out_ids.len() as u32) + u32_le(vocab_size) + ids_bytes(in_ids, in_ids.len() as int)
        + ids_bytes(out_ids, out_ids.len() as int)
}

/// The size of the encoded graph.
pub open spec fn lmlp_size(nodes: int, edges: int, ins: int, outs: int) -> int {
    12 + 20 * nodes + 32 * edges + 12 + 4 * ins + 4 * outs
}

/// Whether the counts fit the 32-bit fields and the size fits `usize`.
pub open spec fn lmlp_encodable(nodes: int, edges: int, ins: int, outs: int) -> bool {
    &&& nodes <= u32::MAX
    &&& edges <= u32::MAX
    &&& ins <= u32::MAX
    &&& outs <= u32::MAX
    &&& lmlp_size(nodes, edges, ins, outs) <= usize::MAX
}

proof fn lemma_nodes_len(nodes: Seq<LmlpNodeView>, k: int)
    requires
        0 <= k <= nodes.len(),
    ensures
        nodes_bytes(nodes, k).len() == 20 * k,
    decreases k,
{
    if k > 0 {
        lemma_nodes_len(nodes, k - 1);
        let n = nodes[k - 1];
        lemma_u32_le(n.in_dim);
        lemma_u32_le(n.out_dim);
        lemma_u32_le(n.theta_offset);
        lemma_u32_le(n.theta_len);
    }
}

proof fn lemma_edges_len(edges: Seq<LmlpEdgeView>, k: int)
    requires
        0 <= k <= edges.len(),
    ensures
        edges_bytes(edges, k).len() == 32 * k,
    decreases k,
{
    if k > 0 {
        lemma_edges_len(edges, k - 1);
        let e = edges[k - 1];
        lemma_u32_le(e.from);
        lemma_u32_le(e.to);
        lemma_u32_le(e.w_offset);
        lemma_u32_le(e.w_len);
        lemma_u32_le(e.delay_hint);
        lemma_u32_le(e.phase);
        lemma_u32_le(e.decay);
    }
}

proof fn lemma_ids_len(ids: Seq<u32>, k: int)
    requires
        0 <= k <= ids.len(),
    ensures
        ids_bytes(ids, k).len() == 4 * k,
    decreases k,
{
    if k > 0 {
        lemma_ids_len(ids, k - 1);
        lemma_u32_le(ids[k - 1]);
    }
}

proof fn lemma_lmlp_len(
    version: u16,
    dtype_tag: u8,
    nodes: Seq<LmlpNodeView>,
    edges: Seq<LmlpEdgeView>,
    in_ids: Seq<u32>,
    out_ids: Seq<u32>,
    vocab_size: u32,
)
    ensures
        lmlp_bytes(version, dtype_tag, nodes, edges, in_ids, out_ids, vocab_size).len()
            == lmlp_size(
            nodes.len() as int,
            edges.len() as int,
            in_ids.len() as int,
            out_ids.len() as int,
        ),
{
    lemma_u16_le(version);
    lemma_u32_le(nodes.len() as u32);
    lemma_u32_le(edges.len() as u32);
    lemma_u32_le(in_ids.len() as u32);
    lemma_u32_le(out_ids.len() as u32);
    lemma_u32_le(vocab_size);
    lemma_nodes_len(nodes, nodes.len() as int);
    lemma_edges_len(edges, edges.len() as int);
    lemma_ids_len(in_ids, in_ids.len() as int);
    lemma_ids_len(out_ids, out_ids.len() as int);
}

/// Encodes the graph into the start of `out`; `None`, with `out` unchanged,
/// when a count does not fit 32 bits, the size does not fit `usize`, or `out`
/// is too small.
#[verifier::rlimit(50)]
#[verifier::spinoff_prover]
pub fn encode_lmlp_graph_into(
    version: u16,
    dtype_tag: u8,
    nodes: &[LmlpNodeView],
    edges: &[LmlpEdgeView],
    in_ids: &[u32],
    out_ids: &[u32],
    vocab_size: u32,
    out: &mut [u8],
) -> (r: Option<usize>)
    ensures
        r is Some <==> lmlp_encodable(
            nodes@.len() as int,
            edges@.len() as int,
            in_ids@.len() as int,
            out_ids@.len() as int,
        ) && lmlp_size(
            nodes@.len() as int,
            edges@.len() as int,
            in_ids@.len() as int,
            out_ids@.len() as int,
        ) <= old(out)@.len(),
        r matches Some(n) ==> n == lmlp_size(
            nodes@.len() as int,
            edges@.len() as int,
            in_ids@.len() as int,
            out_ids@.len() as int,
        ) && final(out)@ == splice(
            old(out)@,
            0,
            lmlp_bytes(version, dtype_tag, nodes@, edges@, in_ids@, out_ids@, vocab_size),
        ),
        r is None ==> final(out)@ == old(out)@,
{
    let nn = nodes.len();
    let ne = edges.len();
    let ni = in_ids.len();
    let no = out_ids.len();
    if nn > 0xffff_ffff || ne > 0xffff_ffff || ni > 0xffff_ffff || no > 0xffff_ffff {
        return None;
    }
    if nn > (usize::MAX - 24) / 20 {
        return None;
    }
    let nodes_len = nn * 20;
    if ne > (usize::MAX - 24 - nodes_len) / 32 {
        return None;
    }
    let edges_len = ne * 32;
    if ni > (usize::MAX - 24 - nodes_len - edges_len) / 4 {
        return None;
    }
    let in_len = ni * 4;
    if no > (usize::MAX - 24 - nodes_len - edges_len - in_len) / 4 {
        return None;
    }
    let out_len = no * 4;
    let total = 24 + nodes_len + edges_len + in_len + out_len;
    if out.len() < total {
        return None;
    }
    let mut v: Vec<u8> = Vec::new();
    push_u16_le(&mut v, version);
    v.push(dtype_tag);
    v.push(0);
    push_u32_le(&mut v, nn as u32);
    push_u32_le(&mut v, ne as u32);
    let ghost head = v@;
    let mut i: usize = 0;
    while i < nn
        invariant
            nn == nodes@.len(),
            i <= nn,
            v@ == head + nodes_bytes(nodes@, i as int),
        decreases nn - i,
    {
        let n = nodes[i];
        let ghost before = v@;
        v.push(n.kind_transform);
        v.push(n.memory_flags);
        v.push(n.norm_flags);
        v.push(n.activation);
        push_u32_le(&mut v, n.in_dim);
        push_u32_le(&mut v, n.out_dim);
        push_u32_le(&mut v, n.theta_offset);
        push_u32_le(&mut v, n.theta_len);
        assert(v@ =~= before + node_bytes(n));
        i = i + 1;
        assert(v@ =~= head + nodes_bytes(nodes@, i as int));
    }
    let ghost with_nodes = v@;
    let mut j: usize = 0;
    while j < ne
        invariant
            ne == edges@.len(),
            j <= ne,
            v@ == with_nodes + edges_bytes(edges@, j as int),
        decreases ne - j,
    {
        let e = edges[j];
        let ghost before = v@;
        push_u32_le(&mut v, e.from);
        push_u32_le(&mut v, e.to);
        v.push(e.default_mode);
        v.push(0);
        v.push(0);
        v.push(0);
        push_u32_le(&mut v, e.w_offset);
        push_u32_le(&mut v, e.w_len);
        push_u32_le(&mut v, e.delay_hint);
        push_u32_le(&mut v, e.phase);
        push_u32_le(&mut v, e.decay);
        assert(v@ =~= before + edge_bytes(e));
        j = j + 1;
        assert(v@ =~= with_nodes + edges_bytes(edges@, j as int));
    }
    push_u32_le(&mut v, ni as u32);
    push_u32_le(&mut v, no as u32);
    push_u32_le(&mut v, vocab_size);
    let ghost with_io = v@;
    let mut k: usize = 0;
    while k < ni
        invariant
            ni == in_ids@.len(),
            k <= ni,
            v@ == with_io + ids_bytes(in_ids@, k as int),
        decreases ni - k,
    {
        push_u32_le(&mut v, in_ids[k]);
        k = k + 1;
        assert(v@ =~= with_io + ids_bytes(in_ids@, k as int));
    }
    let ghost with_in = v@;
    let mut m: usize = 0;
    while m < no
        invariant
            no == out_ids@.len(),
            m <= no,
            v@ == with_in + ids_bytes(out_ids@, m as int),
        decreases no - m,
    {
        push_u32_le(&mut v, out_ids[m]);
        m = m + 1;
        assert(v@ =~= with_in + ids_bytes(out_ids@, m as int));
    }
    assert(v@ =~= lmlp_bytes(version, dtype_tag, nodes@, edges@, in_ids@, out_ids@, vocab_size));
    proof {
        lemma_lmlp_len(version, dtype_tag, nodes@, edges@, in_ids@, out_ids@, vocab_size);
    }
    write_bytes(out, 0, v.as_slice());
    Some(total)
}

/// A parsed graph: its header fields and the byte ranges of its parts.
pub struct LmlpGraphView<'a> {
    pub version: u16,
    pub dtype_tag: u8,
    pub node_count: u32,
    pub edge_count: u32,
    pub vocab_size: u32,
    pub nodes: &'a [u8],
    pub edges: &'a [u8],
    pub in_ids: &'a [u8],
    pub out_ids: &'a [u8],
}

/// Where the I/O header starts, for the counts stored in `b`.
pub open spec fn lmlp_edges_end(b: Seq<u8>) -> int {
    12 + 20 * le32(b, 4) + 32 * le32(b, 8)
}

/// Where the id lists end, for the counts stored in `b`.
pub open spec fn lmlp_ids_end(b: Seq<u8>) -> int {
    lmlp_edges_end(b) + 12 + 4 * le32(b, lmlp_edges_end(b)) + 4 * le32(b, lmlp_edges_end(b) + 4)
}

/// Whether `b` holds a whole graph.
pub open spec fn lmlp_parses(b: Seq<u8>) -> bool {
    &&& b.len() >= 12
    &&& b[2] <= 1
    &&& lmlp_edges_end(b) + 12 <= b.len()
    &&& lmlp_ids_end(b) <= b.len()
}

/// The node stored at `off` of `s`.
pub open spec fn node_at(s: Seq<u8>, off: int) -> LmlpNodeView {
    LmlpNodeView {
        kind_transform: s[off],
        memory_flags: s[off + 1],
        norm_flags: s[off + 2],
        activation: s[off + 3],
        in_dim: le32(s, off + 4) as u32,
        out_dim: le32(s, off + 8) as u32,
        theta_offset: le32(s, off + 12) as u32,
        theta_len: le32(s, off + 16) as u32,
    }
}

/// The edge stored at `off` of `s`.
pub open spec fn edge_at(s: Seq<u8>, off: int) -> LmlpEdgeView {
    LmlpEdgeView {
        from: le32(s, off) as u32,
        to: le32(s, off + 4) as u32,
        default_mode: s[off + 8],
        w_offset: le32(s, off + 12) as u32,
        w_len: le32(s, off + 16) as u32,
        delay_hint: le32(s, off + 20) as u32,
        phase: le32(s, off + 24) as u32,
        decay: le32(s, off + 28) as u32,
    }
}

impl<'a> LmlpGraphView<'a> {
    /// The bytes of the nodes.
    pub open spec fn node_region(&self) -> Seq<u8> {
        self.nodes@
    }

    /// The bytes of the edges.
    pub open spec fn edge_region(&self) -> Seq<u8> {
        self.edges@
    }

    /// The bytes of the input ids.
    pub open spec fn in_region(&self) -> Seq<u8> {
        self.in_ids@
    }

    /// The bytes of the output ids.
    pub open spec fn out_region(&self) -> Seq<u8> {
        self.out_ids@
    }

    /// Node `index`, if there is one.
    pub fn node(&self, index: usize) -> (r: Option<LmlpNodeView>)
        ensures
            r is Some <==> 20 * index + 20 <= self.node_region().len(),
            r matches Some(n) ==> n == node_at(self.node_region(), 20 * index),
    {
        let len = self.nodes.len();
        if index > (usize::MAX - 20) / 20 {
            assert(20 * index + 20 > usize::MAX) by (nonlinear_arith)
                requires
                    index > (usize::MAX - 20) / 20,
            ;
            return None;
        }
        let off = index * 20;
        if off + 20 > len {
            return None;
        }
        let n = self.nodes;
        Some(
            LmlpNodeView {
                kind_transform: n[off],
                memory_flags: n[off + 1],
                norm_flags: n[off + 2],
                activation: n[off + 3],
                in_dim: read_u32_le(n, off + 4),
                out_dim: read_u32_le(n, off + 8),
                theta_offset: read_u32_le(n, off + 12),
                theta_len: read_u32_le(n, off + 16),
            },
        )
    }

    /// Edge `index`, if there is one.
    pub fn edge(&self, index: usize) -> (r: Option<LmlpEdgeView>)
        ensures
            r is Some <==> 32 * index + 32 <= self.edge_region().len(),
            r matches Some(e) ==> e == edge_at(self.edge_region(), 32 * index),
    {
        let len = self.edges.len();
        if index > (usize::MAX - 32) / 32 {
            assert(32 * index + 32 > usize::MAX) by (nonlinear_arith)
                requires
                    index > (usize::MAX - 32) / 32,
            ;
            return None;
        }
        let off = index * 32;
        if off + 32 > len {
            return None;
        }
        let e = self.edges;
        Some(
            LmlpEdgeView {
                from: read_u32_le(e, off),
                to: read_u32_le(e, off + 4),
                default_mode: e[off + 8],
                w_offset: read_u32_le(e, off + 12),
                w_len: read_u32_le(e, off + 16),
                delay_hint: read_u32_le(e, off + 20),
                phase: read_u32_le(e, off + 24),
                decay: read_u32_le(e, off + 28),
            },
        )
    }

    /// Input id `index`, if there is one.
    pub fn in_id(&self, index: usize) -> (r: Option<u32>)
        ensures
            r is Some <==> 4 * index + 4 <= self.in_region().len(),
            r matches Some(v) ==> v == le32(self.in_region(), 4 * index),
    {
        let len = self.in_ids.len();
        if index > (usize::MAX - 4) / 4 {
            assert(4 * index + 4 > usize::MAX) by (nonlinear_arith)
                requires
                    index > (usize::MAX - 4) / 4,
            ;
            return None;
        }
        let off = index * 4;
        if off + 4 > len {
            return None;
        }
        Some(read_u32_le(self.in_ids, off))
    }

    /// Output id `index`, if there is one.
    pub fn out_id(&self, index: usize) -> (r: Option<u32>)
        ensures
            r is Some <==> 4 * index + 4 <= self.out_region().len(),
            r matches Some(v) ==> v == le32(self.out_region(), 4 * index),
    {
        let len = self.out_ids.len();
        if index > (usize::MAX - 4) / 4 {
            assert(4 * index + 4 > usize::MAX) by (nonlinear_arith)
                requires
                    index > (usize::MAX - 4) / 4,
            ;
            return None;
        }
        let off = index * 4;
        if off + 4 > len {
            return None;
        }
        Some(read_u32_le(self.out_ids, off))
    }
}

/// Parses a graph; `None` when `bytes` is shorter than its counts say or the
/// dtype tag is above 1.
pub fn parse_lmlp_graph<'a>(bytes: &'a [u8]) -> (r: Option<LmlpGraphView<'a>>)
    ensures
        r is Some <==> lmlp_parses(bytes@),
        r matches Some(g) ==> {
            let b = bytes@;
            let ee = lmlp_edges_end(b);
            let ie = ee + 12 + 4 * le32(b, ee);
            &&& g.version == le16(b, 0)
            &&& g.dtype_tag == b[2]
            &&& g.node_count == le32(b, 4)
            &&& g.edge_count == le32(b, 8)
            &&& g.vocab_size == le32(b, ee + 8)
            &&& g.node_region() == b.subrange(12, 12 + 20 * le32(b, 4))
            &&& g.edge_region() == b.subrange(12 + 20 * le32(b, 4), ee)
            &&& g.in_region() == b.subrange(ee + 12, ie)
            &&& g.out_region() == b.subrange(ie, lmlp_ids_end(b))
        },
{
    let n = bytes.len();
    if n < 12 {
        return None;
    }
    let version = read_u16_le(bytes, 0);
    let dtype_tag = bytes[2];
    if dtype_tag > 1 {
        return None;
    }
    let node_count = read_u32_le(bytes, 4);
    let edge_count = read_u32_le(bytes, 8);
    let nodes_len = match (node_count as usize).checked_mul(20) {
        Some(v) => v,
        None => {
            return None;
        },
    };
    let edges_len = match (edge_count as usize).checked_mul(32) {
        Some(v) => v,
        None => {
            return None;
        },
    };
    if nodes_len > n || edges_len > n - nodes_len || 24 > n - nodes_len - edges_len {
        return None;
    }
    let nodes_end = 12 + nodes_len;
    let edges_end = nodes_end + edges_len;
    let in_count = read_u32_le(bytes, edges_end);
    let out_count = read_u32_le(bytes, edges_end + 4);
    let vocab_size = read_u32_le(bytes, edges_end + 8);
    let in_len = match (in_count as usize).checked_mul(4) {
        Some(v) => v,
        None => {
            return None;
        },
    };
    let out_len = match (out_count as usize).checked_mul(4) {
        Some(v) => v,
        None => {
            return None;
        },
    };
    let in_start = edges_end + 12;
    if in_len > n - in_start || out_len > n - in_start - in_len {
        return None;
    }
    let in_end = in_start + in_len;
    let out_end = in_end + out_len;
    Some(
        LmlpGraphView {
            version,
            dtype_tag,
            node_count,
            edge_count,
            vocab_size,
            nodes: vstd::slice::slice_subrange(bytes, 12, nodes_end),
            edges: vstd::slice::slice_subrange(bytes, nodes_end, edges_end),
            in_ids: vstd::slice::slice_subrange(bytes, in_start, in_end),
            out_ids: vstd::slice::slice_subrange(bytes, in_end, out_end),
        },
    )
}

// ---------------------------------------------------------------- reading back

proof fn lemma_nodes_at(b: Seq<u8>, base: int, nodes: Seq<LmlpNodeView>, k: int)
    requires
        0 <= k <= nodes.len(),
        at(b, base, nodes_bytes(nodes, k)),
    ensures
        forall|i: int| 0 <= i < k ==> #[trigger] node_at(b, base + 20 * i) == nodes[i],
    decreases k,
{
    if k > 0 {
        let n = nodes[k - 1];
        let off = base + 20 * (k - 1);
        lemma_nodes_len(nodes, k - 1);
        lemma_at_split(b, base, nodes_bytes(nodes, k - 1), node_bytes(n));
        lemma_nodes_at(b, base, nodes, k - 1);
        let f = seq![n.kind_transform, n.memory_flags, n.norm_flags, n.activation];
        lemma_u32_le(n.in_dim);
        lemma_u32_le(n.out_dim);
        lemma_u32_le(n.theta_offset);
        lemma_u32_le(n.theta_len);
        lemma_at_split(b, off, f + u32_le(n.in_dim) + u32_le(n.out_dim) + u32_le(n.theta_offset), u32_le(n.theta_len));
        lemma_at_split(b, off, f + u32_le(n.in_dim) + u32_le(n.out_dim), u32_le(n.theta_offset));
        lemma_at_split(b, off, f + u32_le(n.in_dim), u32_le(n.out_dim));
        lemma_at_split(b, off, f, u32_le(n.in_dim));
        lemma_at_read(b, off, f, 0);
        lemma_at_read(b, off, f, 1);
        lemma_at_read(b, off, f, 2);
        lemma_at_read(b, off, f, 3);
        lemma_at_le32(b, off + 4, n.in_dim);
        lemma_at_le32(b, off + 8, n.out_dim);
        lemma_at_le32(b, off + 12, n.theta_offset);
        lemma_at_le32(b, off + 16, n.theta_len);
        assert(node_at(b, off) == n);
    }
}

proof fn lemma_edges_at(b: Seq<u8>, base: int, edges: Seq<LmlpEdgeView>, k: int)
    requires
        0 <= k <= edges.len(),
        at(b, base, edges_bytes(edges, k)),
    ensures
        forall|i: int| 0 <= i < k ==> #[trigger] edge_at(b, base + 32 * i) == edges[i],
    decreases k,
{
    if k > 0 {
        let e = edges[k - 1];
        let off = base + 32 * (k - 1);
        lemma_edges_len(edges, k - 1);
        lemma_at_split(b, base, edges_bytes(edges, k - 1), edge_bytes(e));
        lemma_edges_at(b, base, edges, k - 1);
        let m = seq![e.default_mode, 0u8, 0u8, 0u8];
        let a = u32_le(e.from) + u32_le(e.to);
        lemma_u32_le(e.from);
        lemma_u32_le(e.to);
        lemma_u32_le(e.w_offset);
        lemma_u32_le(e.w_len);
        lemma_u32_le(e.delay_hint);
        lemma_u32_le(e.phase);
        lemma_u32_le(e.decay);
        lemma_at_split(b, off, a + m + u32_le(e.w_offset) + u32_le(e.w_len) + u32_le(e.delay_hint) + u32_le(e.phase), u32_le(e.decay));
        lemma_at_split(b, off, a + m + u32_le(e.w_offset) + u32_le(e.w_len) + u32_le(e.delay_hint), u32_le(e.phase));
        lemma_at_split(b, off, a + m + u32_le(e.w_offset) + u32_le(e.w_len), u32_le(e.delay_hint));
        lemma_at_split(b, off, a + m + u32_le(e.w_offset), u32_le(e.w_len));
        lemma_at_split(b, off, a + m, u32_le(e.w_offset));
        lemma_at_split(b, off, a, m);
        lemma_at_split(b, off, u32_le(e.from), u32_le(e.to));
        lemma_at_read(b, off + 8, m, 0);
        lemma_at_le32(b, off, e.from);
        lemma_at_le32(b, off + 4, e.to);
        lemma_at_le32(b, off + 12, e.w_offset);
        lemma_at_le32(b, off + 16, e.w_len);
        lemma_at_le32(b, off + 20, e.delay_hint);
        lemma_at_le32(b, off + 24, e.phase);
        lemma_at_le32(b, off + 28, e.decay);
        assert(edge_at(b, off) == e);
    }
}

proof fn lemma_ids_at(b: Seq<u8>, base: int, ids: Seq<u32>, k: int)
    requires
        0 <= k <= ids.len(),
        at(b, base, ids_bytes(ids, k)),
    ensures
        forall|i: int| 0 <= i < k ==> #[trigger] le32(b, base + 4 * i) == ids[i],
    decreases k,
{
    if k > 0 {
        lemma_ids_len(ids, k - 1);
        lemma_at_split(b, base, ids_bytes(ids, k - 1), u32_le(ids[k - 1]));
        lemma_ids_at(b, base, ids, k - 1);
        lemma_at_le32(b, base + 4 * (k - 1), ids[k - 1]);
    }
}

proof fn lemma_node_at_sub(s: Seq<u8>, a: int, c: int, off: int)
    requires
        0 <= a <= c <= s.len(),
        0 <= off,
        off + 20 <= c - a,
    ensures
        node_at(s.subrange(a, c), off) == node_at(s, a + off),
{
}

proof fn lemma_edge_at_sub(s: Seq<u8>, a: int, c: int, off: int)
    requires
        0 <= a <= c <= s.len(),
        0 <= off,
        off + 32 <= c - a,
    ensures
        edge_at(s.subrange(a, c), off) == edge_at(s, a + off),
{
}

proof fn lemma_le32_sub(s: Seq<u8>, a: int, c: int, off: int)
    requires
        0 <= a <= c <= s.len(),
        0 <= off,
        off + 4 <= c - a,
    ensures
        le32(s.subrange(a, c), off) == le32(s, a + off),
{
}

/// A graph the encoder wrote reads back: it parses, and its header fields,
/// nodes, edges, input ids and output ids are those that were encoded. The
/// parser refuses dtype tags above 1, so the law is stated for those.
#[verifier::rlimit(50)]
#[verifier::spinoff_prover]
pub proof fn law_lmlp_roundtrip(
    version: u16,
    dtype_tag: u8,
    nodes: Seq<LmlpNodeView>,
    edges: Seq<LmlpEdgeView>,
    in_ids: Seq<u32>,
    out_ids: Seq<u32>,
    vocab_size: u32,
)
    requires
        lmlp_encodable(
            nodes.len() as int,
            edges.len() as int,
            in_ids.len() as int,
            out_ids.len() as int,
        ),
        dtype_tag <= 1,
    ensures
        ({
            let b = lmlp_bytes(version, dtype_tag, nodes, edges, in_ids, out_ids, vocab_size);
            let ne = 12 + 20 * nodes.len() as int;
            let ee = lmlp_edges_end(b);
            let ie = ee + 12 + 4 * in_ids.len() as int;
            &&& lmlp_parses(b)
            &&& le16(b, 0) == version
            &&& b[2] == dtype_tag
            &&& le32(b, 4) == nodes.len()
            &&& le32(b, 8) == edges.len()
            &&& ee == ne + 32 * edges.len()
            &&& le32(b, ee + 8) == vocab_size
            &&& ie + 4 * out_ids.len() == lmlp_ids_end(b)
            &&& forall|i: int|
                0 <= i < nodes.len() ==> #[trigger] node_at(b.subrange(12, ne), 20 * i)
                    == nodes[i]
            &&& forall|i: int|
                0 <= i < edges.len() ==> #[trigger] edge_at(b.subrange(ne, ee), 32 * i)
                    == edges[i]
            &&& forall|i: int|
                0 <= i < in_ids.len() ==> #[trigger] le32(b.subrange(ee + 12, ie), 4 * i)
                    == in_ids[i]
            &&& forall|i: int|
                0 <= i < out_ids.len() ==> #[trigger] le32(b.subrange(ie, lmlp_ids_end(b)), 4 * i)
                    == out_ids[i]
        }),
{
    let b = lmlp_bytes(version, dtype_tag, nodes, edges, in_ids, out_ids, vocab_size);
    lemma_lmlp_len(version, dtype_tag, nodes, edges, in_ids, out_ids, vocab_size);
    let nn = nodes.len() as int;
    let nedge = edges.len() as int;
    let ni = in_ids.len() as int;
    let no = out_ids.len() as int;
    lemma_nodes_len(nodes, nn);
    lemma_edges_len(edges, nedge);
    lemma_ids_len(in_ids, ni);
    lemma_ids_len(out_ids, no);
    lemma_u16_le(version);
    lemma_u32_le(nn as u32);
    lemma_u32_le(nedge as u32);
    lemma_u32_le(ni as u32);
    lemma_u32_le(no as u32);
    lemma_u32_le(vocab_size);
    let h0 = u16_le(version);
    let h1 = seq![dtype_tag, 0u8];
    let nb = nodes_bytes(nodes, nn);
    let eb = edges_bytes(edges, nedge);
    let ib = ids_bytes(in_ids, ni);
    let ob = ids_bytes(out_ids, no);
    assert(at(b, 0, b)) by {
        assert(b.subrange(0, b.len() as int) =~= b);
    }
    let p1 = h0 + h1 + u32_le(nn as u32) + u32_le(nedge as u32);
    let p2 = p1 + nb + eb;
    let p3 = p2 + u32_le(ni as u32) + u32_le(no as u32) + u32_le(vocab_size);
    lemma_at_split(b, 0, p3 + ib, ob);
    lemma_at_split(b, 0, p3, ib);
    lemma_at_split(b, 0, p2 + u32_le(ni as u32) + u32_le(no as u32), u32_le(vocab_size));
    lemma_at_split(b, 0, p2 + u32_le(ni as u32), u32_le(no as u32));
    lemma_at_split(b, 0, p2, u32_le(ni as u32));
    lemma_at_split(b, 0, p1 + nb, eb);
    lemma_at_split(b, 0, p1, nb);
    lemma_at_split(b, 0, h0 + h1 + u32_le(nn as u32), u32_le(nedge as u32));
    lemma_at_split(b, 0, h0 + h1, u32_le(nn as u32));
    lemma_at_split(b, 0, h0, h1);
    lemma_at_le16(b, 0, version);
    lemma_at_read(b, 2, h1, 0);
    lemma_at_le32(b, 4, nn as u32);
    lemma_at_le32(b, 8, nedge as u32);
    let ee = 12 + 20 * nn + 32 * nedge;
    lemma_at_le32(b, ee, ni as u32);
    lemma_at_le32(b, ee + 4, no as u32);
    lemma_at_le32(b, ee + 8, vocab_size);
    lemma_nodes_at(b, 12, nodes, nn);
    lemma_edges_at(b, 12 + 20 * nn, edges, nedge);
    lemma_ids_at(b, ee + 12, in_ids, ni);
    lemma_ids_at(b, ee + 12 + 4 * ni, out_ids, no);
    let ne = 12 + 20 * nn;
    let ie = ee + 12 + 4 * ni;
    assert forall|i: int| 0 <= i < nn implies #[trigger] node_at(b.subrange(12, ne), 20 * i)
        == nodes[i] by {
        lemma_node_at_sub(b, 12, ne, 20 * i);
        assert(node_at(b, 12 + 20 * i) == nodes[i]);
    }
    assert forall|i: int| 0 <= i < nedge implies #[trigger] edge_at(b.subrange(ne, ee), 32 * i)
        == edges[i] by {
        lemma_edge_at_sub(b, ne, ee, 32 * i);
        assert(edge_at(b, ne + 32 * i) == edges[i]);
    }
    assert forall|i: int| 0 <= i < ni implies #[trigger] le32(b.subrange(ee + 12, ie), 4 * i)
        == in_ids[i] by {
        lemma_le32_sub(b, ee + 12, ie, 4 * i);
        assert(le32(b, ee + 12 + 4 * i) == in_ids[i]);
    }
    assert forall|i: int| 0 <= i < no implies #[trigger] le32(b.subrange(ie, lmlp_ids_end(b)), 4 * i)
        == out_ids[i] by {
        lemma_le32_sub(b, ie, ie + 4 * no, 4 * i);
        assert(le32(b, ie + 4 * i) == out_ids[i]);
    }
}

} // verus!
