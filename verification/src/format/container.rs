//! Building parts of a container: filling blob payloads in place, and the
//! dense LMLP tensors and graph of a feed-forward topology.
use vstd::prelude::*;
use vstd::string::StringSliceAdditionalSpecFns;
use crate::bytes::{splice, write_bytes};
use crate::format::lmlp::{
    LmlpNodeView, LmlpEdgeView, LMLP_GRAPH_VERSION, lmlp_bytes, lmlp_encodable, lmlp_size,
    encode_lmlp_graph_into,
};
use crate::rnn_format::parser::{parse_rnn_from_bytes, parse_rnn_spec, metas_view};
use crate::rnn_format::bounds::{find_blob_index, first_index};

verus! {

broadcast use vstd::slice::group_slice_axioms;

/// Errors of building and filling containers.
#[derive(Clone, Copy, Debug, PartialEq, Eq, Structural)]
pub enum RnnFlowError {
    InvalidTopology,
    CapacityTooSmall,
    BadBytes,
    Model,
}

/// A payload to copy into the blob of the given name.
#[derive(Clone, Copy)]
pub struct BlobWrite<'a> {
    pub name: &'a str,
    pub payload: &'a [u8],
}

/// One fill: the container parsed, the blob found by name, its payload
/// replaced by one of the same length.
pub open spec fn fill_step(b: Seq<u8>, name: Seq<u8>, payload: Seq<u8>) -> Result<Seq<u8>, RnnFlowError> {
    match parse_rnn_spec(b) {
        Err(_) => Err(RnnFlowError::BadBytes),
        Ok(ms) => match first_index(ms, name) {
            None => Err(RnnFlowError::Model),
            Some(i) => {
                let start = ms[i].offset as int;
                let len = ms[i].length as int;
                if start > usize::MAX || len > usize::MAX || start + len > usize::MAX {
                    Err(RnnFlowError::BadBytes)
                } else if start + len > b.len() || len != payload.len() {
                    Err(RnnFlowError::BadBytes)
                } else {
                    Ok(splice(b, start, payload))
                }
            },
        },
    }
}

/// The fills of `writes` in turn: the bytes after them, and the first error.
pub open spec fn fill_all(b: Seq<u8>, writes: Seq<BlobWrite>) -> (Seq<u8>, Result<(), RnnFlowError>)
    decreases writes.len(),
{
    if writes.len() == 0 {
        (b, Ok(()))
    } else {
        match fill_step(b, writes[0].name.spec_bytes(), writes[0].payload@) {
            Err(e) => (b, Err(e)),
            Ok(b2) => fill_all(b2, writes.drop_first()),
        }
    }
}

/// Copies each payload into the blob of its name, re-reading the container
/// before each write; stops at the first write that fails: a container that
/// does not parse, a name that is not there, or a length that differs.
pub fn fill_blob_payloads(bytes: &mut [u8], writes: &[BlobWrite]) -> (r: Result<(), RnnFlowError>)
    ensures
        (final(bytes)@, r) == fill_all(old(bytes)@, writes@),
{
    let ghost target = fill_all(old(bytes)@, writes@);
    let mut i: usize = 0;
    assert(writes@.skip(0) =~= writes@);
    while i < writes.len()
        invariant
            i <= writes@.len(),
            target == fill_all(old(bytes)@, writes@),
            fill_all(bytes@, writes@.skip(i as int)) == target,
        decreases writes@.len() - i,
    {
        let w = writes[i];
        let ghost cur = bytes@;
        proof {
            assert(writes@.skip(i as int)[0] == w);
            assert(writes@.skip(i as int).drop_first() =~= writes@.skip(i + 1));
            assert(fill_all(cur, writes@.skip(i as int)) == match fill_step(
                cur,
                w.name.spec_bytes(),
                w.payload@,
            ) {
                Err(e) => (cur, Err(e)),
                Ok(b2) => fill_all(b2, writes@.skip(i + 1)),
            });
        }
        let n = bytes.len();
        let parsed = parse_rnn_from_bytes(bytes);
        if parsed.is_err() {
            assert(fill_step(cur, w.name.spec_bytes(), w.payload@) == Err::<Seq<u8>, RnnFlowError>(
                RnnFlowError::BadBytes,
            ));
            return Err(RnnFlowError::BadBytes);
        }
        let handle = parsed.unwrap();
        let found = find_blob_index(&handle, w.name.as_bytes());
        if found.is_none() {
            return Err(RnnFlowError::Model);
        }
        let idx = found.unwrap();
        proof {
            crate::rnn_format::bounds::lemma_first_index(metas_view(handle.blobs@), w.name.spec_bytes());
            assert(metas_view(handle.blobs@)[idx as int] == handle.blobs@[idx as int]@);
        }
        let off = handle.blobs[idx].offset;
        let length = handle.blobs[idx].length;
        if off > usize::MAX as u64 || length > usize::MAX as u64 {
            return Err(RnnFlowError::BadBytes);
        }
        if off as usize > usize::MAX - length as usize {
            return Err(RnnFlowError::BadBytes);
        }
        let start = off as usize;
        let len = length as usize;
        if start + len > n || len != w.payload.len() {
            return Err(RnnFlowError::BadBytes);
        }
        write_bytes(bytes, start, w.payload);
        i = i + 1;
    }
    proof {
        assert(writes@.skip(i as int).len() == 0);
    }
    Ok(())
}

// ---------------------------------------------------------------- dense LMLP

/// The weight and bias byte counts of dense layer `i` of `t`.
pub open spec fn w_bytes(t: Seq<usize>, i: int, esz: int) -> int {
    t[i] * t[i + 1] * esz
}

pub open spec fn b_bytes(t: Seq<usize>, i: int, esz: int) -> int {
    t[i + 1] * esz
}

/// Copying the weights and biases of layers `i..n` in turn, from the given
/// offsets: the bytes after, and the end of what was written when every
/// layer fits.
pub open spec fn tensors_run(
    t: Seq<usize>,
    esz: int,
    weights: Seq<u8>,
    biases: Seq<u8>,
    out: Seq<u8>,
    i: int,
    n: int,
    w_off: int,
    b_off: int,
    cur: int,
) -> (Seq<u8>, Option<int>)
    decreases n - i,
{
    if i >= n {
        (out, Some(cur))
    } else {
        let wb = w_bytes(t, i, esz);
        let bb = b_bytes(t, i, esz);
        if wb > usize::MAX || bb > usize::MAX || w_off + wb > usize::MAX || b_off + bb > usize::MAX {
            (out, None)
        } else if w_off + wb > weights.len() || b_off + bb > biases.len() {
            (out, None)
        } else if cur + wb > usize::MAX || cur + wb > out.len() {
            (out, None)
        } else {
            let o1 = splice(out, cur, weights.subrange(w_off, w_off + wb));
            if cur + wb + bb > usize::MAX || cur + wb + bb > out.len() {
                (o1, None)
            } else {
                let o2 = splice(o1, cur + wb, biases.subrange(b_off, b_off + bb));
                tensors_run(t, esz, weights, biases, o2, i + 1, n, w_off + wb, b_off + bb, cur + wb + bb)
            }
        }
    }
}

/// The element size of a dtype tag: 8 for 1, 4 otherwise.
pub open spec fn tag_size(dtype: u8) -> int {
    if dtype == 1 {
        8
    } else {
        4
    }
}

/// Lays the weights and biases of each dense layer of `topology` one after
/// the other into `out`.
pub fn build_dense_lmlp_tensors(
    topology: &[usize],
    dtype: u8,
    weights: &[u8],
    biases: &[u8],
    out: &mut [u8],
) -> (r: Option<usize>)
    ensures
        topology@.len() <= 1 ==> r is None && final(out)@ == old(out)@,
        topology@.len() > 1 ==> final(out)@ == tensors_run(
            topology@,
            tag_size(dtype),
            weights@,
            biases@,
            old(out)@,
            0,
            topology@.len() - 1,
            0,
            0,
            0,
        ).0,
        topology@.len() > 1 ==> (r is None <==> tensors_run(
            topology@,
            tag_size(dtype),
            weights@,
            biases@,
            old(out)@,
            0,
            topology@.len() - 1,
            0,
            0,
            0,
        ).1 is None),
        topology@.len() > 1 ==> (r matches Some(n) ==> tensors_run(
            topology@,
            tag_size(dtype),
            weights@,
            biases@,
            old(out)@,
            0,
            topology@.len() - 1,
            0,
            0,
            0,
        ).1 == Some(n as int)),
{
    let tl = topology.len();
    if tl == 0 {
        return None;
    }
    let layer_count = tl - 1;
    if layer_count == 0 {
        return None;
    }
    let esz: usize = if dtype == 1 {
        8
    } else {
        4
    };
    let ghost target = tensors_run(
        topology@,
        esz as int,
        weights@,
        biases@,
        out@,
        0,
        layer_count as int,
        0,
        0,
        0,
    );
    let mut cursor: usize = 0;
    let mut w_off: usize = 0;
    let mut b_off: usize = 0;
    let mut i: usize = 0;
    while i < layer_count
        invariant
            tl == topology@.len(),
            layer_count == tl - 1,
            esz == tag_size(dtype),
            i <= layer_count,
            target == tensors_run(
                topology@,
                tag_size(dtype),
                weights@,
                biases@,
                old(out)@,
                0,
                topology@.len() - 1,
                0,
                0,
                0,
            ),
            tensors_run(
                topology@,
                esz as int,
                weights@,
                biases@,
                out@,
                i as int,
                layer_count as int,
                w_off as int,
                b_off as int,
                cursor as int,
            ) == target,
        decreases layer_count - i,
    {
        let in_i = topology[i];
        let out_i = topology[i + 1];
        let prod = in_i.checked_mul(out_i);
        if prod.is_none() {
            proof {
                assert(in_i * out_i * esz >= in_i * out_i) by (nonlinear_arith)
                    requires
                        esz >= 4,
                        in_i * out_i >= 0,
                ;
            }
            return None;
        }
        let p = prod.unwrap();
        let wopt = p.checked_mul(esz);
        if wopt.is_none() {
            assert(in_i * out_i * esz > usize::MAX) by (nonlinear_arith)
                requires
                    p * esz > usize::MAX,
                    p == in_i * out_i,
            ;
            return None;
        }
        let w_bytes = wopt.unwrap();
        assert(w_bytes == in_i * out_i * esz) by (nonlinear_arith)
            requires
                w_bytes == p * esz,
                p == in_i * out_i,
        ;
        let bopt = out_i.checked_mul(esz);
        if bopt.is_none() {
            return None;
        }
        let b_bytes = bopt.unwrap();
        if w_off > usize::MAX - w_bytes || b_off > usize::MAX - b_bytes {
            return None;
        }
        let w_end = w_off + w_bytes;
        let b_end = b_off + b_bytes;
        if w_end > weights.len() || b_end > biases.len() {
            return None;
        }
        if cursor > usize::MAX - w_bytes {
            return None;
        }
        let c_w_end = cursor + w_bytes;
        if c_w_end > out.len() {
            return None;
        }
        write_bytes(out, cursor, vstd::slice::slice_subrange(weights, w_off, w_end));
        cursor = c_w_end;
        if cursor > usize::MAX - b_bytes {
            return None;
        }
        let c_b_end = cursor + b_bytes;
        if c_b_end > out.len() {
            return None;
        }
        write_bytes(out, cursor, vstd::slice::slice_subrange(biases, b_off, b_end));
        cursor = c_b_end;
        w_off = w_end;
        b_off = b_end;
        i = i + 1;
    }
    Some(cursor)
}

/// The bit pattern of the `f32` value 1.0.
pub const DECAY_ONE_BITS: u32 = 0x3f80_0000;

/// The parameter count of dense layer `i`: its weights and biases.
pub open spec fn theta_len(t: Seq<usize>, i: int) -> int {
    t[i] * t[i + 1] + t[i + 1]
}

/// The parameter counts of the first `k` layers.
pub open spec fn theta_sum(t: Seq<usize>, k: int) -> int
    decreases k,
{
    if k <= 0 {
        0
    } else {
        theta_sum(t, k - 1) + theta_len(t, k - 1)
    }
}

/// The node of dense layer `i`.
pub open spec fn dense_node(t: Seq<usize>, i: int) -> LmlpNodeView {
    LmlpNodeView {
        kind_transform: 4,
        memory_flags: 0,
        norm_flags: 0,
        activation: 0,
        in_dim: t[i] as u32,
        out_dim: t[i + 1] as u32,
        theta_offset: theta_sum(t, i) as u32,
        theta_len: theta_len(t, i) as u32,
    }
}

/// The edge from layer `i` to layer `i + 1`.
pub open spec fn dense_edge(i: int) -> LmlpEdgeView {
    LmlpEdgeView {
        from: i as u32,
        to: (i + 1) as u32,
        default_mode: 0,
        w_offset: 0,
        w_len: 0,
        delay_hint: 0,
        phase: 0,
        decay: DECAY_ONE_BITS,
    }
}

/// Whether both sizes of dense layer `i` fit 32 bits.
pub open spec fn sizes_fit(t: Seq<usize>, i: int) -> bool {
    t[i] <= u32::MAX && t[i + 1] <= u32::MAX
}

/// Whether the dense graph of `t` can be described: one to 64 layers, sizes
/// and parameter counts that fit 32 bits.
pub open spec fn dense_graph_ok(t: Seq<usize>) -> bool {
    let n = t.len() - 1;
    &&& 1 <= n <= 64
    &&& forall|i: int| 0 <= i < n ==> theta_len(t, i) <= usize::MAX
    &&& forall|i: int| 0 <= i < n ==> #[trigger] sizes_fit(t, i)
    &&& theta_sum(t, n) <= u32::MAX
}

proof fn lemma_theta_sum_grows(t: Seq<usize>, j: int, k: int)
    requires
        0 <= j <= k,
        k < t.len(),
    ensures
        theta_sum(t, j) <= theta_sum(t, k),
    decreases k - j,
{
    if j < k {
        lemma_theta_sum_grows(t, j, k - 1);
        assert(t[k - 1] * t[k] >= 0) by (nonlinear_arith);
    }
}

/// Encodes the graph of a feed-forward topology: one node per layer, an edge
/// between consecutive layers, input node 0 and output the last node.
pub fn build_dense_lmlp_graph(topology: &[usize], dtype: u8, out: &mut [u8]) -> (r: Option<usize>)
    ensures
        !dense_graph_ok(topology@) ==> r is None && final(out)@ == old(out)@,
        dense_graph_ok(topology@) ==> {
            let n = topology@.len() - 1;
            let nodes = Seq::new(n as nat, |i: int| dense_node(topology@, i));
            let edges = Seq::new((n - 1) as nat, |i: int| dense_edge(i));
            let ins = seq![0u32];
            let outs = seq![(n - 1) as u32];
            let tag: u8 = if dtype == 1 {
                1
            } else {
                0
            };
            &&& r is Some <==> lmlp_size(n, n - 1, 1, 1) <= old(out)@.len()
            &&& r matches Some(used) ==> used == lmlp_size(n, n - 1, 1, 1) && final(out)@ == splice(
                old(out)@,
                0,
                lmlp_bytes(LMLP_GRAPH_VERSION, tag, nodes, edges, ins, outs, 0),
            )
            &&& r is None ==> final(out)@ == old(out)@
        },
{
    let tl = topology.len();
    if tl == 0 {
        return None;
    }
    let layer_count = tl - 1;
    if layer_count == 0 || layer_count > 64 {
        return None;
    }
    let dtype_tag: u8 = if dtype == 1 {
        1
    } else {
        0
    };
    let mut nodes: Vec<LmlpNodeView> = Vec::new();
    let mut theta: u32 = 0;
    let mut i: usize = 0;
    while i < layer_count
        invariant
            tl == topology@.len(),
            layer_count == tl - 1,
            1 <= layer_count <= 64,
            i <= layer_count,
            nodes@.len() == i,
            theta == theta_sum(topology@, i as int),
            forall|j: int| 0 <= j < i ==> theta_len(topology@, j) <= usize::MAX,
            forall|j: int| 0 <= j < i ==> #[trigger] sizes_fit(topology@, j),
            forall|j: int| 0 <= j < i ==> #[trigger] nodes@[j] == dense_node(topology@, j),
        decreases layer_count - i,
    {
        let in_i = topology[i];
        let out_i = topology[i + 1];
        let prod = match in_i.checked_mul(out_i) {
            Some(p) => p,
            None => {
                proof {
                    assert(!dense_graph_ok(topology@)) by {
                        assert(theta_len(topology@, i as int) > usize::MAX);
                    }
                }
                return None;
            },
        };
        if prod > usize::MAX - out_i {
            assert(!dense_graph_ok(topology@)) by {
                assert(theta_len(topology@, i as int) > usize::MAX);
            }
            return None;
        }
        let node_theta_len = prod + out_i;
        if node_theta_len > 0xffff_ffff || in_i > 0xffff_ffff || out_i > 0xffff_ffff {
            proof {
                if node_theta_len > 0xffff_ffff {
                    lemma_theta_sum_grows(topology@, i + 1, layer_count as int);
                } else {
                    assert(!sizes_fit(topology@, i as int));
                }
            }
            return None;
        }
        let tlen = node_theta_len as u32;
        nodes.push(
            LmlpNodeView {
                kind_transform: 4,
                memory_flags: 0,
                norm_flags: 0,
                activation: 0,
                in_dim: in_i as u32,
                out_dim: out_i as u32,
                theta_offset: theta,
                theta_len: tlen,
            },
        );
        if theta > 0xffff_ffff - tlen {
            proof {
                lemma_theta_sum_grows(topology@, i + 1, layer_count as int);
            }
            return None;
        }
        theta = theta + tlen;
        i = i + 1;
    }
    let mut edges: Vec<LmlpEdgeView> = Vec::new();
    let edge_count = layer_count - 1;
    let mut j: usize = 0;
    while j < edge_count
        invariant
            edge_count == layer_count - 1,
            layer_count <= 64,
            j <= edge_count,
            edges@.len() == j,
            forall|k: int| 0 <= k < j ==> #[trigger] edges@[k] == dense_edge(k),
        decreases edge_count - j,
    {
        edges.push(
            LmlpEdgeView {
                from: j as u32,
                to: (j + 1) as u32,
                default_mode: 0,
                w_offset: 0,
                w_len: 0,
                delay_hint: 0,
                phase: 0,
                decay: DECAY_ONE_BITS,
            },
        );
        j = j + 1;
    }
    let in_ids: [u32; 1] = [0];
    let out_ids: [u32; 1] = [(layer_count - 1) as u32];
    proof {
        assert(nodes@ =~= Seq::new(layer_count as nat, |i: int| dense_node(topology@, i)));
        assert(edges@ =~= Seq::new(edge_count as nat, |i: int| dense_edge(i)));
        assert(in_ids@ =~= seq![0u32]);
        assert(out_ids@ =~= seq![(layer_count - 1) as u32]);
    }
    encode_lmlp_graph_into(
        LMLP_GRAPH_VERSION,
        dtype_tag,
        nodes.as_slice(),
        edges.as_slice(),
        &in_ids,
        &out_ids,
        0,
        out,
    )
}

} // verus!
