//! The RMD1 model payload: a 20-byte header ("RMD1", version 1, dtype,
//! layer count, weight and bias counts), 20 bytes of metadata per dense
//! layer, then the weights and biases as little-endian scalars.
use vstd::prelude::*;
use crate::bytes::{
    u16_le, u32_le, u64_le, le16, le32, push_u16_le, push_u32_le, push_u64_le, write_bytes,
    read_u16_le, read_u32_le, bytes_equal, splice, lemma_u16_le, lemma_u32_le, lemma_u64_le, at,
    lemma_at_split, lemma_at_read, lemma_at_le16, lemma_at_le32, lemma_at_sub,
};
use crate::format::blob::rmd1_magic;

verus! {

broadcast use vstd::slice::group_slice_axioms;

pub const RMD1_HEADER_SIZE: usize = 20;

/// The fields of an RMD1 header.
#[derive(Clone, Copy, Debug, PartialEq, Eq, Structural)]
pub struct Header {
    pub version: u16,
    pub dtype: u8,
    pub layer_count: usize,
    pub weights_len: usize,
    pub biases_len: usize,
}

/// The 20 header bytes.
pub open spec fn rmd1_header_bytes(dtype: u8, layer_count: u32, weights_len: u32, biases_len: u32) -> Seq<u8> {
    rmd1_magic() + u16_le(1) + seq![dtype, 0u8] + u32_le(layer_count) + u32_le(weights_len)
        + u32_le(biases_len)
}

/// Writes an RMD1 header at the start of `out`; `None`, with `out`
/// unchanged, when `out` is shorter than 20 bytes, the dtype is above 1, or
/// a count does not fit 32 bits.
pub fn write_header(
    out: &mut [u8],
    dtype: u8,
    layer_count: usize,
    weights_len: usize,
    biases_len: usize,
) -> (r: Option<()>)
    ensures
        r is Some <==> old(out)@.len() >= 20 && dtype <= 1 && layer_count <= u32::MAX
            && weights_len <= u32::MAX && biases_len <= u32::MAX,
        r is Some ==> final(out)@ == splice(
            old(out)@,
            0,
            rmd1_header_bytes(dtype, layer_count as u32, weights_len as u32, biases_len as u32),
        ),
        r is None ==> final(out)@ == old(out)@,
{
    if out.len() < RMD1_HEADER_SIZE {
        return None;
    }
    if dtype > 1 {
        return None;
    }
    if layer_count > 0xffff_ffff || weights_len > 0xffff_ffff || biases_len > 0xffff_ffff {
        return None;
    }
    let mut v: Vec<u8> = Vec::new();
    v.push(0x52);
    v.push(0x4d);
    v.push(0x44);
    v.push(0x31);
    push_u16_le(&mut v, 1);
    v.push(dtype);
    v.push(0);
    push_u32_le(&mut v, layer_count as u32);
    push_u32_le(&mut v, weights_len as u32);
    push_u32_le(&mut v, biases_len as u32);
    assert(v@ =~= rmd1_header_bytes(
        dtype,
        layer_count as u32,
        weights_len as u32,
        biases_len as u32,
    ));
    write_bytes(out, 0, v.as_slice());
    Some(())
}

/// The header stored in `b`.
pub open spec fn header_of(b: Seq<u8>) -> Header {
    Header {
        version: le16(b, 4) as u16,
        dtype: b[6],
        layer_count: le32(b, 8) as usize,
        weights_len: le32(b, 12) as usize,
        biases_len: le32(b, 16) as usize,
    }
}

/// Reads an RMD1 header; `None` when `bytes` is shorter than 20 bytes or
/// does not start with "RMD1".
pub fn parse_header(bytes: &[u8]) -> (r: Option<Header>)
    ensures
        r is Some <==> bytes@.len() >= 20 && bytes@.subrange(0, 4) == rmd1_magic(),
        r matches Some(h) ==> h == header_of(bytes@),
{
    if bytes.len() < RMD1_HEADER_SIZE {
        return None;
    }
    let magic: [u8; 4] = [0x52, 0x4d, 0x44, 0x31];
    assert(magic@ =~= rmd1_magic());
    if !bytes_equal(vstd::slice::slice_subrange(bytes, 0, 4), &magic) {
        return None;
    }
    Some(
        Header {
            version: read_u16_le(bytes, 4),
            dtype: bytes[6],
            layer_count: read_u32_le(bytes, 8) as usize,
            weights_len: read_u32_le(bytes, 12) as usize,
            biases_len: read_u32_le(bytes, 16) as usize,
        },
    )
}

/// Whether a header describes a usable payload: version 1, dtype 0 or 1, at
/// least one layer.
pub open spec fn header_consistent(h: Header) -> bool {
    h.version == 1 && h.dtype <= 1 && h.layer_count > 0
}

pub fn is_header_consistent(h: &Header) -> (r: bool)
    ensures
        r == header_consistent(*h),
{
    if h.version != 1 {
        return false;
    }
    if h.dtype > 1 {
        return false;
    }
    h.layer_count > 0
}

/// A written header reads back: the magic is there and the fields are those
/// written, with version 1.
pub proof fn law_header_roundtrip(s: Seq<u8>, dtype: u8, layer_count: u32, weights_len: u32, biases_len: u32)
    requires
        s.len() >= 20,
    ensures
        ({
            let b = splice(s, 0, rmd1_header_bytes(dtype, layer_count, weights_len, biases_len));
            &&& b.len() >= 20
            &&& b.subrange(0, 4) == rmd1_magic()
            &&& header_of(b) == Header {
                version: 1,
                dtype,
                layer_count: layer_count as usize,
                weights_len: weights_len as usize,
                biases_len: biases_len as usize,
            }
        }),
{
    let hb = rmd1_header_bytes(dtype, layer_count, weights_len, biases_len);
    lemma_u16_le(1);
    lemma_u32_le(layer_count);
    lemma_u32_le(weights_len);
    lemma_u32_le(biases_len);
    let b = splice(s, 0, hb);
    crate::bytes::lemma_at_splice_new(s, 0, hb);
    let m = rmd1_magic() + u16_le(1) + seq![dtype, 0u8];
    lemma_at_split(b, 0, m + u32_le(layer_count) + u32_le(weights_len), u32_le(biases_len));
    lemma_at_split(b, 0, m + u32_le(layer_count), u32_le(weights_len));
    lemma_at_split(b, 0, m, u32_le(layer_count));
    lemma_at_split(b, 0, rmd1_magic() + u16_le(1), seq![dtype, 0u8]);
    lemma_at_split(b, 0, rmd1_magic(), u16_le(1));
    lemma_at_sub(b, 0, rmd1_magic(), 0, 4);
    assert(rmd1_magic().subrange(0, 4) =~= rmd1_magic());
    lemma_at_le16(b, 4, 1);
    lemma_at_read(b, 6, seq![dtype, 0u8], 0);
    lemma_at_le32(b, 8, layer_count);
    lemma_at_le32(b, 12, weights_len);
    lemma_at_le32(b, 16, biases_len);
}

// ---------------------------------------------------------------- sizes

/// The element size of a dtype: 4 for 0 (f32), 8 for 1 (f64).
pub open spec fn scalar_bytes_spec(dtype: u8) -> Option<usize> {
    if dtype == 0 {
        Some(4)
    } else if dtype == 1 {
        Some(8)
    } else {
        None
    }
}

pub fn scalar_bytes_for_dtype(dtype: u8) -> (r: Option<usize>)
    ensures
        r == scalar_bytes_spec(dtype),
{
    if dtype == 0 {
        Some(4)
    } else if dtype == 1 {
        Some(8)
    } else {
        None
    }
}

/// The size of a payload with these counts.
pub open spec fn encoded_size_spec(scalar_bytes: int, layer_count: int, weights_len: int, biases_len: int) -> int {
    20 + 20 * layer_count + scalar_bytes * weights_len + scalar_bytes * biases_len
}

/// The size of a payload with these counts; `None` when it does not fit
/// `usize`.
pub fn encoded_size(
    scalar_bytes: usize,
    layer_count: usize,
    weights_len: usize,
    biases_len: usize,
) -> (r: Option<usize>)
    ensures
        r is Some <==> encoded_size_spec(
            scalar_bytes as int,
            layer_count as int,
            weights_len as int,
            biases_len as int,
        ) <= usize::MAX,
        r matches Some(n) ==> n == encoded_size_spec(
            scalar_bytes as int,
            layer_count as int,
            weights_len as int,
            biases_len as int,
        ),
{
    let lb = match layer_count.checked_mul(20) {
        Some(v) => v,
        None => {
            return None;
        },
    };
    let wb = match weights_len.checked_mul(scalar_bytes) {
        Some(v) => v,
        None => {
            assert(scalar_bytes * weights_len == weights_len * scalar_bytes) by (nonlinear_arith);
            return None;
        },
    };
    let bb = match biases_len.checked_mul(scalar_bytes) {
        Some(v) => v,
        None => {
            assert(scalar_bytes * biases_len == biases_len * scalar_bytes) by (nonlinear_arith);
            assert(scalar_bytes * biases_len >= 0) by (nonlinear_arith);
            assert(scalar_bytes * weights_len >= 0) by (nonlinear_arith);
            return None;
        },
    };
    assert(wb == scalar_bytes * weights_len) by (nonlinear_arith)
        requires
            wb == weights_len * scalar_bytes,
    ;
    assert(bb == scalar_bytes * biases_len) by (nonlinear_arith)
        requires
            bb == biases_len * scalar_bytes,
    ;
    if lb > usize::MAX - 20 || wb > usize::MAX - 20 - lb || bb > usize::MAX - 20 - lb - wb {
        return None;
    }
    Some(20 + lb + wb + bb)
}

/// The payload size a header announces; `None` when the header is missing or
/// inconsistent or the size does not fit.
pub open spec fn expected_size_spec(b: Seq<u8>) -> Option<int> {
    if b.len() < 20 || b.subrange(0, 4) != rmd1_magic() {
        None
    } else {
        let h = header_of(b);
        if !header_consistent(h) {
            None
        } else {
            let sz = encoded_size_spec(
                scalar_bytes_spec(h.dtype).unwrap() as int,
                h.layer_count as int,
                h.weights_len as int,
                h.biases_len as int,
            );
            if sz <= usize::MAX {
                Some(sz)
            } else {
                None
            }
        }
    }
}

pub fn expected_encoded_size_from_header(bytes: &[u8]) -> (r: Option<usize>)
    ensures
        r matches Some(n) ==> expected_size_spec(bytes@) == Some(n as int),
        r is None ==> expected_size_spec(bytes@) is None,
{
    let h = match parse_header(bytes) {
        Some(h) => h,
        None => {
            return None;
        },
    };
    if !is_header_consistent(&h) {
        return None;
    }
    let sb = match scalar_bytes_for_dtype(h.dtype) {
        Some(v) => v,
        None => {
            return None;
        },
    };
    encoded_size(sb, h.layer_count, h.weights_len, h.biases_len)
}

/// Whether `bytes` is exactly as long as its header announces.
pub fn has_full_payload(bytes: &[u8]) -> (r: bool)
    ensures
        r <==> expected_size_spec(bytes@) == Some(bytes@.len() as int),
{
    match expected_encoded_size_from_header(bytes) {
        Some(v) => bytes.len() == v,
        None => false,
    }
}

// ---------------------------------------------------------------- encoding a model

/// A scalar type whose values are stored little-endian in a payload: `u32`
/// holds the bits of an `f32` weight (dtype 0), `u64` those of an `f64`
/// (dtype 1).
pub trait Scalar: Copy {
    /// The dtype code of the type.
    spec fn tag_spec() -> u8;

    /// The stored size of one value.
    spec fn width_spec() -> nat;

    /// The stored bytes of a value.
    spec fn le_bytes(self) -> Seq<u8>;

    fn dtype_tag() -> (t: u8)
        ensures
            t == Self::tag_spec(),
            scalar_bytes_spec(t) == Some(Self::width_spec() as usize),
    ;

    fn byte_size() -> (n: usize)
        ensures
            n == Self::width_spec(),
    ;

    fn push_le(self, v: &mut Vec<u8>)
        ensures
            final(v)@ == old(v)@ + self.le_bytes(),
            self.le_bytes().len() == Self::width_spec(),
    ;
}

impl Scalar for u32 {
    open spec fn tag_spec() -> u8 {
        0
    }

    open spec fn width_spec() -> nat {
        4
    }

    open spec fn le_bytes(self) -> Seq<u8> {
        u32_le(self)
    }

    fn dtype_tag() -> (t: u8) {
        0
    }

    fn byte_size() -> (n: usize) {
        4
    }

    fn push_le(self, v: &mut Vec<u8>) {
        proof {
            lemma_u32_le(self);
        }
        push_u32_le(v, self);
    }
}

impl Scalar for u64 {
    open spec fn tag_spec() -> u8 {
        1
    }

    open spec fn width_spec() -> nat {
        8
    }

    open spec fn le_bytes(self) -> Seq<u8> {
        u64_le(self)
    }

    fn dtype_tag() -> (t: u8) {
        1
    }

    fn byte_size() -> (n: usize) {
        8
    }

    fn push_le(self, v: &mut Vec<u8>) {
        proof {
            lemma_u64_le(self);
        }
        push_u64_le(v, self);
    }
}

/// A dense layer: its sizes, where its weights and biases start, and its
/// activation code.
#[derive(Clone, Copy, Debug, PartialEq, Eq, Structural)]
pub struct LayerDesc {
    pub input_size: usize,
    pub output_size: usize,
    pub weight_offset: usize,
    pub bias_offset: usize,
    pub activation: u8,
}

impl LayerDesc {
    /// The number of weights of the layer; `None` when it does not fit.
    pub fn weight_len(&self) -> (r: Option<usize>)
        ensures
            r is Some <==> self.input_size * self.output_size <= usize::MAX,
            r matches Some(n) ==> n == self.input_size * self.output_size,
    {
        self.input_size.checked_mul(self.output_size)
    }
}

/// A layer of a model.
#[derive(Clone, Copy, Debug)]
pub enum LayerSpec {
    Dense(LayerDesc),
}

/// The dense description of a layer.
pub open spec fn layer_desc(l: LayerSpec) -> LayerDesc {
    match l {
        LayerSpec::Dense(d) => d,
    }
}

/// Errors of the payload encoder.
#[derive(Clone, Copy, Debug, PartialEq, Eq, Structural)]
pub enum ModelFormatError {
    BadHeader,
    CapacityTooSmall,
    InvalidLayer,
}

/// Whether a layer has inputs and outputs and its weights and biases lie
/// within `weights_len` and `biases_len`.
pub open spec fn layer_valid(l: LayerDesc, weights_len: int, biases_len: int) -> bool {
    &&& l.input_size > 0
    &&& l.output_size > 0
    &&& l.weight_offset + l.input_size * l.output_size <= weights_len
    &&& l.bias_offset + l.output_size <= biases_len
}

/// The error a layer causes, if any: an invalid layer, or a field that does
/// not fit 32 bits.
#[verifier::opaque]
pub open spec fn layer_error(l: LayerDesc, weights_len: int, biases_len: int) -> Option<ModelFormatError> {
    if !layer_valid(l, weights_len, biases_len) {
        Some(ModelFormatError::InvalidLayer)
    } else if l.input_size > u32::MAX || l.output_size > u32::MAX || l.weight_offset > u32::MAX
        || l.bias_offset > u32::MAX {
        Some(ModelFormatError::BadHeader)
    } else {
        None
    }
}

/// The 20 metadata bytes of a layer.
pub open spec fn layer_bytes(l: LayerDesc) -> Seq<u8> {
    u32_le(l.input_size as u32) + u32_le(l.output_size as u32) + u32_le(l.weight_offset as u32)
        + u32_le(l.bias_offset as u32) + seq![l.activation, 0u8, 0u8, 0u8]
}

/// The metadata of the first `k` layers.
pub open spec fn layers_bytes(layers: Seq<LayerSpec>, k: int) -> Seq<u8>
    decreases k,
{
    if k <= 0 {
        Seq::empty()
    } else {
        layers_bytes(layers, k - 1) + layer_bytes(layer_desc(layers[k - 1]))
    }
}

/// The stored bytes of the first `k` values.
pub open spec fn scalars_bytes<T: Scalar>(vals: Seq<T>, k: int) -> Seq<u8>
    decreases k,
{
    if k <= 0 {
        Seq::empty()
    } else {
        scalars_bytes(vals, k - 1) + vals[k - 1].le_bytes()
    }
}

/// The index of the first layer that causes an error.
pub open spec fn first_bad_layer(layers: Seq<LayerSpec>, weights_len: int, biases_len: int, k: int) -> Option<int>
    decreases k,
{
    if k <= 0 {
        None
    } else {
        match first_bad_layer(layers, weights_len, biases_len, k - 1) {
            Some(i) => Some(i),
            None => if layer_error(layer_desc(layers[k - 1]), weights_len, biases_len) is Some {
                Some(k - 1)
            } else {
                None
            },
        }
    }
}

/// The payload encoding of a model.
pub open spec fn model_bytes<T: Scalar>(layers: Seq<LayerSpec>, weights: Seq<T>, biases: Seq<T>) -> Seq<u8> {
    rmd1_header_bytes(
        T::tag_spec(),
        layers.len() as u32,
        weights.len() as u32,
        biases.len() as u32,
    ) + layers_bytes(layers, layers.len() as int) + scalars_bytes(weights, weights.len() as int)
        + scalars_bytes(biases, biases.len() as int)
}

/// What `encode_model` does: the sizes and counts are checked first, leaving
/// `out` alone; then the header and each layer's metadata are written until
/// a layer fails, whose error is returned; then the values, and a model
/// without layers is refused after writing.
pub open spec fn encode_model_outcome<T: Scalar>(
    old: Seq<u8>,
    new: Seq<u8>,
    r: Result<usize, ModelFormatError>,
    layers: Seq<LayerSpec>,
    weights: Seq<T>,
    biases: Seq<T>,
) -> bool {
    let n = layers.len() as int;
    let wl = weights.len() as int;
    let bl = biases.len() as int;
    let needed = encoded_size_spec(T::width_spec() as int, n, wl, bl);
    let hb = rmd1_header_bytes(T::tag_spec(), n as u32, wl as u32, bl as u32);
    if needed > usize::MAX {
        r == Err::<usize, ModelFormatError>(ModelFormatError::BadHeader) && new == old
    } else if old.len() < needed {
        r == Err::<usize, ModelFormatError>(ModelFormatError::CapacityTooSmall) && new == old
    } else if n > u32::MAX || wl > u32::MAX || bl > u32::MAX {
        r == Err::<usize, ModelFormatError>(ModelFormatError::BadHeader) && new == old
    } else {
        match first_bad_layer(layers, wl, bl, n) {
            Some(k) => r == Err::<usize, ModelFormatError>(
                layer_error(layer_desc(layers[k]), wl, bl).unwrap(),
            ) && new == splice(old, 0, hb + layers_bytes(layers, k)),
            None => new == splice(old, 0, model_bytes(layers, weights, biases)) && if n == 0 {
                r == Err::<usize, ModelFormatError>(ModelFormatError::BadHeader)
            } else {
                r == Ok::<usize, ModelFormatError>(needed as usize)
            },
        }
    }
}

proof fn lemma_layers_len(layers: Seq<LayerSpec>, k: int)
    requires
        0 <= k <= layers.len(),
    ensures
        layers_bytes(layers, k).len() == 20 * k,
    decreases k,
{
    if k > 0 {
        lemma_layers_len(layers, k - 1);
        let l = layer_desc(layers[k - 1]);
        lemma_u32_le(l.input_size as u32);
        lemma_u32_le(l.output_size as u32);
        lemma_u32_le(l.weight_offset as u32);
        lemma_u32_le(l.bias_offset as u32);
    }
}

proof fn lemma_scalars_len<T: Scalar>(vals: Seq<T>, k: int)
    requires
        0 <= k <= vals.len(),
        forall|i: int| 0 <= i < vals.len() ==> (#[trigger] vals[i]).le_bytes().len() == T::width_spec(),
    ensures
        scalars_bytes(vals, k).len() == T::width_spec() * k,
    decreases k,
{
    if k == 0 {
        assert(T::width_spec() * 0 == 0) by (nonlinear_arith);
    } else {
        lemma_scalars_len(vals, k - 1);
        assert(vals[k - 1].le_bytes().len() == T::width_spec());
        assert(T::width_spec() * (k - 1) + T::width_spec() == T::width_spec() * k) by (nonlinear_arith);
    }
}

proof fn lemma_first_bad_persists(layers: Seq<LayerSpec>, wl: int, bl: int, i: int, k: int)
    requires
        0 <= i < k,
        first_bad_layer(layers, wl, bl, i + 1) == Some(i),
    ensures
        first_bad_layer(layers, wl, bl, k) == Some(i),
    decreases k - i,
{
    if k > i + 1 {
        lemma_first_bad_persists(layers, wl, bl, i, k - 1);
    }
}

/// Checks that a layer has inputs and outputs and that its weights and
/// biases lie within the given counts.
pub fn validate(layer: &LayerDesc, weights_len: usize, biases_len: usize) -> (r: Result<
    (),
    ModelFormatError,
>)
    ensures
        r is Ok <==> layer_valid(*layer, weights_len as int, biases_len as int),
        r matches Err(e) ==> e == ModelFormatError::InvalidLayer,
{
    if layer.input_size == 0 || layer.output_size == 0 {
        return Err(ModelFormatError::InvalidLayer);
    }
    let w_len = match layer.weight_len() {
        Some(v) => v,
        None => {
            return Err(ModelFormatError::InvalidLayer);
        },
    };
    if layer.weight_offset > usize::MAX - w_len || layer.bias_offset > usize::MAX
        - layer.output_size {
        return Err(ModelFormatError::InvalidLayer);
    }
    if layer.weight_offset + w_len > weights_len || layer.bias_offset + layer.output_size
        > biases_len {
        return Err(ModelFormatError::InvalidLayer);
    }
    Ok(())
}

/// Checks one layer and returns its metadata bytes.
fn layer_meta(l: &LayerDesc, weights_len: usize, biases_len: usize) -> (r: Result<Vec<u8>, ModelFormatError>)
    ensures
        match r {
            Ok(v) => layer_error(*l, weights_len as int, biases_len as int) is None && v@ == layer_bytes(*l),
            Err(e) => layer_error(*l, weights_len as int, biases_len as int) == Some(e),
        },
{
    reveal(layer_error);
    match validate(l, weights_len, biases_len) {
        Ok(_) => {},
        Err(e) => {
            return Err(e);
        },
    }
    if l.input_size > 0xffff_ffff || l.output_size > 0xffff_ffff || l.weight_offset > 0xffff_ffff
        || l.bias_offset > 0xffff_ffff {
        return Err(ModelFormatError::BadHeader);
    }
    let mut v: Vec<u8> = Vec::new();
    push_u32_le(&mut v, l.input_size as u32);
    push_u32_le(&mut v, l.output_size as u32);
    push_u32_le(&mut v, l.weight_offset as u32);
    push_u32_le(&mut v, l.bias_offset as u32);
    v.push(l.activation);
    v.push(0);
    v.push(0);
    v.push(0);
    assert(v@ =~= layer_bytes(*l));
    Ok(v)
}

/// Checks each layer and writes its metadata after the header, stopping at
/// the first layer that fails.
#[verifier::rlimit(60)]
#[verifier::spinoff_prover]
fn write_layers(
    out: &mut [u8],
    layers: &[LayerSpec],
    wl: usize,
    bl: usize,
    s0: Ghost<Seq<u8>>,
    hb: Ghost<Seq<u8>>,
) -> (r: Result<(), ModelFormatError>)
    requires
        hb@.len() == 20,
        old(out)@ == splice(s0@, 0, hb@),
        s0@.len() == old(out)@.len(),
        20 + 20 * layers@.len() <= old(out)@.len(),
    ensures
        match r {
            Ok(_) => first_bad_layer(layers@, wl as int, bl as int, layers@.len() as int) is None
                && final(out)@ == splice(s0@, 0, hb@ + layers_bytes(layers@, layers@.len() as int)),
            Err(e) => match first_bad_layer(layers@, wl as int, bl as int, layers@.len() as int) {
                Some(k) => e == layer_error(layer_desc(layers@[k]), wl as int, bl as int).unwrap()
                    && final(out)@ == splice(s0@, 0, hb@ + layers_bytes(layers@, k)),
                None => false,
            },
        },
{
    let n = layers.len();
    let out_len = out.len();
    let mut cursor: usize = 20;
    let mut i: usize = 0;
    while i < n
        invariant
            n == layers@.len(),
            out_len == out@.len(),
            i <= n,
            20 + 20 * n <= out@.len(),
            out@.len() == s0@.len(),
            hb@.len() == 20,
            cursor == 20 + 20 * i,
            out@ == splice(s0@, 0, hb@ + layers_bytes(layers@, i as int)),
            first_bad_layer(layers@, wl as int, bl as int, i as int) is None,
        decreases n - i,
    {
        let d = match layers[i] {
            LayerSpec::Dense(d) => d,
        };
        assert(d == layer_desc(layers@[i as int]));
        proof {
            lemma_layers_len(layers@, i as int);
        }
        match layer_meta(&d, wl, bl) {
            Ok(v) => {
                write_bytes(out, cursor, v.as_slice());
                proof {
                    crate::bytes::lemma_splice_concat(
                        s0@,
                        0,
                        hb@ + layers_bytes(layers@, i as int),
                        layer_bytes(d),
                    );
                    assert(hb@ + layers_bytes(layers@, i + 1) =~= (hb@ + layers_bytes(
                        layers@,
                        i as int,
                    )) + layer_bytes(d));
                }
                cursor = cursor + 20;
            },
            Err(e) => {
                proof {
                    lemma_first_bad_persists(layers@, wl as int, bl as int, i as int, n as int);
                }
                return Err(e);
            },
        }
        i = i + 1;
    }
    Ok(())
}

/// Encodes a model into an RMD1 payload at the start of `out`.
#[verifier::rlimit(40)]
pub fn encode_model<T: Scalar>(
    layers: &[LayerSpec],
    weights: &[T],
    biases: &[T],
    out: &mut [u8],
) -> (r: Result<usize, ModelFormatError>)
    ensures
        encode_model_outcome(old(out)@, final(out)@, r, layers@, weights@, biases@),
{
    let n = layers.len();
    let wl = weights.len();
    let bl = biases.len();
    let needed = match encoded_size(T::byte_size(), n, wl, bl) {
        Some(v) => v,
        None => {
            return Err(ModelFormatError::BadHeader);
        },
    };
    if out.len() < needed {
        return Err(ModelFormatError::CapacityTooSmall);
    }
    let tag = T::dtype_tag();
    match write_header(out, tag, n, wl, bl) {
        Some(_) => {},
        None => {
            return Err(ModelFormatError::BadHeader);
        },
    }
    let ghost s0 = old(out)@;
    let ghost hb = rmd1_header_bytes(tag, n as u32, wl as u32, bl as u32);
    proof {
        lemma_u16_le(1);
        lemma_u32_le(n as u32);
        lemma_u32_le(wl as u32);
        lemma_u32_le(bl as u32);
    }
    proof {
        assert(T::width_spec() * wl >= 0) by (nonlinear_arith);
        assert(T::width_spec() * bl >= 0) by (nonlinear_arith);
    }
    match write_layers(out, layers, wl, bl, Ghost(s0), Ghost(hb)) {
        Ok(_) => {},
        Err(e) => {
            return Err(e);
        },
    }
    let cursor: usize = 20 + 20 * n;
    let mut vals: Vec<u8> = Vec::new();
    let mut j: usize = 0;
    while j < wl
        invariant
            wl == weights@.len(),
            j <= wl,
            vals@ == scalars_bytes(weights@, j as int),
            forall|k: int| 0 <= k < j ==> (#[trigger] weights@[k]).le_bytes().len() == T::width_spec(),
        decreases wl - j,
    {
        weights[j].push_le(&mut vals);
        j = j + 1;
    }
    let ghost wbytes = vals@;
    let mut k: usize = 0;
    while k < bl
        invariant
            bl == biases@.len(),
            k <= bl,
            vals@ == wbytes + scalars_bytes(biases@, k as int),
            forall|m: int| 0 <= m < k ==> (#[trigger] biases@[m]).le_bytes().len() == T::width_spec(),
        decreases bl - k,
    {
        let ghost before = vals@;
        biases[k].push_le(&mut vals);
        k = k + 1;
        assert(vals@ =~= wbytes + scalars_bytes(biases@, k as int));
    }
    proof {
        lemma_layers_len(layers@, n as int);
        lemma_scalars_len(weights@, wl as int);
        lemma_scalars_len(biases@, bl as int);
        assert(T::width_spec() * wl + T::width_spec() * bl == vals@.len());
        crate::bytes::lemma_splice_concat(s0, 0, hb + layers_bytes(layers@, n as int), vals@);
        assert(hb + layers_bytes(layers@, n as int) + vals@ =~= model_bytes(layers@, weights@, biases@));
    }
    write_bytes(out, cursor, vals.as_slice());
    let ghost mb = model_bytes(layers@, weights@, biases@);
    proof {
        assert(out@.subrange(0, needed as int) =~= mb);
        law_header_roundtrip(mb, tag, n as u32, wl as u32, bl as u32);
        assert(splice(mb, 0, hb) =~= mb);
    }
    if !has_full_payload(vstd::slice::slice_subrange(out, 0, needed)) {
        return Err(ModelFormatError::BadHeader);
    }
    Ok(needed)
}

} // verus!
