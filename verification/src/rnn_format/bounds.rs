//! Checks on the blobs a parsed container describes: that each lies inside
//! the container, that stored digests match, and lookup by name.
use vstd::prelude::*;
use crate::bytes::bytes_equal;
use crate::digest::{sha256_of, sha256_bytes};
use crate::rnn_format::parser::{RnnHandle, BlobMeta, BlobMetaView, metas_view};
use crate::format::names::{
    BLOB_LAYER_META, BLOB_WEIGHTS, BLOB_BIASES, layer_meta_name, weights_name, biases_name,
    lemma_name_bytes,
};

verus! {

broadcast use vstd::slice::group_slice_axioms;

/// Whether the blob described by `m` lies inside `bytes`.
pub open spec fn blob_in_bounds(bytes: Seq<u8>, m: BlobMetaView) -> bool {
    m.offset + m.length <= bytes.len()
}

/// Whether the blob described by `m` has no stored digest, or one equal to the
/// SHA-256 digest of its bytes.
pub open spec fn blob_digest_ok(bytes: Seq<u8>, m: BlobMetaView) -> bool {
    !m.has_stored_digest || (blob_in_bounds(bytes, m) && sha256_of(
        bytes.subrange(m.offset as int, m.offset + m.length),
    ) == m.digest)
}

/// The index of the first blob named `name`.
pub open spec fn first_index(metas: Seq<BlobMetaView>, name: Seq<u8>) -> Option<int>
    decreases metas.len(),
{
    if metas.len() == 0 {
        None
    } else if metas[0].name == name {
        Some(0)
    } else {
        match first_index(metas.drop_first(), name) {
            Some(i) => Some(i + 1),
            None => None,
        }
    }
}

pub proof fn lemma_first_index(metas: Seq<BlobMetaView>, name: Seq<u8>)
    ensures
        first_index(metas, name) matches Some(i) ==> 0 <= i < metas.len() && metas[i].name == name
            && forall|j: int| 0 <= j < i ==> metas[j].name != name,
        first_index(metas, name) is None ==> forall|j: int|
            0 <= j < metas.len() ==> metas[j].name != name,
    decreases metas.len(),
{
    if metas.len() > 0 {
        lemma_first_index(metas.drop_first(), name);
        assert forall|j: int| 1 <= j < metas.len() implies metas[j] == metas.drop_first()[j - 1] by {}
    }
}

/// Whether blob `index` exists and lies inside the container.
pub fn blob_bounds_valid(handle: &RnnHandle, index: usize) -> (r: bool)
    ensures
        r <==> index < handle.blobs@.len() && blob_in_bounds(handle.bytes@, handle.blobs@[index as int]@),
{
    if index >= handle.blobs.len() {
        return false;
    }
    let b = &handle.blobs[index];
    let n = handle.bytes.len() as u64;
    b.offset <= n && b.length <= n - b.offset
}

/// Whether every blob lies inside the container.
pub fn all_blob_bounds_valid(handle: &RnnHandle) -> (r: bool)
    ensures
        r <==> forall|i: int|
            0 <= i < handle.blobs@.len() ==> blob_in_bounds(handle.bytes@, #[trigger] handle.blobs@[i]@),
{
    let mut i: usize = 0;
    while i < handle.blobs.len()
        invariant
            i <= handle.blobs@.len(),
            forall|j: int| 0 <= j < i ==> blob_in_bounds(handle.bytes@, #[trigger] handle.blobs@[j]@),
        decreases handle.blobs@.len() - i,
    {
        if !blob_bounds_valid(handle, i) {
            return false;
        }
        i = i + 1;
    }
    true
}

/// Whether blob `index` exists and its stored digest, if any, matches its bytes.
pub fn blob_digest_valid(handle: &RnnHandle, index: usize) -> (r: bool)
    ensures
        r <==> index < handle.blobs@.len() && blob_digest_ok(handle.bytes@, handle.blobs@[index as int]@),
{
    if index >= handle.blobs.len() {
        return false;
    }
    let b = &handle.blobs[index];
    if !b.has_stored_digest {
        return true;
    }
    let n = handle.bytes.len() as u64;
    if b.offset > n || b.length > n - b.offset {
        return false;
    }
    let start = b.offset as usize;
    let end = start + b.length as usize;
    let payload = vstd::slice::slice_subrange(handle.bytes, start, end);
    let computed = sha256_bytes(payload);
    bytes_equal(computed.as_slice(), b.digest_sha256.as_slice())
}

/// Whether every stored digest matches its blob.
pub fn all_blob_digests_valid(handle: &RnnHandle) -> (r: bool)
    ensures
        r <==> forall|i: int|
            0 <= i < handle.blobs@.len() ==> blob_digest_ok(handle.bytes@, #[trigger] handle.blobs@[i]@),
{
    let mut i: usize = 0;
    while i < handle.blobs.len()
        invariant
            i <= handle.blobs@.len(),
            forall|j: int| 0 <= j < i ==> blob_digest_ok(handle.bytes@, #[trigger] handle.blobs@[j]@),
        decreases handle.blobs@.len() - i,
    {
        if !blob_digest_valid(handle, i) {
            return false;
        }
        i = i + 1;
    }
    true
}

/// The index of the first blob named `name`.
pub fn find_blob_index(handle: &RnnHandle, name: &[u8]) -> (r: Option<usize>)
    ensures
        r matches Some(i) ==> first_index(metas_view(handle.blobs@), name@) == Some(i as int),
        r is None ==> first_index(metas_view(handle.blobs@), name@) is None,
{
    let ghost metas = metas_view(handle.blobs@);
    let mut i: usize = 0;
    assert(metas.skip(0) =~= metas);
    while i < handle.blobs.len()
        invariant
            metas == metas_view(handle.blobs@),
            i <= handle.blobs@.len(),
            forall|j: int| 0 <= j < i ==> #[trigger] metas[j].name != name@,
        decreases handle.blobs@.len() - i,
    {
        if bytes_equal(handle.blobs[i].name.as_slice(), name) {
            proof {
                assert(metas[i as int] == handle.blobs@[i as int]@);
                assert(metas[i as int].name == name@);
                lemma_first_index(metas, name@);
                if first_index(metas, name@) is Some {
                    let k = first_index(metas, name@).unwrap();
                    assert(k >= i) by {
                        if k < i {
                            assert(metas[k].name != name@);
                        }
                    }
                    assert(k <= i) by {
                        if k > i {
                            assert(metas[i as int].name != name@);
                        }
                    }
                }
            }
            return Some(i);
        }
        i = i + 1;
    }
    proof {
        lemma_first_index(metas, name@);
        if first_index(metas, name@) is Some {
            let k = first_index(metas, name@).unwrap();
            assert(metas[k].name != name@);
        }
    }
    None
}

/// The bytes of blob `index`, when it exists and lies inside the container.
pub fn blob_bytes<'a>(handle: &RnnHandle<'a>, index: usize) -> (r: Option<&'a [u8]>)
    ensures
        r is Some <==> index < handle.blobs@.len() && blob_in_bounds(
            handle.bytes@,
            handle.blobs@[index as int]@,
        ),
        r matches Some(s) ==> s@ == handle.bytes@.subrange(
            handle.blobs@[index as int].offset as int,
            handle.blobs@[index as int].offset + handle.blobs@[index as int].length,
        ),
{
    if index >= handle.blobs.len() {
        return None;
    }
    let b = &handle.blobs[index];
    let n = handle.bytes.len() as u64;
    if b.offset > n || b.length > n - b.offset {
        return None;
    }
    let start = b.offset as usize;
    let end = start + b.length as usize;
    Some(vstd::slice::slice_subrange(handle.bytes, start, end))
}

/// Whether `r` is what looking up the bytes of the first blob named `name`
/// gives: nothing when there is no such blob or it lies outside the
/// container, else its bytes.
pub open spec fn found_bytes(handle: &RnnHandle, name: Seq<u8>, r: Option<&[u8]>) -> bool {
    match first_index(metas_view(handle.blobs@), name) {
        None => r is None,
        Some(i) => {
            &&& r is Some <==> blob_in_bounds(handle.bytes@, handle.blobs@[i]@)
            &&& r matches Some(s) ==> s@ == handle.bytes@.subrange(
                handle.blobs@[i].offset as int,
                handle.blobs@[i].offset + handle.blobs@[i].length,
            )
        },
    }
}

/// The bytes of the first blob named `name`.
pub fn find_blob_bytes<'a>(handle: &RnnHandle<'a>, name: &[u8]) -> (r: Option<&'a [u8]>)
    ensures
        found_bytes(handle, name@, r),
{
    proof {
        lemma_first_index(metas_view(handle.blobs@), name@);
    }
    match find_blob_index(handle, name) {
        Some(i) => blob_bytes(handle, i),
        None => None,
    }
}

/// The bytes of the layer metadata blob.
pub fn find_layer_meta_blob<'a>(handle: &RnnHandle<'a>) -> (r: Option<&'a [u8]>)
    ensures
        found_bytes(handle, layer_meta_name(), r),
{
    proof {
        lemma_name_bytes();
    }
    let r = find_blob_bytes(handle, BLOB_LAYER_META.as_bytes());
    r
}

/// The bytes of the weights blob.
pub fn find_weights_blob<'a>(handle: &RnnHandle<'a>) -> (r: Option<&'a [u8]>)
    ensures
        found_bytes(handle, weights_name(), r),
{
    proof {
        lemma_name_bytes();
    }
    let r = find_blob_bytes(handle, BLOB_WEIGHTS.as_bytes());
    r
}

/// The bytes of the biases blob.
pub fn find_biases_blob<'a>(handle: &RnnHandle<'a>) -> (r: Option<&'a [u8]>)
    ensures
        found_bytes(handle, biases_name(), r),
{
    proof {
        lemma_name_bytes();
    }
    let r = find_blob_bytes(handle, BLOB_BIASES.as_bytes());
    r
}

} // verus!
