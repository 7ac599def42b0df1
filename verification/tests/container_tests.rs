use native_neural_network::format::blob::{BlobDesc, RnnProtocolError};
use native_neural_network::format::container::{
    build_dense_lmlp_graph, build_dense_lmlp_tensors, fill_blob_payloads, BlobWrite, RnnFlowError,
};
use native_neural_network::format::lmlp::parse_lmlp_graph;
use native_neural_network::format::names::{
    BLOB_BIASES, BLOB_LAYER_META, BLOB_WEIGHTS, LMLP_CONFIG_BLOB_DATA, LMLP_WEIGHTS_BLOB_DATA,
    TOKENIZER_VOCAB_BLOB_DATA, TRAIN_CONFIG_BLOB_DATA,
};
use native_neural_network::format::payload::{
    header_tlv_payload, largest_layer_size, neuron_positions_blob_size, neuron_positions_rows,
    parse_payload, total_neurons_from_layer_meta,
};
use native_neural_network::format::rnn_encode::{
    encode_blob_payloads_no_digest, encode_blob_payloads_with_header_metadata,
};
use native_neural_network::rnn_format::bounds::{
    all_blob_bounds_valid, all_blob_digests_valid, find_blob_bytes, find_blob_index,
    find_layer_meta_blob, find_weights_blob,
};
use native_neural_network::rnn_format::parser::{parse_rnn_from_bytes, ParseError};
use native_neural_network::rnn_format::scanner::extract_header_summary;

const LAYER_META_SIZE: usize = 20;

#[test]
fn neuron_positions_rows_matches_layer_count() {
    let mut layer_meta = [0u8; 2 * LAYER_META_SIZE];
    layer_meta[0..4].copy_from_slice(&2u32.to_le_bytes());
    layer_meta[4..8].copy_from_slice(&3u32.to_le_bytes());
    layer_meta[LAYER_META_SIZE..LAYER_META_SIZE + 4].copy_from_slice(&3u32.to_le_bytes());
    layer_meta[LAYER_META_SIZE + 4..LAYER_META_SIZE + 8].copy_from_slice(&4u32.to_le_bytes());
    assert_eq!(neuron_positions_rows(&layer_meta).unwrap(), 10);
}

fn six_records<'a>(
    layer_meta: &'a [u8],
    weights: &'a [u8],
    biases: &'a [u8],
    lm_config: &'a [u8],
    lm_weights: &'a [u8],
    vocab: &'a [u8],
) -> Vec<BlobDesc<'a>> {
    vec![
        BlobDesc { name: BLOB_LAYER_META, dtype: 0, dims: [3, 5], ndim: 2, payload: layer_meta },
        BlobDesc { name: BLOB_WEIGHTS, dtype: 0, dims: [128, 0], ndim: 1, payload: weights },
        BlobDesc { name: BLOB_BIASES, dtype: 0, dims: [16, 0], ndim: 1, payload: biases },
        BlobDesc { name: LMLP_CONFIG_BLOB_DATA, dtype: 2, dims: [48, 0], ndim: 1, payload: lm_config },
        BlobDesc { name: LMLP_WEIGHTS_BLOB_DATA, dtype: 0, dims: [256, 0], ndim: 1, payload: lm_weights },
        BlobDesc { name: TOKENIZER_VOCAB_BLOB_DATA, dtype: 2, dims: [96, 0], ndim: 1, payload: vocab },
    ]
}

#[test]
fn six_blob_container_digests_roundtrip() {
    let layer_meta = [7u8; 60];
    let weights = [3u8; 512];
    let biases = [9u8; 64];
    let lm_config = [1u8; 48];
    let lm_weights = [5u8; 1024];
    let vocab = [2u8; 96];
    let records = six_records(&layer_meta, &weights, &biases, &lm_config, &lm_weights, &vocab);

    let mut out = [0u8; 8192];
    let used = encode_blob_payloads_with_header_metadata(
        &records,
        Some("small.rnn"),
        Some(b"BMK\x01"),
        &mut out,
    )
    .expect("encode");

    let handle = parse_rnn_from_bytes(&out[..used]).expect("parse");

    assert!(all_blob_bounds_valid(&handle), "bounds");
    assert!(all_blob_digests_valid(&handle), "digests");
}

#[test]
fn seven_blob_no_digest_container_roundtrip() {
    let layer_meta = [7u8; 60];
    let weights = [3u8; 512];
    let biases = [9u8; 64];
    let lm_config = [1u8; 48];
    let lm_weights = [5u8; 1024];
    let vocab = [2u8; 96];
    let train_config = [4u8; 32];
    let mut records = six_records(&layer_meta, &weights, &biases, &lm_config, &lm_weights, &vocab);
    records.push(BlobDesc {
        name: TRAIN_CONFIG_BLOB_DATA,
        dtype: 2,
        dims: [32, 0],
        ndim: 1,
        payload: &train_config,
    });

    let mut out = [0u8; 8192];
    let used =
        encode_blob_payloads_no_digest(&records, Some("small.rnn"), Some(b"BMK\x01"), &mut out)
            .expect("encode");

    let handle = parse_rnn_from_bytes(&out[..used]).expect("parse");

    assert!(all_blob_bounds_valid(&handle), "bounds");
    assert!(all_blob_digests_valid(&handle), "digests");
}

#[test]
fn fill_blob_payloads_rejects_invalid_layout() {
    let mut bytes = [0u8; 8];
    let writes = [BlobWrite { name: "missing", payload: &[] }];
    assert!(fill_blob_payloads(&mut bytes, &writes).is_err());
}

#[test]
fn encoded_blobs_read_back_in_order() {
    let layer_meta = [7u8; 60];
    let weights = [3u8; 512];
    let biases = [9u8; 64];
    let lm_config = [1u8; 48];
    let lm_weights = [5u8; 1024];
    let vocab = [2u8; 96];
    let records = six_records(&layer_meta, &weights, &biases, &lm_config, &lm_weights, &vocab);
    let mut out = vec![0xAAu8; 8192];
    let used =
        encode_blob_payloads_with_header_metadata(&records, Some("m"), None, &mut out).unwrap();
    let handle = parse_rnn_from_bytes(&out[..used]).unwrap();
    assert_eq!(handle.blobs.len(), 6);
    for (i, rec) in records.iter().enumerate() {
        let m = &handle.blobs[i];
        assert_eq!(m.name.as_slice(), rec.name.as_bytes());
        assert_eq!(m.dtype, rec.dtype);
        assert_eq!(m.ndim, rec.ndim);
        assert_eq!(m.length as usize, rec.payload.len());
        if i == 0 {
            assert_eq!(m.offset % 4, 0);
        } else {
            assert_eq!(m.offset % 16, 0);
        }
        let start = m.offset as usize;
        assert_eq!(&out[start..start + rec.payload.len()], rec.payload);
        assert!(m.has_stored_digest);
    }
    assert_eq!(handle.blobs[0].dims.as_slice(), &[3u8, 0, 0, 0, 5, 0, 0, 0]);
    let sha_of_layer_meta: [u8; 32] = [
        46, 73, 28, 20, 14, 195, 97, 208, 210, 9, 91, 115, 194, 218, 14, 137, 98, 40, 81, 179, 221,
        73, 82, 28, 164, 218, 225, 212, 32, 155, 9, 221,
    ];
    assert_eq!(handle.blobs[0].digest_sha256.as_slice(), &sha_of_layer_meta);
    assert_eq!(find_blob_index(&handle, b"biases"), Some(2));
    assert_eq!(find_blob_index(&handle, b"nope"), None);
    assert_eq!(find_layer_meta_blob(&handle).unwrap(), &layer_meta[..]);
    assert_eq!(find_weights_blob(&handle).unwrap(), &weights[..]);
    assert_eq!(find_blob_bytes(&handle, b"tokenizer.vocab").unwrap(), &vocab[..]);
    assert_eq!(header_tlv_payload(&out[..used], 4).unwrap(), b"m");
    assert_eq!(header_tlv_payload(&out[..used], 6), Err(RnnProtocolError::InvalidPayload));
    let summary = extract_header_summary(&out[..used]).unwrap();
    assert_eq!(summary.layer_count, 3);
    assert_eq!(summary.weights_len, 128);
    assert_eq!(summary.biases_len, 16);
    assert_eq!(summary.blob_count, 6);
}

#[test]
fn encoder_reports_small_buffer_and_bad_blobs() {
    let layer_meta = [7u8; 60];
    let weights = [3u8; 512];
    let biases = [9u8; 64];
    let lm_config = [1u8; 48];
    let lm_weights = [5u8; 1024];
    let vocab = [2u8; 96];
    let records = six_records(&layer_meta, &weights, &biases, &lm_config, &lm_weights, &vocab);
    let mut tiny = [0u8; 16];
    assert_eq!(
        encode_blob_payloads_with_header_metadata(&records, None, None, &mut tiny),
        Err(RnnProtocolError::CapacityTooSmall)
    );
    assert_eq!(tiny, [0u8; 16]);
    let payload = [1u8; 10];
    let bad = [BlobDesc { name: BLOB_WEIGHTS, dtype: 0, dims: [10, 0], ndim: 3, payload: &payload }];
    let mut out = [0u8; 1024];
    assert_eq!(
        encode_blob_payloads_no_digest(&bad, None, None, &mut out),
        Err(RnnProtocolError::BadHeader)
    );
}

#[test]
fn encoder_refuses_the_canonical_layout() {
    let payload = [1u8; 10];
    let one = [BlobDesc { name: BLOB_WEIGHTS, dtype: 0, dims: [10, 0], ndim: 1, payload: &payload }];
    let mut out = [0xAAu8; 1024];
    assert_eq!(
        encode_blob_payloads_with_header_metadata(&one, None, None, &mut out),
        Err(RnnProtocolError::BadHeader)
    );
    assert_eq!(
        encode_blob_payloads_no_digest(&[], None, None, &mut out),
        Err(RnnProtocolError::BadHeader)
    );
    assert!(out.iter().all(|&b| b == 0xAA));
}

#[test]
fn fill_blob_payloads_replaces_a_payload() {
    let layer_meta = [7u8; 60];
    let weights = [3u8; 512];
    let biases = [9u8; 64];
    let lm_config = [1u8; 48];
    let lm_weights = [5u8; 1024];
    let vocab = [2u8; 96];
    let records = six_records(&layer_meta, &weights, &biases, &lm_config, &lm_weights, &vocab);
    let mut out = vec![0u8; 8192];
    let used = encode_blob_payloads_no_digest(&records, None, None, &mut out).unwrap();
    assert_eq!(used % 16, 0);
    let bytes = &mut out[..used];
    let fresh = [4u8; 64];
    fill_blob_payloads(bytes, &[BlobWrite { name: BLOB_BIASES, payload: &fresh }]).unwrap();
    let handle = parse_rnn_from_bytes(bytes).unwrap();
    let start = handle.blobs[2].offset as usize;
    assert_eq!(&bytes[start..start + 64], &fresh);
    let wrong_len = [1u8; 3];
    assert_eq!(
        fill_blob_payloads(bytes, &[BlobWrite { name: BLOB_BIASES, payload: &wrong_len }]),
        Err(RnnFlowError::BadBytes)
    );
    assert_eq!(
        fill_blob_payloads(bytes, &[BlobWrite { name: "absent", payload: &[] }]),
        Err(RnnFlowError::Model)
    );
}

#[test]
fn parser_rejects_foreign_bytes() {
    assert_eq!(parse_rnn_from_bytes(&[0u8; 4]).err(), Some(ParseError::Truncated));
    let mut rmd1 = [0u8; 16];
    rmd1[..4].copy_from_slice(b"RMD1");
    assert_eq!(parse_rnn_from_bytes(&rmd1).err(), Some(ParseError::WrongFormatRmd1));
    assert_eq!(parse_rnn_from_bytes(&[1u8; 16]).err(), Some(ParseError::BadMagic));
}

#[test]
fn layer_meta_counts() {
    let mut lm = [0u8; 40];
    lm[0..4].copy_from_slice(&2u32.to_le_bytes());
    lm[4..8].copy_from_slice(&3u32.to_le_bytes());
    lm[24..28].copy_from_slice(&4u32.to_le_bytes());
    assert_eq!(total_neurons_from_layer_meta(&lm), Ok(9));
    assert_eq!(neuron_positions_blob_size(0, &lm), Ok(10 * 7 * 4));
    assert_eq!(neuron_positions_blob_size(1, &lm), Ok(10 * 7 * 8));
    assert_eq!(neuron_positions_blob_size(2, &lm), Err(RnnProtocolError::InvalidPayload));
    assert_eq!(largest_layer_size(&lm), Ok(4));
    assert_eq!(total_neurons_from_layer_meta(&lm[..30]), Err(RnnProtocolError::InvalidPayload));
    assert_eq!(largest_layer_size(&[0u8; 20]), Err(RnnProtocolError::InvalidPayload));
}

#[test]
fn payload_parts_are_split() {
    let mut b = vec![0u8; 20 + 20 + 2 * 4 + 4];
    b[0..4].copy_from_slice(b"RMD1");
    b[4..6].copy_from_slice(&1u16.to_le_bytes());
    b[8..12].copy_from_slice(&1u32.to_le_bytes());
    b[12..16].copy_from_slice(&2u32.to_le_bytes());
    b[16..20].copy_from_slice(&1u32.to_le_bytes());
    b[40] = 0xEE;
    let p = parse_payload(&b).ok().unwrap();
    assert_eq!(p.layer_count, 1);
    assert_eq!(p.layer_meta.len(), 20);
    assert_eq!(p.weights.len(), 8);
    assert_eq!(p.weights[0], 0xEE);
    assert_eq!(p.biases.len(), 4);
    assert_eq!(parse_payload(&b[..50]).err(), Some(RnnProtocolError::Truncated));
    b[6] = 7;
    assert_eq!(parse_payload(&b).err(), Some(RnnProtocolError::BadHeader));
    b[4] = 2;
    assert_eq!(parse_payload(&b).err(), Some(RnnProtocolError::BadVersion));
    b[0] = b'X';
    assert_eq!(parse_payload(&b).err(), Some(RnnProtocolError::BadMagic));
}

#[test]
fn dense_lmlp_tensors_interleave_layers() {
    let weights: Vec<u8> = (0u8..40).collect();
    let biases: Vec<u8> = (100u8..120).collect();
    let mut out = [0xEEu8; 64];
    let used = build_dense_lmlp_tensors(&[2, 3, 1], 0, &weights, &biases, &mut out).unwrap();
    assert_eq!(used, 24 + 12 + 12 + 4);
    assert_eq!(&out[0..24], &weights[0..24]);
    assert_eq!(&out[24..36], &biases[0..12]);
    assert_eq!(&out[36..48], &weights[24..36]);
    assert_eq!(&out[48..52], &biases[12..16]);
    assert_eq!(out[52], 0xEE);
    assert_eq!(build_dense_lmlp_tensors(&[5], 0, &weights, &biases, &mut out), None);
    assert_eq!(build_dense_lmlp_tensors(&[2, 3], 1, &weights, &biases, &mut out), None);
}

#[test]
fn dense_lmlp_graph_chains_the_layers() {
    let mut out = [0u8; 256];
    let used = build_dense_lmlp_graph(&[2, 3, 1], 1, &mut out).unwrap();
    let view = parse_lmlp_graph(&out[..used]).unwrap();
    assert_eq!(view.dtype_tag, 1);
    assert_eq!(view.node_count, 2);
    assert_eq!(view.edge_count, 1);
    let n0 = view.node(0).unwrap();
    let n1 = view.node(1).unwrap();
    assert_eq!((n0.kind_transform, n0.in_dim, n0.out_dim), (4, 2, 3));
    assert_eq!((n0.theta_offset, n0.theta_len), (0, 9));
    assert_eq!((n1.in_dim, n1.out_dim, n1.theta_offset, n1.theta_len), (3, 1, 9, 4));
    let e = view.edge(0).unwrap();
    assert_eq!((e.from, e.to), (0, 1));
    assert_eq!(e.phase, 0.0f32.to_bits());
    assert_eq!(e.decay, 1.0f32.to_bits());
    assert_eq!(view.in_id(0), Some(0));
    assert_eq!(view.out_id(0), Some(1));
    assert_eq!(build_dense_lmlp_graph(&[4], 0, &mut out), None);
    let mut small = [0u8; 8];
    assert_eq!(build_dense_lmlp_graph(&[2, 3, 1], 0, &mut small), None);
}
