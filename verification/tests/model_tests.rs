use native_neural_network::format::lmlp::{
    encode_lmlp_graph_into, parse_lmlp_graph, LmlpEdgeView, LmlpNodeView, LMLP_GRAPH_VERSION,
};
use native_neural_network::format::rmd1::{
    encode_model, encoded_size, expected_encoded_size_from_header, has_full_payload,
    is_header_consistent, parse_header, scalar_bytes_for_dtype, validate, write_header, Header,
    LayerDesc, LayerSpec, ModelFormatError,
};
use native_neural_network::format::train_config::{train_config_decode, train_config_encode};
use native_neural_network::rnn_format::scanner::encoded_payload_size;

#[test]
fn lmlp_graph_round_trip() {
    let nodes = [
        LmlpNodeView {
            kind_transform: 1,
            memory_flags: 0,
            norm_flags: 0,
            activation: 2,
            in_dim: 32,
            out_dim: 64,
            theta_offset: 0,
            theta_len: 2048,
        },
        LmlpNodeView {
            kind_transform: 4,
            memory_flags: 1,
            norm_flags: 1,
            activation: 0,
            in_dim: 64,
            out_dim: 8,
            theta_offset: 2048,
            theta_len: 512,
        },
    ];
    let edges = [LmlpEdgeView {
        from: 0,
        to: 1,
        default_mode: 0,
        w_offset: 0,
        w_len: 2048,
        delay_hint: 0,
        phase: 0.0f32.to_bits(),
        decay: 1.0f32.to_bits(),
    }];
    let in_ids = [0u32];
    let out_ids = [1u32];

    let mut buf = [0u8; 256];
    let used = encode_lmlp_graph_into(
        LMLP_GRAPH_VERSION,
        0,
        &nodes,
        &edges,
        &in_ids,
        &out_ids,
        100,
        &mut buf,
    )
    .unwrap();

    let view = parse_lmlp_graph(&buf[..used]).unwrap();
    assert_eq!(view.version, LMLP_GRAPH_VERSION);
    assert_eq!(view.dtype_tag, 0);
    assert_eq!(view.node_count, 2);
    assert_eq!(view.edge_count, 1);
    assert_eq!(view.vocab_size, 100);
    assert!(view.node(0).unwrap() == nodes[0]);
    assert!(view.node(1).unwrap() == nodes[1]);
    assert!(view.edge(0).unwrap() == edges[0]);
    assert_eq!(view.in_id(0).unwrap(), 0);
    assert_eq!(view.out_id(0).unwrap(), 1);
    assert!(view.node(2).is_none());
    assert!(parse_lmlp_graph(&buf[..used - 1]).is_none());
}

#[test]
fn lmlp_encode_needs_room_and_parse_needs_dtype() {
    let mut small = [0u8; 23];
    assert_eq!(encode_lmlp_graph_into(1, 0, &[], &[], &[], &[], 0, &mut small), None);
    assert_eq!(small, [0u8; 23]);
    let mut buf = [0u8; 24];
    assert_eq!(encode_lmlp_graph_into(1, 5, &[], &[], &[], &[], 7, &mut buf), Some(24));
    assert!(parse_lmlp_graph(&buf).is_none());
    buf[2] = 1;
    let view = parse_lmlp_graph(&buf).unwrap();
    assert_eq!(view.vocab_size, 7);
    assert!(view.in_id(0).is_none());
}

#[test]
fn rmd1_header_write_then_read() {
    let mut out = [0xFFu8; 24];
    assert_eq!(write_header(&mut out, 1, 3, 40, 9), Some(()));
    let h = parse_header(&out).unwrap();
    assert_eq!(h, Header { version: 1, dtype: 1, layer_count: 3, weights_len: 40, biases_len: 9 });
    assert!(is_header_consistent(&h));
    assert_eq!(out[20..], [0xFFu8; 4]);
    assert_eq!(write_header(&mut out, 2, 3, 40, 9), None);
    assert_eq!(write_header(&mut [0u8; 19], 0, 1, 1, 1), None);
    assert!(!is_header_consistent(&Header { version: 1, dtype: 0, layer_count: 0, weights_len: 0, biases_len: 0 }));
    assert!(parse_header(b"XMD1________________").is_none());
}

#[test]
fn rmd1_sizes() {
    assert_eq!(scalar_bytes_for_dtype(0), Some(4));
    assert_eq!(scalar_bytes_for_dtype(1), Some(8));
    assert_eq!(scalar_bytes_for_dtype(2), None);
    assert_eq!(encoded_size(4, 2, 10, 3), Some(20 + 40 + 40 + 12));
    assert_eq!(encoded_size(8, usize::MAX, 1, 1), None);
    assert_eq!(encoded_payload_size(1, 1, 2, 3), Some(20 + 20 + 16 + 24));
    assert_eq!(encoded_payload_size(3, 1, 2, 3), None);
}

#[test]
fn encode_model_writes_a_full_payload() {
    let layer = LayerDesc { input_size: 2, output_size: 3, weight_offset: 0, bias_offset: 0, activation: 1 };
    let weights: [u32; 6] = [1, 2, 3, 4, 5, 6];
    let biases: [u32; 3] = [7, 8, 9];
    let mut out = [0u8; 128];
    let n = encode_model(&[LayerSpec::Dense(layer)], &weights, &biases, &mut out).unwrap();
    assert_eq!(n, 20 + 20 + 24 + 12);
    assert!(has_full_payload(&out[..n]));
    assert_eq!(expected_encoded_size_from_header(&out[..n]), Some(n));
    assert_eq!(&out[20..24], &2u32.to_le_bytes());
    assert_eq!(out[36], 1);
    assert_eq!(&out[40..44], &1u32.to_le_bytes());
    assert_eq!(&out[64..68], &7u32.to_le_bytes());

    let wide: [u64; 6] = [1, 2, 3, 4, 5, 6];
    let bias64: [u64; 3] = [0; 3];
    let mut out64 = [0u8; 256];
    let n64 = encode_model(&[LayerSpec::Dense(layer)], &wide, &bias64, &mut out64).unwrap();
    assert_eq!(n64, 20 + 20 + 48 + 24);
    assert_eq!(out64[6], 1);

    let bad = LayerDesc { input_size: 4, output_size: 3, weight_offset: 0, bias_offset: 0, activation: 0 };
    assert_eq!(
        encode_model(&[LayerSpec::Dense(bad)], &weights, &biases, &mut out),
        Err(ModelFormatError::InvalidLayer)
    );
    assert_eq!(validate(&bad, 6, 3), Err(ModelFormatError::InvalidLayer));
    assert_eq!(validate(&layer, 6, 3), Ok(()));
    let none: [LayerSpec; 0] = [];
    assert_eq!(encode_model(&none, &weights, &biases, &mut out), Err(ModelFormatError::BadHeader));
    assert_eq!(
        encode_model(&[LayerSpec::Dense(layer)], &weights, &biases, &mut [0u8; 10]),
        Err(ModelFormatError::CapacityTooSmall)
    );
}

#[test]
fn train_config_round_trip() {
    let dirs = ["dataset/en", "dataset/fr", "."];
    let mut out = [0u8; 128];
    let n = train_config_encode(512, 0xA1B2_C3D4_E5F6_0001, &dirs, &mut out).unwrap();
    assert_eq!(n, 20 + 14 + 14 + 5);
    let view = train_config_decode(&out[..n]).unwrap();
    assert_eq!(view.train_window, 512);
    assert_eq!(view.seed, 0xA1B2_C3D4_E5F6_0001);
    assert_eq!(view.dir_count, 3);
    assert_eq!(view.dir(0), Some("dataset/en"));
    assert_eq!(view.dir(1), Some("dataset/fr"));
    assert_eq!(view.dir(2), Some("."));
    assert_eq!(view.dir(3), None);
    assert!(train_config_decode(&out[..19]).is_none());
    let mut short = [0u8; 30];
    assert_eq!(train_config_encode(1, 2, &dirs, &mut short), None);
    assert_eq!(&short[..4], b"TCF1");
    assert_eq!(&short[20..24], &10u32.to_le_bytes());
}

#[test]
fn train_config_rejects_non_utf8_directory() {
    let mut blob = Vec::new();
    blob.extend_from_slice(b"TCF1");
    blob.extend_from_slice(&7u32.to_le_bytes());
    blob.extend_from_slice(&9u64.to_le_bytes());
    blob.extend_from_slice(&2u32.to_le_bytes());
    blob.extend_from_slice(&2u32.to_le_bytes());
    blob.extend_from_slice(&[0xff, 0xfe]);
    blob.extend_from_slice(&2u32.to_le_bytes());
    blob.extend_from_slice(b"ok");
    let view = train_config_decode(&blob).unwrap();
    assert_eq!(view.dir(0), None);
    assert_eq!(view.dir(1), Some("ok"));
    let mut utf = Vec::new();
    utf.extend_from_slice(b"TCF1");
    utf.extend_from_slice(&7u32.to_le_bytes());
    utf.extend_from_slice(&9u64.to_le_bytes());
    utf.extend_from_slice(&1u32.to_le_bytes());
    utf.extend_from_slice(&("données".len() as u32).to_le_bytes());
    utf.extend_from_slice("données".as_bytes());
    assert_eq!(train_config_decode(&utf).unwrap().dir(0), Some("données"));
}
