use native_neural_network::batching::{
    count_non_pad, make_padding_mask, max_sequence_len, pad_sequences_u32, sequence_lengths,
    BatchError,
};
use native_neural_network::codec::lz77::{
    lz77_compress, lz77_compressed_bound, lz77_decompress, lz77_decompressed_len, lz77_hash3,
};
use native_neural_network::format::summary::rle_encode_bytes;
use native_neural_network::graph::{route_top1, Mode, MoeError, Tick};
use native_neural_network::paths::{read_step, validate_path, write_step, FsError, ReadStep};
use native_neural_network::quant::{pack_ternary, ternary_packed_len, unpack_ternary, QuantError};
use native_neural_network::training::{
    batched_work_count, block_param_count, checkpoint_count, io_matches_layers,
    optimizer_state_len, required_train_buffer_len, LmDims, OptimizerKind,
};

#[test]
fn ternary_codes_round_trip() {
    assert_eq!(ternary_packed_len(0), 0);
    assert_eq!(ternary_packed_len(5), 1);
    assert_eq!(ternary_packed_len(6), 2);
    let trits = [2u8, 0, 1, 1, 2, 0, 2];
    let mut packed = [0xFFu8; 3];
    pack_ternary(&trits, &mut packed).unwrap();
    assert_eq!(packed[0], 2 + 0 * 3 + 1 * 9 + 1 * 27 + 2 * 81);
    assert_eq!(packed[1], 0 + 2 * 3);
    assert_eq!(packed[2], 0xFF);
    assert_eq!(unpack_ternary(&packed, 7).unwrap(), trits.to_vec());
    assert_eq!(pack_ternary(&[], &mut packed), Err(QuantError::Empty));
    assert_eq!(pack_ternary(&trits, &mut [0u8; 1]), Err(QuantError::ShapeMismatch));
    assert_eq!(unpack_ternary(&packed[..1], 7), Err(QuantError::ShapeMismatch));
}

#[test]
fn modes_and_ticks() {
    for (i, m) in Mode::all().iter().enumerate() {
        assert_eq!(m.as_u8() as usize, i);
        assert_eq!(Mode::from_u8(m.as_u8()), Some(*m));
    }
    assert_eq!(Mode::from_u8(4), None);
    assert_eq!(Tick(5).advance(3), Tick(8));
    assert_eq!(Tick(u64::MAX).advance(2), Tick(1));
}

#[test]
fn route_top1_copies_the_expert() {
    let expert = [1i32, 2, 3, 4];
    let mut out = [0i32; 3];
    route_top1(&expert, 2, &mut out).unwrap();
    assert_eq!(out, [1, 2, 0]);
    assert_eq!(route_top1(&expert, 0, &mut out), Err(MoeError::ShapeMismatch));
    assert_eq!(route_top1(&expert, 4, &mut out), Err(MoeError::ShapeMismatch));
}

#[test]
fn training_sizes() {
    let dims = LmDims {
        vocab_size: 32,
        context_len: 4,
        hidden_size: 8,
        kv_h: 4,
        ffw_size: 16,
        num_layers: 2,
        num_heads: 2,
    };
    let s = 4;
    let h = 8;
    let kv = 4;
    let f = 16;
    let nh = 2;
    let v = 32;
    let stored = 6 * s * h + 2 * s * kv + 2 * s * f + nh * s * s;
    let working = 10 * s * h + 2 * s * kv + 3 * s * f + nh * s + s * v + v;
    assert_eq!(batched_work_count(&dims), stored + working);
    assert_eq!(checkpoint_count(&dims), 2 * 4 * 8);
    assert_eq!(block_param_count(&dims), h + h * h + 2 * kv * h + h * h + h + 3 * f * h);
    assert_eq!(required_train_buffer_len(&[3, 4, 2]), Some(9));
    assert_eq!(required_train_buffer_len(&[]), None);
    assert_eq!(required_train_buffer_len(&[usize::MAX, 1]), None);
    assert!(io_matches_layers(&[3, 4, 2], 3, 2));
    assert!(!io_matches_layers(&[3, 4, 2], 3, 4));
    assert!(!io_matches_layers(&[3], 3, 3));
    let adam = OptimizerKind::adamw(0.9f32, 0.999, 1e-8, 0.01);
    assert_eq!(optimizer_state_len(adam, 10), Some(20));
    assert_eq!(optimizer_state_len(adam, usize::MAX), None);
    let sgd: OptimizerKind<f32> = OptimizerKind::Sgd { momentum: 0.9, nesterov: false };
    assert_eq!(optimizer_state_len(sgd, 10), Some(10));
}

#[test]
fn lz77_round_trip() {
    let input: Vec<u8> = b"abcabcabcabcabcabcabcabcxyzxyzxyz hello hello hello".to_vec();
    let mut comp = vec![0u8; lz77_compressed_bound(input.len())];
    let n = lz77_compress(&input, &mut comp).unwrap();
    assert!(n < input.len() + 8);
    assert_eq!(lz77_decompressed_len(&comp[..n]), Some(input.len()));
    let mut back = vec![0u8; input.len()];
    assert!(lz77_decompress(&comp[..n], &mut back));
    assert_eq!(back, input);
    assert!(!lz77_decompress(b"LZ7", &mut back));
    assert_eq!(lz77_decompressed_len(b"XX77aaaa"), None);
}

#[test]
fn rle_runs() {
    let mut out = [0u8; 8];
    assert_eq!(rle_encode_bytes(&[5, 5, 5, 1], &mut out), Some(4));
    assert_eq!(&out[..4], &[3, 5, 1, 1]);
    assert_eq!(rle_encode_bytes(&[1, 2, 3, 4, 5], &mut out), None);
}

#[test]
fn batching_helpers() {
    let a: &[u32] = &[1, 2, 3];
    let b: &[u32] = &[4];
    let mut out = [9u32; 6];
    pad_sequences_u32(&[a, b], 0, &mut out, 3).unwrap();
    assert_eq!(out, [1, 2, 3, 4, 0, 0]);
    assert_eq!(pad_sequences_u32(&[a, b], 0, &mut [0u32; 5], 3), Err(BatchError::ShapeMismatch));
    let mut mask = [7u8; 6];
    make_padding_mask(&out, 0, &mut mask).unwrap();
    assert_eq!(mask, [1, 1, 1, 1, 0, 0]);
    assert_eq!(make_padding_mask(&[], 0, &mut mask), Err(BatchError::Empty));
    assert_eq!(count_non_pad(&out, 0), 4);
    assert_eq!(max_sequence_len(&[a, b]), Some(3));
    assert_eq!(max_sequence_len(&[]), None);
    let mut lens = [0usize; 2];
    assert!(sequence_lengths(&[a, b], &mut lens));
    assert_eq!(lens, [3, 1]);
    assert!(!sequence_lengths(&[a, b], &mut [0usize; 1]));
}

#[test]
fn paths_are_c_strings() {
    assert_eq!(validate_path(b"/tmp/x\0"), Ok(()));
    assert_eq!(validate_path(b"/tmp/x"), Err(FsError::InvalidPath));
    assert_eq!(validate_path(b""), Err(FsError::InvalidPath));
    assert_eq!(validate_path(b"/t\0mp\0"), Err(FsError::InvalidPath));
}

#[test]
fn chunked_io_decisions() {
    assert!(matches!(read_step(10, -1), ReadStep::Finish(Err(FsError::ReadFailed))));
    assert!(matches!(read_step(10, 0), ReadStep::Finish(Ok(10))));
    assert!(matches!(read_step(10, 5), ReadStep::Deliver { chunk: 5, total: 15 }));
    assert!(matches!(read_step(usize::MAX - 1, 5), ReadStep::Deliver { chunk: 5, total: usize::MAX }));
    assert_eq!(write_step(3, 4), Ok(7));
    assert_eq!(write_step(3, 0), Err(FsError::WriteFailed));
    assert_eq!(write_step(3, -2), Err(FsError::WriteFailed));
    assert_eq!(write_step(usize::MAX, 1), Ok(usize::MAX));
}

#[test]
fn lz77_hash_buckets() {
    assert_eq!(lz77_hash3(1, 2, 3), 410);
    assert_eq!(lz77_hash3(255, 255, 255), 303);
    assert_eq!(lz77_hash3(0, 0, 0), 0);
}

#[test]
fn lz77_compresses_a_run_to_a_literal_and_a_match() {
    let mut out = [0u8; 32];
    assert_eq!(lz77_compress(b"aaaaaa", &mut out), Some(12));
    assert_eq!(&out[..12], &[b'L', b'Z', b'7', b'7', 6, 0, 0, 0, 0x02, b'a', 0x00, 0x12]);
    assert!(out[12..].iter().all(|&b| b == 0));
    let mut short = [0u8; 11];
    assert_eq!(lz77_compress(b"aaaaaa", &mut short), None);
    let mut exact = [0u8; 12];
    assert_eq!(lz77_compress(b"aaaaaa", &mut exact), Some(12));
}
