use native_neural_network::graph::{
    transport_law, EdgeData, Meta, Mode, NodeId, Signal, Tick, FULL_CONFIDENCE_BITS,
};
use native_neural_network::pool_files::{
    build_header, parse_header, pool_path, teacher_path, write_u32, LmShape, POOL_PATH_CAP,
};

#[test]
fn emitted_signal_is_fully_confident() {
    let payload = [1u32, 2, 3];
    let s = Signal::emitted(&payload, Tick(4), NodeId(2), Mode::Wave);
    assert_eq!(s.width(), 3);
    assert_eq!(s.confidence_bits, 1.0f32.to_bits());
    assert_eq!(FULL_CONFIDENCE_BITS, 1.0f32.to_bits());
    assert_eq!(s.metadata, Meta::neutral());
    assert_eq!(s.timestamp, Tick(4));
}

#[test]
fn transport_law_by_mode() {
    let payload = [0u8; 2];
    let mut s = Signal::emitted(&payload, Tick(0), NodeId(0), Mode::Dense);
    assert_eq!(transport_law(&s), (0, true));
    s.propagation_mode = Mode::Sequential;
    assert_eq!(transport_law(&s), (1, true));
    s.propagation_mode = Mode::Wave;
    s.metadata.distance = 7;
    assert_eq!(transport_law(&s), (7, true));
    s.propagation_mode = Mode::Event;
    for (c, expect) in [
        (0.5f32, true),
        (0.49f32, false),
        (1.0f32, true),
        (f32::INFINITY, true),
        (f32::NAN, false),
        (-1.0f32, false),
        (-0.0f32, false),
    ] {
        s.confidence_bits = c.to_bits();
        assert_eq!(transport_law(&s), (0, expect));
        assert_eq!(transport_law(&s).1, c >= 0.5);
    }
}

#[test]
fn edges_deliver_forward_only() {
    let payload = [0u8; 1];
    let s = Signal::emitted(&payload, Tick(0), NodeId(1), Mode::Sequential);
    let fwd = EdgeData::new(NodeId(1), NodeId(2));
    let back = EdgeData::new(NodeId(2), NodeId(1));
    assert_eq!(fwd.mode, Mode::Dense);
    let d = fwd.transport(&s);
    assert_eq!((d.delay, d.deliver), (1, true));
    let d = back.transport(&s);
    assert_eq!((d.delay, d.deliver), (1, false));
    let e = EdgeData::with_mode(NodeId(3), NodeId(9), Mode::Event, Meta::neutral());
    assert_eq!(e.mode, Mode::Event);
}

fn shape() -> LmShape {
    LmShape {
        vocab_size: 1000,
        context_len: 64,
        hidden_size: 64,
        ffw_size: 256,
        num_layers: 2,
        num_heads: 4,
        num_kv_heads: 2,
        head_hidden: 16,
        rope_theta_bits: 10_000.0f32.to_bits(),
    }
}

#[test]
fn pool_and_teacher_paths() {
    let mut buf = [0xFFu8; POOL_PATH_CAP];
    let n = pool_path(&shape(), 12345, &mut buf).unwrap();
    assert_eq!(&buf[..n], b"/tmp/.nnn_pool/lm_1000_64_256_2_12345.bin\0");
    assert_eq!(buf[n], 0xFF);
    let mut small = [0u8; 16];
    assert_eq!(pool_path(&shape(), 1, &mut small), None);
    assert_eq!(small, [0u8; 16]);

    let n = teacher_path(0, &mut buf).unwrap();
    assert_eq!(&buf[..n], b"/tmp/.nnn_pool/teacher_0.bin\0");
    let n = teacher_path(u32::MAX, &mut buf).unwrap();
    assert_eq!(&buf[..n], b"/tmp/.nnn_pool/teacher_4294967295.bin\0");
}

#[test]
fn decimal_writer() {
    let mut buf = [b'x'; 12];
    assert_eq!(write_u32(&mut buf, 1, 907), 4);
    assert_eq!(&buf, b"x907xxxxxxxx");
    assert_eq!(write_u32(&mut buf, 0, 0), 1);
    assert_eq!(buf[0], b'0');
}

#[test]
fn teacher_header_round_trips() {
    let mut h = [0u8; 36];
    build_header(&shape(), &mut h);
    assert_eq!(&h[0..4], &1000u32.to_le_bytes());
    assert_eq!(&h[32..36], &10_000.0f32.to_bits().to_le_bytes());
    assert_eq!(parse_header(&h), shape());
}
