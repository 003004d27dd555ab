use draco_rs::decode::{Decoder, DecoderBuffer};
use draco_rs::encode::{Encoder, EncoderBuffer};
use draco_rs::pointcloud::{AttributeKind, ElementType, PointCloud, PointCloudBuilder};
use draco_rs::status::StatusCode;

fn f64s_to_bytes(values: &[f64]) -> Vec<u8> {
    let mut raw = Vec::new();
    for v in values {
        raw.extend_from_slice(&v.to_le_bytes());
    }
    raw
}

fn bytes_to_f64s(bytes: &[u8]) -> Vec<f64> {
    bytes
        .chunks_exact(8)
        .map(|c| f64::from_le_bytes(c.try_into().unwrap()))
        .collect()
}

fn gen_points() -> Vec<[f64; 3]> {
    vec![
        [0.0, 0.1, 0.2],
        [0.1, 0.2, 0.3],
        [0.2, 0.3, 0.4],
        [0.3, 0.4, 0.5],
        [0.4, 0.5, 0.6],
        [0.5, 0.6, 0.7],
        [0.6, 0.7, 0.8],
        [0.7, 0.8, 0.9],
        [0.8, 0.9, 1.0],
        [0.9, 1.0, 1.1],
    ]
}

#[test]
fn round_trip_ten_f64_positions() {
    // Ten points with one POSITION attribute of three f64 components,
    // encoded with 14 quantization bits requested: every decoded position
    // must match its input within the implied quantization step; this
    // engine keeps full precision, so they match exactly.
    let points = gen_points();
    let mut builder = PointCloudBuilder::new(points.len() as u32);
    let attr = builder
        .add_attribute(AttributeKind::Position, 3, ElementType::F64)
        .unwrap();
    for (i, p) in points.iter().enumerate() {
        builder.add_point(attr, i as u32, &f64s_to_bytes(p)).unwrap();
    }
    let cloud = builder.build(false);

    let mut encoder = Encoder::new()
        .set_speed_options(5, 5)
        .set_attribute_quantization(AttributeKind::Position, 14);
    let buffer = cloud.to_buffer(&mut encoder).unwrap();

    let decode_buffer = DecoderBuffer::from_encoder_buffer(&buffer);
    let mut decoder = Decoder::new();
    let decoded = PointCloud::from_buffer(&mut decoder, &decode_buffer).unwrap();

    assert_eq!(decoded.num_points(), points.len() as u32);
    let quantization_step = 1.1 / ((1u32 << 14) as f64);
    for (i, p) in points.iter().enumerate() {
        let bytes = decoded.get_point_alloc(attr, i as u32).unwrap();
        let got = bytes_to_f64s(&bytes);
        for (a, b) in p.iter().zip(got.iter()) {
            assert!((a - b).abs() <= quantization_step);
            assert_eq!(a, b);
        }
    }
}

#[test]
fn round_trip_multiple_attributes() {
    let mut builder = PointCloudBuilder::new(4);
    let pos = builder
        .add_attribute(AttributeKind::Position, 3, ElementType::F64)
        .unwrap();
    let col = builder
        .add_attribute(AttributeKind::Color, 4, ElementType::U8)
        .unwrap();
    let gen = builder
        .add_attribute(AttributeKind::Generic, 1, ElementType::I32)
        .unwrap();
    for i in 0..4u32 {
        let f = i as f64;
        builder
            .add_point(pos, i, &f64s_to_bytes(&[f, f + 0.5, -f]))
            .unwrap();
        builder
            .add_point(col, i, &[i as u8, 10 + i as u8, 20, 255])
            .unwrap();
        builder
            .add_point(gen, i, &(-(i as i32) * 3).to_le_bytes())
            .unwrap();
    }
    let cloud = builder.build(false);

    let mut encoder = Encoder::new();
    let buffer = cloud.to_buffer(&mut encoder).unwrap();
    let decode_buffer = DecoderBuffer::from_encoder_buffer(&buffer);
    let decoded = Decoder::new().decode(&decode_buffer).unwrap();

    assert_eq!(decoded.num_points(), 4);
    assert_eq!(decoded.num_named_attributes(AttributeKind::Position), 1);
    assert_eq!(decoded.num_named_attributes(AttributeKind::Color), 1);
    for i in 0..4u32 {
        assert_eq!(
            decoded.get_point_alloc(pos, i).unwrap(),
            cloud.get_point_alloc(pos, i).unwrap()
        );
        assert_eq!(
            decoded.get_point_alloc(col, i).unwrap(),
            cloud.get_point_alloc(col, i).unwrap()
        );
        assert_eq!(
            decoded.get_point_alloc(gen, i).unwrap(),
            cloud.get_point_alloc(gen, i).unwrap()
        );
    }
}

#[test]
fn round_trip_deduplicated_cloud() {
    let mut builder = PointCloudBuilder::new(3);
    let attr = builder
        .add_attribute(AttributeKind::Generic, 2, ElementType::U16)
        .unwrap();
    builder.add_point(attr, 0, &[1, 0, 2, 0]).unwrap();
    builder.add_point(attr, 1, &[1, 0, 2, 0]).unwrap();
    builder.add_point(attr, 2, &[3, 0, 4, 0]).unwrap();
    let cloud = builder.build(true);
    assert_eq!(cloud.num_attribute_values(attr).unwrap(), 2);

    let buffer = cloud.to_buffer(&mut Encoder::new()).unwrap();
    let decoded = Decoder::new()
        .decode(&DecoderBuffer::from_encoder_buffer(&buffer))
        .unwrap();
    assert_eq!(decoded.num_points(), 3);
    assert_eq!(decoded.num_attribute_values(attr).unwrap(), 2);
    for i in 0..3u32 {
        assert_eq!(
            decoded.get_point_alloc(attr, i).unwrap(),
            cloud.get_point_alloc(attr, i).unwrap()
        );
    }
}

#[test]
fn empty_buffer_rejected() {
    let buffer = DecoderBuffer::from_buffer(&[]);
    let err = PointCloud::from_buffer(&mut Decoder::new(), &buffer).unwrap_err();
    assert_eq!(err.code(), Some(StatusCode::EngineFailure));
    assert!(!err.error_message().is_empty());
}

#[test]
fn truncated_buffer_rejected() {
    let mut builder = PointCloudBuilder::new(5);
    let attr = builder
        .add_attribute(AttributeKind::Position, 3, ElementType::F32)
        .unwrap();
    for i in 0..5u32 {
        let f = i as f32;
        let mut raw = Vec::new();
        for c in [f, f + 1.0, f + 2.0] {
            raw.extend_from_slice(&c.to_le_bytes());
        }
        builder.add_point(attr, i, &raw).unwrap();
    }
    let cloud = builder.build(false);
    let buffer = cloud.to_buffer(&mut Encoder::new()).unwrap();
    let bytes = buffer.as_slice();
    // Every proper prefix must be rejected, never crash.
    for cut in [0, 1, 3, 4, 7, bytes.len() / 2, bytes.len() - 1] {
        let truncated = DecoderBuffer::from_buffer(&bytes[..cut]);
        let err = PointCloud::from_buffer(&mut Decoder::new(), &truncated).unwrap_err();
        assert_eq!(err.code(), Some(StatusCode::EngineFailure));
    }
}

#[test]
fn trailing_bytes_rejected() {
    let builder = PointCloudBuilder::new(0);
    let cloud = builder.build(false);
    let buffer = cloud.to_buffer(&mut Encoder::new()).unwrap();
    let mut bytes = buffer.as_slice().to_vec();
    bytes.push(0);
    let err = PointCloud::from_buffer(&mut Decoder::new(), &DecoderBuffer::from_buffer(&bytes))
        .unwrap_err();
    assert_eq!(err.code(), Some(StatusCode::EngineFailure));
}

#[test]
fn wrong_magic_rejected() {
    let builder = PointCloudBuilder::new(0);
    let cloud = builder.build(false);
    let buffer = cloud.to_buffer(&mut Encoder::new()).unwrap();
    let mut bytes = buffer.as_slice().to_vec();
    bytes[0] ^= 0xff;
    let err = PointCloud::from_buffer(&mut Decoder::new(), &DecoderBuffer::from_buffer(&bytes))
        .unwrap_err();
    assert_eq!(err.code(), Some(StatusCode::EngineFailure));
}

#[test]
fn corrupt_point_map_rejected() {
    // A stream whose per-point value index points past the stored values
    // must be rejected rather than read out of bounds.
    let mut builder = PointCloudBuilder::new(1);
    let attr = builder
        .add_attribute(AttributeKind::Generic, 1, ElementType::U8)
        .unwrap();
    builder.add_point(attr, 0, &[9]).unwrap();
    let cloud = builder.build(false);
    let buffer = cloud.to_buffer(&mut Encoder::new()).unwrap();
    let mut bytes = buffer.as_slice().to_vec();
    // The final four bytes are the single point-map entry (value index 0).
    let n = bytes.len();
    bytes[n - 4] = 1;
    let err = PointCloud::from_buffer(&mut Decoder::new(), &DecoderBuffer::from_buffer(&bytes))
        .unwrap_err();
    assert_eq!(err.code(), Some(StatusCode::EngineFailure));
}

#[test]
fn encoder_buffer_operations() {
    let mut buffer = EncoderBuffer::new();
    assert_eq!(buffer.size(), 0);
    buffer.resize(4);
    assert_eq!(buffer.size(), 4);
    assert_eq!(buffer.as_slice(), &[0u8; 4]);
    buffer.resize(2);
    assert_eq!(buffer.size(), 2);
    buffer.clear();
    assert_eq!(buffer.size(), 0);
    let buffer: EncoderBuffer = Default::default();
    assert_eq!(buffer.size(), 0);
}

#[test]
fn decoder_buffer_construction() {
    let buffer = DecoderBuffer::new();
    let err = PointCloud::from_buffer(&mut Decoder::new(), &buffer).unwrap_err();
    assert_eq!(err.code(), Some(StatusCode::EngineFailure));
    let buffer: DecoderBuffer = Default::default();
    let err = Decoder::new().decode(&buffer).unwrap_err();
    assert_eq!(err.code(), Some(StatusCode::EngineFailure));
}

#[test]
fn encoder_configuration_chains() {
    let mut encoder = Encoder::default()
        .set_attribute_quantization(AttributeKind::Position, 11)
        .set_attribute_quantization(AttributeKind::Normal, 8)
        .set_speed_options(0, 10);
    let cloud = PointCloudBuilder::new(0).build(false);
    let buffer = cloud.to_buffer(&mut encoder).unwrap();
    let decoded = Decoder::new()
        .decode(&DecoderBuffer::from_encoder_buffer(&buffer))
        .unwrap();
    assert_eq!(decoded.num_points(), 0);
}

#[test]
fn identical_clouds_encode_identically() {
    let make = || {
        let mut builder = PointCloudBuilder::new(2);
        let attr = builder
            .add_attribute(AttributeKind::Generic, 1, ElementType::U8)
            .unwrap();
        builder.add_point(attr, 0, &[1]).unwrap();
        builder.add_point(attr, 1, &[2]).unwrap();
        builder.build(false)
    };
    let b1 = make().to_buffer(&mut Encoder::new()).unwrap();
    let b2 = make().to_buffer(&mut Encoder::new()).unwrap();
    assert_eq!(b1.as_slice(), b2.as_slice());
}
