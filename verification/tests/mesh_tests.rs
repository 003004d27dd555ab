use draco_rs::decode::{Decoder, DecoderBuffer};
use draco_rs::encode::Encoder;
use draco_rs::mesh::Mesh;
use draco_rs::pointcloud::{AttributeKind, ElementType, PointCloudBuilder};
use draco_rs::status::StatusCode;

fn triangle_cloud() -> (draco_rs::pointcloud::PointCloud, draco_rs::status::AttrId) {
    let mut builder = PointCloudBuilder::new(3);
    let attr = builder
        .add_attribute(AttributeKind::Position, 3, ElementType::F64)
        .unwrap();
    let corners: [[f64; 3]; 3] = [[0.0, 0.0, 0.0], [1.0, 0.0, 0.0], [0.0, 1.0, 0.0]];
    for (i, c) in corners.iter().enumerate() {
        let mut raw = Vec::new();
        for v in c {
            raw.extend_from_slice(&v.to_le_bytes());
        }
        builder.add_point(attr, i as u32, &raw).unwrap();
    }
    (builder.build(false), attr)
}

#[test]
fn mesh_round_trip() {
    let (cloud, attr) = triangle_cloud();
    let original = cloud.get_point_alloc(attr, 1).unwrap();
    let mut mesh = Mesh::from_cloud(cloud);
    mesh.add_face(0, 1, 2).unwrap();
    assert_eq!(mesh.num_faces(), 1);
    assert_eq!(mesh.num_points(), 3);

    let buffer = mesh.to_buffer(&mut Encoder::new()).unwrap();
    let decoded = Decoder::new()
        .decode_mesh(&DecoderBuffer::from_encoder_buffer(&buffer))
        .unwrap();

    assert_eq!(decoded.num_points(), 3);
    assert_eq!(decoded.num_faces(), 1);
    assert_eq!(decoded.get_face(0).unwrap(), (0, 1, 2));
    assert_eq!(decoded.cloud().get_point_alloc(attr, 1).unwrap(), original);
}

#[test]
fn mesh_without_faces_round_trips() {
    let (cloud, _) = triangle_cloud();
    let mesh = Mesh::from_cloud(cloud);
    let buffer = mesh.to_buffer(&mut Encoder::new()).unwrap();
    let decoded = Decoder::new()
        .decode_mesh(&DecoderBuffer::from_encoder_buffer(&buffer))
        .unwrap();
    assert_eq!(decoded.num_faces(), 0);
    assert_eq!(decoded.num_points(), 3);
}

#[test]
fn add_face_out_of_range_rejected() {
    let (cloud, _) = triangle_cloud();
    let mut mesh = Mesh::from_cloud(cloud);
    let err = mesh.add_face(0, 1, 3).unwrap_err();
    assert_eq!(err.code(), Some(StatusCode::IndexOutOfRange));
    assert_eq!(mesh.num_faces(), 0);
}

#[test]
fn get_face_out_of_range_rejected() {
    let (cloud, _) = triangle_cloud();
    let mut mesh = Mesh::from_cloud(cloud);
    mesh.add_face(2, 1, 0).unwrap();
    assert_eq!(mesh.get_face(0).unwrap(), (2, 1, 0));
    let err = mesh.get_face(1).unwrap_err();
    assert_eq!(err.code(), Some(StatusCode::IndexOutOfRange));
}

#[test]
fn stream_discriminators_are_enforced() {
    // A mesh stream is not decodable as a point cloud, nor the reverse.
    let (cloud, _) = triangle_cloud();
    let cloud_buffer = cloud.to_buffer(&mut Encoder::new()).unwrap();
    let mesh = Mesh::from_cloud({
        let (c, _) = triangle_cloud();
        c
    });
    let mesh_buffer = mesh.to_buffer(&mut Encoder::new()).unwrap();

    let err = Decoder::new()
        .decode(&DecoderBuffer::from_encoder_buffer(&mesh_buffer))
        .unwrap_err();
    assert_eq!(err.code(), Some(StatusCode::EngineFailure));

    let err = Decoder::new()
        .decode_mesh(&DecoderBuffer::from_encoder_buffer(&cloud_buffer))
        .unwrap_err();
    assert_eq!(err.code(), Some(StatusCode::EngineFailure));
}

#[test]
fn corrupt_face_index_rejected() {
    let (cloud, _) = triangle_cloud();
    let mut mesh = Mesh::from_cloud(cloud);
    mesh.add_face(0, 1, 2).unwrap();
    let buffer = mesh.to_buffer(&mut Encoder::new()).unwrap();
    let mut bytes = buffer.as_slice().to_vec();
    // The last four bytes hold the third corner (index 2); raise it past
    // the point count.
    let n = bytes.len();
    bytes[n - 4] = 9;
    let err = Decoder::new()
        .decode_mesh(&DecoderBuffer::from_buffer(&bytes))
        .unwrap_err();
    assert_eq!(err.code(), Some(StatusCode::EngineFailure));
}
