use draco_rs::pointcloud::{AttributeKind, ElementType, PointCloud, PointCloudBuilder};
use draco_rs::status::{AttrId, StatusCode};

#[test]
fn build_preserves_points() {
    let mut builder = PointCloudBuilder::new(3);
    let attr = builder
        .add_attribute(AttributeKind::Generic, 1, ElementType::U32)
        .unwrap();
    for i in 0..3u32 {
        let value = (100 + i).to_le_bytes();
        builder.add_point(attr, i, &value).unwrap();
    }
    let cloud = builder.build(false);
    assert_eq!(cloud.num_points(), 3);
    assert_eq!(cloud.len(), 3);
    assert!(!cloud.is_empty());
    for i in 0..3u32 {
        let bytes = cloud.get_point_alloc(attr, i).unwrap();
        assert_eq!(bytes, (100 + i).to_le_bytes().to_vec());
    }
}

#[test]
fn add_attribute_zero_components_rejected() {
    let mut builder = PointCloudBuilder::new(1);
    let err = builder
        .add_attribute(AttributeKind::Position, 0, ElementType::F32)
        .unwrap_err();
    assert_eq!(err.code(), Some(StatusCode::InvalidAttribute));
    assert!(!err.ok());
    assert!(!err.error_message().is_empty());
}

#[test]
fn add_point_index_out_of_range() {
    let mut builder = PointCloudBuilder::new(2);
    let attr = builder
        .add_attribute(AttributeKind::Generic, 1, ElementType::U8)
        .unwrap();
    let err = builder.add_point(attr, 2, &[7u8]).unwrap_err();
    assert_eq!(err.code(), Some(StatusCode::IndexOutOfRange));
}

#[test]
fn add_point_bad_shape_rejected() {
    let mut builder = PointCloudBuilder::new(2);
    let attr = builder
        .add_attribute(AttributeKind::Position, 3, ElementType::F32)
        .unwrap();
    // 3 components of f32 need 12 bytes, not 4.
    let err = builder.add_point(attr, 0, &[0u8; 4]).unwrap_err();
    assert_eq!(err.code(), Some(StatusCode::InvalidAttribute));
}

#[test]
fn add_point_unknown_attribute_rejected() {
    let mut builder = PointCloudBuilder::new(1);
    let err = builder.add_point(AttrId(0), 0, &[0u8]).unwrap_err();
    assert_eq!(err.code(), Some(StatusCode::InvalidAttribute));
    let err = builder.add_point(AttrId(-1), 0, &[0u8]).unwrap_err();
    assert_eq!(err.code(), Some(StatusCode::InvalidAttribute));
}

#[test]
fn add_point_last_write_wins() {
    let mut builder = PointCloudBuilder::new(1);
    let attr = builder
        .add_attribute(AttributeKind::Generic, 1, ElementType::U16)
        .unwrap();
    builder.add_point(attr, 0, &10u16.to_le_bytes()).unwrap();
    builder.add_point(attr, 0, &20u16.to_le_bytes()).unwrap();
    let cloud = builder.build(false);
    let bytes = cloud.get_point_alloc(attr, 0).unwrap();
    assert_eq!(bytes, 20u16.to_le_bytes().to_vec());
}

#[test]
fn unwritten_points_stage_zero_values() {
    let mut builder = PointCloudBuilder::new(2);
    let attr = builder
        .add_attribute(AttributeKind::Generic, 2, ElementType::I16)
        .unwrap();
    builder.add_point(attr, 1, &[1, 0, 2, 0]).unwrap();
    let cloud = builder.build(false);
    assert_eq!(cloud.get_point_alloc(attr, 0).unwrap(), vec![0u8; 4]);
    assert_eq!(cloud.get_point_alloc(attr, 1).unwrap(), vec![1, 0, 2, 0]);
}

#[test]
fn get_point_index_out_of_range() {
    let mut builder = PointCloudBuilder::new(2);
    let attr = builder
        .add_attribute(AttributeKind::Generic, 1, ElementType::U8)
        .unwrap();
    let cloud = builder.build(false);
    let mut out = Vec::new();
    let err = cloud.get_point(attr, 2, &mut out).unwrap_err();
    assert_eq!(err.code(), Some(StatusCode::IndexOutOfRange));
    let err = cloud.get_point(attr, u32::MAX, &mut out).unwrap_err();
    assert_eq!(err.code(), Some(StatusCode::IndexOutOfRange));
}

#[test]
fn get_point_unknown_attribute() {
    let builder = PointCloudBuilder::new(1);
    let cloud = builder.build(false);
    let mut out = Vec::new();
    let err = cloud.get_point(AttrId(5), 0, &mut out).unwrap_err();
    assert_eq!(err.code(), Some(StatusCode::InvalidAttribute));
}

#[test]
fn named_attribute_queries() {
    let mut builder = PointCloudBuilder::new(1);
    let pos = builder
        .add_attribute(AttributeKind::Position, 3, ElementType::F32)
        .unwrap();
    let nrm = builder
        .add_attribute(AttributeKind::Normal, 3, ElementType::F32)
        .unwrap();
    let pos2 = builder
        .add_attribute(AttributeKind::Position, 2, ElementType::F64)
        .unwrap();
    let cloud = builder.build(false);
    assert_eq!(cloud.num_named_attributes(AttributeKind::Position), 2);
    assert_eq!(cloud.num_named_attributes(AttributeKind::Normal), 1);
    assert_eq!(cloud.num_named_attributes(AttributeKind::Color), 0);
    assert_eq!(cloud.get_named_attribute_id(AttributeKind::Position, 0), Some(pos));
    assert_eq!(cloud.get_named_attribute_id(AttributeKind::Position, 1), Some(pos2));
    assert_eq!(cloud.get_named_attribute_id(AttributeKind::Normal, 0), Some(nrm));
    assert_eq!(cloud.get_named_attribute_id(AttributeKind::Position, 2), None);
    assert_eq!(cloud.get_named_attribute_id(AttributeKind::Color, 0), None);
    assert_eq!(cloud.get_named_attribute_id(AttributeKind::Position, -1), None);
}

#[test]
fn deduplicate_merges_identical_tuples() {
    // Two points with identical attribute values: the external point count
    // stays 2, but only one attribute value is stored.
    let mut builder = PointCloudBuilder::new(2);
    let attr = builder
        .add_attribute(AttributeKind::Position, 3, ElementType::F64)
        .unwrap();
    let mut raw = Vec::new();
    for c in [1.5f64, -2.25, 0.5] {
        raw.extend_from_slice(&c.to_le_bytes());
    }
    builder.add_point(attr, 0, &raw).unwrap();
    builder.add_point(attr, 1, &raw).unwrap();
    let cloud = builder.build(true);
    assert_eq!(cloud.num_points(), 2);
    assert_eq!(cloud.num_attribute_values(attr).unwrap(), 1);
    assert_eq!(cloud.get_point_alloc(attr, 0).unwrap(), raw);
    assert_eq!(cloud.get_point_alloc(attr, 1).unwrap(), raw);
}

#[test]
fn deduplicate_never_stores_more_than_plain() {
    let values: [u32; 5] = [7, 9, 7, 7, 9];
    let build = |dedup: bool| {
        let mut builder = PointCloudBuilder::new(values.len() as u32);
        let attr = builder
            .add_attribute(AttributeKind::Generic, 1, ElementType::U32)
            .unwrap();
        for (i, v) in values.iter().enumerate() {
            builder.add_point(attr, i as u32, &v.to_le_bytes()).unwrap();
        }
        (builder.build(dedup), attr)
    };
    let (merged, attr_m) = build(true);
    let (plain, attr_p) = build(false);
    assert_eq!(merged.num_points(), plain.num_points());
    let merged_count = merged.num_attribute_values(attr_m).unwrap();
    let plain_count = plain.num_attribute_values(attr_p).unwrap();
    assert_eq!(plain_count, 5);
    assert_eq!(merged_count, 2);
    assert!(merged_count <= plain_count);
    for i in 0..values.len() as u32 {
        assert_eq!(
            merged.get_point_alloc(attr_m, i).unwrap(),
            plain.get_point_alloc(attr_p, i).unwrap()
        );
    }
}

#[test]
fn deduplicate_keeps_distinct_tuples_apart() {
    // Points agreeing in one attribute but not the other are not merged.
    let mut builder = PointCloudBuilder::new(2);
    let a0 = builder
        .add_attribute(AttributeKind::Generic, 1, ElementType::U8)
        .unwrap();
    let a1 = builder
        .add_attribute(AttributeKind::Generic, 1, ElementType::U8)
        .unwrap();
    builder.add_point(a0, 0, &[1]).unwrap();
    builder.add_point(a0, 1, &[1]).unwrap();
    builder.add_point(a1, 0, &[5]).unwrap();
    builder.add_point(a1, 1, &[6]).unwrap();
    let cloud = builder.build(true);
    assert_eq!(cloud.num_attribute_values(a0).unwrap(), 2);
    assert_eq!(cloud.num_attribute_values(a1).unwrap(), 2);
    assert_eq!(cloud.get_point_alloc(a1, 0).unwrap(), vec![5]);
    assert_eq!(cloud.get_point_alloc(a1, 1).unwrap(), vec![6]);
}

#[test]
fn attr_id_as_u32() {
    let mut builder = PointCloudBuilder::new(1);
    let attr = builder
        .add_attribute(AttributeKind::Generic, 1, ElementType::U8)
        .unwrap();
    assert_eq!(attr.as_u32(), 0);
    let attr2 = builder
        .add_attribute(AttributeKind::Generic, 1, ElementType::U8)
        .unwrap();
    assert_eq!(attr2.as_u32(), 1);
}

#[test]
fn empty_cloud_defaults() {
    let cloud = PointCloud::new();
    assert_eq!(cloud.num_points(), 0);
    assert!(cloud.is_empty());
    let cloud: PointCloud = Default::default();
    assert_eq!(cloud.len(), 0);
}
