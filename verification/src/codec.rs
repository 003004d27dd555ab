//! The encoding engine's byte format: specification-level encoders and
//! parsers for point-cloud and mesh streams, with round-trip proofs.
//!
//! A stream is a four-byte header (two magic bytes, a format version, and a
//! stream discriminator telling point clouds from meshes) followed by the
//! body.  A cloud body is the point count, the attribute count, and one
//! record per attribute: kind tag, element-type tag, component count, the
//! stored value count, the raw values, and the per-point value indices.  A
//! mesh stream appends its face count and faces.  All multi-byte integers
//! are little-endian.

use vstd::prelude::*;

use crate::mesh::MeshView;
use crate::mesh::face_in_range;
use crate::pointcloud::AttrStoreView;
use crate::pointcloud::AttributeKind;
use crate::pointcloud::BuilderView;
use crate::pointcloud::CloudView;
use crate::pointcloud::ElementType;
use crate::pointcloud::build_result;
use crate::pointcloud::spec_stride;

verus! {

pub const MAGIC0: u8 = 0x44;

pub const MAGIC1: u8 = 0x52;

pub const FORMAT_VERSION: u8 = 1;

/// Stream discriminator for a point-cloud stream.
pub const STREAM_POINT_CLOUD: u8 = 0;

/// Stream discriminator for a mesh stream.
pub const STREAM_MESH: u8 = 1;

// ---------------------------------------------------------------------------
// Tags
// ---------------------------------------------------------------------------

pub open spec fn kind_tag(k: AttributeKind) -> u8 {
    match k {
        AttributeKind::Position => 0,
        AttributeKind::Normal => 1,
        AttributeKind::Color => 2,
        AttributeKind::TexCoord => 3,
        AttributeKind::Generic => 4,
    }
}

pub open spec fn kind_from_tag(t: u8) -> Option<AttributeKind> {
    if t == 0 {
        Some(AttributeKind::Position)
    } else if t == 1 {
        Some(AttributeKind::Normal)
    } else if t == 2 {
        Some(AttributeKind::Color)
    } else if t == 3 {
        Some(AttributeKind::TexCoord)
    } else if t == 4 {
        Some(AttributeKind::Generic)
    } else {
        None
    }
}

pub open spec fn et_tag(e: ElementType) -> u8 {
    match e {
        ElementType::F32 => 0,
        ElementType::F64 => 1,
        ElementType::I8 => 2,
        ElementType::U8 => 3,
        ElementType::I16 => 4,
        ElementType::U16 => 5,
        ElementType::I32 => 6,
        ElementType::U32 => 7,
    }
}

pub open spec fn et_from_tag(t: u8) -> Option<ElementType> {
    if t == 0 {
        Some(ElementType::F32)
    } else if t == 1 {
        Some(ElementType::F64)
    } else if t == 2 {
        Some(ElementType::I8)
    } else if t == 3 {
        Some(ElementType::U8)
    } else if t == 4 {
        Some(ElementType::I16)
    } else if t == 5 {
        Some(ElementType::U16)
    } else if t == 6 {
        Some(ElementType::I32)
    } else if t == 7 {
        Some(ElementType::U32)
    } else {
        None
    }
}

// ---------------------------------------------------------------------------
// Little-endian 32-bit integers
// ---------------------------------------------------------------------------

pub open spec fn u32_le(x: u32) -> Seq<u8> {
    seq![
        (x & 0xff) as u8,
        ((x >> 8) & 0xff) as u8,
        ((x >> 16) & 0xff) as u8,
        ((x >> 24) & 0xff) as u8,
    ]
}

pub open spec fn u32_from_le(b0: u8, b1: u8, b2: u8, b3: u8) -> u32 {
    (b0 as u32) | ((b1 as u32) << 8) | ((b2 as u32) << 16) | ((b3 as u32) << 24)
}

pub proof fn lemma_u32_le_round(x: u32)
    ensures
        u32_from_le(u32_le(x)[0], u32_le(x)[1], u32_le(x)[2], u32_le(x)[3]) == x,
{
    assert(((x & 0xff) as u8 as u32) | (((x >> 8) & 0xff) as u8 as u32) << 8 | (((x >> 16)
        & 0xff) as u8 as u32) << 16 | (((x >> 24) & 0xff) as u8 as u32) << 24 == x)
        by (bit_vector);
}

pub open spec fn parse_u32(s: Seq<u8>) -> Option<(u32, Seq<u8>)> {
    if s.len() < 4 {
        None
    } else {
        Some((u32_from_le(s[0], s[1], s[2], s[3]), s.skip(4)))
    }
}

pub proof fn lemma_parse_u32(x: u32, rest: Seq<u8>)
    ensures
        parse_u32(u32_le(x) + rest) == Some((x, rest)),
{
    let s = u32_le(x) + rest;
    lemma_u32_le_round(x);
    assert(s.skip(4) =~= rest);
}

// ---------------------------------------------------------------------------
// Fixed-width rows (attribute values)
// ---------------------------------------------------------------------------

pub open spec fn enc_rows(rows: Seq<Seq<u8>>) -> Seq<u8>
    decreases rows.len(),
{
    if rows.len() == 0 {
        Seq::empty()
    } else {
        rows[0] + enc_rows(rows.skip(1))
    }
}

pub open spec fn parse_rows(s: Seq<u8>, count: nat, width: nat) -> Option<(Seq<Seq<u8>>, Seq<u8>)>
    decreases count,
{
    if count == 0 {
        Some((Seq::empty(), s))
    } else if s.len() < width {
        None
    } else {
        match parse_rows(s.skip(width as int), (count - 1) as nat, width) {
            Some((rows, rest)) => Some((seq![s.take(width as int)] + rows, rest)),
            None => None,
        }
    }
}

pub proof fn lemma_enc_rows_push(rows: Seq<Seq<u8>>, r: Seq<u8>)
    ensures
        enc_rows(rows.push(r)) == enc_rows(rows) + r,
    decreases rows.len(),
{
    let p = rows.push(r);
    if rows.len() == 0 {
        assert(p.skip(1) =~= Seq::<Seq<u8>>::empty());
        assert(p[0] == r);
        assert(enc_rows(p) == r + enc_rows(Seq::<Seq<u8>>::empty()));
        assert(enc_rows(p) =~= enc_rows(rows) + r);
    } else {
        assert(p.skip(1) =~= rows.skip(1).push(r));
        lemma_enc_rows_push(rows.skip(1), r);
        assert(p[0] == rows[0]);
        assert(enc_rows(p) == rows[0] + (enc_rows(rows.skip(1)) + r));
        assert(enc_rows(rows) == rows[0] + enc_rows(rows.skip(1)));
        assert(rows[0] + (enc_rows(rows.skip(1)) + r) =~= (rows[0] + enc_rows(rows.skip(1))) + r);
    }
}

pub proof fn lemma_parse_rows(rows: Seq<Seq<u8>>, width: nat, rest: Seq<u8>)
    requires
        forall|k: int| 0 <= k < rows.len() ==> (#[trigger] rows[k]).len() == width,
    ensures
        parse_rows(enc_rows(rows) + rest, rows.len() as nat, width) == Some((rows, rest)),
    decreases rows.len(),
{
    if rows.len() == 0 {
        assert(enc_rows(rows) + rest =~= rest);
    } else {
        let s = enc_rows(rows) + rest;
        let tail = enc_rows(rows.skip(1)) + rest;
        assert(s =~= rows[0] + tail);
        assert(s.len() >= width);
        assert(s.take(width as int) =~= rows[0]);
        assert(s.skip(width as int) =~= tail);
        lemma_parse_rows(rows.skip(1), width, rest);
        assert(seq![s.take(width as int)] + rows.skip(1) =~= rows);
    }
}

// ---------------------------------------------------------------------------
// Sequences of 32-bit integers (point maps, face corners)
// ---------------------------------------------------------------------------

pub open spec fn enc_u32s(xs: Seq<u32>) -> Seq<u8>
    decreases xs.len(),
{
    if xs.len() == 0 {
        Seq::empty()
    } else {
        u32_le(xs[0]) + enc_u32s(xs.skip(1))
    }
}

pub open spec fn parse_u32s(s: Seq<u8>, count: nat) -> Option<(Seq<u32>, Seq<u8>)>
    decreases count,
{
    if count == 0 {
        Some((Seq::empty(), s))
    } else {
        match parse_u32(s) {
            Some((x, s1)) => match parse_u32s(s1, (count - 1) as nat) {
                Some((xs, rest)) => Some((seq![x] + xs, rest)),
                None => None,
            },
            None => None,
        }
    }
}

pub proof fn lemma_enc_u32s_push(xs: Seq<u32>, x: u32)
    ensures
        enc_u32s(xs.push(x)) == enc_u32s(xs) + u32_le(x),
    decreases xs.len(),
{
    let p = xs.push(x);
    if xs.len() == 0 {
        assert(p.skip(1) =~= Seq::<u32>::empty());
        assert(p[0] == x);
        assert(enc_u32s(p) == u32_le(x) + enc_u32s(Seq::<u32>::empty()));
        assert(enc_u32s(p) =~= enc_u32s(xs) + u32_le(x));
    } else {
        assert(p.skip(1) =~= xs.skip(1).push(x));
        lemma_enc_u32s_push(xs.skip(1), x);
        assert(p[0] == xs[0]);
        assert(enc_u32s(p) == u32_le(xs[0]) + (enc_u32s(xs.skip(1)) + u32_le(x)));
        assert(enc_u32s(xs) == u32_le(xs[0]) + enc_u32s(xs.skip(1)));
        assert(u32_le(xs[0]) + (enc_u32s(xs.skip(1)) + u32_le(x)) =~= (u32_le(xs[0]) + enc_u32s(
            xs.skip(1),
        )) + u32_le(x));
    }
}

pub proof fn lemma_parse_u32s(xs: Seq<u32>, rest: Seq<u8>)
    ensures
        parse_u32s(enc_u32s(xs) + rest, xs.len() as nat) == Some((xs, rest)),
    decreases xs.len(),
{
    if xs.len() == 0 {
        assert(enc_u32s(xs) + rest =~= rest);
    } else {
        let s = enc_u32s(xs) + rest;
        let tail = enc_u32s(xs.skip(1)) + rest;
        assert(s =~= u32_le(xs[0]) + tail);
        lemma_parse_u32(xs[0], tail);
        lemma_parse_u32s(xs.skip(1), rest);
        assert(seq![xs[0]] + xs.skip(1) =~= xs);
    }
}

// ---------------------------------------------------------------------------
// One attribute record
// ---------------------------------------------------------------------------

pub open spec fn enc_attr(a: AttrStoreView) -> Seq<u8> {
    seq![kind_tag(a.kind), et_tag(a.element_type), a.component_count] + u32_le(
        a.values.len() as u32,
    ) + enc_rows(a.values) + enc_u32s(a.point_map)
}

pub open spec fn parse_attr(s: Seq<u8>, num_points: u32) -> Option<(AttrStoreView, Seq<u8>)> {
    if s.len() < 3 {
        None
    } else if kind_from_tag(s[0]) is None || et_from_tag(s[1]) is None || s[2] == 0 {
        None
    } else {
        let kind = kind_from_tag(s[0])->0;
        let element_type = et_from_tag(s[1])->0;
        let component_count = s[2];
        match parse_u32(s.skip(3)) {
            Some((nv, s1)) => match parse_rows(
                s1,
                nv as nat,
                spec_stride(component_count, element_type),
            ) {
                Some((rows, s2)) => match parse_u32s(s2, num_points as nat) {
                    Some((pmap, rest)) => {
                        if forall|i: int| 0 <= i < pmap.len() ==> (#[trigger] pmap[i]) < nv {
                            Some(
                                (
                                    AttrStoreView {
                                        kind,
                                        element_type,
                                        component_count,
                                        values: rows,
                                        point_map: pmap,
                                    },
                                    rest,
                                ),
                            )
                        } else {
                            None
                        }
                    },
                    None => None,
                },
                None => None,
            },
            None => None,
        }
    }
}

pub proof fn lemma_parse_attr(a: AttrStoreView, num_points: u32, rest: Seq<u8>)
    requires
        a.wf(num_points),
    ensures
        parse_attr(enc_attr(a) + rest, num_points) == Some((a, rest)),
{
    let s = enc_attr(a) + rest;
    let after_head = u32_le(a.values.len() as u32) + (enc_rows(a.values) + (enc_u32s(a.point_map)
        + rest));
    assert(s.len() >= 3);
    assert(s[0] == kind_tag(a.kind));
    assert(s[1] == et_tag(a.element_type));
    assert(s[2] == a.component_count);
    assert(kind_from_tag(kind_tag(a.kind)) == Some(a.kind));
    assert(et_from_tag(et_tag(a.element_type)) == Some(a.element_type));
    assert(s.skip(3) =~= after_head);
    lemma_parse_u32(a.values.len() as u32, enc_rows(a.values) + (enc_u32s(a.point_map) + rest));
    lemma_parse_rows(a.values, a.stride(), enc_u32s(a.point_map) + rest);
    lemma_parse_u32s(a.point_map, rest);
    assert(parse_attr(s, num_points) == Some((a, rest)));
}

// ---------------------------------------------------------------------------
// The attribute table
// ---------------------------------------------------------------------------

pub open spec fn enc_attrs(attrs: Seq<AttrStoreView>) -> Seq<u8>
    decreases attrs.len(),
{
    if attrs.len() == 0 {
        Seq::empty()
    } else {
        enc_attr(attrs[0]) + enc_attrs(attrs.skip(1))
    }
}

pub open spec fn parse_attrs(s: Seq<u8>, count: nat, num_points: u32) -> Option<
    (Seq<AttrStoreView>, Seq<u8>),
>
    decreases count,
{
    if count == 0 {
        Some((Seq::empty(), s))
    } else {
        match parse_attr(s, num_points) {
            Some((a, s1)) => match parse_attrs(s1, (count - 1) as nat, num_points) {
                Some((attrs, rest)) => Some((seq![a] + attrs, rest)),
                None => None,
            },
            None => None,
        }
    }
}

pub proof fn lemma_enc_attrs_push(attrs: Seq<AttrStoreView>, a: AttrStoreView)
    ensures
        enc_attrs(attrs.push(a)) == enc_attrs(attrs) + enc_attr(a),
    decreases attrs.len(),
{
    let p = attrs.push(a);
    if attrs.len() == 0 {
        assert(p.skip(1) =~= Seq::<AttrStoreView>::empty());
        assert(p[0] == a);
        assert(enc_attrs(p) == enc_attr(a) + enc_attrs(Seq::<AttrStoreView>::empty()));
        assert(enc_attrs(p) =~= enc_attrs(attrs) + enc_attr(a));
    } else {
        assert(p.skip(1) =~= attrs.skip(1).push(a));
        lemma_enc_attrs_push(attrs.skip(1), a);
        assert(p[0] == attrs[0]);
        assert(enc_attrs(p) == enc_attr(attrs[0]) + (enc_attrs(attrs.skip(1)) + enc_attr(a)));
        assert(enc_attrs(attrs) == enc_attr(attrs[0]) + enc_attrs(attrs.skip(1)));
        assert(enc_attr(attrs[0]) + (enc_attrs(attrs.skip(1)) + enc_attr(a)) =~= (enc_attr(
            attrs[0],
        ) + enc_attrs(attrs.skip(1))) + enc_attr(a));
    }
}

pub proof fn lemma_parse_attrs(attrs: Seq<AttrStoreView>, num_points: u32, rest: Seq<u8>)
    requires
        forall|k: int| 0 <= k < attrs.len() ==> (#[trigger] attrs[k]).wf(num_points),
    ensures
        parse_attrs(enc_attrs(attrs) + rest, attrs.len() as nat, num_points) == Some(
            (attrs, rest),
        ),
    decreases attrs.len(),
{
    if attrs.len() == 0 {
        assert(enc_attrs(attrs) + rest =~= rest);
    } else {
        let s = enc_attrs(attrs) + rest;
        let tail = enc_attrs(attrs.skip(1)) + rest;
        assert(s =~= enc_attr(attrs[0]) + tail);
        lemma_parse_attr(attrs[0], num_points, tail);
        lemma_parse_attrs(attrs.skip(1), num_points, rest);
        assert(seq![attrs[0]] + attrs.skip(1) =~= attrs);
    }
}

// ---------------------------------------------------------------------------
// The cloud body and the full streams
// ---------------------------------------------------------------------------

pub open spec fn enc_cloud_body(p: CloudView) -> Seq<u8> {
    u32_le(p.num_points) + u32_le(p.attributes.len() as u32) + enc_attrs(p.attributes)
}

pub open spec fn parse_cloud_body(s: Seq<u8>) -> Option<(CloudView, Seq<u8>)> {
    match parse_u32(s) {
        Some((n, s1)) => match parse_u32(s1) {
            Some((na, s2)) => {
                if na > 0x7fff_ffff {
                    None
                } else {
                    match parse_attrs(s2, na as nat, n) {
                        Some((attrs, rest)) => Some(
                            (CloudView { num_points: n, attributes: attrs }, rest),
                        ),
                        None => None,
                    }
                }
            },
            None => None,
        },
        None => None,
    }
}

pub proof fn lemma_parse_cloud_body(p: CloudView, rest: Seq<u8>)
    requires
        p.wf(),
    ensures
        parse_cloud_body(enc_cloud_body(p) + rest) == Some((p, rest)),
{
    let s = enc_cloud_body(p) + rest;
    let after_n = u32_le(p.attributes.len() as u32) + (enc_attrs(p.attributes) + rest);
    assert(s =~= u32_le(p.num_points) + after_n);
    lemma_parse_u32(p.num_points, after_n);
    lemma_parse_u32(p.attributes.len() as u32, enc_attrs(p.attributes) + rest);
    lemma_parse_attrs(p.attributes, p.num_points, rest);
    assert(parse_cloud_body(s) == Some((p, rest)));
}

pub open spec fn spec_header(stream: u8) -> Seq<u8> {
    seq![MAGIC0, MAGIC1, FORMAT_VERSION, stream]
}

/// The full byte stream that encoding a point cloud produces.
pub open spec fn spec_encode_cloud(p: CloudView) -> Seq<u8> {
    spec_header(STREAM_POINT_CLOUD) + enc_cloud_body(p)
}

/// The point cloud that a byte stream decodes to, if it is a well-formed
/// point-cloud stream consumed exactly to its end.
pub open spec fn spec_decode_cloud(s: Seq<u8>) -> Option<CloudView> {
    if s.len() < 4 || s[0] != MAGIC0 || s[1] != MAGIC1 || s[2] != FORMAT_VERSION || s[3]
        != STREAM_POINT_CLOUD {
        None
    } else {
        match parse_cloud_body(s.skip(4)) {
            Some((p, rest)) => {
                if rest.len() == 0 && p.wf() {
                    Some(p)
                } else {
                    None
                }
            },
            None => None,
        }
    }
}

/// Decoding inverts encoding: every well-formed point cloud is recovered
/// exactly from its own encoded stream.
pub proof fn lemma_cloud_round_trip(p: CloudView)
    requires
        p.wf(),
    ensures
        spec_decode_cloud(spec_encode_cloud(p)) == Some(p),
{
    let s = spec_encode_cloud(p);
    assert(s.skip(4) =~= enc_cloud_body(p) + Seq::<u8>::empty());
    lemma_parse_cloud_body(p, Seq::<u8>::empty());
}

// ---------------------------------------------------------------------------
// Faces and the mesh stream
// ---------------------------------------------------------------------------

pub open spec fn enc_face(f: (u32, u32, u32)) -> Seq<u8> {
    u32_le(f.0) + u32_le(f.1) + u32_le(f.2)
}

pub open spec fn enc_faces(faces: Seq<(u32, u32, u32)>) -> Seq<u8>
    decreases faces.len(),
{
    if faces.len() == 0 {
        Seq::empty()
    } else {
        enc_face(faces[0]) + enc_faces(faces.skip(1))
    }
}

pub open spec fn parse_faces(s: Seq<u8>, count: nat, num_points: u32) -> Option<
    (Seq<(u32, u32, u32)>, Seq<u8>),
>
    decreases count,
{
    if count == 0 {
        Some((Seq::empty(), s))
    } else {
        match parse_u32(s) {
            Some((c0, s1)) => match parse_u32(s1) {
                Some((c1, s2)) => match parse_u32(s2) {
                    Some((c2, s3)) => {
                        if face_in_range((c0, c1, c2), num_points) {
                            match parse_faces(s3, (count - 1) as nat, num_points) {
                                Some((fs, rest)) => Some((seq![(c0, c1, c2)] + fs, rest)),
                                None => None,
                            }
                        } else {
                            None
                        }
                    },
                    None => None,
                },
                None => None,
            },
            None => None,
        }
    }
}

pub proof fn lemma_enc_faces_push(faces: Seq<(u32, u32, u32)>, f: (u32, u32, u32))
    ensures
        enc_faces(faces.push(f)) == enc_faces(faces) + enc_face(f),
    decreases faces.len(),
{
    let p = faces.push(f);
    if faces.len() == 0 {
        assert(p.skip(1) =~= Seq::<(u32, u32, u32)>::empty());
        assert(p[0] == f);
        assert(enc_faces(p) == enc_face(f) + enc_faces(Seq::<(u32, u32, u32)>::empty()));
        assert(enc_faces(p) =~= enc_faces(faces) + enc_face(f));
    } else {
        assert(p.skip(1) =~= faces.skip(1).push(f));
        lemma_enc_faces_push(faces.skip(1), f);
        assert(p[0] == faces[0]);
        assert(enc_faces(p) == enc_face(faces[0]) + (enc_faces(faces.skip(1)) + enc_face(f)));
        assert(enc_faces(faces) == enc_face(faces[0]) + enc_faces(faces.skip(1)));
        assert(enc_face(faces[0]) + (enc_faces(faces.skip(1)) + enc_face(f)) =~= (enc_face(
            faces[0],
        ) + enc_faces(faces.skip(1))) + enc_face(f));
    }
}

pub proof fn lemma_parse_faces(faces: Seq<(u32, u32, u32)>, num_points: u32, rest: Seq<u8>)
    requires
        forall|k: int| 0 <= k < faces.len() ==> face_in_range(#[trigger] faces[k], num_points),
    ensures
        parse_faces(enc_faces(faces) + rest, faces.len() as nat, num_points) == Some(
            (faces, rest),
        ),
    decreases faces.len(),
{
    if faces.len() == 0 {
        assert(enc_faces(faces) + rest =~= rest);
    } else {
        let s = enc_faces(faces) + rest;
        let f = faces[0];
        let tail = enc_faces(faces.skip(1)) + rest;
        let after0 = u32_le(f.1) + (u32_le(f.2) + tail);
        let after1 = u32_le(f.2) + tail;
        assert(s =~= u32_le(f.0) + after0);
        lemma_parse_u32(f.0, after0);
        lemma_parse_u32(f.1, after1);
        lemma_parse_u32(f.2, tail);
        lemma_parse_faces(faces.skip(1), num_points, rest);
        assert(seq![(f.0, f.1, f.2)] + faces.skip(1) =~= faces);
    }
}

/// The full byte stream that encoding a mesh produces.
pub open spec fn spec_encode_mesh(m: MeshView) -> Seq<u8> {
    spec_header(STREAM_MESH) + enc_cloud_body(m.cloud) + u32_le(m.faces.len() as u32) + enc_faces(
        m.faces,
    )
}

/// The mesh that a byte stream decodes to, if it is a well-formed mesh
/// stream consumed exactly to its end.
pub open spec fn spec_decode_mesh(s: Seq<u8>) -> Option<MeshView> {
    if s.len() < 4 || s[0] != MAGIC0 || s[1] != MAGIC1 || s[2] != FORMAT_VERSION || s[3]
        != STREAM_MESH {
        None
    } else {
        match parse_cloud_body(s.skip(4)) {
            Some((p, s1)) => match parse_u32(s1) {
                Some((nf, s2)) => match parse_faces(s2, nf as nat, p.num_points) {
                    Some((faces, rest)) => {
                        let m = MeshView { cloud: p, faces };
                        if rest.len() == 0 && m.wf() {
                            Some(m)
                        } else {
                            None
                        }
                    },
                    None => None,
                },
                None => None,
            },
            None => None,
        }
    }
}

/// Decoding inverts encoding for meshes as well.
pub proof fn lemma_mesh_round_trip(m: MeshView)
    requires
        m.wf(),
    ensures
        spec_decode_mesh(spec_encode_mesh(m)) == Some(m),
{
    let s = spec_encode_mesh(m);
    let tail1 = u32_le(m.faces.len() as u32) + (enc_faces(m.faces) + Seq::<u8>::empty());
    let tail2 = enc_faces(m.faces) + Seq::<u8>::empty();
    assert(s.skip(4) =~= enc_cloud_body(m.cloud) + tail1);
    lemma_parse_cloud_body(m.cloud, tail1);
    lemma_parse_u32(m.faces.len() as u32, tail2);
    lemma_parse_faces(m.faces, m.cloud.num_points, Seq::<u8>::empty());
    assert(spec_decode_mesh(s) == Some(m));
}

// ---------------------------------------------------------------------------
// Executable emitters
// ---------------------------------------------------------------------------

pub(crate) fn kind_tag_exec(k: AttributeKind) -> (r: u8)
    ensures
        r == kind_tag(k),
{
    match k {
        AttributeKind::Position => 0,
        AttributeKind::Normal => 1,
        AttributeKind::Color => 2,
        AttributeKind::TexCoord => 3,
        AttributeKind::Generic => 4,
    }
}

pub(crate) fn kind_from_tag_exec(t: u8) -> (r: Option<AttributeKind>)
    ensures
        r == kind_from_tag(t),
{
    if t == 0 {
        Some(AttributeKind::Position)
    } else if t == 1 {
        Some(AttributeKind::Normal)
    } else if t == 2 {
        Some(AttributeKind::Color)
    } else if t == 3 {
        Some(AttributeKind::TexCoord)
    } else if t == 4 {
        Some(AttributeKind::Generic)
    } else {
        None
    }
}

pub(crate) fn et_tag_exec(e: ElementType) -> (r: u8)
    ensures
        r == et_tag(e),
{
    match e {
        ElementType::F32 => 0,
        ElementType::F64 => 1,
        ElementType::I8 => 2,
        ElementType::U8 => 3,
        ElementType::I16 => 4,
        ElementType::U16 => 5,
        ElementType::I32 => 6,
        ElementType::U32 => 7,
    }
}

pub(crate) fn et_from_tag_exec(t: u8) -> (r: Option<ElementType>)
    ensures
        r == et_from_tag(t),
{
    if t == 0 {
        Some(ElementType::F32)
    } else if t == 1 {
        Some(ElementType::F64)
    } else if t == 2 {
        Some(ElementType::I8)
    } else if t == 3 {
        Some(ElementType::U8)
    } else if t == 4 {
        Some(ElementType::I16)
    } else if t == 5 {
        Some(ElementType::U16)
    } else if t == 6 {
        Some(ElementType::I32)
    } else if t == 7 {
        Some(ElementType::U32)
    } else {
        None
    }
}

pub(crate) fn push_u32(out: &mut Vec<u8>, x: u32)
    ensures
        final(out)@ == old(out)@ + u32_le(x),
{
    proof {
        assert(x & 0xff < 256 && (x >> 8) & 0xff < 256 && (x >> 16) & 0xff < 256 && (x >> 24)
            & 0xff < 256) by (bit_vector);
    }
    out.push((x & 0xff) as u8);
    out.push(((x >> 8) & 0xff) as u8);
    out.push(((x >> 16) & 0xff) as u8);
    out.push(((x >> 24) & 0xff) as u8);
    proof {
        assert(out@ =~= old(out)@ + u32_le(x));
    }
}

pub(crate) fn push_bytes(out: &mut Vec<u8>, src: &Vec<u8>)
    ensures
        final(out)@ == old(out)@ + src@,
{
    let n = src.len();
    for i in 0..n
        invariant
            n == src@.len(),
            out@ == old(out)@ + src@.take(i as int),
    {
        out.push(src[i]);
        proof {
            assert(out@ =~= old(out)@ + src@.take(i + 1));
        }
    }
    proof {
        assert(old(out)@ + src@.take(n as int) =~= old(out)@ + src@);
    }
}

pub(crate) fn push_rows(out: &mut Vec<u8>, rows: &Vec<Vec<u8>>)
    ensures
        final(out)@ == old(out)@ + enc_rows(rows.deep_view()),
{
    proof {
        crate::pointcloud::lemma_rows_deep_view(*rows);
    }
    let n = rows.len();
    for i in 0..n
        invariant
            n == rows@.len(),
            rows.deep_view().len() == n,
            forall|k: int| 0 <= k < n ==> #[trigger] rows.deep_view()[k] == rows@[k]@,
            out@ == old(out)@ + enc_rows(rows.deep_view().take(i as int)),
    {
        push_bytes(out, &rows[i]);
        proof {
            let dv = rows.deep_view();
            lemma_enc_rows_push(dv.take(i as int), dv[i as int]);
            assert(dv.take(i + 1) =~= dv.take(i as int).push(dv[i as int]));
            assert(out@ =~= old(out)@ + enc_rows(dv.take(i + 1)));
        }
    }
    proof {
        assert(rows.deep_view().take(n as int) =~= rows.deep_view());
    }
}

pub(crate) fn push_u32s(out: &mut Vec<u8>, xs: &Vec<u32>)
    ensures
        final(out)@ == old(out)@ + enc_u32s(xs@),
{
    let n = xs.len();
    for i in 0..n
        invariant
            n == xs@.len(),
            out@ == old(out)@ + enc_u32s(xs@.take(i as int)),
    {
        push_u32(out, xs[i]);
        proof {
            lemma_enc_u32s_push(xs@.take(i as int), xs@[i as int]);
            assert(xs@.take(i + 1) =~= xs@.take(i as int).push(xs@[i as int]));
            assert(out@ =~= old(out)@ + enc_u32s(xs@.take(i + 1)));
        }
    }
    proof {
        assert(xs@.take(n as int) =~= xs@);
    }
}

pub(crate) fn push_faces(out: &mut Vec<u8>, faces: &Vec<(u32, u32, u32)>)
    ensures
        final(out)@ == old(out)@ + enc_faces(faces@),
{
    let n = faces.len();
    for i in 0..n
        invariant
            n == faces@.len(),
            out@ == old(out)@ + enc_faces(faces@.take(i as int)),
    {
        let f = faces[i];
        push_u32(out, f.0);
        push_u32(out, f.1);
        push_u32(out, f.2);
        proof {
            lemma_enc_faces_push(faces@.take(i as int), faces@[i as int]);
            assert(faces@.take(i + 1) =~= faces@.take(i as int).push(faces@[i as int]));
            assert(out@ =~= old(out)@ + enc_faces(faces@.take(i + 1)));
        }
    }
    proof {
        assert(faces@.take(n as int) =~= faces@);
    }
}

// ---------------------------------------------------------------------------
// Executable readers
// ---------------------------------------------------------------------------

pub(crate) fn read_u32(data: &Vec<u8>, pos: usize) -> (r: Option<(u32, usize)>)
    requires
        pos <= data@.len(),
    ensures
        match r {
            Some(ok) => {
                &&& ok.1 == pos + 4 && ok.1 <= data@.len()
                &&& parse_u32(data@.skip(pos as int)) == Some((ok.0, data@.skip(ok.1 as int)))
            },
            None => parse_u32(data@.skip(pos as int)) is None,
        },
{
    if data.len() - pos < 4 {
        return None;
    }
    let b0 = data[pos];
    let b1 = data[pos + 1];
    let b2 = data[pos + 2];
    let b3 = data[pos + 3];
    let x = (b0 as u32) | ((b1 as u32) << 8u32) | ((b2 as u32) << 16u32) | ((b3 as u32) << 24u32);
    proof {
        let s = data@.skip(pos as int);
        assert(s[0] == b0 && s[1] == b1 && s[2] == b2 && s[3] == b3);
        assert(x == u32_from_le(s[0], s[1], s[2], s[3]));
        assert(s.skip(4) =~= data@.skip(pos as int + 4));
    }
    Some((x, pos + 4))
}

/// Copies `data[start..start + len]` into a fresh vector.
pub(crate) fn copy_range(data: &Vec<u8>, start: usize, len: usize) -> (r: Vec<u8>)
    requires
        start + len <= data@.len(),
    ensures
        r@ == data@.subrange(start as int, start as int + len as int),
{
    let total = data.len();
    let mut out: Vec<u8> = Vec::new();
    for i in 0..len
        invariant
            total == data@.len(),
            start + len <= data@.len(),
            out@ == data@.subrange(start as int, start as int + i as int),
    {
        out.push(data[start + i]);
        proof {
            assert(out@ =~= data@.subrange(start as int, start as int + i + 1));
        }
    }
    out
}

pub(crate) fn read_rows(data: &Vec<u8>, pos: usize, count: u32, width: usize) -> (r: Option<
    (Vec<Vec<u8>>, usize),
>)
    requires
        pos <= data@.len(),
    ensures
        match r {
            Some(ok) => {
                &&& pos <= ok.1 <= data@.len()
                &&& ok.0@.len() == count
                &&& parse_rows(data@.skip(pos as int), count as nat, width as nat) == Some(
                    (ok.0.deep_view(), data@.skip(ok.1 as int)),
                )
            },
            None => parse_rows(data@.skip(pos as int), count as nat, width as nat) is None,
        },
{
    let mut rows: Vec<Vec<u8>> = Vec::new();
    let mut cur = pos;
    let mut i: u32 = 0;
    while i < count
        invariant
            i <= count,
            pos <= cur <= data@.len(),
            rows@.len() == i,
            rows.deep_view().len() == i,
            (match parse_rows(data@.skip(cur as int), (count - i) as nat, width as nat) {
                Some(sr) => parse_rows(data@.skip(pos as int), count as nat, width as nat)
                    == Some((rows.deep_view() + sr.0, sr.1)),
                None => parse_rows(data@.skip(pos as int), count as nat, width as nat) is None,
            }),
        decreases count - i,
    {
        if data.len() - cur < width {
            proof {
                assert(data@.skip(cur as int).len() < width);
            }
            return None;
        }
        let row = copy_range(data, cur, width);
        let ghost prev = rows.deep_view();
        rows.push(row);
        proof {
            crate::pointcloud::lemma_rows_deep_view(rows);
            assert(rows.deep_view() =~= prev.push(row@));
            let scur = data@.skip(cur as int);
            assert(scur.take(width as int) =~= row@);
            assert(scur.skip(width as int) =~= data@.skip(cur as int + width as int));
            assert(parse_rows(scur, (count - i) as nat, width as nat) == (match parse_rows(
                scur.skip(width as int),
                (count - i - 1) as nat,
                width as nat,
            ) {
                Some(sr) => Some((seq![scur.take(width as int)] + sr.0, sr.1)),
                None => None::<(Seq<Seq<u8>>, Seq<u8>)>,
            }));
            match parse_rows(data@.skip(cur as int + width as int), (count - i - 1) as nat, width as nat) {
                Some(sr) => {
                    assert(prev + (seq![row@] + sr.0) =~= rows.deep_view() + sr.0);
                },
                None => {},
            }
        }
        cur = cur + width;
        i = i + 1;
    }
    proof {
        assert(rows.deep_view() + Seq::<Seq<u8>>::empty() =~= rows.deep_view());
    }
    Some((rows, cur))
}

pub(crate) fn read_u32s(data: &Vec<u8>, pos: usize, count: u32) -> (r: Option<(Vec<u32>, usize)>)
    requires
        pos <= data@.len(),
    ensures
        match r {
            Some(ok) => {
                &&& pos <= ok.1 <= data@.len()
                &&& ok.0@.len() == count
                &&& parse_u32s(data@.skip(pos as int), count as nat) == Some(
                    (ok.0@, data@.skip(ok.1 as int)),
                )
            },
            None => parse_u32s(data@.skip(pos as int), count as nat) is None,
        },
{
    let mut xs: Vec<u32> = Vec::new();
    let mut cur = pos;
    let mut i: u32 = 0;
    while i < count
        invariant
            i <= count,
            pos <= cur <= data@.len(),
            xs@.len() == i,
            (match parse_u32s(data@.skip(cur as int), (count - i) as nat) {
                Some(sr) => parse_u32s(data@.skip(pos as int), count as nat) == Some(
                    (xs@ + sr.0, sr.1),
                ),
                None => parse_u32s(data@.skip(pos as int), count as nat) is None,
            }),
        decreases count - i,
    {
        let ghost prev = xs@;
        match read_u32(data, cur) {
            None => {
                return None;
            },
            Some(step) => {
                xs.push(step.0);
                proof {
                    match parse_u32s(data@.skip(step.1 as int), (count - i - 1) as nat) {
                        Some(sr) => {
                            assert(prev + (seq![step.0] + sr.0) =~= xs@ + sr.0);
                        },
                        None => {},
                    }
                }
                cur = step.1;
            },
        }
        i = i + 1;
    }
    proof {
        assert(xs@ + Seq::<u32>::empty() =~= xs@);
    }
    Some((xs, cur))
}

pub(crate) fn read_faces(data: &Vec<u8>, pos: usize, count: u32, num_points: u32) -> (r: Option<
    (Vec<(u32, u32, u32)>, usize),
>)
    requires
        pos <= data@.len(),
    ensures
        match r {
            Some(ok) => {
                &&& pos <= ok.1 <= data@.len()
                &&& ok.0@.len() == count
                &&& parse_faces(data@.skip(pos as int), count as nat, num_points) == Some(
                    (ok.0@, data@.skip(ok.1 as int)),
                )
            },
            None => parse_faces(data@.skip(pos as int), count as nat, num_points) is None,
        },
{
    let mut faces: Vec<(u32, u32, u32)> = Vec::new();
    let mut cur = pos;
    let mut i: u32 = 0;
    while i < count
        invariant
            i <= count,
            pos <= cur <= data@.len(),
            faces@.len() == i,
            (match parse_faces(data@.skip(cur as int), (count - i) as nat, num_points) {
                Some(sr) => parse_faces(data@.skip(pos as int), count as nat, num_points)
                    == Some((faces@ + sr.0, sr.1)),
                None => parse_faces(data@.skip(pos as int), count as nat, num_points) is None,
            }),
        decreases count - i,
    {
        let ghost prev = faces@;
        let step0 = read_u32(data, cur);
        if step0.is_none() {
            return None;
        }
        let (c0, p1) = step0.unwrap();
        let step1 = read_u32(data, p1);
        if step1.is_none() {
            return None;
        }
        let (c1, p2) = step1.unwrap();
        let step2 = read_u32(data, p2);
        if step2.is_none() {
            return None;
        }
        let (c2, p3) = step2.unwrap();
        if !(c0 < num_points && c1 < num_points && c2 < num_points) {
            return None;
        }
        faces.push((c0, c1, c2));
        proof {
            match parse_faces(data@.skip(p3 as int), (count - i - 1) as nat, num_points) {
                Some(sr) => {
                    assert(prev + (seq![(c0, c1, c2)] + sr.0) =~= faces@ + sr.0);
                },
                None => {},
            }
        }
        cur = p3;
        i = i + 1;
    }
    proof {
        assert(faces@ + Seq::<(u32, u32, u32)>::empty() =~= faces@);
    }
    Some((faces, cur))
}

/// Every row a successful `parse_rows` yields has exactly `width` bytes.
pub proof fn lemma_parse_rows_shape(s: Seq<u8>, count: nat, width: nat)
    ensures
        parse_rows(s, count, width) matches Some(sr) ==> sr.0.len() == count && forall|k: int|
            0 <= k < sr.0.len() ==> (#[trigger] sr.0[k]).len() == width,
    decreases count,
{
    if count != 0 && s.len() >= width {
        lemma_parse_rows_shape(s.skip(width as int), (count - 1) as nat, width);
    }
}

/// Every face a successful `parse_faces` yields indexes into the point
/// range.
pub proof fn lemma_parse_faces_range(s: Seq<u8>, count: nat, num_points: u32)
    ensures
        parse_faces(s, count, num_points) matches Some(sr) ==> sr.0.len() == count && forall|
            k: int,
        |
            0 <= k < sr.0.len() ==> face_in_range(#[trigger] sr.0[k], num_points),
    decreases count,
{
    if count != 0 {
        match parse_u32(s) {
            Some((c0, s1)) => match parse_u32(s1) {
                Some((c1, s2)) => match parse_u32(s2) {
                    Some((c2, s3)) => {
                        lemma_parse_faces_range(s3, (count - 1) as nat, num_points);
                    },
                    None => {},
                },
                None => {},
            },
            None => {},
        }
    }
}

/// The full round trip: a cloud built from staged point data, encoded and
/// decoded again, comes back exactly, with the staged point count and, for
/// every point and attribute, the staged value.
pub proof fn lemma_built_cloud_round_trip(b: BuilderView, deduplicate: bool, p: CloudView)
    requires
        b.wf(),
        p.wf(),
        build_result(b, deduplicate, p),
    ensures
        spec_decode_cloud(spec_encode_cloud(p)) == Some(p),
        p.num_points == b.num_points,
        forall|a: int, i: int|
            #![trigger p.attributes[a].value_at(i)]
            0 <= a < b.attrs.len() && 0 <= i < b.num_points ==> p.attributes[a].value_at(i)
                == b.attrs[a].data[i],
{
    lemma_cloud_round_trip(p);
    assert forall|a: int, i: int|
        #![trigger p.attributes[a].value_at(i)]
        0 <= a < b.attrs.len() && 0 <= i < b.num_points implies p.attributes[a].value_at(i)
        == b.attrs[a].data[i] by {
        assert(crate::pointcloud::build_attr_result(b, deduplicate, p, a));
    }
}

} // verus!
