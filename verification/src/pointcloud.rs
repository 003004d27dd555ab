//! The attribute-indexed storage model: element types, attribute stores,
//! the write-only staging builder, and the immutable point cloud.
//!
//! Each attribute owns a dense array of fixed-width values plus a mapping
//! from point index to value index; the indirection is what lets several
//! points share one stored value after deduplication.

use vstd::prelude::*;

use crate::codec::FORMAT_VERSION;
use crate::codec::MAGIC0;
use crate::codec::MAGIC1;
use crate::codec::STREAM_POINT_CLOUD;
use crate::codec::enc_attr;
use crate::codec::enc_attrs;
use crate::codec::enc_cloud_body;
use crate::codec::et_from_tag_exec;
use crate::codec::et_tag_exec;
use crate::codec::kind_from_tag_exec;
use crate::codec::kind_tag_exec;
use crate::codec::lemma_enc_attrs_push;
use crate::codec::lemma_parse_rows_shape;
use crate::codec::parse_attr;
use crate::codec::parse_attrs;
use crate::codec::parse_cloud_body;
use crate::codec::push_rows;
use crate::codec::push_u32;
use crate::codec::push_u32s;
use crate::codec::read_rows;
use crate::codec::read_u32;
use crate::codec::read_u32s;
use crate::codec::spec_decode_cloud;
use crate::codec::spec_encode_cloud;
use crate::codec::u32_le;
use crate::decode::Decoder;
use crate::decode::DecoderBuffer;
use crate::encode::Encoder;
use crate::encode::EncoderBuffer;
use crate::status::AttrId;
use crate::status::DracoStatus;
use crate::status::DracoStatusType;
use crate::status::StatusCode;

verus! {

/// The fixed-width scalar type of one attribute component.  Values are
/// carried as raw little-endian bytes; the tag records how many bytes one
/// component occupies and how readers should interpret them.
#[derive(Clone, Copy, Debug, PartialEq, Eq, Structural)]
pub enum ElementType {
    F32,
    F64,
    I8,
    U8,
    I16,
    U16,
    I32,
    U32,
}

impl ElementType {
    /// Width in bytes of one component of this type.
    pub open spec fn spec_byte_size(self) -> nat {
        match self {
            ElementType::F32 => 4,
            ElementType::F64 => 8,
            ElementType::I8 => 1,
            ElementType::U8 => 1,
            ElementType::I16 => 2,
            ElementType::U16 => 2,
            ElementType::I32 => 4,
            ElementType::U32 => 4,
        }
    }

    pub fn byte_size(self) -> (r: usize)
        ensures
            r == self.spec_byte_size(),
    {
        match self {
            ElementType::F32 => 4,
            ElementType::F64 => 8,
            ElementType::I8 => 1,
            ElementType::U8 => 1,
            ElementType::I16 => 2,
            ElementType::U16 => 2,
            ElementType::I32 => 4,
            ElementType::U32 => 4,
        }
    }
}

/// The semantic kind under which an attribute stream is registered.
#[derive(Clone, Copy, Debug, PartialEq, Eq, Structural)]
pub enum AttributeKind {
    Position,
    Normal,
    Color,
    TexCoord,
    Generic,
}

/// Byte width of one whole attribute value: `component_count` components,
/// each `element_type.spec_byte_size()` bytes.
pub open spec fn spec_stride(component_count: u8, element_type: ElementType) -> nat {
    component_count as nat * element_type.spec_byte_size()
}

pub fn stride_of(component_count: u8, element_type: ElementType) -> (r: usize)
    ensures
        r == spec_stride(component_count, element_type),
        r <= 2040,
{
    let width = element_type.byte_size();
    proof {
        assert(component_count as nat * element_type.spec_byte_size() <= 2040)
            by (nonlinear_arith)
            requires
                component_count <= 255,
                element_type.spec_byte_size() <= 8,
        ;
    }
    (component_count as usize) * width
}

/// A row of `width` zero bytes: the staged value of a point that was never
/// written.
pub open spec fn zero_row(width: nat) -> Seq<u8> {
    Seq::new(width, |j: int| 0u8)
}

/// Mathematical model of one attribute store.
#[verifier::ext_equal]
pub ghost struct AttrStoreView {
    pub kind: AttributeKind,
    pub element_type: ElementType,
    pub component_count: u8,
    /// The distinct stored values, each `stride()` bytes.
    pub values: Seq<Seq<u8>>,
    /// For each point, the index of its value in `values`.
    pub point_map: Seq<u32>,
}

impl AttrStoreView {
    pub open spec fn stride(self) -> nat {
        spec_stride(self.component_count, self.element_type)
    }

    pub open spec fn wf(self, num_points: u32) -> bool {
        &&& self.component_count >= 1
        &&& self.values.len() <= 0xffff_ffff
        &&& forall|v: int|
            0 <= v < self.values.len() ==> (#[trigger] self.values[v]).len() == self.stride()
        &&& self.point_map.len() == num_points
        &&& forall|i: int|
            0 <= i < self.point_map.len() ==> (#[trigger] self.point_map[i]) < self.values.len()
    }

    /// The value that point `i` resolves to.
    pub open spec fn value_at(self, i: int) -> Seq<u8> {
        self.values[self.point_map[i] as int]
    }
}

/// Mathematical model of a point cloud.
#[verifier::ext_equal]
pub ghost struct CloudView {
    pub num_points: u32,
    pub attributes: Seq<AttrStoreView>,
}

impl CloudView {
    pub open spec fn wf(self) -> bool {
        &&& self.attributes.len() <= 0x7fff_ffff
        &&& forall|a: int|
            0 <= a < self.attributes.len() ==> (#[trigger] self.attributes[a]).wf(self.num_points)
    }

    /// Whether `id` names an attribute of this cloud.
    pub open spec fn has_attr(self, id: AttrId) -> bool {
        0 <= id.0 < self.attributes.len()
    }
}

/// How many attributes of `attrs` are registered under `kind`.
pub open spec fn count_kind(attrs: Seq<AttrStoreView>, kind: AttributeKind) -> int
    decreases attrs.len(),
{
    if attrs.len() == 0 {
        0
    } else {
        count_kind(attrs.drop_last(), kind) + if attrs.last().kind == kind {
            1int
        } else {
            0int
        }
    }
}

proof fn lemma_count_kind_bounds(attrs: Seq<AttrStoreView>, kind: AttributeKind)
    ensures
        0 <= count_kind(attrs, kind) <= attrs.len(),
    decreases attrs.len(),
{
    if attrs.len() > 0 {
        lemma_count_kind_bounds(attrs.drop_last(), kind);
    }
}

/// Type-erased, per-attribute, per-point value storage: an element type,
/// a component count, the distinct stored values, and the point-to-value
/// mapping.
#[derive(Debug)]
pub struct AttributeStore {
    kind: AttributeKind,
    element_type: ElementType,
    component_count: u8,
    values: Vec<Vec<u8>>,
    point_map: Vec<u32>,
}

impl View for AttributeStore {
    type V = AttrStoreView;

    closed spec fn view(&self) -> AttrStoreView {
        AttrStoreView {
            kind: self.kind,
            element_type: self.element_type,
            component_count: self.component_count,
            values: self.values.deep_view(),
            point_map: self.point_map@,
        }
    }
}

/// An ordered collection of points, each point referencing one value per
/// attribute.  The point count is fixed at construction; produced only by
/// [`PointCloudBuilder::build`] or by decoding a buffer.
#[derive(Debug)]
pub struct PointCloud {
    num_points: u32,
    attributes: Vec<AttributeStore>,
}

/// The views of a vector of attribute stores.
pub open spec fn attrs_views(v: Vec<AttributeStore>) -> Seq<AttrStoreView> {
    Seq::new(v@.len(), |a: int| v@[a]@)
}

impl View for PointCloud {
    type V = CloudView;

    closed spec fn view(&self) -> CloudView {
        CloudView { num_points: self.num_points, attributes: attrs_views(self.attributes) }
    }
}

/// Copies a byte slice into a fresh vector.
fn copy_bytes(src: &[u8]) -> (r: Vec<u8>)
    ensures
        r@ == src@,
{
    let mut out: Vec<u8> = Vec::new();
    let n = src.len();
    for i in 0..n
        invariant
            n == src@.len(),
            out@ == src@.take(i as int),
    {
        out.push(src[i]);
        proof {
            assert(out@ =~= src@.take(i + 1));
        }
    }
    proof {
        assert(out@ =~= src@);
    }
    out
}

/// Bridges the deep view of a vector of byte rows with the views of its
/// rows.
pub(crate) proof fn lemma_rows_deep_view(v: Vec<Vec<u8>>)
    ensures
        v.deep_view().len() == v@.len(),
        forall|k: int| 0 <= k < v@.len() ==> #[trigger] v.deep_view()[k] == v@[k]@,
{
    assert forall|k: int| 0 <= k < v@.len() implies #[trigger] v.deep_view()[k] == v@[k]@ by {
        assert(v.deep_view()[k] =~= v@[k]@);
    }
}

impl PointCloud {
    /// An empty cloud: no points, no attributes.
    pub fn new() -> (r: Self)
        ensures
            r@.num_points == 0,
            r@.attributes.len() == 0,
            r@.wf(),
    {
        let r = PointCloud { num_points: 0, attributes: Vec::new() };
        proof {
            assert(r@.attributes =~= Seq::<AttrStoreView>::empty());
        }
        r
    }

    /// Point count, fixed since construction.
    pub fn num_points(&self) -> (r: u32)
        ensures
            r == self@.num_points,
    {
        self.num_points
    }

    pub fn len(&self) -> (r: u32)
        ensures
            r == self@.num_points,
    {
        self.num_points
    }

    pub fn is_empty(&self) -> (r: bool)
        ensures
            r == (self@.num_points == 0),
    {
        self.num_points == 0
    }

    /// Count of attributes registered under the semantic kind `kind`.
    pub fn num_named_attributes(&self, kind: AttributeKind) -> (r: i32)
        requires
            self@.wf(),
        ensures
            r == count_kind(self@.attributes, kind),
    {
        let ghost attrs = self@.attributes;
        let mut count: i32 = 0;
        let n = self.attributes.len();
        proof {
            assert(attrs.take(0) =~= Seq::<AttrStoreView>::empty());
        }
        for a in 0..n
            invariant
                n == attrs.len() <= 0x7fff_ffff,
                attrs == self@.attributes,
                self@.wf(),
                count == count_kind(attrs.take(a as int), kind),
                0 <= count <= a,
        {
            proof {
                lemma_count_kind_bounds(attrs.take(a as int), kind);
                assert(attrs.take(a + 1).drop_last() =~= attrs.take(a as int));
                assert(attrs.take(a + 1).last() == attrs[a as int]);
            }
            if self.attributes[a].kind == kind {
                proof {
                    assert(attrs[a as int].kind == kind);
                }
                count = count + 1;
            }
        }
        proof {
            assert(attrs.take(n as int) =~= attrs);
        }
        count
    }

    /// The id of the `i`-th (0-based, in registration order) attribute of
    /// kind `kind`, or `None` when fewer than `i + 1` such attributes exist.
    pub fn get_named_attribute_id(&self, kind: AttributeKind, i: i32) -> (r: Option<AttrId>)
        requires
            self@.wf(),
        ensures
            match r {
                Some(id) => {
                    &&& 0 <= id.0 < self@.attributes.len()
                    &&& self@.attributes[id.0 as int].kind == kind
                    &&& count_kind(self@.attributes.take(id.0 as int), kind) == i
                },
                None => i < 0 || count_kind(self@.attributes, kind) <= i,
            },
    {
        if i < 0 {
            return None;
        }
        let ghost attrs = self@.attributes;
        let mut count: i32 = 0;
        let n = self.attributes.len();
        proof {
            assert(attrs.take(0) =~= Seq::<AttrStoreView>::empty());
        }
        for a in 0..n
            invariant
                n == attrs.len() <= 0x7fff_ffff,
                attrs == self@.attributes,
                self@.wf(),
                0 <= i,
                count == count_kind(attrs.take(a as int), kind),
                0 <= count <= i,
        {
            proof {
                assert(attrs.take(a + 1).drop_last() =~= attrs.take(a as int));
                assert(attrs.take(a + 1).last() == attrs[a as int]);
            }
            if self.attributes[a].kind == kind {
                if count == i {
                    return Some(AttrId(a as i32));
                }
                count = count + 1;
            }
        }
        proof {
            assert(attrs.take(n as int) =~= attrs);
        }
        None
    }

    /// Resolves `point_index` through the attribute's point map and copies
    /// the stored value into `out`.  Fails with `InvalidAttribute` when the
    /// id does not name an attribute of this cloud, and with
    /// `IndexOutOfRange` when `point_index >= num_points()`; `out` is left
    /// unchanged on failure.
    pub fn get_point(&self, attr_id: AttrId, point_index: u32, out: &mut Vec<u8>) -> (r:
        DracoStatusType<()>)
        requires
            self@.wf(),
        ensures
            !self@.has_attr(attr_id) ==> {
                &&& r matches Err(st) && st.is_failure(StatusCode::InvalidAttribute)
                &&& final(out)@ == old(out)@
            },
            self@.has_attr(attr_id) && point_index >= self@.num_points ==> {
                &&& r matches Err(st) && st.is_failure(StatusCode::IndexOutOfRange)
                &&& final(out)@ == old(out)@
            },
            self@.has_attr(attr_id) && point_index < self@.num_points ==> {
                &&& r is Ok
                &&& final(out)@ == self@.attributes[attr_id.0 as int].value_at(point_index as int)
            },
    {
        if attr_id.0 < 0 || attr_id.0 as usize >= self.attributes.len() {
            return Err(DracoStatus::Failed(
                StatusCode::InvalidAttribute,
                "get_point: the id does not name an attribute of this cloud".to_owned(),
            ));
        }
        if point_index >= self.num_points {
            return Err(DracoStatus::Failed(
                StatusCode::IndexOutOfRange,
                "get_point: the point index is out of range".to_owned(),
            ));
        }
        let store = &self.attributes[attr_id.0 as usize];
        proof {
            assert(store@ == self@.attributes[attr_id.0 as int]);
            assert(store@.wf(self@.num_points));
        }
        let value_index = store.point_map[point_index as usize];
        let row = copy_bytes(store.values[value_index as usize].as_slice());
        *out = row;
        Ok(())
    }

    /// Like [`PointCloud::get_point`], but allocates and returns the value.
    pub fn get_point_alloc(&self, attr_id: AttrId, point_index: u32) -> (r: DracoStatusType<
        Vec<u8>,
    >)
        requires
            self@.wf(),
        ensures
            !self@.has_attr(attr_id) ==> (r matches Err(st) && st.is_failure(
                StatusCode::InvalidAttribute,
            )),
            self@.has_attr(attr_id) && point_index >= self@.num_points ==> (r matches Err(st)
                && st.is_failure(StatusCode::IndexOutOfRange)),
            self@.has_attr(attr_id) && point_index < self@.num_points ==> (r matches Ok(v) && v@
                == self@.attributes[attr_id.0 as int].value_at(point_index as int)),
    {
        let mut out: Vec<u8> = Vec::new();
        match self.get_point(attr_id, point_index, &mut out) {
            Ok(()) => Ok(out),
            Err(st) => Err(st),
        }
    }

    /// How many distinct attribute values are stored for `attr_id`.  After a
    /// deduplicated build this can be smaller than the point count.
    pub fn num_attribute_values(&self, attr_id: AttrId) -> (r: DracoStatusType<u32>)
        requires
            self@.wf(),
        ensures
            !self@.has_attr(attr_id) ==> (r matches Err(st) && st.is_failure(
                StatusCode::InvalidAttribute,
            )),
            self@.has_attr(attr_id) ==> (r matches Ok(n) && n
                == self@.attributes[attr_id.0 as int].values.len()),
    {
        if attr_id.0 < 0 || attr_id.0 as usize >= self.attributes.len() {
            return Err(DracoStatus::Failed(
                StatusCode::InvalidAttribute,
                "num_attribute_values: the id does not name an attribute of this cloud".to_owned(),
            ));
        }
        let store = &self.attributes[attr_id.0 as usize];
        Ok(store.values.len() as u32)
    }
}

impl Default for PointCloud {
    fn default() -> (r: Self)
        ensures
            r@.num_points == 0,
            r@.attributes.len() == 0,
            r@.wf(),
    {
        Self::new()
    }
}

/// Mathematical model of one staged attribute: its declaration and one
/// staged value per point.
#[verifier::ext_equal]
pub ghost struct BuilderAttrView {
    pub kind: AttributeKind,
    pub element_type: ElementType,
    pub component_count: u8,
    pub data: Seq<Seq<u8>>,
}

impl BuilderAttrView {
    pub open spec fn stride(self) -> nat {
        spec_stride(self.component_count, self.element_type)
    }

    pub open spec fn wf(self, num_points: u32) -> bool {
        &&& self.component_count >= 1
        &&& self.data.len() == num_points
        &&& forall|i: int|
            0 <= i < self.data.len() ==> (#[trigger] self.data[i]).len() == self.stride()
    }
}

/// Mathematical model of the staging area.
#[verifier::ext_equal]
pub ghost struct BuilderView {
    pub num_points: u32,
    pub attrs: Seq<BuilderAttrView>,
}

impl BuilderView {
    pub open spec fn wf(self) -> bool {
        &&& self.attrs.len() <= 0x7fff_ffff
        &&& forall|a: int|
            0 <= a < self.attrs.len() ==> (#[trigger] self.attrs[a]).wf(self.num_points)
    }

    /// Whether `id` names an attribute declared on this builder.
    pub open spec fn has_attr(self, id: AttrId) -> bool {
        0 <= id.0 < self.attrs.len()
    }

    /// Whether points `i` and `j` stage identical full attribute-value
    /// tuples.
    pub open spec fn tuple_eq(self, i: int, j: int) -> bool {
        forall|a: int|
            0 <= a < self.attrs.len() ==> (#[trigger] self.attrs[a]).data[i]
                == self.attrs[a].data[j]
    }
}

struct BuilderAttr {
    kind: AttributeKind,
    element_type: ElementType,
    component_count: u8,
    data: Vec<Vec<u8>>,
}

impl View for BuilderAttr {
    type V = BuilderAttrView;

    closed spec fn view(&self) -> BuilderAttrView {
        BuilderAttrView {
            kind: self.kind,
            element_type: self.element_type,
            component_count: self.component_count,
            data: self.data.deep_view(),
        }
    }
}

/// A row of `width` zero bytes.
fn zero_row_vec(width: usize) -> (r: Vec<u8>)
    ensures
        r@ == zero_row(width as nat),
{
    let mut out: Vec<u8> = Vec::new();
    for j in 0..width
        invariant
            out@ == zero_row(j as nat),
    {
        out.push(0u8);
        proof {
            assert(out@ =~= zero_row((j + 1) as nat));
        }
    }
    out
}

/// A write-only staging object: it accumulates attribute declarations and
/// raw point values, then [`PointCloudBuilder::build`] consumes it into an
/// immutable [`PointCloud`].  Because `build` takes the builder by value,
/// use after finalization is a compile-time error rather than a runtime
/// failure.
pub struct PointCloudBuilder {
    num_points: u32,
    attrs: Vec<BuilderAttr>,
}

impl View for PointCloudBuilder {
    type V = BuilderView;

    closed spec fn view(&self) -> BuilderView {
        BuilderView {
            num_points: self.num_points,
            attrs: Seq::new(self.attrs@.len(), |a: int| self.attrs@[a]@),
        }
    }
}

impl PointCloudBuilder {
    /// Allocates staging state for `num_points` points; no attributes yet.
    pub fn new(num_points: u32) -> (r: Self)
        ensures
            r@.num_points == num_points,
            r@.attrs.len() == 0,
            r@.wf(),
    {
        let r = PointCloudBuilder { num_points, attrs: Vec::new() };
        proof {
            assert(r@.attrs =~= Seq::<BuilderAttrView>::empty());
        }
        r
    }

    /// Registers a new attribute stream of `component_count` components of
    /// `element_type` under the semantic kind `kind`, staging a zero value
    /// for every point, and returns its fresh builder-scoped id.  Fails with
    /// `InvalidAttribute` when `component_count` is zero (or when no further
    /// id can be represented).
    pub fn add_attribute(
        &mut self,
        kind: AttributeKind,
        component_count: u8,
        element_type: ElementType,
    ) -> (r: DracoStatusType<AttrId>)
        requires
            old(self)@.wf(),
        ensures
            final(self)@.wf(),
            final(self)@.num_points == old(self)@.num_points,
            (component_count == 0 || old(self)@.attrs.len() >= 0x7fff_ffff) ==> (r matches Err(st)
                && st.is_failure(StatusCode::InvalidAttribute) && final(self)@ == old(self)@),
            (component_count > 0 && old(self)@.attrs.len() < 0x7fff_ffff) ==> {
                &&& r matches Ok(id) && id.0 == old(self)@.attrs.len()
                &&& final(self)@.attrs == old(self)@.attrs.push(
                    BuilderAttrView {
                        kind,
                        element_type,
                        component_count,
                        data: Seq::new(
                            old(self)@.num_points as nat,
                            |i: int| zero_row(spec_stride(component_count, element_type)),
                        ),
                    },
                )
            },
    {
        if component_count == 0 {
            return Err(DracoStatus::Failed(
                StatusCode::InvalidAttribute,
                "add_attribute: the component count must be positive".to_owned(),
            ));
        }
        if self.attrs.len() >= 0x7fff_ffff {
            return Err(DracoStatus::Failed(
                StatusCode::InvalidAttribute,
                "add_attribute: no further attribute id can be represented".to_owned(),
            ));
        }
        let width = stride_of(component_count, element_type);
        let mut data: Vec<Vec<u8>> = Vec::new();
        let count = self.num_points;
        let mut i: u32 = 0;
        while i < count
            invariant
                i <= count,
                width == spec_stride(component_count, element_type),
                data@.len() == i,
                forall|k: int|
                    0 <= k < i ==> (#[trigger] data@[k])@ == zero_row(
                        spec_stride(component_count, element_type),
                    ),
            decreases count - i,
        {
            data.push(zero_row_vec(width));
            i = i + 1;
        }
        let id = AttrId(self.attrs.len() as i32);
        let new_attr = BuilderAttr { kind, element_type, component_count, data };
        proof {
            lemma_rows_deep_view(new_attr.data);
            assert(new_attr@.data =~= Seq::new(
                old(self)@.num_points as nat,
                |i: int| zero_row(spec_stride(component_count, element_type)),
            ));
        }
        self.attrs.push(new_attr);
        proof {
            assert(self@.attrs =~= old(self)@.attrs.push(new_attr@));
        }
        Ok(id)
    }

    /// Stores `value` as the attribute value of point `point_index` for the
    /// stream `attr_id`, overwriting any value staged earlier for that pair.
    /// The byte length of `value` must match the stream's declared shape;
    /// a mismatch is rejected with `InvalidAttribute` instead of being
    /// reinterpreted.
    pub fn add_point(&mut self, attr_id: AttrId, point_index: u32, value: &[u8]) -> (r:
        DracoStatusType<()>)
        requires
            old(self)@.wf(),
        ensures
            final(self)@.wf(),
            final(self)@.num_points == old(self)@.num_points,
            !old(self)@.has_attr(attr_id) ==> (r matches Err(st) && st.is_failure(
                StatusCode::InvalidAttribute,
            ) && final(self)@ == old(self)@),
            old(self)@.has_attr(attr_id) && point_index >= old(self)@.num_points ==> (r matches Err(
                st,
            ) && st.is_failure(StatusCode::IndexOutOfRange) && final(self)@ == old(self)@),
            old(self)@.has_attr(attr_id) && point_index < old(self)@.num_points && value@.len()
                != old(self)@.attrs[attr_id.0 as int].stride() ==> (r matches Err(st)
                && st.is_failure(StatusCode::InvalidAttribute) && final(self)@ == old(self)@),
            old(self)@.has_attr(attr_id) && point_index < old(self)@.num_points && value@.len()
                == old(self)@.attrs[attr_id.0 as int].stride() ==> {
                &&& r is Ok
                &&& final(self)@.attrs == old(self)@.attrs.update(
                    attr_id.0 as int,
                    BuilderAttrView {
                        data: old(self)@.attrs[attr_id.0 as int].data.update(
                            point_index as int,
                            value@,
                        ),
                        ..old(self)@.attrs[attr_id.0 as int]
                    },
                )
            },
    {
        if attr_id.0 < 0 || attr_id.0 as usize >= self.attrs.len() {
            return Err(DracoStatus::Failed(
                StatusCode::InvalidAttribute,
                "add_point: the id does not name an attribute of this builder".to_owned(),
            ));
        }
        if point_index >= self.num_points {
            return Err(DracoStatus::Failed(
                StatusCode::IndexOutOfRange,
                "add_point: the point index is out of range".to_owned(),
            ));
        }
        let idx = attr_id.0 as usize;
        let width = stride_of(self.attrs[idx].component_count, self.attrs[idx].element_type);
        if value.len() != width {
            return Err(DracoStatus::Failed(
                StatusCode::InvalidAttribute,
                "add_point: the value does not match the attribute's byte shape".to_owned(),
            ));
        }
        let row = copy_bytes(value);
        let store = &mut self.attrs[idx];
        store.data[point_index as usize] = row;
        proof {
            lemma_rows_deep_view(self.attrs@[attr_id.0 as int].data);
            lemma_rows_deep_view(old(self).attrs@[attr_id.0 as int].data);
            assert(self@.attrs[attr_id.0 as int].data =~= old(self)@.attrs[
                attr_id.0 as int
            ].data.update(point_index as int, value@));
            assert(self@.attrs =~= old(self)@.attrs.update(
                attr_id.0 as int,
                BuilderAttrView {
                    data: old(self)@.attrs[attr_id.0 as int].data.update(
                        point_index as int,
                        value@,
                    ),
                    ..old(self)@.attrs[attr_id.0 as int]
                },
            ));
        }
        Ok(())
    }
}

/// Compares two byte vectors for equality of contents.
fn bytes_eq(x: &Vec<u8>, y: &Vec<u8>) -> (r: bool)
    ensures
        r == (x@ == y@),
{
    if x.len() != y.len() {
        return false;
    }
    let n = x.len();
    for i in 0..n
        invariant
            n == x@.len() == y@.len(),
            forall|k: int| 0 <= k < i ==> x@[k] == y@[k],
    {
        if x[i] != y[i] {
            return false;
        }
    }
    proof {
        assert(x@ =~= y@);
    }
    true
}

/// Copies a vector of indices.
fn copy_u32s(src: &Vec<u32>) -> (r: Vec<u32>)
    ensures
        r@ == src@,
{
    let mut out: Vec<u32> = Vec::new();
    let n = src.len();
    for i in 0..n
        invariant
            n == src@.len(),
            out@ == src@.take(i as int),
    {
        out.push(src[i]);
        proof {
            assert(out@ =~= src@.take(i + 1));
        }
    }
    proof {
        assert(out@ =~= src@);
    }
    out
}

/// Whether some point of `point_map` resolves to the stored slot `v`.
pub open spec fn slot_referenced(point_map: Seq<u32>, v: int) -> bool {
    exists|i: int| 0 <= i < point_map.len() && (#[trigger] point_map[i]) == v
}

/// What one finished attribute store holds, in terms of the staged data and
/// the shared point-to-value mapping chosen at build time.
spec fn attr_built(
    index_map: Seq<u32>,
    reps: Seq<u32>,
    ba: BuilderAttrView,
    sv: AttrStoreView,
) -> bool {
    &&& sv.kind == ba.kind
    &&& sv.element_type == ba.element_type
    &&& sv.component_count == ba.component_count
    &&& sv.point_map == index_map
    &&& sv.values.len() == reps.len()
    &&& forall|v: int| 0 <= v < reps.len() ==> (#[trigger] sv.values[v]) == ba.data[reps[v] as int]
}

/// What [`PointCloudBuilder::build`] guarantees about one attribute of its
/// result.
pub open spec fn build_attr_result(
    b: BuilderView,
    deduplicate: bool,
    p: CloudView,
    a: int,
) -> bool {
    let pa = p.attributes[a];
    let ba = b.attrs[a];
    &&& pa.kind == ba.kind
    &&& pa.element_type == ba.element_type
    &&& pa.component_count == ba.component_count
    &&& pa.point_map.len() == b.num_points
    &&& forall|i: int| 0 <= i < b.num_points ==> #[trigger] pa.value_at(i) == ba.data[i]
    &&& if deduplicate {
        &&& pa.values.len() <= b.num_points
        &&& forall|i: int, j: int|
            #![trigger pa.point_map[i], pa.point_map[j]]
            0 <= i < b.num_points && 0 <= j < b.num_points ==> ((pa.point_map[i]
                == pa.point_map[j]) <==> b.tuple_eq(i, j))
        &&& forall|v: int| 0 <= v < pa.values.len() ==> #[trigger] slot_referenced(pa.point_map, v)
    } else {
        &&& pa.values.len() == b.num_points
        &&& forall|i: int| 0 <= i < b.num_points ==> (#[trigger] pa.point_map[i]) == i
    }
}

/// What [`PointCloudBuilder::build`] guarantees: the result has the staged
/// point count and attribute declarations, every point resolves to exactly
/// the value staged for it, and the stored values are deduplicated (two
/// points share a value index precisely when their full staged tuples are
/// equal, and every stored value is referenced) or kept one per point.
pub open spec fn build_result(b: BuilderView, deduplicate: bool, p: CloudView) -> bool {
    &&& p.num_points == b.num_points
    &&& p.attributes.len() == b.attrs.len()
    &&& forall|a: int| 0 <= a < b.attrs.len() ==> #[trigger] build_attr_result(b, deduplicate, p, a)
}

/// Deduplication is compaction only: built from the same staged data, the
/// deduplicated cloud reports the same point count as the plain one, and
/// stores at most as many distinct attribute values per stream.
pub proof fn lemma_deduplication_compact(b: BuilderView, dedup: CloudView, plain: CloudView)
    requires
        build_result(b, true, dedup),
        build_result(b, false, plain),
    ensures
        dedup.num_points == plain.num_points,
        forall|a: int|
            0 <= a < b.attrs.len() ==> (#[trigger] dedup.attributes[a]).values.len()
                <= plain.attributes[a].values.len(),
{
    assert forall|a: int|
        0 <= a < b.attrs.len() implies (#[trigger] dedup.attributes[a]).values.len()
        <= plain.attributes[a].values.len() by {
        assert(build_attr_result(b, true, dedup, a));
        assert(build_attr_result(b, false, plain, a));
    }
}

impl PointCloudBuilder {
    /// Whether points `i` and `j` stage identical values for every declared
    /// attribute.
    fn tuples_equal(&self, i: u32, j: u32) -> (r: bool)
        requires
            self@.wf(),
            i < self@.num_points,
            j < self@.num_points,
        ensures
            r == self@.tuple_eq(i as int, j as int),
    {
        let ghost b = self@;
        let m = self.attrs.len();
        for a in 0..m
            invariant
                m == b.attrs.len(),
                b == self@,
                b.wf(),
                i < b.num_points,
                j < b.num_points,
                forall|k: int|
                    0 <= k < a ==> (#[trigger] b.attrs[k]).data[i as int] == b.attrs[k].data[j as int],
        {
            let sa = &self.attrs[a];
            proof {
                assert(sa@ == b.attrs[a as int]);
                lemma_rows_deep_view(sa.data);
            }
            if !bytes_eq(&sa.data[i as usize], &sa.data[j as usize]) {
                proof {
                    assert(b.attrs[a as int].data[i as int] != b.attrs[a as int].data[j as int]);
                }
                return false;
            }
        }
        true
    }

    /// Searches points `0..i` for one whose staged tuple equals that of
    /// point `i`.
    fn find_equal_tuple(&self, i: u32) -> (r: Option<u32>)
        requires
            self@.wf(),
            i < self@.num_points,
        ensures
            match r {
                Some(j) => j < i && self@.tuple_eq(j as int, i as int),
                None => forall|j: int| 0 <= j < i ==> !self@.tuple_eq(j, i as int),
            },
    {
        let mut j: u32 = 0;
        while j < i
            invariant
                j <= i,
                self@.wf(),
                i < self@.num_points,
                forall|k: int| 0 <= k < j ==> !self@.tuple_eq(k, i as int),
            decreases i - j,
        {
            if self.tuples_equal(j, i) {
                return Some(j);
            }
            j = j + 1;
        }
        None
    }

    /// Consumes the builder and finalizes the staged data into an immutable
    /// [`PointCloud`].  With `deduplicate` set, points whose full staged
    /// attribute-value tuples are identical come to share one stored value
    /// per stream; the externally visible point count is unchanged either
    /// way.  Because the builder is taken by value, calling any builder
    /// method after `build` is a compile-time error.
    pub fn build(self, deduplicate: bool) -> (r: PointCloud)
        requires
            self@.wf(),
        ensures
            r@.wf(),
            build_result(self@, deduplicate, r@),
    {
        let ghost b = self@;
        let n = self.num_points;
        let mut index_map: Vec<u32> = Vec::new();
        let mut reps: Vec<u32> = Vec::new();
        if deduplicate {
            let mut i: u32 = 0;
            while i < n
                invariant
                    i <= n,
                    n == b.num_points,
                    b == self@,
                    b.wf(),
                    index_map@.len() == i,
                    reps@.len() <= i,
                    forall|k: int| 0 <= k < i ==> (#[trigger] index_map@[k]) < reps@.len(),
                    forall|v: int|
                        0 <= v < reps@.len() ==> (#[trigger] reps@[v]) < i && index_map@[reps@[v] as int]
                            == v,
                    forall|k: int|
                        0 <= k < i ==> b.tuple_eq(reps@[(#[trigger] index_map@[k]) as int] as int, k),
                    forall|k1: int, k2: int|
                        #![trigger index_map@[k1], index_map@[k2]]
                        0 <= k1 < i && 0 <= k2 < i ==> ((index_map@[k1] == index_map@[k2])
                            <==> b.tuple_eq(k1, k2)),
                decreases n - i,
            {
                match self.find_equal_tuple(i) {
                    Some(j) => {
                        let v = index_map[j as usize];
                        index_map.push(v);
                        proof {
                            let ii = i as int;
                            let jj = j as int;
                            assert forall|k: int| 0 <= k < ii implies ((index_map@[k]
                                == index_map@[ii]) <==> b.tuple_eq(k, ii)) by {
                                assert((index_map@[k] == index_map@[jj]) <==> b.tuple_eq(k, jj));
                            }
                            assert(b.tuple_eq(ii, ii));
                            assert(b.tuple_eq(reps@[index_map@[jj] as int] as int, jj));
                            assert(b.tuple_eq(reps@[index_map@[ii] as int] as int, ii));
                        }
                    },
                    None => {
                        proof {
                            assert(reps@.len() <= i < n <= 0xffff_ffffu32);
                        }
                        let v = reps.len() as u32;
                        index_map.push(v);
                        reps.push(i);
                        proof {
                            let ii = i as int;
                            assert(b.tuple_eq(ii, ii));
                            assert forall|k: int| 0 <= k < ii implies ((index_map@[k]
                                == index_map@[ii]) <==> b.tuple_eq(k, ii)) by {
                                assert(index_map@[k] < reps@.len() - 1);
                                assert(!b.tuple_eq(k, ii));
                            }
                        }
                    },
                }
                i = i + 1;
            }
        } else {
            let mut i: u32 = 0;
            while i < n
                invariant
                    i <= n,
                    index_map@.len() == i,
                    reps@.len() == i,
                    forall|k: int| 0 <= k < i ==> (#[trigger] index_map@[k]) == k,
                    forall|k: int| 0 <= k < i ==> (#[trigger] reps@[k]) == k,
                decreases n - i,
            {
                index_map.push(i);
                reps.push(i);
                i = i + 1;
            }
        }
        // Both passes end with one mapping entry per point, every entry
        // naming a stored slot, and every slot representing some point.
        let mut attributes: Vec<AttributeStore> = Vec::new();
        let num_attrs = self.attrs.len();
        let mut a: usize = 0;
        while a < num_attrs
            invariant
                a <= num_attrs,
                num_attrs == b.attrs.len(),
                b == self@,
                b.wf(),
                n == b.num_points,
                index_map@.len() == n,
                reps@.len() <= n,
                forall|k: int| 0 <= k < index_map@.len() ==> (#[trigger] index_map@[k]) < reps@.len(),
                forall|v: int| 0 <= v < reps@.len() ==> (#[trigger] reps@[v]) < n,
                attributes@.len() == a,
                forall|a2: int|
                    0 <= a2 < a ==> attr_built(index_map@, reps@, b.attrs[a2], (#[trigger] attributes@[a2])@),
            decreases num_attrs - a,
        {
            let sa = &self.attrs[a];
            proof {
                assert(sa@ == b.attrs[a as int]);
                lemma_rows_deep_view(sa.data);
            }
            let mut values: Vec<Vec<u8>> = Vec::new();
            let rcount = reps.len();
            let mut v: usize = 0;
            while v < rcount
                invariant
                    v <= rcount,
                    rcount == reps@.len() <= n,
                    b.wf(),
                    n == b.num_points,
                    (a as int) < b.attrs.len(),
                    sa@ == b.attrs[a as int],
                    forall|k: int| 0 <= k < reps@.len() ==> (#[trigger] reps@[k]) < n,
                    values@.len() == v,
                    forall|k: int|
                        0 <= k < v ==> (#[trigger] values@[k])@ == b.attrs[a as int].data[reps@[k] as int],
                decreases rcount - v,
            {
                let pi = reps[v];
                proof {
                    lemma_rows_deep_view(sa.data);
                    assert(sa.data@.len() == b.attrs[a as int].data.len());
                }
                values.push(copy_bytes(sa.data[pi as usize].as_slice()));
                v = v + 1;
            }
            let pm = copy_u32s(&index_map);
            let store = AttributeStore {
                kind: sa.kind,
                element_type: sa.element_type,
                component_count: sa.component_count,
                values,
                point_map: pm,
            };
            proof {
                lemma_rows_deep_view(store.values);
                assert(attr_built(index_map@, reps@, b.attrs[a as int], store@));
            }
            attributes.push(store);
            a = a + 1;
        }
        let r = PointCloud { num_points: n, attributes };
        proof {
            assert forall|a2: int| 0 <= a2 < b.attrs.len() implies (#[trigger] r@.attributes[a2]).wf(
                r@.num_points,
            ) && build_attr_result(b, deduplicate, r@, a2) by {
                let pa = r@.attributes[a2];
                let ba = b.attrs[a2];
                assert(pa == attributes@[a2]@);
                assert(attr_built(index_map@, reps@, ba, pa));
                assert(ba.wf(b.num_points));
                assert forall|v: int| 0 <= v < pa.values.len() implies (#[trigger] pa.values[v]).len()
                    == pa.stride() by {
                    assert(pa.values[v] == ba.data[reps@[v] as int]);
                    assert(0 <= reps@[v] < b.num_points);
                }
                assert forall|i: int| 0 <= i < pa.point_map.len() implies (#[trigger] pa.point_map[i])
                    < pa.values.len() by {
                    assert(pa.point_map[i] == index_map@[i]);
                }
                assert forall|i: int| 0 <= i < b.num_points implies #[trigger] pa.value_at(i)
                    == ba.data[i] by {
                    let vi = pa.point_map[i] as int;
                    assert(pa.point_map[i] == index_map@[i]);
                    assert(index_map@[i] < reps@.len());
                    assert(pa.values[vi] == ba.data[reps@[vi] as int]);
                    if deduplicate {
                        assert(b.tuple_eq(reps@[index_map@[i] as int] as int, i));
                        assert(ba.data[reps@[vi] as int] == ba.data[i]);
                    } else {
                        assert(index_map@[i] == i);
                        assert(reps@[vi] == vi);
                    }
                }
                if deduplicate {
                    assert forall|i: int, j: int|
                        #![trigger pa.point_map[i], pa.point_map[j]]
                        0 <= i < b.num_points && 0 <= j < b.num_points implies ((pa.point_map[i]
                        == pa.point_map[j]) <==> b.tuple_eq(i, j)) by {
                        assert(pa.point_map[i] == index_map@[i]);
                        assert(pa.point_map[j] == index_map@[j]);
                        assert((index_map@[i] == index_map@[j]) <==> b.tuple_eq(i, j));
                    }
                    assert forall|v: int| 0 <= v < pa.values.len() implies #[trigger] slot_referenced(
                        pa.point_map,
                        v,
                    ) by {
                        let w = reps@[v] as int;
                        assert(index_map@[w] == v);
                        assert(pa.point_map[w] == v);
                        assert(0 <= w < pa.point_map.len());
                    }
                } else {
                    assert forall|i: int| 0 <= i < b.num_points implies (#[trigger] pa.point_map[i])
                        == i by {
                        assert(pa.point_map[i] == index_map@[i]);
                    }
                }
                assert(pa.wf(r@.num_points));
                assert(build_attr_result(b, deduplicate, r@, a2));
            }
        }
        r
    }
}

/// Whether every entry of `pmap` is below `bound`.
fn check_indices(pmap: &Vec<u32>, bound: u32) -> (r: bool)
    ensures
        r == (forall|i: int| 0 <= i < pmap@.len() ==> (#[trigger] pmap@[i]) < bound),
{
    let n = pmap.len();
    for i in 0..n
        invariant
            n == pmap@.len(),
            forall|k: int| 0 <= k < i ==> (#[trigger] pmap@[k]) < bound,
    {
        if pmap[i] >= bound {
            return false;
        }
    }
    true
}

/// Appends the encoded record of one attribute store.
fn append_attr(store: &AttributeStore, out: &mut Vec<u8>)
    requires
        store@.values.len() <= 0xffff_ffff,
    ensures
        final(out)@ == old(out)@ + enc_attr(store@),
{
    out.push(kind_tag_exec(store.kind));
    out.push(et_tag_exec(store.element_type));
    out.push(store.component_count);
    push_u32(out, store.values.len() as u32);
    push_rows(out, &store.values);
    push_u32s(out, &store.point_map);
    proof {
        assert(out@ =~= old(out)@ + enc_attr(store@));
    }
}

/// Appends the encoded cloud body: point count, attribute count, and the
/// attribute records.
pub(crate) fn append_cloud_body(pc: &PointCloud, out: &mut Vec<u8>)
    requires
        pc@.wf(),
    ensures
        final(out)@ == old(out)@ + enc_cloud_body(pc@),
{
    push_u32(out, pc.num_points);
    push_u32(out, pc.attributes.len() as u32);
    let ghost head = old(out)@ + u32_le(pc@.num_points) + u32_le(pc@.attributes.len() as u32);
    proof {
        assert(out@ =~= head + enc_attrs(pc@.attributes.take(0)));
    }
    let n = pc.attributes.len();
    for a in 0..n
        invariant
            n == pc@.attributes.len(),
            pc@.wf(),
            out@ == head + enc_attrs(pc@.attributes.take(a as int)),
    {
        let store = &pc.attributes[a];
        proof {
            assert(store@ == pc@.attributes[a as int]);
            assert(store@.wf(pc@.num_points));
        }
        append_attr(store, out);
        proof {
            lemma_enc_attrs_push(pc@.attributes.take(a as int), pc@.attributes[a as int]);
            assert(pc@.attributes.take(a + 1) =~= pc@.attributes.take(a as int).push(
                pc@.attributes[a as int],
            ));
            assert(out@ =~= head + enc_attrs(pc@.attributes.take(a + 1)));
        }
    }
    proof {
        assert(pc@.attributes.take(n as int) =~= pc@.attributes);
        assert(head + enc_attrs(pc@.attributes) =~= old(out)@ + enc_cloud_body(pc@));
    }
}

/// Reads one attribute record.
fn read_attr(data: &Vec<u8>, pos: usize, num_points: u32) -> (r: Option<(AttributeStore, usize)>)
    requires
        pos <= data@.len(),
    ensures
        match r {
            Some(ok) => {
                &&& pos <= ok.1 <= data@.len()
                &&& parse_attr(data@.skip(pos as int), num_points) == Some(
                    (ok.0@, data@.skip(ok.1 as int)),
                )
                &&& ok.0@.wf(num_points)
            },
            None => parse_attr(data@.skip(pos as int), num_points) is None,
        },
{
    let total = data.len();
    let ghost s = data@.skip(pos as int);
    if total - pos < 3 {
        return None;
    }
    let kt = kind_from_tag_exec(data[pos]);
    let et = et_from_tag_exec(data[pos + 1]);
    let component_count = data[pos + 2];
    proof {
        assert(s[0] == data@[pos as int]);
        assert(s[1] == data@[pos as int + 1]);
        assert(s[2] == data@[pos as int + 2]);
    }
    if kt.is_none() || et.is_none() || component_count == 0 {
        return None;
    }
    let kind = kt.unwrap();
    let element_type = et.unwrap();
    let width = stride_of(component_count, element_type);
    proof {
        assert(s.skip(3) =~= data@.skip(pos as int + 3));
    }
    let r1 = read_u32(data, pos + 3);
    if r1.is_none() {
        return None;
    }
    let (nv, p1) = r1.unwrap();
    let r2 = read_rows(data, p1, nv, width);
    if r2.is_none() {
        return None;
    }
    let (rows, p2) = r2.unwrap();
    let r3 = read_u32s(data, p2, num_points);
    if r3.is_none() {
        return None;
    }
    let (pmap, p3) = r3.unwrap();
    if !check_indices(&pmap, nv) {
        return None;
    }
    let store = AttributeStore { kind, element_type, component_count, values: rows, point_map: pmap };
    proof {
        lemma_parse_rows_shape(data@.skip(p1 as int), nv as nat, width as nat);
        assert(parse_attr(s, num_points) == Some((store@, data@.skip(p3 as int))));
        assert(store@.wf(num_points));
    }
    Some((store, p3))
}

/// Reads a cloud body and assembles the point cloud.
#[verifier::loop_isolation(false)]
pub(crate) fn read_cloud_body(data: &Vec<u8>, pos: usize) -> (r: Option<(PointCloud, usize)>)
    requires
        pos <= data@.len(),
    ensures
        match r {
            Some(ok) => {
                &&& pos <= ok.1 <= data@.len()
                &&& parse_cloud_body(data@.skip(pos as int)) == Some(
                    (ok.0@, data@.skip(ok.1 as int)),
                )
                &&& ok.0@.wf()
            },
            None => parse_cloud_body(data@.skip(pos as int)) is None,
        },
{
    let r0 = read_u32(data, pos);
    if r0.is_none() {
        return None;
    }
    let (n, p0) = r0.unwrap();
    let r1 = read_u32(data, p0);
    if r1.is_none() {
        return None;
    }
    let (na, p1) = r1.unwrap();
    if na > 0x7fff_ffff {
        return None;
    }
    let mut attributes: Vec<AttributeStore> = Vec::new();
    let mut cur = p1;
    let mut a: u32 = 0;
    proof {
        assert(attrs_views(attributes) =~= Seq::<AttrStoreView>::empty());
    }
    while a < na
        invariant
            a <= na,
            p1 <= cur <= data@.len(),
            attributes@.len() == a,
            attrs_views(attributes).len() == a,
            forall|k: int|
                0 <= k < a ==> (#[trigger] attrs_views(attributes)[k]).wf(n),
            (match parse_attrs(data@.skip(cur as int), (na - a) as nat, n) {
                Some(sr) => parse_attrs(data@.skip(p1 as int), na as nat, n) == Some(
                    (attrs_views(attributes) + sr.0, sr.1),
                ),
                None => parse_attrs(data@.skip(p1 as int), na as nat, n) is None,
            }),
        decreases na - a,
    {
        let ghost prev = attrs_views(attributes);
        let step = read_attr(data, cur, n);
        if step.is_none() {
            return None;
        }
        let (store, next) = step.unwrap();
        attributes.push(store);
        proof {
            assert(attrs_views(attributes) =~= prev.push(store@));
            match parse_attrs(data@.skip(next as int), (na - a - 1) as nat, n) {
                Some(sr) => {
                    assert(prev + (seq![store@] + sr.0) =~= attrs_views(attributes) + sr.0);
                },
                None => {},
            }
        }
        cur = next;
        a = a + 1;
    }
    let pc = PointCloud { num_points: n, attributes };
    proof {
        assert(attrs_views(pc.attributes) + Seq::<AttrStoreView>::empty() =~= attrs_views(
            pc.attributes,
        ));
        assert(parse_cloud_body(data@.skip(pos as int)) == Some((pc@, data@.skip(cur as int))));
        assert(pc@.wf());
    }
    Some((pc, cur))
}

impl PointCloud {
    /// Encodes this cloud through the encoding pipeline into a fresh
    /// buffer.  The encoder's knobs configure the pipeline; this engine
    /// stores values at full precision, so encoding succeeds for every
    /// well-formed cloud and the buffer holds exactly the cloud's encoded
    /// stream.
    pub fn to_buffer(&self, encoder: &mut Encoder) -> (r: DracoStatusType<EncoderBuffer>)
        requires
            self@.wf(),
        ensures
            r matches Ok(buf) && buf@ == spec_encode_cloud(self@),
            final(encoder)@ == old(encoder)@,
    {
        let mut out: Vec<u8> = Vec::new();
        out.push(MAGIC0);
        out.push(MAGIC1);
        out.push(FORMAT_VERSION);
        out.push(STREAM_POINT_CLOUD);
        append_cloud_body(self, &mut out);
        proof {
            assert(out@ =~= spec_encode_cloud(self@));
        }
        Ok(EncoderBuffer::from_vec(out))
    }

    /// Decodes a point cloud from the buffer: the inverse of
    /// [`PointCloud::to_buffer`].  Exactly the streams that
    /// `spec_decode_cloud` accepts are decoded; a malformed, truncated or
    /// non-point-cloud stream is reported as `EngineFailure`.
    pub fn from_buffer(decoder: &mut Decoder, buffer: &DecoderBuffer) -> (r: DracoStatusType<
        PointCloud,
    >)
        ensures
            spec_decode_cloud(buffer@) matches Some(p) ==> (r matches Ok(pc) && pc@ == p
                && pc@.wf()),
            spec_decode_cloud(buffer@) is None ==> (r matches Err(st) && st.is_failure(
                StatusCode::EngineFailure,
            )),
    {
        let data = buffer.bytes();
        if data.len() < 4 || data[0] != MAGIC0 || data[1] != MAGIC1 || data[2] != FORMAT_VERSION
            || data[3] != STREAM_POINT_CLOUD {
            return Err(DracoStatus::Failed(
                StatusCode::EngineFailure,
                "decode: the buffer does not hold a point-cloud stream of this format".to_owned(),
            ));
        }
        match read_cloud_body(data, 4) {
            None => {
                proof {
                    assert(data@.skip(4) =~= buffer@.skip(4));
                }
                Err(DracoStatus::Failed(
                    StatusCode::EngineFailure,
                    "decode: the buffer is malformed or truncated".to_owned(),
                ))
            },
            Some((pc, end)) => {
                if end != data.len() {
                    proof {
                        assert(data@.skip(4) =~= buffer@.skip(4));
                        assert(data@.skip(end as int).len() != 0);
                    }
                    return Err(DracoStatus::Failed(
                        StatusCode::EngineFailure,
                        "decode: the buffer holds bytes beyond the encoded stream".to_owned(),
                    ));
                }
                proof {
                    assert(data@.skip(4) =~= buffer@.skip(4));
                    assert(data@.skip(end as int).len() == 0);
                    assert(spec_decode_cloud(buffer@) == Some(pc@));
                }
                Ok(pc)
            },
        }
    }
}

} // verus!
