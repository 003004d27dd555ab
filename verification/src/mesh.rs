//! A point cloud plus triangle connectivity.

use vstd::prelude::*;

use crate::codec::FORMAT_VERSION;
use crate::codec::MAGIC0;
use crate::codec::MAGIC1;
use crate::codec::STREAM_MESH;
use crate::codec::lemma_parse_faces_range;
use crate::codec::push_faces;
use crate::codec::push_u32;
use crate::codec::read_faces;
use crate::codec::read_u32;
use crate::codec::spec_decode_mesh;
use crate::codec::spec_encode_mesh;
use crate::decode::Decoder;
use crate::decode::DecoderBuffer;
use crate::encode::Encoder;
use crate::encode::EncoderBuffer;
use crate::pointcloud::CloudView;
use crate::pointcloud::append_cloud_body;
use crate::pointcloud::read_cloud_body;
use crate::pointcloud::PointCloud;
use crate::status::DracoStatus;
use crate::status::DracoStatusType;
use crate::status::StatusCode;

verus! {

/// Whether every corner of `face` names a point of a cloud with
/// `num_points` points.
pub open spec fn face_in_range(face: (u32, u32, u32), num_points: u32) -> bool {
    face.0 < num_points && face.1 < num_points && face.2 < num_points
}

/// Mathematical model of a mesh: a point cloud plus an ordered sequence of
/// triangle faces indexing into the cloud's own point set.
#[verifier::ext_equal]
pub ghost struct MeshView {
    pub cloud: CloudView,
    pub faces: Seq<(u32, u32, u32)>,
}

impl MeshView {
    pub open spec fn wf(self) -> bool {
        &&& self.cloud.wf()
        &&& self.faces.len() <= 0xffff_ffff
        &&& forall|f: int|
            0 <= f < self.faces.len() ==> face_in_range(
                #[trigger] self.faces[f],
                self.cloud.num_points,
            )
    }
}

/// A [`PointCloud`]-compatible superset carrying triangle connectivity.
/// Every face is a triple of point indices into the mesh's own point set.
#[derive(Debug)]
pub struct Mesh {
    cloud: PointCloud,
    faces: Vec<(u32, u32, u32)>,
}

impl View for Mesh {
    type V = MeshView;

    closed spec fn view(&self) -> MeshView {
        MeshView { cloud: self.cloud@, faces: self.faces@ }
    }
}

impl Mesh {
    /// Wraps a finalized point cloud; no faces yet.
    pub fn from_cloud(cloud: PointCloud) -> (r: Self)
        ensures
            r@.cloud == cloud@,
            r@.faces.len() == 0,
            cloud@.wf() ==> r@.wf(),
    {
        Mesh { cloud, faces: Vec::new() }
    }

    /// The underlying point cloud.
    pub fn cloud(&self) -> (r: &PointCloud)
        ensures
            r@ == self@.cloud,
    {
        &self.cloud
    }

    pub fn num_points(&self) -> (r: u32)
        ensures
            r == self@.cloud.num_points,
    {
        self.cloud.num_points()
    }

    pub fn num_faces(&self) -> (r: u32)
        requires
            self@.wf(),
        ensures
            r == self@.faces.len(),
    {
        self.faces.len() as u32
    }

    /// Appends the triangle `(corner0, corner1, corner2)`.  Every corner
    /// must index a point of the mesh (`IndexOutOfRange` otherwise); a mesh
    /// whose face count has exhausted the format's capacity rejects further
    /// faces with `EngineFailure`.
    pub fn add_face(&mut self, corner0: u32, corner1: u32, corner2: u32) -> (r: DracoStatusType<
        (),
    >)
        requires
            old(self)@.wf(),
        ensures
            final(self)@.wf(),
            final(self)@.cloud == old(self)@.cloud,
            !face_in_range((corner0, corner1, corner2), old(self)@.cloud.num_points) ==> (
            r matches Err(st) && st.is_failure(StatusCode::IndexOutOfRange) && final(self)@ == old(
                self,
            )@),
            face_in_range((corner0, corner1, corner2), old(self)@.cloud.num_points) && old(
                self,
            )@.faces.len() >= 0xffff_ffff ==> (r matches Err(st) && st.is_failure(
                StatusCode::EngineFailure,
            ) && final(self)@ == old(self)@),
            face_in_range((corner0, corner1, corner2), old(self)@.cloud.num_points) && old(
                self,
            )@.faces.len() < 0xffff_ffff ==> {
                &&& r is Ok
                &&& final(self)@.faces == old(self)@.faces.push((corner0, corner1, corner2))
            },
    {
        let n = self.cloud.num_points();
        if corner0 >= n || corner1 >= n || corner2 >= n {
            return Err(DracoStatus::Failed(
                StatusCode::IndexOutOfRange,
                "add_face: a face corner is outside the mesh's point range".to_owned(),
            ));
        }
        if self.faces.len() >= 0xffff_ffff {
            return Err(DracoStatus::Failed(
                StatusCode::EngineFailure,
                "add_face: the face count exhausts the stream format's capacity".to_owned(),
            ));
        }
        self.faces.push((corner0, corner1, corner2));
        Ok(())
    }

    /// The face at `face_index`, or `IndexOutOfRange`.
    pub fn get_face(&self, face_index: u32) -> (r: DracoStatusType<(u32, u32, u32)>)
        requires
            self@.wf(),
        ensures
            face_index < self@.faces.len() ==> (r matches Ok(f) && f == self@.faces[
                face_index as int
            ]),
            face_index >= self@.faces.len() ==> (r matches Err(st) && st.is_failure(
                StatusCode::IndexOutOfRange,
            )),
    {
        if (face_index as usize) < self.faces.len() {
            Ok(self.faces[face_index as usize])
        } else {
            Err(DracoStatus::Failed(
                StatusCode::IndexOutOfRange,
                "get_face: the face index is out of range".to_owned(),
            ))
        }
    }
}

impl Mesh {
    /// Encodes this mesh through the encoding pipeline into a fresh
    /// buffer: the cloud body followed by the face table, under a mesh
    /// stream header.
    pub fn to_buffer(&self, encoder: &mut Encoder) -> (r: DracoStatusType<EncoderBuffer>)
        requires
            self@.wf(),
        ensures
            r matches Ok(buf) && buf@ == spec_encode_mesh(self@),
            final(encoder)@ == old(encoder)@,
    {
        let mut out: Vec<u8> = Vec::new();
        out.push(MAGIC0);
        out.push(MAGIC1);
        out.push(FORMAT_VERSION);
        out.push(STREAM_MESH);
        append_cloud_body(&self.cloud, &mut out);
        push_u32(&mut out, self.faces.len() as u32);
        push_faces(&mut out, &self.faces);
        proof {
            assert(out@ =~= spec_encode_mesh(self@));
        }
        Ok(EncoderBuffer::from_vec(out))
    }

    /// Decodes a mesh from the buffer: the inverse of
    /// [`Mesh::to_buffer`].  Exactly the streams that `spec_decode_mesh`
    /// accepts are decoded; a malformed, truncated or non-mesh stream is
    /// reported as `EngineFailure`.
    #[verifier::loop_isolation(false)]
    pub fn from_buffer(decoder: &mut Decoder, buffer: &DecoderBuffer) -> (r: DracoStatusType<
        Mesh,
    >)
        ensures
            spec_decode_mesh(buffer@) matches Some(m) ==> (r matches Ok(mesh) && mesh@ == m
                && mesh@.wf()),
            spec_decode_mesh(buffer@) is None ==> (r matches Err(st) && st.is_failure(
                StatusCode::EngineFailure,
            )),
    {
        let data = buffer.bytes();
        if data.len() < 4 || data[0] != MAGIC0 || data[1] != MAGIC1 || data[2] != FORMAT_VERSION
            || data[3] != STREAM_MESH {
            return Err(DracoStatus::Failed(
                StatusCode::EngineFailure,
                "decode_mesh: the buffer does not hold a mesh stream of this format".to_owned(),
            ));
        }
        proof {
            assert(data@.skip(4) =~= buffer@.skip(4));
        }
        let body = read_cloud_body(data, 4);
        if body.is_none() {
            return Err(DracoStatus::Failed(
                StatusCode::EngineFailure,
                "decode_mesh: the buffer is malformed or truncated".to_owned(),
            ));
        }
        let (cloud, p1) = body.unwrap();
        let count = read_u32(data, p1);
        if count.is_none() {
            return Err(DracoStatus::Failed(
                StatusCode::EngineFailure,
                "decode_mesh: the face count is missing".to_owned(),
            ));
        }
        let (nf, p2) = count.unwrap();
        let table = read_faces(data, p2, nf, cloud.num_points());
        if table.is_none() {
            return Err(DracoStatus::Failed(
                StatusCode::EngineFailure,
                "decode_mesh: the face table is malformed or truncated".to_owned(),
            ));
        }
        let (faces, p3) = table.unwrap();
        if p3 != data.len() {
            proof {
                assert(data@.skip(p3 as int).len() != 0);
            }
            return Err(DracoStatus::Failed(
                StatusCode::EngineFailure,
                "decode_mesh: the buffer holds bytes beyond the encoded stream".to_owned(),
            ));
        }
        let mesh = Mesh { cloud, faces };
        proof {
            lemma_parse_faces_range(data@.skip(p2 as int), nf as nat, mesh@.cloud.num_points);
            assert(data@.skip(p3 as int).len() == 0);
            assert(mesh@.wf());
            assert(spec_decode_mesh(buffer@) == Some(mesh@));
        }
        Ok(mesh)
    }
}

} // verus!
