//! The decoder driver and the byte buffer that decoding reads.

use vstd::prelude::*;

use crate::codec::spec_decode_cloud;
use crate::codec::spec_decode_mesh;
use crate::encode::EncoderBuffer;
use crate::mesh::Mesh;
use crate::pointcloud::PointCloud;
use crate::status::DracoStatusType;
use crate::status::StatusCode;

verus! {

/// A read view over bytes to decode.  The buffer owns a defensive copy of
/// the supplied data, so no external byte storage needs to outlive it.
pub struct DecoderBuffer {
    bytes: Vec<u8>,
}

impl View for DecoderBuffer {
    type V = Seq<u8>;

    closed spec fn view(&self) -> Seq<u8> {
        self.bytes@
    }
}

/// Copies a byte slice into a fresh vector.
fn copy_slice(src: &[u8]) -> (r: Vec<u8>)
    ensures
        r@ == src@,
{
    let mut out: Vec<u8> = Vec::new();
    let n = src.len();
    for i in 0..n
        invariant
            n == src@.len(),
            out@ == src@.take(i as int),
    {
        out.push(src[i]);
        proof {
            assert(out@ =~= src@.take(i + 1));
        }
    }
    proof {
        assert(out@ =~= src@);
    }
    out
}

impl DecoderBuffer {
    /// An empty buffer.
    pub fn new() -> (r: Self)
        ensures
            r@.len() == 0,
    {
        DecoderBuffer { bytes: Vec::new() }
    }

    /// Initializes the buffer with a copy of the given bytes.
    pub fn from_buffer(data_buffer: &[u8]) -> (r: Self)
        ensures
            r@ == data_buffer@,
    {
        DecoderBuffer { bytes: copy_slice(data_buffer) }
    }

    /// Initializes the buffer with the contents of an encoder buffer.
    pub fn from_encoder_buffer(encoder_buffer: &EncoderBuffer) -> (r: Self)
        ensures
            r@ == encoder_buffer@,
    {
        Self::from_buffer(encoder_buffer.as_slice())
    }

    /// The buffer's bytes, for the decoding pipeline.
    pub(crate) fn bytes(&self) -> (r: &Vec<u8>)
        ensures
            r@ == self@,
    {
        &self.bytes
    }
}

impl Default for DecoderBuffer {
    fn default() -> (r: Self)
        ensures
            r@.len() == 0,
    {
        Self::new()
    }
}

/// The driver for the decoding pipeline; it selects the concrete result
/// type from the stream discriminator the buffer carries.
pub struct Decoder {}

impl Decoder {
    pub fn new() -> (r: Self) {
        Decoder {  }
    }

    /// Decodes a point-cloud stream; a buffer whose discriminator names
    /// another stream type, or that is malformed, is rejected with
    /// `EngineFailure`.
    pub fn decode(&mut self, buffer: &DecoderBuffer) -> (r: DracoStatusType<PointCloud>)
        ensures
            spec_decode_cloud(buffer@) matches Some(p) ==> (r matches Ok(pc) && pc@ == p
                && pc@.wf()),
            spec_decode_cloud(buffer@) is None ==> (r matches Err(st) && st.is_failure(
                StatusCode::EngineFailure,
            )),
    {
        PointCloud::from_buffer(self, buffer)
    }

    /// Decodes a mesh stream; a buffer whose discriminator names another
    /// stream type, or that is malformed, is rejected with
    /// `EngineFailure`.
    pub fn decode_mesh(&mut self, buffer: &DecoderBuffer) -> (r: DracoStatusType<Mesh>)
        ensures
            spec_decode_mesh(buffer@) matches Some(m) ==> (r matches Ok(mesh) && mesh@ == m
                && mesh@.wf()),
            spec_decode_mesh(buffer@) is None ==> (r matches Err(st) && st.is_failure(
                StatusCode::EngineFailure,
            )),
    {
        Mesh::from_buffer(self, buffer)
    }
}

impl Default for Decoder {
    fn default() -> (r: Self) {
        Self::new()
    }
}

} // verus!
