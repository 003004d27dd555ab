//! The encoder configuration object and the byte buffer that encoding
//! produces.

use vstd::prelude::*;

use crate::pointcloud::AttributeKind;

verus! {

/// Mathematical model of an encoder's configuration.
#[verifier::ext_equal]
pub ghost struct EncoderView {
    /// Quantization settings in the order they were applied; a later entry
    /// for a kind supersedes an earlier one for the next encode.
    pub quantization: Seq<(AttributeKind, u8)>,
    pub encoding_speed: i32,
    pub decoding_speed: i32,
}

/// A stateful, configurable driver for the encoding pipeline.  Tuning knobs
/// are applied builder-style before an encode and only affect buffers
/// produced afterwards.  This engine stores attribute values at full
/// precision, so every configured quantization tolerance is honoured:
/// decoded values equal the encoded ones exactly.
pub struct Encoder {
    quantization: Vec<(AttributeKind, u8)>,
    encoding_speed: i32,
    decoding_speed: i32,
}

impl View for Encoder {
    type V = EncoderView;

    closed spec fn view(&self) -> EncoderView {
        EncoderView {
            quantization: self.quantization@,
            encoding_speed: self.encoding_speed,
            decoding_speed: self.decoding_speed,
        }
    }
}

impl Encoder {
    /// A fresh encoder: no quantization settings, default speed 5 in both
    /// directions.
    pub fn new() -> (r: Self)
        ensures
            r@.quantization.len() == 0,
            r@.encoding_speed == 5,
            r@.decoding_speed == 5,
    {
        Encoder { quantization: Vec::new(), encoding_speed: 5, decoding_speed: 5 }
    }

    /// Records the quantization bit-depth to apply to attributes of `kind`
    /// from the next encode on; smaller `bits` trades geometric precision
    /// for size.  Buffers already produced are unaffected.
    pub fn set_attribute_quantization(self, kind: AttributeKind, bits: u8) -> (r: Self)
        ensures
            r@.quantization == self@.quantization.push((kind, bits)),
            r@.encoding_speed == self@.encoding_speed,
            r@.decoding_speed == self@.decoding_speed,
    {
        let mut e = self;
        e.quantization.push((kind, bits));
        e
    }

    /// Trades compression ratio against CPU time in both directions
    /// (0 = slowest and smallest, higher = faster and larger); the settings
    /// are forwarded opaquely to the encoding pipeline.
    pub fn set_speed_options(self, encoding_speed: i32, decoding_speed: i32) -> (r: Self)
        ensures
            r@.quantization == self@.quantization,
            r@.encoding_speed == encoding_speed,
            r@.decoding_speed == decoding_speed,
    {
        let mut e = self;
        e.encoding_speed = encoding_speed;
        e.decoding_speed = decoding_speed;
        e
    }
}

impl Default for Encoder {
    fn default() -> (r: Self)
        ensures
            r@.quantization.len() == 0,
            r@.encoding_speed == 5,
            r@.decoding_speed == 5,
    {
        Self::new()
    }
}

/// An owned, growable byte buffer with an explicit logical size: the sole
/// transport between encoding and decoding.
pub struct EncoderBuffer {
    bytes: Vec<u8>,
}

impl View for EncoderBuffer {
    type V = Seq<u8>;

    closed spec fn view(&self) -> Seq<u8> {
        self.bytes@
    }
}

impl EncoderBuffer {
    /// An empty buffer.
    pub fn new() -> (r: Self)
        ensures
            r@.len() == 0,
    {
        EncoderBuffer { bytes: Vec::new() }
    }

    /// Wraps already encoded bytes.
    pub(crate) fn from_vec(bytes: Vec<u8>) -> (r: Self)
        ensures
            r@ == bytes@,
    {
        EncoderBuffer { bytes }
    }

    /// Discards the contents.
    pub fn clear(&mut self)
        ensures
            final(self)@.len() == 0,
    {
        self.bytes.clear();
    }

    /// Sets the logical size: truncates to `size` bytes, or extends with
    /// zero bytes.
    pub fn resize(&mut self, size: usize)
        ensures
            final(self)@.len() == size,
            size <= old(self)@.len() ==> final(self)@ == old(self)@.subrange(0, size as int),
            size > old(self)@.len() ==> {
                &&& final(self)@.subrange(0, old(self)@.len() as int) == old(self)@
                &&& forall|i: int| old(self)@.len() <= i < size ==> final(self)@[i] == 0
            },
    {
        if size <= self.bytes.len() {
            self.bytes.truncate(size);
        } else {
            let ghost orig = self.bytes@;
            while self.bytes.len() < size
                invariant
                    orig.len() < size,
                    orig.len() <= self.bytes@.len() <= size,
                    self.bytes@.subrange(0, orig.len() as int) == orig,
                    forall|i: int| orig.len() <= i < self.bytes@.len() ==> self.bytes@[i] == 0,
                decreases size - self.bytes@.len(),
            {
                self.bytes.push(0u8);
                proof {
                    assert(self.bytes@.subrange(0, orig.len() as int) =~= orig);
                }
            }
            proof {
                assert(self@.subrange(0, old(self)@.len() as int) =~= old(self)@);
            }
        }
    }

    /// The size of the buffer in bytes.
    pub fn size(&self) -> (r: usize)
        ensures
            r == self@.len(),
    {
        self.bytes.len()
    }

    /// A read view of the buffer's bytes.
    pub fn as_slice(&self) -> (r: &[u8])
        ensures
            r@ == self@,
    {
        self.bytes.as_slice()
    }
}

impl Default for EncoderBuffer {
    fn default() -> (r: Self)
        ensures
            r@.len() == 0,
    {
        Self::new()
    }
}

} // verus!
