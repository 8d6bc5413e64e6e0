use vstd::prelude::*;

pub mod frame;
pub mod head;
pub mod header;
pub mod kind;
pub mod length;
pub mod op;
pub mod version;

verus! {

/// First byte of every frame on the wire.
pub const MAGIC_PREFIX: u8 = 0xff;

/// The protocol version this crate speaks.
pub const CURRENT_VERSION: u8 = 1;

/// Largest number of payload bytes one frame may carry.
pub const MAX_PAYLOAD_LENGTH: u8 = 255;

/// Failures raised by the codec layer.
#[derive(PartialEq, Eq, Clone, Copy, Debug, Structural)]
pub enum ProtocolError {
    /// A version value does not fit in the header's three version bits.
    VersionOutOfRange,
}

/// A fixed-width field of the frame layout.
///
/// Every segment knows its width in bits, the byte value it contributes to
/// the wire, and how to rebuild itself from such a byte.
pub trait Segment: Sized {
    /// The byte value this segment stands for.
    spec fn spec_byte(&self) -> u8;

    /// The segment a byte decodes to.
    spec fn spec_from(byte: u8) -> Self;

    /// Width of this segment in bits.
    fn bits() -> usize;

    /// Encode the segment into its byte value.
    fn to_byte(&self) -> (r: u8)
        ensures
            r == self.spec_byte(),
    ;

    /// Decode a segment from a byte value.
    fn from_byte(byte: u8) -> (r: Self)
        ensures
            r == Self::spec_from(byte),
    ;
}

} // verus!
