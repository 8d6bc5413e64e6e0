use vstd::prelude::*;

use crate::bits::{bits_value, pow2, to_bit_vec, Bit};
use crate::protocol::{ProtocolError, Segment};

verus! {

/// The three version bits of the frame header.
#[derive(PartialEq, Eq, Clone, Copy, Debug, Structural)]
pub struct Version {
    pub inner: u8,
}

impl Version {
    /// Accepts a version only if it fits in the header's three bits.
    pub fn new(value: u8) -> (r: Result<Self, ProtocolError>)
        ensures
            value <= 7 ==> r == Ok::<Version, ProtocolError>((Version { inner: value })),
            value > 7 ==> r == Err::<Version, ProtocolError>(ProtocolError::VersionOutOfRange),
    {
        if value > 7 {
            return Err(ProtocolError::VersionOutOfRange);
        }
        Ok(Version { inner: value })
    }

    /// The version as a bit sequence, most significant bit first.
    pub fn value(&self) -> (r: Vec<Bit>)
        ensures
            r@.len() == 3,
            bits_value(r@) == (self.inner as nat) % pow2(3),
    {
        to_bit_vec(self.inner as u32, 3)
    }
}

impl Segment for Version {
    open spec fn spec_byte(&self) -> u8 {
        self.inner
    }

    open spec fn spec_from(byte: u8) -> Version {
        Version { inner: byte % 8 }
    }

    fn bits() -> usize {
        3
    }

    fn to_byte(&self) -> u8 {
        self.inner
    }

    fn from_byte(byte: u8) -> Version {
        Version { inner: byte % 8 }
    }
}

} // verus!
