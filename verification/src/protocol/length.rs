use vstd::prelude::*;

use crate::protocol::Segment;

verus! {

/// The payload-length byte of a frame: how many payload bytes follow the
/// three header bytes.
#[derive(PartialEq, Eq, Clone, Copy, Debug, Structural)]
pub struct Length(pub u8);

impl Length {
    pub fn new(value: u8) -> (r: Self)
        ensures
            r == (Length(value)),
    {
        Length(value)
    }

    pub fn inner_value(&self) -> (r: u8)
        ensures
            r == self.0,
    {
        self.0
    }
}

impl Segment for Length {
    open spec fn spec_byte(&self) -> u8 {
        self.0
    }

    open spec fn spec_from(byte: u8) -> Length {
        Length(byte)
    }

    fn bits() -> usize {
        8
    }

    fn to_byte(&self) -> u8 {
        self.0
    }

    fn from_byte(byte: u8) -> Length {
        Length(byte)
    }
}

} // verus!
