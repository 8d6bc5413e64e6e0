use vstd::prelude::*;

use crate::protocol::Segment;

verus! {

/// Marks whether a frame ends a logical message (`FIN`) or whether more
/// frames of the same kind follow (`UNFIN`).
#[derive(PartialEq, Eq, Clone, Copy, Debug, Structural)]
pub enum Head {
    UNFIN,
    FIN,
}

impl Segment for Head {
    open spec fn spec_byte(&self) -> u8 {
        match self {
            Head::UNFIN => 0,
            Head::FIN => 1,
        }
    }

    open spec fn spec_from(byte: u8) -> Head {
        if byte == 0 {
            Head::UNFIN
        } else {
            Head::FIN
        }
    }

    fn bits() -> usize {
        1
    }

    fn to_byte(&self) -> u8 {
        match self {
            Head::UNFIN => 0,
            Head::FIN => 1,
        }
    }

    fn from_byte(byte: u8) -> Head {
        if byte == 0 {
            Head::UNFIN
        } else {
            Head::FIN
        }
    }
}

} // verus!
