use vstd::prelude::*;

use crate::protocol::Segment;

verus! {

/// The operation field of the first-generation frame layout, kept for
/// sessions that still speak it: a probe, its reply, or a command.
#[derive(PartialEq, Eq, Clone, Copy, Debug, Hash, Structural)]
pub enum Operator {
    UNKNOWN,
    PING,
    PONG,
    OP,
}

impl Segment for Operator {
    open spec fn spec_byte(&self) -> u8 {
        match self {
            Operator::PING => 0,
            Operator::PONG => 1,
            Operator::OP => 2,
            Operator::UNKNOWN => 15,
        }
    }

    open spec fn spec_from(byte: u8) -> Operator {
        if byte == 0 {
            Operator::PING
        } else if byte == 1 {
            Operator::PONG
        } else if byte == 2 {
            Operator::OP
        } else {
            Operator::UNKNOWN
        }
    }

    fn bits() -> usize {
        4
    }

    fn to_byte(&self) -> u8 {
        match self {
            Operator::PING => 0,
            Operator::PONG => 1,
            Operator::OP => 2,
            Operator::UNKNOWN => 15,
        }
    }

    fn from_byte(byte: u8) -> Operator {
        if byte == 0 {
            Operator::PING
        } else if byte == 1 {
            Operator::PONG
        } else if byte == 2 {
            Operator::OP
        } else {
            Operator::UNKNOWN
        }
    }
}

} // verus!
