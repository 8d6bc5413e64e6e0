use vstd::prelude::*;

use crate::protocol::Segment;

verus! {

/// What a frame carries: a liveness probe, its reply, an application
/// command, a consensus transport message, or an error report.
#[derive(PartialEq, Eq, Clone, Copy, Debug, Hash, Structural)]
pub enum Kind {
    UNKNOWN,
    PING,
    PONG,
    CMD,
    RAFT,
    ERROR,
}

impl Segment for Kind {
    open spec fn spec_byte(&self) -> u8 {
        match self {
            Kind::PING => 0,
            Kind::PONG => 1,
            Kind::CMD => 2,
            Kind::RAFT => 3,
            Kind::ERROR => 4,
            Kind::UNKNOWN => 15,
        }
    }

    open spec fn spec_from(byte: u8) -> Kind {
        if byte == 0 {
            Kind::PING
        } else if byte == 1 {
            Kind::PONG
        } else if byte == 2 {
            Kind::CMD
        } else if byte == 3 {
            Kind::RAFT
        } else if byte == 4 {
            Kind::ERROR
        } else {
            Kind::UNKNOWN
        }
    }

    fn bits() -> usize {
        4
    }

    fn to_byte(&self) -> u8 {
        match self {
            Kind::PING => 0,
            Kind::PONG => 1,
            Kind::CMD => 2,
            Kind::RAFT => 3,
            Kind::ERROR => 4,
            Kind::UNKNOWN => 15,
        }
    }

    fn from_byte(byte: u8) -> Kind {
        if byte == 0 {
            Kind::PING
        } else if byte == 1 {
            Kind::PONG
        } else if byte == 2 {
            Kind::CMD
        } else if byte == 3 {
            Kind::RAFT
        } else if byte == 4 {
            Kind::ERROR
        } else {
            Kind::UNKNOWN
        }
    }
}

} // verus!
