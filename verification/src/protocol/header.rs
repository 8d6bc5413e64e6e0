use vstd::prelude::*;

use crate::protocol::head::Head;
use crate::protocol::kind::Kind;
use crate::protocol::version::Version;
use crate::protocol::Segment;

verus! {

/// The packed second byte of a frame: one head bit, three version bits and
/// four kind bits, most significant first.
#[derive(PartialEq, Eq, Clone, Copy, Debug, Structural)]
pub struct Header {
    pub head: Head,
    pub version: Version,
    pub kind: Kind,
}

impl Segment for Header {
    open spec fn spec_byte(&self) -> u8 {
        (self.head.spec_byte() * 128 + (self.version.inner % 8) * 16 + self.kind.spec_byte()) as u8
    }

    open spec fn spec_from(byte: u8) -> Header {
        Header {
            head: Head::spec_from(byte / 128),
            version: Version::spec_from(byte / 16),
            kind: Kind::spec_from(byte % 16),
        }
    }

    fn bits() -> usize {
        8
    }

    fn to_byte(&self) -> (r: u8) {
        let h = self.head.to_byte();
        let v = self.version.to_byte() % 8;
        let k = self.kind.to_byte();
        proof {
            assert(self.head.spec_byte() <= 1);
            assert(self.kind.spec_byte() <= 15);
        }
        h * 128 + v * 16 + k
    }

    fn from_byte(byte: u8) -> Header {
        Header {
            head: Head::from_byte(byte / 128),
            version: Version::from_byte(byte / 16),
            kind: Kind::from_byte(byte % 16),
        }
    }
}

/// Packing one head bit, three version bits and four kind bits into a byte
/// is undone exactly by the corresponding divisions.
pub proof fn lemma_pack_unpack(h: int, v: int, k: int)
    by (nonlinear_arith)
    requires
        0 <= h <= 1,
        0 <= v <= 7,
        0 <= k <= 15,
    ensures
        (h * 128 + v * 16 + k) / 128 == h,
        ((h * 128 + v * 16 + k) / 16) % 8 == v,
        (h * 128 + v * 16 + k) % 16 == k,
{
}

/// A header whose version fits its three bits survives the trip through its
/// packed byte unchanged.
pub proof fn lemma_header_roundtrip(h: Header)
    requires
        h.version.inner <= 7,
    ensures
        Header::spec_from(h.spec_byte()) == h,
{
    let hb = h.head.spec_byte() as int;
    let v = h.version.inner as int;
    let k = h.kind.spec_byte() as int;
    assert(0 <= hb <= 1);
    assert(0 <= k <= 15);
    lemma_pack_unpack(hb, v, k);
    let byte = h.spec_byte();
    assert(byte as int == hb * 128 + v * 16 + k);
    assert(Head::spec_from(byte / 128) == h.head);
    assert(Version::spec_from(byte / 16) == h.version);
    assert(Kind::spec_from(byte % 16) == h.kind);
}

} // verus!
