use vstd::prelude::*;

use crate::protocol::frame::{spec_check, spec_parse, Frame, FrameMatchResult, FrameMissMatchReason};
use crate::protocol::MAGIC_PREFIX;

verus! {

/// A byte run scanned for the start of the next frame: everything before
/// the first magic byte is garbage and is dropped.
pub open spec fn spec_drop_to_magic(s: Seq<u8>) -> Seq<u8>
    decreases s.len(),
{
    if s.len() == 0 {
        Seq::<u8>::empty()
    } else if s[0] == MAGIC_PREFIX {
        s
    } else {
        spec_drop_to_magic(s.drop_first())
    }
}

/// The read-side accumulation buffer of a session.
///
/// The transport layer feeds every chunk of bytes it reads into the buffer;
/// `parse_frame` then takes complete frames off its head.  On a byte run
/// that does not start with the magic prefix the buffer resynchronizes by
/// discarding bytes up to the next possible frame start, so a corrupted
/// peer can never livelock the reader.
pub struct FrameReader {
    read_buf: Vec<u8>,
}

impl View for FrameReader {
    type V = Seq<u8>;

    closed spec fn view(&self) -> Seq<u8> {
        self.read_buf@
    }
}

impl FrameReader {
    /// An empty buffer.
    pub fn new() -> (r: Self)
        ensures
            r@ == Seq::<u8>::empty(),
    {
        FrameReader { read_buf: Vec::new() }
    }

    /// How many bytes are buffered.
    pub fn buffered(&self) -> (r: usize)
        ensures
            r == self@.len(),
    {
        self.read_buf.len()
    }

    /// Append bytes read from the transport.
    pub fn feed(&mut self, bytes: &[u8])
        ensures
            final(self)@ == old(self)@ + bytes@,
    {
        let ghost s0 = self.read_buf@;
        let mut i: usize = 0;
        proof {
            assert(self.read_buf@ =~= s0 + bytes@.subrange(0, 0));
        }
        while i < bytes.len()
            invariant
                i <= bytes@.len(),
                self.read_buf@ == s0 + bytes@.subrange(0, i as int),
            decreases bytes@.len() - i,
        {
            self.read_buf.push(bytes[i]);
            proof {
                assert(bytes@.subrange(0, i + 1) =~= bytes@.subrange(0, i as int).push(
                    bytes@[i as int],
                ));
                assert((s0 + bytes@.subrange(0, i as int)).push(bytes@[i as int]) =~= s0 + bytes@
                    .subrange(0, i + 1));
            }
            i = i + 1;
        }
        proof {
            assert(bytes@.subrange(0, bytes@.len() as int) =~= bytes@);
        }
    }

    /// Discard the first `n` buffered bytes.
    fn drop_prefix(&mut self, n: usize)
        requires
            n <= old(self)@.len(),
        ensures
            final(self)@ == old(self)@.skip(n as int),
    {
        let ghost s0 = self.read_buf@;
        let mut rest: Vec<u8> = Vec::new();
        let mut j: usize = n;
        proof {
            assert(rest@ =~= s0.subrange(n as int, n as int));
        }
        while j < self.read_buf.len()
            invariant
                n <= j <= s0.len(),
                self.read_buf@ == s0,
                rest@ == s0.subrange(n as int, j as int),
            decreases s0.len() - j,
        {
            rest.push(self.read_buf[j]);
            proof {
                assert(s0.subrange(n as int, j + 1) =~= s0.subrange(n as int, j as int).push(
                    s0[j as int],
                ));
            }
            j = j + 1;
        }
        self.read_buf = rest;
        proof {
            assert(s0.subrange(n as int, s0.len() as int) =~= s0.skip(n as int));
        }
    }

    /// Drop the known-bad first byte, then every byte up to the next magic
    /// byte; what remains either is empty or starts with the magic prefix.
    fn resync(&mut self)
        requires
            old(self)@.len() >= 1,
            old(self)@[0] != MAGIC_PREFIX,
        ensures
            final(self)@ == spec_drop_to_magic(old(self)@.drop_first()),
    {
        let ghost s = self.read_buf@;
        let mut i: usize = 1;
        proof {
            assert(s.drop_first() =~= s.skip(1));
        }
        while i < self.read_buf.len() && self.read_buf[i] != MAGIC_PREFIX
            invariant
                1 <= i <= s.len(),
                self.read_buf@ == s,
                spec_drop_to_magic(s.drop_first()) == spec_drop_to_magic(s.skip(i as int)),
            decreases s.len() - i,
        {
            proof {
                assert(s.skip(i as int).len() > 0);
                assert(s.skip(i as int)[0] == s[i as int]);
                assert(s.skip(i as int).drop_first() =~= s.skip(i + 1));
            }
            i = i + 1;
        }
        proof {
            if i < s.len() {
                assert(s.skip(i as int)[0] == s[i as int]);
                assert(spec_drop_to_magic(s.skip(i as int)) == s.skip(i as int));
            } else {
                assert(s.skip(i as int).len() == 0);
                assert(s.skip(i as int) =~= Seq::<u8>::empty());
                assert(spec_drop_to_magic(s.skip(i as int)) == s.skip(i as int));
            }
        }
        self.drop_prefix(i);
    }

    /// Take one frame off the head of the buffer, if a whole one is there.
    ///
    /// Version and kind are not judged here: such frames are delivered and
    /// rejected by the session layer, which tears the session down.  A run
    /// that does not start with the magic byte resynchronizes the buffer to
    /// the next magic byte; a run whose announced payload has not fully
    /// arrived is left in place until more bytes are fed.
    pub fn parse_frame(&mut self) -> (r: Option<Frame>)
        ensures
            match spec_check(old(self)@, false, false) {
                FrameMatchResult::Complete => r matches Some(f) && f@ == spec_parse(old(self)@)
                    && f@.wf() && final(self)@ == old(self)@.skip(3 + old(self)@[2]),
                FrameMatchResult::Incomplete(_) => r is None && final(self)@ == old(self)@,
                FrameMatchResult::MissMatch(reason) => r is None && (if reason
                    == FrameMissMatchReason::NoneMagic {
                    final(self)@ == spec_drop_to_magic(old(self)@.drop_first())
                } else {
                    final(self)@ == old(self)@
                }),
            },
    {
        let state = Frame::check_with_option(self.read_buf.as_slice(), false, false);
        match state {
            FrameMatchResult::Complete => {
                let (frame, used) = Frame::parse(self.read_buf.as_slice());
                self.drop_prefix(used);
                Some(frame)
            },
            FrameMatchResult::Incomplete(_) => None,
            FrameMatchResult::MissMatch(reason) => {
                if reason == FrameMissMatchReason::NoneMagic {
                    self.resync();
                }
                None
            },
        }
    }
}

} // verus!
