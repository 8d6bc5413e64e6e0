use vstd::prelude::*;

use crate::protocol::head::Head;
use crate::protocol::header::Header;
use crate::protocol::kind::Kind;
use crate::protocol::length::Length;
use crate::protocol::version::Version;
use crate::protocol::{Segment, CURRENT_VERSION, MAGIC_PREFIX};

verus! {

/// Why a buffered byte run cannot be read as a frame.
#[derive(Clone, Copy, Debug, PartialEq, Eq, Structural)]
pub enum FrameMissMatchReason {
    /// The first byte is not the magic prefix.
    NoneMagic,
    /// The header names a protocol version this crate does not speak.
    InvalidVersion,
    /// The header names no known frame kind.
    InvalidKind,
    /// Fewer payload bytes are buffered than the length byte announces.
    InvalidPayload,
}

/// What classifying the head of a byte buffer found: a whole frame, too few
/// bytes to decide (with the position that ran dry), or a mismatch.
#[derive(Clone, Copy, Debug, PartialEq, Eq)]
pub enum FrameMatchResult<'a> {
    Incomplete(&'a str),
    MissMatch(FrameMissMatchReason),
    Complete,
}

/// The mathematical content of a frame: its header fields, its length byte
/// and its payload bytes.
#[verifier::ext_equal]
pub struct FrameView {
    pub head: Head,
    pub version: u8,
    pub kind: Kind,
    pub length: u8,
    pub payload: Seq<u8>,
}

impl FrameView {
    /// A frame is well formed when its version fits the header's three bits
    /// and its length byte equals its payload length.
    pub open spec fn wf(&self) -> bool {
        self.version <= 7 && self.payload.len() == self.length
    }

    /// The packed header byte of this frame.
    pub open spec fn header_byte(&self) -> u8 {
        Header {
            head: self.head,
            version: Version { inner: self.version },
            kind: self.kind,
        }.spec_byte()
    }
}

/// The bytes a frame puts on the wire: magic, packed header byte, length
/// byte, then the payload.
pub open spec fn spec_encode(v: FrameView) -> Seq<u8> {
    seq![MAGIC_PREFIX, v.header_byte(), v.length] + v.payload
}

/// The frame read off the head of a byte run that holds a whole frame.
pub open spec fn spec_parse(s: Seq<u8>) -> FrameView {
    let h = Header::spec_from(s[1]);
    FrameView {
        head: h.head,
        version: h.version.inner,
        kind: h.kind,
        length: s[2],
        payload: s.subrange(3, 3 + s[2]),
    }
}

/// How the head of a byte buffer classifies: a whole frame, a truncation
/// (named after the position that ran dry), or a mismatch.  Version and
/// kind checks are optional so a reader may accept frames it will reject
/// at a later stage.
pub open spec fn spec_check(s: Seq<u8>, check_version: bool, check_kind: bool) -> FrameMatchResult<
    'static,
> {
    if s.len() == 0 {
        FrameMatchResult::Incomplete("no_data")
    } else if s[0] != MAGIC_PREFIX {
        FrameMatchResult::MissMatch(FrameMissMatchReason::NoneMagic)
    } else if s.len() == 1 {
        FrameMatchResult::Incomplete("header")
    } else if check_version && Header::spec_from(s[1]).version.inner != CURRENT_VERSION {
        FrameMatchResult::MissMatch(FrameMissMatchReason::InvalidVersion)
    } else if check_kind && Header::spec_from(s[1]).kind == Kind::UNKNOWN {
        FrameMatchResult::MissMatch(FrameMissMatchReason::InvalidKind)
    } else if s.len() == 2 {
        FrameMatchResult::Incomplete("length")
    } else if s[2] > 0 && s.len() - 3 < s[2] {
        FrameMatchResult::MissMatch(FrameMissMatchReason::InvalidPayload)
    } else {
        FrameMatchResult::Complete
    }
}

/// One unit on the wire: a three-byte header followed by at most 255
/// payload bytes.
#[derive(Debug, Clone, PartialEq, Eq)]
pub struct Frame {
    pub header: Header,
    pub length: Length,
    pub payload: Vec<u8>,
}

impl View for Frame {
    type V = FrameView;

    open spec fn view(&self) -> FrameView {
        FrameView {
            head: self.header.head,
            version: self.header.version.inner,
            kind: self.header.kind,
            length: self.length.0,
            payload: self.payload@,
        }
    }
}

impl Frame {
    /// A fresh terminal command frame with an empty payload.
    pub fn new() -> (r: Self)
        ensures
            r@ == (FrameView {
                head: Head::FIN,
                version: CURRENT_VERSION,
                kind: Kind::CMD,
                length: 0,
                payload: Seq::<u8>::empty(),
            }),
            r@.wf(),
    {
        let r = Frame {
            header: Header {
                head: Head::FIN,
                version: Version { inner: CURRENT_VERSION },
                kind: Kind::CMD,
            },
            length: Length(0),
            payload: Vec::new(),
        };
        proof {
            assert(r@ =~= FrameView {
                head: Head::FIN,
                version: CURRENT_VERSION,
                kind: Kind::CMD,
                length: 0,
                payload: Seq::<u8>::empty(),
            });
        }
        r
    }

    /// A liveness probe: a terminal PING frame without payload.
    pub fn new_ping() -> (r: Self)
        ensures
            r@.head == Head::FIN,
            r@.kind == Kind::PING,
            r@.length == 0,
            r@.payload.len() == 0,
            r@.version == CURRENT_VERSION,
            r@.wf(),
    {
        let mut ping = Frame::new();
        ping.set_head(Head::FIN);
        ping.set_kind(Kind::PING);
        ping
    }

    /// The reply to a liveness probe: a terminal PONG frame without payload.
    pub fn new_pong() -> (r: Self)
        ensures
            r@.head == Head::FIN,
            r@.kind == Kind::PONG,
            r@.length == 0,
            r@.payload.len() == 0,
            r@.version == CURRENT_VERSION,
            r@.wf(),
    {
        let mut pong = Frame::new();
        pong.set_head(Head::FIN);
        pong.set_kind(Kind::PONG);
        pong
    }

    pub fn set_header(&mut self, header: Header)
        ensures
            final(self)@ == (FrameView {
                head: header.head,
                version: header.version.inner,
                kind: header.kind,
                ..old(self)@
            }),
    {
        self.header = header;
    }

    pub fn set_head(&mut self, head: Head)
        ensures
            final(self)@ == (FrameView { head, ..old(self)@ }),
    {
        self.header.head = head;
    }

    pub fn set_kind(&mut self, cmd: Kind)
        ensures
            final(self)@ == (FrameView { kind: cmd, ..old(self)@ }),
    {
        self.header.kind = cmd;
    }

    pub fn set_length(&mut self, length: Length)
        ensures
            final(self)@ == (FrameView { length: length.0, ..old(self)@ }),
    {
        self.length = length;
    }

    pub fn set_payload(&mut self, payload: Vec<u8>)
        ensures
            final(self)@ == (FrameView { payload: payload@, ..old(self)@ }),
    {
        self.payload = payload;
    }

    /// Whether this frame ends its logical message.
    pub fn is_last(&self) -> (r: bool)
        ensures
            r == (self@.head == Head::FIN),
    {
        self.header.head == Head::FIN
    }

    /// Serialize the frame: magic byte, packed header byte, length byte,
    /// then the payload.  Deterministic in the frame's content.
    pub fn encode(&self) -> (r: Vec<u8>)
        ensures
            r@ == spec_encode(self@),
    {
        let mut buff: Vec<u8> = Vec::new();
        buff.push(MAGIC_PREFIX);
        buff.push(self.header.to_byte());
        buff.push(self.length.inner_value());
        let mut i: usize = 0;
        proof {
            assert(buff@ =~= seq![MAGIC_PREFIX, self@.header_byte(), self@.length] + self.payload@
                .subrange(0, 0));
        }
        while i < self.payload.len()
            invariant
                i <= self.payload.len(),
                buff@ == seq![MAGIC_PREFIX, self@.header_byte(), self@.length] + self.payload@
                    .subrange(0, i as int),
            decreases self.payload.len() - i,
        {
            buff.push(self.payload[i]);
            proof {
                assert(self.payload@.subrange(0, i + 1) =~= self.payload@.subrange(0, i as int)
                    .push(self.payload@[i as int]));
                assert((seq![MAGIC_PREFIX, self@.header_byte(), self@.length] + self.payload@
                    .subrange(0, i as int)).push(self.payload@[i as int]) =~= seq![
                    MAGIC_PREFIX,
                    self@.header_byte(),
                    self@.length,
                ] + self.payload@.subrange(0, i + 1));
            }
            i = i + 1;
        }
        proof {
            assert(self.payload@.subrange(0, self.payload@.len() as int) =~= self.payload@);
            assert(buff@ =~= spec_encode(self@));
        }
        buff
    }

    /// Consume exactly one frame from the head of the buffer; the second
    /// component reports how many bytes the frame occupied.
    pub fn parse(buf: &[u8]) -> (r: (Frame, usize))
        requires
            spec_check(buf@, false, false) is Complete,
        ensures
            r.0@ == spec_parse(buf@),
            r.0@.wf(),
            r.1 == 3 + buf@[2],
    {
        let header = Header::from_byte(buf[1]);
        let length: u8 = buf[2];
        let mut payload: Vec<u8> = Vec::new();
        let mut i: usize = 0;
        while i < length as usize
            invariant
                spec_check(buf@, false, false) is Complete,
                i <= length,
                buf@.len() >= 3 + length,
                length == buf@[2],
                payload@ == buf@.subrange(3, 3 + i as int),
            decreases length - i,
        {
            payload.push(buf[3 + i]);
            proof {
                assert(buf@.subrange(3, 3 + (i + 1) as int) =~= buf@.subrange(3, 3 + i as int)
                    .push(buf@[3 + i as int]));
            }
            i = i + 1;
        }
        let frame = Frame { header, length: Length(length), payload };
        proof {
            assert(frame@ =~= spec_parse(buf@));
        }
        (frame, 3 + length as usize)
    }

    /// Classify the head of the buffer, validating version and kind.
    pub fn check<'a>(buf: &[u8]) -> (r: FrameMatchResult<'a>)
        ensures
            r == spec_check(buf@, true, true),
    {
        Frame::check_with_option(buf, true, true)
    }

    /// Classify the head of the buffer; version and kind validation can be
    /// switched off for readers that reject such frames at a later stage.
    pub fn check_with_option<'a>(buf: &[u8], check_version: bool, check_kind: bool) -> (r:
        FrameMatchResult<'a>)
        ensures
            r == spec_check(buf@, check_version, check_kind),
    {
        if buf.len() == 0 {
            return FrameMatchResult::Incomplete("no_data");
        }
        if buf[0] != MAGIC_PREFIX {
            return FrameMatchResult::MissMatch(FrameMissMatchReason::NoneMagic);
        }
        if buf.len() == 1 {
            return FrameMatchResult::Incomplete("header");
        }
        let header = Header::from_byte(buf[1]);
        if check_version && header.version.to_byte() != CURRENT_VERSION {
            return FrameMatchResult::MissMatch(FrameMissMatchReason::InvalidVersion);
        }
        if check_kind && header.kind == Kind::UNKNOWN {
            return FrameMatchResult::MissMatch(FrameMissMatchReason::InvalidKind);
        }
        if buf.len() == 2 {
            return FrameMatchResult::Incomplete("length");
        }
        let length: u8 = buf[2];
        if length > 0 {
            let remain = buf.len() - 3;
            if remain < length as usize {
                return FrameMatchResult::MissMatch(FrameMissMatchReason::InvalidPayload);
            }
        }
        FrameMatchResult::Complete
    }
}

/// Serializing a well-formed frame and reading the bytes back yields the
/// frame unchanged, and the bytes classify as one complete frame.
pub proof fn lemma_parse_encode_roundtrip(v: FrameView)
    requires
        v.wf(),
    ensures
        spec_check(spec_encode(v), false, false) is Complete,
        spec_check(spec_encode(v), true, true) is Complete <== v.version == CURRENT_VERSION
            && v.kind != Kind::UNKNOWN,
        spec_parse(spec_encode(v)) == v,
{
    let s = spec_encode(v);
    assert(s.len() == 3 + v.payload.len());
    assert(s[0] == MAGIC_PREFIX);
    assert(s[1] == v.header_byte());
    assert(s[2] == v.length);
    let h = Header { head: v.head, version: Version { inner: v.version }, kind: v.kind };
    crate::protocol::header::lemma_header_roundtrip(h);
    assert(Header::spec_from(s[1]) == h);
    assert(s.subrange(3, 3 + v.length as int) =~= v.payload);
    assert(spec_parse(s) =~= v);
}

/// The payload bytes of a run of frames, in order.
pub open spec fn spec_payload_concat(frames: Seq<FrameView>) -> Seq<u8>
    decreases frames.len(),
{
    if frames.len() == 0 {
        Seq::<u8>::empty()
    } else {
        frames[0].payload + spec_payload_concat(frames.drop_first())
    }
}

/// The views of a vector of frames.
pub open spec fn spec_frame_views(frames: Seq<Frame>) -> Seq<FrameView> {
    frames.map_values(|f: Frame| f@)
}

/// Appending a frame appends its payload to the run's payload.
pub proof fn lemma_payload_concat_push(frames: Seq<FrameView>, v: FrameView)
    ensures
        spec_payload_concat(frames.push(v)) == spec_payload_concat(frames) + v.payload,
    decreases frames.len(),
{
    if frames.len() == 0 {
        assert(frames.push(v).drop_first() =~= Seq::<FrameView>::empty());
        assert(frames.push(v)[0] == v);
        assert(spec_payload_concat(Seq::<FrameView>::empty()) == Seq::<u8>::empty());
        assert(spec_payload_concat(frames.push(v)) == v.payload + spec_payload_concat(
            Seq::<FrameView>::empty(),
        ));
        assert(v.payload + Seq::<u8>::empty() =~= v.payload);
        assert(spec_payload_concat(frames) == Seq::<u8>::empty());
        assert(Seq::<u8>::empty() + v.payload =~= v.payload);
    } else {
        lemma_payload_concat_push(frames.drop_first(), v);
        assert(frames.push(v).drop_first() =~= frames.drop_first().push(v));
        assert(frames.push(v)[0] == frames[0]);
        assert(frames[0].payload + (spec_payload_concat(frames.drop_first()) + v.payload) =~= (
        frames[0].payload + spec_payload_concat(frames.drop_first())) + v.payload);
    }
}

/// Chunk a payload into frames of one kind: every chunk but the last is 255
/// bytes and marked UNFIN, the last is marked FIN, and the chunk payloads
/// concatenate back to the input.  An empty payload still yields one frame.
pub fn build_frames(kind: Kind, payload: &[u8]) -> (r: Vec<Frame>)
    ensures
        r@.len() >= 1,
        payload@.len() == 0 ==> r@.len() == 1,
        forall|i: int|
            0 <= i < r@.len() ==> (#[trigger] r@[i])@.kind == kind && r@[i]@.wf()
                && r@[i]@.version == CURRENT_VERSION,
        forall|i: int|
            0 <= i < r@.len() - 1 ==> (#[trigger] r@[i])@.head == Head::UNFIN && r@[i]@.length
                == 255,
        r@.last()@.head == Head::FIN,
        r@.last()@.length == payload@.len() - 255 * (r@.len() - 1),
        spec_payload_concat(spec_frame_views(r@)) == payload@,
{
    let mut frames: Vec<Frame> = Vec::new();
    if payload.len() == 0 {
        let mut frame = Frame::new();
        frame.set_head(Head::FIN);
        frame.set_kind(kind);
        frame.set_length(Length::new(0));
        frame.set_payload(Vec::new());
        frames.push(frame);
        proof {
            assert(spec_frame_views(frames@) =~= seq![frame@]);
            lemma_payload_concat_push(Seq::<FrameView>::empty(), frame@);
            assert(spec_payload_concat(Seq::<FrameView>::empty()) =~= Seq::<u8>::empty());
            assert(spec_payload_concat(spec_frame_views(frames@)) =~= payload@);
        }
        return frames;
    }
    let mut pos: usize = 0;
    proof {
        assert(spec_payload_concat(spec_frame_views(frames@)) =~= payload@.subrange(0, 0));
    }
    while pos < payload.len()
        invariant
            pos < payload@.len(),
            spec_payload_concat(spec_frame_views(frames@)) == payload@.subrange(0, pos as int),
            forall|i: int|
                0 <= i < frames@.len() ==> (#[trigger] frames@[i])@.kind == kind && frames@[i]@.wf()
                    && frames@[i]@.version == CURRENT_VERSION,
            forall|i: int|
                0 <= i < frames@.len() ==> (#[trigger] frames@[i])@.head == Head::UNFIN
                    && frames@[i]@.length == 255,
            pos == frames@.len() * 255,
        decreases payload@.len() - pos,
    {
        let remain = payload.len() - pos;
        let take: usize = if remain > 255 {
            255
        } else {
            remain
        };
        let is_last = remain <= 255;
        let mut chunk: Vec<u8> = Vec::new();
        let mut j: usize = 0;
        while j < take
            invariant
                j <= take,
                pos + take <= payload@.len(),
                payload@.len() <= usize::MAX,
                chunk@ == payload@.subrange(pos as int, pos + j as int),
            decreases take - j,
        {
            chunk.push(payload[pos + j]);
            proof {
                assert(payload@.subrange(pos as int, pos + (j + 1) as int) =~= payload@.subrange(
                    pos as int,
                    pos + j as int,
                ).push(payload@[pos + j as int]));
            }
            j = j + 1;
        }
        let ghost old_frames = frames@;
        let mut frame = Frame::new();
        frame.set_head(
            if is_last {
                Head::FIN
            } else {
                Head::UNFIN
            },
        );
        frame.set_kind(kind);
        frame.set_length(Length::new(take as u8));
        frame.set_payload(chunk);
        frames.push(frame);
        proof {
            assert(spec_frame_views(frames@) =~= spec_frame_views(old_frames).push(frame@));
            lemma_payload_concat_push(spec_frame_views(old_frames), frame@);
            assert(payload@.subrange(0, pos as int) + payload@.subrange(
                pos as int,
                (pos + take) as int,
            ) =~= payload@.subrange(0, (pos + take) as int));
        }
        if is_last {
            proof {
                assert(payload@.subrange(0, (pos + take) as int) =~= payload@);
            }
            return frames;
        }
        pos = pos + take;
    }
    frames
}

} // verus!
