use partition_link::protocol::frame::{Frame, FrameMatchResult, FrameMissMatchReason};
use partition_link::protocol::head::Head;
use partition_link::protocol::header::Header;
use partition_link::protocol::kind::Kind;
use partition_link::protocol::version::Version;
use partition_link::protocol::{Segment, CURRENT_VERSION, MAGIC_PREFIX};

#[test]
fn protocol_version_test() {
    let version = Version::new(5).unwrap();
    println!("{:?}", version.value());
}

#[test]
fn protocol_slice_test() {
    let vec = vec![1, 2, 3, 4, 5, 6, 7, 8, 9];
    println!("[..1] = {:?}", &vec[..1]);
    println!("[..1] = {:?}", &vec[1..3]);
}

#[test]
fn protocol_iter_test() {
    let size = 8;
    for i in 0..size {
        println!("iter_test: {}", i);
    }
}

#[test]
fn frame_version_test() {
    let version = Version::new(5).unwrap();
    println!("{:?}", version.to_byte());
}

#[test]
fn frame_slice_test() {
    let vec = vec![1, 2, 3, 4, 5, 6, 7, 8, 9];
    println!("[..1] = {:?}", &vec[..1]);
    println!("[..1] = {:?}", &vec[1..3]);
}

#[test]
fn frame_iter_test() {
    let size = 8;
    for i in 0..size {
        println!("iter_test: {}", i);
    }
}

fn build_complete_bytes_buff(
    mistake_magic: bool,
    mistake_version: bool,
    mistake_op: bool,
    mistake_payload_length: bool,
) -> Vec<u8> {
    let mut buff = Vec::new();
    if mistake_magic {
        buff.push(0xf1);
    } else {
        buff.push(MAGIC_PREFIX);
    }

    let head = Head::FIN;
    let version;
    if mistake_version {
        version = Version::new(CURRENT_VERSION + 1).unwrap();
    } else {
        version = Version::new(CURRENT_VERSION).unwrap();
    }
    let op;
    if mistake_op {
        op = Kind::UNKNOWN;
    } else {
        op = Kind::CMD;
    }

    let header = Header {
        head,
        version,
        kind: op,
    };
    println!("header is {:?}, bytes={:?}", &header, header.to_byte());
    buff.push(header.to_byte());
    if mistake_payload_length {
        buff.push(10);
    } else {
        buff.push(1);
    }
    buff.push(0xff);
    buff
}

#[test]
fn frame_mismatch_frame_check_for_magic_test() {
    let mistake_magic_buff = build_complete_bytes_buff(true, false, false, false);
    assert_eq!(
        Frame::check_with_option(&mistake_magic_buff[..], true, true),
        FrameMatchResult::MissMatch(FrameMissMatchReason::NoneMagic)
    );
}

#[test]
fn frame_mismatch_frame_check_for_version_test() {
    let buff = build_complete_bytes_buff(false, true, false, false);
    assert_eq!(
        Frame::check_with_option(&buff[..], true, true),
        FrameMatchResult::MissMatch(FrameMissMatchReason::InvalidVersion)
    );
}

#[test]
fn frame_mismatch_frame_check_for_op_test() {
    let buff = build_complete_bytes_buff(false, false, true, false);
    println!("mismatch_frame_check_for_op_test#buff={:?}", &buff[..]);
    assert_eq!(
        Frame::check_with_option(&buff[..], true, true),
        FrameMatchResult::MissMatch(FrameMissMatchReason::InvalidKind)
    );
}

#[test]
fn frame_incomplete_frame_check_for_empty_buffer_test() {
    let buff: Vec<u8> = Vec::new();
    assert_eq!(
        Frame::check_with_option(&buff[..], true, true),
        FrameMatchResult::Incomplete("no_data")
    );
}

#[test]
fn frame_incomplete_frame_check_for_length_test() {
    let buff = build_complete_bytes_buff(false, false, false, true);
    assert_eq!(
        Frame::check_with_option(&buff[..], true, true),
        FrameMatchResult::MissMatch(FrameMissMatchReason::InvalidPayload)
    );
}

#[test]
fn frame_complete_frame_check_test() {
    let buff = build_complete_bytes_buff(false, false, false, false);
    assert_eq!(
        Frame::check_with_option(&buff[..], true, true),
        FrameMatchResult::Complete
    );
}

#[test]
fn frame_encode_parse_roundtrip_test() {
    let mut frame = Frame::new();
    frame.set_head(Head::UNFIN);
    frame.set_kind(Kind::RAFT);
    frame.set_length(partition_link::protocol::length::Length::new(4));
    frame.set_payload(vec![9, 8, 7, 6]);
    let bytes = frame.encode();
    assert_eq!(
        Frame::check_with_option(&bytes[..], true, true),
        FrameMatchResult::Complete
    );
    let (parsed, used) = Frame::parse(&bytes[..]);
    assert_eq!(used, 7);
    assert_eq!(parsed, frame);
}

#[test]
fn frame_encode_exact_bytes_test() {
    let mut frame = Frame::new();
    frame.set_head(Head::FIN);
    frame.set_kind(Kind::PING);
    frame.set_length(partition_link::protocol::length::Length::new(0));
    // header byte: head=1 in the top bit, version 1 in the next three,
    // kind 0 in the low four: 1001_0000.
    assert_eq!(frame.encode(), vec![0xff, 0b1001_0000, 0]);
}

#[test]
fn build_frames_chunking_test() {
    let payload: Vec<u8> = (0..600u32).map(|i| (i % 251) as u8).collect();
    let frames = partition_link::protocol::frame::build_frames(Kind::CMD, &payload[..]);
    assert_eq!(frames.len(), 3);
    assert_eq!(frames[0].length.inner_value(), 255);
    assert_eq!(frames[1].length.inner_value(), 255);
    assert_eq!(frames[2].length.inner_value(), 90);
    assert_eq!(frames[0].header.head, Head::UNFIN);
    assert_eq!(frames[1].header.head, Head::UNFIN);
    assert_eq!(frames[2].header.head, Head::FIN);
    let mut collected = Vec::new();
    for f in &frames {
        assert!(f.length.inner_value() as usize <= 255);
        assert_eq!(f.header.kind, Kind::CMD);
        collected.extend_from_slice(&f.payload[..]);
    }
    assert_eq!(collected, payload);
}

#[test]
fn build_frames_empty_payload_test() {
    let frames = partition_link::protocol::frame::build_frames(Kind::PING, &[]);
    assert_eq!(frames.len(), 1);
    assert_eq!(frames[0].header.head, Head::FIN);
    assert_eq!(frames[0].length.inner_value(), 0);
    assert!(frames[0].payload.is_empty());
}

#[test]
fn bits_roundtrip_test() {
    let bits = partition_link::bits::to_bit_vec(0b1011, 4);
    assert_eq!(bits.len(), 4);
    let byte = partition_link::bits::BitVec(bits).to_byte().unwrap();
    assert_eq!(byte, 0b1011);
}

#[test]
fn bits_to_byte_window_test() {
    let bits = partition_link::bits::to_bit_vec(0xA5, 8);
    let byte = partition_link::bits::to_byte(&bits[..], 0).unwrap();
    assert_eq!(byte, 0xA5);
    assert!(partition_link::bits::to_byte(&bits[..4], 0).is_err());
}
