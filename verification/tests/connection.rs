use partition_link::connection::FrameReader;
use partition_link::protocol::head::Head;
use partition_link::protocol::kind::Kind;
use partition_link::protocol::length::Length;
use partition_link::protocol::frame::Frame;

#[test]
fn connection_slice_test() {
    let vec = vec![1, 2, 3];
    println!("vec[..]: {:?}", &vec[..]);
    println!("vec[..3]: {:?}", &vec[..3]);
}

fn sample_frame() -> Frame {
    let mut frame = Frame::new();
    frame.set_head(Head::FIN);
    frame.set_kind(Kind::CMD);
    frame.set_length(Length::new(3));
    frame.set_payload(vec![1, 2, 3]);
    frame
}

#[test]
fn reader_delivers_whole_frame_test() {
    let frame = sample_frame();
    let bytes = frame.encode();
    let mut reader = FrameReader::new();
    reader.feed(&bytes[..]);
    let got = reader.parse_frame().expect("a whole frame is buffered");
    assert_eq!(got, frame);
    assert!(reader.parse_frame().is_none());
    assert_eq!(reader.buffered(), 0);
}

#[test]
fn reader_waits_for_more_bytes_test() {
    let frame = sample_frame();
    let bytes = frame.encode();
    let mut reader = FrameReader::new();
    reader.feed(&bytes[..2]);
    assert!(reader.parse_frame().is_none());
    reader.feed(&bytes[2..]);
    let got = reader.parse_frame().expect("the rest arrived");
    assert_eq!(got, frame);
}

#[test]
fn reader_resyncs_on_bad_magic_test() {
    // A stray byte run ahead of a valid frame: the garbage is dropped at
    // the bad magic byte and the valid frame still comes through.
    let frame = sample_frame();
    let mut stream = vec![0x00, 0x00];
    stream.extend_from_slice(&frame.encode()[..]);
    let mut reader = FrameReader::new();
    reader.feed(&stream[..]);
    assert!(reader.parse_frame().is_none());
    let got = reader.parse_frame().expect("the frame behind the garbage");
    assert_eq!(got, frame);
}

#[test]
fn reader_clears_garbage_without_magic_test() {
    let mut reader = FrameReader::new();
    reader.feed(&[0x01, 0x02, 0x03]);
    assert!(reader.parse_frame().is_none());
    assert_eq!(reader.buffered(), 0);
}

#[test]
fn reader_two_frames_in_sequence_test() {
    let first = sample_frame();
    let mut second = Frame::new();
    second.set_head(Head::FIN);
    second.set_kind(Kind::PONG);
    second.set_length(Length::new(0));
    let mut stream = first.encode();
    stream.extend_from_slice(&second.encode()[..]);
    let mut reader = FrameReader::new();
    reader.feed(&stream[..]);
    assert_eq!(reader.parse_frame().unwrap(), first);
    assert_eq!(reader.parse_frame().unwrap(), second);
    assert!(reader.parse_frame().is_none());
}
