use partition_link::cluster::{
    classify_entry, group_messages, should_add_node, should_propose, EntryAction, EntryKind,
    PeerMessage,
};
use partition_link::cmd_server::{
    handle_cmd_server_message, parse_error_message, post_send_message, CmdServerMessage,
    MessageAssembler, ServerAction, ServerError, TransportError,
};
use partition_link::command::{Command, CommandInner};
use partition_link::command::hello::HelloCmd;
use partition_link::command::raft::RaftCmd;
use partition_link::db::dbvalue::DBValue;
use partition_link::node::Node;
use partition_link::postman::{Channel, Letter, LetterMessage, Postman, SendOutcome};
use partition_link::protocol::frame::Frame;
use partition_link::protocol::head::Head;
use partition_link::protocol::kind::Kind;

#[test]
fn new_channel_registers_once_test() {
    let mut postman = Postman::new();
    let rx = postman.new_channel(Channel::Discover, 8);
    assert!(rx.is_some());
    // The second registration of the same name is refused.
    assert!(postman.new_channel(Channel::Discover, 8).is_none());
    // Other names are independent.
    assert!(postman.new_channel(Channel::RaftMsg, 8).is_some());
}

#[test]
fn send_to_unregistered_channel_is_not_delivered_test() {
    let mut postman = Postman::new();
    let node = Node::new("127.0.0.1", 7, 7111, false, true);
    // Nothing is registered: the send reports "not delivered" and returns
    // at once rather than blocking.
    assert!(matches!(postman.send(Letter::Peer(node)), SendOutcome::NotDelivered));
}

#[test]
fn send_and_recv_fifo_test() {
    let mut postman = Postman::new();
    let rx = postman.new_channel(Channel::Discover, 8).unwrap();
    let a = Node::new("127.0.0.1", 1, 7111, false, true);
    let b = Node::new("127.0.0.1", 2, 7111, false, true);
    assert!(matches!(postman.send(Letter::Peer(a)), SendOutcome::Delivered));
    assert!(matches!(postman.send(Letter::Peer(b)), SendOutcome::Delivered));
    match postman.recv(&rx) {
        Some(Letter::Peer(n)) => assert_eq!(n.id, 1),
        _ => panic!("the oldest message comes out first"),
    }
    match postman.recv(&rx) {
        Some(Letter::Peer(n)) => assert_eq!(n.id, 2),
        _ => panic!("the next message follows"),
    }
    assert!(postman.recv(&rx).is_none());
}

#[test]
fn send_to_full_channel_hands_message_back_test() {
    let mut postman = Postman::new();
    let rx = postman.new_channel(Channel::Discover, 1).unwrap();
    let a = Node::new("127.0.0.1", 1, 7111, false, true);
    let b = Node::new("127.0.0.1", 2, 7111, false, true);
    assert!(matches!(postman.send(Letter::Peer(a)), SendOutcome::Delivered));
    // The queue is full: the message comes back intact for a later retry
    // rather than being dropped.
    let held = match postman.send(Letter::Peer(b)) {
        SendOutcome::Full(Letter::Peer(n)) => n,
        _ => panic!("a full channel hands the message back"),
    };
    assert_eq!(held.id, 2);
    // After the consumer drains, the retry is delivered.
    assert!(postman.recv(&rx).is_some());
    assert!(matches!(postman.send(Letter::Peer(held)), SendOutcome::Delivered));
}

#[test]
fn letter_routing_test() {
    let hello = Command::new(CommandInner::Hello(HelloCmd { valid: true }));
    assert_eq!(hello.channel(), Channel::DbCmdReq);
    let raft = Command::new(CommandInner::Raft(RaftCmd { body: DBValue::Nil }));
    assert_eq!(raft.channel(), Channel::RaftMsg);
    let node = Node::new("127.0.0.1", 1, 7111, false, true);
    assert_eq!(node.channel(), Channel::Discover);
}

#[test]
fn ping_pong_reply_test() {
    // A PING is answered with exactly one terminal PONG frame of length 0.
    let mut assembler = MessageAssembler::new();
    let msg = assembler.push(Frame::new_ping()).unwrap().unwrap();
    assert!(matches!(msg, CmdServerMessage::PING));
    match handle_cmd_server_message(msg) {
        ServerAction::ReplyPong(frame) => {
            assert_eq!(frame.header.kind, Kind::PONG);
            assert_eq!(frame.header.head, Head::FIN);
            assert_eq!(frame.header.version.inner, 1);
            assert_eq!(frame.length.inner_value(), 0);
            assert!(frame.payload.is_empty());
            // The exact reply bytes on the wire.
            assert_eq!(frame.encode(), vec![0xff, 0x91, 0x00]);
        }
        _ => panic!("a probe is answered with a PONG"),
    }
}

#[test]
fn assembler_joins_chunked_command_test() {
    let cmd = Command::new(CommandInner::Hello(HelloCmd { valid: true }));
    let frames = cmd.encode_to_frames(77).unwrap();
    let mut assembler = MessageAssembler::new();
    let mut delivered = None;
    for frame in frames {
        if let Some(msg) = assembler.push(frame).unwrap() {
            delivered = Some(msg);
        }
    }
    match delivered {
        Some(CmdServerMessage::CMD(c)) => {
            assert!(matches!(c.inner_ref(), CommandInner::Hello(h) if h.valid))
        }
        _ => panic!("the chunked command is reassembled"),
    }
}

#[test]
fn assembler_rejects_wrong_version_test() {
    let mut frame = Frame::new();
    frame.header.version = partition_link::protocol::version::Version::new(2).unwrap();
    let mut assembler = MessageAssembler::new();
    assert!(matches!(assembler.push(frame), Err(ServerError::WrongVersion)));
}

#[test]
fn assembler_delivers_error_report_test() {
    let text = "boom".to_string();
    let frames = partition_link::cmd_server::error_reply_frames(&text);
    assert_eq!(parse_error_message(&frames), "boom");
    let mut assembler = MessageAssembler::new();
    let mut delivered = None;
    for frame in frames {
        if let Some(msg) = assembler.push(frame).unwrap() {
            delivered = Some(msg);
        }
    }
    match delivered {
        Some(CmdServerMessage::ERROR(m)) => assert_eq!(m, "boom"),
        _ => panic!("the error text is reassembled"),
    }
}

#[test]
fn post_send_message_test() {
    assert!(!post_send_message(Ok(3)));
    assert!(post_send_message(Err(TransportError::WriteFailed)));
}

#[test]
fn group_messages_keeps_destination_order_test() {
    let msgs = vec![
        PeerMessage { to: 1, data: vec![10] },
        PeerMessage { to: 2, data: vec![20] },
        PeerMessage { to: 1, data: vec![11] },
        PeerMessage { to: 1, data: vec![12] },
        PeerMessage { to: 2, data: vec![21] },
    ];
    let buckets = group_messages(msgs);
    assert_eq!(buckets.len(), 2);
    for (to, datas) in &buckets {
        match to {
            1 => assert_eq!(datas, &vec![vec![10], vec![11], vec![12]]),
            2 => assert_eq!(datas, &vec![vec![20], vec![21]]),
            _ => panic!("no other destination was named"),
        }
    }
}

#[test]
fn should_propose_test() {
    let put = Command::new(CommandInner::HashPut(
        partition_link::command::hash_put::HashMapPutCmd {
            key: "k".to_string(),
            member_key: "m".to_string(),
            member_value: DBValue::Nil,
        },
    ));
    assert!(should_propose(&put));
    let hello = Command::new(CommandInner::Hello(HelloCmd { valid: true }));
    assert!(!should_propose(&hello));
    let raft = Command::new(CommandInner::Raft(RaftCmd { body: DBValue::Nil }));
    assert!(!should_propose(&raft));
    let invalid = Command::new(CommandInner::Invalid(
        partition_link::command::invalid::InvalidCommand {},
    ));
    assert!(!should_propose(&invalid));
}

#[test]
fn should_add_node_test() {
    assert!(should_add_node(true, &vec![1, 2], 3));
    assert!(!should_add_node(true, &vec![1, 2], 2));
    assert!(!should_add_node(false, &vec![], 3));
}

#[test]
fn classify_entry_test() {
    assert!(matches!(classify_entry(EntryKind::Normal, &[]), EntryAction::Skip));
    assert!(matches!(
        classify_entry(EntryKind::ConfChange, &[1, 2, 3]),
        EntryAction::ApplyConfChange
    ));
    let put = Command::new(CommandInner::HashPut(
        partition_link::command::hash_put::HashMapPutCmd {
            key: "k".to_string(),
            member_key: "m".to_string(),
            member_value: DBValue::Boolean(true),
        },
    ));
    let payload = put.encode_to_payload(5).unwrap();
    match classify_entry(EntryKind::Normal, &payload[..]) {
        EntryAction::Apply(c) => {
            assert!(matches!(c.inner_ref(), CommandInner::HashPut(_)))
        }
        _ => panic!("a write command is applied"),
    }
    let hello = Command::new(CommandInner::Hello(HelloCmd { valid: true }));
    let payload = hello.encode_to_payload(5).unwrap();
    assert!(matches!(
        classify_entry(EntryKind::Normal, &payload[..]),
        EntryAction::Skip
    ));
}

#[test]
fn runtime_and_config_defaults_test() {
    let runtime = partition_link::runtime::Runtime::new_with_default_config();
    assert_eq!(runtime.cfg.listen_port, 7111);
    assert_eq!(runtime.cfg.disc_multicast_group, "224.0.0.1");
    assert_eq!(runtime.cfg.disc_multicast_port, 54123);
    assert_eq!(runtime.cfg.disc_multicast_interval_ms, 10_000);
    assert_eq!(runtime.cfg.disc_multicast_ttl_ms, 30_000);
    assert_eq!(runtime.cfg.raft_election_tick, 10);
    assert_eq!(runtime.cfg.raft_heartbeat_tick, 3);
}
