use partition_link::command::{
    Command, CommandId, CommandInner, CommandType, ExecutableCommand,
};
use partition_link::command::hash_get::HashMapGetCmd;
use partition_link::command::hash_put::HashMapPutCmd;
use partition_link::command::hello::HelloCmd;
use partition_link::command::invalid::InvalidCommand;
use partition_link::command::raft::RaftCmd;
use partition_link::db::database::Database;
use partition_link::db::dbvalue::DBValue;
use partition_link::db::DbError;
use partition_link::protocol::kind::Kind;

fn encoded(v: &DBValue) -> Vec<u8> {
    v.encode()
}

#[test]
fn value_codec_roundtrip_test() {
    let value = DBValue::Hash(vec![
        ("name".to_string(), DBValue::String("partition".to_string())),
        ("raw".to_string(), DBValue::Bytes(vec![0, 255, 7])),
        (
            "list".to_string(),
            DBValue::List(vec![DBValue::Boolean(true), DBValue::Nil]),
        ),
    ]);
    let bytes = value.encode();
    let (back, used) = DBValue::decode(&bytes[..], 0).expect("its own encoding decodes");
    assert_eq!(used, bytes.len());
    assert_eq!(encoded(&back), bytes);
}

#[test]
fn value_codec_exact_bytes_test() {
    assert_eq!(DBValue::Nil.encode(), vec![0]);
    assert_eq!(DBValue::Boolean(true).encode(), vec![1, 1]);
    assert_eq!(DBValue::Boolean(false).encode(), vec![1, 0]);
    // A one-character string: tag, 8-byte little-endian length, the byte.
    assert_eq!(
        DBValue::String("A".to_string()).encode(),
        vec![2, 1, 0, 0, 0, 0, 0, 0, 0, 0x41]
    );
}

#[test]
fn value_codec_rejects_garbage_test() {
    assert!(DBValue::decode(&[250], 0).is_none());
    assert!(DBValue::decode(&[1, 7], 0).is_none());
    assert!(DBValue::decode(&[], 0).is_none());
}

#[test]
fn command_payload_roundtrip_test() {
    let cmd = Command::new(CommandInner::HashPut(HashMapPutCmd {
        key: "u".to_string(),
        member_key: "j".to_string(),
        member_value: DBValue::String("ok".to_string()),
    }));
    let payload = cmd.encode_to_payload(1_234_567).unwrap();
    let back = Command::from_payload(&payload[..]);
    match back.inner_ref() {
        CommandInner::HashPut(p) => {
            assert_eq!(p.key, "u");
            assert_eq!(p.member_key, "j");
            assert_eq!(encoded(&p.member_value), DBValue::String("ok".to_string()).encode());
        }
        _ => panic!("the record decodes back to the same command"),
    }
}

#[test]
fn command_unknown_code_is_invalid_test() {
    // Code 9 names no command: the record reads as the inert command.
    let mut payload = Vec::new();
    payload.extend_from_slice(&9u64.to_le_bytes());
    payload.extend_from_slice(&0u64.to_le_bytes());
    payload.extend_from_slice(&0u64.to_le_bytes());
    let back = Command::from_payload(&payload[..]);
    assert!(matches!(back.inner_ref(), CommandInner::Invalid(_)));
    assert_eq!(back.inner_ref().cmd_id(), CommandId::Unknown);
}

#[test]
fn command_truncated_payload_is_invalid_test() {
    let back = Command::from_payload(&[1, 2, 3]);
    assert!(matches!(back.inner_ref(), CommandInner::Invalid(_)));
}

#[test]
fn command_classification_test() {
    assert_eq!(HelloCmd { valid: true }.cmd_type(), CommandType::READ);
    assert_eq!(InvalidCommand {}.cmd_type(), CommandType::READ);
    assert_eq!(
        HashMapGetCmd { key: "k".to_string(), member_key: "m".to_string() }.cmd_type(),
        CommandType::READ
    );
    assert_eq!(
        HashMapPutCmd {
            key: "k".to_string(),
            member_key: "m".to_string(),
            member_value: DBValue::Nil,
        }
        .cmd_type(),
        CommandType::WRITE
    );
    let raft = RaftCmd { body: DBValue::Bytes(vec![1]) };
    assert_eq!(raft.cmd_type(), CommandType::WRITE);
    assert!(raft.is_raft_cmd());
    assert!(!InvalidCommand {}.is_valid());
}

#[test]
fn invalid_command_cannot_encode_test() {
    assert!(InvalidCommand {}.encode().is_err());
    let cmd = Command::new(CommandInner::Invalid(InvalidCommand {}));
    assert!(cmd.encode_to_payload(0).is_err());
}

#[test]
fn raft_command_travels_as_raft_frames_test() {
    let cmd = Command::new(CommandInner::Raft(RaftCmd { body: DBValue::Bytes(vec![5, 6]) }));
    let frames = cmd.encode_to_frames(0).unwrap();
    for f in &frames {
        assert_eq!(f.header.kind, Kind::RAFT);
    }
    let hello = Command::new(CommandInner::Hello(HelloCmd { valid: true }));
    let frames = hello.encode_to_frames(0).unwrap();
    for f in &frames {
        assert_eq!(f.header.kind, Kind::CMD);
    }
}

#[test]
fn hash_put_then_get_test() {
    let mut db = Database::new();
    let put = HashMapPutCmd {
        key: "u".to_string(),
        member_key: "j".to_string(),
        member_value: DBValue::String("ok".to_string()),
    };
    assert!(matches!(put.execute(&mut db), Ok(None)));
    let get = HashMapGetCmd { key: "u".to_string(), member_key: "j".to_string() };
    let got = get.execute(&mut db).unwrap().expect("the member was written");
    assert_eq!(encoded(&got), DBValue::String("ok".to_string()).encode());
}

#[test]
fn three_replicas_apply_same_write_test() {
    // The apply stream is what replication delivers: the same committed
    // command applied to three stores leaves all three with the member.
    let put = HashMapPutCmd {
        key: "u".to_string(),
        member_key: "j".to_string(),
        member_value: DBValue::String("ok".to_string()),
    };
    let get = HashMapGetCmd { key: "u".to_string(), member_key: "j".to_string() };
    for _ in 0..3 {
        let mut db = Database::new();
        put.execute(&mut db).unwrap();
        let got = get.execute(&mut db).unwrap().expect("converged");
        assert_eq!(encoded(&got), DBValue::String("ok".to_string()).encode());
    }
}

#[test]
fn hash_put_type_mismatch_test() {
    let mut db = Database::new();
    db.set("k".to_string(), DBValue::String("x".to_string()));
    let put = HashMapPutCmd {
        key: "k".to_string(),
        member_key: "m".to_string(),
        member_value: DBValue::Boolean(true),
    };
    assert!(matches!(put.execute(&mut db), Err(DbError::TypeMismatch)));
    // The stored value is unchanged.
    let still = db.get(&"k".to_string()).expect("the key is still bound");
    assert_eq!(encoded(still), DBValue::String("x".to_string()).encode());
}

#[test]
fn hash_get_missing_cases_test() {
    let mut db = Database::new();
    let get = HashMapGetCmd { key: "absent".to_string(), member_key: "m".to_string() };
    assert!(matches!(get.execute(&mut db), Ok(None)));
    db.set("s".to_string(), DBValue::String("x".to_string()));
    let get2 = HashMapGetCmd { key: "s".to_string(), member_key: "m".to_string() };
    assert!(matches!(get2.execute(&mut db), Ok(None)));
}

#[test]
fn hello_and_invalid_are_inert_test() {
    let mut db = Database::new();
    assert!(matches!(HelloCmd { valid: false }.execute(&mut db), Ok(None)));
    assert!(matches!(InvalidCommand {}.execute(&mut db), Ok(None)));
    assert!(matches!(RaftCmd { body: DBValue::Nil }.execute(&mut db), Ok(None)));
}

#[test]
fn deep_copy_preserves_content_test() {
    let value = DBValue::List(vec![
        DBValue::Hash(vec![("k".to_string(), DBValue::Bytes(vec![1, 2]))]),
        DBValue::Boolean(false),
    ]);
    let copy = value.deep_copy();
    assert_eq!(encoded(&copy), encoded(&value));
}

#[test]
fn display_string_test() {
    assert_eq!(DBValue::Nil.display_string(), "DBValue::None");
    assert_eq!(DBValue::Boolean(true).display_string(), "DBValue::Boolean(true)");
    assert_eq!(
        DBValue::String("hi".to_string()).display_string(),
        "DBValue::String(hi)"
    );
    assert_eq!(
        DBValue::Bytes(vec![1, 2, 3]).display_string(),
        "DBValue::Bytes(3 bytes)"
    );
    assert_eq!(
        DBValue::List(vec![DBValue::Nil, DBValue::Boolean(false)]).display_string(),
        "DBValue::List(DBValue::None,DBValue::Boolean(false))"
    );
    assert_eq!(
        DBValue::Hash(vec![("k".to_string(), DBValue::Nil)]).display_string(),
        "DBValue::Hash(\n  k = DBValue::None)"
    );
}

#[test]
fn dec_string_test() {
    assert_eq!(partition_link::until::dec_string(0), "0");
    assert_eq!(partition_link::until::dec_string(7), "7");
    assert_eq!(partition_link::until::dec_string(65535), "65535");
    assert_eq!(partition_link::until::dec_string(10), "10");
}
