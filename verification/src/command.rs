use vstd::prelude::*;

pub mod hash_get;
pub mod hash_put;
pub mod hello;
pub mod invalid;
pub mod raft;

use crate::db::codec::{lemma_decode_encode_str, lemma_decode_encode_value, lemma_read_u64_at, spec_bounded, spec_decode_str, spec_decode_value, spec_encode_str, spec_encode_value};
use crate::db::database::Database;
use crate::db::dbvalue::{DBValue, DBValueView};
use crate::db::DbError;
use crate::protocol::frame::{build_frames, spec_frame_views, spec_payload_concat, Frame};
use crate::protocol::head::Head;
use crate::protocol::kind::Kind;
use crate::wire::{read_u64_le, spec_read_u64, spec_u64_le};

use hash_get::HashMapGetCmd;
use hash_put::HashMapPutCmd;
use hello::HelloCmd;
use invalid::InvalidCommand;
use raft::RaftCmd;

verus! {

/// Whether a command only reads the store or writes it; only writes flow
/// through the consensus log.
#[derive(PartialEq, Eq, Clone, Copy, Debug, Hash, Structural)]
pub enum CommandType {
    READ,
    WRITE,
}

/// The tag a command carries on the wire.
#[derive(PartialEq, Eq, Clone, Copy, Debug, Hash, Structural)]
pub enum CommandId {
    Unknown,
    Hello,
    HashGet,
    HashPut,
    Raft,
}

/// Failures of the command layer.
#[derive(PartialEq, Eq, Clone, Copy, Debug, Structural)]
pub enum CommandError {
    /// The unknown command has no serialized form.
    NotEncodable,
}

/// The number a command tag is written as on the wire.
pub open spec fn spec_id_code(id: CommandId) -> u64 {
    match id {
        CommandId::Unknown => 0,
        CommandId::Hello => 1,
        CommandId::HashGet => 2,
        CommandId::HashPut => 3,
        CommandId::Raft => 4,
    }
}

/// The number a command tag is written as on the wire.
pub fn id_code(id: CommandId) -> (r: u64)
    ensures
        r == spec_id_code(id),
{
    match id {
        CommandId::Unknown => 0,
        CommandId::Hello => 1,
        CommandId::HashGet => 2,
        CommandId::HashPut => 3,
        CommandId::Raft => 4,
    }
}

/// Whether an executable result and its mathematical form agree.
pub open spec fn spec_result_matches(
    r: Result<Option<DBValue>, DbError>,
    s: Result<Option<DBValueView>, DbError>,
) -> bool {
    match r {
        Ok(opt) => match opt {
            Some(v) => s == Ok::<Option<DBValueView>, DbError>(Some(v@)),
            Option::None => s == Ok::<Option<DBValueView>, DbError>(Option::None),
        },
        Err(e) => s == Err::<Option<DBValueView>, DbError>(e),
    }
}

/// What every command can do: classify itself, serialize itself, and run
/// against the local store.
pub trait ExecutableCommand: Sized {
    /// Whether the command reads or writes.
    spec fn spec_cmd_type(&self) -> CommandType;

    /// The command's wire tag.
    spec fn spec_cmd_id(&self) -> CommandId;

    /// Whether the command has a serialized form.
    spec fn spec_encodable(&self) -> bool;

    /// The command's serialized payload.
    spec fn spec_encode(&self) -> Seq<u8>;

    /// The store after the command runs.
    spec fn spec_db_after(&self, db: Seq<(Seq<char>, DBValueView)>) -> Seq<
        (Seq<char>, DBValueView),
    >;

    /// What the command returns when run against the store.
    spec fn spec_exec_result(&self, db: Seq<(Seq<char>, DBValueView)>) -> Result<
        Option<DBValueView>,
        DbError,
    >;

    /// Whether the command reads or writes.
    fn cmd_type(&self) -> (r: CommandType)
        ensures
            r == self.spec_cmd_type(),
    ;

    /// The command's wire tag.
    fn cmd_id(&self) -> (r: CommandId)
        ensures
            r == self.spec_cmd_id(),
    ;

    /// Serialize the command's own payload.
    fn encode(&self) -> (r: Result<Vec<u8>, CommandError>)
        ensures
            match r {
                Ok(b) => self.spec_encodable() && b@ == self.spec_encode(),
                Err(e) => !self.spec_encodable() && e == CommandError::NotEncodable,
            },
    ;

    /// Run the command against the local store, without replication.
    fn execute(&self, db: &mut Database) -> (r: Result<Option<DBValue>, DbError>)
        ensures
            final(db).contents() == self.spec_db_after(old(db).contents()),
            spec_result_matches(r, self.spec_exec_result(old(db).contents())),
    ;

    /// Whether this command is a consensus transport envelope.
    fn is_raft_cmd(&self) -> (r: bool)
        ensures
            r == (self.spec_cmd_id() == CommandId::Raft),
    {
        self.cmd_id() == CommandId::Raft
    }

    /// Whether this command writes the store.
    fn is_write_type(&self) -> (r: bool)
        ensures
            r == (self.spec_cmd_type() == CommandType::WRITE),
    {
        self.cmd_type() == CommandType::WRITE
    }

    /// Whether this command only reads the store.
    fn is_read_type(&self) -> (r: bool)
        ensures
            r == (self.spec_cmd_type() == CommandType::READ),
    {
        self.cmd_type() == CommandType::READ
    }

    /// Whether this command was understood at all.
    fn is_valid(&self) -> (r: bool)
        ensures
            r == (self.spec_cmd_id() != CommandId::Unknown),
    {
        self.cmd_id() != CommandId::Unknown
    }
}

/// One command of any kind, named by variant.
pub enum CommandInner {
    Hello(HelloCmd),
    HashGet(HashMapGetCmd),
    HashPut(HashMapPutCmd),
    Raft(RaftCmd),
    Invalid(InvalidCommand),
}

/// The mathematical content of a command.
#[verifier::ext_equal]
pub enum CommandView {
    Hello { valid: bool },
    HashGet { key: Seq<char>, member_key: Seq<char> },
    HashPut { key: Seq<char>, member_key: Seq<char>, member_value: DBValueView },
    Raft { body: DBValueView },
    Invalid,
}

impl View for CommandInner {
    type V = CommandView;

    open spec fn view(&self) -> CommandView {
        match self {
            CommandInner::Hello(c) => CommandView::Hello { valid: c.valid },
            CommandInner::HashGet(c) => CommandView::HashGet {
                key: c.key@,
                member_key: c.member_key@,
            },
            CommandInner::HashPut(c) => CommandView::HashPut {
                key: c.key@,
                member_key: c.member_key@,
                member_value: c.member_value@,
            },
            CommandInner::Raft(c) => CommandView::Raft { body: c.body@ },
            CommandInner::Invalid(_) => CommandView::Invalid,
        }
    }
}

impl ExecutableCommand for CommandInner {
    open spec fn spec_cmd_type(&self) -> CommandType {
        match self {
            CommandInner::Hello(c) => c.spec_cmd_type(),
            CommandInner::HashGet(c) => c.spec_cmd_type(),
            CommandInner::HashPut(c) => c.spec_cmd_type(),
            CommandInner::Raft(c) => c.spec_cmd_type(),
            CommandInner::Invalid(c) => c.spec_cmd_type(),
        }
    }

    open spec fn spec_cmd_id(&self) -> CommandId {
        match self {
            CommandInner::Hello(c) => c.spec_cmd_id(),
            CommandInner::HashGet(c) => c.spec_cmd_id(),
            CommandInner::HashPut(c) => c.spec_cmd_id(),
            CommandInner::Raft(c) => c.spec_cmd_id(),
            CommandInner::Invalid(c) => c.spec_cmd_id(),
        }
    }

    open spec fn spec_encodable(&self) -> bool {
        match self {
            CommandInner::Hello(c) => c.spec_encodable(),
            CommandInner::HashGet(c) => c.spec_encodable(),
            CommandInner::HashPut(c) => c.spec_encodable(),
            CommandInner::Raft(c) => c.spec_encodable(),
            CommandInner::Invalid(c) => c.spec_encodable(),
        }
    }

    open spec fn spec_encode(&self) -> Seq<u8> {
        match self {
            CommandInner::Hello(c) => c.spec_encode(),
            CommandInner::HashGet(c) => c.spec_encode(),
            CommandInner::HashPut(c) => c.spec_encode(),
            CommandInner::Raft(c) => c.spec_encode(),
            CommandInner::Invalid(c) => c.spec_encode(),
        }
    }

    open spec fn spec_db_after(&self, db: Seq<(Seq<char>, DBValueView)>) -> Seq<
        (Seq<char>, DBValueView),
    > {
        match self {
            CommandInner::Hello(c) => c.spec_db_after(db),
            CommandInner::HashGet(c) => c.spec_db_after(db),
            CommandInner::HashPut(c) => c.spec_db_after(db),
            CommandInner::Raft(c) => c.spec_db_after(db),
            CommandInner::Invalid(c) => c.spec_db_after(db),
        }
    }

    open spec fn spec_exec_result(&self, db: Seq<(Seq<char>, DBValueView)>) -> Result<
        Option<DBValueView>,
        DbError,
    > {
        match self {
            CommandInner::Hello(c) => c.spec_exec_result(db),
            CommandInner::HashGet(c) => c.spec_exec_result(db),
            CommandInner::HashPut(c) => c.spec_exec_result(db),
            CommandInner::Raft(c) => c.spec_exec_result(db),
            CommandInner::Invalid(c) => c.spec_exec_result(db),
        }
    }

    fn cmd_type(&self) -> CommandType {
        match self {
            CommandInner::Hello(c) => c.cmd_type(),
            CommandInner::HashGet(c) => c.cmd_type(),
            CommandInner::HashPut(c) => c.cmd_type(),
            CommandInner::Raft(c) => c.cmd_type(),
            CommandInner::Invalid(c) => c.cmd_type(),
        }
    }

    fn cmd_id(&self) -> CommandId {
        match self {
            CommandInner::Hello(c) => c.cmd_id(),
            CommandInner::HashGet(c) => c.cmd_id(),
            CommandInner::HashPut(c) => c.cmd_id(),
            CommandInner::Raft(c) => c.cmd_id(),
            CommandInner::Invalid(c) => c.cmd_id(),
        }
    }

    fn encode(&self) -> Result<Vec<u8>, CommandError> {
        match self {
            CommandInner::Hello(c) => c.encode(),
            CommandInner::HashGet(c) => c.encode(),
            CommandInner::HashPut(c) => c.encode(),
            CommandInner::Raft(c) => c.encode(),
            CommandInner::Invalid(c) => c.encode(),
        }
    }

    fn execute(&self, db: &mut Database) -> Result<Option<DBValue>, DbError> {
        match self {
            CommandInner::Hello(c) => c.execute(db),
            CommandInner::HashGet(c) => c.execute(db),
            CommandInner::HashPut(c) => c.execute(db),
            CommandInner::Raft(c) => c.execute(db),
            CommandInner::Invalid(c) => c.execute(db),
        }
    }
}


/// The wire tag of a command's content.
pub open spec fn spec_view_id(v: CommandView) -> CommandId {
    match v {
        CommandView::Hello { .. } => CommandId::Hello,
        CommandView::HashGet { .. } => CommandId::HashGet,
        CommandView::HashPut { .. } => CommandId::HashPut,
        CommandView::Raft { .. } => CommandId::Raft,
        CommandView::Invalid => CommandId::Unknown,
    }
}

/// Whether a command's content reads or writes the store.
pub open spec fn spec_view_type(v: CommandView) -> CommandType {
    match v {
        CommandView::HashPut { .. } => CommandType::WRITE,
        CommandView::Raft { .. } => CommandType::WRITE,
        _ => CommandType::READ,
    }
}

/// Whether a command's content has a serialized form.
pub open spec fn spec_view_encodable(v: CommandView) -> bool {
    !(v is Invalid)
}

/// The serialized inner payload of a command's content.
pub open spec fn spec_view_inner_bytes(v: CommandView) -> Seq<u8> {
    match v {
        CommandView::Hello { valid } => seq![
            if valid {
                1u8
            } else {
                0u8
            },
        ],
        CommandView::HashGet { key, member_key } => spec_encode_str(key) + spec_encode_str(
            member_key,
        ),
        CommandView::HashPut { key, member_key, member_value } => spec_encode_str(key)
            + spec_encode_str(member_key) + spec_encode_value(member_value),
        CommandView::Raft { body } => spec_encode_value(body),
        CommandView::Invalid => Seq::<u8>::empty(),
    }
}

/// The store after a command's content runs against it.
pub open spec fn spec_view_db_after(v: CommandView, db: Seq<(Seq<char>, DBValueView)>) -> Seq<
    (Seq<char>, DBValueView),
> {
    match v {
        CommandView::HashPut { key, member_key, member_value } => hash_put::spec_hash_put_db(
            db,
            key,
            member_key,
            member_value,
        ),
        _ => db,
    }
}

/// What a command's content returns when run against the store.
pub open spec fn spec_view_result(v: CommandView, db: Seq<(Seq<char>, DBValueView)>) -> Result<
    Option<DBValueView>,
    DbError,
> {
    match v {
        CommandView::HashGet { key, member_key } => Ok(
            hash_get::spec_hash_get_member(db, key, member_key),
        ),
        CommandView::HashPut { key, .. } => hash_put::spec_hash_put_result(db, key),
        _ => Ok(Option::None),
    }
}

/// A command as the rest of the process handles it.
pub struct Command {
    inner: CommandInner,
}

impl View for Command {
    type V = CommandView;

    closed spec fn view(&self) -> CommandView {
        self.inner@
    }
}

/// The serialized outer record of a command: its tag code, the seconds and
/// nanoseconds of its timestamp, then the command's own payload.
pub open spec fn spec_command_payload(code: u64, sec: u64, nanos: u64, value: Seq<u8>) -> Seq<u8> {
    spec_u64_le(code) + spec_u64_le(sec) + spec_u64_le(nanos) + value
}

impl Command {
    pub fn new(impl_cmd: CommandInner) -> (r: Self)
        ensures
            r@ == impl_cmd@,
    {
        Command { inner: impl_cmd }
    }

    /// The command inside.
    pub fn inner_ref(&self) -> (r: &CommandInner)
        ensures
            r@ == self@,
    {
        &self.inner
    }

    /// Run the command against the local store, without replication.
    pub fn execute(&self, db: &mut Database) -> (r: Result<Option<DBValue>, DbError>)
        ensures
            final(db).contents() == spec_view_db_after(self@, old(db).contents()),
            spec_result_matches(r, spec_view_result(self@, old(db).contents())),
    {
        self.inner.execute(db)
    }

    /// Serialize the whole outer record, timestamped at `now_ms`.
    pub fn encode_to_payload(&self, now_ms: u64) -> (r: Result<Vec<u8>, CommandError>)
        ensures
            match r {
                Ok(b) => spec_view_encodable(self@) && b@ == spec_command_payload(
                    spec_id_code(spec_view_id(self@)),
                    (now_ms / 1000) as u64,
                    ((now_ms % 1000) * 1000000) as u64,
                    spec_view_inner_bytes(self@),
                ),
                Err(e) => !spec_view_encodable(self@) && e == CommandError::NotEncodable,
            },
    {
        let value = match self.inner.encode() {
            Ok(v) => v,
            Err(e) => {
                return Err(e);
            },
        };
        let mut out: Vec<u8> = Vec::new();
        crate::wire::push_u64_le(&mut out, id_code(self.inner.cmd_id()));
        crate::wire::push_u64_le(&mut out, now_ms / 1000);
        crate::wire::push_u64_le(&mut out, (now_ms % 1000) * 1000000);
        crate::wire::push_bytes(&mut out, value.as_slice());
        proof {
            assert(self.inner.spec_encode() == spec_view_inner_bytes(self.inner@));
            assert(self.inner.spec_cmd_id() == spec_view_id(self.inner@));
            assert(out@ =~= spec_command_payload(
                spec_id_code(spec_view_id(self@)),
                (now_ms / 1000) as u64,
                ((now_ms % 1000) * 1000000) as u64,
                spec_view_inner_bytes(self@),
            ));
        }
        Ok(out)
    }

    /// Chunk the serialized record into frames: consensus envelopes travel
    /// as RAFT frames, every other command as CMD frames.
    pub fn encode_to_frames(&self, now_ms: u64) -> (r: Result<Vec<Frame>, CommandError>)
        ensures
            match r {
                Ok(frames) => {
                    let kind = if spec_view_id(self@) == CommandId::Raft {
                        Kind::RAFT
                    } else {
                        Kind::CMD
                    };
                    &&& spec_view_encodable(self@)
                    &&& frames@.len() >= 1
                    &&& spec_payload_concat(spec_frame_views(frames@)) == spec_command_payload(
                        spec_id_code(spec_view_id(self@)),
                        (now_ms / 1000) as u64,
                        ((now_ms % 1000) * 1000000) as u64,
                        spec_view_inner_bytes(self@),
                    )
                    &&& forall|i: int|
                        0 <= i < frames@.len() ==> (#[trigger] frames@[i])@.kind == kind
                            && frames@[i]@.wf()
                    &&& forall|i: int|
                        0 <= i < frames@.len() - 1 ==> (#[trigger] frames@[i])@.head == Head::UNFIN
                            && frames@[i]@.length == 255
                    &&& frames@.last()@.head == Head::FIN
                    &&& frames@.last()@.length == spec_command_payload(
                        spec_id_code(spec_view_id(self@)),
                        (now_ms / 1000) as u64,
                        ((now_ms % 1000) * 1000000) as u64,
                        spec_view_inner_bytes(self@),
                    ).len() - 255 * (frames@.len() - 1)
                },
                Err(e) => !spec_view_encodable(self@) && e == CommandError::NotEncodable,
            },
    {
        proof {
            assert(self.inner.spec_cmd_id() == spec_view_id(self.inner@));
        }
        let payload = match self.encode_to_payload(now_ms) {
            Ok(p) => p,
            Err(e) => {
                return Err(e);
            },
        };
        let kind = if self.inner.is_raft_cmd() {
            Kind::RAFT
        } else {
            Kind::CMD
        };
        Ok(build_frames(kind, payload.as_slice()))
    }

    /// Read a command back from the concatenated payload of a logical
    /// message.  Anything that does not parse exactly comes back as the
    /// inert unknown command.
    pub fn from_payload(payload: &[u8]) -> (r: Command)
        ensures
            r@ == spec_parse_command(payload@),
    {
        let invalid = Command { inner: CommandInner::Invalid(InvalidCommand {  }) };
        let (code, p1) = match read_u64_le(payload, 0) {
            Some(x) => x,
            Option::None => {
                return invalid;
            },
        };
        let (_sec, p2) = match read_u64_le(payload, p1) {
            Some(x) => x,
            Option::None => {
                return invalid;
            },
        };
        let (_nanos, p3) = match read_u64_le(payload, p2) {
            Some(x) => x,
            Option::None => {
                return invalid;
            },
        };
        if code == 1 {
            if p3 + 1 == payload.len() && payload[p3] == 1 {
                Command { inner: CommandInner::Hello(HelloCmd { valid: true }) }
            } else if p3 + 1 == payload.len() && payload[p3] == 0 {
                Command { inner: CommandInner::Hello(HelloCmd { valid: false }) }
            } else {
                invalid
            }
        } else if code == 2 {
            let (key, p4) = match crate::db::codec::decode_str(payload, p3) {
                Some(x) => x,
                Option::None => {
                    return invalid;
                },
            };
            let (member_key, p5) = match crate::db::codec::decode_str(payload, p4) {
                Some(x) => x,
                Option::None => {
                    return invalid;
                },
            };
            if p5 == payload.len() {
                Command { inner: CommandInner::HashGet(HashMapGetCmd { key, member_key }) }
            } else {
                invalid
            }
        } else if code == 3 {
            let (key, p4) = match crate::db::codec::decode_str(payload, p3) {
                Some(x) => x,
                Option::None => {
                    return invalid;
                },
            };
            let (member_key, p5) = match crate::db::codec::decode_str(payload, p4) {
                Some(x) => x,
                Option::None => {
                    return invalid;
                },
            };
            let (member_value, p6) = match DBValue::decode(payload, p5) {
                Some(x) => x,
                Option::None => {
                    return invalid;
                },
            };
            if p6 == payload.len() {
                Command {
                    inner: CommandInner::HashPut(
                        HashMapPutCmd { key, member_key, member_value },
                    ),
                }
            } else {
                invalid
            }
        } else if code == 4 {
            let (body, p4) = match DBValue::decode(payload, p3) {
                Some(x) => x,
                Option::None => {
                    return invalid;
                },
            };
            if p4 == payload.len() {
                Command { inner: CommandInner::Raft(RaftCmd { body }) }
            } else {
                invalid
            }
        } else {
            invalid
        }
    }
}

/// The command a serialized outer record stands for: its tag code and its
/// payload must parse exactly, or the record reads as the unknown command.
/// The timestamp is read and set aside.
pub open spec fn spec_parse_command(s: Seq<u8>) -> CommandView {
    match spec_read_u64(s, 0) {
        Option::None => CommandView::Invalid,
        Some((code, p1)) => match spec_read_u64(s, p1) {
            Option::None => CommandView::Invalid,
            Some((sec, p2)) => match spec_read_u64(s, p2) {
                Option::None => CommandView::Invalid,
                Some((nanos, p3)) => {
                    if code == 1 {
                        if p3 + 1 == s.len() && s[p3] == 1 {
                            CommandView::Hello { valid: true }
                        } else if p3 + 1 == s.len() && s[p3] == 0 {
                            CommandView::Hello { valid: false }
                        } else {
                            CommandView::Invalid
                        }
                    } else if code == 2 {
                        match spec_decode_str(s, p3) {
                            Option::None => CommandView::Invalid,
                            Some((key, p4)) => match spec_decode_str(s, p4) {
                                Option::None => CommandView::Invalid,
                                Some((member_key, p5)) => if p5 == s.len() {
                                    CommandView::HashGet { key, member_key }
                                } else {
                                    CommandView::Invalid
                                },
                            },
                        }
                    } else if code == 3 {
                        match spec_decode_str(s, p3) {
                            Option::None => CommandView::Invalid,
                            Some((key, p4)) => match spec_decode_str(s, p4) {
                                Option::None => CommandView::Invalid,
                                Some((member_key, p5)) => match spec_decode_value(s, p5) {
                                    Option::None => CommandView::Invalid,
                                    Some((member_value, p6)) => if p6 == s.len() {
                                        CommandView::HashPut { key, member_key, member_value }
                                    } else {
                                        CommandView::Invalid
                                    },
                                },
                            },
                        }
                    } else if code == 4 {
                        match spec_decode_value(s, p3) {
                            Option::None => CommandView::Invalid,
                            Some((body, p4)) => if p4 == s.len() {
                                CommandView::Raft { body }
                            } else {
                                CommandView::Invalid
                            },
                        }
                    } else {
                        CommandView::Invalid
                    }
                },
            },
        },
    }
}

/// A command's trait-level classification agrees with its content's.
pub proof fn lemma_cmd_id_matches_view(c: CommandInner)
    ensures
        c.spec_cmd_id() == spec_view_id(c@),
        c.spec_cmd_type() == spec_view_type(c@),
        c.spec_encodable() == spec_view_encodable(c@),
        c.spec_encode() == spec_view_inner_bytes(c@),
{
}

/// Whether a command's counted parts all fit the 64-bit lengths the wire
/// carries; every command built from in-memory values does.
pub open spec fn spec_view_bounded(v: CommandView) -> bool {
    match v {
        CommandView::Hello { .. } => true,
        CommandView::HashGet { key, member_key } => vstd::utf8::encode_utf8(key).len()
            <= u64::MAX && vstd::utf8::encode_utf8(member_key).len() <= u64::MAX,
        CommandView::HashPut { key, member_key, member_value } => vstd::utf8::encode_utf8(
            key,
        ).len() <= u64::MAX && vstd::utf8::encode_utf8(member_key).len() <= u64::MAX
            && spec_bounded(member_value),
        CommandView::Raft { body } => spec_bounded(body),
        CommandView::Invalid => true,
    }
}

/// Serializing a command's outer record and reading it back yields the
/// command; only the timestamp is set aside.
pub proof fn lemma_command_payload_roundtrip(v: CommandView, sec: u64, nanos: u64)
    requires
        spec_view_encodable(v),
        spec_view_bounded(v),
    ensures
        spec_parse_command(
            spec_command_payload(spec_id_code(spec_view_id(v)), sec, nanos, spec_view_inner_bytes(v)),
        ) == v,
{
    let code = spec_id_code(spec_view_id(v));
    let inner = spec_view_inner_bytes(v);
    let a1 = spec_u64_le(code);
    let a2 = spec_u64_le(sec);
    let a3 = spec_u64_le(nanos);
    let s = spec_command_payload(code, sec, nanos, inner);
    assert(s == a1 + a2 + a3 + inner);
    assert(s.len() == 24 + inner.len());
    assert(s.subrange(0, 8) =~= a1) by {
        assert forall|j: int| 0 <= j < 8 implies s.subrange(0, 8)[j] == a1[j] by {
            assert(s.subrange(0, 8)[j] == s[j]);
            assert((a1 + a2)[j] == a1[j]);
            assert(((a1 + a2) + a3)[j] == (a1 + a2)[j]);
            assert((((a1 + a2) + a3) + inner)[j] == ((a1 + a2) + a3)[j]);
        }
    }
    lemma_read_u64_at(s, 0, code);
    assert(s.subrange(8, 16) =~= a2) by {
        assert forall|j: int| 0 <= j < 8 implies s.subrange(8, 16)[j] == a2[j] by {
            assert(s.subrange(8, 16)[j] == s[8 + j]);
            assert((a1 + a2)[8 + j] == a2[j]);
            assert(((a1 + a2) + a3)[8 + j] == (a1 + a2)[8 + j]);
            assert((((a1 + a2) + a3) + inner)[8 + j] == ((a1 + a2) + a3)[8 + j]);
        }
    }
    lemma_read_u64_at(s, 8, sec);
    assert(s.subrange(16, 24) =~= a3) by {
        assert forall|j: int| 0 <= j < 8 implies s.subrange(16, 24)[j] == a3[j] by {
            assert(s.subrange(16, 24)[j] == s[16 + j]);
            assert(((a1 + a2) + a3)[16 + j] == a3[j]);
            assert((((a1 + a2) + a3) + inner)[16 + j] == ((a1 + a2) + a3)[16 + j]);
        }
    }
    lemma_read_u64_at(s, 16, nanos);
    assert forall|j: int| 0 <= j < inner.len() implies s[24 + j] == inner[j] by {
        assert((((a1 + a2) + a3) + inner)[24 + j] == inner[j]);
    }
    match v {
        CommandView::Hello { valid } => {
            assert(inner.len() == 1);
            assert(s[24] == inner[0]);
        },
        CommandView::HashGet { key, member_key } => {
            let ke = spec_encode_str(key);
            let me = spec_encode_str(member_key);
            assert(inner == ke + me);
            assert(s.subrange(24, 24 + ke.len() as int) =~= ke) by {
                assert forall|j: int| 0 <= j < ke.len() implies s.subrange(
                    24,
                    24 + ke.len() as int,
                )[j] == ke[j] by {
                    assert(s.subrange(24, 24 + ke.len() as int)[j] == s[24 + j]);
                    assert(inner[j] == (ke + me)[j]);
                    assert((ke + me)[j] == ke[j]);
                }
            }
            lemma_decode_encode_str(key, s, 24);
            let p4 = 24 + ke.len() as int;
            assert(s.subrange(p4, p4 + me.len() as int) =~= me) by {
                assert forall|j: int| 0 <= j < me.len() implies s.subrange(
                    p4,
                    p4 + me.len() as int,
                )[j] == me[j] by {
                    assert(s.subrange(p4, p4 + me.len() as int)[j] == s[p4 + j]);
                    assert(s[24 + (ke.len() + j)] == inner[ke.len() + j]);
                    assert(inner[ke.len() + j] == (ke + me)[ke.len() + j]);
                    assert((ke + me)[ke.len() + j] == me[j]);
                }
            }
            lemma_decode_encode_str(member_key, s, p4);
        },
        CommandView::HashPut { key, member_key, member_value } => {
            let ke = spec_encode_str(key);
            let me = spec_encode_str(member_key);
            let ve = spec_encode_value(member_value);
            assert(inner == ke + me + ve);
            assert(s.subrange(24, 24 + ke.len() as int) =~= ke) by {
                assert forall|j: int| 0 <= j < ke.len() implies s.subrange(
                    24,
                    24 + ke.len() as int,
                )[j] == ke[j] by {
                    assert(s.subrange(24, 24 + ke.len() as int)[j] == s[24 + j]);
                    assert(inner[j] == ((ke + me) + ve)[j]);
                    assert(((ke + me) + ve)[j] == (ke + me)[j]);
                    assert((ke + me)[j] == ke[j]);
                }
            }
            lemma_decode_encode_str(key, s, 24);
            let p4 = 24 + ke.len() as int;
            assert(s.subrange(p4, p4 + me.len() as int) =~= me) by {
                assert forall|j: int| 0 <= j < me.len() implies s.subrange(
                    p4,
                    p4 + me.len() as int,
                )[j] == me[j] by {
                    assert(s.subrange(p4, p4 + me.len() as int)[j] == s[p4 + j]);
                    assert(s[24 + (ke.len() + j)] == inner[ke.len() + j]);
                    assert(inner[ke.len() + j] == ((ke + me) + ve)[ke.len() + j]);
                    assert(((ke + me) + ve)[ke.len() + j] == (ke + me)[ke.len() + j]);
                    assert((ke + me)[ke.len() + j] == me[j]);
                }
            }
            lemma_decode_encode_str(member_key, s, p4);
            let p5 = p4 + me.len() as int;
            assert(s.subrange(p5, p5 + ve.len() as int) =~= ve) by {
                assert forall|j: int| 0 <= j < ve.len() implies s.subrange(
                    p5,
                    p5 + ve.len() as int,
                )[j] == ve[j] by {
                    assert(s.subrange(p5, p5 + ve.len() as int)[j] == s[p5 + j]);
                    assert(s[24 + (ke.len() + me.len() + j)] == inner[ke.len() + me.len() + j]);
                    assert(inner[ke.len() + me.len() + j] == ((ke + me) + ve)[ke.len() + me.len()
                        + j]);
                    assert(((ke + me) + ve)[ke.len() + me.len() + j] == ve[j]);
                }
            }
            lemma_decode_encode_value(member_value, s, p5);
        },
        CommandView::Raft { body } => {
            let ve = spec_encode_value(body);
            assert(inner == ve);
            assert(s.subrange(24, 24 + ve.len() as int) =~= ve) by {
                assert forall|j: int| 0 <= j < ve.len() implies s.subrange(
                    24,
                    24 + ve.len() as int,
                )[j] == ve[j] by {
                    assert(s.subrange(24, 24 + ve.len() as int)[j] == s[24 + j]);
                }
            }
            lemma_decode_encode_value(body, s, 24);
        },
        CommandView::Invalid => {},
    }
}

/// An in-process request that the consensus loop append a write command to
/// the replicated log.
pub struct ProposalCommand(pub Command);

} // verus!
