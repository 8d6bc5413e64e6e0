use vstd::prelude::*;

use crate::command::{CommandError, CommandId, CommandType, ExecutableCommand};
use crate::db::codec::spec_encode_value;
use crate::db::database::Database;
use crate::db::dbvalue::{DBValue, DBValueView};
use crate::db::DbError;

verus! {

/// A consensus transport envelope: its body holds one serialized peer
/// message as bytes.  It is routed to the local consensus loop, never
/// proposed to the log and never applied to the store.
#[derive(Debug)]
pub struct RaftCmd {
    pub body: DBValue,
}

impl ExecutableCommand for RaftCmd {
    open spec fn spec_cmd_type(&self) -> CommandType {
        CommandType::WRITE
    }

    open spec fn spec_cmd_id(&self) -> CommandId {
        CommandId::Raft
    }

    open spec fn spec_encodable(&self) -> bool {
        true
    }

    open spec fn spec_encode(&self) -> Seq<u8> {
        spec_encode_value(self.body@)
    }

    open spec fn spec_db_after(&self, db: Seq<(Seq<char>, DBValueView)>) -> Seq<
        (Seq<char>, DBValueView),
    > {
        db
    }

    open spec fn spec_exec_result(&self, db: Seq<(Seq<char>, DBValueView)>) -> Result<
        Option<DBValueView>,
        DbError,
    > {
        Ok(Option::None)
    }

    fn cmd_type(&self) -> CommandType {
        CommandType::WRITE
    }

    fn cmd_id(&self) -> CommandId {
        CommandId::Raft
    }

    fn encode(&self) -> Result<Vec<u8>, CommandError> {
        Ok(self.body.encode())
    }

    fn execute(&self, db: &mut Database) -> Result<Option<DBValue>, DbError> {
        Ok(Option::None)
    }
}

impl RaftCmd {
    /// The serialized peer message inside, when the body really is bytes.
    pub fn transport_bytes(&self) -> (r: Option<&Vec<u8>>)
        ensures
            match r {
                Some(b) => self.body@ == DBValueView::Bytes(b@),
                Option::None => !(self.body@ is Bytes),
            },
    {
        match &self.body {
            DBValue::Bytes(b) => Some(b),
            _ => Option::None,
        }
    }
}

} // verus!
