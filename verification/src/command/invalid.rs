use vstd::prelude::*;

use crate::command::{CommandError, CommandId, CommandType, ExecutableCommand};
use crate::db::database::Database;
use crate::db::dbvalue::{DBValue, DBValueView};
use crate::db::DbError;

verus! {

/// What a record that could not be understood decodes to: inert, read
/// only, and without a serialized form of its own.
#[derive(PartialEq, Eq, Clone, Copy, Debug, Structural)]
pub struct InvalidCommand {}

impl ExecutableCommand for InvalidCommand {
    open spec fn spec_cmd_type(&self) -> CommandType {
        CommandType::READ
    }

    open spec fn spec_cmd_id(&self) -> CommandId {
        CommandId::Unknown
    }

    open spec fn spec_encodable(&self) -> bool {
        false
    }

    open spec fn spec_encode(&self) -> Seq<u8> {
        Seq::<u8>::empty()
    }

    open spec fn spec_db_after(&self, db: Seq<(Seq<char>, DBValueView)>) -> Seq<
        (Seq<char>, DBValueView),
    > {
        db
    }

    open spec fn spec_exec_result(&self, db: Seq<(Seq<char>, DBValueView)>) -> Result<
        Option<DBValueView>,
        DbError,
    > {
        Ok(Option::None)
    }

    fn cmd_type(&self) -> CommandType {
        CommandType::READ
    }

    fn cmd_id(&self) -> CommandId {
        CommandId::Unknown
    }

    fn encode(&self) -> Result<Vec<u8>, CommandError> {
        Err(CommandError::NotEncodable)
    }

    fn execute(&self, db: &mut Database) -> Result<Option<DBValue>, DbError> {
        Ok(Option::None)
    }
}

} // verus!
