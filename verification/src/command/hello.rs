use vstd::prelude::*;

use crate::command::{CommandError, CommandId, CommandType, ExecutableCommand};
use crate::db::database::Database;
use crate::db::dbvalue::{DBValue, DBValueView};
use crate::db::DbError;

verus! {

/// A greeting: carries one flag and does nothing to the store.
#[derive(PartialEq, Eq, Clone, Copy, Debug, Structural)]
pub struct HelloCmd {
    pub valid: bool,
}

impl ExecutableCommand for HelloCmd {
    open spec fn spec_cmd_type(&self) -> CommandType {
        CommandType::READ
    }

    open spec fn spec_cmd_id(&self) -> CommandId {
        CommandId::Hello
    }

    open spec fn spec_encodable(&self) -> bool {
        true
    }

    open spec fn spec_encode(&self) -> Seq<u8> {
        seq![
            if self.valid {
                1u8
            } else {
                0u8
            },
        ]
    }

    open spec fn spec_db_after(&self, db: Seq<(Seq<char>, DBValueView)>) -> Seq<
        (Seq<char>, DBValueView),
    > {
        db
    }

    open spec fn spec_exec_result(&self, db: Seq<(Seq<char>, DBValueView)>) -> Result<
        Option<DBValueView>,
        DbError,
    > {
        Ok(Option::None)
    }

    fn cmd_type(&self) -> CommandType {
        CommandType::READ
    }

    fn cmd_id(&self) -> CommandId {
        CommandId::Hello
    }

    fn encode(&self) -> Result<Vec<u8>, CommandError> {
        let mut out: Vec<u8> = Vec::new();
        out.push(
            if self.valid {
                1
            } else {
                0
            },
        );
        proof {
            assert(out@ =~= self.spec_encode());
        }
        Ok(out)
    }

    fn execute(&self, db: &mut Database) -> Result<Option<DBValue>, DbError> {
        Ok(Option::None)
    }
}

} // verus!
