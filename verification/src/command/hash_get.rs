use vstd::prelude::*;

use crate::command::{CommandError, CommandId, CommandType, ExecutableCommand};
use crate::db::codec::{encode_str_into, spec_encode_str};
use crate::db::database::Database;
use crate::db::dbvalue::{spec_hash_get, DBValue, DBValueView};
use crate::db::DbError;

verus! {

/// Read one member of a hash value.
#[derive(Debug)]
pub struct HashMapGetCmd {
    pub key: String,
    pub member_key: String,
}

/// The member stored under `member` of the hash stored under `key`, if the
/// key holds a hash and the hash holds the member.
pub open spec fn spec_hash_get_member(
    db: Seq<(Seq<char>, DBValueView)>,
    key: Seq<char>,
    member: Seq<char>,
) -> Option<DBValueView> {
    match spec_hash_get(db, key) {
        Some(DBValueView::Hash(pairs)) => spec_hash_get(pairs, member),
        _ => Option::None,
    }
}

impl ExecutableCommand for HashMapGetCmd {
    open spec fn spec_cmd_type(&self) -> CommandType {
        CommandType::READ
    }

    open spec fn spec_cmd_id(&self) -> CommandId {
        CommandId::HashGet
    }

    open spec fn spec_encodable(&self) -> bool {
        true
    }

    open spec fn spec_encode(&self) -> Seq<u8> {
        spec_encode_str(self.key@) + spec_encode_str(self.member_key@)
    }

    open spec fn spec_db_after(&self, db: Seq<(Seq<char>, DBValueView)>) -> Seq<
        (Seq<char>, DBValueView),
    > {
        db
    }

    open spec fn spec_exec_result(&self, db: Seq<(Seq<char>, DBValueView)>) -> Result<
        Option<DBValueView>,
        DbError,
    > {
        Ok(spec_hash_get_member(db, self.key@, self.member_key@))
    }

    fn cmd_type(&self) -> CommandType {
        CommandType::READ
    }

    fn cmd_id(&self) -> CommandId {
        CommandId::HashGet
    }

    fn encode(&self) -> Result<Vec<u8>, CommandError> {
        let mut out: Vec<u8> = Vec::new();
        encode_str_into(&self.key, &mut out);
        encode_str_into(&self.member_key, &mut out);
        proof {
            assert(out@ =~= self.spec_encode());
        }
        Ok(out)
    }

    fn execute(&self, db: &mut Database) -> Result<Option<DBValue>, DbError> {
        match db.get(&self.key) {
            Some(value) => match value {
                DBValue::Hash(pairs) => match crate::db::dbvalue::hash_get(
                    pairs,
                    &self.member_key,
                ) {
                    Some(member) => Ok(Some(member.deep_copy())),
                    Option::None => Ok(Option::None),
                },
                _ => Ok(Option::None),
            },
            Option::None => Ok(Option::None),
        }
    }
}

} // verus!
