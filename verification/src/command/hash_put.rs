use vstd::prelude::*;

use crate::command::{CommandError, CommandId, CommandType, ExecutableCommand};
use crate::db::codec::{encode_str_into, spec_encode_str, spec_encode_value};
use crate::db::database::Database;
use crate::db::dbvalue::{
    hash_insert, spec_hash_get, spec_hash_index, spec_hash_insert, DBValue, DBValueView,
};
use crate::command::hash_get::spec_hash_get_member;
use crate::db::dbvalue::lemma_hash_insert_get;
use crate::db::DbError;

verus! {

/// Write one member of a hash value: an absent key grows a fresh hash with
/// the single member, a hash key gains or overwrites the member, and any
/// other stored value kind is a type mismatch that leaves the store
/// unchanged.
#[derive(Debug)]
pub struct HashMapPutCmd {
    pub key: String,
    pub member_key: String,
    pub member_value: DBValue,
}

/// The store after the member write.
pub open spec fn spec_hash_put_db(
    db: Seq<(Seq<char>, DBValueView)>,
    key: Seq<char>,
    member: Seq<char>,
    value: DBValueView,
) -> Seq<(Seq<char>, DBValueView)> {
    match spec_hash_get(db, key) {
        Option::None => spec_hash_insert(db, key, DBValueView::Hash(seq![(member, value)])),
        Some(DBValueView::Hash(pairs)) => spec_hash_insert(
            db,
            key,
            DBValueView::Hash(spec_hash_insert(pairs, member, value)),
        ),
        Some(_) => db,
    }
}

/// What the member write reports: a mismatch exactly when the key holds a
/// value of another kind.
pub open spec fn spec_hash_put_result(
    db: Seq<(Seq<char>, DBValueView)>,
    key: Seq<char>,
) -> Result<Option<DBValueView>, DbError> {
    match spec_hash_get(db, key) {
        Option::None => Ok(Option::None),
        Some(DBValueView::Hash(pairs)) => Ok(Option::None),
        Some(_) => Err(DbError::TypeMismatch),
    }
}

impl ExecutableCommand for HashMapPutCmd {
    open spec fn spec_cmd_type(&self) -> CommandType {
        CommandType::WRITE
    }

    open spec fn spec_cmd_id(&self) -> CommandId {
        CommandId::HashPut
    }

    open spec fn spec_encodable(&self) -> bool {
        true
    }

    open spec fn spec_encode(&self) -> Seq<u8> {
        spec_encode_str(self.key@) + spec_encode_str(self.member_key@) + spec_encode_value(
            self.member_value@,
        )
    }

    open spec fn spec_db_after(&self, db: Seq<(Seq<char>, DBValueView)>) -> Seq<
        (Seq<char>, DBValueView),
    > {
        spec_hash_put_db(db, self.key@, self.member_key@, self.member_value@)
    }

    open spec fn spec_exec_result(&self, db: Seq<(Seq<char>, DBValueView)>) -> Result<
        Option<DBValueView>,
        DbError,
    > {
        spec_hash_put_result(db, self.key@)
    }

    fn cmd_type(&self) -> CommandType {
        CommandType::WRITE
    }

    fn cmd_id(&self) -> CommandId {
        CommandId::HashPut
    }

    fn encode(&self) -> Result<Vec<u8>, CommandError> {
        let mut out: Vec<u8> = Vec::new();
        encode_str_into(&self.key, &mut out);
        encode_str_into(&self.member_key, &mut out);
        self.member_value.encode_into(&mut out);
        proof {
            assert(out@ =~= self.spec_encode());
        }
        Ok(out)
    }

    fn execute(&self, db: &mut Database) -> Result<Option<DBValue>, DbError> {
        let found = match db.get(&self.key) {
            Some(value) => Some(value.deep_copy()),
            Option::None => Option::None,
        };
        match found {
            Option::None => {
                let mut members: Vec<(String, DBValue)> = Vec::new();
                let entry = (self.member_key.clone(), self.member_value.deep_copy());
                let ghost snap = entry;
                members.push(entry);
                proof {
                    crate::db::dbvalue::lemma_view_of_pairs_push(Seq::empty(), snap);
                    assert(crate::db::dbvalue::view_of_pairs(members@) =~= seq![
                        (self.member_key@, self.member_value@),
                    ]);
                }
                db.set(self.key.clone(), DBValue::Hash(members));
                Ok(Option::None)
            },
            Some(copied) => match copied {
                DBValue::Hash(mut members) => {
                    hash_insert(
                        &mut members,
                        self.member_key.clone(),
                        self.member_value.deep_copy(),
                    );
                    db.set(self.key.clone(), DBValue::Hash(members));
                    Ok(Option::None)
                },
                _ => Err(DbError::TypeMismatch),
            },
        }
    }
}

/// Writing a member and reading it back yields exactly that member, and a
/// mismatched write leaves the store untouched.
pub proof fn lemma_put_then_get(
    db: Seq<(Seq<char>, DBValueView)>,
    key: Seq<char>,
    member: Seq<char>,
    value: DBValueView,
)
    ensures
        spec_hash_put_result(db, key) is Ok ==> spec_hash_get_member(
            spec_hash_put_db(db, key, member, value),
            key,
            member,
        ) == Some(value),
        spec_hash_put_result(db, key) is Err ==> spec_hash_put_db(db, key, member, value) == db,
{
    match spec_hash_get(db, key) {
        Option::None => {
            lemma_hash_insert_get(db, key, DBValueView::Hash(seq![(member, value)]));
            assert(spec_hash_index(seq![(member, value)], member) == 0);
        },
        Some(DBValueView::Hash(pairs)) => {
            lemma_hash_insert_get(db, key, DBValueView::Hash(spec_hash_insert(pairs, member, value)));
            lemma_hash_insert_get(pairs, member, value);
        },
        Some(_) => {},
    }
}

} // verus!
