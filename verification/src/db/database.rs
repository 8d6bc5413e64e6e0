use vstd::prelude::*;

use crate::db::dbvalue::{
    hash_get, hash_insert, spec_hash_get, spec_hash_insert, view_of_pairs, DBValue, DBValueView,
};

verus! {

/// The in-memory store: an association of text keys to values whose entry
/// order carries no meaning.  Only the apply loop writes it; reads run
/// against the local copy without consensus.
pub struct Database {
    pub db: Vec<(String, DBValue)>,
}

impl Database {
    /// The store's content.
    pub open spec fn contents(&self) -> Seq<(Seq<char>, DBValueView)> {
        view_of_pairs(self.db@)
    }

    /// An empty store.
    pub fn new() -> (r: Self)
        ensures
            r.contents() == Seq::<(Seq<char>, DBValueView)>::empty(),
    {
        let r = Database { db: Vec::new() };
        proof {
            assert(r.contents() =~= Seq::<(Seq<char>, DBValueView)>::empty());
        }
        r
    }

    /// Bind a key to a value, overwriting any earlier binding.
    pub fn set(&mut self, key: String, value: DBValue)
        ensures
            final(self).contents() == spec_hash_insert(old(self).contents(), key@, value@),
    {
        hash_insert(&mut self.db, key, value);
    }

    /// The value bound to a key, if any.
    pub fn get(&self, key: &String) -> (r: Option<&DBValue>)
        ensures
            match r {
                Some(v) => spec_hash_get(self.contents(), key@) == Some(v@),
                Option::None => spec_hash_get(self.contents(), key@) is None,
            },
    {
        hash_get(&self.db, key)
    }
}

} // verus!
