use vstd::prelude::*;

use vstd::string::StringExecFns;

use crate::until::{dec_string, spec_dec};

verus! {

broadcast use vstd::seq::group_seq_axioms, vstd::std_specs::vec::group_vec_axioms;

/// A stored value: a tagged sum of nothing, a boolean, text, raw bytes, a
/// list of values, or a hash of named members.
#[derive(Debug)]
pub enum DBValue {
    Nil,
    Boolean(bool),
    String(String),
    Bytes(Vec<u8>),
    List(Vec<DBValue>),
    Hash(Vec<(String, DBValue)>),
}

/// The mathematical content of a stored value.
#[verifier::ext_equal]
pub enum DBValueView {
    Nil,
    Boolean(bool),
    String(Seq<char>),
    Bytes(Seq<u8>),
    List(Seq<DBValueView>),
    Hash(Seq<(Seq<char>, DBValueView)>),
}

/// The content of one value.
pub open spec fn view_of_value(v: DBValue) -> DBValueView
    decreases v,
{
    match v {
        DBValue::Nil => DBValueView::Nil,
        DBValue::Boolean(b) => DBValueView::Boolean(b),
        DBValue::String(s) => DBValueView::String(s@),
        DBValue::Bytes(b) => DBValueView::Bytes(b@),
        DBValue::List(items) => DBValueView::List(view_of_values(items@)),
        DBValue::Hash(pairs) => DBValueView::Hash(view_of_pairs(pairs@)),
    }
}

/// The contents of a run of values.
pub open spec fn view_of_values(s: Seq<DBValue>) -> Seq<DBValueView>
    decreases s,
{
    if s.len() == 0 {
        Seq::<DBValueView>::empty()
    } else {
        seq![view_of_value(s[0])] + view_of_values(s.drop_first())
    }
}

/// The contents of a run of named members.
pub open spec fn view_of_pairs(s: Seq<(String, DBValue)>) -> Seq<(Seq<char>, DBValueView)>
    decreases s,
{
    if s.len() == 0 {
        Seq::<(Seq<char>, DBValueView)>::empty()
    } else {
        seq![(s[0].0@, view_of_value(s[0].1))] + view_of_pairs(s.drop_first())
    }
}

impl View for DBValue {
    type V = DBValueView;

    open spec fn view(&self) -> DBValueView {
        view_of_value(*self)
    }
}

/// A run of values is viewed element by element.
pub proof fn lemma_view_of_values_index(s: Seq<DBValue>)
    ensures
        view_of_values(s).len() == s.len(),
        forall|i: int| 0 <= i < s.len() ==> view_of_values(s)[i] == view_of_value(#[trigger] s[i]),
    decreases s.len(),
{
    if s.len() > 0 {
        lemma_view_of_values_index(s.drop_first());
        assert(view_of_values(s) == seq![view_of_value(s[0])] + view_of_values(s.drop_first()));
        assert forall|i: int| 0 <= i < s.len() implies view_of_values(s)[i] == view_of_value(
            #[trigger] s[i],
        ) by {
            if i > 0 {
                assert(s.drop_first()[i - 1] == s[i]);
                assert(view_of_values(s)[i] == view_of_values(s.drop_first())[i - 1]);
            }
        }
    }
}

/// A run of named members is viewed element by element.
pub proof fn lemma_view_of_pairs_index(s: Seq<(String, DBValue)>)
    ensures
        view_of_pairs(s).len() == s.len(),
        forall|i: int|
            0 <= i < s.len() ==> view_of_pairs(s)[i] == ((#[trigger] s[i]).0@, view_of_value(
                s[i].1,
            )),
    decreases s.len(),
{
    if s.len() > 0 {
        lemma_view_of_pairs_index(s.drop_first());
        assert(view_of_pairs(s) == seq![(s[0].0@, view_of_value(s[0].1))] + view_of_pairs(
            s.drop_first(),
        ));
        assert forall|i: int| 0 <= i < s.len() implies view_of_pairs(s)[i] == ((
        #[trigger] s[i]).0@, view_of_value(s[i].1)) by {
            if i > 0 {
                assert(s.drop_first()[i - 1] == s[i]);
                assert(view_of_pairs(s)[i] == view_of_pairs(s.drop_first())[i - 1]);
            }
        }
    }
}

/// The position of a member key in a hash, or -1 when the key is absent.
pub open spec fn spec_hash_index(pairs: Seq<(Seq<char>, DBValueView)>, key: Seq<char>) -> int
    decreases pairs.len(),
{
    if pairs.len() == 0 {
        -1
    } else if pairs[0].0 == key {
        0
    } else {
        let r = spec_hash_index(pairs.drop_first(), key);
        if r == -1 {
            -1
        } else {
            r + 1
        }
    }
}

/// Whether a hash holds a member under the key.
pub open spec fn spec_hash_contains(pairs: Seq<(Seq<char>, DBValueView)>, key: Seq<char>) -> bool {
    spec_hash_index(pairs, key) != -1
}

/// The member a hash holds under the key.
pub open spec fn spec_hash_get(pairs: Seq<(Seq<char>, DBValueView)>, key: Seq<char>) -> Option<
    DBValueView,
> {
    if spec_hash_contains(pairs, key) {
        Some(pairs[spec_hash_index(pairs, key)].1)
    } else {
        Option::None
    }
}

/// The hash after writing a member: an existing key is overwritten in
/// place, a new key is appended at the end.
pub open spec fn spec_hash_insert(
    pairs: Seq<(Seq<char>, DBValueView)>,
    key: Seq<char>,
    value: DBValueView,
) -> Seq<(Seq<char>, DBValueView)> {
    if spec_hash_contains(pairs, key) {
        pairs.update(spec_hash_index(pairs, key), (key, value))
    } else {
        pairs.push((key, value))
    }
}

/// What the member position means: -1 exactly when no entry has the key,
/// and otherwise the first position whose entry has it.
pub proof fn lemma_hash_index_spec(pairs: Seq<(Seq<char>, DBValueView)>, key: Seq<char>)
    ensures
        spec_hash_index(pairs, key) == -1 ==> forall|j: int|
            0 <= j < pairs.len() ==> (#[trigger] pairs[j]).0 != key,
        spec_hash_index(pairs, key) != -1 ==> 0 <= spec_hash_index(pairs, key) < pairs.len()
            && pairs[spec_hash_index(pairs, key)].0 == key && (forall|j: int|
            0 <= j < spec_hash_index(pairs, key) ==> (#[trigger] pairs[j]).0 != key),
    decreases pairs.len(),
{
    if pairs.len() > 0 {
        lemma_hash_index_spec(pairs.drop_first(), key);
        assert(forall|j: int|
            0 <= j < pairs.drop_first().len() ==> #[trigger] pairs.drop_first()[j] == pairs[j
                + 1]);
        if pairs[0].0 != key {
            let r = spec_hash_index(pairs.drop_first(), key);
            if r == -1 {
                assert forall|j: int| 0 <= j < pairs.len() implies (#[trigger] pairs[j]).0
                    != key by {
                    if j > 0 {
                        assert(pairs.drop_first()[j - 1] == pairs[j]);
                    }
                }
            } else {
                assert(pairs[r + 1] == pairs.drop_first()[r]);
                assert forall|j: int| 0 <= j < r + 1 implies (#[trigger] pairs[j]).0 != key by {
                    if j > 0 {
                        assert(pairs.drop_first()[j - 1] == pairs[j]);
                    }
                }
            }
        }
    }
}

/// Find the member under a key, reading the entries left to right.
#[verifier::loop_isolation(false)]
pub fn hash_get<'a>(pairs: &'a Vec<(String, DBValue)>, key: &String) -> (r: Option<&'a DBValue>)
    ensures
        match r {
            Some(v) => spec_hash_get(view_of_pairs(pairs@), key@) == Some(v@),
            Option::None => spec_hash_get(view_of_pairs(pairs@), key@) is None,
        },
{
    proof {
        lemma_view_of_pairs_index(pairs@);
        lemma_hash_index_spec(view_of_pairs(pairs@), key@);
    }
    let ghost vp = view_of_pairs(pairs@);
    let mut i: usize = 0;
    while i < pairs.len()
        invariant
            i <= pairs@.len(),
            vp == view_of_pairs(pairs@),
            vp.len() == pairs@.len(),
            forall|j: int| 0 <= j < vp.len() ==> #[trigger] vp[j] == (pairs@[j].0@, view_of_value(
                pairs@[j].1,
            )),
            forall|j: int| 0 <= j < i ==> (#[trigger] vp[j]).0 != key@,
        decreases pairs@.len() - i,
    {
        if pairs[i].0.eq(key) {
            proof {
                lemma_hash_index_spec(vp, key@);
                let idx = spec_hash_index(vp, key@);
                assert(vp[i as int].0 == key@);
                if idx == -1 {
                    assert(vp[i as int].0 != key@);
                } else if idx < i {
                    assert(vp[idx].0 == key@);
                    assert(vp[idx].0 != key@);
                } else if idx > i {
                    assert(vp[i as int].0 != key@);
                }
                assert(idx == i);
            }
            return Some(&pairs[i].1);
        }
        i = i + 1;
    }
    proof {
        lemma_hash_index_spec(vp, key@);
    }
    Option::None
}

/// Write a member: overwrite the entry that holds the key, or append a new
/// entry at the end.
#[verifier::loop_isolation(false)]
pub fn hash_insert(pairs: &mut Vec<(String, DBValue)>, key: String, value: DBValue)
    ensures
        view_of_pairs(final(pairs)@) == spec_hash_insert(
            view_of_pairs(old(pairs)@),
            key@,
            value@,
        ),
{
    proof {
        lemma_view_of_pairs_index(pairs@);
        lemma_hash_index_spec(view_of_pairs(pairs@), key@);
    }
    let ghost vp = view_of_pairs(pairs@);
    let ghost p0 = pairs@;
    let mut i: usize = 0;
    while i < pairs.len()
        invariant
            i <= pairs@.len(),
            pairs@ == p0,
            vp == view_of_pairs(p0),
            vp.len() == p0.len(),
            forall|j: int| 0 <= j < vp.len() ==> #[trigger] vp[j] == (p0[j].0@, view_of_value(
                p0[j].1,
            )),
            forall|j: int| 0 <= j < i ==> (#[trigger] vp[j]).0 != key@,
        decreases pairs@.len() - i,
    {
        if pairs[i].0.eq(&key) {
            proof {
                lemma_hash_index_spec(vp, key@);
                let idx = spec_hash_index(vp, key@);
                assert(vp[i as int].0 == key@);
                if idx == -1 {
                    assert(vp[i as int].0 != key@);
                } else if idx < i {
                    assert(vp[idx].0 == key@);
                    assert(vp[idx].0 != key@);
                } else if idx > i {
                    assert(vp[i as int].0 != key@);
                }
                assert(idx == i);
            }
            let entry = (key, value);
            let ghost snap = entry;
            pairs.set(i, entry);
            proof {
                lemma_view_of_pairs_update(p0, i as int, snap);
            }
            return ;
        }
        i = i + 1;
    }
    proof {
        lemma_hash_index_spec(vp, key@);
    }
    let entry = (key, value);
    let ghost snap = entry;
    pairs.push(entry);
    proof {
        lemma_view_of_pairs_push(p0, snap);
    }
}

/// Updating one entry updates its view and no other.
pub proof fn lemma_view_of_pairs_update(s: Seq<(String, DBValue)>, i: int, p: (String, DBValue))
    requires
        0 <= i < s.len(),
    ensures
        view_of_pairs(s.update(i, p)) == view_of_pairs(s).update(i, (p.0@, view_of_value(p.1))),
    decreases s.len(),
{
    lemma_view_of_pairs_index(s);
    lemma_view_of_pairs_index(s.update(i, p));
    assert forall|j: int| 0 <= j < s.len() implies #[trigger] view_of_pairs(s.update(i, p))[j]
        == view_of_pairs(s).update(i, (p.0@, view_of_value(p.1)))[j] by {
        if j == i {
            assert(s.update(i, p)[j] == p);
        } else {
            assert(s.update(i, p)[j] == s[j]);
        }
    }
    assert(view_of_pairs(s.update(i, p)) =~= view_of_pairs(s).update(
        i,
        (p.0@, view_of_value(p.1)),
    ));
}

/// Appending an entry appends its view.
pub proof fn lemma_view_of_pairs_push(s: Seq<(String, DBValue)>, p: (String, DBValue))
    ensures
        view_of_pairs(s.push(p)) == view_of_pairs(s).push((p.0@, view_of_value(p.1))),
{
    lemma_view_of_pairs_index(s);
    lemma_view_of_pairs_index(s.push(p));
    assert forall|j: int| 0 <= j < s.len() + 1 implies #[trigger] view_of_pairs(s.push(p))[j]
        == view_of_pairs(s).push((p.0@, view_of_value(p.1)))[j] by {
        if j < s.len() {
            assert(s.push(p)[j] == s[j]);
        } else {
            assert(s.push(p)[j] == p);
        }
    }
    assert(view_of_pairs(s.push(p)) =~= view_of_pairs(s).push((p.0@, view_of_value(p.1))));
}

/// Appending a value appends its view.
pub proof fn lemma_view_of_values_push(s: Seq<DBValue>, v: DBValue)
    ensures
        view_of_values(s.push(v)) == view_of_values(s).push(view_of_value(v)),
{
    lemma_view_of_values_index(s);
    lemma_view_of_values_index(s.push(v));
    assert forall|j: int| 0 <= j < s.len() + 1 implies #[trigger] view_of_values(s.push(v))[j]
        == view_of_values(s).push(view_of_value(v))[j] by {
        if j < s.len() {
            assert(s.push(v)[j] == s[j]);
        } else {
            assert(s.push(v)[j] == v);
        }
    }
    assert(view_of_values(s.push(v)) =~= view_of_values(s).push(view_of_value(v)));
}

impl DBValue {
    /// A structural copy: the copy's content equals the original's.
    #[verifier::loop_isolation(false)]
    pub fn deep_copy(&self) -> (r: DBValue)
        ensures
            r@ == self@,
        decreases *self,
    {
        match self {
            DBValue::Nil => DBValue::Nil,
            DBValue::Boolean(b) => DBValue::Boolean(*b),
            DBValue::String(s) => DBValue::String(s.clone()),
            DBValue::Bytes(bytes) => {
                let mut out: Vec<u8> = Vec::new();
                let mut i: usize = 0;
                proof {
                    assert(out@ =~= bytes@.subrange(0, 0));
                }
                while i < bytes.len()
                    invariant
                        i <= bytes@.len(),
                        out@ == bytes@.subrange(0, i as int),
                    decreases bytes@.len() - i,
                {
                    out.push(bytes[i]);
                    proof {
                        assert(bytes@.subrange(0, i + 1) =~= bytes@.subrange(0, i as int).push(
                            bytes@[i as int],
                        ));
                    }
                    i = i + 1;
                }
                proof {
                    assert(bytes@.subrange(0, bytes@.len() as int) =~= bytes@);
                }
                DBValue::Bytes(out)
            },
            DBValue::List(items) => {
                let mut out: Vec<DBValue> = Vec::new();
                let mut i: usize = 0;
                proof {
                    lemma_view_of_values_index(items@);
                }
                while i < items.len()
                    invariant
                        i <= items@.len(),
                        out@.len() == i,
                        forall|j: int|
                            0 <= j < i ==> view_of_value(#[trigger] out@[j]) == view_of_value(
                                items@[j],
                            ),
                    decreases items@.len() - i,
                {
                    proof {
                        assert(*self == DBValue::List(*items));
                        assert(decreases_to!(*self => (*self)->List_0));
                        assert(decreases_to!(*items => items@));
                        assert(decreases_to!(items@ => items@[i as int]));
                    }
                    let copy = items[i].deep_copy();
                    out.push(copy);
                    i = i + 1;
                }
                proof {
                    lemma_view_of_values_index(out@);
                    lemma_view_of_values_index(items@);
                    assert forall|j: int| 0 <= j < items@.len() implies view_of_values(out@)[j]
                        == view_of_values(items@)[j] by {
                        assert(view_of_values(out@)[j] == view_of_value(out@[j]));
                        assert(view_of_values(items@)[j] == view_of_value(items@[j]));
                    }
                    assert(view_of_values(out@) =~= view_of_values(items@));
                }
                DBValue::List(out)
            },
            DBValue::Hash(pairs) => {
                let mut out: Vec<(String, DBValue)> = Vec::new();
                let mut i: usize = 0;
                proof {
                    lemma_view_of_pairs_index(pairs@);
                }
                while i < pairs.len()
                    invariant
                        i <= pairs@.len(),
                        out@.len() == i,
                        forall|j: int|
                            0 <= j < i ==> (#[trigger] out@[j]).0@ == pairs@[j].0@ && view_of_value(
                                out@[j].1,
                            ) == view_of_value(pairs@[j].1),
                    decreases pairs@.len() - i,
                {
                    proof {
                        assert(*self == DBValue::Hash(*pairs));
                        assert(decreases_to!(*self => (*self)->Hash_0));
                        assert(decreases_to!(*pairs => pairs@));
                        assert(decreases_to!(pairs@ => pairs@[i as int]));
                        assert(decreases_to!(pairs@[i as int] => pairs@[i as int].1));
                    }
                    let key = pairs[i].0.clone();
                    let val = pairs[i].1.deep_copy();
                    out.push((key, val));
                    i = i + 1;
                }
                proof {
                    lemma_view_of_pairs_index(out@);
                    lemma_view_of_pairs_index(pairs@);
                    assert forall|j: int| 0 <= j < pairs@.len() implies view_of_pairs(out@)[j]
                        == view_of_pairs(pairs@)[j] by {
                        assert(view_of_pairs(out@)[j] == (out@[j].0@, view_of_value(out@[j].1)));
                        assert(view_of_pairs(pairs@)[j] == (pairs@[j].0@, view_of_value(
                            pairs@[j].1,
                        )));
                    }
                    assert(view_of_pairs(out@) =~= view_of_pairs(pairs@));
                }
                DBValue::Hash(out)
            },
        }
    }
}

/// Writing a member makes it readable at once, and touches no other key.
pub proof fn lemma_hash_insert_get(
    s: Seq<(Seq<char>, DBValueView)>,
    key: Seq<char>,
    value: DBValueView,
)
    ensures
        spec_hash_get(spec_hash_insert(s, key, value), key) == Some(value),
        forall|k2: Seq<char>|
            k2 != key ==> #[trigger] spec_hash_get(spec_hash_insert(s, key, value), k2)
                == spec_hash_get(s, k2),
{
    lemma_hash_index_spec(s, key);
    let idx = spec_hash_index(s, key);
    let s2 = spec_hash_insert(s, key, value);
    lemma_hash_index_spec(s2, key);
    let idx2 = spec_hash_index(s2, key);
    if idx == -1 {
        assert(s2 == s.push((key, value)));
        assert(s2[s.len() as int] == (key, value));
        if idx2 == -1 {
            assert(s2[s.len() as int].0 != key);
        }
        assert(s2[idx2].0 == key);
        if idx2 < s.len() {
            assert(s2[idx2] == s[idx2]);
            assert(s[idx2].0 != key);
        }
        assert(idx2 == s.len());
        assert(spec_hash_get(s2, key) == Some(value));
        assert forall|k2: Seq<char>| k2 != key implies #[trigger] spec_hash_get(s2, k2)
            == spec_hash_get(s, k2) by {
            lemma_hash_index_spec(s2, k2);
            lemma_hash_index_spec(s, k2);
            let i2 = spec_hash_index(s2, k2);
            let i1 = spec_hash_index(s, k2);
            if i1 == -1 {
                if i2 != -1 {
                    assert(s2[i2].0 == k2);
                    if i2 < s.len() {
                        assert(s2[i2] == s[i2]);
                        assert(s[i2].0 != k2);
                    } else {
                        assert(s2[i2] == (key, value));
                    }
                    assert(false);
                }
            } else {
                assert(s[i1].0 == k2);
                assert(s2[i1] == s[i1]);
                if i2 == -1 {
                    assert(s2[i1].0 != k2);
                    assert(false);
                }
                if i2 < i1 {
                    assert(s2[i2].0 == k2);
                    assert(s2[i2] == s[i2]);
                    assert(s[i2].0 != k2);
                    assert(false);
                }
                if i2 > i1 {
                    assert(s2[i1].0 != k2);
                    assert(false);
                }
                assert(s2[i2] == s[i1]);
            }
        }
    } else {
        assert(s2 == s.update(idx, (key, value)));
        assert(s2[idx] == (key, value));
        if idx2 == -1 {
            assert(s2[idx].0 != key);
            assert(false);
        }
        if idx2 < idx {
            assert(s2[idx2].0 == key);
            assert(s2[idx2] == s[idx2]);
            assert(s[idx2].0 != key);
            assert(false);
        }
        if idx2 > idx {
            assert(s2[idx].0 != key);
            assert(false);
        }
        assert(spec_hash_get(s2, key) == Some(value));
        assert forall|k2: Seq<char>| k2 != key implies #[trigger] spec_hash_get(s2, k2)
            == spec_hash_get(s, k2) by {
            lemma_hash_index_spec(s2, k2);
            lemma_hash_index_spec(s, k2);
            let i2 = spec_hash_index(s2, k2);
            let i1 = spec_hash_index(s, k2);
            assert(s[idx].0 == key);
            if i1 == -1 {
                if i2 != -1 {
                    assert(s2[i2].0 == k2);
                    if i2 == idx {
                        assert(s2[idx].0 == key);
                    } else {
                        assert(s2[i2] == s[i2]);
                        assert(s[i2].0 != k2);
                    }
                    assert(false);
                }
            } else {
                assert(s[i1].0 == k2);
                assert(i1 != idx);
                assert(s2[i1] == s[i1]);
                if i2 == -1 {
                    assert(s2[i1].0 != k2);
                    assert(false);
                }
                if i2 < i1 {
                    assert(s2[i2].0 == k2);
                    if i2 == idx {
                        assert(s2[idx].0 == key);
                    } else {
                        assert(s2[i2] == s[i2]);
                        assert(s[i2].0 != k2);
                    }
                    assert(false);
                }
                if i2 > i1 {
                    assert(s2[i1].0 != k2);
                    assert(false);
                }
                assert(s2[i2] == s[i1]);
            }
        }
    }
}

/// The text a value prints as: its variant's name and, structurally, its
/// content.
pub open spec fn display_of(v: DBValueView) -> Seq<char>
    decreases v, 1int,
{
    match v {
        DBValueView::Nil => "DBValue::None"@,
        DBValueView::Boolean(b) => if b {
            "DBValue::Boolean(true)"@
        } else {
            "DBValue::Boolean(false)"@
        },
        DBValueView::String(s) => "DBValue::String("@ + s + ")"@,
        DBValueView::Bytes(bs) => "DBValue::Bytes("@ + spec_dec(bs.len()) + " bytes)"@,
        DBValueView::List(items) => "DBValue::List("@ + display_of_items(items) + ")"@,
        DBValueView::Hash(pairs) => "DBValue::Hash(\n"@ + display_of_pairs(pairs) + ")"@,
    }
}

/// The list items' text, separated by commas.
pub open spec fn display_of_items(s: Seq<DBValueView>) -> Seq<char>
    decreases s, 0int,
    via display_of_items_decreases
{
    if s.len() == 0 {
        Seq::<char>::empty()
    } else if s.len() == 1 {
        display_of(s[0])
    } else {
        display_of_items(s.drop_last()) + ","@ + display_of(s.last())
    }
}

/// The hash members' text: the first spaced, the rest comma-led.
pub open spec fn display_of_pairs(s: Seq<(Seq<char>, DBValueView)>) -> Seq<char>
    decreases s, 0int,
    via display_of_pairs_decreases
{
    if s.len() == 0 {
        Seq::<char>::empty()
    } else if s.len() == 1 {
        "  "@ + s[0].0 + " = "@ + display_of(s[0].1)
    } else {
        display_of_pairs(s.drop_last()) + ",\n"@ + s.last().0 + "="@ + display_of(s.last().1)
    }
}

#[via_fn]
proof fn display_of_items_decreases(s: Seq<DBValueView>) {
    if s.len() > 1 {
        assert(decreases_to!(s => s[s.len() - 1]));
        vstd::seq::axiom_seq_len_decreases(s, s.drop_last());
    } else if s.len() == 1 {
        assert(decreases_to!(s => s[0]));
    }
}

#[via_fn]
proof fn display_of_pairs_decreases(s: Seq<(Seq<char>, DBValueView)>) {
    if s.len() > 1 {
        assert(decreases_to!(s => s[s.len() - 1]));
        assert(decreases_to!(s[s.len() - 1] => s[s.len() - 1].1));
        vstd::seq::axiom_seq_len_decreases(s, s.drop_last());
    } else if s.len() == 1 {
        assert(decreases_to!(s => s[0]));
        assert(decreases_to!(s[0] => s[0].1));
    }
}

impl DBValue {
    /// The value as text, for logs and replies.
    #[verifier::loop_isolation(false)]
    pub fn display_string(&self) -> (r: String)
        ensures
            r@ == display_of(self@),
        decreases *self,
    {
        match self {
            DBValue::Nil => String::from_str("DBValue::None"),
            DBValue::Boolean(b) => if *b {
                String::from_str("DBValue::Boolean(true)")
            } else {
                String::from_str("DBValue::Boolean(false)")
            },
            DBValue::String(s) => {
                let mut r = String::from_str("DBValue::String(");
                r.append(s.as_str());
                r.append(")");
                proof {
                    assert(r@ =~= display_of(self@));
                }
                r
            },
            DBValue::Bytes(bytes) => {
                let mut r = String::from_str("DBValue::Bytes(");
                r.append(dec_string(bytes.len() as u64).as_str());
                r.append(" bytes)");
                proof {
                    assert(r@ =~= display_of(self@));
                }
                r
            },
            DBValue::List(items) => {
                let ghost views = view_of_values(items@);
                proof {
                    lemma_view_of_values_index(items@);
                }
                let mut r = String::from_str("DBValue::List(");
                if items.len() > 0 {
                    proof {
                        assert(*self == DBValue::List(*items));
                        assert(decreases_to!(*self => (*self)->List_0));
                        assert(decreases_to!(*items => items@));
                        assert(decreases_to!(items@ => items@[0]));
                    }
                    let first = items[0].display_string();
                    r.append(first.as_str());
                    proof {
                        assert(views.subrange(0, 1) =~= seq![views[0]]);
                        assert(display_of_items(views.subrange(0, 1)) == display_of(views[0]));
                        assert(r@ =~= "DBValue::List("@ + display_of_items(views.subrange(0, 1)));
                    }
                    let mut i: usize = 1;
                    while i < items.len()
                        invariant
                            1 <= i <= items@.len(),
                            r@ == "DBValue::List("@ + display_of_items(
                                views.subrange(0, i as int),
                            ),
                        decreases items@.len() - i,
                    {
                        proof {
                            assert(*self == DBValue::List(*items));
                            assert(decreases_to!(*self => (*self)->List_0));
                            assert(decreases_to!(*items => items@));
                            assert(decreases_to!(items@ => items@[i as int]));
                        }
                        r.append(",");
                        let piece = items[i].display_string();
                        r.append(piece.as_str());
                        proof {
                            let pre2 = views.subrange(0, i + 1);
                            assert(pre2.drop_last() =~= views.subrange(0, i as int));
                            assert(pre2.last() == views[i as int]);
                            assert(r@ =~= "DBValue::List("@ + display_of_items(pre2));
                        }
                        i = i + 1;
                    }
                }
                r.append(")");
                proof {
                    assert(views.subrange(0, views.len() as int) =~= views);
                    if items@.len() == 0 {
                        assert(display_of_items(views) == Seq::<char>::empty());
                    }
                    assert(r@ =~= display_of(self@));
                }
                r
            },
            DBValue::Hash(pairs) => {
                let ghost views = view_of_pairs(pairs@);
                proof {
                    lemma_view_of_pairs_index(pairs@);
                }
                let mut r = String::from_str("DBValue::Hash(\n");
                if pairs.len() > 0 {
                    proof {
                        assert(*self == DBValue::Hash(*pairs));
                        assert(decreases_to!(*self => (*self)->Hash_0));
                        assert(decreases_to!(*pairs => pairs@));
                        assert(decreases_to!(pairs@ => pairs@[0]));
                        assert(decreases_to!(pairs@[0] => pairs@[0].1));
                    }
                    r.append("  ");
                    r.append(pairs[0].0.as_str());
                    r.append(" = ");
                    let first = pairs[0].1.display_string();
                    r.append(first.as_str());
                    proof {
                        assert(views.subrange(0, 1) =~= seq![views[0]]);
                        assert(display_of_pairs(views.subrange(0, 1)) == "  "@ + views[0].0
                            + " = "@ + display_of(views[0].1));
                        assert(r@ =~= "DBValue::Hash(\n"@ + display_of_pairs(
                            views.subrange(0, 1),
                        ));
                    }
                    let mut i: usize = 1;
                    while i < pairs.len()
                        invariant
                            1 <= i <= pairs@.len(),
                            r@ == "DBValue::Hash(\n"@ + display_of_pairs(
                                views.subrange(0, i as int),
                            ),
                        decreases pairs@.len() - i,
                    {
                        proof {
                            assert(*self == DBValue::Hash(*pairs));
                            assert(decreases_to!(*self => (*self)->Hash_0));
                            assert(decreases_to!(*pairs => pairs@));
                            assert(decreases_to!(pairs@ => pairs@[i as int]));
                            assert(decreases_to!(pairs@[i as int] => pairs@[i as int].1));
                        }
                        r.append(",\n");
                        r.append(pairs[i].0.as_str());
                        r.append("=");
                        let piece = pairs[i].1.display_string();
                        r.append(piece.as_str());
                        proof {
                            let pre2 = views.subrange(0, i + 1);
                            assert(pre2.drop_last() =~= views.subrange(0, i as int));
                            assert(pre2.last() == views[i as int]);
                            assert(r@ =~= "DBValue::Hash(\n"@ + display_of_pairs(pre2));
                        }
                        i = i + 1;
                    }
                }
                r.append(")");
                proof {
                    assert(views.subrange(0, views.len() as int) =~= views);
                    if pairs@.len() == 0 {
                        assert(display_of_pairs(views) == Seq::<char>::empty());
                    }
                    assert(r@ =~= display_of(self@));
                }
                r
            },
        }
    }
}

} // verus!
