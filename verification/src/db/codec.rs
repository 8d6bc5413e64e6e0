use vstd::prelude::*;

use vstd::utf8::{decode_utf8, encode_utf8, valid_utf8};

use crate::db::dbvalue::{
    lemma_view_of_pairs_index, lemma_view_of_values_index, view_of_pairs, view_of_values, DBValue,
    DBValueView,
};
use crate::wire::{bytes_to_string, copy_range, push_bytes, push_u64_le, read_u64_le, spec_read_u64, spec_u64_le};

verus! {

broadcast use vstd::seq::group_seq_axioms, vstd::std_specs::vec::group_vec_axioms;

/// Tag byte that opens an empty value on the wire.
pub const TAG_NONE: u8 = 0;

/// Tag byte that opens a boolean value on the wire.
pub const TAG_BOOLEAN: u8 = 1;

/// Tag byte that opens a text value on the wire.
pub const TAG_STRING: u8 = 2;

/// Tag byte that opens a byte-run value on the wire.
pub const TAG_BYTES: u8 = 3;

/// Tag byte that opens a list value on the wire.
pub const TAG_LIST: u8 = 4;

/// Tag byte that opens a hash value on the wire.
pub const TAG_HASH: u8 = 5;

/// Serialized form of a text run: its UTF-8 byte length, then its UTF-8
/// bytes.
pub open spec fn spec_encode_str(s: Seq<char>) -> Seq<u8> {
    spec_u64_le(encode_utf8(s).len() as u64) + encode_utf8(s)
}

/// Serialized form of a value: a tag byte, then the variant's content;
/// counted things carry their count or byte length ahead of themselves.
pub open spec fn spec_encode_value(v: DBValueView) -> Seq<u8>
    decreases v, 1int,
    via spec_encode_value_decreases
{
    match v {
        DBValueView::Nil => seq![TAG_NONE],
        DBValueView::Boolean(b) => seq![
            TAG_BOOLEAN,
            if b {
                1u8
            } else {
                0u8
            },
        ],
        DBValueView::String(s) => seq![TAG_STRING] + spec_encode_str(s),
        DBValueView::Bytes(b) => seq![TAG_BYTES] + spec_u64_le(b.len() as u64) + b,
        DBValueView::List(items) => seq![TAG_LIST] + spec_u64_le(items.len() as u64)
            + spec_encode_values(items),
        DBValueView::Hash(pairs) => seq![TAG_HASH] + spec_u64_le(pairs.len() as u64)
            + spec_encode_pairs(pairs),
    }
}

/// Serialized form of a run of values, one after the other.
pub open spec fn spec_encode_values(items: Seq<DBValueView>) -> Seq<u8>
    decreases items, 0int,
    via spec_encode_values_decreases
{
    if items.len() == 0 {
        Seq::<u8>::empty()
    } else {
        spec_encode_value(items[0]) + spec_encode_values(items.drop_first())
    }
}

/// Serialized form of a run of named members: each key, then its value.
pub open spec fn spec_encode_pairs(pairs: Seq<(Seq<char>, DBValueView)>) -> Seq<u8>
    decreases pairs, 0int,
    via spec_encode_pairs_decreases
{
    if pairs.len() == 0 {
        Seq::<u8>::empty()
    } else {
        spec_encode_str(pairs[0].0) + spec_encode_value(pairs[0].1) + spec_encode_pairs(
            pairs.drop_first(),
        )
    }
}

#[via_fn]
proof fn spec_encode_value_decreases(v: DBValueView) {
}

#[via_fn]
proof fn spec_encode_values_decreases(items: Seq<DBValueView>) {
    if items.len() != 0 {
        assert(decreases_to!(items => items[0]));
        vstd::seq::axiom_seq_len_decreases(items, items.drop_first());
    }
}

#[via_fn]
proof fn spec_encode_pairs_decreases(pairs: Seq<(Seq<char>, DBValueView)>) {
    if pairs.len() != 0 {
        assert(decreases_to!(pairs => pairs[0]));
        assert(decreases_to!(pairs[0] => pairs[0].1));
        vstd::seq::axiom_seq_len_decreases(pairs, pairs.drop_first());
    }
}

/// Appending a value appends its serialized form.
pub proof fn lemma_encode_values_snoc(s: Seq<DBValueView>, x: DBValueView)
    ensures
        spec_encode_values(s.push(x)) == spec_encode_values(s) + spec_encode_value(x),
    decreases s.len(),
{
    if s.len() == 0 {
        assert(s.push(x).drop_first() =~= Seq::<DBValueView>::empty());
        assert(s.push(x)[0] == x);
        assert(spec_encode_values(Seq::<DBValueView>::empty()) == Seq::<u8>::empty());
        assert(spec_encode_value(x) + Seq::<u8>::empty() =~= spec_encode_value(x));
        assert(Seq::<u8>::empty() + spec_encode_value(x) =~= spec_encode_value(x));
    } else {
        lemma_encode_values_snoc(s.drop_first(), x);
        assert(s.push(x).drop_first() =~= s.drop_first().push(x));
        assert(s.push(x)[0] == s[0]);
        assert(spec_encode_value(s[0]) + (spec_encode_values(s.drop_first()) + spec_encode_value(
            x,
        )) =~= (spec_encode_value(s[0]) + spec_encode_values(s.drop_first())) + spec_encode_value(
            x,
        ));
    }
}

/// Appending a member appends its serialized key and value.
pub proof fn lemma_encode_pairs_snoc(s: Seq<(Seq<char>, DBValueView)>, p: (Seq<char>, DBValueView))
    ensures
        spec_encode_pairs(s.push(p)) == spec_encode_pairs(s) + (spec_encode_str(p.0)
            + spec_encode_value(p.1)),
    decreases s.len(),
{
    if s.len() == 0 {
        assert(s.push(p).drop_first() =~= Seq::<(Seq<char>, DBValueView)>::empty());
        assert(s.push(p)[0] == p);
        assert(spec_encode_pairs(Seq::<(Seq<char>, DBValueView)>::empty()) == Seq::<u8>::empty());
        assert((spec_encode_str(p.0) + spec_encode_value(p.1)) + Seq::<u8>::empty() =~= (
        spec_encode_str(p.0) + spec_encode_value(p.1)));
        assert(Seq::<u8>::empty() + (spec_encode_str(p.0) + spec_encode_value(p.1)) =~= (
        spec_encode_str(p.0) + spec_encode_value(p.1)));
    } else {
        lemma_encode_pairs_snoc(s.drop_first(), p);
        assert(s.push(p).drop_first() =~= s.drop_first().push(p));
        assert(s.push(p)[0] == s[0]);
        assert((spec_encode_str(s[0].0) + spec_encode_value(s[0].1)) + (spec_encode_pairs(
            s.drop_first(),
        ) + (spec_encode_str(p.0) + spec_encode_value(p.1))) =~= ((spec_encode_str(s[0].0)
            + spec_encode_value(s[0].1)) + spec_encode_pairs(s.drop_first())) + (spec_encode_str(
            p.0,
        ) + spec_encode_value(p.1)));
    }
}

/// Append the serialized form of a text run: UTF-8 byte length, then the
/// UTF-8 bytes.
#[verifier::loop_isolation(false)]
pub fn encode_str_into(s: &String, out: &mut Vec<u8>)
    ensures
        final(out)@ == old(out)@ + spec_encode_str(s@),
{
    let bs = s.as_str().as_bytes();
    push_u64_le(out, bs.len() as u64);
    push_bytes(out, bs);
    proof {
        assert(old(out)@ + spec_u64_le(bs@.len() as u64) + bs@ =~= old(out)@ + (spec_u64_le(
            encode_utf8(s@).len() as u64,
        ) + encode_utf8(s@)));
    }
}

impl DBValue {
    /// Append this value's serialized form to a buffer.
    #[verifier::loop_isolation(false)]
    pub fn encode_into(&self, out: &mut Vec<u8>)
        ensures
            final(out)@ == old(out)@ + spec_encode_value(self@),
        decreases *self,
    {
        let ghost base = out@;
        match self {
            DBValue::Nil => {
                out.push(TAG_NONE);
                proof {
                    assert(out@ =~= base + spec_encode_value(self@));
                }
            },
            DBValue::Boolean(b) => {
                out.push(TAG_BOOLEAN);
                out.push(
                    if *b {
                        1
                    } else {
                        0
                    },
                );
                proof {
                    assert(out@ =~= base + spec_encode_value(self@));
                }
            },
            DBValue::String(s) => {
                out.push(TAG_STRING);
                encode_str_into(s, out);
                proof {
                    assert(out@ =~= base + spec_encode_value(self@));
                }
            },
            DBValue::Bytes(bytes) => {
                out.push(TAG_BYTES);
                push_u64_le(out, bytes.len() as u64);
                push_bytes(out, bytes.as_slice());
                proof {
                    assert(out@ =~= base + spec_encode_value(self@));
                }
            },
            DBValue::List(items) => {
                out.push(TAG_LIST);
                push_u64_le(out, items.len() as u64);
                let ghost views = view_of_values(items@);
                proof {
                    lemma_view_of_values_index(items@);
                    assert(views.subrange(0, 0) =~= Seq::<DBValueView>::empty());
                    assert(out@ =~= base + seq![TAG_LIST] + spec_u64_le(items@.len() as u64)
                        + spec_encode_values(views.subrange(0, 0)));
                }
                let mut i: usize = 0;
                while i < items.len()
                    invariant
                        i <= items@.len(),
                        out@ == base + seq![TAG_LIST] + spec_u64_le(items@.len() as u64)
                            + spec_encode_values(views.subrange(0, i as int)),
                    decreases items@.len() - i,
                {
                    proof {
                        assert(*self == DBValue::List(*items));
                        assert(decreases_to!(*self => (*self)->List_0));
                        assert(decreases_to!(*items => items@));
                        assert(decreases_to!(items@ => items@[i as int]));
                    }
                    items[i].encode_into(out);
                    proof {
                        assert(views.subrange(0, i + 1) =~= views.subrange(0, i as int).push(
                            views[i as int],
                        ));
                        lemma_encode_values_snoc(views.subrange(0, i as int), views[i as int]);
                        assert(views[i as int] == items@[i as int]@);
                        assert((base + seq![TAG_LIST] + spec_u64_le(items@.len() as u64)
                            + spec_encode_values(views.subrange(0, i as int))) + spec_encode_value(
                            items@[i as int]@,
                        ) =~= base + seq![TAG_LIST] + spec_u64_le(items@.len() as u64)
                            + spec_encode_values(views.subrange(0, i + 1)));
                    }
                    i = i + 1;
                }
                proof {
                    assert(views.subrange(0, views.len() as int) =~= views);
                    assert(out@ =~= base + spec_encode_value(self@));
                }
            },
            DBValue::Hash(pairs) => {
                out.push(TAG_HASH);
                push_u64_le(out, pairs.len() as u64);
                let ghost views = view_of_pairs(pairs@);
                proof {
                    lemma_view_of_pairs_index(pairs@);
                    assert(views.subrange(0, 0) =~= Seq::<(Seq<char>, DBValueView)>::empty());
                    assert(out@ =~= base + seq![TAG_HASH] + spec_u64_le(pairs@.len() as u64)
                        + spec_encode_pairs(views.subrange(0, 0)));
                }
                let mut i: usize = 0;
                while i < pairs.len()
                    invariant
                        i <= pairs@.len(),
                        out@ == base + seq![TAG_HASH] + spec_u64_le(pairs@.len() as u64)
                            + spec_encode_pairs(views.subrange(0, i as int)),
                    decreases pairs@.len() - i,
                {
                    proof {
                        assert(*self == DBValue::Hash(*pairs));
                        assert(decreases_to!(*self => (*self)->Hash_0));
                        assert(decreases_to!(*pairs => pairs@));
                        assert(decreases_to!(pairs@ => pairs@[i as int]));
                        assert(decreases_to!(pairs@[i as int] => pairs@[i as int].1));
                    }
                    let ghost mid = out@;
                    encode_str_into(&pairs[i].0, out);
                    pairs[i].1.encode_into(out);
                    proof {
                        assert(views.subrange(0, i + 1) =~= views.subrange(0, i as int).push(
                            views[i as int],
                        ));
                        lemma_encode_pairs_snoc(views.subrange(0, i as int), views[i as int]);
                        assert(views[i as int] == (pairs@[i as int].0@, pairs@[i as int].1@));
                        assert(out@ =~= mid + (spec_encode_str(pairs@[i as int].0@)
                            + spec_encode_value(pairs@[i as int].1@)));
                        assert(out@ =~= base + seq![TAG_HASH] + spec_u64_le(pairs@.len() as u64)
                            + spec_encode_pairs(views.subrange(0, i + 1)));
                    }
                    i = i + 1;
                }
                proof {
                    assert(views.subrange(0, views.len() as int) =~= views);
                    assert(out@ =~= base + spec_encode_value(self@));
                }
            },
        }
    }

    /// This value's serialized form.
    pub fn encode(&self) -> (r: Vec<u8>)
        ensures
            r@ == spec_encode_value(self@),
    {
        let mut out: Vec<u8> = Vec::new();
        self.encode_into(&mut out);
        proof {
            assert(Seq::<u8>::empty() + spec_encode_value(self@) =~= spec_encode_value(self@));
        }
        out
    }
}

/// Read a text run at `pos`: a UTF-8 byte length, then that many bytes,
/// which must be valid UTF-8.
pub open spec fn spec_decode_str(s: Seq<u8>, pos: int) -> Option<(Seq<char>, int)> {
    match spec_read_u64(s, pos) {
        Some((n, p2)) => if p2 + n <= s.len() && valid_utf8(s.subrange(p2, p2 + n)) {
            Some((decode_utf8(s.subrange(p2, p2 + n)), p2 + n))
        } else {
            Option::None
        },
        Option::None => Option::None,
    }
}

/// Read one serialized value at `pos`; the position after it comes back
/// with the value.  `None` when the bytes there are not a serialized value.
pub open spec fn spec_decode_value(s: Seq<u8>, pos: int) -> Option<(DBValueView, int)>
    decreases s.len() - pos, 0int,
{
    if pos < 0 || pos >= s.len() {
        Option::None
    } else if s[pos] == TAG_NONE {
        Some((DBValueView::Nil, pos + 1))
    } else if s[pos] == TAG_BOOLEAN {
        if pos + 2 <= s.len() {
            if s[pos + 1] == 1 {
                Some((DBValueView::Boolean(true), pos + 2))
            } else if s[pos + 1] == 0 {
                Some((DBValueView::Boolean(false), pos + 2))
            } else {
                Option::None
            }
        } else {
            Option::None
        }
    } else if s[pos] == TAG_STRING {
        match spec_decode_str(s, pos + 1) {
            Some((cs, end)) => Some((DBValueView::String(cs), end)),
            Option::None => Option::None,
        }
    } else if s[pos] == TAG_BYTES {
        match spec_read_u64(s, pos + 1) {
            Some((n, p2)) => if p2 + n <= s.len() {
                Some((DBValueView::Bytes(s.subrange(p2, p2 + n)), p2 + n))
            } else {
                Option::None
            },
            Option::None => Option::None,
        }
    } else if s[pos] == TAG_LIST {
        match spec_read_u64(s, pos + 1) {
            Some((n, p2)) => match spec_decode_values(s, p2, n as int) {
                Some((items, end)) => Some((DBValueView::List(items), end)),
                Option::None => Option::None,
            },
            Option::None => Option::None,
        }
    } else if s[pos] == TAG_HASH {
        match spec_read_u64(s, pos + 1) {
            Some((n, p2)) => match spec_decode_pairs(s, p2, n as int) {
                Some((pairs, end)) => Some((DBValueView::Hash(pairs), end)),
                Option::None => Option::None,
            },
            Option::None => Option::None,
        }
    } else {
        Option::None
    }
}

/// Read `count` serialized values one after the other, starting at `pos`.
/// Each value must end strictly past where it began and inside the buffer.
pub open spec fn spec_decode_values(s: Seq<u8>, pos: int, count: int) -> Option<
    (Seq<DBValueView>, int),
>
    decreases s.len() - pos, count,
{
    if count <= 0 {
        Some((Seq::<DBValueView>::empty(), pos))
    } else {
        match spec_decode_value(s, pos) {
            Some((v, p2)) => if pos < p2 <= s.len() {
                match spec_decode_values(s, p2, count - 1) {
                    Some((rest, end)) => Some((seq![v] + rest, end)),
                    Option::None => Option::None,
                }
            } else {
                Option::None
            },
            Option::None => Option::None,
        }
    }
}

/// Read `count` serialized members one after the other, starting at `pos`:
/// each is a key, then a value.
pub open spec fn spec_decode_pairs(s: Seq<u8>, pos: int, count: int) -> Option<
    (Seq<(Seq<char>, DBValueView)>, int),
>
    decreases s.len() - pos, count,
{
    if count <= 0 {
        Some((Seq::<(Seq<char>, DBValueView)>::empty(), pos))
    } else {
        match spec_decode_str(s, pos) {
            Some((key, p2)) => if pos < p2 <= s.len() {
                match spec_decode_value(s, p2) {
                    Some((v, p3)) => if p2 < p3 <= s.len() {
                        match spec_decode_pairs(s, p3, count - 1) {
                            Some((rest, end)) => Some((seq![(key, v)] + rest, end)),
                            Option::None => Option::None,
                        }
                    } else {
                        Option::None
                    },
                    Option::None => Option::None,
                }
            } else {
                Option::None
            },
            Option::None => Option::None,
        }
    }
}

/// Read a text run at `pos`.
#[verifier::loop_isolation(false)]
pub fn decode_str(buf: &[u8], pos: usize) -> (r: Option<(String, usize)>)
    ensures
        match spec_decode_str(buf@, pos as int) {
            Some((cs, end)) => r matches Some(p) && p.0@ == cs && p.1 == end,
            Option::None => r is None,
        },
{
    match read_u64_le(buf, pos) {
        Option::None => Option::None,
        Some((n, p2)) => {
            if n > (buf.len() - p2) as u64 {
                return Option::None;
            }
            let take = n as usize;
            let bytes = copy_range(buf, p2, p2 + take);
            match bytes_to_string(bytes) {
                Some(s) => Some((s, p2 + take)),
                Option::None => Option::None,
            }
        },
    }
}

impl DBValue {
    /// Read one serialized value at `pos`; the position after it comes back
    /// with the value.
    #[verifier::loop_isolation(false)]
    pub fn decode(buf: &[u8], pos: usize) -> (r: Option<(DBValue, usize)>)
        ensures
            match spec_decode_value(buf@, pos as int) {
                Some((w, end)) => r matches Some(p) && p.0@ == w && p.1 == end,
                Option::None => r is None,
            },
        decreases buf@.len() - pos,
    {
        if pos >= buf.len() {
            return Option::None;
        }
        let tag = buf[pos];
        if tag == TAG_NONE {
            Some((DBValue::Nil, pos + 1))
        } else if tag == TAG_BOOLEAN {
            if pos + 1 < buf.len() {
                let b = buf[pos + 1];
                if b == 1 {
                    Some((DBValue::Boolean(true), pos + 2))
                } else if b == 0 {
                    Some((DBValue::Boolean(false), pos + 2))
                } else {
                    Option::None
                }
            } else {
                Option::None
            }
        } else if tag == TAG_STRING {
            match decode_str(buf, pos + 1) {
                Some((s, end)) => Some((DBValue::String(s), end)),
                Option::None => Option::None,
            }
        } else if tag == TAG_BYTES {
            match read_u64_le(buf, pos + 1) {
                Option::None => Option::None,
                Some((n, p2)) => {
                    if n > (buf.len() - p2) as u64 {
                        return Option::None;
                    }
                    let take = n as usize;
                    let bytes = copy_range(buf, p2, p2 + take);
                    Some((DBValue::Bytes(bytes), p2 + take))
                },
            }
        } else if tag == TAG_LIST {
            match read_u64_le(buf, pos + 1) {
                Option::None => Option::None,
                Some((n, start)) => {
                    let ghost s = buf@;
                    let mut items: Vec<DBValue> = Vec::new();
                    let mut p: usize = start;
                    let mut i: u64 = 0;
                    proof {
                        assert(view_of_values(items@) =~= Seq::<DBValueView>::empty());
                        match spec_decode_values(s, start as int, n as int) {
                            Some((rest, end)) => {
                                assert(Seq::<DBValueView>::empty() + rest =~= rest);
                            },
                            Option::None => {},
                        }
                    }
                    while i < n
                        invariant
                            start <= p <= buf@.len(),
                            start as int == pos + 9,
                            i <= n,
                            ({
                                let tail = spec_decode_values(s, p as int, n as int - i);
                                let whole = spec_decode_values(s, start as int, n as int);
                                match tail {
                                    Some((rest, end)) => whole == Some(
                                        (view_of_values(items@) + rest, end),
                                    ),
                                    Option::None => whole is None,
                                }
                            }),
                        decreases n - i,
                    {
                        match DBValue::decode(buf, p) {
                            Option::None => {
                                return Option::None;
                            },
                            Some((v, p3)) => {
                                if p3 <= p || p3 > buf.len() {
                                    return Option::None;
                                }
                                let ghost old_items = items@;
                                let ghost vsnap = v;
                                items.push(v);
                                proof {
                                    crate::db::dbvalue::lemma_view_of_values_push(
                                        old_items,
                                        vsnap,
                                    );
                                    let tail2 = spec_decode_values(
                                        s,
                                        p3 as int,
                                        n as int - (i + 1),
                                    );
                                    match tail2 {
                                        Some((rest2, end)) => {
                                            assert(view_of_values(old_items) + (seq![vsnap@]
                                                + rest2) =~= view_of_values(items@) + rest2);
                                        },
                                        Option::None => {},
                                    }
                                }
                                p = p3;
                                i = i + 1;
                            },
                        }
                    }
                    proof {
                        match spec_decode_values(s, start as int, n as int) {
                            Some((rest, end)) => {
                                assert(view_of_values(items@) + Seq::<DBValueView>::empty()
                                    =~= view_of_values(items@));
                            },
                            Option::None => {},
                        }
                    }
                    Some((DBValue::List(items), p))
                },
            }
        } else if tag == TAG_HASH {
            match read_u64_le(buf, pos + 1) {
                Option::None => Option::None,
                Some((n, start)) => {
                    let ghost s = buf@;
                    let mut members: Vec<(String, DBValue)> = Vec::new();
                    let mut p: usize = start;
                    let mut i: u64 = 0;
                    proof {
                        assert(view_of_pairs(members@) =~= Seq::<
                            (Seq<char>, DBValueView),
                        >::empty());
                        match spec_decode_pairs(s, start as int, n as int) {
                            Some((rest, end)) => {
                                assert(Seq::<(Seq<char>, DBValueView)>::empty() + rest =~= rest);
                            },
                            Option::None => {},
                        }
                    }
                    while i < n
                        invariant
                            start <= p <= buf@.len(),
                            start as int == pos + 9,
                            i <= n,
                            ({
                                let tail = spec_decode_pairs(s, p as int, n as int - i);
                                let whole = spec_decode_pairs(s, start as int, n as int);
                                match tail {
                                    Some((rest, end)) => whole == Some(
                                        (view_of_pairs(members@) + rest, end),
                                    ),
                                    Option::None => whole is None,
                                }
                            }),
                        decreases n - i,
                    {
                        match decode_str(buf, p) {
                            Option::None => {
                                return Option::None;
                            },
                            Some((key, p2)) => {
                                if p2 <= p || p2 > buf.len() {
                                    return Option::None;
                                }
                                match DBValue::decode(buf, p2) {
                                    Option::None => {
                                        return Option::None;
                                    },
                                    Some((v, p3)) => {
                                        if p3 <= p2 || p3 > buf.len() {
                                            return Option::None;
                                        }
                                        let ghost old_members = members@;
                                        let entry = (key, v);
                                        let ghost snap = entry;
                                        members.push(entry);
                                        proof {
                                            crate::db::dbvalue::lemma_view_of_pairs_push(
                                                old_members,
                                                snap,
                                            );
                                            let tail2 = spec_decode_pairs(
                                                s,
                                                p3 as int,
                                                n as int - (i + 1),
                                            );
                                            match tail2 {
                                                Some((rest2, end)) => {
                                                    assert(view_of_pairs(old_members) + (seq![
                                                        (snap.0@, snap.1@),
                                                    ] + rest2) =~= view_of_pairs(members@)
                                                        + rest2);
                                                },
                                                Option::None => {},
                                            }
                                        }
                                        p = p3;
                                        i = i + 1;
                                    },
                                }
                            },
                        }
                    }
                    proof {
                        match spec_decode_pairs(s, start as int, n as int) {
                            Some((rest, end)) => {
                                assert(view_of_pairs(members@) + Seq::<
                                    (Seq<char>, DBValueView),
                                >::empty() =~= view_of_pairs(members@));
                            },
                            Option::None => {},
                        }
                    }
                    Some((DBValue::Hash(members), p))
                },
            }
        } else {
            Option::None
        }
    }
}

/// Whether a value's counted parts all fit the 64-bit lengths the wire
/// carries; every value built from in-memory vectors does.
pub open spec fn spec_bounded(v: DBValueView) -> bool
    decreases v, 1int,
{
    match v {
        DBValueView::Nil => true,
        DBValueView::Boolean(_) => true,
        DBValueView::String(s) => encode_utf8(s).len() <= u64::MAX,
        DBValueView::Bytes(b) => b.len() <= u64::MAX,
        DBValueView::List(items) => items.len() <= u64::MAX && spec_all_bounded(items),
        DBValueView::Hash(pairs) => pairs.len() <= u64::MAX && spec_pairs_bounded(pairs),
    }
}

/// Whether every value of a run is bounded.
pub open spec fn spec_all_bounded(items: Seq<DBValueView>) -> bool
    decreases items, 0int,
    via spec_all_bounded_decreases
{
    if items.len() == 0 {
        true
    } else {
        spec_bounded(items[0]) && spec_all_bounded(items.drop_first())
    }
}

/// Whether every member of a run is bounded.
pub open spec fn spec_pairs_bounded(pairs: Seq<(Seq<char>, DBValueView)>) -> bool
    decreases pairs, 0int,
    via spec_pairs_bounded_decreases
{
    if pairs.len() == 0 {
        true
    } else {
        encode_utf8(pairs[0].0).len() <= u64::MAX && spec_bounded(pairs[0].1)
            && spec_pairs_bounded(pairs.drop_first())
    }
}

#[via_fn]
proof fn spec_all_bounded_decreases(items: Seq<DBValueView>) {
    if items.len() != 0 {
        assert(decreases_to!(items => items[0]));
        vstd::seq::axiom_seq_len_decreases(items, items.drop_first());
    }
}

#[via_fn]
proof fn spec_pairs_bounded_decreases(pairs: Seq<(Seq<char>, DBValueView)>) {
    if pairs.len() != 0 {
        assert(decreases_to!(pairs => pairs[0]));
        assert(decreases_to!(pairs[0] => pairs[0].1));
        vstd::seq::axiom_seq_len_decreases(pairs, pairs.drop_first());
    }
}

/// A serialized value occupies at least its tag byte.
pub proof fn lemma_encode_value_len(v: DBValueView)
    ensures
        spec_encode_value(v).len() >= 1,
{
}

/// Eight little-endian bytes sitting in a buffer read back as the number
/// they were made from.
pub proof fn lemma_read_u64_at(s: Seq<u8>, pos: int, n: u64)
    requires
        0 <= pos,
        pos + 8 <= s.len(),
        s.subrange(pos, pos + 8) == spec_u64_le(n),
    ensures
        spec_read_u64(s, pos) == Some((n, pos + 8)),
{
    assert forall|j: int| 0 <= j < 8 implies s[pos + j] == spec_u64_le(n)[j] by {
        assert(s.subrange(pos, pos + 8)[j] == s[pos + j]);
    }
    crate::wire::lemma_u64_le_roundtrip(n);
}

/// A serialized text run sitting in a buffer decodes back to its
/// characters and ends exactly where the encoding ends.
pub proof fn lemma_decode_encode_str(cs: Seq<char>, s: Seq<u8>, pos: int)
    requires
        0 <= pos,
        encode_utf8(cs).len() <= u64::MAX,
        pos + spec_encode_str(cs).len() <= s.len(),
        s.subrange(pos, pos + spec_encode_str(cs).len()) == spec_encode_str(cs),
    ensures
        spec_decode_str(s, pos) == Some((cs, pos + spec_encode_str(cs).len())),
{
    let bytes = encode_utf8(cs);
    let n = bytes.len() as u64;
    let total = spec_encode_str(cs).len();
    assert(total == 8 + bytes.len());
    assert(s.subrange(pos, pos + 8) =~= spec_u64_le(n)) by {
        assert forall|j: int| 0 <= j < 8 implies s.subrange(pos, pos + 8)[j] == spec_u64_le(
            n,
        )[j] by {
            assert(s.subrange(pos, pos + total as int)[j] == s[pos + j]);
            assert(spec_encode_str(cs)[j] == spec_u64_le(n)[j]);
            assert(s.subrange(pos, pos + 8)[j] == s[pos + j]);
        }
    }
    lemma_read_u64_at(s, pos, n);
    assert(s.subrange(pos + 8, pos + 8 + n as int) =~= bytes) by {
        assert forall|j: int| 0 <= j < bytes.len() implies s.subrange(
            pos + 8,
            pos + 8 + n as int,
        )[j] == bytes[j] by {
            assert(s.subrange(pos, pos + total as int)[8 + j] == s[pos + 8 + j]);
            assert(spec_encode_str(cs)[8 + j] == bytes[j]);
            assert(s.subrange(pos + 8, pos + 8 + n as int)[j] == s[pos + 8 + j]);
        }
    }
    vstd::utf8::encode_utf8_valid_utf8(cs);
    vstd::utf8::encode_utf8_decode_utf8(cs);
}

/// One byte of a run that sits inside a buffer equals the buffer's byte.
pub proof fn lemma_subrange_index(s: Seq<u8>, pos: int, enc: Seq<u8>, j: int)
    requires
        0 <= pos,
        pos + enc.len() <= s.len(),
        s.subrange(pos, pos + enc.len()) == enc,
        0 <= j < enc.len(),
    ensures
        s[pos + j] == enc[j],
{
    assert(s.subrange(pos, pos + enc.len() as int)[j] == s[pos + j]);
}

/// A serialized value sitting in a buffer decodes back to the value and
/// ends exactly where the encoding ends.
#[verifier::rlimit(100)]
pub proof fn lemma_decode_encode_value(v: DBValueView, s: Seq<u8>, pos: int)
    requires
        spec_bounded(v),
        0 <= pos,
        pos + spec_encode_value(v).len() <= s.len(),
        s.subrange(pos, pos + spec_encode_value(v).len()) == spec_encode_value(v),
    ensures
        spec_decode_value(s, pos) == Some((v, pos + spec_encode_value(v).len())),
    decreases v, 1int,
{
    let enc = spec_encode_value(v);
    match v {
        DBValueView::Nil => {
            assert(enc =~= seq![TAG_NONE]);
            lemma_subrange_index(s, pos, enc, 0);
            assert(s[pos] == TAG_NONE);
        },
        DBValueView::Boolean(b) => {
            lemma_subrange_index(s, pos, enc, 0);
            lemma_subrange_index(s, pos, enc, 1);
            assert(s[pos] == TAG_BOOLEAN);
            assert(s[pos + 1] == enc[1]);
        },
        DBValueView::String(cs) => {
            let body = spec_encode_str(cs);
            assert(enc == seq![TAG_STRING] + body);
            lemma_subrange_index(s, pos, enc, 0);
            assert(enc[0] == TAG_STRING);
            assert(s.subrange(pos + 1, pos + 1 + body.len() as int) =~= body) by {
                assert forall|j: int| 0 <= j < body.len() implies s.subrange(
                    pos + 1,
                    pos + 1 + body.len() as int,
                )[j] == body[j] by {
                    lemma_subrange_index(s, pos, enc, j + 1);
                    assert((seq![TAG_STRING] + body)[j + 1] == body[j]);
                }
            }
            lemma_decode_encode_str(cs, s, pos + 1);
        },
        DBValueView::Bytes(b) => {
            let n = b.len() as u64;
            assert(enc == seq![TAG_BYTES] + spec_u64_le(n) + b);
            lemma_subrange_index(s, pos, enc, 0);
            assert(enc[0] == TAG_BYTES);
            assert(s.subrange(pos + 1, pos + 9) =~= spec_u64_le(n)) by {
                assert forall|j: int| 0 <= j < 8 implies s.subrange(pos + 1, pos + 9)[j]
                    == spec_u64_le(n)[j] by {
                    lemma_subrange_index(s, pos, enc, j + 1);
                    assert((seq![TAG_BYTES] + spec_u64_le(n) + b)[j + 1] == spec_u64_le(n)[j]);
                }
            }
            lemma_read_u64_at(s, pos + 1, n);
            assert(s.subrange(pos + 9, pos + 9 + n as int) =~= b) by {
                assert forall|j: int| 0 <= j < b.len() implies s.subrange(
                    pos + 9,
                    pos + 9 + n as int,
                )[j] == b[j] by {
                    lemma_subrange_index(s, pos, enc, j + 9);
                    assert((seq![TAG_BYTES] + spec_u64_le(n) + b)[j + 9] == b[j]);
                }
            }
        },
        DBValueView::List(items) => {
            let n = items.len() as u64;
            let body = spec_encode_values(items);
            assert(enc == seq![TAG_LIST] + spec_u64_le(n) + body);
            lemma_subrange_index(s, pos, enc, 0);
            assert(enc[0] == TAG_LIST);
            assert(s.subrange(pos + 1, pos + 9) =~= spec_u64_le(n)) by {
                assert forall|j: int| 0 <= j < 8 implies s.subrange(pos + 1, pos + 9)[j]
                    == spec_u64_le(n)[j] by {
                    lemma_subrange_index(s, pos, enc, j + 1);
                    assert((seq![TAG_LIST] + spec_u64_le(n) + body)[j + 1] == spec_u64_le(n)[j]);
                }
            }
            lemma_read_u64_at(s, pos + 1, n);
            assert(s.subrange(pos + 9, pos + 9 + body.len() as int) =~= body) by {
                assert forall|j: int| 0 <= j < body.len() implies s.subrange(
                    pos + 9,
                    pos + 9 + body.len() as int,
                )[j] == body[j] by {
                    lemma_subrange_index(s, pos, enc, j + 9);
                    assert((seq![TAG_LIST] + spec_u64_le(n) + body)[j + 9] == body[j]);
                }
            }
            lemma_decode_encode_values(items, s, pos + 9);
        },
        DBValueView::Hash(pairs) => {
            let n = pairs.len() as u64;
            let body = spec_encode_pairs(pairs);
            assert(enc == seq![TAG_HASH] + spec_u64_le(n) + body);
            lemma_subrange_index(s, pos, enc, 0);
            assert(enc[0] == TAG_HASH);
            assert(s.subrange(pos + 1, pos + 9) =~= spec_u64_le(n)) by {
                assert forall|j: int| 0 <= j < 8 implies s.subrange(pos + 1, pos + 9)[j]
                    == spec_u64_le(n)[j] by {
                    lemma_subrange_index(s, pos, enc, j + 1);
                    assert((seq![TAG_HASH] + spec_u64_le(n) + body)[j + 1] == spec_u64_le(n)[j]);
                }
            }
            lemma_read_u64_at(s, pos + 1, n);
            assert(s.subrange(pos + 9, pos + 9 + body.len() as int) =~= body) by {
                assert forall|j: int| 0 <= j < body.len() implies s.subrange(
                    pos + 9,
                    pos + 9 + body.len() as int,
                )[j] == body[j] by {
                    lemma_subrange_index(s, pos, enc, j + 9);
                    assert((seq![TAG_HASH] + spec_u64_le(n) + body)[j + 9] == body[j]);
                }
            }
            lemma_decode_encode_pairs(pairs, s, pos + 9);
        },
    }
}

/// A serialized run of values sitting in a buffer decodes back to the run.
pub proof fn lemma_decode_encode_values(items: Seq<DBValueView>, s: Seq<u8>, pos: int)
    requires
        spec_all_bounded(items),
        items.len() <= u64::MAX,
        0 <= pos,
        pos + spec_encode_values(items).len() <= s.len(),
        s.subrange(pos, pos + spec_encode_values(items).len()) == spec_encode_values(items),
    ensures
        spec_decode_values(s, pos, items.len() as int) == Some(
            (items, pos + spec_encode_values(items).len()),
        ),
    decreases items, 0int,
{
    if items.len() == 0 {
        assert(spec_decode_values(s, pos, 0) == Some((Seq::<DBValueView>::empty(), pos)));
        assert(items =~= Seq::<DBValueView>::empty());
    } else {
        let enc = spec_encode_values(items);
        let first = spec_encode_value(items[0]);
        let rest = spec_encode_values(items.drop_first());
        assert(enc == first + rest);
        assert forall|j: int| 0 <= j < enc.len() implies s[pos + j] == enc[j] by {
            assert(s.subrange(pos, pos + enc.len() as int)[j] == s[pos + j]);
        }
        assert(s.subrange(pos, pos + first.len() as int) =~= first) by {
            assert forall|j: int| 0 <= j < first.len() implies s.subrange(
                pos,
                pos + first.len() as int,
            )[j] == first[j] by {
                assert(s[pos + j] == enc[j]);
                assert(enc[j] == first[j]);
            }
        }
        lemma_decode_encode_value(items[0], s, pos);
        lemma_encode_value_len(items[0]);
        let p2 = pos + first.len();
        assert(s.subrange(p2, p2 + rest.len() as int) =~= rest) by {
            assert forall|j: int| 0 <= j < rest.len() implies s.subrange(
                p2,
                p2 + rest.len() as int,
            )[j] == rest[j] by {
                assert(s[pos + (first.len() + j)] == enc[first.len() + j]);
                assert(enc[first.len() + j] == rest[j]);
            }
        }
        assert(items.drop_first().len() <= u64::MAX);
        lemma_decode_encode_values(items.drop_first(), s, p2);
        assert(seq![items[0]] + items.drop_first() =~= items);
        assert(items.len() as int - 1 == items.drop_first().len() as int);
    }
}

/// A serialized run of members sitting in a buffer decodes back to the
/// run.
pub proof fn lemma_decode_encode_pairs(pairs: Seq<(Seq<char>, DBValueView)>, s: Seq<u8>, pos: int)
    requires
        spec_pairs_bounded(pairs),
        pairs.len() <= u64::MAX,
        0 <= pos,
        pos + spec_encode_pairs(pairs).len() <= s.len(),
        s.subrange(pos, pos + spec_encode_pairs(pairs).len()) == spec_encode_pairs(pairs),
    ensures
        spec_decode_pairs(s, pos, pairs.len() as int) == Some(
            (pairs, pos + spec_encode_pairs(pairs).len()),
        ),
    decreases pairs, 0int,
{
    if pairs.len() == 0 {
        assert(spec_decode_pairs(s, pos, 0) == Some(
            (Seq::<(Seq<char>, DBValueView)>::empty(), pos),
        ));
        assert(pairs =~= Seq::<(Seq<char>, DBValueView)>::empty());
    } else {
        let enc = spec_encode_pairs(pairs);
        let key_enc = spec_encode_str(pairs[0].0);
        let val_enc = spec_encode_value(pairs[0].1);
        let rest = spec_encode_pairs(pairs.drop_first());
        assert(enc == key_enc + val_enc + rest);
        assert forall|j: int| 0 <= j < enc.len() implies s[pos + j] == enc[j] by {
            assert(s.subrange(pos, pos + enc.len() as int)[j] == s[pos + j]);
        }
        assert(s.subrange(pos, pos + key_enc.len() as int) =~= key_enc) by {
            assert forall|j: int| 0 <= j < key_enc.len() implies s.subrange(
                pos,
                pos + key_enc.len() as int,
            )[j] == key_enc[j] by {
                assert(s[pos + j] == enc[j]);
                assert(enc[j] == key_enc[j]);
            }
        }
        lemma_decode_encode_str(pairs[0].0, s, pos);
        let p2 = pos + key_enc.len();
        assert(s.subrange(p2, p2 + val_enc.len() as int) =~= val_enc) by {
            assert forall|j: int| 0 <= j < val_enc.len() implies s.subrange(
                p2,
                p2 + val_enc.len() as int,
            )[j] == val_enc[j] by {
                assert(s[pos + (key_enc.len() + j)] == enc[key_enc.len() + j]);
                assert(enc[key_enc.len() + j] == val_enc[j]);
            }
        }
        lemma_decode_encode_value(pairs[0].1, s, p2);
        lemma_encode_value_len(pairs[0].1);
        let p3 = p2 + val_enc.len();
        assert(s.subrange(p3, p3 + rest.len() as int) =~= rest) by {
            assert forall|j: int| 0 <= j < rest.len() implies s.subrange(
                p3,
                p3 + rest.len() as int,
            )[j] == rest[j] by {
                assert(s[pos + (key_enc.len() + val_enc.len() + j)] == enc[key_enc.len()
                    + val_enc.len() + j]);
                assert(enc[key_enc.len() + val_enc.len() + j] == rest[j]);
            }
        }
        assert(pairs.drop_first().len() <= u64::MAX);
        lemma_decode_encode_pairs(pairs.drop_first(), s, p3);
        assert(seq![pairs[0]] + pairs.drop_first() =~= pairs);
    }
}

/// Serializing a value and reading the bytes back yields the value: the
/// wire form loses nothing.
pub proof fn lemma_value_codec_roundtrip(v: DBValueView)
    requires
        spec_bounded(v),
    ensures
        spec_decode_value(spec_encode_value(v), 0) == Some(
            (v, spec_encode_value(v).len() as int),
        ),
{
    let enc = spec_encode_value(v);
    assert(enc.subrange(0, enc.len() as int) =~= enc);
    lemma_decode_encode_value(v, enc, 0);
}

} // verus!