use vstd::prelude::*;

use crate::command::{
    lemma_cmd_id_matches_view, spec_parse_command, spec_view_id, spec_view_type, Command,
    CommandId, CommandInner, CommandType, ExecutableCommand,
};
use crate::db::dbvalue::{DBValue, DBValueView};
use crate::protocol::frame::{spec_frame_views, spec_payload_concat, Frame};
use crate::protocol::head::Head;
use crate::protocol::kind::Kind;
use crate::command::raft::RaftCmd;

verus! {

broadcast use vstd::seq::group_seq_axioms, vstd::std_specs::vec::group_vec_axioms;

/// One consensus transport message on its way to a peer: the destination's
/// identity and the serialized message.
#[derive(Debug)]
pub struct PeerMessage {
    pub to: u64,
    pub data: Vec<u8>,
}

impl View for PeerMessage {
    type V = (u64, Seq<u8>);

    open spec fn view(&self) -> (u64, Seq<u8>) {
        (self.to, self.data@)
    }
}

/// The contents of a run of peer messages.
pub open spec fn view_of_msgs(s: Seq<PeerMessage>) -> Seq<(u64, Seq<u8>)>
    decreases s,
{
    if s.len() == 0 {
        Seq::<(u64, Seq<u8>)>::empty()
    } else {
        seq![s[0]@] + view_of_msgs(s.drop_first())
    }
}

/// A run of peer messages is viewed element by element.
pub proof fn lemma_view_of_msgs_index(s: Seq<PeerMessage>)
    ensures
        view_of_msgs(s).len() == s.len(),
        forall|i: int| 0 <= i < s.len() ==> view_of_msgs(s)[i] == (#[trigger] s[i])@,
    decreases s.len(),
{
    if s.len() > 0 {
        lemma_view_of_msgs_index(s.drop_first());
        assert(view_of_msgs(s) == seq![s[0]@] + view_of_msgs(s.drop_first()));
        assert forall|i: int| 0 <= i < s.len() implies view_of_msgs(s)[i] == (#[trigger] s[i])@ by {
            if i > 0 {
                assert(s.drop_first()[i - 1] == s[i]);
                assert(view_of_msgs(s)[i] == view_of_msgs(s.drop_first())[i - 1]);
            }
        }
    }
}

/// The contents of a run of serialized messages.
pub open spec fn view_of_datas(s: Seq<Vec<u8>>) -> Seq<Seq<u8>>
    decreases s,
{
    if s.len() == 0 {
        Seq::<Seq<u8>>::empty()
    } else {
        seq![s[0]@] + view_of_datas(s.drop_first())
    }
}

/// A run of serialized messages is viewed element by element.
pub proof fn lemma_view_of_datas_index(s: Seq<Vec<u8>>)
    ensures
        view_of_datas(s).len() == s.len(),
        forall|i: int| 0 <= i < s.len() ==> view_of_datas(s)[i] == (#[trigger] s[i])@,
    decreases s.len(),
{
    if s.len() > 0 {
        lemma_view_of_datas_index(s.drop_first());
        assert(view_of_datas(s) == seq![s[0]@] + view_of_datas(s.drop_first()));
        assert forall|i: int| 0 <= i < s.len() implies view_of_datas(s)[i] == (#[trigger] s[i])@ by {
            if i > 0 {
                assert(s.drop_first()[i - 1] == s[i]);
                assert(view_of_datas(s)[i] == view_of_datas(s.drop_first())[i - 1]);
            }
        }
    }
}

/// Appending a serialized message appends its view.
pub proof fn lemma_view_of_datas_push(s: Seq<Vec<u8>>, d: Vec<u8>)
    ensures
        view_of_datas(s.push(d)) == view_of_datas(s).push(d@),
{
    lemma_view_of_datas_index(s);
    lemma_view_of_datas_index(s.push(d));
    assert forall|j: int| 0 <= j < s.len() + 1 implies #[trigger] view_of_datas(s.push(d))[j]
        == view_of_datas(s).push(d@)[j] by {
        if j < s.len() {
            assert(s.push(d)[j] == s[j]);
        } else {
            assert(s.push(d)[j] == d);
        }
    }
    assert(view_of_datas(s.push(d)) =~= view_of_datas(s).push(d@));
}

/// The serialized messages bound for one destination, in their original
/// order.
pub open spec fn spec_msgs_for(msgs: Seq<(u64, Seq<u8>)>, to: u64) -> Seq<Seq<u8>>
    decreases msgs.len(),
{
    if msgs.len() == 0 {
        Seq::<Seq<u8>>::empty()
    } else if msgs.last().0 == to {
        spec_msgs_for(msgs.drop_last(), to).push(msgs.last().1)
    } else {
        spec_msgs_for(msgs.drop_last(), to)
    }
}

/// Bucket outbound messages by destination.  Each destination appears in
/// exactly one bucket, holding exactly its messages in their original
/// order, so delivery order is kept per destination.
#[verifier::loop_isolation(false)]
pub fn group_messages(msgs: Vec<PeerMessage>) -> (r: Vec<(u64, Vec<Vec<u8>>)>)
    ensures
        forall|k: int|
            0 <= k < r@.len() ==> (#[trigger] r@[k]).1@.len() >= 1 && view_of_datas(r@[k].1@)
                == spec_msgs_for(view_of_msgs(msgs@), r@[k].0),
        forall|k1: int, k2: int|
            0 <= k1 < k2 < r@.len() ==> (#[trigger] r@[k1]).0 != (#[trigger] r@[k2]).0,
        forall|to: u64|
            spec_msgs_for(view_of_msgs(msgs@), to).len() > 0 ==> exists|k: int|
                0 <= k < r@.len() && (#[trigger] r@[k]).0 == to,
{
    let ghost all = view_of_msgs(msgs@);
    proof {
        lemma_view_of_msgs_index(msgs@);
        vstd::std_specs::vec::axiom_spec_len(&msgs);
        assert(all.len() <= usize::MAX);
    }
    let mut rest = msgs;
    let mut out: Vec<(u64, Vec<Vec<u8>>)> = Vec::new();
    let mut done: usize = 0;
    proof {
        assert(all.subrange(0, 0) =~= Seq::<(u64, Seq<u8>)>::empty());
        assert(view_of_msgs(rest@) =~= all.subrange(0, all.len() as int));
    }
    while rest.len() > 0
        invariant
            all.len() <= usize::MAX,
            done + rest@.len() == all.len(),
            view_of_msgs(rest@) == all.subrange(done as int, all.len() as int),
            forall|k: int|
                0 <= k < out@.len() ==> (#[trigger] out@[k]).1@.len() >= 1 && view_of_datas(
                    out@[k].1@,
                ) == spec_msgs_for(all.subrange(0, done as int), out@[k].0),
            forall|k1: int, k2: int|
                0 <= k1 < k2 < out@.len() ==> (#[trigger] out@[k1]).0 != (#[trigger] out@[k2]).0,
            forall|to: u64|
                spec_msgs_for(all.subrange(0, done as int), to).len() > 0 ==> exists|k: int|
                    0 <= k < out@.len() && (#[trigger] out@[k]).0 == to,
        decreases rest@.len(),
    {
        let ghost pre = all.subrange(0, done as int);
        let ghost rest0 = rest@;
        proof {
            lemma_view_of_msgs_index(rest0);
        }
        let msg = rest.remove(0);
        proof {
            assert(view_of_msgs(rest0)[0] == msg@);
            assert(msg@ == all[done as int]);
            assert(view_of_msgs(rest@) =~= view_of_msgs(rest0).drop_first()) by {
                lemma_view_of_msgs_index(rest0);
                lemma_view_of_msgs_index(rest@);
                assert(rest@ =~= rest0.drop_first());
                assert forall|i: int|
                    0 <= i < rest@.len() implies view_of_msgs(rest@)[i] == view_of_msgs(
                    rest0,
                ).drop_first()[i] by {
                    assert(view_of_msgs(rest@)[i] == rest@[i]@);
                    assert(rest0.drop_first()[i] == rest0[i + 1]);
                }
            }
            assert(view_of_msgs(rest@) =~= all.subrange(done + 1, all.len() as int));
            let pre2 = all.subrange(0, done + 1);
            assert(pre2.drop_last() =~= pre);
            assert(pre2.last() == all[done as int]);
        }
        let to = msg.to;
        let data = msg.data;
        let ghost pre2 = all.subrange(0, done + 1);
        let mut k: usize = 0;
        let mut found: bool = false;
        while k < out.len() && !found
            invariant
                k <= out@.len(),
                !found ==> forall|j: int| 0 <= j < k ==> (#[trigger] out@[j]).0 != to,
                found ==> k < out@.len() && out@[k as int].0 == to,
            decreases
                    out@.len() - k + (if found {
                        0int
                    } else {
                        1int
                    }),
        {
            if out[k].0 == to {
                found = true;
            } else {
                k = k + 1;
            }
        }
        if found {
            let ghost out0 = out@;
            let mut entry = out.remove(k);
            let ghost datas0 = entry.1@;
            entry.1.push(data);
            proof {
                lemma_view_of_datas_push(datas0, entry.1@[datas0.len() as int]);
                assert(entry.1@ =~= datas0.push(entry.1@[datas0.len() as int]));
            }
            let ghost entry_snap = entry;
            out.push(entry);
            proof {
                assert(out@ =~= out0.remove(k as int).push(entry_snap));
                assert(entry_snap.0 == to);
                assert(view_of_datas(entry_snap.1@) == view_of_datas(out0[k as int].1@).push(
                    pre2.last().1,
                ));
                assert(spec_msgs_for(pre2, to) == spec_msgs_for(pre, to).push(pre2.last().1));
                assert forall|k2: int| 0 <= k2 < out@.len() implies (#[trigger] out@[k2]).1@.len()
                    >= 1 && view_of_datas(out@[k2].1@) == spec_msgs_for(pre2, out@[k2].0) by {
                    if k2 < out@.len() - 1 {
                        let j = if k2 < k {
                            k2
                        } else {
                            k2 + 1
                        };
                        assert(out@[k2] == out0[j]);
                        assert(out0[j].0 != to);
                        assert(spec_msgs_for(pre2, out0[j].0) == spec_msgs_for(pre, out0[j].0));
                    } else {
                        assert(out@[k2] == entry_snap);
                    }
                }
                assert forall|k1: int, k2: int|
                    0 <= k1 < k2 < out@.len() implies (#[trigger] out@[k1]).0 != (
                #[trigger] out@[k2]).0 by {
                    let j1 = if k1 < k {
                        k1
                    } else {
                        k1 + 1
                    };
                    if k2 < out@.len() - 1 {
                        let j2 = if k2 < k {
                            k2
                        } else {
                            k2 + 1
                        };
                        assert(out@[k1] == out0[j1]);
                        assert(out@[k2] == out0[j2]);
                    } else {
                        assert(out@[k1] == out0[j1]);
                        assert(out@[k2] == entry_snap);
                        assert(out0[j1].0 != to);
                    }
                }
                assert forall|to2: u64|
                    spec_msgs_for(pre2, to2).len() > 0 implies exists|k2: int|
                        0 <= k2 < out@.len() && (#[trigger] out@[k2]).0 == to2 by {
                    if to2 == to {
                        assert(out@[out@.len() - 1].0 == to2);
                    } else {
                        assert(spec_msgs_for(pre2, to2) == spec_msgs_for(pre, to2));
                        let w = choose|j: int| 0 <= j < out0.len() && (#[trigger] out0[j]).0
                            == to2;
                        let w2 = if w < k {
                            w
                        } else {
                            w - 1
                        };
                        assert(out@[w2] == out0[w]);
                    }
                }
            }
        } else {
            let mut datas: Vec<Vec<u8>> = Vec::new();
            let ghost dv = data@;
            datas.push(data);
            let entry = (to, datas);
            let ghost entry_snap = entry;
            let ghost out0 = out@;
            out.push(entry);
            proof {
                assert(entry_snap.1@ =~= seq![entry_snap.1@[0]]);
                lemma_view_of_datas_push(Seq::<Vec<u8>>::empty(), entry_snap.1@[0]);
                assert(Seq::<Vec<u8>>::empty().push(entry_snap.1@[0]) =~= entry_snap.1@);
                assert(view_of_datas(entry_snap.1@) =~= seq![dv]);
                assert(spec_msgs_for(pre, to) =~= Seq::<Seq<u8>>::empty()) by {
                    if spec_msgs_for(pre, to).len() > 0 {
                        let w = choose|j: int| 0 <= j < out0.len() && (#[trigger] out0[j]).0
                            == to;
                    }
                }
                assert(spec_msgs_for(pre2, to) =~= seq![dv]);
                assert forall|k2: int| 0 <= k2 < out@.len() implies (#[trigger] out@[k2]).1@.len()
                    >= 1 && view_of_datas(out@[k2].1@) == spec_msgs_for(pre2, out@[k2].0) by {
                    if k2 < out@.len() - 1 {
                        assert(out@[k2] == out0[k2]);
                        assert(out0[k2].0 != to);
                        assert(spec_msgs_for(pre2, out0[k2].0) == spec_msgs_for(
                            pre,
                            out0[k2].0,
                        ));
                    } else {
                        assert(out@[k2] == entry_snap);
                    }
                }
                assert forall|to2: u64|
                    spec_msgs_for(pre2, to2).len() > 0 implies exists|k2: int|
                        0 <= k2 < out@.len() && (#[trigger] out@[k2]).0 == to2 by {
                    if to2 == to {
                        assert(out@[out@.len() - 1].0 == to2);
                    } else {
                        assert(spec_msgs_for(pre2, to2) == spec_msgs_for(pre, to2));
                        let w = choose|j: int| 0 <= j < out0.len() && (#[trigger] out0[j]).0
                            == to2;
                        assert(out@[w] == out0[w]);
                    }
                }
            }
        }
        done = done + 1;
    }
    proof {
        assert(all.subrange(0, all.len() as int) =~= all);
    }
    out
}

/// Whether a proposal may enter the replicated log: only an understood,
/// write-class command that is not itself a consensus envelope.
pub fn should_propose(command: &Command) -> (r: bool)
    ensures
        r == (spec_view_id(command@) != CommandId::Unknown && spec_view_type(command@)
            == CommandType::WRITE && spec_view_id(command@) != CommandId::Raft),
{
    let inner = command.inner_ref();
    proof {
        lemma_cmd_id_matches_view(*inner);
        assert(inner.spec_cmd_type() == spec_view_type(inner@)) by {
            lemma_cmd_id_matches_view(*inner);
        }
    }
    inner.is_valid() && inner.is_write_type() && !inner.is_raft_cmd()
}

/// Whether a membership proposal should be put to the group: only the
/// leader proposes, and only for an identity that is not yet a voter.
pub fn should_add_node(is_leader: bool, voters: &Vec<u64>, node_id: u64) -> (r: bool)
    ensures
        r == (is_leader && !voters@.contains(node_id)),
{
    if !is_leader {
        return false;
    }
    let mut i: usize = 0;
    while i < voters.len()
        invariant
            i <= voters@.len(),
            forall|j: int| 0 <= j < i ==> voters@[j] != node_id,
        decreases voters@.len() - i,
    {
        if voters[i] == node_id {
            assert(voters@[i as int] == node_id);
            return false;
        }
        i = i + 1;
    }
    assert(!voters@.contains(node_id));
    true
}

/// The kind of one committed log entry, as the consensus library reports
/// it.
#[derive(PartialEq, Eq, Clone, Copy, Debug, Structural)]
pub enum EntryKind {
    /// An ordinary entry carrying a serialized command.
    Normal,
    /// A membership change.
    ConfChange,
}

/// What the apply step does with one committed entry.
pub enum EntryAction {
    /// Nothing: an empty entry is a new leader's sentinel, and anything
    /// that is not an applicable write is ignored.
    Skip,
    /// Apply the membership change to the consensus state.
    ApplyConfChange,
    /// Post this write command to the store's apply queue.
    Apply(Command),
}

/// Decide what one committed entry does.  Empty entries are skipped;
/// membership changes go to the consensus state; an ordinary entry is
/// applied exactly when it decodes to an understood, write-class command
/// that is not a consensus envelope.
pub fn classify_entry(kind: EntryKind, data: &[u8]) -> (r: EntryAction)
    ensures
        data@.len() == 0 ==> r is Skip,
        data@.len() > 0 && kind == EntryKind::ConfChange ==> r is ApplyConfChange,
        data@.len() > 0 && kind == EntryKind::Normal ==> ({
            let c = spec_parse_command(data@);
            if spec_view_id(c) != CommandId::Unknown && spec_view_type(c) == CommandType::WRITE
                && spec_view_id(c) != CommandId::Raft {
                r matches EntryAction::Apply(cmd) && cmd@ == c
            } else {
                r is Skip
            }
        }),
{
    if data.len() == 0 {
        return EntryAction::Skip;
    }
    match kind {
        EntryKind::ConfChange => EntryAction::ApplyConfChange,
        EntryKind::Normal => {
            let command = Command::from_payload(data);
            if should_propose(&command) {
                EntryAction::Apply(command)
            } else {
                EntryAction::Skip
            }
        },
    }
}

/// Wrap one serialized peer message as a consensus envelope and chunk it
/// into RAFT frames for the session to the destination.
pub fn encode_raft_frames(data: Vec<u8>, now_ms: u64) -> (r: Vec<Frame>)
    ensures
        r@.len() >= 1,
        forall|i: int|
            0 <= i < r@.len() ==> (#[trigger] r@[i])@.kind == Kind::RAFT && r@[i]@.wf(),
        r@.last()@.head == Head::FIN,
        spec_payload_concat(spec_frame_views(r@)) == crate::command::spec_command_payload(
            crate::command::spec_id_code(CommandId::Raft),
            (now_ms / 1000) as u64,
            ((now_ms % 1000) * 1000000) as u64,
            crate::db::codec::spec_encode_value(DBValueView::Bytes(data@)),
        ),
{
    let command = Command::new(CommandInner::Raft(RaftCmd { body: DBValue::Bytes(data) }));
    match command.encode_to_frames(now_ms) {
        Ok(frames) => frames,
        Err(_) => {
            proof {
                assert(false);
            }
            Vec::new()
        },
    }
}

} // verus!
