use vstd::prelude::*;

use crate::config::Config;

use vstd::string::StringExecFns;

verus! {

broadcast use vstd::seq::group_seq_axioms, vstd::std_specs::vec::group_vec_axioms;

/// The announcement a peer multicasts: its identity, the address it can be
/// reached at (empty on the wire; receivers fill it from the datagram
/// source), its command port, and whether it is online or saying goodbye.
#[derive(Debug)]
pub struct NodeMsg {
    pub id: u64,
    pub addr: String,
    pub port: usize,
    pub online: bool,
}

impl NodeMsg {
    pub fn new(id: u64, addr: &str, port: usize, online: bool) -> (r: Self)
        ensures
            r.id == id,
            r.addr@ == addr@,
            r.port == port,
            r.online == online,
    {
        NodeMsg { id, addr: addr.to_owned(), port, online }
    }
}

/// A known peer process: its identity, where to dial it, whether it is this
/// process itself, and whether it is online.
#[derive(Debug)]
pub struct Node {
    pub addr: String,
    pub id: u64,
    pub port: usize,
    pub is_self: bool,
    pub online: bool,
}

/// The mathematical content of a peer entry.
#[verifier::ext_equal]
pub struct NodeView {
    pub addr: Seq<char>,
    pub id: u64,
    pub port: usize,
    pub is_self: bool,
    pub online: bool,
}

impl View for Node {
    type V = NodeView;

    open spec fn view(&self) -> NodeView {
        NodeView {
            addr: self.addr@,
            id: self.id,
            port: self.port,
            is_self: self.is_self,
            online: self.online,
        }
    }
}

impl Clone for Node {
    fn clone(&self) -> (r: Self)
        ensures
            r@ == self@,
    {
        Node {
            addr: self.addr.clone(),
            id: self.id,
            port: self.port,
            is_self: self.is_self,
            online: self.online,
        }
    }
}

impl Node {
    pub fn new(addr: &str, id: u64, port: usize, is_self: bool, online: bool) -> (r: Self)
        ensures
            r@ == (NodeView { addr: addr@, id, port, is_self, online }),
    {
        Node { id, addr: addr.to_owned(), port, is_self, online }
    }

    /// Where to dial this peer: its address and command port, separated by
    /// a colon.
    pub fn get_connection_endpoint(&self) -> (r: String)
        ensures
            r@ == self.addr@ + seq![':'] + crate::until::spec_dec(self.port as nat),
    {
        let mut s = self.addr.clone();
        s.append(":");
        s.append(crate::until::dec_string(self.port as u64).as_str());
        proof {
            reveal_strlit(":");
            assert(":"@ =~= seq![':']);
            assert(s@ =~= self.addr@ + seq![':'] + crate::until::spec_dec(self.port as nat));
        }
        s
    }
}

/// A request that the consensus group add a peer as a voter.
pub struct ProposalAddNode(pub Node);

/// The contents of a run of peers.
pub open spec fn view_of_nodes(s: Seq<Node>) -> Seq<NodeView>
    decreases s,
{
    if s.len() == 0 {
        Seq::<NodeView>::empty()
    } else {
        seq![s[0]@] + view_of_nodes(s.drop_first())
    }
}

/// A run of peers is viewed element by element.
pub proof fn lemma_view_of_nodes_index(s: Seq<Node>)
    ensures
        view_of_nodes(s).len() == s.len(),
        forall|i: int| 0 <= i < s.len() ==> view_of_nodes(s)[i] == (#[trigger] s[i])@,
    decreases s.len(),
{
    if s.len() > 0 {
        lemma_view_of_nodes_index(s.drop_first());
        assert(view_of_nodes(s) == seq![s[0]@] + view_of_nodes(s.drop_first()));
        assert forall|i: int| 0 <= i < s.len() implies view_of_nodes(s)[i] == (#[trigger] s[i])@ by {
            if i > 0 {
                assert(s.drop_first()[i - 1] == s[i]);
                assert(view_of_nodes(s)[i] == view_of_nodes(s.drop_first())[i - 1]);
            }
        }
    }
}

/// The contents of the table's entries: each peer with its expiry moment.
pub open spec fn view_of_entries(s: Seq<(Node, u128)>) -> Seq<(NodeView, u128)>
    decreases s,
{
    if s.len() == 0 {
        Seq::<(NodeView, u128)>::empty()
    } else {
        seq![(s[0].0@, s[0].1)] + view_of_entries(s.drop_first())
    }
}

/// The table's entries are viewed element by element.
pub proof fn lemma_view_of_entries_index(s: Seq<(Node, u128)>)
    ensures
        view_of_entries(s).len() == s.len(),
        forall|i: int|
            0 <= i < s.len() ==> view_of_entries(s)[i] == ((#[trigger] s[i]).0@, s[i].1),
    decreases s.len(),
{
    if s.len() > 0 {
        lemma_view_of_entries_index(s.drop_first());
        assert(view_of_entries(s) == seq![(s[0].0@, s[0].1)] + view_of_entries(s.drop_first()));
        assert forall|i: int| 0 <= i < s.len() implies view_of_entries(s)[i] == ((
        #[trigger] s[i]).0@, s[i].1) by {
            if i > 0 {
                assert(s.drop_first()[i - 1] == s[i]);
                assert(view_of_entries(s)[i] == view_of_entries(s.drop_first())[i - 1]);
            }
        }
    }
}

/// The position of a peer identity among the entries, or -1 when absent.
pub open spec fn spec_table_index(s: Seq<(NodeView, u128)>, id: u64) -> int
    decreases s.len(),
{
    if s.len() == 0 {
        -1
    } else if s[0].0.id == id {
        0
    } else {
        let r = spec_table_index(s.drop_first(), id);
        if r == -1 {
            -1
        } else {
            r + 1
        }
    }
}

/// Whether the entries hold a peer under the identity.
pub open spec fn spec_table_contains(s: Seq<(NodeView, u128)>, id: u64) -> bool {
    spec_table_index(s, id) != -1
}

/// What the position means: -1 exactly when no entry has the identity, and
/// otherwise the first position whose entry has it.
pub proof fn lemma_table_index_spec(s: Seq<(NodeView, u128)>, id: u64)
    ensures
        spec_table_index(s, id) == -1 ==> forall|j: int|
            0 <= j < s.len() ==> (#[trigger] s[j]).0.id != id,
        spec_table_index(s, id) != -1 ==> 0 <= spec_table_index(s, id) < s.len()
            && s[spec_table_index(s, id)].0.id == id && (forall|j: int|
            0 <= j < spec_table_index(s, id) ==> (#[trigger] s[j]).0.id != id),
    decreases s.len(),
{
    if s.len() > 0 {
        lemma_table_index_spec(s.drop_first(), id);
        assert(forall|j: int|
            0 <= j < s.drop_first().len() ==> #[trigger] s.drop_first()[j] == s[j + 1]);
        if s[0].0.id != id {
            let r = spec_table_index(s.drop_first(), id);
            if r == -1 {
                assert forall|j: int| 0 <= j < s.len() implies (#[trigger] s[j]).0.id != id by {
                    if j > 0 {
                        assert(s.drop_first()[j - 1] == s[j]);
                    }
                }
            } else {
                assert(s[r + 1] == s.drop_first()[r]);
                assert forall|j: int| 0 <= j < r + 1 implies (#[trigger] s[j]).0.id != id by {
                    if j > 0 {
                        assert(s.drop_first()[j - 1] == s[j]);
                    }
                }
            }
        }
    }
}

/// The entries after a liveness report.  A goodbye deletes the peer at
/// once; a fresh peer is appended with its expiry; a known peer keeps its
/// stored record and only has its expiry pushed out.
pub open spec fn spec_ping(s: Seq<(NodeView, u128)>, node: NodeView, expire: u128) -> Seq<
    (NodeView, u128),
> {
    let idx = spec_table_index(s, node.id);
    if !node.online {
        if idx == -1 {
            s
        } else {
            s.remove(idx)
        }
    } else {
        if idx == -1 {
            s.push((node, expire))
        } else {
            s.update(idx, (s[idx].0, expire))
        }
    }
}

/// Whether a peer is present and unexpired at a moment.
pub open spec fn spec_exists(s: Seq<(NodeView, u128)>, id: u64, now: u128) -> bool {
    spec_table_contains(s, id) && s[spec_table_index(s, id)].1 > now
}

/// The entries that survive a sweep at a moment: exactly those whose
/// expiry has not passed.
pub open spec fn spec_prune(s: Seq<(NodeView, u128)>, now: u128) -> Seq<(NodeView, u128)>
    decreases s.len(),
{
    if s.len() == 0 {
        Seq::<(NodeView, u128)>::empty()
    } else if s.last().1 >= now {
        spec_prune(s.drop_last(), now).push(s.last())
    } else {
        spec_prune(s.drop_last(), now)
    }
}

/// The peers other than this process itself, in table order.
pub open spec fn spec_other_nodes(s: Seq<(NodeView, u128)>) -> Seq<NodeView>
    decreases s.len(),
{
    if s.len() == 0 {
        Seq::<NodeView>::empty()
    } else if !s.last().0.is_self {
        spec_other_nodes(s.drop_last()).push(s.last().0)
    } else {
        spec_other_nodes(s.drop_last())
    }
}

/// A well-formed table names each peer identity at most once.
pub open spec fn spec_table_wf(s: Seq<(NodeView, u128)>) -> bool {
    forall|i: int, j: int|
        0 <= i < j < s.len() ==> (#[trigger] s[i]).0.id != (#[trigger] s[j]).0.id
}

/// A liveness report keeps the table well formed.
pub proof fn lemma_ping_preserves_wf(s: Seq<(NodeView, u128)>, node: NodeView, expire: u128)
    requires
        spec_table_wf(s),
    ensures
        spec_table_wf(spec_ping(s, node, expire)),
{
    lemma_table_index_spec(s, node.id);
    let idx = spec_table_index(s, node.id);
    let after = spec_ping(s, node, expire);
    if !node.online {
        if idx != -1 {
            assert forall|i: int, j: int| 0 <= i < j < after.len() implies (
            #[trigger] after[i]).0.id != (#[trigger] after[j]).0.id by {
                let i2 = if i < idx {
                    i
                } else {
                    i + 1
                };
                let j2 = if j < idx {
                    j
                } else {
                    j + 1
                };
                assert(after[i] == s[i2]);
                assert(after[j] == s[j2]);
            }
        }
    } else {
        if idx == -1 {
            assert forall|i: int, j: int| 0 <= i < j < after.len() implies (
            #[trigger] after[i]).0.id != (#[trigger] after[j]).0.id by {
                if j < s.len() {
                    assert(after[i] == s[i]);
                    assert(after[j] == s[j]);
                } else {
                    assert(after[i] == s[i]);
                    assert(after[j] == (node, expire));
                    assert(s[i].0.id != node.id);
                }
            }
        } else {
            assert forall|i: int, j: int| 0 <= i < j < after.len() implies (
            #[trigger] after[i]).0.id != (#[trigger] after[j]).0.id by {
                assert(after[i].0.id == s[i].0.id);
                assert(after[j].0.id == s[j].0.id);
            }
        }
    }
}

/// A sweep keeps the table well formed, and introduces no identity the
/// table did not already hold.
pub proof fn lemma_prune_preserves_wf(s: Seq<(NodeView, u128)>, now: u128)
    requires
        spec_table_wf(s),
    ensures
        spec_table_wf(spec_prune(s, now)),
        forall|j: int|
            0 <= j < spec_prune(s, now).len() ==> exists|i: int|
                0 <= i < s.len() && (#[trigger] spec_prune(s, now)[j]).0.id == s[i].0.id,
    decreases s.len(),
{
    if s.len() > 0 {
        assert(spec_table_wf(s.drop_last())) by {
            assert forall|i: int, j: int|
                0 <= i < j < s.drop_last().len() implies (#[trigger] s.drop_last()[i]).0.id != (
            #[trigger] s.drop_last()[j]).0.id by {
                assert(s.drop_last()[i] == s[i]);
                assert(s.drop_last()[j] == s[j]);
            }
        }
        lemma_prune_preserves_wf(s.drop_last(), now);
        let p = spec_prune(s.drop_last(), now);
        let pruned = spec_prune(s, now);
        if s.last().1 >= now {
            assert(pruned == p.push(s.last()));
            assert forall|i: int, j: int| 0 <= i < j < pruned.len() implies (
            #[trigger] pruned[i]).0.id != (#[trigger] pruned[j]).0.id by {
                if j < p.len() {
                    assert(pruned[i] == p[i]);
                    assert(pruned[j] == p[j]);
                } else {
                    assert(pruned[i] == p[i]);
                    assert(pruned[j] == s.last());
                    let w = choose|w: int|
                        0 <= w < s.drop_last().len() && (#[trigger] p[i]).0.id == s.drop_last()[
                            w
                        ].0.id;
                    assert(s.drop_last()[w] == s[w]);
                    assert(s[w].0.id != s[s.len() - 1].0.id);
                }
            }
            assert forall|j: int| 0 <= j < pruned.len() implies exists|i: int|
                0 <= i < s.len() && (#[trigger] pruned[j]).0.id == s[i].0.id by {
                if j < p.len() {
                    let w = choose|w: int|
                        0 <= w < s.drop_last().len() && (#[trigger] p[j]).0.id == s.drop_last()[
                            w
                        ].0.id;
                    assert(s.drop_last()[w] == s[w]);
                    assert(pruned[j].0.id == s[w].0.id);
                } else {
                    assert(pruned[j].0.id == s[s.len() - 1].0.id);
                }
            }
        } else {
            assert(pruned == p);
            assert forall|j: int| 0 <= j < pruned.len() implies exists|i: int|
                0 <= i < s.len() && (#[trigger] pruned[j]).0.id == s[i].0.id by {
                let w = choose|w: int|
                    0 <= w < s.drop_last().len() && (#[trigger] p[j]).0.id == s.drop_last()[
                        w
                    ].0.id;
                assert(s.drop_last()[w] == s[w]);
            }
        }
    }
}

/// The authoritative set of known peers with their liveness deadlines.
///
/// Membership follows the discovery traffic alone: a peer lives from its
/// first online announcement until an explicit goodbye or until a sweep
/// finds its deadline passed.
pub trait NodeManager: Sized {
    /// The entries: each known peer with its expiry moment.
    spec fn table_view(&self) -> Seq<(NodeView, u128)>;

    /// How long an announcement keeps a peer alive, in milliseconds.
    spec fn ttl_ms(&self) -> u128;

    /// Record a liveness report received at `now`.
    fn ping(&mut self, node: Node, now: u128)
        requires
            now + old(self).ttl_ms() <= u128::MAX,
        ensures
            final(self).table_view() == spec_ping(
                old(self).table_view(),
                node@,
                (now + old(self).ttl_ms()) as u128,
            ),
            final(self).ttl_ms() == old(self).ttl_ms(),
            spec_table_wf(old(self).table_view()) ==> spec_table_wf(final(self).table_view()),
    ;

    /// Whether the peer is known and unexpired at `now`.
    fn exist(&self, id: &u64, now: u128) -> (r: bool)
        ensures
            r == spec_exists(self.table_view(), *id, now),
    ;

    /// Sweep out every entry whose deadline has passed; how many left.
    fn prune(&mut self, now: u128) -> (r: usize)
        ensures
            final(self).table_view() == spec_prune(old(self).table_view(), now),
            r == old(self).table_view().len() - final(self).table_view().len(),
            final(self).ttl_ms() == old(self).ttl_ms(),
            spec_table_wf(old(self).table_view()) ==> spec_table_wf(final(self).table_view()),
    ;

    /// Every known peer other than this process itself.
    fn get_other_nodes(&self) -> (r: Vec<Node>)
        ensures
            view_of_nodes(r@) == spec_other_nodes(self.table_view()),
            forall|i: int| 0 <= i < r@.len() ==> !(#[trigger] r@[i])@.is_self,
    ;

    /// The stored record of the peer with the identity, if any.
    fn get_other_node(&self, id: &u64) -> (r: Option<Node>)
        ensures
            match r {
                Some(n) => spec_table_contains(self.table_view(), *id) && n@ == self.table_view()[
                    spec_table_index(self.table_view(), *id)
                ].0,
                Option::None => !spec_table_contains(self.table_view(), *id),
            },
    ;
}

/// The in-memory peer table.
pub struct NodeTable {
    cfg: Config,
    entries: Vec<(Node, u128)>,
}

impl NodeTable {
    /// An empty table that keeps peers alive for the configured TTL.
    pub fn new(cfg: Config) -> (r: Self)
        ensures
            r.table_view() == Seq::<(NodeView, u128)>::empty(),
            r.ttl_ms() == cfg.disc_multicast_ttl_ms as u128,
            spec_table_wf(r.table_view()),
    {
        let r = NodeTable { cfg, entries: Vec::new() };
        proof {
            assert(r.table_view() =~= Seq::<(NodeView, u128)>::empty());
        }
        r
    }
}

impl NodeManager for NodeTable {
    closed spec fn table_view(&self) -> Seq<(NodeView, u128)> {
        view_of_entries(self.entries@)
    }

    closed spec fn ttl_ms(&self) -> u128 {
        self.cfg.disc_multicast_ttl_ms as u128
    }

    #[verifier::loop_isolation(false)]
    fn ping(&mut self, node: Node, now: u128) {
        proof {
            lemma_view_of_entries_index(self.entries@);
            lemma_table_index_spec(view_of_entries(self.entries@), node.id);
            if spec_table_wf(view_of_entries(self.entries@)) {
                lemma_ping_preserves_wf(
                    view_of_entries(self.entries@),
                    node@,
                    (now + self.cfg.disc_multicast_ttl_ms as u128) as u128,
                );
            }
        }
        let ghost vs = view_of_entries(self.entries@);
        let ghost e0 = self.entries@;
        let expire: u128 = now + self.cfg.disc_multicast_ttl_ms as u128;
        let id = node.id;
        let mut i: usize = 0;
        while i < self.entries.len()
            invariant
                i <= e0.len(),
                self.entries@ == e0,
                self.cfg == old(self).cfg,
                forall|j: int| 0 <= j < i ==> (#[trigger] vs[j]).0.id != id,
            decreases e0.len() - i,
        {
            if self.entries[i].0.id == id {
                proof {
                    lemma_table_index_spec(vs, id);
                    let idx = spec_table_index(vs, id);
                    assert(vs[i as int].0.id == id);
                    if idx == -1 {
                        assert(vs[i as int].0.id != id);
                    } else if idx < i {
                        assert(vs[idx].0.id != id);
                    } else if idx > i {
                        assert(vs[i as int].0.id != id);
                    }
                    assert(idx == i);
                }
                if !node.online {
                    self.entries.remove(i);
                    proof {
                        lemma_view_of_entries_remove(e0, i as int);
                    }
                } else {
                    let kept = self.entries[i].0.clone();
                    let entry = (kept, expire);
                    let ghost snap = entry;
                    self.entries.set(i, entry);
                    proof {
                        lemma_view_of_entries_update(e0, i as int, snap);
                        assert(view_of_entries(self.entries@) =~= spec_ping(
                            vs,
                            node@,
                            expire,
                        ));
                    }
                }
                return ;
            }
            i = i + 1;
        }
        proof {
            lemma_table_index_spec(vs, id);
        }
        if node.online {
            let entry = (node, expire);
            let ghost snap = entry;
            self.entries.push(entry);
            proof {
                lemma_view_of_entries_push(e0, snap);
            }
        }
    }

    #[verifier::loop_isolation(false)]
    fn exist(&self, id: &u64, now: u128) -> (r: bool) {
        proof {
            lemma_view_of_entries_index(self.entries@);
            lemma_table_index_spec(view_of_entries(self.entries@), *id);
        }
        let ghost vs = view_of_entries(self.entries@);
        let mut i: usize = 0;
        while i < self.entries.len()
            invariant
                i <= self.entries@.len(),
                forall|j: int| 0 <= j < i ==> (#[trigger] vs[j]).0.id != *id,
            decreases self.entries@.len() - i,
        {
            if self.entries[i].0.id == *id {
                proof {
                    lemma_table_index_spec(vs, *id);
                    let idx = spec_table_index(vs, *id);
                    assert(vs[i as int].0.id == *id);
                    if idx == -1 {
                        assert(vs[i as int].0.id != *id);
                    } else if idx < i {
                        assert(vs[idx].0.id != *id);
                    } else if idx > i {
                        assert(vs[i as int].0.id != *id);
                    }
                    assert(idx == i);
                }
                return self.entries[i].1 > now;
            }
            i = i + 1;
        }
        proof {
            lemma_table_index_spec(vs, *id);
        }
        false
    }

    #[verifier::loop_isolation(false)]
    fn prune(&mut self, now: u128) -> (r: usize) {
        let ghost e0 = self.entries@;
        proof {
            if spec_table_wf(view_of_entries(e0)) {
                lemma_prune_preserves_wf(view_of_entries(e0), now);
            }
        }
        let mut kept: Vec<(Node, u128)> = Vec::new();
        let mut i: usize = 0;
        proof {
            lemma_view_of_entries_index(e0);
            assert(view_of_entries(kept@) =~= Seq::<(NodeView, u128)>::empty());
            assert(view_of_entries(e0).subrange(0, 0) =~= Seq::<(NodeView, u128)>::empty());
            assert(spec_prune(view_of_entries(e0).subrange(0, 0), now) =~= Seq::<
                (NodeView, u128),
            >::empty());
        }
        while i < self.entries.len()
            invariant
                i <= e0.len(),
                self.entries@ == e0,
                view_of_entries(kept@) == spec_prune(
                    view_of_entries(e0).subrange(0, i as int),
                    now,
                ),
            decreases e0.len() - i,
        {
            let ghost k0 = kept@;
            let ghost pre = view_of_entries(e0).subrange(0, i as int);
            if self.entries[i].1 >= now {
                let entry = (self.entries[i].0.clone(), self.entries[i].1);
                let ghost snap = entry;
                kept.push(entry);
                proof {
                    lemma_view_of_entries_push(k0, snap);
                }
            }
            proof {
                let pre2 = view_of_entries(e0).subrange(0, i + 1);
                assert(pre2.drop_last() =~= pre);
                assert(pre2.last() == view_of_entries(e0)[i as int]);
                assert(view_of_entries(e0)[i as int] == (e0[i as int].0@, e0[i as int].1));
            }
            i = i + 1;
        }
        proof {
            assert(view_of_entries(e0).subrange(0, view_of_entries(e0).len() as int)
                =~= view_of_entries(e0));
            lemma_view_of_entries_index(kept@);
            lemma_prune_len(view_of_entries(e0), now);
            assert(kept@.len() <= e0.len());
        }
        let removed = self.entries.len() - kept.len();
        self.entries = kept;
        removed
    }

    #[verifier::loop_isolation(false)]
    fn get_other_nodes(&self) -> (r: Vec<Node>) {
        let ghost e0 = self.entries@;
        let mut out: Vec<Node> = Vec::new();
        let mut i: usize = 0;
        proof {
            lemma_view_of_entries_index(e0);
            assert(view_of_nodes(out@) =~= Seq::<NodeView>::empty());
            assert(view_of_entries(e0).subrange(0, 0) =~= Seq::<(NodeView, u128)>::empty());
            assert(spec_other_nodes(view_of_entries(e0).subrange(0, 0)) =~= Seq::<
                NodeView,
            >::empty());
        }
        while i < self.entries.len()
            invariant
                i <= e0.len(),
                self.entries@ == e0,
                view_of_nodes(out@) == spec_other_nodes(view_of_entries(e0).subrange(0, i as int)),
                forall|j: int| 0 <= j < out@.len() ==> !(#[trigger] out@[j])@.is_self,
            decreases e0.len() - i,
        {
            let ghost o0 = out@;
            let ghost pre = view_of_entries(e0).subrange(0, i as int);
            if !self.entries[i].0.is_self {
                let copy = self.entries[i].0.clone();
                let ghost snap = copy;
                out.push(copy);
                proof {
                    lemma_view_of_nodes_push(o0, snap);
                }
            }
            proof {
                let pre2 = view_of_entries(e0).subrange(0, i + 1);
                assert(pre2.drop_last() =~= pre);
                assert(pre2.last() == view_of_entries(e0)[i as int]);
                assert(view_of_entries(e0)[i as int] == (e0[i as int].0@, e0[i as int].1));
            }
            i = i + 1;
        }
        proof {
            assert(view_of_entries(e0).subrange(0, view_of_entries(e0).len() as int)
                =~= view_of_entries(e0));
        }
        out
    }

    #[verifier::loop_isolation(false)]
    fn get_other_node(&self, id: &u64) -> (r: Option<Node>) {
        proof {
            lemma_view_of_entries_index(self.entries@);
            lemma_table_index_spec(view_of_entries(self.entries@), *id);
        }
        let ghost vs = view_of_entries(self.entries@);
        let mut i: usize = 0;
        while i < self.entries.len()
            invariant
                i <= self.entries@.len(),
                forall|j: int| 0 <= j < i ==> (#[trigger] vs[j]).0.id != *id,
            decreases self.entries@.len() - i,
        {
            if self.entries[i].0.id == *id {
                proof {
                    lemma_table_index_spec(vs, *id);
                    let idx = spec_table_index(vs, *id);
                    assert(vs[i as int].0.id == *id);
                    if idx == -1 {
                        assert(vs[i as int].0.id != *id);
                    } else if idx < i {
                        assert(vs[idx].0.id != *id);
                    } else if idx > i {
                        assert(vs[i as int].0.id != *id);
                    }
                    assert(idx == i);
                }
                return Some(self.entries[i].0.clone());
            }
            i = i + 1;
        }
        proof {
            lemma_table_index_spec(vs, *id);
        }
        Option::None
    }
}

/// Updating one entry updates its view and no other.
pub proof fn lemma_view_of_entries_update(s: Seq<(Node, u128)>, i: int, p: (Node, u128))
    requires
        0 <= i < s.len(),
    ensures
        view_of_entries(s.update(i, p)) == view_of_entries(s).update(i, (p.0@, p.1)),
{
    lemma_view_of_entries_index(s);
    lemma_view_of_entries_index(s.update(i, p));
    assert forall|j: int| 0 <= j < s.len() implies #[trigger] view_of_entries(s.update(i, p))[j]
        == view_of_entries(s).update(i, (p.0@, p.1))[j] by {
        if j == i {
            assert(s.update(i, p)[j] == p);
        } else {
            assert(s.update(i, p)[j] == s[j]);
        }
    }
    assert(view_of_entries(s.update(i, p)) =~= view_of_entries(s).update(i, (p.0@, p.1)));
}

/// Appending an entry appends its view.
pub proof fn lemma_view_of_entries_push(s: Seq<(Node, u128)>, p: (Node, u128))
    ensures
        view_of_entries(s.push(p)) == view_of_entries(s).push((p.0@, p.1)),
{
    lemma_view_of_entries_index(s);
    lemma_view_of_entries_index(s.push(p));
    assert forall|j: int| 0 <= j < s.len() + 1 implies #[trigger] view_of_entries(s.push(p))[j]
        == view_of_entries(s).push((p.0@, p.1))[j] by {
        if j < s.len() {
            assert(s.push(p)[j] == s[j]);
        } else {
            assert(s.push(p)[j] == p);
        }
    }
    assert(view_of_entries(s.push(p)) =~= view_of_entries(s).push((p.0@, p.1)));
}

/// Removing one entry removes its view and no other.
pub proof fn lemma_view_of_entries_remove(s: Seq<(Node, u128)>, i: int)
    requires
        0 <= i < s.len(),
    ensures
        view_of_entries(s.remove(i)) == view_of_entries(s).remove(i),
{
    lemma_view_of_entries_index(s);
    lemma_view_of_entries_index(s.remove(i));
    assert forall|j: int| 0 <= j < s.len() - 1 implies #[trigger] view_of_entries(s.remove(i))[j]
        == view_of_entries(s).remove(i)[j] by {
        if j < i {
            assert(s.remove(i)[j] == s[j]);
        } else {
            assert(s.remove(i)[j] == s[j + 1]);
        }
    }
    assert(view_of_entries(s.remove(i)) =~= view_of_entries(s).remove(i));
}

/// Appending a peer appends its view.
pub proof fn lemma_view_of_nodes_push(s: Seq<Node>, n: Node)
    ensures
        view_of_nodes(s.push(n)) == view_of_nodes(s).push(n@),
{
    lemma_view_of_nodes_index(s);
    lemma_view_of_nodes_index(s.push(n));
    assert forall|j: int| 0 <= j < s.len() + 1 implies #[trigger] view_of_nodes(s.push(n))[j]
        == view_of_nodes(s).push(n@)[j] by {
        if j < s.len() {
            assert(s.push(n)[j] == s[j]);
        } else {
            assert(s.push(n)[j] == n);
        }
    }
    assert(view_of_nodes(s.push(n)) =~= view_of_nodes(s).push(n@));
}

/// An online report makes the peer exist at once, and it stays alive at
/// any moment before its new deadline.
pub proof fn lemma_ping_online_exists(
    s: Seq<(NodeView, u128)>,
    node: NodeView,
    expire: u128,
    at: u128,
)
    requires
        node.online,
        at < expire,
    ensures
        spec_exists(spec_ping(s, node, expire), node.id, at),
{
    lemma_table_index_spec(s, node.id);
    let idx = spec_table_index(s, node.id);
    let after = spec_ping(s, node, expire);
    lemma_table_index_spec(after, node.id);
    let idx2 = spec_table_index(after, node.id);
    if idx == -1 {
        assert(after == s.push((node, expire)));
        assert(after[s.len() as int] == (node, expire));
        if idx2 == -1 {
            assert(after[s.len() as int].0.id != node.id);
        }
        assert(after[idx2].0.id == node.id);
        assert forall|j: int| 0 <= j < s.len() implies (#[trigger] after[j]).0.id != node.id by {
            assert(after[j] == s[j]);
        }
        assert(idx2 == s.len());
    } else {
        assert(after == s.update(idx, (s[idx].0, expire)));
        assert(after[idx].0.id == node.id);
        if idx2 == -1 {
            assert(after[idx].0.id != node.id);
        }
        assert forall|j: int| 0 <= j < idx implies (#[trigger] after[j]).0.id != node.id by {
            assert(after[j] == s[j]);
        }
        assert(after[idx2].0.id == node.id);
        if idx2 < idx {
            assert(after[idx2] == s[idx2]);
            assert(s[idx2].0.id != node.id);
        }
        if idx2 > idx {
            assert(spec_table_index(after, node.id) <= idx || after[idx].0.id != node.id);
        }
        assert(idx2 == idx);
    }
}

/// A goodbye deletes the peer immediately: it no longer exists at any
/// moment.
pub proof fn lemma_ping_offline_removes(
    s: Seq<(NodeView, u128)>,
    node: NodeView,
    expire: u128,
    at: u128,
)
    requires
        !node.online,
        spec_table_wf(s),
    ensures
        !spec_exists(spec_ping(s, node, expire), node.id, at),
{
    lemma_table_index_spec(s, node.id);
    let idx = spec_table_index(s, node.id);
    let after = spec_ping(s, node, expire);
    lemma_table_index_spec(after, node.id);
    let idx2 = spec_table_index(after, node.id);
    if idx == -1 {
        assert(after == s);
    } else {
        assert(after == s.remove(idx));
        if idx2 != -1 {
            assert(after[idx2].0.id == node.id);
            if idx2 < idx {
                assert(after[idx2] == s[idx2]);
                assert(s[idx2].0.id != node.id);
            } else {
                assert(after[idx2] == s[idx2 + 1]);
                assert(s[idx].0.id == node.id);
                assert(s[idx2 + 1].0.id != s[idx].0.id);
            }
            assert(false);
        }
    }
}

/// After a sweep, an entry whose deadline passed is gone: a peer pinged at
/// `now` does not survive a sweep run later than its deadline.
pub proof fn lemma_prune_expired(s: Seq<(NodeView, u128)>, id: u64, later: u128)
    requires
        forall|j: int| 0 <= j < s.len() && (#[trigger] s[j]).0.id == id ==> s[j].1 < later,
    ensures
        !spec_table_contains(spec_prune(s, later), id),
        spec_table_contains(s, id) ==> spec_prune(s, later).len() < s.len(),
    decreases s.len(),
{
    lemma_table_index_spec(s, id);
    if s.len() == 0 {
        lemma_table_index_spec(spec_prune(s, later), id);
    } else {
        assert forall|j: int|
            0 <= j < s.drop_last().len() && (#[trigger] s.drop_last()[j]).0.id == id implies
            s.drop_last()[j].1 < later by {
            assert(s.drop_last()[j] == s[j]);
        }
        lemma_prune_expired(s.drop_last(), id, later);
        lemma_prune_len(s.drop_last(), later);
        let pruned = spec_prune(s, later);
        lemma_table_index_spec(pruned, id);
        if s.last().1 >= later {
            assert(pruned == spec_prune(s.drop_last(), later).push(s.last()));
            assert(s.last().0.id != id) by {
                if s.last().0.id == id {
                    assert(s[s.len() - 1].1 < later);
                }
            }
            if spec_table_contains(pruned, id) {
                let k = spec_table_index(pruned, id);
                assert(pruned[k].0.id == id);
                if k < pruned.len() - 1 {
                    assert(pruned[k] == spec_prune(s.drop_last(), later)[k]);
                    lemma_table_index_spec(spec_prune(s.drop_last(), later), id);
                    assert(spec_table_contains(spec_prune(s.drop_last(), later), id));
                } else {
                    assert(pruned[k] == s.last());
                }
                assert(false);
            }
            if spec_table_contains(s, id) {
                let m = spec_table_index(s, id);
                assert(s[m].0.id == id);
                assert(m < s.len() - 1);
                assert(s.drop_last()[m] == s[m]);
                lemma_table_index_spec(s.drop_last(), id);
                if spec_table_index(s.drop_last(), id) == -1 {
                    assert(s.drop_last()[m].0.id != id);
                }
                assert(spec_table_contains(s.drop_last(), id));
            }
        } else {
            assert(pruned == spec_prune(s.drop_last(), later));
            if spec_table_contains(s, id) {
                assert(spec_prune(s.drop_last(), later).len() <= s.drop_last().len());
            }
        }
    }
}

/// A sweep never grows the table.
pub proof fn lemma_prune_len(s: Seq<(NodeView, u128)>, now: u128)
    ensures
        spec_prune(s, now).len() <= s.len(),
    decreases s.len(),
{
    if s.len() > 0 {
        lemma_prune_len(s.drop_last(), now);
    }
}

/// The full liveness cycle: a peer reported online at `now` exists at once;
/// if no further report arrives, a sweep run later than its deadline
/// removes it, and removes at least that one entry.
pub proof fn lemma_ping_then_prune(
    s: Seq<(NodeView, u128)>,
    node: NodeView,
    now: u128,
    ttl: u128,
    later: u128,
)
    requires
        node.online,
        1 <= ttl,
        now + ttl <= u128::MAX,
        later > now + ttl,
        spec_table_wf(s),
    ensures
        spec_exists(spec_ping(s, node, (now + ttl) as u128), node.id, now),
        !spec_exists(spec_prune(spec_ping(s, node, (now + ttl) as u128), later), node.id, later),
        spec_prune(spec_ping(s, node, (now + ttl) as u128), later).len() < spec_ping(
            s,
            node,
            (now + ttl) as u128,
        ).len(),
{
    let expire = (now + ttl) as u128;
    lemma_ping_online_exists(s, node, expire, now);
    let pinged = spec_ping(s, node, expire);
    lemma_table_index_spec(s, node.id);
    let idx = spec_table_index(s, node.id);
    assert forall|j: int|
        0 <= j < pinged.len() && (#[trigger] pinged[j]).0.id == node.id implies pinged[j].1
        < later by {
        if idx == -1 {
            assert(pinged == s.push((node, expire)));
            if j < s.len() {
                assert(pinged[j] == s[j]);
                assert(s[j].0.id != node.id);
            } else {
                assert(pinged[j] == (node, expire));
            }
        } else {
            assert(pinged == s.update(idx, (s[idx].0, expire)));
            if j == idx {
                assert(pinged[j].1 == expire);
            } else {
                assert(pinged[j] == s[j]);
                assert(s[idx].0.id == node.id);
                if j < idx {
                    assert(s[j].0.id != s[idx].0.id);
                } else {
                    assert(s[idx].0.id != s[j].0.id);
                }
            }
        }
    }
    lemma_prune_expired(pinged, node.id, later);
    lemma_table_index_spec(pinged, node.id);
    assert(spec_table_contains(pinged, node.id));
}

} // verus!
