use vstd::prelude::*;

use crate::config::Config;
use crate::node::{Node, NodeMsg, NodeView};

verus! {

/// The discovery subsystem's identity and settings: it announces this
/// process on the multicast group and turns received announcements into
/// peer records.
pub struct Discover {
    pub cfg: Config,
    pub started: bool,
    pub node_id: u64,
}

impl Discover {
    /// A discovery subsystem announcing under the process's one identity,
    /// the one its settings carry.
    pub fn new(cfg: Config) -> (r: Discover)
        ensures
            !r.started,
            r.cfg == cfg,
            r.node_id == cfg.node_id,
    {
        let node_id = cfg.node_id;
        Discover { cfg, started: false, node_id }
    }

    /// The announcement this process multicasts: its identity and command
    /// port.  The address is left empty; receivers fill it from the
    /// datagram's source.
    pub fn announcement(&self, online: bool) -> (r: NodeMsg)
        ensures
            r.id == self.node_id,
            r.addr@ == Seq::<char>::empty(),
            r.port == self.cfg.listen_port,
            r.online == online,
    {
        proof {
            reveal_strlit("");
        }
        NodeMsg::new(self.node_id, "", self.cfg.listen_port, online)
    }
}

/// The peer record a received announcement stands for: the address comes
/// from the datagram's source, and the record is this process itself
/// exactly when the announced identity is our own.
pub fn node_from_msg(msg: &NodeMsg, source_addr: &str, my_id: u64) -> (r: Node)
    ensures
        r@ == (NodeView {
            addr: source_addr@,
            id: msg.id,
            port: msg.port,
            is_self: msg.id == my_id,
            online: msg.online,
        }),
{
    Node::new(source_addr, msg.id, msg.port, msg.id == my_id, msg.online)
}

} // verus!
