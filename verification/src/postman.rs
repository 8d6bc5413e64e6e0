use vstd::prelude::*;

use crate::command::{spec_view_id, Command, CommandId, ExecutableCommand, ProposalCommand};
use crate::node::{Node, ProposalAddNode};

verus! {

/// The bus's named channels.
#[derive(PartialEq, Eq, Clone, Copy, Debug, Hash, Structural)]
pub enum Channel {
    /// Write commands on their way to the store's apply loop.
    DbCmdReq,
    /// Consensus transport messages from peers to the local consensus loop.
    RaftMsg,
    /// Local requests to append to the replicated log.
    RaftProposal,
    /// Peer announcements from the discovery listener.
    Discover,
}

/// Anything the bus can carry knows which channel it belongs on.
pub trait LetterMessage: Sized {
    /// The channel this message belongs on.
    spec fn spec_channel(&self) -> Channel;

    /// The channel this message belongs on.
    fn channel(&self) -> (r: Channel)
        ensures
            r == self.spec_channel(),
    ;
}

impl LetterMessage for Command {
    open spec fn spec_channel(&self) -> Channel {
        if spec_view_id(self@) == CommandId::Raft {
            Channel::RaftMsg
        } else {
            Channel::DbCmdReq
        }
    }

    fn channel(&self) -> Channel {
        let inner = self.inner_ref();
        proof {
            crate::command::lemma_cmd_id_matches_view(*inner);
        }
        if inner.is_raft_cmd() {
            Channel::RaftMsg
        } else {
            Channel::DbCmdReq
        }
    }
}

impl LetterMessage for Node {
    open spec fn spec_channel(&self) -> Channel {
        Channel::Discover
    }

    fn channel(&self) -> Channel {
        Channel::Discover
    }
}

impl LetterMessage for ProposalAddNode {
    open spec fn spec_channel(&self) -> Channel {
        Channel::RaftProposal
    }

    fn channel(&self) -> Channel {
        Channel::RaftProposal
    }
}

impl LetterMessage for ProposalCommand {
    open spec fn spec_channel(&self) -> Channel {
        Channel::RaftProposal
    }

    fn channel(&self) -> Channel {
        Channel::RaftProposal
    }
}

/// One message on the bus, of any of the kinds the subsystems exchange.
pub enum Letter {
    Cmd(Command),
    Peer(Node),
    AddNode(ProposalAddNode),
    Proposal(ProposalCommand),
}

impl LetterMessage for Letter {
    open spec fn spec_channel(&self) -> Channel {
        match self {
            Letter::Cmd(c) => c.spec_channel(),
            Letter::Peer(n) => n.spec_channel(),
            Letter::AddNode(p) => p.spec_channel(),
            Letter::Proposal(p) => p.spec_channel(),
        }
    }

    fn channel(&self) -> Channel {
        match self {
            Letter::Cmd(c) => c.channel(),
            Letter::Peer(n) => n.channel(),
            Letter::AddNode(p) => p.channel(),
            Letter::Proposal(p) => p.channel(),
        }
    }
}

/// A message together with nothing else; kept for callers that want to
/// wrap their payloads.
pub struct Envelope<T> {
    pub inner: T,
}

/// The consumer endpoint of one registered channel.
pub struct Receiver {
    pub channel: Channel,
}

struct ChannelQueue {
    capacity: usize,
    items: Vec<Letter>,
}

/// What a send came to: delivered in FIFO order; refused outright because
/// the channel is unregistered; or handed back because the channel is
/// full, so the sender must hold the message and try again once the
/// consumer has drained -- the bus itself never drops a message bound for
/// a registered channel.
pub enum SendOutcome {
    Delivered,
    NotDelivered,
    Full(Letter),
}

/// The process-wide typed message bus.
///
/// Each named channel is registered at most once; registration yields the
/// one consumer endpoint.  A send routes by the channel the message names:
/// a registered channel with room takes the message in FIFO order; an
/// unregistered channel reports it undelivered at once; a full channel
/// hands it back for the sender to retry, which is how the bounded queues
/// put back-pressure on producers.
pub struct Postman {
    db_cmd: Option<ChannelQueue>,
    raft_msg: Option<ChannelQueue>,
    raft_proposal: Option<ChannelQueue>,
    discover: Option<ChannelQueue>,
}

impl Postman {
    /// The slot for a channel.
    closed spec fn slot(&self, c: Channel) -> Option<ChannelQueue> {
        match c {
            Channel::DbCmdReq => self.db_cmd,
            Channel::RaftMsg => self.raft_msg,
            Channel::RaftProposal => self.raft_proposal,
            Channel::Discover => self.discover,
        }
    }

    /// Whether the channel has been registered.
    pub closed spec fn spec_registered(&self, c: Channel) -> bool {
        self.slot(c) is Some
    }

    /// The channel's capacity.
    pub closed spec fn spec_capacity(&self, c: Channel) -> usize {
        self.slot(c)->Some_0.capacity
    }

    /// The messages waiting on the channel, oldest first.
    pub closed spec fn spec_queue(&self, c: Channel) -> Seq<Letter> {
        self.slot(c)->Some_0.items@
    }

    /// A bus with no channel registered yet.
    pub fn new() -> (r: Self)
        ensures
            forall|c: Channel| !(#[trigger] r.spec_registered(c)),
    {
        Postman {
            db_cmd: Option::None,
            raft_msg: Option::None,
            raft_proposal: Option::None,
            discover: Option::None,
        }
    }

    /// Register a channel.  The first registration creates the queue and
    /// hands back the consumer endpoint; any further registration of the
    /// same channel is refused.
    pub fn new_channel(&mut self, channel: Channel, buf_size: usize) -> (r: Option<Receiver>)
        ensures
            old(self).spec_registered(channel) ==> r is None && *final(self) == *old(self),
            !old(self).spec_registered(channel) ==> (r matches Some(rx) && rx.channel == channel
                && final(self).spec_registered(channel) && final(self).spec_capacity(channel)
                == buf_size && final(self).spec_queue(channel) == Seq::<Letter>::empty()),
            forall|c: Channel|
                c != channel ==> #[trigger] final(self).spec_registered(c) == old(
                    self,
                ).spec_registered(c) && final(self).spec_queue(c) == old(self).spec_queue(c)
                    && final(self).spec_capacity(c) == old(self).spec_capacity(c),
    {
        let registered = match channel {
            Channel::DbCmdReq => self.db_cmd.is_some(),
            Channel::RaftMsg => self.raft_msg.is_some(),
            Channel::RaftProposal => self.raft_proposal.is_some(),
            Channel::Discover => self.discover.is_some(),
        };
        if registered {
            return Option::None;
        }
        let queue = ChannelQueue { capacity: buf_size, items: Vec::new() };
        match channel {
            Channel::DbCmdReq => {
                self.db_cmd = Some(queue);
            },
            Channel::RaftMsg => {
                self.raft_msg = Some(queue);
            },
            Channel::RaftProposal => {
                self.raft_proposal = Some(queue);
            },
            Channel::Discover => {
                self.discover = Some(queue);
            },
        }
        Some(Receiver { channel })
    }

    /// Route a message to the channel it names.
    pub fn send(&mut self, message: Letter) -> (r: SendOutcome)
        ensures
            !old(self).spec_registered(message.spec_channel()) ==> r is NotDelivered
                && *final(self) == *old(self),
            old(self).spec_registered(message.spec_channel())
                && old(self).spec_queue(message.spec_channel()).len()
                >= old(self).spec_capacity(message.spec_channel()) ==> (r matches SendOutcome::Full(
                m,
            ) && m == message) && *final(self) == *old(self),
            old(self).spec_registered(message.spec_channel())
                && old(self).spec_queue(message.spec_channel()).len()
                < old(self).spec_capacity(message.spec_channel()) ==> r is Delivered
                && final(self).spec_queue(message.spec_channel())
                == old(self).spec_queue(message.spec_channel()).push(message)
                && final(self).spec_registered(message.spec_channel())
                && final(self).spec_capacity(message.spec_channel())
                == old(self).spec_capacity(message.spec_channel()),
            forall|d: Channel|
                d != message.spec_channel() ==> #[trigger] final(self).spec_registered(d)
                    == old(self).spec_registered(d)
                    && final(self).spec_queue(d) == old(self).spec_queue(d)
                    && final(self).spec_capacity(d) == old(self).spec_capacity(d),
    {
        let c = message.channel();
        match c {
            Channel::DbCmdReq => match &mut self.db_cmd {
                Some(q) => {
                    if q.items.len() >= q.capacity {
                        SendOutcome::Full(message)
                    } else {
                        q.items.push(message);
                        SendOutcome::Delivered
                    }
                },
                Option::None => SendOutcome::NotDelivered,
            },
            Channel::RaftMsg => match &mut self.raft_msg {
                Some(q) => {
                    if q.items.len() >= q.capacity {
                        SendOutcome::Full(message)
                    } else {
                        q.items.push(message);
                        SendOutcome::Delivered
                    }
                },
                Option::None => SendOutcome::NotDelivered,
            },
            Channel::RaftProposal => match &mut self.raft_proposal {
                Some(q) => {
                    if q.items.len() >= q.capacity {
                        SendOutcome::Full(message)
                    } else {
                        q.items.push(message);
                        SendOutcome::Delivered
                    }
                },
                Option::None => SendOutcome::NotDelivered,
            },
            Channel::Discover => match &mut self.discover {
                Some(q) => {
                    if q.items.len() >= q.capacity {
                        SendOutcome::Full(message)
                    } else {
                        q.items.push(message);
                        SendOutcome::Delivered
                    }
                },
                Option::None => SendOutcome::NotDelivered,
            },
        }
    }

    /// Take the oldest waiting message off the endpoint's channel.
    pub fn recv(&mut self, rx: &Receiver) -> (r: Option<Letter>)
        ensures
            old(self).spec_registered(rx.channel) && old(self).spec_queue(rx.channel).len() > 0
                ==> (r matches Some(m) && m == old(self).spec_queue(rx.channel)[0]
                && final(self).spec_queue(rx.channel)
                == old(self).spec_queue(rx.channel).drop_first()
                && final(self).spec_registered(rx.channel)
                && final(self).spec_capacity(rx.channel) == old(self).spec_capacity(rx.channel)),
            !(old(self).spec_registered(rx.channel) && old(self).spec_queue(rx.channel).len() > 0)
                ==> r is None && *final(self) == *old(self),
            forall|d: Channel|
                d != rx.channel ==> #[trigger] final(self).spec_registered(d)
                    == old(self).spec_registered(d)
                    && final(self).spec_queue(d) == old(self).spec_queue(d)
                    && final(self).spec_capacity(d) == old(self).spec_capacity(d),
    {
        let r = match rx.channel {
            Channel::DbCmdReq => match &mut self.db_cmd {
                Some(q) => if q.items.len() > 0 {
                    Some(q.items.remove(0))
                } else {
                    Option::None
                },
                Option::None => Option::None,
            },
            Channel::RaftMsg => match &mut self.raft_msg {
                Some(q) => if q.items.len() > 0 {
                    Some(q.items.remove(0))
                } else {
                    Option::None
                },
                Option::None => Option::None,
            },
            Channel::RaftProposal => match &mut self.raft_proposal {
                Some(q) => if q.items.len() > 0 {
                    Some(q.items.remove(0))
                } else {
                    Option::None
                },
                Option::None => Option::None,
            },
            Channel::Discover => match &mut self.discover {
                Some(q) => if q.items.len() > 0 {
                    Some(q.items.remove(0))
                } else {
                    Option::None
                },
                Option::None => Option::None,
            },
        };
        proof {
            if old(self).spec_registered(rx.channel) && old(self).spec_queue(rx.channel).len()
                > 0 {
                assert(old(self).spec_queue(rx.channel).remove(0) =~= old(self).spec_queue(
                    rx.channel,
                ).drop_first());
            }
        }
        r
    }
}

} // verus!
