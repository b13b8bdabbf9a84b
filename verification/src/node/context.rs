//! What the parts of a node share: channels to the packet processors, senders to neighbors, and
//! rate limiters. Channels, senders and limiters are known by number.

use vstd::prelude::*;

use crate::node::NodeId;
use crate::numbering::{fx_get, fx_insert, fx_new};

verus! {

broadcast use vstd::std_specs::hash::group_hash_axioms;

/// What the parts of a node share.
pub struct Context {
    pub local_id: NodeId,
    pub num_packet_processors: usize,
    /// For each channel to a packet processor, whether its receiver was handed out.
    pub receivers_taken: Vec<bool>,
    /// The sender to each neighbor.
    pub processor_senders: fxhash::FxHashMap<NodeId, usize>,
    /// The rate limiter of the link to each neighbor.
    pub link_rate_limiters: fxhash::FxHashMap<NodeId, usize>,
    pub next_limiter: usize,
}

/// Channels that are in use.
#[derive(Clone, Copy, Debug, PartialEq, Eq, Structural)]
pub struct Channels {
    /// The number of channels, counted from 0.
    pub count: usize,
    /// Whether they are to be created now.
    pub created: bool,
}

/// A rate limiter.
#[derive(Clone, Copy, Debug, PartialEq, Eq, Structural)]
pub struct Limiter {
    pub number: usize,
    /// Whether it is to be created now, without a limit.
    pub created: bool,
}

impl Context {
    /// Either no channel exists, or one for each packet processor.
    pub open spec fn wf(&self) -> bool {
        &&& self.receivers_taken@.len() == 0 || self.receivers_taken@.len()
            == self.num_packet_processors
        &&& forall|node_id: NodeId| #[trigger]
            self.link_rate_limiters@.contains_key(node_id) ==> self.link_rate_limiters@[node_id]
                < self.next_limiter
    }

    /// All but the channels is the same.
    pub open spec fn same_but_channels(&self, other: &Context) -> bool {
        &&& self.local_id == other.local_id
        &&& self.num_packet_processors == other.num_packet_processors
        &&& self.processor_senders == other.processor_senders
        &&& self.link_rate_limiters == other.link_rate_limiters
        &&& self.next_limiter == other.next_limiter
    }

    /// A context without channels, with the rate limiters that exist already. Their numbers lie
    /// below that of the next one.
    pub fn new(
        local_id: NodeId,
        num_packet_processors: usize,
        link_rate_limiters: fxhash::FxHashMap<NodeId, usize>,
        next_limiter: usize,
    ) -> (context: Self)
        requires
            forall|node_id: NodeId| #[trigger]
                link_rate_limiters@.contains_key(node_id) ==> link_rate_limiters@[node_id]
                    < next_limiter,
        ensures
            context.wf(),
            context.local_id == local_id,
            context.num_packet_processors == num_packet_processors,
            context.receivers_taken@.len() == 0,
            context.processor_senders@ == Map::<NodeId, usize>::empty(),
            context.link_rate_limiters == link_rate_limiters,
            context.next_limiter == next_limiter,
    {
        Context {
            local_id,
            num_packet_processors,
            receivers_taken: Vec::new(),
            processor_senders: fx_new(),
            link_rate_limiters,
            next_limiter,
        }
    }

    /// The channels on which packets reach the processors. They are created once.
    pub fn get_processor_txs(&mut self) -> (channels: Channels)
        requires
            old(self).wf(),
        ensures
            final(self).wf(),
            final(self).same_but_channels(old(self)),
            channels.count == old(self).num_packet_processors,
            channels.created == (old(self).receivers_taken@.len() == 0),
            final(self).receivers_taken@ == if channels.created {
                Seq::new(channels.count as nat, |i: int| false)
            } else {
                old(self).receivers_taken@
            },
    {
        if self.receivers_taken.len() == 0 {
            self.receivers_taken = vec![false; self.num_packet_processors];
            assert(self.receivers_taken@ =~= Seq::new(
                self.num_packet_processors as nat,
                |i: int| false,
            ));
            Channels { count: self.num_packet_processors, created: true }
        } else {
            Channels { count: self.num_packet_processors, created: false }
        }
    }

    /// Hands out the receivers of the channels, which may be done once only.
    pub fn get_processor_rxs(&mut self) -> (channels: Channels)
        requires
            old(self).wf(),
            forall|i: int|
                0 <= i < old(self).receivers_taken@.len() ==> !#[trigger] old(
                    self,
                ).receivers_taken@[i],
        ensures
            final(self).wf(),
            final(self).same_but_channels(old(self)),
            channels.count == old(self).num_packet_processors,
            channels.created == (old(self).receivers_taken@.len() == 0),
            final(self).receivers_taken@ == Seq::new(channels.count as nat, |i: int| true),
    {
        let created = self.receivers_taken.len() == 0;
        self.receivers_taken = vec![true; self.num_packet_processors];
        assert(self.receivers_taken@ =~= Seq::new(
            self.num_packet_processors as nat,
            |i: int| true,
        ));
        Channels { count: self.num_packet_processors, created }
    }

    /// Takes note of the sender to a neighbor.
    pub fn register_sender(&mut self, node_id: NodeId, node_sender: usize)
        requires
            old(self).wf(),
        ensures
            final(self).wf(),
            final(self).processor_senders@ == old(self).processor_senders@.insert(
                node_id,
                node_sender,
            ),
            final(self).link_rate_limiters@ == old(self).link_rate_limiters@,
            final(self).next_limiter == old(self).next_limiter,
            final(self).receivers_taken@ == old(self).receivers_taken@,
            final(self).local_id == old(self).local_id,
            final(self).num_packet_processors == old(self).num_packet_processors,
    {
        fx_insert(&mut self.processor_senders, node_id, node_sender);
    }

    /// The rate limiter of the link to a neighbor, which stays the same once it exists.
    pub fn get_link_rate_limiter(&mut self, node_id: NodeId) -> (limiter: Limiter)
        requires
            old(self).wf(),
            old(self).next_limiter < usize::MAX,
        ensures
            final(self).wf(),
            final(self).processor_senders@ == old(self).processor_senders@,
            final(self).receivers_taken@ == old(self).receivers_taken@,
            final(self).local_id == old(self).local_id,
            final(self).num_packet_processors == old(self).num_packet_processors,
            limiter.created == !old(self).link_rate_limiters@.contains_key(node_id),
            limiter.created ==> limiter.number == old(self).next_limiter
                && final(self).link_rate_limiters@ == old(self).link_rate_limiters@.insert(
                node_id,
                limiter.number,
            ) && final(self).next_limiter == old(self).next_limiter + 1,
            !limiter.created ==> limiter.number == old(self).link_rate_limiters@[node_id]
                && final(self).link_rate_limiters@ == old(self).link_rate_limiters@
                && final(self).next_limiter == old(self).next_limiter,
    {
        match fx_get(&self.link_rate_limiters, &node_id) {
            Some(number) => Limiter { number, created: false },
            None => {
                let number: usize = self.next_limiter;
                self.next_limiter = self.next_limiter + 1;
                fx_insert(&mut self.link_rate_limiters, node_id, number);
                assert forall|id: NodeId| #[trigger]
                    self.link_rate_limiters@.contains_key(id) implies self.link_rate_limiters@[id]
                    < self.next_limiter by {
                    assert(id == node_id || old(self).link_rate_limiters@.contains_key(id));
                }
                Limiter { number, created: true }
            },
        }
    }
}

/// What concerns the channels leaves the node, its neighbors and their rate limiters as they are.
pub proof fn law_channels_concern_nothing_else(context: Context, other: Context)
    requires
        context.same_but_channels(&other),
    ensures
        context.local_id == other.local_id,
        context.num_packet_processors == other.num_packet_processors,
        context.processor_senders@ == other.processor_senders@,
        context.link_rate_limiters@ == other.link_rate_limiters@,
        context.next_limiter == other.next_limiter,
{
}

} // verus!
