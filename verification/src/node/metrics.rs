//! Collects the bytes that flows carry between nodes.

use vstd::prelude::*;

use crate::node::controller::reporter::{self, FlowMetric, FlowMetrics};
use crate::node::{FlowId, NodeId};

verus! {

/// What a collector is told.
#[derive(Clone, Copy, Debug, PartialEq, Eq, Structural)]
pub enum CollectorMessage {
    /// The flow, the node that counted, the node at the other end, and the bytes.
    Metric(FlowId, NodeId, NodeId, usize),
}

impl CollectorMessage {
    /// The metric that the message holds.
    pub open spec fn metric(self) -> FlowMetric {
        let CollectorMessage::Metric(flow_id, local_node_id, remote_node_id, bytes) = self;
        FlowMetric { flow_id, local_node_id, remote_node_id, bytes }
    }
}

/// Adds up bytes per flow between two reports.
pub struct Collector {
    pub data: FlowMetrics,
}

impl Collector {
    /// A collector that was told nothing.
    pub fn new() -> (collector: Self)
        ensures
            collector.data@ == Map::<FlowId, FlowMetric>::empty(),
    {
        Collector { data: FlowMetrics::new() }
    }

    /// Takes a message.
    pub fn collect(&mut self, msg: CollectorMessage)
        requires
            old(self).data@.contains_key(msg.metric().flow_id) ==> old(
                self,
            ).data@[msg.metric().flow_id].bytes + msg.metric().bytes <= usize::MAX,
        ensures
            final(self).data@ == reporter::after_metric(old(self).data@, msg.metric()),
    {
        let CollectorMessage::Metric(flow_id, local_node_id, remote_node_id, bytes) = msg;
        self.data.record(FlowMetric { flow_id, local_node_id, remote_node_id, bytes });
    }

    /// The metrics to report when a report is due; the collector then starts over.
    pub fn report(&mut self) -> (metrics: Vec<FlowMetric>)
        ensures
            final(self).data@ == Map::<FlowId, FlowMetric>::empty(),
            reporter::lists_flows(old(self).data@, metrics@),
    {
        self.data.take()
    }
}

/// A message counts for its own flow, between the node that counted and the one at the other end.
pub proof fn law_message_holds_its_metric(
    flow_id: FlowId,
    local_node_id: NodeId,
    remote_node_id: NodeId,
    bytes: usize,
)
    ensures
        ({
            let metric = CollectorMessage::Metric(
                flow_id,
                local_node_id,
                remote_node_id,
                bytes,
            ).metric();
            &&& metric.flow_id == flow_id
            &&& metric.local_node_id == local_node_id
            &&& metric.remote_node_id == remote_node_id
            &&& metric.bytes == bytes
        }),
{
}

} // verus!
