//! Adds up the bytes of each flow, and reports them from time to time.

use vstd::prelude::*;

use crate::messages::{DataplaneToController, Metric};
use crate::node::{self, flow_id_bytes, FlowId, NodeId};

verus! {

/// Bytes that a flow carried.
#[derive(Clone, Copy, Debug, PartialEq, Eq, Structural)]
pub struct FlowMetric {
    pub flow_id: FlowId,
    pub local_node_id: NodeId,
    pub remote_node_id: NodeId,
    pub bytes: usize,
}

/// What an `ahash::AHashMap` of flow metrics holds.
pub uninterp spec fn metric_entries(map: ahash::AHashMap<FlowId, FlowMetric>) -> Map<
    FlowId,
    FlowMetric,
>;

/// Calls `ahash::AHashMap::new`: the new map holds nothing.
#[verifier::external_body]
fn metrics_new() -> (map: ahash::AHashMap<FlowId, FlowMetric>)
    ensures
        (metric_entries(map) == Map::<FlowId, FlowMetric>::empty()),
{
    ahash::AHashMap::new()
}

/// Calls `ahash::AHashMap::get`: the value under the key, where there is one.
#[verifier::external_body]
fn metrics_get(map: &ahash::AHashMap<FlowId, FlowMetric>, flow_id: FlowId) -> (metric: Option<
    FlowMetric,
>)
    ensures
        metric == (if metric_entries(*map).contains_key(flow_id) {
            Some(metric_entries(*map)[flow_id])
        } else {
            None
        }),
{
    map.get(&flow_id).copied()
}

/// Calls `ahash::AHashMap::insert`: the value now stands under the key.
#[verifier::external_body]
fn metrics_insert(
    map: &mut ahash::AHashMap<FlowId, FlowMetric>,
    flow_id: FlowId,
    metric: FlowMetric,
)
    ensures
        metric_entries(*final(map)) == metric_entries(*old(map)).insert(flow_id, metric),
{
    map.insert(flow_id, metric);
}

/// Calls `keys` on the map inside an `ahash::AHashMap`: every key once. The order is left open.
#[verifier::external_body]
fn metrics_keys(map: &ahash::AHashMap<FlowId, FlowMetric>) -> (keys: Vec<FlowId>)
    ensures
        keys@.no_duplicates(),
        keys@.to_set() == metric_entries(*map).dom(),
{
    map.keys().copied().collect()
}

/// Calls `clear` on the map inside an `ahash::AHashMap`: the map then holds nothing.
#[verifier::external_body]
fn metrics_clear(map: &mut ahash::AHashMap<FlowId, FlowMetric>)
    ensures
        (metric_entries(*final(map)) == Map::<FlowId, FlowMetric>::empty()),
{
    map.clear();
}

/// The bytes of each flow since they were last handed out.
pub struct FlowMetrics {
    entries: ahash::AHashMap<FlowId, FlowMetric>,
}

/// What is known after a metric: the bytes are added up, and the nodes of the first one stay.
pub open spec fn after_metric(
    flows: Map<FlowId, FlowMetric>,
    metric: FlowMetric,
) -> Map<FlowId, FlowMetric> {
    if flows.contains_key(metric.flow_id) {
        let known = flows[metric.flow_id];
        flows.insert(
            metric.flow_id,
            FlowMetric { bytes: (known.bytes + metric.bytes) as usize, ..known },
        )
    } else {
        flows.insert(metric.flow_id, metric)
    }
}

/// Whether a list holds the metrics of all flows, one each.
pub open spec fn lists_flows(flows: Map<FlowId, FlowMetric>, list: Seq<FlowMetric>) -> bool {
    exists|order: Seq<FlowId>| #[trigger] in_flow_order(flows, list, order)
}

/// Whether a list holds the metrics of all flows in an order.
pub open spec fn in_flow_order(
    flows: Map<FlowId, FlowMetric>,
    list: Seq<FlowMetric>,
    order: Seq<FlowId>,
) -> bool {
    &&& order.no_duplicates()
    &&& order.to_set() == flows.dom()
    &&& list.len() == order.len()
    &&& forall|i: int| 0 <= i < list.len() ==> #[trigger] list[i] == flows[order[i]]
}

impl View for FlowMetrics {
    type V = Map<FlowId, FlowMetric>;

    closed spec fn view(&self) -> Map<FlowId, FlowMetric> {
        metric_entries(self.entries)
    }
}

impl FlowMetrics {
    /// No flow was seen.
    pub fn new() -> (metrics: Self)
        ensures
            metrics@ == Map::<FlowId, FlowMetric>::empty(),
    {
        FlowMetrics { entries: metrics_new() }
    }

    /// Adds up the bytes of a flow.
    pub fn record(&mut self, metric: FlowMetric)
        requires
            old(self)@.contains_key(metric.flow_id) ==> old(self)@[metric.flow_id].bytes
                + metric.bytes <= usize::MAX,
        ensures
            final(self)@ == after_metric(old(self)@, metric),
    {
        let updated = match metrics_get(&self.entries, metric.flow_id) {
            Some(known) => FlowMetric {
                flow_id: known.flow_id,
                local_node_id: known.local_node_id,
                remote_node_id: known.remote_node_id,
                bytes: known.bytes + metric.bytes,
            },
            None => metric,
        };
        metrics_insert(&mut self.entries, metric.flow_id, updated);
    }

    /// The bytes that a flow carried since they were last handed out, where it carried any.
    pub fn bytes(&self, flow_id: FlowId) -> (bytes: Option<usize>)
        ensures
            bytes == (if self@.contains_key(flow_id) {
                Some(self@[flow_id].bytes)
            } else {
                None
            }),
    {
        match metrics_get(&self.entries, flow_id) {
            Some(metric) => Some(metric.bytes),
            None => None,
        }
    }

    /// Hands out the metrics of all flows, and starts over.
    pub fn take(&mut self) -> (list: Vec<FlowMetric>)
        ensures
            final(self)@ == Map::<FlowId, FlowMetric>::empty(),
            lists_flows(old(self)@, list@),
    {
        let keys = metrics_keys(&self.entries);
        let mut list: Vec<FlowMetric> = Vec::new();
        let mut i: usize = 0;
        while i < keys.len()
            invariant
                i <= keys.len(),
                *self == *old(self),
                keys@.to_set() == self@.dom(),
                list@.len() == i,
                forall|j: int| 0 <= j < i ==> #[trigger] list@[j] == self@[keys@[j]],
            decreases keys.len() - i,
        {
            assert(keys@.to_set().contains(keys@[i as int]));
            if let Some(metric) = metrics_get(&self.entries, keys[i]) {
                list.push(metric);
            }
            i = i + 1;
        }
        assert(in_flow_order(old(self)@, list@, keys@));
        metrics_clear(&mut self.entries);
        list
    }
}

/// What the controller is told of a flow.
pub open spec fn tells_metric(told: Metric, metric: FlowMetric, time_read: i64) -> bool {
    &&& told.flow_id@ == node::flow_id_be_bytes(metric.flow_id)
    &&& told.bytes == metric.bytes
    &&& told.local_node_id == metric.local_node_id
    &&& told.remote_node_id == metric.remote_node_id
    &&& told.time_read == time_read
}

/// Gathers flow metrics for the controller.
pub struct ControllerReporter {
    pub flow_metrics: FlowMetrics,
    /// The seconds between two reports.
    pub interval_secs: u64,
}

impl ControllerReporter {
    /// A reporter that reports at most every second.
    pub fn new(interval_secs: u64) -> (reporter: Self)
        ensures
            reporter.flow_metrics@ == Map::<FlowId, FlowMetric>::empty(),
            reporter.interval_secs == if interval_secs < 1 {
                1
            } else {
                interval_secs
            },
    {
        ControllerReporter {
            flow_metrics: FlowMetrics::new(),
            interval_secs: if interval_secs < 1 {
                1
            } else {
                interval_secs
            },
        }
    }

    /// The message to send when a report is due: one metric for each flow that carried bytes. With
    /// none, there is no message.
    pub fn report(&mut self, time_read: i64) -> (msg: Option<DataplaneToController>)
        ensures
            final(self).flow_metrics@ == Map::<FlowId, FlowMetric>::empty(),
            final(self).interval_secs == old(self).interval_secs,
            exists|list: Seq<FlowMetric>| #[trigger]
                lists_flows(old(self).flow_metrics@, list) && (match msg {
                    Some(DataplaneToController::Metrics { metrics }) => {
                        &&& list.len() > 0
                        &&& metrics@.len() == list.len()
                        &&& forall|i: int|
                            0 <= i < list.len() ==> tells_metric(
                                #[trigger] metrics@[i],
                                list[i],
                                time_read,
                            )
                    },
                    Some(_) => false,
                    None => list.len() == 0,
                }),
    {
        let list = self.flow_metrics.take();
        assert(lists_flows(old(self).flow_metrics@, list@));
        let mut metrics: Vec<Metric> = Vec::new();
        let mut i: usize = 0;
        while i < list.len()
            invariant
                i <= list.len(),
                metrics@.len() == i,
                forall|j: int|
                    0 <= j < i ==> tells_metric(#[trigger] metrics@[j], list@[j], time_read),
            decreases list.len() - i,
        {
            let metric = list[i];
            metrics.push(
                Metric {
                    flow_id: flow_id_bytes(metric.flow_id),
                    bytes: metric.bytes,
                    local_node_id: metric.local_node_id,
                    remote_node_id: metric.remote_node_id,
                    time_read,
                },
            );
            i = i + 1;
        }
        if metrics.len() > 0 {
            Some(DataplaneToController::Metrics { metrics })
        } else {
            None
        }
    }
}

/// The bytes that metrics of one flow add up to.
pub open spec fn total_bytes(metrics: Seq<FlowMetric>, flow_id: FlowId) -> int
    decreases metrics.len(),
{
    if metrics.len() == 0 {
        0
    } else {
        total_bytes(metrics.drop_last(), flow_id) + if metrics.last().flow_id == flow_id {
            metrics.last().bytes as int
        } else {
            0
        }
    }
}

/// What is known after a series of metrics.
pub open spec fn after_metrics(metrics: Seq<FlowMetric>) -> Map<FlowId, FlowMetric>
    decreases metrics.len(),
{
    if metrics.len() == 0 {
        Map::empty()
    } else {
        after_metric(after_metrics(metrics.drop_last()), metrics.last())
    }
}

/// The reported bytes of a flow are the sum of all its metrics since the last report.
pub proof fn law_no_byte_is_lost(metrics: Seq<FlowMetric>, flow_id: FlowId)
    requires
        forall|n: int, f: FlowId|
            0 <= n <= metrics.len() ==> #[trigger] total_bytes(metrics.take(n), f) <= usize::MAX,
    ensures
        after_metrics(metrics).contains_key(flow_id) ==> after_metrics(metrics)[flow_id].bytes
            == total_bytes(metrics, flow_id) && after_metrics(metrics)[flow_id].flow_id == flow_id,
        !after_metrics(metrics).contains_key(flow_id) ==> total_bytes(metrics, flow_id) == 0,
    decreases metrics.len(),
{
    if metrics.len() > 0 {
        let earlier = metrics.drop_last();
        assert forall|n: int, f: FlowId| 0 <= n <= earlier.len() implies #[trigger] total_bytes(
            earlier.take(n),
            f,
        ) <= usize::MAX by {
            assert(earlier.take(n) =~= metrics.take(n));
        }
        law_no_byte_is_lost(earlier, flow_id);
        assert(metrics.take(metrics.len() as int) =~= metrics);
        assert(total_bytes(metrics.take(metrics.len() as int), flow_id) <= usize::MAX);
    }
}

/// A report lists every flow that carried bytes once, and nothing else.
pub proof fn law_report_lists_every_flow(
    flows: Map<FlowId, FlowMetric>,
    list: Seq<FlowMetric>,
    flow_id: FlowId,
)
    requires
        lists_flows(flows, list),
    ensures
        flows.contains_key(flow_id) ==> list.contains(flows[flow_id]),
        forall|i: int| 0 <= i < list.len() ==> flows.contains_value(#[trigger] list[i]),
        list.len() == flows.dom().len(),
{
    let order = choose|order: Seq<FlowId>| #[trigger] in_flow_order(flows, list, order);
    order.unique_seq_to_set();
    if flows.contains_key(flow_id) {
        assert(order.to_set().contains(flow_id));
        let i = choose|i: int| 0 <= i < order.len() && order[i] == flow_id;
        assert(list[i] == flows[flow_id]);
    }
    assert forall|i: int| 0 <= i < list.len() implies flows.contains_value(#[trigger] list[i]) by {
        assert(order.to_set().contains(order[i]));
        assert(flows.contains_key(order[i]));
    }
}

/// A metric adds its bytes to those of its flow and changes nothing of other flows. The first metric
/// of a flow says between which nodes it was counted.
pub proof fn law_metrics_add_up_per_flow(
    flows: Map<FlowId, FlowMetric>,
    metric: FlowMetric,
    other: FlowId,
)
    requires
        flows.contains_key(metric.flow_id) ==> flows[metric.flow_id].bytes + metric.bytes
            <= usize::MAX,
    ensures
        ({
            let later = after_metric(flows, metric);
            let known = flows.contains_key(metric.flow_id);
            let before = flows[metric.flow_id];
            let now = later[metric.flow_id];
            &&& later.contains_key(metric.flow_id)
            &&& !known ==> now == metric
            &&& known ==> now.bytes == before.bytes + metric.bytes && now.local_node_id
                == before.local_node_id && now.remote_node_id == before.remote_node_id
                && now.flow_id == before.flow_id
            &&& other != metric.flow_id ==> later.contains_key(other) == flows.contains_key(other)
                && later[other] == flows[other]
        }),
{
}

/// The controller is told the bytes of a flow with the nodes between which they were counted, the
/// counting node first, and with the time of the report.
pub proof fn law_told_metric_is_the_counted_one(
    told: Metric,
    flow_id: FlowId,
    local_node_id: NodeId,
    remote_node_id: NodeId,
    bytes: usize,
    time_read: i64,
)
    requires
        tells_metric(
            told,
            FlowMetric { flow_id, local_node_id, remote_node_id, bytes },
            time_read,
        ),
    ensures
        told.flow_id@ == node::flow_id_be_bytes(flow_id),
        told.bytes == bytes,
        told.local_node_id == local_node_id,
        told.remote_node_id == remote_node_id,
        told.time_read == time_read,
{
}

} // verus!
