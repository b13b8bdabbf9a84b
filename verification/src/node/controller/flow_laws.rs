//! What the controller learns of a flow, from what happened to it.

use vstd::prelude::*;

use crate::messages::{
    AppFlow, DataplaneToController, FlowFinishedInfo, RouteAssignment, UserFlowStart,
};
use crate::node::controller::flowstats::{
    self, AppFlowStart, AppState, Finish, FlowFinished, FlowFinishStatus, FlowState,
    FlowStatsMessage, FlushOutput, RouteAssigned, RouteUpdateResult, UserSpaceFlowStart, UserState,
};
use crate::node::{self, FlowId};

verus! {

/// The flow that an event is about.
pub open spec fn subject(msg: FlowStatsMessage) -> FlowId {
    match msg {
        FlowStatsMessage::AppFlowStart(start) => start.flow_id,
        FlowStatsMessage::UserFlowStart(start) => start.flow_id,
        FlowStatsMessage::RouteAssigned(route) => route.flow_id,
        FlowStatsMessage::FlowFinished(finished) => finished.flow_id,
    }
}

/// An event changes nothing that is known of other flows.
pub proof fn law_events_concern_their_own_flow(
    flows: Map<FlowId, FlowState>,
    msg: FlowStatsMessage,
    other: FlowId,
)
    requires
        other != subject(msg),
    ensures
        flowstats::after_message(flows, msg).contains_key(other) == flows.contains_key(other),
        flows.contains_key(other) ==> flowstats::after_message(flows, msg)[other] == flows[other],
{
}

proof fn lemma_word_of_bytes(a: u8, b: u8, c: u8, d: u8)
    ensures
        crate::net::be32_bytes(crate::net::be32(a, b, c, d)) == seq![a, b, c, d],
{
    let n = a * 0x100_0000 + b * 0x1_0000 + c * 0x100 + d;
    assert(n / 0x100_0000 == a);
    assert(n / 0x1_0000 == a * 0x100 + b);
    assert(n / 0x100 == a * 0x1_0000 + b * 0x100 + c);
    assert((a * 0x100 + b) % 0x100 == b);
    assert((a * 0x1_0000 + b * 0x100 + c) % 0x100 == c);
    assert(n % 0x100 == d);
    assert(crate::net::be32(a, b, c, d) == n);
    let bytes = crate::net::be32_bytes(crate::net::be32(a, b, c, d));
    assert(bytes[0] == a && bytes[1] == b && bytes[2] == c && bytes[3] == d);
    assert(bytes =~= seq![a, b, c, d]);
}

proof fn lemma_eight_bytes(bytes: Seq<u8>)
    requires
        bytes.len() == 8,
    ensures
        crate::net::be64_bytes(crate::net::be64(bytes)) == bytes,
{
    let n = crate::net::be64(bytes);
    let high = crate::net::be32(bytes[0], bytes[1], bytes[2], bytes[3]);
    let low = crate::net::be32(bytes[4], bytes[5], bytes[6], bytes[7]);
    lemma_word_of_bytes(bytes[0], bytes[1], bytes[2], bytes[3]);
    lemma_word_of_bytes(bytes[4], bytes[5], bytes[6], bytes[7]);
    assert(n == high * 0x1_0000_0000 + low);
    assert(n / 0x1_0000_0000 == high && n % 0x1_0000_0000 == low);
    assert(crate::net::be64_bytes(n) =~= bytes);
}

/// Sixteen bytes are the bytes of the flow ID that they stand for.
proof fn lemma_bytes_of_flow(bytes: Seq<u8>, flow_id: FlowId)
    requires
        bytes.len() == 16,
        flowstats::flow_of_bytes(bytes) == flow_id,
    ensures
        bytes == node::flow_id_be_bytes(flow_id),
{
    let high = crate::net::be64(bytes.subrange(0, 8));
    let low = crate::net::be64(bytes.subrange(8, 16));
    lemma_eight_bytes(bytes.subrange(0, 8));
    lemma_eight_bytes(bytes.subrange(8, 16));
    let n = (high * 0x1_0000_0000_0000_0000 + low) as u128;
    vstd::arithmetic::div_mod::lemma_fundamental_div_mod_converse(
        n as int,
        0x1_0000_0000_0000_0000,
        high as int,
        low as int,
    );
    assert(node::flow_id_be_bytes(n) =~= bytes);
    assert(node::flow_id_be_bytes(flowstats::flow_of_bytes(bytes)) == bytes);
}

/// What the controller is told at one time is what is owed, each item once and nothing else.
pub proof fn law_what_is_owed_is_told(
    flows: Map<FlowId, FlowState>,
    output: FlushOutput,
    flow_id: FlowId,
)
    requires
        flowstats::tells_all(flows, output),
        flowstats::keyed(flows),
        flows.contains_key(flow_id),
    ensures
        flows[flow_id] matches FlowState::App(app) ==> {
            &&& app.send_start ==> exists|i: int|
                0 <= i < output.app_flows@.len() && (#[trigger] output.app_flows@[i]).flow_id@
                    == node::flow_id_be_bytes(flow_id) && output.app_flows@[i].src_node_id
                    == app.src_node_id && output.app_flows@[i].dst_node_id == app.dst_node_id
                    && output.app_flows@[i].start_time == app.start_time
            &&& app.send_finish && app.finish_time is Some ==> exists|i: int|
                0 <= i < output.finishes@.len() && (#[trigger] output.finishes@[i]).flow_id@
                    == node::flow_id_be_bytes(flow_id) && output.finishes@[i].controller_id
                    == app.controller_id && output.finishes@[i].start_time == app.start_time
                    && output.finishes@[i].finish_time == app.finish_time->0
            &&& forall|route_id: usize| #[trigger]
                app.route_updates.contains(route_id) ==> exists|i: int|
                    0 <= i < output.assignments@.len() && (
                    #[trigger] output.assignments@[i]).flow_id@ == node::flow_id_be_bytes(flow_id)
                        && output.assignments@[i].route_id == route_id && output.assignments@[i].time
                        == app.start_time
        },
        flows[flow_id] matches FlowState::User(user) ==> {
            &&& user.pending_start ==> exists|i: int|
                0 <= i < output.user_starts@.len() && (#[trigger] output.user_starts@[i]).flow_id@
                    == node::flow_id_be_bytes(flow_id) && output.user_starts@[i].controller_id
                    == user.controller_id && output.user_starts@[i].start_time == user.start_time
            &&& user.pending_finish matches Some(finish) ==> exists|i: int|
                0 <= i < output.finishes@.len() && (#[trigger] output.finishes@[i]).flow_id@
                    == node::flow_id_be_bytes(flow_id) && output.finishes@[i].controller_id
                    == finish.controller_id && output.finishes@[i].start_time == finish.start_time
                    && output.finishes@[i].finish_time == finish.finish_time
        },
{
    let starts = choose|order: Seq<FlowId>|
        flowstats::app_starts_told(flows, output.app_flows@, order);
    let users = choose|order: Seq<FlowId>|
        flowstats::user_starts_told(flows, output.user_starts@, order);
    let ends = choose|order: Seq<FlowId>| flowstats::finishes_told(flows, output.finishes@, order);
    let routes = choose|order: Seq<(FlowId, usize)>|
        flowstats::routes_told(flows, output.assignments@, order);
    let state = flows[flow_id];
    if state.owes_app_start() {
        assert(starts.contains(flow_id));
        let i = choose|i: int| 0 <= i < starts.len() && starts[i] == flow_id;
        assert(flowstats::tells_app_start(output.app_flows@[i], flows[starts[i]]));
    }
    if state.owes_user_start() {
        assert(users.contains(flow_id));
        let i = choose|i: int| 0 <= i < users.len() && users[i] == flow_id;
        assert(flowstats::tells_user_start(output.user_starts@[i], flows[users[i]]));
    }
    if state.owes_finish() is Some {
        assert(ends.contains(flow_id));
        let i = choose|i: int| 0 <= i < ends.len() && ends[i] == flow_id;
        assert(flowstats::finish_of(output.finishes@[i]) == flows[ends[i]].owes_finish()->0);
        lemma_bytes_of_flow(output.finishes@[i].flow_id@, flow_id);
    }
    if let FlowState::App(app) = state {
        assert forall|route_id: usize| #[trigger] app.route_updates.contains(route_id) implies exists|
            i: int,
        |
            0 <= i < output.assignments@.len() && (#[trigger] output.assignments@[i]).flow_id@
                == node::flow_id_be_bytes(flow_id) && output.assignments@[i].route_id == route_id
                && output.assignments@[i].time == app.start_time by {
            assert(routes.contains((flow_id, route_id)));
            let i = choose|i: int| 0 <= i < routes.len() && routes[i] == (flow_id, route_id);
            assert(flowstats::tells_route(
                output.assignments@[i],
                flows[routes[i].0],
                routes[i].1,
            ));
        }
    }
}

/// Whether a flow is known by these bytes that owes the start of an application flow.
pub open spec fn owed_app_start(flows: Map<FlowId, FlowState>, bytes: Seq<u8>) -> bool {
    exists|flow_id: FlowId| #[trigger]
        flows.contains_key(flow_id) && bytes == node::flow_id_be_bytes(flow_id) && (
        flows[flow_id] matches FlowState::App(app) && app.send_start)
}

/// Whether a flow is known by these bytes that owes the start of a user-space flow.
pub open spec fn owed_user_start(flows: Map<FlowId, FlowState>, bytes: Seq<u8>) -> bool {
    exists|flow_id: FlowId| #[trigger]
        flows.contains_key(flow_id) && bytes == node::flow_id_be_bytes(flow_id) && (
        flows[flow_id] matches FlowState::User(user) && user.pending_start)
}

/// Whether a flow is known by these bytes that owes its end.
pub open spec fn owed_end(flows: Map<FlowId, FlowState>, bytes: Seq<u8>) -> bool {
    exists|flow_id: FlowId| #[trigger]
        flows.contains_key(flow_id) && bytes == node::flow_id_be_bytes(flow_id) && (
        match flows[flow_id] {
            FlowState::App(app) => app.send_finish && app.finish_time is Some,
            FlowState::User(user) => user.pending_finish is Some,
            FlowState::Pending(_) => false,
        })
}

/// Whether an application flow is known by these bytes that owes this route.
pub open spec fn owed_route(flows: Map<FlowId, FlowState>, bytes: Seq<u8>, route_id: usize) -> bool {
    exists|flow_id: FlowId| #[trigger]
        flows.contains_key(flow_id) && bytes == node::flow_id_be_bytes(flow_id) && (
        flows[flow_id] matches FlowState::App(app) && app.route_updates.contains(route_id))
}

/// Nothing is told of a flow that is not known or has no such news, and nothing is told twice.
pub proof fn law_nothing_else_is_told(flows: Map<FlowId, FlowState>, output: FlushOutput)
    requires
        flowstats::tells_all(flows, output),
        flowstats::keyed(flows),
    ensures
        forall|i: int|
            0 <= i < output.app_flows@.len() ==> owed_app_start(
                flows,
                (#[trigger] output.app_flows@[i]).flow_id@,
            ),
        forall|i: int|
            0 <= i < output.user_starts@.len() ==> owed_user_start(
                flows,
                (#[trigger] output.user_starts@[i]).flow_id@,
            ),
        forall|i: int|
            0 <= i < output.finishes@.len() ==> owed_end(
                flows,
                (#[trigger] output.finishes@[i]).flow_id@,
            ),
        forall|i: int|
            0 <= i < output.assignments@.len() ==> owed_route(
                flows,
                (#[trigger] output.assignments@[i]).flow_id@,
                output.assignments@[i].route_id,
            ),
        forall|i: int, j: int|
            0 <= i < j < output.app_flows@.len() ==> (#[trigger] output.app_flows@[i]).flow_id@ != (
            #[trigger] output.app_flows@[j]).flow_id@,
        forall|i: int, j: int|
            0 <= i < j < output.user_starts@.len() ==> (#[trigger] output.user_starts@[i]).flow_id@
                != (#[trigger] output.user_starts@[j]).flow_id@,
        forall|i: int, j: int|
            0 <= i < j < output.finishes@.len() ==> (#[trigger] output.finishes@[i]).flow_id@ != (
            #[trigger] output.finishes@[j]).flow_id@,
{
    let starts = choose|order: Seq<FlowId>|
        flowstats::app_starts_told(flows, output.app_flows@, order);
    let users = choose|order: Seq<FlowId>|
        flowstats::user_starts_told(flows, output.user_starts@, order);
    let ends = choose|order: Seq<FlowId>| flowstats::finishes_told(flows, output.finishes@, order);
    let routes = choose|order: Seq<(FlowId, usize)>|
        flowstats::routes_told(flows, output.assignments@, order);
    assert forall|i: int| 0 <= i < output.app_flows@.len() implies flows.contains_key(starts[i])
        && flows[starts[i]].owes_app_start() && (#[trigger] output.app_flows@[i]).flow_id@
        == node::flow_id_be_bytes(starts[i]) by {
        assert(starts.contains(starts[i]));
        assert(flowstats::tells_app_start(output.app_flows@[i], flows[starts[i]]));
    }
    assert forall|i: int| 0 <= i < output.user_starts@.len() implies flows.contains_key(users[i])
        && flows[users[i]].owes_user_start() && (#[trigger] output.user_starts@[i]).flow_id@
        == node::flow_id_be_bytes(users[i]) by {
        assert(users.contains(users[i]));
        assert(flowstats::tells_user_start(output.user_starts@[i], flows[users[i]]));
    }
    assert forall|i: int| 0 <= i < output.finishes@.len() implies flows.contains_key(ends[i])
        && flows[ends[i]].owes_finish() is Some && (#[trigger] output.finishes@[i]).flow_id@
        == node::flow_id_be_bytes(ends[i]) by {
        assert(ends.contains(ends[i]));
        assert(flowstats::finish_of(output.finishes@[i]) == flows[ends[i]].owes_finish()->0);
        lemma_bytes_of_flow(output.finishes@[i].flow_id@, ends[i]);
    }
    assert forall|i: int| 0 <= i < output.assignments@.len() implies flows.contains_key(routes[i].0)
        && flows[routes[i].0].owes_routes().contains(output.assignments@[i].route_id) && (
    #[trigger] output.assignments@[i]).flow_id@ == node::flow_id_be_bytes(routes[i].0) by {
        assert(routes.contains(routes[i]));
        assert(flowstats::tells_route(output.assignments@[i], flows[routes[i].0], routes[i].1));
    }
    assert forall|i: int, j: int| 0 <= i < j < output.app_flows@.len() implies (
    #[trigger] output.app_flows@[i]).flow_id@ != (#[trigger] output.app_flows@[j]).flow_id@ by {
        if output.app_flows@[i].flow_id@ == output.app_flows@[j].flow_id@ {
            node::lemma_flow_id_bytes_injective(starts[i], starts[j]);
        }
    }
    assert forall|i: int, j: int| 0 <= i < j < output.user_starts@.len() implies (
    #[trigger] output.user_starts@[i]).flow_id@ != (#[trigger] output.user_starts@[j]).flow_id@ by {
        if output.user_starts@[i].flow_id@ == output.user_starts@[j].flow_id@ {
            node::lemma_flow_id_bytes_injective(users[i], users[j]);
        }
    }
    assert forall|i: int, j: int| 0 <= i < j < output.finishes@.len() implies (
    #[trigger] output.finishes@[i]).flow_id@ != (#[trigger] output.finishes@[j]).flow_id@ by {
        if output.finishes@[i].flow_id@ == output.finishes@[j].flow_id@ {
            node::lemma_flow_id_bytes_injective(ends[i], ends[j]);
        }
    }
}

/// Each kind of news goes into one message, and there is no message for a kind without news. Starts
/// are told before routes, and routes before ends.
pub proof fn law_messages_carry_the_news(output: FlushOutput)
    ensures
        ({
            let msgs = flowstats::messages_of(output);
            let starts = DataplaneToController::AppFlowStart { appflows: output.app_flows };
            let users = DataplaneToController::UserFlowStart { flows: output.user_starts };
            let routes = DataplaneToController::RouteAssigned { assignments: output.assignments };
            let ends = DataplaneToController::FlowFinished { flows: output.finishes };
            &&& msgs.contains(starts) == (output.app_flows@.len() > 0)
            &&& msgs.contains(users) == (output.user_starts@.len() > 0)
            &&& msgs.contains(routes) == (output.assignments@.len() > 0)
            &&& msgs.contains(ends) == (output.finishes@.len() > 0)
            &&& msgs.no_duplicates()
            &&& forall|i: int|
                0 <= i < msgs.len() ==> #[trigger] msgs[i] == starts || msgs[i] == users || msgs[i]
                    == routes || msgs[i] == ends
            &&& forall|i: int, j: int|
                0 <= i < j < msgs.len() ==> {
                    &&& (#[trigger] msgs[j]) is AppFlowStart ==> false
                    &&& msgs[j] is UserFlowStart ==> (#[trigger] msgs[i]) is AppFlowStart
                    &&& msgs[j] is RouteAssigned ==> !(msgs[i] is FlowFinished)
                }
        }),
{
    let msgs = flowstats::messages_of(output);
    let starts = DataplaneToController::AppFlowStart { appflows: output.app_flows };
    let users = DataplaneToController::UserFlowStart { flows: output.user_starts };
    let routes = DataplaneToController::RouteAssigned { assignments: output.assignments };
    let ends = DataplaneToController::FlowFinished { flows: output.finishes };
    let a = if output.app_flows@.len() > 0 {
        1int
    } else {
        0int
    };
    let b = a + if output.user_starts@.len() > 0 {
        1int
    } else {
        0int
    };
    let c = b + if output.assignments@.len() > 0 {
        1int
    } else {
        0int
    };
    if output.app_flows@.len() > 0 {
        assert(msgs[0] == starts);
    }
    if output.user_starts@.len() > 0 {
        assert(msgs[a] == users);
    }
    if output.assignments@.len() > 0 {
        assert(msgs[b] == routes);
    }
    if output.finishes@.len() > 0 {
        assert(msgs[c] == ends);
    }
}

/// A user-space flow that starts and then ends owes the controller its end, with the time at which
/// it started and the time at which it ended, under the controller ID that the end names, however
/// often the controller was told of news in between. Until it is told, it owes its start too.
pub proof fn law_user_flow_is_told_with_its_times(
    flows: Map<FlowId, FlowState>,
    start: UserSpaceFlowStart,
    finished: FlowFinished,
    controller_id: i32,
    now_ms: i64,
)
    requires
        finished.flow_id == start.flow_id,
        finished.controller_id == Some(controller_id),
    ensures
        ({
            let started = flowstats::after_message(flows, FlowStatsMessage::UserFlowStart(start));
            let at_once = flowstats::after_message(
                started,
                FlowStatsMessage::FlowFinished(finished),
            );
            let told = flowstats::after_flush(started, now_ms);
            let later = flowstats::after_message(told, FlowStatsMessage::FlowFinished(finished));
            let end = Finish {
                flow_id: start.flow_id,
                controller_id: Some(controller_id),
                start_time: start.start_time,
                finish_time: finished.finish_time,
            };
            &&& started.contains_key(start.flow_id)
            &&& started[start.flow_id].owes_user_start()
            &&& started[start.flow_id].owes_finish() is None
            &&& started[start.flow_id] matches FlowState::User(user) && user.controller_id
                == start.controller_id && user.start_time == start.start_time && user.flow_id
                == start.flow_id && !user.finished
            &&& at_once.contains_key(start.flow_id)
            &&& at_once[start.flow_id].owes_user_start()
            &&& at_once[start.flow_id].owes_finish() == Some(end)
            &&& told.contains_key(start.flow_id)
            &&& !told[start.flow_id].owes_user_start()
            &&& later.contains_key(start.flow_id)
            &&& !later[start.flow_id].owes_user_start()
            &&& later[start.flow_id].owes_finish() == Some(end)
            &&& !flowstats::after_flush(at_once, now_ms).contains_key(start.flow_id)
            &&& !flowstats::after_flush(later, now_ms).contains_key(start.flow_id)
        }),
{
}

/// The end of a user-space flow that names no controller ID is ignored, and so are its routes.
pub proof fn law_user_flow_ignores_application_events(
    flows: Map<FlowId, FlowState>,
    user: UserState,
    finished: FlowFinished,
    route: RouteAssigned,
)
    requires
        flows.contains_key(finished.flow_id),
        flows[finished.flow_id] == FlowState::User(user),
        finished.controller_id is None,
        route.flow_id == finished.flow_id,
    ensures
        flowstats::after_message(flows, FlowStatsMessage::FlowFinished(finished)) =~= flows,
        flowstats::after_message(flows, FlowStatsMessage::RouteAssigned(route)) =~= flows,
{
}

/// An application flow that starts and then ends owes the controller its start, between the nodes
/// and at the time that were reported, and its end, with both times, however often the controller
/// was told of news in between.
pub proof fn law_app_flow_is_told_with_its_times(
    flows: Map<FlowId, FlowState>,
    start: AppFlowStart,
    finished: FlowFinished,
    now_ms: i64,
)
    requires
        !flows.contains_key(start.flow_id),
        finished.flow_id == start.flow_id,
        finished.finish_time >= start.start_time,
    ensures
        ({
            let started = flowstats::after_message(flows, FlowStatsMessage::AppFlowStart(start));
            let told = flowstats::after_flush(started, now_ms);
            let at_once = flowstats::after_message(
                started,
                FlowStatsMessage::FlowFinished(finished),
            );
            let later = flowstats::after_message(told, FlowStatsMessage::FlowFinished(finished));
            let end = Finish {
                flow_id: start.flow_id,
                controller_id: finished.controller_id,
                start_time: start.start_time,
                finish_time: finished.finish_time,
            };
            &&& started.contains_key(start.flow_id)
            &&& started[start.flow_id] matches FlowState::App(app) && app.flow_id == start.flow_id
                && app.src_node_id == start.src_node_id && app.dst_node_id == start.dst_node_id
                && app.start_time == start.start_time && app.send_start && !app.finished
                && app.route_id is None
            &&& started[start.flow_id].owes_app_start()
            &&& started[start.flow_id].owes_finish() is None
            &&& started[start.flow_id].owes_routes() == Set::<usize>::empty()
            &&& at_once[start.flow_id].owes_app_start()
            &&& at_once[start.flow_id].owes_finish() == Some(end)
            &&& told.contains_key(start.flow_id)
            &&& later[start.flow_id].owes_finish() == Some(end)
            &&& !later[start.flow_id].owes_app_start()
        }),
{
}

/// A route that is assigned to an application flow is owed to the controller, unless the flow has it
/// already; it counts also once the flow has ended. Earlier routes stay owed until they are told.
pub proof fn law_route_changes_are_told(
    flows: Map<FlowId, FlowState>,
    app: AppState,
    route: RouteAssigned,
)
    requires
        flows.contains_key(route.flow_id),
        flows[route.flow_id] == FlowState::App(app),
        route.assignment_time >= app.start_time,
    ensures
        ({
            let later = flowstats::after_message(flows, FlowStatsMessage::RouteAssigned(route));
            &&& later.contains_key(route.flow_id)
            &&& later[route.flow_id] matches FlowState::App(next) && {
                &&& next.route_id == Some(route.route_id)
                &&& next.route_updates == if app.route_id == Some(route.route_id) {
                    app.route_updates
                } else {
                    app.route_updates.insert(route.route_id)
                }
                &&& next == (AppState {
                    route_id: next.route_id,
                    route_updates: next.route_updates,
                    ..app
                })
            }
        }),
{
}

/// A route that is assigned before its flow starts waits; the last one counts. The end of a flow that
/// is not known drops the route that waited, and is told only if it names a controller ID.
pub proof fn law_unknown_flows(
    flows: Map<FlowId, FlowState>,
    first: RouteAssigned,
    second: RouteAssigned,
    finished: FlowFinished,
)
    requires
        !flows.contains_key(first.flow_id),
        second.flow_id == first.flow_id,
        finished.flow_id == first.flow_id,
        finished.controller_id is None,
    ensures
        ({
            let one = flowstats::after_message(flows, FlowStatsMessage::RouteAssigned(first));
            let two = flowstats::after_message(one, FlowStatsMessage::RouteAssigned(second));
            let end = FlowStatsMessage::FlowFinished(finished);
            &&& two.contains_key(first.flow_id)
            &&& two[first.flow_id] == FlowState::Pending(Some(second.route_id))
            &&& two[first.flow_id].owes_routes() == Set::<usize>::empty()
            &&& two[first.flow_id].owes_finish() is None
            &&& flowstats::after_message(two, end) =~= flows
            &&& flowstats::after_message(flows, end) =~= flows
        }),
{
    let one = flowstats::after_message(flows, FlowStatsMessage::RouteAssigned(first));
    let two = flowstats::after_message(one, FlowStatsMessage::RouteAssigned(second));
    assert(flowstats::after_message(two, FlowStatsMessage::FlowFinished(finished)) =~= flows);
}

/// Telling the controller changes nothing that is known of a flow but what is owed: a flow that is
/// under way stays as it was. A user-space flow that has ended is forgotten at once, an application
/// flow half a minute after its end.
pub proof fn law_telling_changes_nothing_else(
    flows: Map<FlowId, FlowState>,
    flow_id: FlowId,
    now_ms: i64,
)
    requires
        flows.contains_key(flow_id),
    ensures
        ({
            let later = flowstats::after_flush(flows, now_ms);
            match flows[flow_id] {
                FlowState::Pending(route_id) => later.contains_key(flow_id) && later[flow_id]
                    == FlowState::Pending(route_id),
                FlowState::User(user) => {
                    &&& later.contains_key(flow_id) == !user.finished
                    &&& !user.finished ==> (later[flow_id] matches FlowState::User(next)
                        && next.flow_id == user.flow_id && next.controller_id
                        == user.controller_id && next.start_time == user.start_time
                        && !next.finished && !next.pending_start && next.pending_finish is None)
                },
                FlowState::App(app) => {
                    &&& later.contains_key(flow_id) == !(app.finished && (
                    app.finish_time matches Some(end) && now_ms > end + 30_000))
                    &&& later.contains_key(flow_id) ==> (later[flow_id] matches FlowState::App(next)
                        && next.flow_id == app.flow_id && next.start_time == app.start_time
                        && next.finish_time == app.finish_time && next.src_node_id
                        == app.src_node_id && next.dst_node_id == app.dst_node_id && next.route_id
                        == app.route_id && next.controller_id == app.controller_id && next.finished
                        == app.finished && !next.send_start && !next.send_finish
                        && next.route_updates == Set::<usize>::empty())
                },
            }
        }),
        forall|other: FlowId| #[trigger]
            flowstats::after_flush(flows, now_ms).contains_key(other) ==> flows.contains_key(other),
{
}

/// How events are taken says what they changed: an end is accepted exactly if it is the first and
/// comes no earlier than the start, and a route is applied exactly if it is a new one and comes no
/// earlier than the start.
pub proof fn law_verdicts_tell_what_changed(
    app: AppState,
    time: i64,
    controller_id: Option<i32>,
    route_id: usize,
)
    ensures
        app.finish_status(time) is Late <==> time < app.start_time,
        app.finish_status(time) is Accepted <==> time >= app.start_time && !app.finished,
        app.finish_status(time) is Accepted ==> app.finish(time, controller_id).finished && app.finish(
            time,
            controller_id,
        ).finish_time == Some(time) && app.finish(time, controller_id).controller_id
            == controller_id && app.finish(time, controller_id).send_finish,
        !(app.finish_status(time) is Accepted) ==> app.finish(time, controller_id) == app,
        app.assign_result(route_id, time) is IgnoredLate <==> time < app.start_time,
        app.assign_result(route_id, time) is Unchanged <==> time >= app.start_time && app.route_id
            == Some(route_id),
        app.assign_result(route_id, time) is AppliedFinished ==> app.finished,
        app.assign_result(route_id, time) is AppliedActive ==> !app.finished,
        app.assign_result(route_id, time) is IgnoredLate || app.assign_result(
            route_id,
            time,
        ) is Unchanged <==> app.assign(route_id, time) == app,
{
}

} // verus!
