//! Keeps track of flows from start to finish, and tells the controller of each step once.

use std::collections::HashSet;

use vstd::prelude::*;

use crate::messages::{
    AppFlow, DataplaneToController, FlowFinishedInfo, RouteAssignment, UserFlowStart,
};
use crate::node::config::{self, LocalConfig};
use crate::node::packet::Packet;
use crate::node::{self, flow_id_bytes, FlowId, NodeId};

verus! {

broadcast use vstd::std_specs::hash::group_hash_axioms;

/// How long a finished application flow is remembered, in milliseconds.
pub const TTL_MS: i64 = 30_000;

/// An application flow started.
#[derive(Clone, Copy, Debug, PartialEq, Eq, Structural)]
pub struct AppFlowStart {
    pub flow_id: FlowId,
    pub src_node_id: NodeId,
    pub dst_node_id: NodeId,
    pub start_time: i64,
}

/// A flow was given a route.
#[derive(Clone, Copy, Debug, PartialEq, Eq, Structural)]
pub struct RouteAssigned {
    pub flow_id: FlowId,
    pub assignment_time: i64,
    pub route_id: usize,
}

/// A flow finished. A controller ID marks a user-space flow.
#[derive(Clone, Copy, Debug, PartialEq, Eq, Structural)]
pub struct FlowFinished {
    pub flow_id: FlowId,
    pub finish_time: i64,
    pub controller_id: Option<i32>,
}

/// A user-space flow started.
#[derive(Clone, Copy, Debug, PartialEq, Eq, Structural)]
pub struct UserSpaceFlowStart {
    pub flow_id: FlowId,
    pub controller_id: i32,
    pub start_time: i64,
}

/// What happens to flows.
#[derive(Clone, Copy, Debug, PartialEq, Eq, Structural)]
pub enum FlowStatsMessage {
    AppFlowStart(AppFlowStart),
    UserFlowStart(UserSpaceFlowStart),
    RouteAssigned(RouteAssigned),
    FlowFinished(FlowFinished),
}

/// A route that was assigned before its flow started.
#[derive(Debug)]
pub struct PendingRoute {
    pub route_id: Option<usize>,
}

/// Where an application flow stands.
#[derive(Clone, Copy, Debug, PartialEq, Eq, Structural)]
pub enum AppStage {
    Active,
    Finished,
}

/// What the controller has not been told of an application flow.
#[derive(Debug)]
pub struct AppPending {
    pub send_start: bool,
    pub route_updates: HashSet<usize>,
    pub send_finish: bool,
}

/// An application flow.
#[derive(Debug)]
pub struct AppFlowEntry {
    pub flow_id: FlowId,
    pub start_time: i64,
    pub finish_time: Option<i64>,
    pub src_node_id: NodeId,
    pub dst_node_id: NodeId,
    pub route_id: Option<usize>,
    pub controller_id: Option<i32>,
    pub stage: AppStage,
    pub pending: AppPending,
}

/// Where a user-space flow stands.
#[derive(Clone, Copy, Debug, PartialEq, Eq, Structural)]
pub enum UserStage {
    Active,
    Finished,
}

/// A user-space flow.
#[derive(Debug)]
pub struct UserFlowEntry {
    pub flow_id: FlowId,
    pub controller_id: i32,
    pub start_time: i64,
    pub stage: UserStage,
    pub pending_start: bool,
    pub pending_finish: Option<FlowFinishedInfo>,
}

/// What is known under a flow ID.
#[derive(Debug)]
pub enum FlowEntry {
    Pending(PendingRoute),
    App(AppFlowEntry),
    User(UserFlowEntry),
}

/// What a route assignment did to a flow.
#[derive(Clone, Copy, Debug, PartialEq, Eq, Structural)]
pub enum RouteUpdateResult {
    AppliedActive,
    AppliedFinished,
    IgnoredLate,
    Unchanged,
}

/// What the end of a flow did to an application flow.
#[derive(Clone, Copy, Debug, PartialEq, Eq, Structural)]
pub enum FlowFinishStatus {
    Accepted,
    Late,
    Duplicate,
}

/// What the end of a flow did to a user-space flow.
#[derive(Clone, Copy, Debug, PartialEq, Eq, Structural)]
pub enum UserFinishStatus {
    Matched,
    ControllerMismatch,
}

/// What the controller is told of the end of a flow.
#[verifier::ext_equal]
pub struct Finish {
    pub flow_id: FlowId,
    pub controller_id: Option<i32>,
    pub start_time: i64,
    pub finish_time: i64,
}

/// An application flow, as a value.
#[verifier::ext_equal]
pub struct AppState {
    pub flow_id: FlowId,
    pub start_time: i64,
    pub finish_time: Option<i64>,
    pub src_node_id: NodeId,
    pub dst_node_id: NodeId,
    pub route_id: Option<usize>,
    pub controller_id: Option<i32>,
    pub finished: bool,
    pub send_start: bool,
    pub route_updates: Set<usize>,
    pub send_finish: bool,
}

/// A user-space flow, as a value.
#[verifier::ext_equal]
pub struct UserState {
    pub flow_id: FlowId,
    pub controller_id: i32,
    pub start_time: i64,
    pub finished: bool,
    pub pending_start: bool,
    pub pending_finish: Option<Finish>,
}

/// What is known under a flow ID, as a value.
#[verifier::ext_equal]
pub enum FlowState {
    /// A route waits for its flow to start.
    Pending(Option<usize>),
    App(AppState),
    User(UserState),
}

/// Whether a message tells of the end of a flow.
pub open spec fn tells_finish(info: FlowFinishedInfo, finish: Finish) -> bool {
    &&& info.flow_id@ == node::flow_id_be_bytes(finish.flow_id)
    &&& info.controller_id == finish.controller_id
    &&& info.start_time == finish.start_time
    &&& info.finish_time == finish.finish_time
}

/// The flow that bytes stand for.
pub open spec fn flow_of_bytes(bytes: Seq<u8>) -> FlowId {
    choose|flow_id: FlowId| #[trigger] node::flow_id_be_bytes(flow_id) == bytes
}

/// What a message tells of the end of a flow.
pub open spec fn finish_of(info: FlowFinishedInfo) -> Finish {
    Finish {
        flow_id: flow_of_bytes(info.flow_id@),
        controller_id: info.controller_id,
        start_time: info.start_time,
        finish_time: info.finish_time,
    }
}

proof fn lemma_flow_of_bytes(flow_id: FlowId)
    ensures
        flow_of_bytes(node::flow_id_be_bytes(flow_id)) == flow_id,
{
    let found = flow_of_bytes(node::flow_id_be_bytes(flow_id));
    assert(node::flow_id_be_bytes(found) == node::flow_id_be_bytes(flow_id));
    node::lemma_flow_id_bytes_injective(found, flow_id);
}

impl View for AppFlowEntry {
    type V = AppState;

    open spec fn view(&self) -> AppState {
        AppState {
            flow_id: self.flow_id,
            start_time: self.start_time,
            finish_time: self.finish_time,
            src_node_id: self.src_node_id,
            dst_node_id: self.dst_node_id,
            route_id: self.route_id,
            controller_id: self.controller_id,
            finished: self.stage is Finished,
            send_start: self.pending.send_start,
            route_updates: self.pending.route_updates@,
            send_finish: self.pending.send_finish,
        }
    }
}

impl View for UserFlowEntry {
    type V = UserState;

    open spec fn view(&self) -> UserState {
        UserState {
            flow_id: self.flow_id,
            controller_id: self.controller_id,
            start_time: self.start_time,
            finished: self.stage is Finished,
            pending_start: self.pending_start,
            pending_finish: match self.pending_finish {
                Some(info) => Some(finish_of(info)),
                None => None,
            },
        }
    }
}

impl View for FlowEntry {
    type V = FlowState;

    open spec fn view(&self) -> FlowState {
        match *self {
            FlowEntry::Pending(pending) => FlowState::Pending(pending.route_id),
            FlowEntry::App(entry) => FlowState::App(entry@),
            FlowEntry::User(entry) => FlowState::User(entry@),
        }
    }
}

impl AppState {
    /// A flow that has just started, on the route that waited for it.
    pub open spec fn started(start: AppFlowStart, pending_route: Option<usize>) -> AppState {
        AppState {
            flow_id: start.flow_id,
            start_time: start.start_time,
            finish_time: None,
            src_node_id: start.src_node_id,
            dst_node_id: start.dst_node_id,
            route_id: pending_route,
            controller_id: None,
            finished: false,
            send_start: false,
            route_updates: match pending_route {
                Some(route_id) => set![route_id],
                None => Set::empty(),
            },
            send_finish: false,
        }
    }

    /// A route is assigned. One from before the start belongs to an earlier flow of the same ID.
    pub open spec fn assign(self, route_id: usize, assignment_time: i64) -> AppState {
        if assignment_time < self.start_time || self.route_id == Some(route_id) {
            self
        } else {
            AppState {
                route_id: Some(route_id),
                route_updates: self.route_updates.insert(route_id),
                ..self
            }
        }
    }

    /// How a route assignment is taken.
    pub open spec fn assign_result(self, route_id: usize, assignment_time: i64) -> RouteUpdateResult {
        if assignment_time < self.start_time {
            RouteUpdateResult::IgnoredLate
        } else if self.route_id == Some(route_id) {
            RouteUpdateResult::Unchanged
        } else if self.finished {
            RouteUpdateResult::AppliedFinished
        } else {
            RouteUpdateResult::AppliedActive
        }
    }

    /// The flow ends. An end from before the start belongs to an earlier flow of the same ID.
    pub open spec fn finish(self, finish_time: i64, controller_id: Option<i32>) -> AppState {
        if finish_time < self.start_time || self.finished {
            self
        } else {
            AppState {
                finish_time: Some(finish_time),
                controller_id,
                finished: true,
                send_finish: true,
                ..self
            }
        }
    }

    /// How the end of the flow is taken.
    pub open spec fn finish_status(self, finish_time: i64) -> FlowFinishStatus {
        if finish_time < self.start_time {
            FlowFinishStatus::Late
        } else if self.finished {
            FlowFinishStatus::Duplicate
        } else {
            FlowFinishStatus::Accepted
        }
    }

    /// The end of the flow, where there was one.
    pub open spec fn snapshot(self) -> Option<Finish> {
        match self.finish_time {
            Some(finish_time) => Some(
                Finish {
                    flow_id: self.flow_id,
                    controller_id: self.controller_id,
                    start_time: self.start_time,
                    finish_time,
                },
            ),
            None => None,
        }
    }

    /// Whether the flow finished longer ago than it is remembered.
    pub open spec fn expired(self, now_ms: i64) -> bool {
        self.finished && (self.finish_time matches Some(finish_time) && now_ms - finish_time
            > TTL_MS)
    }
}

impl UserState {
    /// A flow that has just started.
    pub open spec fn started(start: UserSpaceFlowStart) -> UserState {
        UserState {
            flow_id: start.flow_id,
            controller_id: start.controller_id,
            start_time: start.start_time,
            finished: false,
            pending_start: true,
            pending_finish: None,
        }
    }

    /// The end of the flow at a time.
    pub open spec fn finish_at(self, finish_time: i64) -> Finish {
        Finish {
            flow_id: self.flow_id,
            controller_id: Some(self.controller_id),
            start_time: self.start_time,
            finish_time,
        }
    }

    /// The flow ends, under the controller ID that the end names.
    pub open spec fn finish(self, finish_time: i64, controller_id: i32) -> UserState {
        let renamed = UserState { controller_id, ..self };
        UserState {
            finished: true,
            pending_finish: Some(renamed.finish_at(finish_time)),
            ..renamed
        }
    }

    /// A flow of which only the end is known: it counts as started when it ended.
    pub open spec fn only_finished(
        flow_id: FlowId,
        controller_id: i32,
        finish_time: i64,
    ) -> UserState {
        UserState {
            flow_id,
            controller_id,
            start_time: finish_time,
            finished: true,
            pending_start: false,
            pending_finish: Some(
                Finish {
                    flow_id,
                    controller_id: Some(controller_id),
                    start_time: finish_time,
                    finish_time,
                },
            ),
        }
    }
}

/// What an application flow start does to what was known.
pub open spec fn after_app_start(known: Option<FlowState>, start: AppFlowStart) -> FlowState {
    match known {
        Some(FlowState::App(app)) if !app.finished => FlowState::App(app),
        Some(FlowState::Pending(route_id)) => FlowState::App(
            AppState { send_start: true, ..AppState::started(start, route_id) },
        ),
        _ => FlowState::App(AppState { send_start: true, ..AppState::started(start, None) }),
    }
}

/// What a route assignment does to what was known.
pub open spec fn after_route(known: Option<FlowState>, route: RouteAssigned) -> FlowState {
    match known {
        Some(FlowState::App(app)) => FlowState::App(
            app.assign(route.route_id, route.assignment_time),
        ),
        Some(FlowState::User(user)) => FlowState::User(user),
        _ => FlowState::Pending(Some(route.route_id)),
    }
}

/// What the end of a flow does to what was known. With no controller ID, a route that waited is
/// dropped, and an end of an unknown flow is ignored.
pub open spec fn after_finish(known: Option<FlowState>, finished: FlowFinished) -> Option<
    FlowState,
> {
    match known {
        Some(FlowState::App(app)) => Some(
            FlowState::App(app.finish(finished.finish_time, finished.controller_id)),
        ),
        Some(FlowState::User(user)) => Some(
            FlowState::User(
                match finished.controller_id {
                    Some(controller_id) => user.finish(finished.finish_time, controller_id),
                    None => user,
                },
            ),
        ),
        _ => match finished.controller_id {
            Some(controller_id) => Some(
                FlowState::User(
                    UserState::only_finished(
                        finished.flow_id,
                        controller_id,
                        finished.finish_time,
                    ),
                ),
            ),
            None => None,
        },
    }
}

/// What a map knows under a key.
pub open spec fn known(flows: Map<FlowId, FlowState>, flow_id: FlowId) -> Option<FlowState> {
    if flows.contains_key(flow_id) {
        Some(flows[flow_id])
    } else {
        None
    }
}

/// What an event does to all that is known.
pub open spec fn after_message(
    flows: Map<FlowId, FlowState>,
    msg: FlowStatsMessage,
) -> Map<FlowId, FlowState> {
    match msg {
        FlowStatsMessage::AppFlowStart(start) => flows.insert(
            start.flow_id,
            after_app_start(known(flows, start.flow_id), start),
        ),
        FlowStatsMessage::UserFlowStart(start) => flows.insert(
            start.flow_id,
            FlowState::User(UserState::started(start)),
        ),
        FlowStatsMessage::RouteAssigned(route) => flows.insert(
            route.flow_id,
            after_route(known(flows, route.flow_id), route),
        ),
        FlowStatsMessage::FlowFinished(finished) => match after_finish(
            known(flows, finished.flow_id),
            finished,
        ) {
            Some(state) => flows.insert(finished.flow_id, state),
            None => flows.remove(finished.flow_id),
        },
    }
}

impl AppFlowEntry {
    /// A flow that has just started, on the route that waited for it.
    pub fn new(start: AppFlowStart, pending_route: Option<usize>) -> (entry: Self)
        ensures
            entry@ == AppState::started(start, pending_route),
    {
        let mut route_updates: HashSet<usize> = HashSet::new();
        if let Some(route_id) = pending_route {
            route_updates.insert(route_id);
        }
        let entry = AppFlowEntry {
            flow_id: start.flow_id,
            start_time: start.start_time,
            finish_time: None,
            src_node_id: start.src_node_id,
            dst_node_id: start.dst_node_id,
            route_id: pending_route,
            controller_id: None,
            stage: AppStage::Active,
            pending: AppPending { send_start: false, route_updates, send_finish: false },
        };
        assert(entry@ =~= AppState::started(start, pending_route));
        entry
    }

    /// Takes a route assignment.
    pub fn apply_route_assignment(&mut self, route_id: usize, assignment_time: i64) -> (result:
        RouteUpdateResult)
        ensures
            final(self)@ == old(self)@.assign(route_id, assignment_time),
            result == old(self)@.assign_result(route_id, assignment_time),
    {
        if assignment_time < self.start_time {
            return RouteUpdateResult::IgnoredLate;
        }
        if let Some(current) = self.route_id {
            if current == route_id {
                return RouteUpdateResult::Unchanged;
            }
        }
        self.route_id = Some(route_id);
        self.pending.route_updates.insert(route_id);
        match self.stage {
            AppStage::Active => RouteUpdateResult::AppliedActive,
            AppStage::Finished => RouteUpdateResult::AppliedFinished,
        }
    }

    /// Takes the end of the flow.
    pub fn mark_finished(&mut self, finish_time: i64, controller_id: Option<i32>) -> (status:
        FlowFinishStatus)
        ensures
            final(self)@ == old(self)@.finish(finish_time, controller_id),
            status == old(self)@.finish_status(finish_time),
    {
        if finish_time < self.start_time {
            return FlowFinishStatus::Late;
        }
        if matches!(self.stage, AppStage::Finished) {
            return FlowFinishStatus::Duplicate;
        }
        self.finish_time = Some(finish_time);
        self.controller_id = controller_id;
        self.stage = AppStage::Finished;
        self.pending.send_finish = true;
        FlowFinishStatus::Accepted
    }

    /// What the controller is told of the end of the flow, where there was one.
    pub fn finished_snapshot(&self) -> (info: Option<FlowFinishedInfo>)
        ensures
            info is Some == self@.snapshot() is Some,
            info matches Some(info) ==> tells_finish(info, self@.snapshot()->0),
    {
        match self.finish_time {
            Some(finish_time) => Some(
                FlowFinishedInfo {
                    flow_id: flow_id_bytes(self.flow_id),
                    controller_id: self.controller_id,
                    start_time: self.start_time,
                    finish_time,
                },
            ),
            None => None,
        }
    }
}

impl UserFlowEntry {
    /// A flow that has just started.
    pub fn new(start: UserSpaceFlowStart) -> (entry: Self)
        ensures
            entry@ == UserState::started(start),
    {
        UserFlowEntry {
            flow_id: start.flow_id,
            controller_id: start.controller_id,
            start_time: start.start_time,
            stage: UserStage::Active,
            pending_start: true,
            pending_finish: None,
        }
    }

    /// Takes the end of the flow.
    pub fn finish(&mut self, finish_time: i64, controller_id: i32) -> (status: UserFinishStatus)
        ensures
            final(self)@ == old(self)@.finish(finish_time, controller_id),
            status == if old(self)@.controller_id != controller_id {
                UserFinishStatus::ControllerMismatch
            } else {
                UserFinishStatus::Matched
            },
    {
        let matched = self.controller_id == controller_id;
        self.controller_id = controller_id;
        self.pending_finish = Some(self.finished_info(finish_time));
        self.stage = UserStage::Finished;
        if matched {
            UserFinishStatus::Matched
        } else {
            UserFinishStatus::ControllerMismatch
        }
    }

    /// A flow of which only the end is known.
    pub fn finished_without_start(
        flow_id: FlowId,
        controller_id: i32,
        finish_time: i64,
    ) -> (entry: Self)
        ensures
            entry@ == UserState::only_finished(flow_id, controller_id, finish_time),
    {
        let mut entry = UserFlowEntry {
            flow_id,
            controller_id,
            start_time: finish_time,
            stage: UserStage::Finished,
            pending_start: false,
            pending_finish: None,
        };
        entry.pending_finish = Some(entry.finished_info(finish_time));
        entry
    }

    /// What the controller is told of the end of the flow.
    pub fn finished_info(&self, finish_time: i64) -> (info: FlowFinishedInfo)
        ensures
            tells_finish(info, self@.finish_at(finish_time)),
            finish_of(info) == self@.finish_at(finish_time),
    {
        proof {
            lemma_flow_of_bytes(self.flow_id);
        }
        FlowFinishedInfo {
            flow_id: flow_id_bytes(self.flow_id),
            controller_id: Some(self.controller_id),
            start_time: self.start_time,
            finish_time,
        }
    }
}

/// `ahash::AHashMap`, a hash map of the outside crate `ahash`.
#[verifier::external_type_specification]
#[verifier::external_body]
#[verifier::reject_recursive_types(K)]
#[verifier::reject_recursive_types(V)]
#[verifier::reject_recursive_types(S)]
pub struct ExAHashMap<K, V, S>(ahash::AHashMap<K, V, S>);

/// `ahash::RandomState`, the hash builder that `ahash::AHashMap` uses.
#[verifier::external_type_specification]
#[verifier::external_body]
pub struct ExAHashRandomState(ahash::RandomState);

/// What an `ahash::AHashMap` of flow entries holds.
pub uninterp spec fn flow_entries(map: ahash::AHashMap<FlowId, FlowEntry>) -> Map<
    FlowId,
    FlowEntry,
>;

/// Calls `ahash::AHashMap::new`: the new map holds nothing.
#[verifier::external_body]
fn entries_new() -> (map: ahash::AHashMap<FlowId, FlowEntry>)
    ensures
        (flow_entries(map) == Map::<FlowId, FlowEntry>::empty()),
{
    ahash::AHashMap::new()
}

/// Calls `ahash::AHashMap::get`: the value under the key, where there is one.
#[verifier::external_body]
fn entries_get<'a>(map: &'a ahash::AHashMap<FlowId, FlowEntry>, flow_id: FlowId) -> (entry: Option<
    &'a FlowEntry,
>)
    ensures
        entry == (if flow_entries(*map).contains_key(flow_id) {
            Some(&flow_entries(*map)[flow_id])
        } else {
            None
        }),
{
    map.get(&flow_id)
}

/// Calls `ahash::AHashMap::insert`: the value now stands under the key.
#[verifier::external_body]
fn entries_insert(map: &mut ahash::AHashMap<FlowId, FlowEntry>, flow_id: FlowId, entry: FlowEntry)
    ensures
        flow_entries(*final(map)) == flow_entries(*old(map)).insert(flow_id, entry),
{
    map.insert(flow_id, entry);
}

/// Calls `remove` on the map inside an `ahash::AHashMap`: the value under the key is taken out and
/// returned, where there was one.
#[verifier::external_body]
fn entries_remove(map: &mut ahash::AHashMap<FlowId, FlowEntry>, flow_id: FlowId) -> (entry: Option<
    FlowEntry,
>)
    ensures
        flow_entries(*final(map)) == flow_entries(*old(map)).remove(flow_id),
        entry == (if flow_entries(*old(map)).contains_key(flow_id) {
            Some(flow_entries(*old(map))[flow_id])
        } else {
            None
        }),
{
    map.remove(&flow_id)
}

/// Calls `keys` on the map inside an `ahash::AHashMap`: every key once. The order is left open.
#[verifier::external_body]
fn entries_keys(map: &ahash::AHashMap<FlowId, FlowEntry>) -> (keys: Vec<FlowId>)
    ensures
        keys@.no_duplicates(),
        keys@.to_set() == flow_entries(*map).dom(),
{
    map.keys().copied().collect()
}

/// All flows that are known.
pub struct FlowStore {
    entries: ahash::AHashMap<FlowId, FlowEntry>,
}

impl View for FlowStore {
    type V = Map<FlowId, FlowState>;

    closed spec fn view(&self) -> Map<FlowId, FlowState> {
        flow_entries(self.entries).map_values(|entry: FlowEntry| entry@)
    }
}

impl FlowStore {
    /// No flow is known.
    pub fn new() -> (store: Self)
        ensures
            store@ == Map::<FlowId, FlowState>::empty(),
    {
        let store = FlowStore { entries: entries_new() };
        assert(store@ =~= Map::<FlowId, FlowState>::empty());
        store
    }

    /// Takes the start of an application flow. While the flow is active, another start is ignored.
    pub fn handle_app_flow_start(&mut self, app_flow: AppFlowStart)
        ensures
            final(self)@ == after_message(old(self)@, FlowStatsMessage::AppFlowStart(app_flow)),
    {
        let flow_id = app_flow.flow_id;
        let mut active: bool = false;
        if let Some(entry) = entries_get(&self.entries, flow_id) {
            if let FlowEntry::App(app_entry) = entry {
                active = matches!(app_entry.stage, AppStage::Active);
            }
        }
        if active {
            assert(self@ =~= after_message(old(self)@, FlowStatsMessage::AppFlowStart(app_flow)));
            return;
        }
        let pending_route: Option<usize> = match entries_remove(&mut self.entries, flow_id) {
            Some(FlowEntry::Pending(pending)) => pending.route_id,
            _ => None,
        };
        let mut entry = AppFlowEntry::new(app_flow, pending_route);
        entry.pending.send_start = true;
        assert(entry@ =~= (AppState {
            send_start: true,
            ..AppState::started(app_flow, pending_route)
        }));
        entries_insert(&mut self.entries, flow_id, FlowEntry::App(entry));
        assert(self@ =~= after_message(old(self)@, FlowStatsMessage::AppFlowStart(app_flow)));
    }

    /// Takes a route assignment. One for a flow that has not started waits for it.
    pub fn handle_route_assigned(&mut self, route: RouteAssigned)
        ensures
            final(self)@ == after_message(old(self)@, FlowStatsMessage::RouteAssigned(route)),
    {
        let entry = match entries_remove(&mut self.entries, route.flow_id) {
            Some(FlowEntry::App(app_entry)) => {
                let mut app_entry = app_entry;
                app_entry.apply_route_assignment(route.route_id, route.assignment_time);
                FlowEntry::App(app_entry)
            },
            Some(FlowEntry::User(user_entry)) => FlowEntry::User(user_entry),
            _ => FlowEntry::Pending(PendingRoute { route_id: Some(route.route_id) }),
        };
        entries_insert(&mut self.entries, route.flow_id, entry);
        assert(self@ =~= after_message(old(self)@, FlowStatsMessage::RouteAssigned(route)));
    }

    /// Takes the end of a flow.
    pub fn handle_flow_finished(&mut self, flow_finished: FlowFinished)
        ensures
            final(self)@ == after_message(old(self)@, FlowStatsMessage::FlowFinished(flow_finished)),
    {
        let flow_id = flow_finished.flow_id;
        let finish_time = flow_finished.finish_time;
        let entry: Option<FlowEntry> = match entries_remove(&mut self.entries, flow_id) {
            Some(FlowEntry::App(app_entry)) => {
                let mut app_entry = app_entry;
                app_entry.mark_finished(finish_time, flow_finished.controller_id);
                Some(FlowEntry::App(app_entry))
            },
            Some(FlowEntry::User(user_entry)) => {
                let mut user_entry = user_entry;
                if let Some(controller_id) = flow_finished.controller_id {
                    user_entry.finish(finish_time, controller_id);
                }
                Some(FlowEntry::User(user_entry))
            },
            _ => match flow_finished.controller_id {
                Some(controller_id) => Some(
                    FlowEntry::User(
                        UserFlowEntry::finished_without_start(flow_id, controller_id, finish_time),
                    ),
                ),
                None => None,
            },
        };
        if let Some(entry) = entry {
            entries_insert(&mut self.entries, flow_id, entry);
        }
        assert(self@ =~= after_message(
            old(self)@,
            FlowStatsMessage::FlowFinished(flow_finished),
        ));
    }

    /// Takes the start of a user-space flow, which replaces what was known under its ID.
    pub fn handle_user_flow_start(&mut self, user_flow_start: UserSpaceFlowStart)
        ensures
            final(self)@ == after_message(
                old(self)@,
                FlowStatsMessage::UserFlowStart(user_flow_start),
            ),
    {
        let flow_id = user_flow_start.flow_id;
        entries_insert(
            &mut self.entries,
            flow_id,
            FlowEntry::User(UserFlowEntry::new(user_flow_start)),
        );
        assert(self@ =~= after_message(
            old(self)@,
            FlowStatsMessage::UserFlowStart(user_flow_start),
        ));
    }

    /// The route of a flow that waits to start or is active.
    pub fn pending_route(&self, flow_id: FlowId) -> (route_id: Option<usize>)
        ensures
            route_id == (match known(self@, flow_id) {
                Some(FlowState::Pending(route_id)) => route_id,
                Some(FlowState::App(app)) if !app.finished => app.route_id,
                _ => None,
            }),
    {
        match entries_get(&self.entries, flow_id) {
            Some(FlowEntry::Pending(pending)) => pending.route_id,
            Some(FlowEntry::App(app_entry)) => if matches!(app_entry.stage, AppStage::Active) {
                app_entry.route_id
            } else {
                None
            },
            _ => None,
        }
    }

    /// The application flow under an ID.
    pub fn app_entry(&self, flow_id: FlowId) -> (entry: Option<&AppFlowEntry>)
        ensures
            (match entry {
                Some(entry) => known(self@, flow_id) == Some(FlowState::App(entry@)),
                None => !(known(self@, flow_id) matches Some(FlowState::App(_))),
            }),
    {
        match entries_get(&self.entries, flow_id) {
            Some(FlowEntry::App(app_entry)) => Some(app_entry),
            _ => None,
        }
    }

    /// Whether a finished application flow is remembered under an ID.
    pub fn has_finished_app_entry(&self, flow_id: FlowId) -> (finished: bool)
        ensures
            finished == (known(self@, flow_id) matches Some(FlowState::App(app)) && app.finished),
    {
        match entries_get(&self.entries, flow_id) {
            Some(FlowEntry::App(app_entry)) => matches!(app_entry.stage, AppStage::Finished),
            _ => false,
        }
    }
}

/// What the controller is told of flows at one time.
pub struct FlushOutput {
    pub app_flows: Vec<AppFlow>,
    pub assignments: Vec<RouteAssignment>,
    pub finishes: Vec<FlowFinishedInfo>,
    pub user_starts: Vec<UserFlowStart>,
}

impl FlowState {
    /// Whether the start of an application flow is still to be told.
    pub open spec fn owes_app_start(self) -> bool {
        self matches FlowState::App(app) && app.send_start
    }

    /// Whether the start of a user-space flow is still to be told.
    pub open spec fn owes_user_start(self) -> bool {
        self matches FlowState::User(user) && user.pending_start
    }

    /// The routes that are still to be told.
    pub open spec fn owes_routes(self) -> Set<usize> {
        match self {
            FlowState::App(app) => app.route_updates,
            _ => Set::empty(),
        }
    }

    /// The end that is still to be told.
    pub open spec fn owes_finish(self) -> Option<Finish> {
        match self {
            FlowState::App(app) => if app.send_finish {
                app.snapshot()
            } else {
                None
            },
            FlowState::User(user) => user.pending_finish,
            FlowState::Pending(_) => None,
        }
    }

    /// What is left once everything is told: nothing of a flow that is over and needs no
    /// remembering.
    pub open spec fn told(self, now_ms: i64) -> Option<FlowState> {
        match self {
            FlowState::Pending(route_id) => Some(FlowState::Pending(route_id)),
            FlowState::App(app) => if app.expired(now_ms) {
                None
            } else {
                Some(
                    FlowState::App(
                        AppState {
                            send_start: false,
                            route_updates: Set::empty(),
                            send_finish: false,
                            ..app
                        },
                    ),
                )
            },
            FlowState::User(user) => if user.finished {
                None
            } else {
                Some(
                    FlowState::User(
                        UserState { pending_start: false, pending_finish: None, ..user },
                    ),
                )
            },
        }
    }
}

/// What is known once everything is told.
pub open spec fn after_flush(flows: Map<FlowId, FlowState>, now_ms: i64) -> Map<FlowId, FlowState> {
    Map::new(
        |flow_id: FlowId| flows.contains_key(flow_id) && flows[flow_id].told(now_ms) is Some,
        |flow_id: FlowId| flows[flow_id].told(now_ms)->0,
    )
}

/// Whether a message tells of the start of an application flow.
pub open spec fn tells_app_start(flow: AppFlow, state: FlowState) -> bool {
    state matches FlowState::App(app) && {
        &&& flow.flow_id@ == node::flow_id_be_bytes(app.flow_id)
        &&& flow.src_node_id == app.src_node_id
        &&& flow.dst_node_id == app.dst_node_id
        &&& flow.start_time == app.start_time
    }
}

/// Whether a message tells of the start of a user-space flow.
pub open spec fn tells_user_start(flow: UserFlowStart, state: FlowState) -> bool {
    state matches FlowState::User(user) && {
        &&& flow.flow_id@ == node::flow_id_be_bytes(user.flow_id)
        &&& flow.controller_id == user.controller_id
        &&& flow.start_time == user.start_time
    }
}

/// Whether a message tells of a route, as of the start of the flow.
pub open spec fn tells_route(
    assignment: RouteAssignment,
    state: FlowState,
    route_id: usize,
) -> bool {
    state matches FlowState::App(app) && {
        &&& assignment.flow_id@ == node::flow_id_be_bytes(app.flow_id)
        &&& assignment.route_id == route_id
        &&& assignment.time == app.start_time
    }
}

/// Whether messages tell of the starts of application flows that are owed, one each; `order` is
/// the flows in the order of the messages.
pub open spec fn app_starts_told(
    flows: Map<FlowId, FlowState>,
    told: Seq<AppFlow>,
    order: Seq<FlowId>,
) -> bool {
    &&& order.no_duplicates()
    &&& order.len() == told.len()
    &&& forall|k: FlowId|
        #![trigger order.contains(k)]
        order.contains(k) <==> flows.contains_key(k) && flows[k].owes_app_start()
    &&& forall|i: int|
        0 <= i < order.len() ==> tells_app_start(#[trigger] told[i], flows[order[i]])
}

/// Whether messages tell of the starts of user-space flows that are owed, one each.
pub open spec fn user_starts_told(
    flows: Map<FlowId, FlowState>,
    told: Seq<UserFlowStart>,
    order: Seq<FlowId>,
) -> bool {
    &&& order.no_duplicates()
    &&& order.len() == told.len()
    &&& forall|k: FlowId|
        #![trigger order.contains(k)]
        order.contains(k) <==> flows.contains_key(k) && flows[k].owes_user_start()
    &&& forall|i: int|
        0 <= i < order.len() ==> tells_user_start(#[trigger] told[i], flows[order[i]])
}

/// Whether messages tell of the ends of flows that are owed, one each.
pub open spec fn finishes_told(
    flows: Map<FlowId, FlowState>,
    told: Seq<FlowFinishedInfo>,
    order: Seq<FlowId>,
) -> bool {
    &&& order.no_duplicates()
    &&& order.len() == told.len()
    &&& forall|k: FlowId|
        #![trigger order.contains(k)]
        order.contains(k) <==> flows.contains_key(k) && flows[k].owes_finish() is Some
    &&& forall|i: int|
        0 <= i < order.len() ==> finish_of(#[trigger] told[i]) == flows[order[i]].owes_finish()->0
}

/// Whether messages tell of the routes of flows that are owed, one each.
pub open spec fn routes_told(
    flows: Map<FlowId, FlowState>,
    told: Seq<RouteAssignment>,
    order: Seq<(FlowId, usize)>,
) -> bool {
    &&& order.no_duplicates()
    &&& order.len() == told.len()
    &&& forall|pair: (FlowId, usize)|
        #![trigger order.contains(pair)]
        order.contains(pair) <==> flows.contains_key(pair.0) && flows[pair.0].owes_routes().contains(
            pair.1,
        )
    &&& forall|i: int|
        0 <= i < order.len() ==> tells_route(
            #[trigger] told[i],
            flows[order[i].0],
            order[i].1,
        )
}

/// The members of a set of routes, in some order.
fn route_list(routes: &HashSet<usize>) -> (list: Vec<usize>)
    ensures
        list@.no_duplicates(),
        list@.to_set() == routes@,
{
    let mut list: Vec<usize> = Vec::new();
    let members = routes.iter();
    let ghost all = vstd::std_specs::iter::IteratorSpec::remaining(&members).unref();
    for route_id in iter: members
        invariant
            iter.seq().unref() == all,
            list@ == all.take(iter.index()),
    {
        list.push(*route_id);
        assert(list@ =~= all.take(iter.index() + 1));
    }
    assert(list@ =~= all);
    list
}

/// What was told before, then at most one message more.
spec fn told_more<T>(before: Seq<T>, after: Seq<T>, more: bool) -> bool {
    after.len() == before.len() + if more {
        1int
    } else {
        0int
    } && after.take(before.len() as int) == before
}

/// Tells what is owed of one application flow, and returns whether to keep it.
fn flush_app(app_entry: &mut AppFlowEntry, now_ms: i64, output: &mut FlushOutput) -> (keep: bool)
    ensures
        keep == (FlowState::App(old(app_entry)@).told(now_ms) is Some),
        keep ==> Some(FlowState::App(final(app_entry)@)) == FlowState::App(
            old(app_entry)@,
        ).told(now_ms),
        final(output).user_starts@ == old(output).user_starts@,
        ({
            let state = FlowState::App(old(app_entry)@);
            &&& told_more(
                old(output).app_flows@,
                final(output).app_flows@,
                state.owes_app_start(),
            )
            &&& state.owes_app_start() ==> tells_app_start(final(output).app_flows@.last(), state)
            &&& told_more(
                old(output).finishes@,
                final(output).finishes@,
                state.owes_finish() is Some,
            )
            &&& state.owes_finish() is Some ==> finish_of(final(output).finishes@.last())
                == state.owes_finish()->0
            &&& exists|routes: Seq<usize>|
                {
                    &&& #[trigger] routes.no_duplicates()
                    &&& routes.to_set() == state.owes_routes()
                    &&& final(output).assignments@.len() == old(output).assignments@.len()
                        + routes.len()
                    &&& final(output).assignments@.take(old(output).assignments@.len() as int)
                        == old(output).assignments@
                    &&& forall|j: int|
                        0 <= j < routes.len() ==> tells_route(
                            #[trigger] final(output).assignments@[old(output).assignments@.len()
                                + j],
                            state,
                            routes[j],
                        )
                }
        }),
{
    let ghost state = FlowState::App(app_entry@);
    let ghost before = *output;
    if app_entry.pending.send_start {
        output.app_flows.push(
            AppFlow {
                flow_id: flow_id_bytes(app_entry.flow_id),
                src_node_id: app_entry.src_node_id,
                dst_node_id: app_entry.dst_node_id,
                start_time: app_entry.start_time,
            },
        );
        app_entry.pending.send_start = false;
    }
    assert(output.app_flows@.take(before.app_flows@.len() as int) =~= before.app_flows@);
    let routes = route_list(&app_entry.pending.route_updates);
    let ghost mid = *output;
    let mut i: usize = 0;
    assert(output.assignments@.take(before.assignments@.len() as int) =~= before.assignments@);
    while i < routes.len()
        invariant
            i <= routes.len(),
            state == FlowState::App(old(app_entry)@),
            app_entry.flow_id == old(app_entry).flow_id,
            app_entry.start_time == old(app_entry).start_time,
            output.app_flows == mid.app_flows,
            output.finishes == mid.finishes,
            output.user_starts == mid.user_starts,
            output.assignments@.len() == before.assignments@.len() + i,
            output.assignments@.take(before.assignments@.len() as int) == before.assignments@,
            forall|j: int|
                0 <= j < i ==> tells_route(
                    #[trigger] output.assignments@[before.assignments@.len() + j],
                    state,
                    routes@[j],
                ),
        decreases routes.len() - i,
    {
        let ghost earlier = output.assignments@;
        output.assignments.push(
            RouteAssignment {
                flow_id: flow_id_bytes(app_entry.flow_id),
                route_id: routes[i],
                time: app_entry.start_time,
            },
        );
        i = i + 1;
        assert(output.assignments@.take(before.assignments@.len() as int) =~= earlier.take(
            before.assignments@.len() as int,
        ));
    }
    app_entry.pending.route_updates.clear();
    if app_entry.pending.send_finish {
        if let Some(finished) = app_entry.finished_snapshot() {
            proof {
                lemma_flow_of_bytes(app_entry.flow_id);
            }
            output.finishes.push(finished);
        }
        app_entry.pending.send_finish = false;
    }
    assert(output.finishes@.take(before.finishes@.len() as int) =~= before.finishes@);
    assert(routes@.no_duplicates());
    if matches!(app_entry.stage, AppStage::Finished) {
        if let Some(finish_time) = app_entry.finish_time {
            if now_ms as i128 - finish_time as i128 > TTL_MS as i128 {
                return false;
            }
        }
    }
    true
}

/// Tells what is owed of one user-space flow, and returns whether to keep it.
fn flush_user(user_entry: &mut UserFlowEntry, output: &mut FlushOutput) -> (keep: bool)
    ensures
        forall|now_ms: i64|
            #![trigger FlowState::User(old(user_entry)@).told(now_ms)]
            {
                &&& keep == (FlowState::User(old(user_entry)@).told(now_ms) is Some)
                &&& keep ==> Some(FlowState::User(final(user_entry)@)) == FlowState::User(
                    old(user_entry)@,
                ).told(now_ms)
            },
        final(output).app_flows@ == old(output).app_flows@,
        final(output).assignments@ == old(output).assignments@,
        ({
            let state = FlowState::User(old(user_entry)@);
            &&& told_more(
                old(output).user_starts@,
                final(output).user_starts@,
                state.owes_user_start(),
            )
            &&& state.owes_user_start() ==> tells_user_start(
                final(output).user_starts@.last(),
                state,
            )
            &&& told_more(
                old(output).finishes@,
                final(output).finishes@,
                state.owes_finish() is Some,
            )
            &&& state.owes_finish() is Some ==> finish_of(final(output).finishes@.last())
                == state.owes_finish()->0
        }),
{
    let ghost before = *output;
    if user_entry.pending_start {
        output.user_starts.push(
            UserFlowStart {
                controller_id: user_entry.controller_id,
                flow_id: flow_id_bytes(user_entry.flow_id),
                start_time: user_entry.start_time,
            },
        );
        user_entry.pending_start = false;
    }
    assert(output.user_starts@.take(before.user_starts@.len() as int) =~= before.user_starts@);
    if let Some(info) = user_entry.pending_finish.take() {
        output.finishes.push(info);
    }
    assert(output.finishes@.take(before.finishes@.len() as int) =~= before.finishes@);
    matches!(user_entry.stage, UserStage::Active)
}

proof fn lemma_contains_after_push<T>(order: Seq<T>, k: T, x: T)
    ensures
        order.push(k).contains(x) <==> order.contains(x) || x == k,
{
    let next = order.push(k);
    assert(next[order.len() as int] == k);
    if order.contains(x) {
        let i = choose|i: int| 0 <= i < order.len() && order[i] == x;
        assert(next[i] == x);
    }
    if next.contains(x) {
        let i = choose|i: int| 0 <= i < next.len() && next[i] == x;
        if i < order.len() {
            assert(order[i] == x);
        }
    }
}

proof fn lemma_app_starts_step(
    flows: Map<FlowId, FlowState>,
    done: Set<FlowId>,
    k: FlowId,
    before: Seq<AppFlow>,
    after: Seq<AppFlow>,
    order: Seq<FlowId>,
) -> (next: Seq<FlowId>)
    requires
        app_starts_told(flows.restrict(done), before, order),
        flows.contains_key(k),
        !done.contains(k),
        told_more(before, after, flows[k].owes_app_start()),
        flows[k].owes_app_start() ==> tells_app_start(after.last(), flows[k]),
    ensures
        app_starts_told(flows.restrict(done.insert(k)), after, next),
{
    let next = if flows[k].owes_app_start() {
        order.push(k)
    } else {
        order
    };
    let part = flows.restrict(done);
    let more = flows.restrict(done.insert(k));
    assert(!order.contains(k));
    assert forall|x: FlowId| #[trigger] next.contains(x) <==> order.contains(x) || (flows[k].owes_app_start()
        && x == k) by {
        lemma_contains_after_push(order, k, x);
    }
    assert forall|i: int| 0 <= i < next.len() implies tells_app_start(#[trigger] after[i], more[next[i]]) by {
        if i < order.len() {
            assert(order.contains(order[i]));
            assert(after[i] == after.take(before.len() as int)[i]);
            assert(tells_app_start(before[i], part[order[i]]));
        }
    }
    next
}

proof fn lemma_user_starts_step(
    flows: Map<FlowId, FlowState>,
    done: Set<FlowId>,
    k: FlowId,
    before: Seq<UserFlowStart>,
    after: Seq<UserFlowStart>,
    order: Seq<FlowId>,
) -> (next: Seq<FlowId>)
    requires
        user_starts_told(flows.restrict(done), before, order),
        flows.contains_key(k),
        !done.contains(k),
        told_more(before, after, flows[k].owes_user_start()),
        flows[k].owes_user_start() ==> tells_user_start(after.last(), flows[k]),
    ensures
        user_starts_told(flows.restrict(done.insert(k)), after, next),
{
    let next = if flows[k].owes_user_start() {
        order.push(k)
    } else {
        order
    };
    let part = flows.restrict(done);
    let more = flows.restrict(done.insert(k));
    assert(!order.contains(k));
    assert forall|x: FlowId| #[trigger] next.contains(x) <==> order.contains(x) || (flows[k].owes_user_start()
        && x == k) by {
        lemma_contains_after_push(order, k, x);
    }
    assert forall|i: int| 0 <= i < next.len() implies tells_user_start(#[trigger] after[i], more[next[i]]) by {
        if i < order.len() {
            assert(order.contains(order[i]));
            assert(after[i] == after.take(before.len() as int)[i]);
            assert(tells_user_start(before[i], part[order[i]]));
        }
    }
    next
}

proof fn lemma_finishes_step(
    flows: Map<FlowId, FlowState>,
    done: Set<FlowId>,
    k: FlowId,
    before: Seq<FlowFinishedInfo>,
    after: Seq<FlowFinishedInfo>,
    order: Seq<FlowId>,
) -> (next: Seq<FlowId>)
    requires
        finishes_told(flows.restrict(done), before, order),
        flows.contains_key(k),
        !done.contains(k),
        told_more(before, after, flows[k].owes_finish() is Some),
        flows[k].owes_finish() is Some ==> finish_of(after.last()) == flows[k].owes_finish()->0,
    ensures
        finishes_told(flows.restrict(done.insert(k)), after, next),
{
    let next = if flows[k].owes_finish() is Some {
        order.push(k)
    } else {
        order
    };
    let part = flows.restrict(done);
    let more = flows.restrict(done.insert(k));
    assert(!order.contains(k));
    assert forall|x: FlowId| #[trigger] next.contains(x) <==> order.contains(x) || (flows[k].owes_finish() is Some
        && x == k) by {
        lemma_contains_after_push(order, k, x);
    }
    assert forall|i: int| 0 <= i < next.len() implies finish_of(#[trigger] after[i]) == more[next[i]].owes_finish()->0 by {
        if i < order.len() {
            assert(order.contains(order[i]));
            assert(after[i] == after.take(before.len() as int)[i]);
            assert(finish_of(before[i]) == part[order[i]].owes_finish()->0);
        }
    }
    next
}

proof fn lemma_routes_step(
    flows: Map<FlowId, FlowState>,
    done: Set<FlowId>,
    k: FlowId,
    before: Seq<RouteAssignment>,
    after: Seq<RouteAssignment>,
    routes: Seq<usize>,
    order: Seq<(FlowId, usize)>,
) -> (next: Seq<(FlowId, usize)>)
    requires
        routes_told(flows.restrict(done), before, order),
        flows.contains_key(k),
        !done.contains(k),
        routes.no_duplicates(),
        routes.to_set() == flows[k].owes_routes(),
        after.len() == before.len() + routes.len(),
        after.take(before.len() as int) == before,
        forall|j: int|
            0 <= j < routes.len() ==> tells_route(
                #[trigger] after[before.len() + j],
                flows[k],
                routes[j],
            ),
    ensures
        routes_told(flows.restrict(done.insert(k)), after, next),
{
    let added = routes.map_values(|route_id: usize| (k, route_id));
    let next = order + added;
    let part = flows.restrict(done);
    let more = flows.restrict(done.insert(k));
    assert forall|pair: (FlowId, usize)| #[trigger] next.contains(pair) <==> more.contains_key(
        pair.0,
    ) && more[pair.0].owes_routes().contains(pair.1) by {
        if next.contains(pair) {
            let i = choose|i: int| 0 <= i < next.len() && next[i] == pair;
            if i < order.len() {
                assert(order.contains(order[i]));
            } else {
                assert(routes.to_set().contains(routes[i - order.len()]));
            }
        }
        if more.contains_key(pair.0) && more[pair.0].owes_routes().contains(pair.1) {
            if pair.0 == k {
                assert(routes.to_set().contains(pair.1));
                let j = choose|j: int| 0 <= j < routes.len() && routes[j] == pair.1;
                assert(next[order.len() + j] == pair);
            } else {
                assert(order.contains(pair));
                let i = choose|i: int| 0 <= i < order.len() && order[i] == pair;
                assert(next[i] == pair);
            }
        }
    }
    assert(next.no_duplicates()) by {
        assert forall|i: int, j: int| 0 <= i < j < next.len() implies next[i] != next[j] by {
            if i < order.len() {
                assert(order.contains(order[i]));
                assert(order[i].0 != k);
            } else {
                assert(routes[i - order.len()] != routes[j - order.len()]);
            }
        }
    }
    assert forall|i: int| 0 <= i < next.len() implies tells_route(
        #[trigger] after[i],
        more[next[i].0],
        next[i].1,
    ) by {
        if i < order.len() {
            assert(order.contains(order[i]));
            assert(after[i] == after.take(before.len() as int)[i]);
            assert(tells_route(before[i], part[order[i].0], order[i].1));
        } else {
            assert(tells_route(
                after[before.len() + (i - order.len())],
                flows[k],
                routes[i - order.len()],
            ));
        }
    }
    next
}

impl FlowStore {
    /// Hands out everything that the controller has not been told, and forgets the flows that are
    /// over: user-space flows at once, application flows some time after they finished.
    pub fn flush(&mut self, now_ms: i64) -> (output: FlushOutput)
        ensures
            final(self)@ == after_flush(old(self)@, now_ms),
            exists|order: Seq<FlowId>|
                app_starts_told(old(self)@, output.app_flows@, order),
            exists|order: Seq<FlowId>|
                user_starts_told(old(self)@, output.user_starts@, order),
            exists|order: Seq<FlowId>| finishes_told(old(self)@, output.finishes@, order),
            exists|order: Seq<(FlowId, usize)>|
                routes_told(old(self)@, output.assignments@, order),
    {
        let mut output = FlushOutput {
            app_flows: Vec::new(),
            assignments: Vec::new(),
            finishes: Vec::new(),
            user_starts: Vec::new(),
        };
        let keys = entries_keys(&self.entries);
        let ghost flows = self@;
        let ghost mut starts: Seq<FlowId> = Seq::empty();
        let ghost mut users: Seq<FlowId> = Seq::empty();
        let ghost mut ends: Seq<FlowId> = Seq::empty();
        let ghost mut routed: Seq<(FlowId, usize)> = Seq::empty();
        let mut i: usize = 0;
        assert(keys@.take(0).to_set() =~= Set::empty());
        assert forall|k: FlowId| flows.contains_key(k) <==> #[trigger] keys@.contains(k) by {
            assert(keys@.to_set().contains(k) <==> flow_entries(self.entries).contains_key(k));
        }
        while i < keys.len()
            invariant
                i <= keys.len(),
                keys@.no_duplicates(),
                flows == old(self)@,
                forall|k: FlowId| flows.contains_key(k) <==> #[trigger] keys@.contains(k),
                forall|k: FlowId|
                    #![trigger known(self@, k)]
                    known(self@, k) == if keys@.take(i as int).to_set().contains(k) {
                        flows[k].told(now_ms)
                    } else {
                        known(flows, k)
                    },
                app_starts_told(
                    flows.restrict(keys@.take(i as int).to_set()),
                    output.app_flows@,
                    starts,
                ),
                user_starts_told(
                    flows.restrict(keys@.take(i as int).to_set()),
                    output.user_starts@,
                    users,
                ),
                finishes_told(
                    flows.restrict(keys@.take(i as int).to_set()),
                    output.finishes@,
                    ends,
                ),
                routes_told(
                    flows.restrict(keys@.take(i as int).to_set()),
                    output.assignments@,
                    routed,
                ),
            decreases keys.len() - i,
        {
            let flow_id = keys[i];
            let ghost prior = self@;
            let ghost done = keys@.take(i as int).to_set();
            let ghost told = output;
            proof {
                assert(keys@.contains(keys@[i as int]));
                assert(!done.contains(flow_id));
                assert(known(prior, flow_id) == known(flows, flow_id));
                assert(keys@.take(i + 1).to_set() =~= done.insert(flow_id)) by {
                    assert(keys@.take(i + 1) =~= keys@.take(i as int).push(flow_id));
                    assert forall|x: FlowId| keys@.take(i + 1).contains(x) <==> keys@.take(
                        i as int,
                    ).contains(x) || x == flow_id by {
                        lemma_contains_after_push(keys@.take(i as int), flow_id, x);
                    }
                }
            }
            let entry = entries_remove(&mut self.entries, flow_id);
            let ghost mut routes: Seq<usize> = Seq::empty();
            match entry {
                Some(FlowEntry::Pending(pending)) => {
                    entries_insert(&mut self.entries, flow_id, FlowEntry::Pending(pending));
                    proof {
                        assert(output.app_flows@.take(told.app_flows@.len() as int)
                            =~= told.app_flows@);
                        assert(output.user_starts@.take(told.user_starts@.len() as int)
                            =~= told.user_starts@);
                        assert(output.finishes@.take(told.finishes@.len() as int)
                            =~= told.finishes@);
                        assert(output.assignments@.take(told.assignments@.len() as int)
                            =~= told.assignments@);
                        assert(routes.to_set() =~= Set::empty());
                    }
                },
                Some(FlowEntry::App(app_entry)) => {
                    let mut app_entry = app_entry;
                    let ghost state = FlowState::App(app_entry@);
                    let keep = flush_app(&mut app_entry, now_ms, &mut output);
                    if keep {
                        entries_insert(&mut self.entries, flow_id, FlowEntry::App(app_entry));
                    }
                    proof {
                        routes = choose|routes: Seq<usize>|
                            {
                                &&& #[trigger] routes.no_duplicates()
                                &&& routes.to_set() == state.owes_routes()
                                &&& output.assignments@.len() == told.assignments@.len()
                                    + routes.len()
                                &&& output.assignments@.take(told.assignments@.len() as int)
                                    == told.assignments@
                                &&& forall|j: int|
                                    0 <= j < routes.len() ==> tells_route(
                                        #[trigger] output.assignments@[told.assignments@.len()
                                            + j],
                                        state,
                                        routes[j],
                                    )
                            };
                        assert(output.user_starts@.take(told.user_starts@.len() as int)
                            =~= told.user_starts@);
                    }
                },
                Some(FlowEntry::User(user_entry)) => {
                    let mut user_entry = user_entry;
                    let ghost state = FlowState::User(user_entry@);
                    let keep = flush_user(&mut user_entry, &mut output);
                    assert(keep == (state.told(now_ms) is Some));
                    if keep {
                        entries_insert(&mut self.entries, flow_id, FlowEntry::User(user_entry));
                    }
                    proof {
                        assert(output.app_flows@.take(told.app_flows@.len() as int)
                            =~= told.app_flows@);
                        assert(output.assignments@.take(told.assignments@.len() as int)
                            =~= told.assignments@);
                        assert(routes.to_set() =~= Set::empty());
                    }
                },
                None => {
                    assert(false);
                },
            }
            proof {
                starts = lemma_app_starts_step(
                    flows,
                    done,
                    flow_id,
                    told.app_flows@,
                    output.app_flows@,
                    starts,
                );
                users = lemma_user_starts_step(
                    flows,
                    done,
                    flow_id,
                    told.user_starts@,
                    output.user_starts@,
                    users,
                );
                ends = lemma_finishes_step(
                    flows,
                    done,
                    flow_id,
                    told.finishes@,
                    output.finishes@,
                    ends,
                );
                routed = lemma_routes_step(
                    flows,
                    done,
                    flow_id,
                    told.assignments@,
                    output.assignments@,
                    routes,
                    routed,
                );
                assert forall|k: FlowId| #[trigger] known(self@, k) == if keys@.take(
                    i + 1,
                ).to_set().contains(k) {
                    flows[k].told(now_ms)
                } else {
                    known(flows, k)
                } by {
                    assert(known(prior, k) == if done.contains(k) {
                        flows[k].told(now_ms)
                    } else {
                        known(flows, k)
                    });
                }
            }
            i = i + 1;
        }
        proof {
            assert(keys@.take(i as int) =~= keys@);
            assert(flows.restrict(keys@.to_set()) =~= flows);
            assert forall|k: FlowId| self@.contains_key(k) <==> after_flush(
                flows,
                now_ms,
            ).contains_key(k) by {
                assert(known(self@, k) == if keys@.to_set().contains(k) {
                    flows[k].told(now_ms)
                } else {
                    known(flows, k)
                });
            }
            assert forall|k: FlowId| self@.contains_key(k) implies #[trigger] self@[k]
                == after_flush(flows, now_ms)[k] by {
                assert(known(self@, k) == if keys@.to_set().contains(k) {
                    flows[k].told(now_ms)
                } else {
                    known(flows, k)
                });
            }
            assert(self@ =~= after_flush(flows, now_ms));
        }
        output
    }
}

/// The messages that carry what is told, in the order in which they are sent. A kind of news of
/// which there is none is left out.
pub open spec fn messages_of(output: FlushOutput) -> Seq<DataplaneToController> {
    let appflows = if output.app_flows@.len() > 0 {
        seq![DataplaneToController::AppFlowStart { appflows: output.app_flows }]
    } else {
        Seq::empty()
    };
    let users = if output.user_starts@.len() > 0 {
        seq![DataplaneToController::UserFlowStart { flows: output.user_starts }]
    } else {
        Seq::empty()
    };
    let routes = if output.assignments@.len() > 0 {
        seq![DataplaneToController::RouteAssigned { assignments: output.assignments }]
    } else {
        Seq::empty()
    };
    let finishes = if output.finishes@.len() > 0 {
        seq![DataplaneToController::FlowFinished { flows: output.finishes }]
    } else {
        Seq::empty()
    };
    appflows + users + routes + finishes
}

/// Whether an output tells exactly what is owed.
pub open spec fn tells_all(flows: Map<FlowId, FlowState>, output: FlushOutput) -> bool {
    &&& exists|order: Seq<FlowId>| app_starts_told(flows, output.app_flows@, order)
    &&& exists|order: Seq<FlowId>| user_starts_told(flows, output.user_starts@, order)
    &&& exists|order: Seq<FlowId>| finishes_told(flows, output.finishes@, order)
    &&& exists|order: Seq<(FlowId, usize)>| routes_told(flows, output.assignments@, order)
}

/// Gathers flow events, and reports them from time to time.
pub struct FlowStatsReporter {
    pub flows: FlowStore,
}

impl FlowStatsReporter {
    /// A reporter that knows no flow.
    pub fn new() -> (reporter: Self)
        ensures
            reporter.flows@ == Map::<FlowId, FlowState>::empty(),
    {
        FlowStatsReporter { flows: FlowStore::new() }
    }

    /// Takes an event.
    pub fn handle_message(&mut self, msg: FlowStatsMessage)
        ensures
            final(self).flows@ == after_message(old(self).flows@, msg),
    {
        match msg {
            FlowStatsMessage::AppFlowStart(app_flow) => {
                self.flows.handle_app_flow_start(app_flow);
            },
            FlowStatsMessage::RouteAssigned(route_assigned) => {
                self.flows.handle_route_assigned(route_assigned);
            },
            FlowStatsMessage::FlowFinished(flow_finished) => {
                self.flows.handle_flow_finished(flow_finished);
            },
            FlowStatsMessage::UserFlowStart(user_flow_start) => {
                self.flows.handle_user_flow_start(user_flow_start);
            },
        }
    }

    /// The messages to send at time `now_ms`.
    pub fn flush(&mut self, now_ms: i64) -> (msgs: Vec<DataplaneToController>)
        ensures
            final(self).flows@ == after_flush(old(self).flows@, now_ms),
            exists|output: FlushOutput|
                tells_all(old(self).flows@, output) && msgs@ == #[trigger] messages_of(output),
    {
        let output = self.flows.flush(now_ms);
        assert(tells_all(old(self).flows@, output));
        let ghost told = output;
        let FlushOutput { app_flows, assignments, finishes, user_starts } = output;
        let mut msgs: Vec<DataplaneToController> = Vec::new();
        if app_flows.len() > 0 {
            msgs.push(DataplaneToController::AppFlowStart { appflows: app_flows });
        }
        if user_starts.len() > 0 {
            msgs.push(DataplaneToController::UserFlowStart { flows: user_starts });
        }
        if assignments.len() > 0 {
            msgs.push(DataplaneToController::RouteAssigned { assignments });
        }
        if finishes.len() > 0 {
            msgs.push(DataplaneToController::FlowFinished { flows: finishes });
        }
        assert(msgs@ =~= messages_of(told));
        msgs
    }
}

/// Turns what happens to flows into messages, at given times in milliseconds.
#[derive(Debug)]
pub struct FlowStatsReporterHandle {
    pub config: LocalConfig,
}

impl FlowStatsReporterHandle {
    /// A handle for a node.
    pub fn new(config: LocalConfig) -> (handle: Self)
        ensures
            handle.config == config,
    {
        FlowStatsReporterHandle { config }
    }

    /// Whether both ends of a flow have node IDs.
    pub open spec fn knows_ends(&self, flow_id: FlowId) -> bool {
        &&& !config::below_base(self.config, node::flow_src(flow_id))
        &&& !config::below_base(self.config, node::flow_dst(flow_id))
    }

    /// The start of an application flow.
    pub open spec fn app_flow(&self, flow_id: FlowId, now_ms: i64) -> FlowStatsMessage {
        FlowStatsMessage::AppFlowStart(
            AppFlowStart {
                flow_id,
                src_node_id: config::node_of_ip(self.config, node::flow_src(flow_id)),
                dst_node_id: config::node_of_ip(self.config, node::flow_dst(flow_id)),
                start_time: now_ms,
            },
        )
    }

    /// What a packet says of its flow: FIN or RST that it finished, data that it is under way. An
    /// acknowledgement without payload says nothing.
    pub fn report_packet(&self, packet: &Packet, now_ms: i64) -> (event: Option<FlowStatsMessage>)
        requires
            !packet.spec_is_fin_or_rst() && packet.spec_is_data() ==> self.knows_ends(
                packet.flow_id,
            ),
        ensures
            event == if packet.spec_is_fin_or_rst() {
                Some(
                    FlowStatsMessage::FlowFinished(
                        FlowFinished {
                            flow_id: packet.flow_id,
                            finish_time: now_ms,
                            controller_id: None,
                        },
                    ),
                )
            } else if packet.spec_is_data() {
                Some(self.app_flow(packet.flow_id, now_ms))
            } else {
                None
            },
    {
        if packet.is_tcp_fin_or_rst() {
            Some(self.report_flow_finished(packet.flow_id, None, now_ms))
        } else if packet.is_tcp_data() {
            Some(self.report_app_flow(packet.flow_id, now_ms))
        } else {
            None
        }
    }

    /// Reports the route of a flow.
    pub fn report_route_assigned(&self, flow_id: FlowId, route_id: usize, now_ms: i64) -> (event:
        FlowStatsMessage)
        ensures
            event == FlowStatsMessage::RouteAssigned(
                RouteAssigned { flow_id, assignment_time: now_ms, route_id },
            ),
    {
        FlowStatsMessage::RouteAssigned(
            RouteAssigned { flow_id, assignment_time: now_ms, route_id },
        )
    }

    /// Reports the start of an application flow.
    pub fn report_app_flow(&self, flow_id: FlowId, now_ms: i64) -> (event: FlowStatsMessage)
        requires
            self.knows_ends(flow_id),
        ensures
            event == self.app_flow(flow_id, now_ms),
    {
        let (src_node_id, dst_node_id) = self.config.extract_node_ids_from_flow(flow_id);
        FlowStatsMessage::AppFlowStart(
            AppFlowStart { flow_id, src_node_id, dst_node_id, start_time: now_ms },
        )
    }

    /// Reports the end of a flow.
    pub fn report_flow_finished(&self, flow_id: FlowId, controller_id: Option<i32>, now_ms: i64)
        -> (event: FlowStatsMessage)
        ensures
            event == FlowStatsMessage::FlowFinished(
                FlowFinished { flow_id, finish_time: now_ms, controller_id },
            ),
    {
        FlowStatsMessage::FlowFinished(
            FlowFinished { flow_id, finish_time: now_ms, controller_id },
        )
    }

    /// Reports the start of a user-space flow.
    pub fn report_user_flow_start(&self, flow_id: FlowId, controller_id: i32, now_ms: i64) -> (event:
        FlowStatsMessage)
        ensures
            event == FlowStatsMessage::UserFlowStart(
                UserSpaceFlowStart { flow_id, controller_id, start_time: now_ms },
            ),
    {
        FlowStatsMessage::UserFlowStart(
            UserSpaceFlowStart { flow_id, controller_id, start_time: now_ms },
        )
    }
}

/// Nothing is told twice: right after everything was told, nothing is owed.
pub proof fn law_everything_is_told_once(
    flows: Map<FlowId, FlowState>,
    now_ms: i64,
    flow_id: FlowId,
)
    requires
        after_flush(flows, now_ms).contains_key(flow_id),
    ensures
        !after_flush(flows, now_ms)[flow_id].owes_app_start(),
        !after_flush(flows, now_ms)[flow_id].owes_user_start(),
        after_flush(flows, now_ms)[flow_id].owes_routes() == Set::<usize>::empty(),
        after_flush(flows, now_ms)[flow_id].owes_finish() is None,
{
}

/// With nothing owed, there is no message.
pub proof fn law_no_news_no_message(flows: Map<FlowId, FlowState>, output: FlushOutput)
    requires
        tells_all(flows, output),
        forall|k: FlowId| #[trigger]
            flows.contains_key(k) ==> !flows[k].owes_app_start() && !flows[k].owes_user_start()
                && flows[k].owes_routes() == Set::<usize>::empty() && flows[k].owes_finish() is None,
    ensures
        messages_of(output) == Seq::<DataplaneToController>::empty(),
{
    let starts = choose|order: Seq<FlowId>| app_starts_told(flows, output.app_flows@, order);
    let users = choose|order: Seq<FlowId>| user_starts_told(flows, output.user_starts@, order);
    let ends = choose|order: Seq<FlowId>| finishes_told(flows, output.finishes@, order);
    let routes = choose|order: Seq<(FlowId, usize)>|
        routes_told(flows, output.assignments@, order);
    if starts.len() > 0 {
        assert(starts.contains(starts[0]));
    }
    if users.len() > 0 {
        assert(users.contains(users[0]));
    }
    if ends.len() > 0 {
        assert(ends.contains(ends[0]));
    }
    if routes.len() > 0 {
        assert(routes.contains(routes[0]));
    }
    assert(messages_of(output) =~= Seq::<DataplaneToController>::empty());
}

/// A route that was assigned before its flow starts is kept, however long the start takes, and
/// belongs to the flow once it starts.
pub proof fn law_pending_route_survives(
    flows: Map<FlowId, FlowState>,
    route: RouteAssigned,
    start: AppFlowStart,
    now_ms: i64,
)
    requires
        !flows.contains_key(route.flow_id),
        start.flow_id == route.flow_id,
    ensures
        ({
            let assigned = after_message(flows, FlowStatsMessage::RouteAssigned(route));
            let later = after_flush(assigned, now_ms);
            let started = after_message(later, FlowStatsMessage::AppFlowStart(start));
            &&& later.contains_key(route.flow_id)
            &&& later[route.flow_id] == FlowState::Pending(Some(route.route_id))
            &&& started[route.flow_id] matches FlowState::App(app) && app.route_id == Some(
                route.route_id,
            ) && app.route_updates.contains(route.route_id) && app.send_start && app.start_time
                == start.start_time
        }),
{
}

/// An end or a route from before a flow started is left to the earlier flow that had its ID.
pub proof fn law_late_events_are_ignored(
    flows: Map<FlowId, FlowState>,
    app: AppState,
    finished: FlowFinished,
    route: RouteAssigned,
)
    requires
        flows.contains_key(finished.flow_id),
        flows[finished.flow_id] == FlowState::App(app),
        route.flow_id == finished.flow_id,
        finished.finish_time < app.start_time,
        route.assignment_time < app.start_time,
    ensures
        after_message(flows, FlowStatsMessage::FlowFinished(finished)) =~= flows,
        after_message(flows, FlowStatsMessage::RouteAssigned(route)) =~= flows,
{
}

/// While an application flow is active, another start under its ID changes nothing.
pub proof fn law_second_start_is_ignored(
    flows: Map<FlowId, FlowState>,
    app: AppState,
    start: AppFlowStart,
)
    requires
        flows.contains_key(start.flow_id),
        flows[start.flow_id] == FlowState::App(app),
        !app.finished,
    ensures
        after_message(flows, FlowStatsMessage::AppFlowStart(start)) =~= flows,
{
}

/// Once an application flow has finished, its ID is free for a new flow.
pub proof fn law_flow_id_is_reusable(
    flows: Map<FlowId, FlowState>,
    app: AppState,
    start: AppFlowStart,
)
    requires
        flows.contains_key(start.flow_id),
        flows[start.flow_id] == FlowState::App(app),
        app.finished,
    ensures
        after_message(flows, FlowStatsMessage::AppFlowStart(start))[start.flow_id]
            == FlowState::App(AppState { send_start: true, ..AppState::started(start, None) }),
{
}

/// A second end of an application flow changes nothing.
pub proof fn law_second_finish_is_ignored(
    flows: Map<FlowId, FlowState>,
    app: AppState,
    finished: FlowFinished,
)
    requires
        flows.contains_key(finished.flow_id),
        flows[finished.flow_id] == FlowState::App(app),
        app.finished,
    ensures
        after_message(flows, FlowStatsMessage::FlowFinished(finished)) =~= flows,
{
}

/// A finished application flow is remembered for the time to live, and forgotten after it.
pub proof fn law_finished_flow_is_forgotten_in_time(
    flows: Map<FlowId, FlowState>,
    flow_id: FlowId,
    app: AppState,
    finish_time: i64,
    now_ms: i64,
)
    requires
        flows.contains_key(flow_id),
        flows[flow_id] == FlowState::App(app),
        app.finished,
        app.finish_time == Some(finish_time),
    ensures
        after_flush(flows, now_ms).contains_key(flow_id) <==> now_ms - finish_time <= TTL_MS,
{
}

/// The end of a user-space flow whose start was missed is told as if the flow had started then.
pub proof fn law_missed_start_is_made_up(
    flows: Map<FlowId, FlowState>,
    finished: FlowFinished,
    controller_id: i32,
)
    requires
        !flows.contains_key(finished.flow_id),
        finished.controller_id == Some(controller_id),
    ensures
        after_message(flows, FlowStatsMessage::FlowFinished(finished))[finished.flow_id]
            .owes_finish() == Some(
            Finish {
                flow_id: finished.flow_id,
                controller_id: Some(controller_id),
                start_time: finished.finish_time,
                finish_time: finished.finish_time,
            },
        ),
{
}

/// Whether everything that is known stands under its own flow ID.
pub open spec fn keyed(flows: Map<FlowId, FlowState>) -> bool {
    forall|k: FlowId| #[trigger]
        flows.contains_key(k) ==> match flows[k] {
            FlowState::Pending(_) => true,
            FlowState::App(app) => app.flow_id == k,
            FlowState::User(user) => user.flow_id == k && (user.pending_finish matches Some(finish)
                ==> finish.flow_id == k),
        }
}

/// What is known of a flow stays under the ID of that flow, so that messages name the right flow.
pub proof fn law_flows_stay_keyed(
    flows: Map<FlowId, FlowState>,
    msg: FlowStatsMessage,
    now_ms: i64,
)
    requires
        keyed(flows),
    ensures
        keyed(after_message(flows, msg)),
        keyed(after_flush(flows, now_ms)),
{
}

/// The start of an application flow names the flow, the time, and the nodes at its ends: an address
/// of the virtual network stands for the node as far above the base as the address is.
pub proof fn law_start_names_both_ends(
    handle: FlowStatsReporterHandle,
    flow_id: FlowId,
    now_ms: i64,
)
    ensures
        ({
            let base = handle.config.virtual_base_addr.bits;
            let mask = handle.config.local_netmask.bits;
            let (src, dst) = (node::flow_src(flow_id), node::flow_dst(flow_id));
            &&& handle.app_flow(flow_id, now_ms) matches FlowStatsMessage::AppFlowStart(start)
            &&& start.flow_id == flow_id
            &&& start.start_time == now_ms
            &&& src & mask == base & mask && base <= src ==> start.src_node_id == src - base
            &&& dst & mask == base & mask && base <= dst ==> start.dst_node_id == dst - base
            &&& src & mask == base & mask && src < base ==> !handle.knows_ends(flow_id)
            &&& dst & mask == base & mask && dst < base ==> !handle.knows_ends(flow_id)
        }),
{
}

/// A message of the end of a flow holds the bytes of its ID, its number and its times as they are.
pub proof fn law_finish_is_told_as_it_is(info: FlowFinishedInfo, finish: Finish)
    requires
        tells_finish(info, finish),
    ensures
        info.flow_id@ == node::flow_id_be_bytes(finish.flow_id),
        info.controller_id == finish.controller_id,
        info.start_time == finish.start_time,
        info.finish_time == finish.finish_time,
{
}

} // verus!
