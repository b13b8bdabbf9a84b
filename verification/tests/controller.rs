use nextmini_dataplane::messages::{
    ControllerToDataplane, DataplaneToController, Flow, FlowLen, FlowSpec, FlowTransport,
    GroupDirectoryEntry, GroupRoutingTableEntry, RoutingTableEntry, StartUp, TokenBucketSpec,
    OperatingMode, Protocol, SchedulingDiscipline,
};
use nextmini_dataplane::net::Ipv4Addr;
use nextmini_dataplane::node::config::LocalConfig;
use nextmini_dataplane::node::controller::connect::{
    backoff_ms, connect_timeout_ms, controller_msg_name, controller_url, next_backoff_ms,
    startup_message,
};
use nextmini_dataplane::node::controller::interface::{
    Action, ControllerToDataplaneReceiver, TransportScope, LOSSLESS_GROUP_ROUTE_QUIET_PERIOD,
};
use nextmini_dataplane::node::controller::probe::{PacketAnswer, ProbeService};
use nextmini_dataplane::node::controller::reporter::{ControllerReporter, FlowMetric};
use nextmini_dataplane::node::coordinator::{processor_update, ProcessorUpdate};
use nextmini_dataplane::node::metrics::{Collector, CollectorMessage};

const STRIDE: usize = 16;

fn routes_of_group(group_id: usize) -> ControllerToDataplane {
    ControllerToDataplane::InstallGroupRoutes {
        group_id,
        src_node_id: 1,
        routes: vec![GroupRoutingTableEntry {
            route_id: group_id * STRIDE,
            next_hops: vec![2],
            src_node_id: 1,
            group_id,
        }],
    }
}

fn confirmed(actions: &[Action]) -> bool {
    let synced = actions.iter().rposition(|a| *a == Action::SyncWorkers);
    let updated = actions
        .iter()
        .position(|a| matches!(a, Action::UpdateGroupRoutes { .. }));
    let confirm = actions
        .iter()
        .position(|a| matches!(a, Action::ConfirmGroupRoutes { .. }));
    updated < synced && synced < confirm && updated.is_some()
}

#[test]
fn startup_holds_sender_until_group_route_workers_ack() {
    const GROUP_ID: usize = 1;
    let quiet = LOSSLESS_GROUP_ROUTE_QUIET_PERIOD;
    let group_ip = Ipv4Addr::new(239, 1, 1, 1);
    let mut receiver = ControllerToDataplaneReceiver::new(1, STRIDE);

    let actions = receiver
        .process_control_msg(ControllerToDataplane::InstallRoutes { routes: Vec::new() }, 0);
    assert_eq!(
        actions[1],
        Action::SyncWorkers,
        "base topology readiness must include a worker route-ACK barrier"
    );
    receiver.process_control_msg(
        ControllerToDataplane::InstallGroupDirectory { groups: Vec::new() },
        0,
    );
    receiver.process_control_msg(ControllerToDataplane::TopologyReady, 0);
    receiver.process_control_msg(
        ControllerToDataplane::InstallGroupDirectory {
            groups: vec![GroupDirectoryEntry { group_id: GROUP_ID, group_ip }],
        },
        0,
    );
    let actions = receiver.process_control_msg(routes_of_group(GROUP_ID), 0);
    assert!(confirmed(&actions));
    let actions = receiver.confirm_group_routes(GROUP_ID, 10, 10);
    let nonce = match actions[0] {
        Action::ScheduleActivation { nonce } => nonce,
        _ => panic!("initial route quiet-period event"),
    };
    let actions = receiver.handle_local_event(nonce, 10 + quiet);
    assert_eq!(actions, vec![Action::SetLosslessTopologyReady { ready: true }]);
    assert!(receiver.lossless_topology_ready());

    let actions = receiver.process_control_msg(routes_of_group(GROUP_ID), 20 + quiet);
    assert_eq!(actions[0], Action::SetLosslessTopologyReady { ready: false });
    assert!(confirmed(&actions));
    assert!(
        !receiver.lossless_topology_ready(),
        "sender emitted before the last processor worker acknowledged the route barrier"
    );
    let confirmed_at = 40 + quiet;
    let actions = receiver.confirm_group_routes(GROUP_ID, confirmed_at, confirmed_at);
    let later = match actions[0] {
        Action::ScheduleActivation { nonce } => nonce,
        _ => panic!("route quiet-period event should fire"),
    };
    assert_ne!(later, nonce);
    assert!(receiver.handle_local_event(nonce, confirmed_at + quiet).is_empty());
    assert!(
        receiver.handle_local_event(later, confirmed_at + quiet - 1).is_empty(),
        "sender emitted before the post-barrier quiet period completed"
    );
    assert_eq!(
        receiver.handle_local_event(later, confirmed_at + quiet),
        vec![Action::SetLosslessTopologyReady { ready: true }],
        "sender should emit after the complete route barrier"
    );
}

#[test]
fn a_node_announces_itself_once() {
    let mut receiver = ControllerToDataplaneReceiver::new(4, STRIDE);
    let actions = receiver.process_control_msg(
        ControllerToDataplane::AddNode {
            remote_node_id: 5,
            remote_addr: "10.1.1.5:8080".to_string(),
        },
        0,
    );
    assert_eq!(
        actions[0],
        Action::Connect {
            remote_node_id: 5,
            remote_addr: "10.1.1.5:8080".to_string(),
            scope: TransportScope::Default,
        }
    );
    receiver.process_control_msg(
        ControllerToDataplane::InstallGroupDirectory { groups: Vec::new() },
        0,
    );
    let routes = vec![RoutingTableEntry { route_id: 1, next_hop: 5, src_node_id: 4, dst_node_id: 5 }];
    let actions = receiver
        .process_control_msg(ControllerToDataplane::InstallRoutes { routes: routes.clone() }, 0);
    assert_eq!(
        actions,
        vec![
            Action::UpdateRoutingTable { routes: routes.clone() },
            Action::SyncWorkers,
            Action::NotifyTopologyReady { node_id: 4 },
        ]
    );
    let again =
        receiver.process_control_msg(ControllerToDataplane::InstallRoutes { routes }, 0);
    assert_eq!(again.len(), 2);
    let mut more = Vec::new();
    receiver.maybe_send_local_topology_ready(&mut more);
    assert!(more.is_empty());
}

#[test]
fn a_node_that_lacks_something_does_not_announce_itself() {
    let mut receiver = ControllerToDataplaneReceiver::new(4, STRIDE);
    let mut actions = Vec::new();
    receiver.maybe_send_local_topology_ready(&mut actions);
    assert!(actions.is_empty());
    receiver.process_control_msg(ControllerToDataplane::InstallRoutes { routes: Vec::new() }, 0);
    receiver.maybe_send_local_topology_ready(&mut actions);
    assert!(actions.is_empty());
    let announced = receiver.process_control_msg(
        ControllerToDataplane::InstallGroupDirectory { groups: Vec::new() },
        0,
    );
    assert!(announced.contains(&Action::NotifyTopologyReady { node_id: 4 }));
}

fn flow(transport: FlowTransport, dst_node_id: usize) -> Flow {
    Flow {
        controller_id: Some(1),
        src_node_id: 1,
        dst_node_id,
        route_id: None,
        flow_spec: FlowSpec {
            flow_len: FlowLen::Bytes(8),
            flow_rate: None,
            flow_weight: None,
            transport,
        },
    }
}

#[test]
fn flows_wait_for_the_topology() {
    let mut receiver = ControllerToDataplaneReceiver::new(1, STRIDE);
    let tcp = flow(FlowTransport::Tcp, 2);
    let actions =
        receiver.process_control_msg(ControllerToDataplane::AddFlows { flows: vec![tcp] }, 0);
    assert!(!actions.iter().any(|a| matches!(a, Action::StartTcpFlows { .. })));
    let actions = receiver.process_control_msg(ControllerToDataplane::TopologyReady, 0);
    assert_eq!(actions[0], Action::StartTcpFlows { flows: vec![tcp] });
}

#[test]
fn other_messages_have_their_actions() {
    let mut receiver = ControllerToDataplaneReceiver::new(1, STRIDE);
    let spec = TokenBucketSpec { rate: 3, bucket_size: 4 };
    assert_eq!(
        receiver.process_control_msg(ControllerToDataplane::SetLinkRate { node_id: 2, spec }, 0),
        vec![Action::LimitRate { node_id: 2, spec }]
    );
    let probes = receiver.process_control_msg(
        ControllerToDataplane::ProbeLink { remote_node_id: 2, probe_id: 7, probe_bytes: 3000 },
        0,
    );
    match &probes[0] {
        Action::SendProbe { remote_node_id, ends, payloads } => {
            assert_eq!(*remote_node_id, 2);
            assert_eq!((ends.src_ip, ends.src_port), (Ipv4Addr::new(127, 0, 0, 1), 0));
            assert_eq!((ends.dst_ip, ends.dst_port), (Ipv4Addr::new(127, 0, 0, 2), 0));
            assert_eq!(payloads.len(), 2);
            assert_eq!(payloads[0].len(), 1360);
            assert_eq!((payloads[0][0], payloads[1][0]), (0, 1));
            assert_eq!(payloads[1][1..9], 7u64.to_be_bytes());
        }
        _ => panic!("a probe is sent"),
    }
    let start = ControllerToDataplane::StartUp(StartUp {
        node_id: 1,
        net_mask: Ipv4Addr::new(255, 0, 0, 0),
        virtual_base_addr: Ipv4Addr::new(10, 0, 0, 0),
        user_space_base_addr: Ipv4Addr::new(10, 0, 0, 0),
        external_base_addr: Ipv4Addr::new(10, 0, 0, 0),
        max_server_port: 1,
        protocol: Protocol::Udp,
        scheduler_type: SchedulingDiscipline::Fifo,
        operating_mode: OperatingMode::Normal,
    });
    assert_eq!(controller_msg_name(&start), "StartUp");
    assert_eq!(receiver.process_control_msg(start, 0), vec![Action::RejectMessage]);
    assert_eq!(controller_msg_name(&ControllerToDataplane::TopologyReady), "TopologyReady");
}

#[test]
fn the_controller_is_reached_at_a_url() {
    let url_of = |addr: &str| {
        controller_url(&LocalConfig { controller_addr: addr.to_string(), ..Default::default() })
    };
    assert_eq!(url_of("WS://LocalHost:3000").as_deref(), Some("ws://localhost:3000/"));
    assert_eq!(url_of("ws://10.0.0.1:3000/ws").as_deref(), Some("ws://10.0.0.1:3000/ws"));
    assert_eq!(url_of("10.0.0.1/ws"), None);
    assert_eq!(url_of(""), None);
}

#[test]
fn the_startup_message_names_the_node() {
    let config = LocalConfig {
        private_network_name: "net".to_string(),
        private_network_addr: "10.1.1.1".to_string(),
        public_network_addr: "1.2.3.4".to_string(),
        public_network_port: "99".to_string(),
        node_id: 6,
        ..Default::default()
    };
    assert_eq!(
        startup_message(&config),
        DataplaneToController::StartUp {
            private_network_name: "net".to_string(),
            private_network_addr: "10.1.1.1:8080".to_string(),
            public_network_addr: "1.2.3.4:99".to_string(),
            node_id: Some(6),
        }
    );
}

#[test]
fn attempts_to_connect_are_spread_out() {
    assert_eq!(connect_timeout_ms(0), 1);
    assert_eq!(connect_timeout_ms(700), 700);
    assert_eq!(backoff_ms(499), 2499);
    let waits: Vec<u64> = (0..64).map(|_| next_backoff_ms()).collect();
    assert!(waits.iter().all(|ms| (2000..2500).contains(ms)));
    assert!(waits.iter().any(|ms| *ms != waits[0]));
}

#[test]
fn processors_hear_of_routes_only() {
    let update = processor_update(ControllerToDataplane::InstallRoutes { routes: Vec::new() });
    assert!(matches!(update, ProcessorUpdate::UpdateRoutingTable { .. }));
    let rate = ControllerToDataplane::SetLinkRate {
        node_id: 1,
        spec: TokenBucketSpec { rate: 1, bucket_size: 1 },
    };
    assert!(matches!(processor_update(rate), ProcessorUpdate::Nothing));
    let node = ControllerToDataplane::AddNode { remote_node_id: 3, remote_addr: "a:1".to_string() };
    assert!(matches!(processor_update(node), ProcessorUpdate::AddNode { node_id: 3, .. }));
    assert!(matches!(
        processor_update(ControllerToDataplane::TopologyReady),
        ProcessorUpdate::Unsupported
    ));
}

#[test]
fn an_echo_is_booked_once() {
    let mut service = ProbeService::new(1, 9090, true, true);
    service.register_peer(2, "10.1.1.2:8080".to_string());
    service.begin_round();
    let (seq, payload) = service.start_probe(2, 1000);
    assert_eq!(seq, 1);
    assert_eq!(payload, vec![0x4E, 0x50, 0, 0, 0, 1, 0, 0, 0, 0, 0, 0, 0, 1]);
    service.probe_sent(2, seq, payload.len(), true);
    assert_eq!(service.handle_packet(&payload, 1500), PacketAnswer::Nothing);
    assert_eq!(service.handle_packet(&payload, 1900), PacketAnswer::Nothing);
    let results = service.finish_round();
    assert_eq!(results.len(), 1);
    assert_eq!(results[0].dst_node_id, 2);
    assert_eq!((results[0].samples, results[0].lost), (1, 0));
    assert_eq!(results[0].rtts, vec![500]);
    assert_eq!(results[0].echoed_bytes, Some(14));
    assert!(service.finish_round().is_empty());
}

#[test]
fn lost_probes_are_counted() {
    let mut service = ProbeService::new(1, 9090, true, true);
    service.begin_round();
    let (seq, payload) = service.start_probe(2, 1000);
    service.probe_sent(2, seq, payload.len(), false);
    assert_eq!(service.handle_packet(&payload, 1500), PacketAnswer::Nothing);
    let results = service.finish_round();
    assert_eq!((results[0].samples, results[0].lost), (1, 1));
    assert!(results[0].rtts.is_empty());
    assert_eq!(results[0].echoed_bytes, None);
}

#[test]
fn probes_of_others_are_echoed() {
    let mut service = ProbeService::new(1, 9090, true, true);
    let mut other = ProbeService::new(2, 9090, true, true);
    let burst = other.burst_packet();
    assert_eq!(burst.len(), 1214);
    assert_eq!(service.handle_packet(&burst, 0), PacketAnswer::Echo);
    assert_eq!(service.handle_packet(b"NP", 0), PacketAnswer::Nothing);
    assert_eq!(service.handle_packet(b"XX345678901234", 0), PacketAnswer::Nothing);
    service.burst_sent(2, 0);
    service.burst_sent(2, 10);
    assert_eq!(service.sent_bytes.get(&2), Some(&10));
}

#[test]
fn probes_go_to_the_probe_port() {
    let mut service = ProbeService::new(1, 9090, true, true);
    service.register_peer(2, "10.1.1.2:8080".to_string());
    service.register_peer(3, "nowhere".to_string());
    service.register_peer(2, "[::1]:7".to_string());
    let targets = service.probe_targets();
    assert_eq!(targets.len(), 1);
    assert_eq!(targets[0].node_id, 2);
    assert_eq!(targets[0].addr, "[::1]:9090");
}

#[test]
fn packet_numbers_skip_zero() {
    let mut service = ProbeService::new(1, 9090, true, true);
    service.seq = u64::MAX;
    assert_eq!(service.next_seq(), u64::MAX);
    assert_eq!(service.next_seq(), 1);
}

#[test]
fn metrics_add_up_until_they_are_reported() {
    let mut reporter = ControllerReporter::new(0);
    assert_eq!(reporter.interval_secs, 1);
    let metric = FlowMetric { flow_id: 7, local_node_id: 1, remote_node_id: 2, bytes: 10 };
    reporter.flow_metrics.record(metric);
    reporter.flow_metrics.record(FlowMetric { bytes: 5, ..metric });
    assert_eq!(reporter.flow_metrics.bytes(7), Some(15));
    match reporter.report(99) {
        Some(DataplaneToController::Metrics { metrics }) => {
            assert_eq!(metrics.len(), 1);
            assert_eq!(metrics[0].bytes, 15);
            assert_eq!(metrics[0].flow_id, 7u128.to_be_bytes());
            assert_eq!(metrics[0].time_read, 99);
        }
        _ => panic!("metrics are reported"),
    }
    assert_eq!(reporter.report(100), None);
}

#[test]
fn a_collector_starts_over_after_a_report() {
    let mut collector = Collector::new();
    collector.collect(CollectorMessage::Metric(1, 2, 3, 40));
    collector.collect(CollectorMessage::Metric(1, 2, 3, 2));
    collector.collect(CollectorMessage::Metric(9, 2, 3, 1));
    let mut metrics = collector.report();
    metrics.sort_by_key(|m| m.flow_id);
    assert_eq!(metrics.len(), 2);
    assert_eq!(metrics[0].bytes, 42);
    assert!(collector.report().is_empty());
}
