use nextmini_dataplane::messages::DataplaneToController;
use nextmini_dataplane::node::config::LocalConfig;
use nextmini_dataplane::node::controller::flowstats::{
    AppFlowStart, FlowFinished, FlowStatsMessage, FlowStatsReporter, FlowStatsReporterHandle,
    RouteAssigned, UserSpaceFlowStart,
};
use nextmini_dataplane::node::packet::Packet;
use nextmini_dataplane::node::FlowId;

fn app_start(flow_id: FlowId, src: usize, dst: usize, start_time: i64) -> FlowStatsMessage {
    FlowStatsMessage::AppFlowStart(AppFlowStart {
        flow_id,
        src_node_id: src,
        dst_node_id: dst,
        start_time,
    })
}

fn finished(flow_id: FlowId, finish_time: i64, controller_id: Option<i32>) -> FlowStatsMessage {
    FlowStatsMessage::FlowFinished(FlowFinished { flow_id, finish_time, controller_id })
}

fn routed(flow_id: FlowId, assignment_time: i64, route_id: usize) -> FlowStatsMessage {
    FlowStatsMessage::RouteAssigned(RouteAssigned { flow_id, assignment_time, route_id })
}

#[test]
fn pending_route_survives_long_gap_before_start() {
    let mut reporter = FlowStatsReporter::new();
    let flow_id: FlowId = 42;
    let route_id = 7;

    reporter.handle_message(routed(flow_id, 0, route_id));
    assert_eq!(
        reporter.flows.pending_route(flow_id),
        Some(route_id),
        "pending route should be buffered before start"
    );

    let told = reporter.flush(35_000);
    assert!(told.is_empty());
    assert_eq!(
        reporter.flows.pending_route(flow_id),
        Some(route_id),
        "pending route was evicted before AppFlowStart"
    );

    reporter.handle_message(app_start(flow_id, 1, 2, 40_000));
    let stats = reporter
        .flows
        .app_entry(flow_id)
        .expect("flow should be tracked as active after AppFlowStart");
    assert_eq!(
        stats.route_id,
        Some(route_id),
        "route assignment should be retained until flow start"
    );

    let msgs = reporter.flush(40_000);
    assert_eq!(msgs.len(), 2);
    if let DataplaneToController::AppFlowStart { appflows } = &msgs[0] {
        assert_eq!(appflows.len(), 1);
        assert_eq!(appflows[0].flow_id, flow_id.to_be_bytes());
        assert_eq!(appflows[0].start_time, 40_000);
    } else {
        panic!("first message should be AppFlowStart");
    }
    if let DataplaneToController::RouteAssigned { assignments } = &msgs[1] {
        assert_eq!(assignments.len(), 1);
        assert_eq!(assignments[0].flow_id, flow_id.to_be_bytes());
        assert_eq!(assignments[0].route_id, route_id);
        assert_eq!(assignments[0].time, 40_000);
    } else {
        panic!("second message should be RouteAssigned");
    }
}

#[test]
fn test_flowid_reuse_with_late_finish() {
    let mut reporter = FlowStatsReporter::new();
    reporter.handle_message(app_start(42, 1, 2, 1000));
    reporter.handle_message(finished(42, 2000, None));
    let first = reporter.flush(2000);
    assert_eq!(first.len(), 2);

    reporter.handle_message(app_start(42, 3, 4, 3000));
    reporter.handle_message(finished(42, 1999, None));
    let msgs = reporter.flush(3000);
    assert_eq!(msgs.len(), 1, "Late finish should be ignored");
    if let DataplaneToController::AppFlowStart { appflows } = &msgs[0] {
        assert_eq!(appflows.len(), 1);
        assert_eq!(appflows[0].start_time, 3000);
    } else {
        panic!("Expected AppFlowStart");
    }
}

#[test]
fn test_duplicate_app_flow_start() {
    let mut reporter = FlowStatsReporter::new();
    reporter.handle_message(app_start(42, 1, 2, 1000));
    reporter.handle_message(app_start(42, 1, 2, 1100));
    let msgs = reporter.flush(1000);
    assert_eq!(msgs.len(), 1);
    if let DataplaneToController::AppFlowStart { appflows } = &msgs[0] {
        assert_eq!(appflows.len(), 1);
        assert_eq!(appflows[0].start_time, 1000);
    } else {
        panic!("Expected AppFlowStart");
    }
}

#[test]
fn test_route_changes_for_active_flow() {
    let mut reporter = FlowStatsReporter::new();
    reporter.handle_message(app_start(42, 1, 2, 1000));
    reporter.handle_message(routed(42, 1100, 5));
    reporter.handle_message(routed(42, 1200, 7));
    let msgs = reporter.flush(1000);
    if let DataplaneToController::RouteAssigned { assignments } = &msgs[1] {
        assert_eq!(assignments.len(), 2);
        let mut ids: Vec<usize> = assignments.iter().map(|a| a.route_id).collect();
        ids.sort();
        assert_eq!(ids, vec![5, 7]);
    } else {
        panic!("Expected RouteAssigned");
    }
}

#[test]
fn test_user_flow_without_start() {
    let mut reporter = FlowStatsReporter::new();
    reporter.handle_message(finished(99, 1000, Some(1)));
    let msgs = reporter.flush(1000);
    if let DataplaneToController::FlowFinished { flows } = &msgs[0] {
        assert_eq!(flows.len(), 1);
        assert_eq!(flows[0].start_time, 1000);
        assert_eq!(flows[0].finish_time, 1000);
        assert_eq!(flows[0].controller_id, Some(1));
    } else {
        panic!("Expected FlowFinished");
    }
}

#[test]
fn test_user_flow_controller_id_mismatch() {
    let mut reporter = FlowStatsReporter::new();
    reporter.handle_message(FlowStatsMessage::UserFlowStart(UserSpaceFlowStart {
        flow_id: 42,
        controller_id: 1,
        start_time: 1000,
    }));
    reporter.handle_message(finished(42, 2000, Some(2)));
    let msgs = reporter.flush(1000);
    assert!(matches!(&msgs[0], DataplaneToController::UserFlowStart { .. }));
    if let DataplaneToController::FlowFinished { flows } = &msgs[1] {
        assert_eq!(flows.len(), 1);
        assert_eq!(flows[0].controller_id, Some(2));
        assert_eq!(flows[0].start_time, 1000);
    } else {
        panic!("Expected FlowFinished");
    }
}

#[test]
fn test_finished_flow_ttl_cleanup() {
    let mut reporter = FlowStatsReporter::new();
    reporter.handle_message(app_start(1, 1, 2, 1000));
    reporter.handle_message(finished(1, 2000, None));
    reporter.flush(2000);
    reporter.handle_message(app_start(2, 1, 2, 10000));
    reporter.handle_message(finished(2, 11000, None));
    reporter.flush(35000);
    assert!(!reporter.flows.has_finished_app_entry(1), "first flow should be cleaned up");
    assert!(reporter.flows.has_finished_app_entry(2), "second flow should remain");
}

#[test]
fn test_batch_send_multiple_flows() {
    let mut reporter = FlowStatsReporter::new();
    for i in 1..=10u128 {
        reporter.handle_message(app_start(i, 1, 2, 1000 + i as i64));
    }
    let msgs = reporter.flush(1000);
    assert_eq!(msgs.len(), 1);
    if let DataplaneToController::AppFlowStart { appflows } = &msgs[0] {
        assert_eq!(appflows.len(), 10, "Should batch all 10 flow starts");
    } else {
        panic!("Expected batched AppFlowStart");
    }
}

#[test]
fn test_route_assignment_for_finished_flow() {
    let mut reporter = FlowStatsReporter::new();
    reporter.handle_message(app_start(42, 1, 2, 1000));
    reporter.handle_message(finished(42, 2000, None));
    let first = reporter.flush(2000);
    assert_eq!(first.len(), 2);
    reporter.handle_message(routed(42, 2100, 5));
    let msgs = reporter.flush(2000);
    if let DataplaneToController::RouteAssigned { assignments } = &msgs[0] {
        assert_eq!(assignments.len(), 1);
        assert_eq!(assignments[0].route_id, 5);
        assert_eq!(assignments[0].time, 1000);
    } else {
        panic!("Expected RouteAssigned for finished flow");
    }
}

#[test]
fn nothing_is_told_twice() {
    let mut reporter = FlowStatsReporter::new();
    reporter.handle_message(app_start(42, 1, 2, 1000));
    reporter.handle_message(routed(42, 1100, 5));
    assert_eq!(reporter.flush(1200).len(), 2);
    assert!(reporter.flush(1300).is_empty());
    assert!(reporter.flush(1_000_000).is_empty());
}

#[test]
fn a_second_finish_is_not_told() {
    let mut reporter = FlowStatsReporter::new();
    reporter.handle_message(app_start(42, 1, 2, 1000));
    reporter.handle_message(finished(42, 2000, None));
    reporter.handle_message(finished(42, 2500, None));
    let msgs = reporter.flush(2600);
    if let DataplaneToController::FlowFinished { flows } = &msgs[1] {
        assert_eq!(flows.len(), 1);
        assert_eq!(flows[0].finish_time, 2000);
    } else {
        panic!("Expected FlowFinished");
    }
}

fn tcp_packet(flags: u8, payload: &[u8]) -> Packet {
    let mut buf = vec![0u8; 40];
    buf[0] = 0x45;
    buf[9] = 6;
    buf[12..16].copy_from_slice(&[10, 0, 0, 5]);
    buf[16..20].copy_from_slice(&[10, 0, 0, 7]);
    buf[32] = 0x50;
    buf[33] = flags;
    buf.extend_from_slice(payload);
    Packet::from_vec(buf)
}

#[test]
fn packets_tell_of_their_flows() {
    let handle = FlowStatsReporterHandle::new(LocalConfig::default());
    let data = tcp_packet(0x10, b"hello");
    assert_eq!(handle.report_packet(&data, 77), Some(app_start(data.flow_id, 5, 7, 77)));
    let fin = tcp_packet(0x11, b"");
    assert_eq!(handle.report_packet(&fin, 78), Some(finished(fin.flow_id, 78, None)));
    let ack = tcp_packet(0x10, b"");
    assert_eq!(handle.report_packet(&ack, 79), None);
    let mut last = tcp_packet(0x11, b"bye").buf;
    last[12..16].copy_from_slice(&[9, 9, 9, 9]);
    let last = Packet::from_vec(last);
    assert_eq!(handle.report_packet(&last, 80), Some(finished(last.flow_id, 80, None)));
    assert_eq!(handle.report_route_assigned(9, 3, 80), routed(9, 80, 3));
    assert_eq!(
        handle.report_user_flow_start(9, 4, 81),
        FlowStatsMessage::UserFlowStart(UserSpaceFlowStart {
            flow_id: 9,
            controller_id: 4,
            start_time: 81,
        })
    );
}
