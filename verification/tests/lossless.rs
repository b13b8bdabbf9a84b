use nextmini_dataplane::messages::{
    Flow, FlowLen, FlowSpec, FlowTransport, TokenBucketSpec,
};
use nextmini_dataplane::net::Ipv4Addr;
use nextmini_dataplane::node::config::{LocalConfig, LosslessRuntimeConfig};
use nextmini_dataplane::node::controller::lossless_unicast::{
    bucket_from_flow_rate, client_port_for_flow, flow_bytes, flow_id_for_unicast,
    report_on_start, session_id_for_flow, FlowReport, LosslessUnicastFlowManager,
    ASSIGNED_SESSION,
};
use nextmini_dataplane::node::FlowIdExt;

fn lossless_flow(flow_len: FlowLen) -> Flow {
    Flow {
        controller_id: Some(17),
        src_node_id: 3,
        dst_node_id: 7,
        route_id: Some(11),
        flow_spec: FlowSpec {
            flow_len,
            flow_rate: Some(200),
            flow_weight: Some(5),
            transport: FlowTransport::LosslessUnicast,
        },
    }
}

#[test]
fn session_id_for_flow_is_deterministic() {
    let flow = lossless_flow(FlowLen::Bytes(4096));
    assert_eq!(session_id_for_flow(&flow), session_id_for_flow(&flow));
}

#[test]
fn session_ids_tell_flows_apart() {
    let flow = lossless_flow(FlowLen::Bytes(4096));
    assert!(session_id_for_flow(&flow) >= ASSIGNED_SESSION);
    let mut rerouted = flow;
    rerouted.route_id = None;
    rerouted.flow_spec.flow_rate = None;
    assert_eq!(session_id_for_flow(&flow), session_id_for_flow(&rerouted));
    let mut other = flow;
    other.controller_id = Some(18);
    assert_ne!(session_id_for_flow(&flow), session_id_for_flow(&other));
    let longer = lossless_flow(FlowLen::Bytes(4097));
    assert_ne!(session_id_for_flow(&flow), session_id_for_flow(&longer));
    other.controller_id = None;
    assert_ne!(session_id_for_flow(&flow), session_id_for_flow(&other));
}

#[test]
fn client_port_for_flow_uses_controller_id_offset() {
    let flow = lossless_flow(FlowLen::Bytes(1));
    assert_eq!(client_port_for_flow(&flow, 4000), 4017);
}

#[test]
fn client_ports_wrap_around() {
    let mut flow = lossless_flow(FlowLen::Bytes(1));
    assert_eq!(client_port_for_flow(&flow, 65_530), 11);
    flow.controller_id = Some(-1);
    assert_eq!(client_port_for_flow(&flow, 4000), 3999);
    flow.controller_id = None;
    assert_eq!(client_port_for_flow(&flow, 4000), 4000);
}

#[test]
fn flow_bytes_returns_exact_byte_length() {
    let flow = lossless_flow(FlowLen::Bytes(4096));
    assert_eq!(flow_bytes(&flow, 0), Some(4096));
}

#[test]
fn flow_bytes_derives_duration_length_from_rate() {
    let flow = lossless_flow(FlowLen::Duration(2.5f64.to_bits()));
    assert_eq!(flow_bytes(&flow, 500), Some(500));
}

#[test]
fn flow_bytes_rejects_duration_without_rate() {
    let mut flow = lossless_flow(FlowLen::Duration(2.5f64.to_bits()));
    flow.flow_spec.flow_rate = None;
    assert_eq!(flow_bytes(&flow, 0), None);
}

#[test]
fn bucket_from_flow_rate_uses_override_or_default() {
    let default = Some(TokenBucketSpec { rate: 100, bucket_size: 300 });

    assert_eq!(
        bucket_from_flow_rate(Some(250), &default),
        Some(TokenBucketSpec { rate: 250, bucket_size: 500 })
    );
    assert_eq!(bucket_from_flow_rate(None, &default), default);
}

#[test]
fn a_huge_rate_has_the_largest_bucket() {
    assert_eq!(
        bucket_from_flow_rate(Some(usize::MAX), &None),
        Some(TokenBucketSpec { rate: usize::MAX, bucket_size: usize::MAX })
    );
}

fn runtime() -> LosslessRuntimeConfig {
    LosslessRuntimeConfig {
        default_block_size: 1024,
        data_bucket: None,
        ready_grace_ms: 1500,
        peer_report_timeout_ms: 3000,
    }
}

fn config(node_id: usize) -> LocalConfig {
    LocalConfig {
        node_id,
        user_space_client_port: 4000,
        user_space_server_port: 5000,
        ..Default::default()
    }
}

#[test]
fn both_ends_of_a_flow_find_each_other() {
    let flow = lossless_flow(FlowLen::Bytes(16));
    let source = LosslessUnicastFlowManager::new(config(3), runtime());
    let destination = LosslessUnicastFlowManager::new(config(7), runtime());
    let mut at_source = source.add_flows(&vec![flow], &vec![0]);
    let at_destination = destination.add_flows(&vec![flow], &vec![0]);

    let plan = at_source.remove(0);
    assert!(plan.receive.is_none());
    let send = plan.send.expect("the source sends");
    assert_eq!(send.pin_route, Some(11));
    assert_eq!(send.set_weight, Some(5));
    assert_eq!(send.flow_id, flow_id_for_unicast(&config(3), &flow, 4017, 5000));
    let request = send.start.expect("the flow fits a buffer");
    assert_eq!(request.source_buffer, vec![0xAA; 16]);
    assert_eq!(request.total_bytes, 16);
    assert_eq!(request.block_size, 1024);
    assert_eq!(request.pacing, Some(TokenBucketSpec { rate: 200, bucket_size: 400 }));
    assert_eq!(request.receiver_id, 7);

    assert!(at_destination[0].send.is_none());
    let receive = at_destination[0].receive.expect("the destination receives");
    assert_eq!(receive.session_id, request.session_id);
    assert_eq!(receive.route.src_ip, request.route.dst_ip);
    assert_eq!(receive.route.dst_ip, request.route.src_ip);
    assert_eq!(receive.route.src_port, request.route.src_port);
    assert_eq!(receive.local_node_id, 7);
}

#[test]
fn flows_without_bytes_are_skipped() {
    let source = LosslessUnicastFlowManager::new(config(3), runtime());
    let empty = lossless_flow(FlowLen::Bytes(0));
    let mut unknown = lossless_flow(FlowLen::Duration(1.0f64.to_bits()));
    unknown.flow_spec.flow_rate = None;
    let mut foreign = lossless_flow(FlowLen::Bytes(4));
    foreign.src_node_id = 8;
    let plans = source.add_flows(&vec![empty, unknown, foreign], &vec![0, 0, 0]);
    assert!(plans.iter().all(|p| p.send.is_none() && p.receive.is_none()));
    let mut nowhere = empty;
    nowhere.dst_node_id = usize::MAX;
    let mut elsewhere = foreign;
    elsewhere.dst_node_id = usize::MAX;
    let plans = source.add_flows(&vec![nowhere, elsewhere], &vec![0, 0]);
    assert!(plans.iter().all(|p| p.send.is_none() && p.receive.is_none()));
}

#[test]
fn flow_ids_hold_addresses_and_ports() {
    let flow = lossless_flow(FlowLen::Bytes(1));
    let flow_id = flow_id_for_unicast(&config(3), &flow, 4017, 5000);
    assert_eq!(flow_id.src_ip(), Ipv4Addr::new(192, 168, 0, 3));
    assert_eq!(flow_id.dst_ip(), Ipv4Addr::new(192, 168, 0, 7));
    assert_eq!((flow_id.src_port(), flow_id.dst_port()), (4017, 5000));
}

#[test]
fn the_controller_hears_of_start_and_rejection() {
    let mut flow = lossless_flow(FlowLen::Bytes(1));
    assert_eq!(
        report_on_start(&flow, 9, true),
        Some(FlowReport::Started { flow_id: 9, controller_id: 17 })
    );
    assert_eq!(
        report_on_start(&flow, 9, false),
        Some(FlowReport::Finished { flow_id: 9, controller_id: Some(17) })
    );
    flow.controller_id = None;
    assert_eq!(report_on_start(&flow, 9, true), None);
}
