use std::time::{Duration, Instant};

use nextmini_dataplane::messages::{Flow, FlowLen, FlowSpec, FlowTransport};
use nextmini_dataplane::net::Ipv4Addr;
use nextmini_dataplane::node::config::LocalConfig;
use nextmini_dataplane::node::flow::client::{
    fill_payload, ClientAction, UserSpaceClient, UserSpaceClientHandle, FILLER,
};
use nextmini_dataplane::node::flow::device::{
    capabilities, Medium, PacketRxToken, PacketTxToken,
};
use nextmini_dataplane::node::flow::router::PacketRouter;
use nextmini_dataplane::node::flow::server::{should_pause, ServerAction, UserSpaceServerHandle};
use nextmini_dataplane::node::flow::state::{ConnectionState, Throughput};
use nextmini_dataplane::node::flow::tcp::UserSpaceTcp;
use nextmini_dataplane::node::flow::SOCKET_BUFFER_SIZE;
use nextmini_dataplane::node::packet::Packet;
use nextmini_dataplane::node::{FlowId, FlowIdExt, NodeIdExt};

#[test]
fn update_initializes_counters_on_first_transfer() {
    let initial_start = Instant::now() - Duration::from_secs(10);
    let mut state = ConnectionState {
        start_time: initial_start,
        time_last_updated: Instant::now(),
        bytes_last_updated: 0,
        bytes_total: 0,
    };

    state.update(3, 7, 512);

    assert_eq!(state.bytes_total, 512);
    assert_eq!(state.bytes_last_updated, 512);
    assert!(
        state.start_time >= initial_start,
        "first update should refresh the start timestamp when data begins flowing"
    );
}

#[test]
fn update_resets_window_after_reporting() {
    let initial_start = Instant::now() - Duration::from_secs(5);
    let initial_last_update = Instant::now() - Duration::from_secs(2);
    let mut state = ConnectionState {
        start_time: initial_start,
        time_last_updated: initial_last_update,
        bytes_last_updated: 128,
        bytes_total: 1024,
    };

    state.update(1, 2, 256);

    assert_eq!(state.bytes_total, 1280);
    assert_eq!(
        state.bytes_last_updated, 0,
        "bytes_last_updated should reset after throughput reporting window elapses"
    );
    assert!(
        state.time_last_updated >= initial_last_update,
        "time_last_updated should advance when the reporting window flushes"
    );
    assert_eq!(
        state.start_time, initial_start,
        "start_time should remain unchanged after the first update"
    );
}

#[test]
fn a_report_is_due_after_more_than_a_second() {
    let start = Instant::now();
    let later = start + Duration::from_secs(1);
    let mut state = ConnectionState::new(start);
    assert_eq!(state.record(100, start, later, 1_000_000_000), None);
    assert_eq!(state.bytes_last_updated, 100);
    assert_eq!(
        state.record(50, later, later, 1_000_000_001),
        Some(Throughput { bytes: 150, nanos: 1_000_000_001 })
    );
    assert_eq!(state.bytes_last_updated, 0);
    assert_eq!(state.bytes_total, 150);
    assert_eq!(state.start_time, start);
    assert_eq!(state.time_last_updated, later);
}

fn client_config() -> LocalConfig {
    LocalConfig {
        node_id: 1,
        num_packet_processors: 1,
        channel_capacity: 32,
        user_space_client_port: 4000,
        user_space_server_port: 5000,
        ..Default::default()
    }
}

fn client_flow(dst_node_id: usize, weight: Option<usize>) -> Flow {
    Flow {
        controller_id: Some(42),
        src_node_id: 1,
        dst_node_id,
        route_id: None,
        flow_spec: FlowSpec {
            flow_len: FlowLen::Bytes(1024),
            flow_rate: Some(1_000_000),
            flow_weight: weight,
            transport: FlowTransport::Tcp,
        },
    }
}

fn expected_flow_id(config: &LocalConfig, flow: &Flow, client_port: u16) -> FlowId {
    let client_ip = config.node_id.ip_addr(config.user_space_base_addr, config.local_netmask);
    let server_ip = flow.dst_node_id.ip_addr(config.user_space_base_addr, config.local_netmask);

    ((server_ip.bits as u128) << 96)
        | ((client_ip.bits as u128) << 64)
        | ((config.user_space_server_port as u128) << 48)
        | ((client_port as u128) << 32)
}

#[test]
fn add_flows_registers_sender_and_weight() {
    let config = client_config();
    let mut client_handle = UserSpaceClientHandle::new(config.clone());
    let weight = 7usize;
    let flow = client_flow(2, Some(weight));

    let actions = client_handle.add_flows(&vec![flow]);
    let expected = expected_flow_id(&config, &flow, config.user_space_client_port + 1);

    assert_eq!(
        actions,
        vec![
            ClientAction::Connect { flow_id: expected },
            ClientAction::SetWeight { flow_id: expected.reverse(), weight },
            ClientAction::Start {
                flow,
                flow_id: expected,
                client_port: config.user_space_client_port + 1,
            },
        ]
    );
    assert_eq!(
        client_handle.next_client_port,
        config.user_space_client_port + 1,
        "client port counter should advance after provisioning a flow"
    );
}

#[test]
fn add_flows_without_weight_skips_weight_update() {
    let config = client_config();
    let mut client_handle = UserSpaceClientHandle::new(config.clone());
    let flow = client_flow(3, None);
    let actions = client_handle.add_flows(&vec![flow]);
    assert!(
        !actions.iter().any(|a| matches!(a, ClientAction::SetWeight { .. })),
        "flow weight should not be updated when the specification omits it"
    );
    assert_eq!(
        client_handle.next_client_port,
        config.user_space_client_port + 1,
        "port counter should still advance after handling the flow"
    );
}

#[test]
fn routes_follow_the_client_to_the_server() {
    let config = client_config();
    let mut client_handle = UserSpaceClientHandle::new(config.clone());
    let mut flow = client_flow(3, None);
    flow.route_id = Some(9);
    let other = client_flow(4, None);
    let actions = client_handle.add_flows(&vec![flow, other]);
    let first = expected_flow_id(&config, &flow, 4001);
    let second = expected_flow_id(&config, &other, 4002);
    assert_eq!(
        actions[0],
        ClientAction::SetRoute { flow_id: first.reverse(), route_id: 9 }
    );
    assert_eq!(actions[3], ClientAction::Connect { flow_id: second });
    assert_ne!(first, second);
}

#[test]
fn a_client_reports_its_start_once_and_stops_at_its_length() {
    let flow = client_flow(2, None);
    let mut client = UserSpaceClient::new(1, flow, 5, 4001);
    let plan = client.prepare_send();
    assert_eq!(plan.report_start, Some(42));
    assert_eq!(plan.remaining, 1024);
    client.sent(1000);
    assert!(!client.is_complete(true));
    let plan = client.prepare_send();
    assert_eq!(plan.report_start, None);
    assert_eq!(plan.remaining, 24);
    client.sent(24);
    assert!(client.is_complete(false));
}

#[test]
fn a_timed_client_sends_a_buffer_at_a_time() {
    let mut flow = client_flow(2, None);
    flow.controller_id = None;
    flow.flow_spec.flow_len = FlowLen::Duration(2.5f64.to_bits());
    let mut client = UserSpaceClient::new(1, flow, 5, 4001);
    let plan = client.prepare_send();
    assert_eq!(plan.report_start, None);
    assert_eq!(plan.remaining, SOCKET_BUFFER_SIZE as u64);
    assert!(!client.is_complete(false));
    assert!(client.is_complete(true));
}

#[test]
fn payload_is_filled_up_to_what_remains() {
    let mut buf = [1u8; 6];
    assert_eq!(fill_payload(&mut buf, 4), 4);
    assert_eq!(buf, [FILLER, FILLER, FILLER, FILLER, 1, 1]);
    assert_eq!(fill_payload(&mut buf, 100), 6);
    assert_eq!(buf, [FILLER; 6]);
}

fn test_packet(src_ip: Ipv4Addr, dst_ip: Ipv4Addr, src_port: u16, dst_port: u16) -> Packet {
    let total_len = 40;
    let mut buf = vec![0u8; total_len];
    buf[0] = 0x45;
    buf[2..4].copy_from_slice(&(total_len as u16).to_be_bytes());
    buf[8] = 64;
    buf[9] = 6;
    buf[12..16].copy_from_slice(&src_ip.octets());
    buf[16..20].copy_from_slice(&dst_ip.octets());
    buf[20..22].copy_from_slice(&src_port.to_be_bytes());
    buf[22..24].copy_from_slice(&dst_port.to_be_bytes());
    buf[32] = 0x50;
    Packet::new(total_len, buf)
}

#[test]
fn receive_returns_tokens_with_packet() {
    let packet = test_packet(
        Ipv4Addr::new(10, 0, 0, 1),
        Ipv4Addr::new(10, 0, 0, 2),
        4001,
        5000,
    );
    let expected = packet.buf[0..packet.packet_size].to_vec();
    let rx_token = PacketRxToken(packet);
    let received = rx_token.consume(|buf: &[u8]| buf.to_vec());
    assert_eq!(received, expected);
}

#[test]
fn a_token_hides_the_end_of_the_buffer() {
    let token = PacketRxToken(Packet::new(2, vec![1, 2, 3, 4]));
    assert_eq!(token.consume(|buf: &[u8]| buf.len()), 2);
}

#[test]
fn transmit_executes_closure_and_returns_result() {
    let config = LocalConfig { node_id: 1, ..Default::default() };
    let dst_ip = config.node_id.ip_addr(config.user_space_base_addr, config.local_netmask);
    let src_ip = (config.node_id + 1).ip_addr(config.user_space_base_addr, config.local_netmask);
    let dst_port = config.user_space_server_port;
    let src_port: u16 = 4100;
    let (result, packet) = PacketTxToken.consume(40, |buf: &mut [u8]| {
        assert_eq!(buf.len(), 40);
        buf.fill(0);
        buf[0] = 0x45;
        buf[2..4].copy_from_slice(&40u16.to_be_bytes());
        buf[8] = 64;
        buf[9] = 6;
        buf[12..16].copy_from_slice(&src_ip.bits.to_be_bytes());
        buf[16..20].copy_from_slice(&dst_ip.bits.to_be_bytes());
        buf[20..22].copy_from_slice(&src_port.to_be_bytes());
        buf[22..24].copy_from_slice(&dst_port.to_be_bytes());
        buf[32] = 0x50;
        123usize
    });
    assert_eq!(result, 123);
    assert_eq!(packet.packet_size, 40);
    assert_eq!(packet.buf[9], 6);
    assert_eq!(packet.flow_id.src_ip(), src_ip);
    assert_eq!(packet.flow_id.dst_ip(), dst_ip);
    assert_eq!(packet.flow_id.src_port(), 4100);
    assert_eq!(packet.flow_id.dst_port(), 8888);
}

#[test]
fn a_packet_that_nothing_was_written_into_is_all_zeros() {
    let (result, packet) = PacketTxToken.consume(3, |buf: &mut [u8]| buf.len());
    assert_eq!(result, 3);
    assert_eq!(packet.buf, vec![0, 0, 0]);
}

#[test]
fn a_negative_mtu_is_taken_as_it_is_cast() {
    assert_eq!(capabilities(-1).max_transmission_unit, usize::MAX);
}

#[test]
fn capabilities_match_configured_mtu() {
    let mut config = client_config();
    config.mtu = 2048;
    let caps = capabilities(config.mtu);
    assert_eq!(caps.max_transmission_unit, 2048);
    assert_eq!(caps.medium, Medium::Ip);
}

fn server_config() -> LocalConfig {
    LocalConfig {
        node_id: 2,
        num_packet_processors: 1,
        channel_capacity: 16,
        user_space_server_port: 5000,
        ..Default::default()
    }
}

fn server_flow(src_node_id: usize, dst_node_id: usize, rate: Option<usize>) -> Flow {
    Flow {
        controller_id: None,
        src_node_id,
        dst_node_id,
        route_id: None,
        flow_spec: FlowSpec {
            flow_len: FlowLen::Bytes(1024),
            flow_rate: rate,
            flow_weight: None,
            transport: FlowTransport::Tcp,
        },
    }
}

fn server_flow_id(config: &LocalConfig, flow: &Flow, src_port: u16) -> FlowId {
    let src_ip = flow.src_node_id.ip_addr(config.user_space_base_addr, config.local_netmask);
    let dst_ip = flow.dst_node_id.ip_addr(config.user_space_base_addr, config.local_netmask);
    ((src_ip.bits as u128) << 96)
        | ((dst_ip.bits as u128) << 64)
        | ((src_port as u128) << 48)
        | ((config.user_space_server_port as u128) << 32)
}

#[test]
fn store_flow_spec_registers_flow_rate() {
    let config = server_config();
    let mut handle = UserSpaceServerHandle::new(config.clone());
    let flow = server_flow(5, config.node_id, Some(25_000));
    handle.store_flow_spec(flow);
    let src_ip = flow.src_node_id.ip_addr(config.user_space_base_addr, config.local_netmask);
    let stored = handle
        .stored_flow_spec(src_ip.bits)
        .expect("flow spec should be recorded for source IP");
    assert_eq!(
        stored.flow_rate, flow.flow_spec.flow_rate,
        "stored flow spec should preserve the controller-provided rate"
    );
    assert!(handle.stored_flow_spec(src_ip.bits + 1).is_none());
}

#[test]
fn add_server_reuses_existing_sender_for_same_flow() {
    let config = server_config();
    let mut handle = UserSpaceServerHandle::new(config.clone());
    let flow = server_flow(6, config.node_id, Some(10));
    handle.store_flow_spec(flow);
    let flow_id = server_flow_id(&config, &flow, 4100);

    assert_eq!(
        handle.add_server(flow_id, 0),
        ServerAction::Start { sender: 0, flow_rate: Some(10), listen_port: 5000 }
    );
    assert_eq!(
        handle.add_server(flow_id, 1),
        ServerAction::Existing { sender: 0 },
        "a subsequent request for the same flow should reuse the existing sender"
    );
    assert_eq!(
        handle.packet_senders.len(),
        1,
        "only one sender entry should exist for duplicate add_server calls"
    );
}

#[test]
fn an_unknown_source_has_no_rate() {
    let config = server_config();
    let mut handle = UserSpaceServerHandle::new(config.clone());
    let flow_id = server_flow_id(&config, &server_flow(6, 2, None), 4100);
    assert_eq!(
        handle.add_server(flow_id, 3),
        ServerAction::Start { sender: 3, flow_rate: None, listen_port: 5000 }
    );
}

#[test]
fn slow_servers_pause_when_idle() {
    assert!(should_pause(Some(199_999_999), true));
    assert!(!should_pause(Some(200_000_000), true));
    assert!(!should_pause(Some(10), false));
    assert!(!should_pause(None, true));
}

#[test]
fn packets_reach_the_endpoint_of_their_port() {
    let config = server_config();
    let mut router = PacketRouter::new(&config);
    let to_server = test_packet(Ipv4Addr::new(1, 1, 1, 1), Ipv4Addr::new(2, 2, 2, 2), 9, 5000);
    let to_client = test_packet(Ipv4Addr::new(1, 1, 1, 1), Ipv4Addr::new(2, 2, 2, 2), 9, 4001);
    assert_eq!(router.send_packet(&to_server), None);
    router.register_server(1);
    router.register_client(4001, 2);
    assert_eq!(router.send_packet(&to_server), Some(1));
    assert_eq!(router.send_packet(&to_client), Some(2));
    let bare = Packet::new(8, vec![0x41, 0, 0, 8, 0, 9, 0x0F, 0xA1]);
    assert_eq!(router.send_packet(&bare), Some(2));
    router.deregister_client(4001);
    assert_eq!(router.send_packet(&to_client), None);
}

#[test]
fn flows_are_sorted_by_their_ends() {
    let mut tcp = UserSpaceTcp::new(2, Ipv4Addr::new(192, 168, 0, 2));
    let incoming = server_flow(1, 2, None);
    let outgoing = server_flow(2, 3, None);
    let foreign = server_flow(4, 5, None);
    let added = tcp.add_flows(&vec![incoming, foreign, outgoing]);
    assert!(added.create_handles);
    assert_eq!(added.incoming, vec![incoming]);
    assert_eq!(added.outgoing, vec![outgoing]);
    assert!(!tcp.add_flows(&vec![incoming]).create_handles);
}

#[test]
fn without_an_address_flows_are_dropped() {
    let mut tcp = UserSpaceTcp::new(2, Ipv4Addr::new(0, 0, 0, 0));
    let added = tcp.add_flows(&vec![server_flow(1, 2, None)]);
    assert!(!added.create_handles);
    assert!(added.incoming.is_empty());
}
