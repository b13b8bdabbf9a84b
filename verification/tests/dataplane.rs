use std::collections::HashMap;

use nextmini_dataplane::actors::{Destination, Processor as ActorProcessor};
use nextmini_dataplane::dataplane::controller_interface::{
    ControlAction, ControlMessage, ControllerReceiver,
};
use nextmini_dataplane::dataplane::local_interface::{accepts, mask_to_prefix, read_packet};
use nextmini_dataplane::dataplane::metrics::Collector;
use nextmini_dataplane::dataplane::packet::Packet;
use nextmini_dataplane::dataplane::processor::{
    Delivery, Processor, RouteError, SenderLoadBalancer,
};
use nextmini_dataplane::dataplane::protocols::{
    connection_greeting, listen_addresses, peer_node_id, tries_again,
};
use nextmini_dataplane::dataplane::routes::{pick_route, EnhancedRouteEntry, RoutingTable};
use nextmini_dataplane::dataplane::scheduler::{Enqueued, Fifo, Scheduler, BATCH_SIZE};
use nextmini_dataplane::dataplane::{FlowId, FlowIdExt, RECEIVE_BUF_SIZE};
use nextmini_dataplane::messages::{Protocol, RoutingTableEntry};
use nextmini_dataplane::net::Ipv4Addr;

fn create_flow_id(
    src_ip_last_octet: u8,
    dst_ip_last_octet: u8,
    sport: u16,
    dport: u16,
    reserved: u32,
) -> FlowId {
    let src_ip: u32 = 0x0A000000 | (src_ip_last_octet as u32);
    let dst_ip: u32 = 0x0A000000 | (dst_ip_last_octet as u32);

    ((src_ip as u128) << 96)
        | ((dst_ip as u128) << 64)
        | ((sport as u128) << 48)
        | ((dport as u128) << 32)
        | (reserved as u128)
}

fn entry(route_id: usize, next_hop: usize, src: usize, dst: usize) -> RoutingTableEntry {
    RoutingTableEntry { route_id, next_hop, src_node_id: src, dst_node_id: dst }
}

#[test]
fn test_install_multiple_routes_different_directions() {
    let mut table = RoutingTable::new(1);
    table.install_routes(vec![entry(100, 2, 1, 3), entry(101, 4, 1, 5)]);

    assert_eq!(table.route_next_hop.len(), 2);
    assert_eq!(table.direction_routes.len(), 2);
    assert_eq!(table.route_next_hop.get(&100), Some(&2));
    assert_eq!(table.route_next_hop.get(&101), Some(&4));
    assert_eq!(table.direction_routes.get(&(1, 3)), Some(&vec![100]));
    assert_eq!(table.direction_routes.get(&(1, 5)), Some(&vec![101]));
}

#[test]
fn test_install_multiple_routes_same_direction() {
    let mut table = RoutingTable::new(1);
    table.install_routes(vec![entry(100, 2, 1, 3), entry(101, 4, 1, 3)]);

    assert_eq!(table.route_next_hop.len(), 2); // Both routes stored
    assert_eq!(table.direction_routes.len(), 1); // One direction
    let dir_routes = table.direction_routes.get(&(1, 3)).unwrap();
    assert!(dir_routes.contains(&100));
    assert!(dir_routes.contains(&101));
}

#[test]
fn test_install_route_with_zero_next_hop() {
    let mut table = RoutingTable::new(1);
    table.install_routes(vec![entry(100, 0, 1, 3)]);

    assert_eq!(table.route_next_hop.len(), 0); // Should not be installed
    assert_eq!(table.direction_routes.len(), 0); // Direction should not be added if no valid route
}

#[test]
fn test_extract_src_dst_from_flow() {
    let table = RoutingTable::new(1); // base_ipv4_addr is [10,0,0,0] by default
    let flow_id = create_flow_id(5, 7, 12345, 80, 6); // 10.0.0.5 -> 10.0.0.7
    let (src_node, dst_node) = table.extract_src_dst_from_flow(flow_id);
    assert_eq!(src_node, 5, "Source node ID mismatch");
    assert_eq!(dst_node, 7, "Destination node ID mismatch");
}

#[test]
fn a_flow_keeps_its_route() {
    let mut table = RoutingTable::new(1);
    table.install_routes(vec![entry(100, 2, 5, 7), entry(101, 4, 5, 7), entry(102, 6, 5, 7)]);
    let mut used = [false; 3];
    for port in 0..100u16 {
        let flow_id = create_flow_id(5, 7, port, 80, 0);
        let route_id = table.select_route_for_flow(flow_id).expect("there are routes");
        assert_eq!(table.select_route_for_flow(flow_id), Some(route_id));
        assert_eq!(table.get_next_hop_by_route(route_id), Some(2 * (route_id - 99)));
        used[route_id - 100] = true;
    }
    assert_eq!(used, [true; 3]);
    assert_eq!(table.select_route_for_flow(create_flow_id(5, 9, 1, 1, 0)), None);
    assert_eq!(pick_route(&vec![4, 5, 6], 1), 5);
}

#[test]
fn installed_routes_replace_all_others() {
    let mut table = RoutingTable::new(1);
    table.set_base_ipv4_addr([10, 0, 0, 0]);
    table.install_routes(vec![entry(7, 2, 1, 3), entry(8, 4, 1, 9)]);
    let flow_id = create_flow_id(1, 3, 1, 1, 0);
    assert_eq!(table.select_route_for_flow(flow_id), Some(7));
    let copy = table.clone();
    for _ in 0..2 {
        table.install_routes(vec![
            entry(100, 2, 1, 3),
            entry(101, 4, 1, 3),
            entry(100, 6, 1, 3),
            entry(101, 0, 1, 3),
        ]);
        assert_eq!(table.route_next_hop.len(), 2);
        assert_eq!(table.get_next_hop_by_route(100), Some(6));
        assert_eq!(table.get_next_hop_by_route(101), Some(4));
        assert_eq!(table.get_next_hop_by_route(7), None);
        assert_eq!(table.direction_routes.get(&(1, 3)), Some(&vec![100, 101, 100]));
        assert_eq!(table.direction_routes.get(&(1, 9)), None);
        assert!(table.flow_route_cache.is_empty());
        assert_eq!(table.local_id, 1);
    }
    assert_eq!(copy.get_next_hop_by_route(7), Some(2));
    assert_eq!(copy.direction_routes.get(&(1, 9)), Some(&vec![8]));
    assert_eq!(copy.flow_route_cache.get(&flow_id), Some(&7));
}

#[test]
fn enhanced_routes_are_installed_alike() {
    let mut table = RoutingTable::new(1);
    table.install_routes_enhanced(vec![EnhancedRouteEntry {
        route_id: 8,
        next_hop: 3,
        src_node_id: 1,
        dst_node_id: 2,
    }]);
    assert_eq!(table.get_next_hop_by_route(8), Some(3));
    table.set_base_ipv4_addr([10, 0, 1, 0]);
    assert_eq!(table.ip_to_node_id(0x0A00_0104), 4);
}

#[test]
fn packets_are_delivered_along_their_routes() {
    let mut table = RoutingTable::new(7);
    table.install_routes(vec![entry(1, 2, 5, 8), entry(2, 7, 5, 7), entry(3, 9, 5, 9)]);
    let mut processor = Processor::new(table);
    processor.add_sender(2, 44);
    assert_eq!(
        processor.process_packet(create_flow_id(5, 8, 1, 2, 0)),
        Ok(Delivery::Sender(44))
    );
    assert_eq!(processor.process_packet(create_flow_id(5, 7, 1, 2, 0)), Ok(Delivery::Local));
    let lost = create_flow_id(5, 9, 1, 2, 0);
    assert_eq!(
        processor.process_packet(lost),
        Err(RouteError::Unreachable { next_hop_id: 9, flow_id: lost })
    );
    let unknown = create_flow_id(1, 1, 1, 1, 0);
    assert_eq!(
        processor.process_packet(unknown),
        Err(RouteError::NoRoute { flow_id: unknown })
    );
    let cache = &processor.routing_table.flow_route_cache;
    assert_eq!(cache.len(), 3);
    assert_eq!(cache.get(&create_flow_id(5, 8, 1, 2, 0)), Some(&1));
    assert_eq!(cache.get(&create_flow_id(5, 7, 1, 2, 0)), Some(&2));
    assert_eq!(cache.get(&lost), Some(&3));
    processor.update_simple_routes(vec![entry(0, 2, 5, 8)]);
    assert_eq!(
        processor.process_packet(create_flow_id(5, 8, 1, 2, 0)),
        Err(RouteError::NotSelectable)
    );
}

#[test]
fn route_errors_have_words() {
    assert_eq!(
        RouteError::NoRoute { flow_id: 12 }.message(),
        "No route is found for flow 12: the routing table may be misconfigured."
    );
    assert_eq!(RouteError::NotSelectable.message(), "No route can be selected.");
    assert_eq!(
        RouteError::NoNextHop { route_id: 3, flow_id: 12 }.message(),
        "No next hop is found for route id 3 on flow 12: routing inconsistency detected."
    );
    assert_eq!(
        RouteError::Unreachable { next_hop_id: 9, flow_id: 12 }.message(),
        "Next hop node 9 is offline or unreachable for flow 12: connection may have been lost."
    );
}

#[test]
fn new_flows_take_turns() {
    let mut balancer = SenderLoadBalancer::new(2);
    assert_eq!(balancer.try_send(10), 0);
    assert_eq!(balancer.try_send(11), 1);
    assert_eq!(balancer.try_send(12), 0);
    assert_eq!(balancer.try_send(11), 1);
    let mut copy = balancer.clone();
    assert_eq!(copy.try_send(13), 1);
    assert_eq!(balancer.try_send(14), 1);
    assert_eq!(copy.try_send(12), 0);
    let _idle = SenderLoadBalancer::new(0);
}

fn packet(size: usize, first: u8) -> Packet {
    let mut buf = [0u8; RECEIVE_BUF_SIZE];
    buf[0] = first;
    Packet::new(size, buf)
}

#[test]
fn a_full_queue_takes_no_more() {
    let mut fifo = Fifo::new(2);
    assert_eq!(fifo.enqueue(packet(20, 0x45), false), Enqueued::Waiting);
    assert_eq!(fifo.enqueue(packet(30, 0x45), true), Enqueued::Dropped);
    assert_eq!(fifo.enqueue(packet(40, 0x45), false), Enqueued::Waiting);
    assert_eq!(fifo.enqueue(packet(50, 0x45), false), Enqueued::NoRoom);
    assert_eq!(fifo.len(), 2);
    assert_eq!(fifo.packets_dropped(), 1);
    assert_eq!(fifo.run().unwrap().packet.packet_size, 20);
    assert_eq!(fifo.run().unwrap().packet.packet_size, 40);
    assert!(fifo.run().is_none());
}

#[test]
fn bytes_are_charged_in_batches() {
    let mut fifo = Fifo::new(100);
    let mut charged = 0;
    for _ in 0..BATCH_SIZE + 1 {
        fifo.enqueue(packet(10, 0x45), false);
        charged += fifo.run().unwrap().charge.unwrap_or(0);
    }
    assert_eq!(charged, 10 * (BATCH_SIZE + 1));
}

#[test]
fn flow_ids_come_from_the_header() {
    let mut buf = [0u8; RECEIVE_BUF_SIZE];
    buf[0] = 0x45;
    buf[9] = 17;
    buf[12..16].copy_from_slice(&[10, 0, 0, 5]);
    buf[16..20].copy_from_slice(&[10, 0, 0, 7]);
    buf[20..22].copy_from_slice(&12345u16.to_be_bytes());
    buf[22..24].copy_from_slice(&80u16.to_be_bytes());
    assert_eq!(Packet::new(24, buf).flow_id, create_flow_id(5, 7, 12345, 80, 0));
    assert_eq!(packet(24, 0x60).flow_id, 0);
    let pair: u64 = 0x0A00_0001_0A00_0002;
    assert_eq!(pair.src_addr(), Ipv4Addr::new(10, 0, 0, 1));
    assert_eq!(pair.dest_addr(), Ipv4Addr::new(10, 0, 0, 2));
}

#[test]
fn the_device_is_spared_broken_packets() {
    assert!(accepts(&packet(40, 0x45)));
    assert!(!accepts(&packet(19, 0x45)));
    assert!(!accepts(&packet(40, 0x65)));
    assert!(!accepts(&packet(40, 0x44)));
    assert!(!accepts(&packet(40, 0x4F)));
    assert!(accepts(&packet(60, 0x4F)));
    assert!(read_packet(0, [0u8; RECEIVE_BUF_SIZE]).is_none());
    assert_eq!(read_packet(7, [0u8; RECEIVE_BUF_SIZE]).unwrap().packet_size, 7);
    assert_eq!(mask_to_prefix((255, 255, 240, 0)), 20);
}

#[test]
fn bytes_add_up_per_socket() {
    let mut collector = Collector::new();
    collector.record(0x0102030405060708, (80, 443), 3, 10);
    collector.record(0x0102030405060708, (80, 443), 4, 5);
    collector.record(0x0102030405060708, (80, 444), 4, 1);
    let mut lines = collector.take_report();
    lines.sort_by_key(|l| l.bytes);
    assert_eq!(lines.len(), 2);
    assert_eq!(lines[1].bytes, 15);
    assert_eq!(lines[1].src_node_id, 3);
    assert_eq!(lines[1].stream_id, "80:443");
    assert_eq!(lines[1].flow_id, vec![1, 2, 3, 4, 5, 6, 7, 8]);
    assert!(collector.take_report().is_empty());
}

#[test]
fn nodes_greet_with_session_and_id() {
    let greeting = connection_greeting(&[9, 8, 7, 6], 258);
    assert_eq!(greeting, vec![9, 8, 7, 6, 0, 0, 0, 0, 0, 0, 1, 2]);
    let mut id = [0u8; 8];
    id.copy_from_slice(&greeting[4..]);
    assert_eq!(peer_node_id(&id), 258);
    assert!(tries_again(9));
    assert!(!tries_again(10));
}

#[test]
fn ports_decide_where_to_listen() {
    let same = listen_addresses(Protocol::Tcp, &"80".to_string(), &"80".to_string());
    assert_eq!(same, vec!["0.0.0.0:80"]);
    let two = listen_addresses(Protocol::Quic, &"80".to_string(), &"81".to_string());
    assert_eq!(two, vec!["0.0.0.0:80", "0.0.0.0:81"]);
    assert!(listen_addresses(Protocol::Udp, &"80".to_string(), &"81".to_string()).is_empty());
}

#[test]
fn control_messages_have_their_actions() {
    let mut receiver = ControllerReceiver::new();
    match receiver.process_control_msg(ControlMessage::InstallFlow { num_flows: 2 }) {
        ControlAction::UpdateSimpleRoutes { routes } => {
            assert_eq!(routes, vec![entry(0, 2, 1, 4), entry(1, 2, 1, 4)]);
        }
        _ => panic!("routes are installed"),
    }
    let rate = ControlMessage::SetLinkRate { node_id: 3, rate: 5 };
    assert!(matches!(
        receiver.process_control_msg(rate),
        ControlAction::AddLimiter { node_id: 3, rate: 5 }
    ));
    let rate = ControlMessage::SetLinkRate { node_id: 3, rate: 6 };
    assert!(matches!(
        receiver.process_control_msg(rate),
        ControlAction::ReplaceLimiter { node_id: 3, rate: 6 }
    ));
    assert!(matches!(
        receiver.process_control_msg(ControlMessage::Other),
        ControlAction::Unsupported
    ));
    let node = ControlMessage::AddNode {
        protocol: Protocol::Udp,
        node_id: 4,
        addr: "1.1.1.1:1".to_string(),
    };
    assert!(matches!(
        receiver.process_control_msg(node),
        ControlAction::Connect { protocol: Protocol::Udp, node_id: 4, .. }
    ));
}

#[test]
fn actors_dispatch_by_next_hop() {
    let processor = ActorProcessor { local_id: 1, senders: HashMap::from([(2, 20)]) };
    assert_eq!(processor.dispatch(Some(1)), Destination::Local);
    assert_eq!(processor.dispatch(Some(2)), Destination::Sender(20));
    assert_eq!(processor.dispatch(Some(3)), Destination::NoSender(3));
    assert_eq!(processor.dispatch(None), Destination::NoRoute);
}
