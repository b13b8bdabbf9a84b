use std::time::Duration;

use nextmini_dataplane::messages::{
    ControllerToDataplane, Flow, FlowLen, FlowSpec, FlowTransport, OperatingMode, Protocol,
    SchedulingDiscipline, StartUp, INVALID,
};
use nextmini_dataplane::net::Ipv4Addr;
use nextmini_dataplane::node::config::{
    default_ready_grace_ms, CongestionControl, Feature, Interface, InterfaceAddr, LocalConfig,
    ReliableConfig,
};
use nextmini_dataplane::node::{flow_id_from_parts, node_fits_network, NodeIdExt};

#[test]
fn default_reorder_tolerances_match_defaults() {
    let cfg = LocalConfig::default();
    let (enforce, gap, backlog) = cfg.reorder_tolerances();
    assert!(enforce);
    assert_eq!(gap.map(Duration::from_micros), Some(Duration::from_micros(500)));
    // Default backlog tolerance is disabled (0) when enforcement is enabled.
    assert_eq!(backlog, 0);
}

#[test]
fn unordered_mode_disables_tolerances() {
    let cfg = LocalConfig {
        enforce_tcp_order: false,
        delay_tolerance: 123,
        backlog_tolerance: 99,
        ..Default::default()
    };

    let (enforce, gap, backlog) = cfg.reorder_tolerances();
    assert!(!enforce);
    assert_eq!(gap, None);
    assert_eq!(backlog, 0);
}

#[test]
fn zero_tolerances_disable_components() {
    let cfg = LocalConfig { delay_tolerance: 0, backlog_tolerance: 0, ..Default::default() };

    let (_, gap, backlog) = cfg.reorder_tolerances();
    assert_eq!(gap, None);
    assert_eq!(backlog, 0);
}

#[test]
fn configured_backlog_is_kept() {
    let cfg = LocalConfig { backlog_tolerance: 12, ..Default::default() };
    assert_eq!(cfg.reorder_tolerances().2, 12);
}

#[test]
fn defaults_are_those_of_a_single_node() {
    let cfg = LocalConfig::default();
    assert_eq!(CongestionControl::default(), CongestionControl::Bbr);
    assert_eq!(Feature::default(), Feature::Sequential);
    assert_eq!(default_ready_grace_ms(), 1500);
    assert_eq!(ReliableConfig::default().default_chunk_size, 8500);
    assert_eq!(cfg.private_network_port, "8080");
    assert_eq!(cfg.tun_interface_name, "utun");
    assert_eq!(cfg.bridge_ip, "172.16.8.1");
    assert_eq!(cfg.local_netmask, Ipv4Addr::new(255, 255, 255, 0));
    assert_eq!(cfg.flow.len(), 1);
    assert_eq!(cfg.flow[0].flow_spec.flow_len, FlowLen::Bytes(1_000_000_000));
}

#[test]
fn addresses_stand_for_nodes() {
    let cfg = LocalConfig::default();
    assert_eq!(cfg.ip_to_node_id(Ipv4Addr::new(10, 0, 0, 9)), 9);
    assert_eq!(cfg.ip_to_node_id(Ipv4Addr::new(192, 168, 0, 4)), 4);
    assert_eq!(cfg.ip_to_node_id(Ipv4Addr::new(172, 16, 8, 7)), 4);
    assert_eq!(cfg.ip_to_node_id(Ipv4Addr::new(8, 8, 8, 8)), INVALID);
    assert!(cfg.has_node_id(Ipv4Addr::new(10, 0, 0, 9)));
    assert!(!cfg.has_node_id(Ipv4Addr::new(172, 16, 8, 1)));
}

#[test]
fn node_addresses_are_read_back() {
    let cfg = LocalConfig::default();
    for node_id in [1usize, 2, 77, 254] {
        assert!(node_fits_network(node_id, cfg.virtual_base_addr, cfg.local_netmask));
        let tun = node_id.ip_addr(cfg.virtual_base_addr, cfg.local_netmask);
        assert_eq!(cfg.ip_to_node_id(tun), node_id);
        let user = node_id.ip_addr(cfg.user_space_base_addr, cfg.local_netmask);
        assert_eq!(cfg.ip_to_node_id(user), node_id);
    }
}

#[test]
fn flows_outside_the_networks_have_no_nodes() {
    let cfg = LocalConfig::default();
    let inside = flow_id_from_parts(
        Ipv4Addr::new(10, 0, 0, 5),
        1,
        Ipv4Addr::new(10, 0, 0, 7),
        2,
    );
    assert_eq!(cfg.try_extract_node_ids_from_flow(inside), Some((5, 7)));
    let outside = flow_id_from_parts(
        Ipv4Addr::new(10, 0, 0, 5),
        1,
        Ipv4Addr::new(8, 8, 8, 8),
        2,
    );
    assert_eq!(cfg.try_extract_node_ids_from_flow(outside), None);
    assert_eq!(cfg.extract_node_ids_from_flow(outside), (5, INVALID));
}

fn interfaces() -> Vec<Interface> {
    vec![
        Interface {
            name: "lo".to_string(),
            addrs: vec![InterfaceAddr::V4(Ipv4Addr::new(127, 0, 0, 1))],
        },
        Interface {
            name: "eth0".to_string(),
            addrs: vec![
                InterfaceAddr::V4(Ipv4Addr::new(172, 16, 8, 4)),
                InterfaceAddr::V4(Ipv4Addr::new(172, 16, 8, 9)),
                InterfaceAddr::V6,
            ],
        },
    ]
}

#[test]
fn runtime_defaults_come_from_the_interface() {
    let mut cfg = LocalConfig::default();
    cfg.populate_runtime_defaults(&interfaces(), 6);
    assert_eq!(cfg.private_network_addr, "172.16.8.9");
    assert_eq!(cfg.public_network_addr, "172.16.8.9");
    assert_eq!(cfg.node_id, 6);
    assert_eq!(cfg.num_packet_processors, 6);
}

#[test]
fn configured_values_stay() {
    let mut cfg = LocalConfig {
        private_network_addr: "1.2.3.4".to_string(),
        public_network_interface: "none".to_string(),
        node_id: 3,
        num_packet_processors: 2,
        ..Default::default()
    };
    cfg.populate_runtime_defaults(&interfaces(), 6);
    assert_eq!(cfg.private_network_addr, "1.2.3.4");
    assert_eq!(cfg.public_network_addr, "");
    assert_eq!(cfg.node_id, 3);
    assert_eq!(cfg.num_packet_processors, 2);
}

#[test]
fn namespace_nodes_count_from_one() {
    let mut cfg = LocalConfig::default();
    cfg.set_for_namespace("dataplane.toml".to_string(), "172.16.8.4".to_string(), 1, 8);
    assert_eq!(cfg.node_id, 2);
    assert_eq!(cfg.private_network_addr, "172.16.8.4");
    assert_eq!(cfg.public_network_addr, "172.16.8.4");
    assert_eq!(cfg.config_path, "dataplane.toml");
    assert_eq!(cfg.num_packet_processors, 8);
}

#[test]
fn the_controller_sets_the_addresses() {
    let mut cfg = LocalConfig::default();
    cfg.update(ControllerToDataplane::StartUp(StartUp {
        node_id: 3,
        net_mask: Ipv4Addr::new(255, 255, 0, 0),
        virtual_base_addr: Ipv4Addr::new(10, 1, 0, 0),
        user_space_base_addr: Ipv4Addr::new(192, 168, 0, 0),
        external_base_addr: Ipv4Addr::new(172, 16, 8, 3),
        max_server_port: 9000,
        protocol: Protocol::Tcp,
        scheduler_type: SchedulingDiscipline::Wrr,
        operating_mode: OperatingMode::Max,
    }));
    assert_eq!(cfg.node_id, 3);
    assert_eq!(cfg.local_address, Ipv4Addr::new(10, 1, 0, 3));
    assert_eq!(cfg.user_space_address, Ipv4Addr::new(192, 168, 0, 3));
    assert_eq!(cfg.protocol, Protocol::Tcp);
    assert_eq!(cfg.max_server_port, 9000);

    let flow = Flow {
        controller_id: Some(1),
        src_node_id: 1,
        dst_node_id: 2,
        route_id: None,
        flow_spec: FlowSpec {
            flow_len: FlowLen::Bytes(7),
            flow_rate: None,
            flow_weight: None,
            transport: FlowTransport::Tcp,
        },
    };
    cfg.update(ControllerToDataplane::AddFlows { flows: vec![flow, flow] });
    assert_eq!(cfg.flow, vec![flow, flow]);
    cfg.update(ControllerToDataplane::TopologyReady);
    assert_eq!(cfg.flow.len(), 2);
}
