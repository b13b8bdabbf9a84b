use nextmini_dataplane::lines::{is_switched_on, is_white_space};
use nextmini_dataplane::messages::{ControllerToDataplane, GroupRoutingTableEntry, Protocol};
use nextmini_dataplane::net::{push_be32, push_be64, read_be64, Ipv4Addr};
use nextmini_dataplane::node::conductor::{
    deliver, deliver_adopted, listeners, wait_step, Delivery, PendingReceiverKey, ServerKind,
    WaitStep,
};
use nextmini_dataplane::node::config::{LocalConfig, LosslessRuntimeConfig};
use nextmini_dataplane::node::connector::{Connector, Forward, Inbound};
use nextmini_dataplane::node::context::Context;
use nextmini_dataplane::node::integration_test::artifacts::{
    group_info_path, hash_file_name, metrics_payload, performance_metrics_path,
    ready_marker_path, receiver_artifact_path, sha256_hex, source_artifact_path, status_path,
    status_payload, IntegrationNodeRole,
};
use nextmini_dataplane::node::integration_test::group_info::{
    group_info_payload, parse_group_info, GroupInfo,
};
use nextmini_dataplane::node::integration_test::harness::{
    events_of, routes_timeout, ControllerHarness, HarnessEvent, Wanted,
};
use nextmini_dataplane::node::integration_test::script::{
    timeout_message, Progress, Script, Step,
};
use nextmini_dataplane::node::integration_test::transfer::{
    arrival_result, multicast_session_id, plan_routes, receiver_request, session_result, source_request,
    IntegrationTestConfig, RoutePlan, SessionEnd, Tree,
};
use nextmini_dataplane::node::namespace::manager::{
    choose_controller_addr, namespace_hostname, random_suffix, resolve_controller_addr, suffix_of,
    veth_names, NamespaceManager,
};
use nextmini_dataplane::node::namespace::network::{
    carrier_step, ensure_forward_rules, ensure_nat_masquerade, has_carrier, missing_veth,
    no_carrier, CarrierStep, LinkState, NetworkError,
};
use nextmini_dataplane::node::namespace::spawner::{
    handshake_outcome, remaining_children, ChildStatus, HandshakeRead, SpawnAction, SpawnEvent,
    Spawner,
};
use nextmini_dataplane::node::{flow_id_bytes, flow_id_from_parts, FlowId, FlowIdExt};
use nextmini_dataplane::text::{read_ipv4, read_number, to_chars, to_decimal};

fn a_flow() -> FlowId {
    flow_id_from_parts(Ipv4Addr::new(10, 0, 0, 1), 1000, Ipv4Addr::new(9, 9, 9, 9), 443)
}

#[test]
fn flow_ids_are_taken_apart_and_turned_round() {
    let flow_id = a_flow();
    assert_eq!(flow_id, 0x0A000001_09090909_03E8_01BB_00000000);
    assert_eq!(flow_id.src_ip(), Ipv4Addr::new(10, 0, 0, 1));
    assert_eq!(flow_id.dst_port(), 443);
    assert_eq!(flow_id.reverse().src_ip(), Ipv4Addr::new(9, 9, 9, 9));
    assert_eq!(flow_id.reverse().dst_port(), 1000);
    assert_eq!(flow_id.reverse().reverse(), flow_id);
    assert_eq!(flow_id_bytes(flow_id), flow_id.to_be_bytes());
}

#[test]
fn connections_are_reused_per_flow_and_hop() {
    let mut connector = Connector::new(1);
    let hops = vec![1, 2];
    let actions = connector.process_packet(a_flow(), &hops);
    assert_eq!(actions.len(), 1);
    assert!(matches!(actions[0], Forward::NoAddress { next_hop_id: 2 }));
    connector.add_node_address(2, "10.1.1.2:8081".to_string());
    let actions = connector.process_packet(a_flow(), &hops);
    assert!(matches!(actions[0], Forward::NotConnected { next_hop_id: 2 }));
    connector.connect_max_client();
    match &connector.process_packet(a_flow(), &hops)[0] {
        Forward::Connect { next_hop_id, remote_addr, scheduler } => {
            assert_eq!((*next_hop_id, *scheduler), (2, 0));
            assert_eq!(remote_addr, "10.1.1.2:8081");
        }
        _ => panic!("a connection is opened"),
    }
    let actions = connector.process_packet(a_flow(), &hops);
    assert!(matches!(actions[0], Forward::Send { next_hop_id: 2, scheduler: 0 }));
    let actions = connector.process_packet(a_flow() + (1 << 32), &hops);
    assert!(matches!(actions[0], Forward::Connect { scheduler: 1, .. }));
    assert!(connector.process_packet(a_flow(), &vec![]).is_empty());
}

#[test]
fn inbound_connections_end_here_or_are_relayed() {
    let mut connector = Connector::new(1);
    connector.connect_max_client();
    connector.add_node_address(2, "10.1.1.2:8081".to_string());
    match connector.handle_inbound_request(a_flow(), 2, 5) {
        Inbound::Relay { addr, with_header } => {
            assert_eq!((addr.as_str(), with_header), ("10.1.1.2:8081", true));
        }
        _ => panic!("the connection is relayed"),
    }
    match connector.handle_inbound_request(a_flow(), 3, 5) {
        Inbound::Relay { addr, with_header } => {
            assert_eq!((addr.as_str(), with_header), ("9.9.9.9:443", false));
        }
        _ => panic!("the connection is relayed"),
    }
    assert!(matches!(
        connector.handle_inbound_request(a_flow(), 1, 5),
        Inbound::Deliver { scheduler: 0 }
    ));
    let actions = connector.process_packet(a_flow().reverse(), &vec![5]);
    assert!(matches!(actions[0], Forward::Send { next_hop_id: 5, scheduler: 0 }));
}

#[test]
fn channels_are_created_once() {
    let mut context = Context::new(1, 3, fxhash::FxHashMap::default(), 0);
    let first = context.get_processor_txs();
    assert_eq!((first.count, first.created), (3, true));
    assert!(!context.get_processor_txs().created);
    let receivers = context.get_processor_rxs();
    assert_eq!((receivers.count, receivers.created), (3, false));
    assert_eq!(context.receivers_taken, vec![true, true, true]);
}

#[test]
fn links_keep_their_limiter() {
    let mut context = Context::new(1, 3, fxhash::FxHashMap::default(), 0);
    let first = context.get_link_rate_limiter(2);
    assert_eq!((first.number, first.created), (0, true));
    assert_eq!(context.get_link_rate_limiter(3).number, 1);
    let again = context.get_link_rate_limiter(2);
    assert_eq!((again.number, again.created), (0, false));
    context.register_sender(4, 9);
    assert_eq!(context.processor_senders.get(&4), Some(&9));
}

#[test]
fn a_context_takes_over_limiters() {
    let mut limiters = fxhash::FxHashMap::default();
    limiters.insert(2usize, 6usize);
    let mut context = Context::new(1, 3, limiters, 7);
    let known = context.get_link_rate_limiter(2);
    assert_eq!((known.number, known.created), (6, false));
    let fresh = context.get_link_rate_limiter(3);
    assert_eq!((fresh.number, fresh.created), (7, true));
}

#[test]
fn servers_follow_protocol_and_ports() {
    let mut config = LocalConfig { protocol: Protocol::Tcp, ..Default::default() };
    let kinds = |config: &LocalConfig| -> Vec<(ServerKind, String)> {
        listeners(config).into_iter().map(|l| (l.kind, l.addr)).collect()
    };
    assert_eq!(
        kinds(&config),
        vec![
            (ServerKind::Tcp, "0.0.0.0:8080".to_string()),
            (ServerKind::TcpMax, "0.0.0.0:8081".to_string()),
        ]
    );
    config.private_network_port = "9".to_string();
    assert_eq!(kinds(&config).len(), 3);
    config.protocol = Protocol::Quic;
    assert_eq!(
        kinds(&config),
        vec![
            (ServerKind::Quic, "0.0.0.0:8080".to_string()),
            (ServerKind::Quic, "0.0.0.0:9".to_string()),
        ]
    );
    config.protocol = Protocol::Udp;
    config.private_network_port = "8080".to_string();
    assert_eq!(kinds(&config), vec![(ServerKind::Udp, "0.0.0.0:8080".to_string())]);
}

#[test]
fn frames_find_their_session() {
    let ip = Ipv4Addr::new(1, 2, 3, 4);
    assert_eq!(deliver(Some(3), None, None), Delivery::Send { input: 3 });
    assert_eq!(
        deliver(None, Some(ip), Some(9)),
        Delivery::Adopt { key: PendingReceiverKey { dest_ip: ip, source_node_id: 9 } }
    );
    assert_eq!(deliver(None, Some(ip), None), Delivery::Drop);
    assert_eq!(deliver(None, None, Some(9)), Delivery::Drop);
    let adopted = deliver_adopted(true, Some(5));
    assert_eq!((adopted.input, adopted.tell_session), (Some(5), true));
    let lost = deliver_adopted(false, Some(5));
    assert_eq!((lost.input, lost.tell_session), (None, false));
}

#[test]
fn nodes_are_started_one_after_the_other() {
    let (mut spawner, action) = Spawner::new(2);
    assert_eq!(action, SpawnAction::Prepare { idx: 0 });
    let prepared = SpawnEvent::Prepared { bridge: 1, veth: 2, peer: 3 };
    assert_eq!(spawner.handle(prepared), SpawnAction::Start { idx: 0, peer: 3 });
    assert_eq!(
        spawner.handle(SpawnEvent::Started { pid: 77 }),
        SpawnAction::Join { peer: 3, pid: 77 }
    );
    assert_eq!(spawner.handle(SpawnEvent::Done), SpawnAction::AwaitHandshake);
    assert_eq!(spawner.handle(SpawnEvent::Done), SpawnAction::BringUp { veth: 2 });
    assert_eq!(spawner.handle(SpawnEvent::Done), SpawnAction::AwaitCarrier { veth: 2 });
    assert_eq!(spawner.handle(SpawnEvent::Done), SpawnAction::Pause);
    assert_eq!(spawner.handle(SpawnEvent::Done), SpawnAction::Prepare { idx: 1 });
    assert_eq!(spawner.handle(SpawnEvent::Failed), SpawnAction::AwaitShutdown);
    assert_eq!(spawner.children, vec![77]);
    assert_eq!(spawner.bridge_idx, Some(1));
}

#[test]
fn a_node_that_fails_is_cleaned_up() {
    for failing_step in 0..4 {
        let (mut spawner, _) = Spawner::new(1);
        spawner.handle(SpawnEvent::Prepared { bridge: 1, veth: 2, peer: 3 });
        spawner.handle(SpawnEvent::Started { pid: 77 });
        for _ in 0..failing_step {
            spawner.handle(SpawnEvent::Done);
        }
        assert_eq!(
            spawner.handle(SpawnEvent::Failed),
            SpawnAction::CleanUp { idx: 0, pid: 77 }
        );
        assert!(spawner.children.is_empty());
        assert_eq!(spawner.handle(SpawnEvent::Done), SpawnAction::AwaitShutdown);
    }
    let (_, action) = Spawner::new(0);
    assert_eq!(action, SpawnAction::AwaitShutdown);
}

#[test]
fn one_byte_ends_the_handshake() {
    assert_eq!(handshake_outcome(HandshakeRead::Bytes(1)), Some(true));
    assert_eq!(handshake_outcome(HandshakeRead::Bytes(0)), Some(false));
    assert_eq!(handshake_outcome(HandshakeRead::Bytes(2)), Some(false));
    assert_eq!(handshake_outcome(HandshakeRead::WouldBlock), None);
    assert_eq!(handshake_outcome(HandshakeRead::Error), Some(false));
}

#[test]
fn processes_are_waited_for_until_they_end() {
    let statuses = vec![
        ChildStatus::Exited,
        ChildStatus::StillAlive,
        ChildStatus::Signaled,
        ChildStatus::Other,
        ChildStatus::Unknown,
    ];
    assert_eq!(remaining_children(&vec![1, 2, 3, 4, 5], &statuses), vec![2, 4]);
}

fn manager(bridge_ip: &str, subnet: u8, n_nodes: usize) -> NamespaceManager {
    NamespaceManager::new(LocalConfig {
        bridge_ip: bridge_ip.to_string(),
        subnet,
        n_nodes,
        node_id_offset: 10,
        ..Default::default()
    })
}

#[test]
fn namespaces_have_a_network() {
    let cidr = |ip: &str, subnet: u8| manager(ip, subnet, 1).namespace_subnet_cidr();
    assert_eq!(cidr("172.16.8.1", 16), Some("172.16.0.0/16".to_string()));
    assert_eq!(cidr("172.16.8.1", 24), Some("172.16.8.0/24".to_string()));
    assert_eq!(cidr("172.16.8.1", 32), Some("172.16.8.1/32".to_string()));
    assert_eq!(cidr("172.16.8.1", 0), Some("0.0.0.0/0".to_string()));
    assert_eq!(cidr("172.16.8.1", 33), None);
    assert_eq!(cidr("172.16.8", 16), None);
    assert_eq!(cidr("172.16.08.1", 16), None);
}

#[test]
fn namespaces_have_addresses() {
    let manager = manager("172.16.8.254", 16, 3);
    assert_eq!(
        manager.compute_namespace_ips(),
        vec!["172.16.9.1", "172.16.9.2", "172.16.9.3"]
    );
    assert_eq!(manager.child_node_id(2), 13);
    assert_eq!(manager.carrier_retries(), 200);
    let (host, node) = veth_names(12);
    assert_eq!((host.as_str(), node.as_str()), ("veth12a", "veth12b"));
}

#[test]
fn loopback_controllers_are_behind_the_gateway() {
    let resolve = |addr: &str| resolve_controller_addr(addr, "172.16.8.1");
    assert_eq!(resolve("ws://127.0.0.1:3000/ws"), "ws://172.16.8.1:3000/ws");
    assert_eq!(resolve("ws://localhost:3000/ws"), "ws://172.16.8.1:3000/ws");
    assert_eq!(resolve("ws://10.0.0.1:3000/ws"), "ws://10.0.0.1:3000/ws");
    assert_eq!(resolve("no url"), "no url");
}

#[test]
fn a_controller_that_cannot_be_rewritten_stays() {
    let host = Some("localhost".to_string());
    assert_eq!(choose_controller_addr("a", &host, Some("b".to_string())), "b");
    assert_eq!(choose_controller_addr("a", &host, None), "a");
    assert_eq!(choose_controller_addr("a", &None, Some("b".to_string())), "a");
    let other = Some("example".to_string());
    assert_eq!(choose_controller_addr("a", &other, Some("b".to_string())), "a");
    let v6 = Some("::1".to_string());
    assert_eq!(choose_controller_addr("a", &v6, Some("b".to_string())), "b");
    let bracketed = Some("[::1]".to_string());
    assert_eq!(choose_controller_addr("a", &bracketed, Some("b".to_string())), "b");
    let hostless = Some(String::new());
    assert_eq!(choose_controller_addr("a", &hostless, Some("b".to_string())), "a");
}

#[test]
fn an_ipv6_loopback_controller_is_reached_through_the_gateway() {
    assert_eq!(
        resolve_controller_addr("ws://[::1]:3000", "172.16.8.1"),
        "ws://172.16.8.1:3000/"
    );
    assert_eq!(resolve_controller_addr("ws://[::2]:3000", "172.16.8.1"), "ws://[::2]:3000");
    assert_eq!(resolve_controller_addr("data:text", "172.16.8.1"), "data:text");
}

#[test]
fn a_machine_is_given_the_rules_that_are_asked_for() {
    let lines = |forward: bool, nat: bool, subnet: u8| -> Vec<String> {
        let manager = NamespaceManager::new(LocalConfig {
            bridge_name: "isobr0".to_string(),
            bridge_ip: "172.16.8.1".to_string(),
            subnet,
            auto_add_forward_rules: forward,
            auto_add_nat: nat,
            ..Default::default()
        });
        manager.host_rules("ens3").iter().map(|rule| rule.add.join(" ")).collect()
    };
    let out = "-I FORWARD 1 -i isobr0 -o ens3 -j ACCEPT";
    let back = "-I FORWARD 1 -i ens3 -o isobr0 -m state --state RELATED,ESTABLISHED -j ACCEPT";
    let shared = "-t nat -A POSTROUTING -s 172.16.0.0/16 -o ens3 -j MASQUERADE";
    assert_eq!(lines(true, true, 16), vec![out, back, shared]);
    assert_eq!(lines(true, false, 16), vec![out, back]);
    assert_eq!(lines(false, true, 16), vec![shared]);
    assert_eq!(lines(true, true, 33), vec![out, back]);
    assert!(lines(false, false, 16).is_empty());
}

#[test]
fn a_node_in_a_namespace_has_its_own_addresses() {
    let config = LocalConfig { n_nodes: 7, node_id: 9, subnet: 24, ..Default::default() };
    let child = config.for_child(4, "172.16.8.4".to_string(), "ws://172.16.8.1:3000/".to_string());
    assert_eq!(child.n_nodes, 1);
    assert_eq!(child.node_id, 4);
    assert_eq!(child.private_network_addr, "172.16.8.4");
    assert_eq!(child.public_network_addr, "172.16.8.4");
    assert_eq!(child.controller_addr, "ws://172.16.8.1:3000/");
    assert_eq!(child.subnet, 24);
}

#[test]
fn suffixes_are_letters_and_digits() {
    assert_eq!(suffix_of(&vec![0, 25, 26, 51, 52, 61]), "AZaz09");
    let suffix = random_suffix(40);
    assert_eq!(suffix.len(), 40);
    assert!(suffix.chars().all(|c| c.is_ascii_alphanumeric()));
    assert_ne!(suffix, random_suffix(40));
    assert_eq!(namespace_hostname("x1"), "nextmini-x1");
}

#[test]
fn forwarding_takes_two_rules() {
    let rules = ensure_forward_rules("isobr0", "ens3");
    assert_eq!(
        rules[0].check.join(" "),
        "-C FORWARD -i isobr0 -o ens3 -j ACCEPT"
    );
    assert_eq!(
        rules[0].add.join(" "),
        "-I FORWARD 1 -i isobr0 -o ens3 -j ACCEPT"
    );
    assert_eq!(
        rules[1].check.join(" "),
        "-C FORWARD -i ens3 -o isobr0 -m state --state RELATED,ESTABLISHED -j ACCEPT"
    );
    assert_eq!(
        rules[1].add.join(" "),
        "-I FORWARD 1 -i ens3 -o isobr0 -m state --state RELATED,ESTABLISHED -j ACCEPT"
    );
    let nat = ensure_nat_masquerade("172.16.0.0/16", "ens3");
    assert_eq!(
        nat.check.join(" "),
        "-t nat -C POSTROUTING -s 172.16.0.0/16 -o ens3 -j MASQUERADE"
    );
    assert_eq!(
        nat.add.join(" "),
        "-t nat -A POSTROUTING -s 172.16.0.0/16 -o ens3 -j MASQUERADE"
    );
}

#[test]
fn a_carrier_is_waited_for() {
    assert!(has_carrier(0x1_0043));
    assert!(!has_carrier(0x2_0043));
    let link = |flags: u32, operstate_up: bool, sysfs_carrier: Option<bool>| {
        LinkState::Present { flags, operstate_up, sysfs_carrier }
    };
    let up = link(0x1_0000, false, Some(false));
    let down = link(0x1043, false, None);
    assert_eq!(carrier_step(link(0x1043, true, None), 1, 3), CarrierStep::Established);
    assert_eq!(carrier_step(link(0x1043, false, Some(true)), 1, 3), CarrierStep::Established);
    assert_eq!(carrier_step(link(0x1043, false, Some(false)), 3, 3), CarrierStep::GiveUp);
    assert_eq!(carrier_step(up, 1, 3), CarrierStep::Established);
    assert_eq!(carrier_step(down, 2, 3), CarrierStep::Retry);
    assert_eq!(carrier_step(LinkState::Unreadable, 3, 3), CarrierStep::GiveUp);
    assert_eq!(carrier_step(LinkState::Missing, 1, 3), CarrierStep::Missing);
}

#[test]
fn network_errors_have_words() {
    assert_eq!(missing_veth(4).message(), "Operation error: Veth interface 4 not found..");
    assert_eq!(
        no_carrier(4, 200, 100),
        NetworkError::OperationError(
            "Veth interface 4 failed to establish carrier after 200 attempts (20 seconds)."
                .to_string()
        )
    );
    assert_eq!(
        NetworkError::ConnectionError("a".to_string()).message(),
        "Connection error: a."
    );
    assert_eq!(
        NetworkError::AddressParseError("b".to_string()).message(),
        "Address parse error: b."
    );
    assert_eq!(NetworkError::Other("c".to_string()).message(), "IO error: c.");
}

#[test]
fn group_info_is_read_back() {
    let info = GroupInfo {
        group_id: 12,
        group_ip: Ipv4Addr::new(239, 1, 1, 1),
        source_node_id: 3,
    };
    let payload = group_info_payload(&info);
    assert_eq!(payload, "group_id=12\ngroup_ip=239.1.1.1\nsource_node_id=3\n");
    assert_eq!(parse_group_info(&payload), Ok(info));
}

#[test]
fn group_info_tolerates_white_space_and_other_lines() {
    let text = "# comment\r\n group_id = +7 \r\nother=1\ngroup_ip=\t10.0.0.1\ngroup_id=8\n\
                source_node_id=2";
    assert_eq!(
        parse_group_info(text),
        Ok(GroupInfo {
            group_id: 8,
            group_ip: Ipv4Addr::new(10, 0, 0, 1),
            source_node_id: 2,
        })
    );
}

#[test]
fn incomplete_group_info_is_an_error() {
    let incomplete = Err("group info file is incomplete".to_string());
    assert_eq!(parse_group_info(""), incomplete);
    assert_eq!(parse_group_info("group_id=1\nsource_node_id=2\n"), incomplete);
    let spoiled = "group_id=1\ngroup_ip=10.0.0.1\nsource_node_id=2\ngroup_id=x\n";
    assert_eq!(parse_group_info(spoiled), incomplete);
    let outside = "group_id=1\ngroup_ip=10.0.0.256\nsource_node_id=2\n";
    assert_eq!(parse_group_info(outside), incomplete);
    let large = "group_id=18446744073709551616\ngroup_ip=10.0.0.2\nsource_node_id=2\n";
    assert_eq!(parse_group_info(large), incomplete);
}

#[test]
fn artifacts_have_paths() {
    assert_eq!(group_info_path("/tmp/a"), "/tmp/a/group-info.txt");
    assert_eq!(group_info_path("/tmp/a/"), "/tmp/a/group-info.txt");
    assert_eq!(group_info_path(""), "group-info.txt");
    assert_eq!(ready_marker_path("d", 5), "d/receiver-ready-5.txt");
    assert_eq!(status_path("d", 5, IntegrationNodeRole::Source), "d/source-5.status");
    assert_eq!(
        performance_metrics_path("d", 5, IntegrationNodeRole::Router),
        "d/router-5.metrics"
    );
    assert_eq!(source_artifact_path("d"), "d/source.bin");
    assert_eq!(receiver_artifact_path("d", 5), "d/receiver-5.bin");
    assert_eq!(hash_file_name(Some("source.bin")), "source.bin.sha256");
    assert_eq!(hash_file_name(None), "artifact.sha256");
    assert_eq!(status_payload("ok"), "ok\n");
    assert_eq!(
        metrics_payload(IntegrationNodeRole::Receiver, 4, 1000, "0.5", "0.016"),
        "role=receiver\nnode_id=4\npayload_bytes=1000\nduration_seconds=0.5\n\
         throughput_gbps=0.016\n"
    );
}

#[test]
fn digests_are_those_of_sha256() {
    assert_eq!(
        sha256_hex(b""),
        "e3b0c44298fc1c149afbf4c8996fb92427ae41e4649b934ca495991b7852b855"
    );
    assert_eq!(
        sha256_hex(b"abc"),
        "ba7816bf8f01cfea414140de5dae2223b00361a396177a9cb410ff61f20015ad"
    );
}

#[test]
fn early_events_are_kept() {
    let mut harness = ControllerHarness::new();
    let created = HarnessEvent::GroupCreated {
        group_id: 1,
        src_node_id: 2,
        group_ip: Ipv4Addr::new(239, 0, 0, 1),
    };
    let other = HarnessEvent::GroupDirectoryUpdated { num_entries: 1 };
    assert_eq!(harness.offer(&Wanted::TopologyReady, created), None);
    assert_eq!(harness.offer(&Wanted::TopologyReady, other), None);
    assert_eq!(
        harness.offer(&Wanted::TopologyReady, HarnessEvent::TopologyReady),
        Some(HarnessEvent::TopologyReady)
    );
    assert_eq!(harness.take_stashed(&Wanted::GroupCreated), Some(created));
    assert_eq!(harness.take_stashed(&Wanted::GroupCreated), None);
    assert_eq!(harness.stash, vec![other]);
    let wanted = Wanted::RoutesInstalled { group_id: 1, src_node_id: 2 };
    let empty = HarnessEvent::GroupRoutesInstalled {
        group_id: 1,
        src_node_id: 2,
        num_routes: 0,
    };
    assert!(!wanted.matches_event(&empty));
    assert_eq!(routes_timeout(1), "timed out waiting for GroupRoutesInstalled for group 1");
}

#[test]
fn others_are_told_of_groups() {
    let route = |next_hops: Vec<usize>| GroupRoutingTableEntry {
        route_id: 0,
        next_hops,
        src_node_id: 2,
        group_id: 1,
    };
    let install = |routes| ControllerToDataplane::InstallGroupRoutes {
        group_id: 1,
        src_node_id: 2,
        routes,
    };
    let installed = HarnessEvent::GroupRoutesInstalled {
        group_id: 1,
        src_node_id: 2,
        num_routes: 2,
    };
    let routes = vec![route(vec![3]), route(vec![4, 5])];
    assert_eq!(events_of(&install(routes), 6), vec![installed]);
    let routes = vec![route(vec![3, 6]), route(vec![6])];
    assert_eq!(
        events_of(&install(routes), 6),
        vec![installed, HarnessEvent::LocalMemberJoined { group_id: 1, node_id: 6 }]
    );
    let group_ip = Ipv4Addr::new(239, 0, 0, 1);
    let created = ControllerToDataplane::GroupCreated { group_id: 1, group_ip, src_node_id: 2 };
    assert_eq!(
        events_of(&created, 6),
        vec![HarnessEvent::GroupCreated { group_id: 1, src_node_id: 2, group_ip }]
    );
    let ready = ControllerToDataplane::TopologyReady;
    assert_eq!(events_of(&ready, 6), vec![HarnessEvent::TopologyReady]);
    let directory = ControllerToDataplane::InstallGroupDirectory { groups: vec![] };
    assert_eq!(
        events_of(&directory, 6),
        vec![HarnessEvent::GroupDirectoryUpdated { num_entries: 0 }]
    );
    assert_eq!(events_of(&ControllerToDataplane::AddFlows { flows: vec![] }, 6), vec![]);
}

fn transfer_config() -> IntegrationTestConfig {
    IntegrationTestConfig {
        artifact_dir: "d".to_string(),
        group_label: "g".to_string(),
        payload_path: "p".to_string(),
        source_node_id: 3,
        receiver_ids: vec![4, 5],
        trees: vec![Tree { tree_id: 0, edges: vec![(3, 4)] }],
        block_size: 0,
        src_port: 45000,
        dst_port: 46000,
    }
}

fn lossless_runtime() -> LosslessRuntimeConfig {
    LosslessRuntimeConfig {
        default_block_size: 1024,
        data_bucket: None,
        ready_grace_ms: 1500,
        peer_report_timeout_ms: 3000,
    }
}

#[test]
fn members_of_a_group_share_a_session() {
    let source = LocalConfig { node_id: 3, ..Default::default() };
    let receiver = LocalConfig { node_id: 4, ..Default::default() };
    let mut cfg = transfer_config();
    let group_ip = Ipv4Addr::new(239, 1, 1, 1);
    let sent = source_request(&source, &lossless_runtime(), &cfg, 9, group_ip, vec![1, 2]).unwrap();
    let received = receiver_request(&receiver, &cfg, 9);
    assert_eq!(sent.session_id, received.session_id);
    assert_eq!(sent.session_id, multicast_session_id(9, 3));
    assert_ne!(multicast_session_id(9, 3), multicast_session_id(3, 9));
    assert_eq!(sent.block_size, 1024);
    assert_eq!(sent.receiver_ids, vec![4, 5]);
    assert_eq!(sent.total_bytes, 2);
    assert_eq!(received.route.dst_ip, Ipv4Addr::new(192, 168, 0, 3));
    cfg.block_size = 64;
    let sent = source_request(&source, &lossless_runtime(), &cfg, 9, group_ip, vec![1]).unwrap();
    assert_eq!(sent.block_size, 64);
    let empty = source_request(&source, &lossless_runtime(), &cfg, 9, group_ip, vec![]);
    assert_eq!(empty.unwrap_err(), "source file is empty");
}

#[test]
fn trees_decide_how_routes_are_set() {
    let mut cfg = transfer_config();
    assert_eq!(plan_routes(&cfg.trees), Ok(RoutePlan::OneTree));
    cfg.trees.push(Tree { tree_id: 1, edges: vec![] });
    assert_eq!(plan_routes(&cfg.trees), Ok(RoutePlan::ManyTrees));
    cfg.trees.clear();
    assert_eq!(
        plan_routes(&cfg.trees),
        Err("integration_test.trees must contain at least one tree".to_string())
    );
}

#[test]
fn sessions_end_well_or_with_a_message() {
    assert_eq!(session_result(true, 5, SessionEnd::Completed), Ok(()));
    assert_eq!(
        session_result(true, 5, SessionEnd::TimedOut),
        Err("sender session 5 timed out waiting for completion".to_string())
    );
    assert_eq!(
        session_result(false, 6, SessionEnd::Aborted),
        Err("receiver session 6 did not complete successfully".to_string())
    );
}

#[test]
fn transfers_need_an_arrival() {
    assert_eq!(arrival_result(7, true, 1), Ok(()));
    assert_eq!(arrival_result(7, true, 0), Err("receiver sink is empty".to_string()));
    assert_eq!(
        arrival_result(7, false, 1),
        Err("receiver session 7 completed without recording payload arrival".to_string())
    );
}

fn steps_of(role: IntegrationNodeRole) -> Vec<Step> {
    let mut script = Script::begin(Some(role)).unwrap();
    let mut steps = Vec::new();
    let mut progress = script.progress();
    while let Progress::Taking(step) = progress {
        steps.push(step);
        progress = script.step_done();
    }
    assert_eq!(progress, Progress::Reporting { ok: true });
    assert_eq!(script.status(), "ok");
    steps
}

#[test]
fn scripts_take_every_step() {
    let source = steps_of(IntegrationNodeRole::Source);
    assert_eq!(source.len(), 10);
    assert_eq!(source[..3], [Step::AwaitTopology, Step::CreateGroup, Step::WriteGroupInfo]);
    assert_eq!(source[9], Step::WriteMetrics);
    let receiver = steps_of(IntegrationNodeRole::Receiver);
    assert_eq!(receiver.len(), 8);
    assert_eq!(receiver[3..6], [Step::StartSession, Step::MarkReady, Step::AwaitSession]);
    assert!(Script::begin(Some(IntegrationNodeRole::Router)).is_none());
    assert!(Script::begin(None).is_none());
}

#[test]
fn scripts_end_with_the_first_failure() {
    let mut script = Script::begin(Some(IntegrationNodeRole::Receiver)).unwrap();
    assert_eq!(script.step_done(), Progress::Taking(Step::AwaitGroupInfo));
    let message = timeout_message(Step::AwaitGroupInfo, "d/group-info.txt");
    assert_eq!(script.step_failed(message), Progress::Reporting { ok: false });
    assert_eq!(script.progress(), Progress::Reporting { ok: false });
    assert_eq!(script.status(), "error: timed out waiting for d/group-info.txt");
    assert_eq!(
        timeout_message(Step::AwaitReceivers, "d"),
        "timed out waiting for receiver readiness markers in d"
    );
    assert_eq!(
        timeout_message(Step::AwaitTopology, "d"),
        "timed out waiting for TopologyReady"
    );
    assert_eq!(timeout_message(Step::CreateGroup, "d"), "timed out waiting for GroupCreated");
}

#[test]
fn sessions_are_waited_for_once() {
    assert_eq!(wait_step(true), WaitStep::Join);
    assert_eq!(wait_step(false), WaitStep::Refuse);
}

#[test]
fn white_space_is_that_of_unicode() {
    for n in 0..0x11_0000u32 {
        if let Some(c) = char::from_u32(n) {
            assert_eq!(is_white_space(c), c.is_whitespace());
        }
    }
    assert!(is_switched_on("1\n"));
    assert!(!is_switched_on("0\n"));
    assert!(!is_switched_on("11"));
}

#[test]
fn numbers_and_addresses_are_read_back() {
    assert_eq!(to_decimal(0), "0");
    assert_eq!(to_decimal(u128::MAX), u128::MAX.to_string());
    let number = |s: &str| read_number(&to_chars(s));
    assert_eq!(number("18446744073709551615"), Some(u64::MAX));
    assert_eq!(number("18446744073709551616"), None);
    assert_eq!(number("+5"), Some(5));
    assert_eq!(number("007"), Some(7));
    assert_eq!(number("-5"), None);
    assert_eq!(number("+"), None);
    assert_eq!(number(""), None);
    let address = |s: &str| read_ipv4(&to_chars(s));
    assert_eq!(address("255.0.10.1"), Some(Ipv4Addr::new(255, 0, 10, 1)));
    for wrong in ["256.0.0.1", "1.2.3", "1.2.3.4.5", "01.2.3.4", "1.2.3.4 ", "", "1..2.3"] {
        assert_eq!(address(wrong), None);
    }
}

#[test]
fn words_are_big_endian() {
    let mut bytes = Vec::new();
    push_be32(&mut bytes, 0x0102_0304);
    push_be64(&mut bytes, 0x0506_0708_090A_0B0C);
    assert_eq!(bytes, (1..=12u8).collect::<Vec<u8>>());
    assert_eq!(read_be64(&bytes[4..]), 0x0506_0708_090A_0B0C);
    assert_eq!(Ipv4Addr::new(1, 2, 3, 4).octets(), [1, 2, 3, 4]);
}
