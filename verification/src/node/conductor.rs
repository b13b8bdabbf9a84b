//! Where a node listens, and which session a frame is delivered to.

use vstd::prelude::*;

use crate::messages::Protocol;
use crate::net::Ipv4Addr;
use crate::node::config::LocalConfig;
use crate::node::NodeId;
use crate::text::{self, append_decimal};

verus! {

/// What kind of server listens.
#[derive(Clone, Copy, Debug, PartialEq, Eq, Structural)]
pub enum ServerKind {
    Tcp,
    /// The server that takes a connection for each flow.
    TcpMax,
    Quic,
    Udp,
}

/// A server, and the address on which it listens.
#[derive(Debug)]
pub struct Listener {
    pub kind: ServerKind,
    pub addr: String,
}

/// A server and its address, as a value.
pub struct ListenerView {
    pub kind: ServerKind,
    pub addr: Seq<char>,
}

impl View for Listener {
    type V = ListenerView;

    open spec fn view(&self) -> ListenerView {
        ListenerView { kind: self.kind, addr: self.addr@ }
    }
}

/// The values of a list of servers.
pub open spec fn listener_views(listeners: Seq<Listener>) -> Seq<ListenerView> {
    Seq::new(listeners.len(), |i: int| listeners[i]@)
}

/// The address with a port on all interfaces.
pub open spec fn any_address(port: Seq<char>) -> Seq<char> {
    "0.0.0.0:"@ + port
}

/// The kind of server that carries packets between nodes.
pub open spec fn server_kind(protocol: Protocol) -> ServerKind {
    match protocol {
        Protocol::Tcp => ServerKind::Tcp,
        Protocol::Quic => ServerKind::Quic,
        Protocol::Udp => ServerKind::Udp,
    }
}

/// The servers of a node: one on the public port, another on the private port where that is
/// another port, and with TCP one that takes a connection for each flow.
pub open spec fn servers(
    protocol: Protocol,
    public_port: Seq<char>,
    private_port: Seq<char>,
    max_server_port: u16,
) -> Seq<ListenerView> {
    let kind = server_kind(protocol);
    let public = seq![ListenerView { kind, addr: any_address(public_port) }];
    let private = if public_port == private_port {
        Seq::empty()
    } else {
        seq![ListenerView { kind, addr: any_address(private_port) }]
    };
    let max = if protocol is Tcp {
        seq![
            ListenerView {
                kind: ServerKind::TcpMax,
                addr: any_address(text::decimal(max_server_port as nat)),
            },
        ]
    } else {
        Seq::empty()
    };
    public + private + max
}

/// The address with a port on all interfaces.
pub fn listen_address(port: &str) -> (addr: String)
    ensures
        addr@ == any_address(port@),
{
    let mut addr = "0.0.0.0:".to_owned();
    addr.append(port);
    addr
}

/// The servers that a node starts.
pub fn listeners(config: &LocalConfig) -> (listeners: Vec<Listener>)
    ensures
        listener_views(listeners@) == servers(
            config.protocol,
            config.public_network_port@,
            config.private_network_port@,
            config.max_server_port,
        ),
{
    let kind = match config.protocol {
        Protocol::Tcp => ServerKind::Tcp,
        Protocol::Quic => ServerKind::Quic,
        Protocol::Udp => ServerKind::Udp,
    };
    let mut listeners: Vec<Listener> = Vec::new();
    listeners.push(Listener { kind, addr: listen_address(config.public_network_port.as_str()) });
    if config.public_network_port != config.private_network_port {
        listeners.push(
            Listener { kind, addr: listen_address(config.private_network_port.as_str()) },
        );
    }
    if let Protocol::Tcp = config.protocol {
        let mut addr = "0.0.0.0:".to_owned();
        append_decimal(&mut addr, config.max_server_port as u128);
        listeners.push(Listener { kind: ServerKind::TcpMax, addr });
    }
    assert(listener_views(listeners@) =~= servers(
        config.protocol,
        config.public_network_port@,
        config.private_network_port@,
        config.max_server_port,
    ));
    listeners
}

/// What a receiver that has no session yet waits for: frames of a node, sent to an address.
#[derive(Clone, Copy, Debug, PartialEq, Eq, Structural)]
pub struct PendingReceiverKey {
    pub dest_ip: Ipv4Addr,
    pub source_node_id: NodeId,
}

/// What is done first with a frame.
#[derive(Clone, Copy, Debug, PartialEq, Eq, Structural)]
pub enum Delivery {
    /// The session has an input, which takes the frame.
    Send { input: usize },
    /// A receiver that waits for such frames may take over the session.
    Adopt { key: PendingReceiverKey },
    /// Nobody takes the frame.
    Drop,
}

/// Decides what is done first with a frame: `input` is that of its session, where there is one.
pub fn deliver(
    input: Option<usize>,
    dest_ip: Option<Ipv4Addr>,
    source_node_id: Option<NodeId>,
) -> (delivery: Delivery)
    ensures
        delivery == match input {
            Some(input) => Delivery::Send { input },
            None => if dest_ip is Some && source_node_id is Some {
                Delivery::Adopt {
                    key: PendingReceiverKey {
                        dest_ip: dest_ip->0,
                        source_node_id: source_node_id->0,
                    },
                }
            } else {
                Delivery::Drop
            },
        },
{
    match (input, dest_ip, source_node_id) {
        (Some(input), _, _) => Delivery::Send { input },
        (None, Some(dest_ip), Some(source_node_id)) => Delivery::Adopt {
            key: PendingReceiverKey { dest_ip, source_node_id },
        },
        _ => Delivery::Drop,
    }
}

/// What is done for someone who waits for the end of a session.
#[derive(Clone, Copy, Debug, PartialEq, Eq, Structural)]
pub enum WaitStep {
    /// Wait for the task of the session, drop its inputs, and tell that it has ended.
    Join,
    /// Tell that there is nothing to wait for.
    Refuse,
}

/// Decides what is done for someone who waits for the end of a session. The task of a session is
/// waited for once, so there may be none left.
pub fn wait_step(has_task: bool) -> (step: WaitStep)
    ensures
        step == if has_task {
            WaitStep::Join
        } else {
            WaitStep::Refuse
        },
{
    if has_task {
        WaitStep::Join
    } else {
        WaitStep::Refuse
    }
}

/// What is done with a frame after a waiting receiver was looked for.
#[derive(Clone, Copy, Debug, PartialEq, Eq, Structural)]
pub struct AdoptedDelivery {
    /// The input that takes the frame.
    pub input: Option<usize>,
    /// Whether whoever waits for the receiver is told its session.
    pub tell_session: bool,
}

/// Decides what is done with a frame after a waiting receiver was looked for. `adopted` says
/// whether there was one, and `input` is that of the session after the receiver was started.
pub fn deliver_adopted(adopted: bool, input: Option<usize>) -> (delivery: AdoptedDelivery)
    ensures
        delivery.input == if adopted {
            input
        } else {
            None
        },
        delivery.tell_session == (adopted && input is Some),
{
    if adopted {
        AdoptedDelivery { input, tell_session: input.is_some() }
    } else {
        AdoptedDelivery { input: None, tell_session: false }
    }
}

/// A node listens with its protocol on all interfaces, on its public port and on its private port,
/// once where they are the same. With TCP it also takes connections for single flows, on the port for
/// that.
pub proof fn law_node_listens_on_its_ports(
    public_port: Seq<char>,
    private_port: Seq<char>,
    max_server_port: u16,
    protocol: Protocol,
)
    ensures
        ({
            let all = servers(protocol, public_port, private_port, max_server_port);
            let kind = match protocol {
                Protocol::Tcp => ServerKind::Tcp,
                Protocol::Quic => ServerKind::Quic,
                Protocol::Udp => ServerKind::Udp,
            };
            let max = ListenerView {
                kind: ServerKind::TcpMax,
                addr: "0.0.0.0:"@ + text::decimal(max_server_port as nat),
            };
            &&& all[0] == (ListenerView { kind, addr: "0.0.0.0:"@ + public_port })
            &&& public_port != private_port ==> all[1] == (ListenerView {
                kind,
                addr: "0.0.0.0:"@ + private_port,
            })
            &&& protocol is Tcp ==> all[all.len() - 1] == max
            &&& all.len() == 1 + if public_port != private_port {
                1int
            } else {
                0int
            } + if protocol is Tcp {
                1int
            } else {
                0int
            }
        }),
{
}

/// What is said of servers is said of the servers themselves, each at its place.
pub proof fn law_servers_stand_for_themselves(listeners: Seq<Listener>, i: int)
    requires
        0 <= i < listeners.len(),
    ensures
        listener_views(listeners).len() == listeners.len(),
        listener_views(listeners)[i].kind == listeners[i].kind,
        listener_views(listeners)[i].addr == listeners[i].addr@,
{
}

} // verus!
