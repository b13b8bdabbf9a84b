//! How a node introduces itself to the controller.

use vstd::prelude::*;

use crate::messages::{ControllerToDataplane, DataplaneToController};
use crate::node::config::LocalConfig;

verus! {

/// The shortest wait between two attempts to connect, in milliseconds.
pub const BACKOFF_MS: u64 = 2000;

/// The bound of what is added to the wait at random, in milliseconds.
pub const JITTER_MS: u64 = 500;

/// Calls `rand::random_range`: a number below the bound, which is not 0.
#[verifier::external_body]
pub(crate) fn random_below(bound: u64) -> (number: u64)
    requires
        bound > 0,
    ensures
        number < bound,
{
    rand::random_range(0..bound)
}

/// The text of a URL after `url::Url::parse`: nothing where the text is no URL.
pub uninterp spec fn url_text(addr: Seq<char>) -> Option<Seq<char>>;

/// Calls `url::Url::parse`, and gives the URL as a text: it depends on the text that is read alone.
#[verifier::external_body]
fn parse_url(addr: &str) -> (url: Option<String>)
    ensures
        (match url {
            Some(url) => Some(url@),
            None => None,
        }) == url_text(addr@),
{
    let url = url::Url::parse(addr).ok()?;
    Some(url.to_string())
}

/// The URL of the controller; nothing where its address is no URL.
pub fn controller_url(config: &LocalConfig) -> (url: Option<String>)
    ensures
        (match url {
            Some(url) => Some(url@),
            None => None,
        }) == url_text(config.controller_addr@),
{
    parse_url(config.controller_addr.as_str())
}

/// How long an attempt to connect may take, in milliseconds.
pub fn connect_timeout_ms(configured: u64) -> (ms: u64)
    ensures
        ms == if configured > 1 {
            configured
        } else {
            1
        },
{
    if configured > 1 {
        configured
    } else {
        1
    }
}

/// The wait before the next attempt to connect, with what is added at random.
pub fn backoff_ms(jitter_ms: u64) -> (ms: u64)
    requires
        jitter_ms < JITTER_MS,
    ensures
        ms == BACKOFF_MS + jitter_ms,
        ms == 2000 + jitter_ms,
{
    BACKOFF_MS + jitter_ms
}

/// The wait before the next attempt to connect: between two and two and a half seconds.
pub fn next_backoff_ms() -> (ms: u64)
    ensures
        BACKOFF_MS <= ms < BACKOFF_MS + JITTER_MS,
        2000 <= ms < 2500,
{
    backoff_ms(random_below(JITTER_MS))
}

/// Host and port.
pub open spec fn host_and_port(host: Seq<char>, port: Seq<char>) -> Seq<char> {
    host + seq![':'] + port
}

fn join_host_and_port(host: &str, port: &str) -> (addr: String)
    ensures
        addr@ == host_and_port(host@, port@),
{
    let mut addr = host.to_owned();
    addr.append(":");
    addr.append(port);
    proof {
        reveal_strlit(":");
        assert(addr@ =~= host_and_port(host@, port@));
    }
    addr
}

/// The message with which a node introduces itself.
pub fn startup_message(config: &LocalConfig) -> (msg: DataplaneToController)
    ensures
        msg matches DataplaneToController::StartUp {
            private_network_name,
            private_network_addr,
            public_network_addr,
            node_id,
        } && private_network_name@ == config.private_network_name@ && private_network_addr@
            == host_and_port(config.private_network_addr@, config.private_network_port@)
            && public_network_addr@ == host_and_port(
            config.public_network_addr@,
            config.public_network_port@,
        ) && node_id == Some(config.node_id),
{
    DataplaneToController::StartUp {
        private_network_name: config.private_network_name.clone(),
        private_network_addr: join_host_and_port(
            config.private_network_addr.as_str(),
            config.private_network_port.as_str(),
        ),
        public_network_addr: join_host_and_port(
            config.public_network_addr.as_str(),
            config.public_network_port.as_str(),
        ),
        node_id: Some(config.node_id),
    }
}

/// The name of a message, for the log.
pub fn controller_msg_name(msg: &ControllerToDataplane) -> (name: &'static str)
    ensures
        name@ == match *msg {
            ControllerToDataplane::StartUp(..) => "StartUp"@,
            ControllerToDataplane::AddNode { .. } => "AddNode"@,
            ControllerToDataplane::AddNodeAddress { .. } => "AddNodeAddress"@,
            ControllerToDataplane::SetLinkRate { .. } => "SetLinkRate"@,
            ControllerToDataplane::InstallRoutes { .. } => "InstallRoutes"@,
            ControllerToDataplane::AddFlows { .. } => "AddFlows"@,
            ControllerToDataplane::TopologyReady => "TopologyReady"@,
            ControllerToDataplane::GroupCreated { .. } => "GroupCreated"@,
            ControllerToDataplane::InstallGroupDirectory { .. } => "InstallGroupDirectory"@,
            ControllerToDataplane::InstallGroupRoutes { .. } => "InstallGroupRoutes"@,
            ControllerToDataplane::ProbeLink { .. } => "ProbeLink"@,
        },
{
    match msg {
        ControllerToDataplane::StartUp(..) => "StartUp",
        ControllerToDataplane::AddNode { .. } => "AddNode",
        ControllerToDataplane::AddNodeAddress { .. } => "AddNodeAddress",
        ControllerToDataplane::SetLinkRate { .. } => "SetLinkRate",
        ControllerToDataplane::InstallRoutes { .. } => "InstallRoutes",
        ControllerToDataplane::AddFlows { .. } => "AddFlows",
        ControllerToDataplane::TopologyReady => "TopologyReady",
        ControllerToDataplane::GroupCreated { .. } => "GroupCreated",
        ControllerToDataplane::InstallGroupDirectory { .. } => "InstallGroupDirectory",
        ControllerToDataplane::InstallGroupRoutes { .. } => "InstallGroupRoutes",
        ControllerToDataplane::ProbeLink { .. } => "ProbeLink",
    }
}

/// An address is a host and a port with a colon between them.
pub proof fn law_host_and_port(host: Seq<char>, port: Seq<char>)
    ensures
        host_and_port(host, port) == host + ":"@ + port,
{
    reveal_strlit(":");
    assert(":"@ =~= seq![':']);
}

} // verus!
