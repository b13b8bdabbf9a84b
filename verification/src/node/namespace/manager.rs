//! The addresses and names of nodes in namespaces.

use vstd::prelude::*;

use crate::net::Ipv4Addr;
use crate::node::config::LocalConfig;
use crate::node::controller::connect::random_below;
use crate::node::namespace::network::{
    self, ensure_forward_rules, ensure_nat_masquerade, Rule, RuleWords,
};
use crate::node::NodeId;
use crate::text::{self, append_decimal, ipv4_to_string, read_ipv4, to_chars};

verus! {

/// The distance of the first node from the bridge: the controller and the database come before.
pub const FIRST_NODE_OFFSET: u32 = 3;

/// The number of characters that a random suffix is drawn from.
pub const CHARSET_LEN: u64 = 62;

/// The host in a URL, as `url::Url::host_str` gives it after `url::Url::parse`: nothing where the
/// text is no URL, and nothing within where the URL has no host.
pub uninterp spec fn url_host(url: Seq<char>) -> Option<Option<Seq<char>>>;

/// The text of a URL after `url::Url::set_host`: nothing where the text is no URL, or where it
/// cannot have that host.
pub uninterp spec fn url_with_host(url: Seq<char>, host: Seq<char>) -> Option<Seq<char>>;

/// Calls `url::Url::parse`, then `url::Url::host_str` on its result: whether there is a URL, and
/// which host it has, depends on the text alone.
#[verifier::external_body]
fn parse_url_host(url: &str) -> (host: Option<Option<String>>)
    ensures
        (match host {
            Some(Some(host)) => Some(Some(host@)),
            Some(None) => Some(None),
            None => None,
        }) == url_host(url@),
{
    let url = url::Url::parse(url).ok()?;
    Some(url.host_str().map(str::to_string))
}

/// Calls `url::Url::parse`, then `url::Url::set_host`: the text of the new URL depends on the old
/// one and the host alone.
#[verifier::external_body]
fn rewrite_url_host(url: &str, host: &str) -> (rewritten: Option<String>)
    ensures
        (match rewritten {
            Some(rewritten) => Some(rewritten@),
            None => None,
        }) == url_with_host(url@, host@),
{
    let mut url = url::Url::parse(url).ok()?;
    url.set_host(Some(host)).ok()?;
    Some(url.to_string())
}

/// Whether a host is the machine itself. In a URL an IPv6 address stands in brackets.
pub open spec fn is_loopback(host: Seq<char>) -> bool {
    host == "127.0.0.1"@ || host == "localhost"@ || host == "::1"@ || host == "[::1]"@
}

/// The host in a URL, which is the empty text where the URL has none.
pub open spec fn host_or_empty(host: Option<Option<Seq<char>>>) -> Option<Seq<char>> {
    match host {
        Some(Some(host)) => Some(host),
        Some(None) => Some(Seq::empty()),
        None => None,
    }
}

/// The address of the controller as seen from a namespace: `host` is the host in it, and
/// `rewritten` is the address with the gateway as its host.
pub open spec fn seen_from_namespace(
    addr: Seq<char>,
    host: Option<Seq<char>>,
    rewritten: Option<Seq<char>>,
) -> Seq<char> {
    if host is Some && is_loopback(host->0) && rewritten is Some {
        rewritten->0
    } else {
        addr
    }
}

/// Whether two texts are the same.
fn same_text(a: &str, b: &str) -> (same: bool)
    ensures
        same == (a@ == b@),
{
    text::same_chars(&to_chars(a), &to_chars(b))
}

/// Chooses the address of the controller as seen from a namespace.
pub fn choose_controller_addr(addr: &str, host: &Option<String>, rewritten: Option<String>)
    -> (chosen: String)
    ensures
        chosen@ == seen_from_namespace(
            addr@,
            match *host {
                Some(host) => Some(host@),
                None => None,
            },
            match rewritten {
                Some(rewritten) => Some(rewritten@),
                None => None,
            },
        ),
{
    match host {
        Some(host) => {
            let host = host.as_str();
            let loopback = same_text(host, "127.0.0.1") || same_text(host, "localhost")
                || same_text(host, "::1") || same_text(host, "[::1]");
            if loopback {
                match rewritten {
                    Some(rewritten) => rewritten,
                    None => addr.to_owned(),
                }
            } else {
                addr.to_owned()
            }
        },
        None => addr.to_owned(),
    }
}

/// The address of the controller as seen from a namespace: there the machine itself is the
/// gateway, so a loopback host is replaced. An address that cannot be read stays as it is.
pub fn resolve_controller_addr(controller_addr: &str, bridge_ip: &str) -> (resolved: String)
    ensures
        resolved@ == seen_from_namespace(
            controller_addr@,
            host_or_empty(url_host(controller_addr@)),
            url_with_host(controller_addr@, bridge_ip@),
        ),
{
    let host = match parse_url_host(controller_addr) {
        Some(Some(host)) => Some(host),
        Some(None) => Some(String::new()),
        None => None,
    };
    let rewritten = rewrite_url_host(controller_addr, bridge_ip);
    choose_controller_addr(controller_addr, &host, rewritten)
}

/// The characters that a random suffix is drawn from.
pub open spec fn charset() -> Seq<char> {
    "ABCDEFGHIJKLMNOPQRSTUVWXYZabcdefghijklmnopqrstuvwxyz0123456789"@
}

/// The characters at given places.
pub fn suffix_of(places: &Vec<u64>) -> (suffix: String)
    requires
        forall|i: int| 0 <= i < places@.len() ==> #[trigger] places@[i] < CHARSET_LEN,
    ensures
        suffix@ == Seq::new(places@.len(), |i: int| charset()[places@[i] as int]),
{
    let characters = "ABCDEFGHIJKLMNOPQRSTUVWXYZabcdefghijklmnopqrstuvwxyz0123456789";
    proof {
        reveal_strlit("ABCDEFGHIJKLMNOPQRSTUVWXYZabcdefghijklmnopqrstuvwxyz0123456789");
    }
    let mut suffix = String::new();
    let mut i: usize = 0;
    while i < places.len()
        invariant
            i <= places@.len(),
            forall|k: int| 0 <= k < places@.len() ==> #[trigger] places@[k] < CHARSET_LEN,
            characters@ == charset(),
            charset().len() == CHARSET_LEN,
            suffix@ == Seq::new(i as nat, |k: int| charset()[places@[k] as int]),
        decreases places@.len() - i,
    {
        let place: usize = places[i] as usize;
        suffix.append(characters.substring_char(place, place + 1));
        i = i + 1;
        assert(suffix@ =~= Seq::new(i as nat, |k: int| charset()[places@[k] as int]));
    }
    suffix
}

/// Generates a random suffix of letters and digits, for hostname uniqueness.
pub fn random_suffix(len: usize) -> (suffix: String)
    ensures
        suffix@.len() == len,
        forall|i: int| 0 <= i < len ==> charset().contains(#[trigger] suffix@[i]),
{
    let mut places: Vec<u64> = Vec::new();
    let mut i: usize = 0;
    while i < len
        invariant
            i <= len,
            places@.len() == i,
            forall|k: int| 0 <= k < i ==> #[trigger] places@[k] < CHARSET_LEN,
        decreases len - i,
    {
        places.push(random_below(CHARSET_LEN));
        i = i + 1;
    }
    proof {
        reveal_strlit("ABCDEFGHIJKLMNOPQRSTUVWXYZabcdefghijklmnopqrstuvwxyz0123456789");
        assert(charset().len() == CHARSET_LEN);
    }
    let suffix = suffix_of(&places);
    assert forall|k: int| 0 <= k < len implies charset().contains(#[trigger] suffix@[k]) by {
        assert(suffix@[k] == charset()[places@[k] as int]);
    }
    suffix
}

/// The hostname of a namespace with a suffix.
pub fn namespace_hostname(suffix: &str) -> (hostname: String)
    ensures
        hostname@ == "nextmini-"@ + suffix@,
{
    let mut hostname = "nextmini-".to_owned();
    hostname.append(suffix);
    hostname
}

/// The name of the end of a veth pair that stays with the machine.
pub open spec fn host_veth(idx: nat) -> Seq<char> {
    "veth"@ + text::decimal(idx) + "a"@
}

/// The name of the end of a veth pair that a node has.
pub open spec fn node_veth(idx: nat) -> Seq<char> {
    "veth"@ + text::decimal(idx) + "b"@
}

/// The names of the two ends of the veth pair of a node.
pub fn veth_names(idx: usize) -> (names: (String, String))
    ensures
        names.0@ == host_veth(idx as nat),
        names.1@ == node_veth(idx as nat),
{
    let mut host = "veth".to_owned();
    append_decimal(&mut host, idx as u128);
    host.append("a");
    let mut node = "veth".to_owned();
    append_decimal(&mut node, idx as u128);
    node.append("b");
    (host, node)
}

/// Names of veth pairs are not shared between nodes.
pub proof fn law_veth_names_differ(a: nat, b: nat)
    requires
        host_veth(a) == host_veth(b) || node_veth(a) == node_veth(b),
    ensures
        a == b,
{
    text::lemma_decimal(a);
    text::lemma_decimal(b);
    reveal_strlit("veth");
    reveal_strlit("a");
    reveal_strlit("b");
    if host_veth(a) == host_veth(b) {
        assert(host_veth(a).len() == host_veth(b).len());
        assert(host_veth(a).subrange(4, host_veth(a).len() - 1) =~= text::decimal(a));
        assert(host_veth(b).subrange(4, host_veth(b).len() - 1) =~= text::decimal(b));
    } else {
        assert(node_veth(a).subrange(4, node_veth(a).len() - 1) =~= text::decimal(a));
        assert(node_veth(b).subrange(4, node_veth(b).len() - 1) =~= text::decimal(b));
    }
}

/// The network of an address, for a prefix length.
pub open spec fn network_of(ip: u32, prefix: nat) -> u32 {
    (ip - ip as int % vstd::arithmetic::power2::pow2((32 - prefix) as nat) as int) as u32
}

/// A power of two.
fn power_of_two(exponent: u32) -> (power: u64)
    requires
        exponent <= 32,
    ensures
        power == vstd::arithmetic::power2::pow2(exponent as nat),
        power > 0,
{
    proof {
        vstd::arithmetic::power2::lemma2_to64();
    }
    let mut power: u64 = 1;
    let mut i: u32 = 0;
    while i < exponent
        invariant
            i <= exponent <= 32,
            power == vstd::arithmetic::power2::pow2(i as nat),
            power > 0,
            vstd::arithmetic::power2::pow2(32) == 0x1_0000_0000,
        decreases exponent - i,
    {
        proof {
            vstd::arithmetic::power2::lemma_pow2_unfold((i + 1) as nat);
            if i + 1 < 32 {
                vstd::arithmetic::power2::lemma_pow2_strictly_increases((i + 1) as nat, 32);
            }
        }
        power = power * 2;
        i = i + 1;
    }
    power
}

/// Whether a text is an IPv4 address.
pub open spec fn is_ipv4_text(s: Seq<char>) -> bool {
    exists|bits: u32| s == #[trigger] text::dotted(bits)
}

/// The address that a text stands for.
pub open spec fn ipv4_in(s: Seq<char>) -> u32 {
    choose|bits: u32| s == #[trigger] text::dotted(bits)
}

fn parse_ipv4(s: &str) -> (ip: Option<Ipv4Addr>)
    ensures
        ip is Some == is_ipv4_text(s@),
        ip matches Some(ip) ==> ip.bits == ipv4_in(s@),
{
    let ip = read_ipv4(&to_chars(s));
    proof {
        if let Some(ip) = ip {
            assert(s@ == text::dotted(ip.bits));
            text::law_address_round_trip(ip.bits, ipv4_in(s@));
        }
    }
    ip
}

/// Lays out the nodes of a machine.
#[derive(Debug)]
pub struct NamespaceManager {
    pub config: LocalConfig,
}

impl NamespaceManager {
    /// A manager for a machine.
    pub fn new(config: LocalConfig) -> (manager: Self)
        ensures
            manager.config == config,
    {
        NamespaceManager { config }
    }

    /// The network of the nodes, with its prefix length.
    pub open spec fn subnet_cidr(&self) -> Option<Seq<char>> {
        if is_ipv4_text(self.config.bridge_ip@) && self.config.subnet <= 32 {
            Some(
                text::dotted(network_of(ipv4_in(self.config.bridge_ip@), self.config.subnet as nat))
                    + seq!['/'] + text::decimal(self.config.subnet as nat),
            )
        } else {
            None
        }
    }

    /// The rules that the machine is to have, in order, for the interface that leads out of it.
    pub open spec fn host_rule_words(&self, out_if: Seq<char>) -> Seq<RuleWords> {
        let bridge = self.config.bridge_name@;
        let forward = if self.config.auto_add_forward_rules {
            seq![
                network::forward_words(bridge, out_if, false),
                network::forward_words(out_if, bridge, true),
            ]
        } else {
            Seq::empty()
        };
        let shared = match self.subnet_cidr() {
            Some(cidr) if self.config.auto_add_nat => (
            seq![network::masquerade_words(cidr, out_if)]),
            _ => Seq::empty(),
        };
        forward + shared
    }

    /// The network of the nodes, with its prefix length; nothing where the bridge has no valid
    /// address or prefix length.
    pub fn namespace_subnet_cidr(&self) -> (cidr: Option<String>)
        ensures
            (match cidr {
                Some(cidr) => Some(cidr@),
                None => None,
            }) == self.subnet_cidr(),
    {
        let bridge_ip = match parse_ipv4(self.config.bridge_ip.as_str()) {
            Some(bridge_ip) => bridge_ip,
            None => {
                return None;
            },
        };
        if self.config.subnet > 32 {
            return None;
        }
        let size: u64 = power_of_two(32 - self.config.subnet as u32);
        let ip: u64 = bridge_ip.bits as u64;
        proof {
            vstd::arithmetic::div_mod::lemma_mod_pos_bound(ip as int, size as int);
            vstd::arithmetic::div_mod::lemma_mod_decreases(ip as nat, size as nat);
        }
        let network = Ipv4Addr { bits: (ip - ip % size) as u32 };
        let mut cidr = ipv4_to_string(network);
        cidr.append("/");
        append_decimal(&mut cidr, self.config.subnet as u128);
        proof {
            reveal_strlit("/");
            assert(cidr@ =~= text::dotted(network.bits) + seq!['/'] + text::decimal(
                self.config.subnet as nat,
            ));
        }
        Some(cidr)
    }

    /// The addresses of the nodes: they follow on the bridge, the controller and the database.
    pub fn compute_namespace_ips(&self) -> (ips: Vec<String>)
        requires
            is_ipv4_text(self.config.bridge_ip@),
            ipv4_in(self.config.bridge_ip@) + self.config.n_nodes + 2 <= u32::MAX,
        ensures
            ips@.len() == self.config.n_nodes,
            forall|i: int|
                0 <= i < ips@.len() ==> (#[trigger] ips@[i])@ == namespace_ip(
                    ipv4_in(self.config.bridge_ip@),
                    i,
                ),
    {
        let base: u32 = match parse_ipv4(self.config.bridge_ip.as_str()) {
            Some(bridge_ip) => bridge_ip.bits,
            None => 0,
        };
        let mut ips: Vec<String> = Vec::new();
        let mut i: usize = 0;
        while i < self.config.n_nodes
            invariant
                i <= self.config.n_nodes,
                base == ipv4_in(self.config.bridge_ip@),
                base + self.config.n_nodes + 2 <= u32::MAX,
                ips@.len() == i,
                forall|k: int| 0 <= k < i ==> (#[trigger] ips@[k])@ == namespace_ip(base, k),
            decreases self.config.n_nodes - i,
        {
            let ip = Ipv4Addr { bits: base + FIRST_NODE_OFFSET + i as u32 };
            ips.push(ipv4_to_string(ip));
            i = i + 1;
        }
        ips
    }

    /// The rules that the machine is to have, for the interface that leads out of it: those by
    /// which nodes reach the outside and those by which they share its address, each where they
    /// are asked for. Where the network of the nodes is invalid, the latter are left out.
    pub fn host_rules(&self, out_if: &str) -> (rules: Vec<Rule>)
        ensures
            rules@.map_values(|rule: Rule| network::rule_words(rule)) == self.host_rule_words(
                out_if@,
            ),
    {
        let mut rules = if self.config.auto_add_forward_rules {
            ensure_forward_rules(self.config.bridge_name.as_str(), out_if)
        } else {
            Vec::new()
        };
        if self.config.auto_add_nat {
            if let Some(cidr) = self.namespace_subnet_cidr() {
                rules.push(ensure_nat_masquerade(cidr.as_str(), out_if));
            }
        }
        assert(rules@.map_values(|rule: Rule| network::rule_words(rule)) =~= self.host_rule_words(
            out_if@,
        ));
        rules
    }

    /// The ID of a node.
    pub fn child_node_id(&self, idx: usize) -> (node_id: NodeId)
        requires
            idx + self.config.node_id_offset < usize::MAX,
        ensures
            node_id == idx + self.config.node_id_offset + 1,
    {
        idx + self.config.node_id_offset + 1
    }

    /// How often the link of a veth pair is looked at before it is given up.
    pub fn carrier_retries(&self) -> (retries: u32)
        requires
            self.config.carrier_poll_interval_ms > 0,
        ensures
            retries == (self.config.carrier_max_wait_ms / self.config.carrier_poll_interval_ms)
                % 0x1_0000_0000,
    {
        let retries: u64 = self.config.carrier_max_wait_ms / self.config.carrier_poll_interval_ms;
        assert(retries as u32 == retries % 0x1_0000_0000) by (bit_vector);
        #[verifier::truncate] (retries as u32)
    }
}

/// The address of a node, for the address of the bridge.
pub open spec fn namespace_ip(bridge: u32, idx: int) -> Seq<char> {
    text::dotted((bridge + FIRST_NODE_OFFSET + idx) as u32)
}

/// The nodes of a machine have addresses of their own, none of which is that of the bridge.
pub proof fn law_namespace_ips_differ(bridge: u32, i: int, j: int)
    requires
        0 <= i,
        0 <= j,
        bridge + FIRST_NODE_OFFSET + i <= u32::MAX,
        bridge + FIRST_NODE_OFFSET + j <= u32::MAX,
    ensures
        namespace_ip(bridge, i) == namespace_ip(bridge, j) ==> i == j,
        namespace_ip(bridge, i) != text::dotted(bridge),
{
    if namespace_ip(bridge, i) == namespace_ip(bridge, j) {
        text::law_address_round_trip(
            (bridge + FIRST_NODE_OFFSET + i) as u32,
            (bridge + FIRST_NODE_OFFSET + j) as u32,
        );
    }
    if namespace_ip(bridge, i) == text::dotted(bridge) {
        text::law_address_round_trip((bridge + FIRST_NODE_OFFSET + i) as u32, bridge);
    }
}

/// From a namespace the machine itself is reached at the gateway: an address whose host is a loopback
/// host is replaced by the one with the gateway as its host. Every other address stays, and so does
/// one that cannot be rewritten.
pub proof fn law_only_loopback_hosts_are_replaced(
    addr: Seq<char>,
    host: Seq<char>,
    rewritten: Seq<char>,
)
    ensures
        host == "127.0.0.1"@ || host == "localhost"@ || host == "::1"@ || host == "[::1]"@
            ==> seen_from_namespace(addr, Some(host), Some(rewritten)) == rewritten,
        host != "127.0.0.1"@ && host != "localhost"@ && host != "::1"@ && host != "[::1]"@
            ==> seen_from_namespace(addr, Some(host), Some(rewritten)) == addr,
        seen_from_namespace(addr, Some(host), None) == addr,
        seen_from_namespace(addr, None, Some(rewritten)) == addr,
        host_or_empty(Some(Some(host))) == Some(host),
        host_or_empty(Some(None)) == Some(Seq::<char>::empty()),
        host_or_empty(None) is None,
{
}

/// The network of an address is the address with its last bits clear: it is a multiple of the size of
/// the network, and the address lies less than that size above it.
pub proof fn law_network_holds_its_addresses(ip: u32, prefix: nat)
    requires
        prefix <= 32,
    ensures
        ({
            let size = vstd::arithmetic::power2::pow2((32 - prefix) as nat) as int;
            let network = network_of(ip, prefix) as int;
            &&& network % size == 0
            &&& network <= ip < network + size
        }),
{
    let size = vstd::arithmetic::power2::pow2((32 - prefix) as nat) as int;
    vstd::arithmetic::power2::lemma_pow2_pos((32 - prefix) as nat);
    vstd::arithmetic::div_mod::lemma_fundamental_div_mod(ip as int, size);
    vstd::arithmetic::div_mod::lemma_mod_pos_bound(ip as int, size);
    vstd::arithmetic::div_mod::lemma_mod_decreases(ip as nat, size as nat);
    let quotient = ip as int / size;
    assert(ip as int - ip as int % size == size * quotient);
    vstd::arithmetic::div_mod::lemma_mod_multiples_basic(quotient, size);
    vstd::arithmetic::mul::lemma_mul_is_commutative(size, quotient);
}

/// Nodes are addressed one after the other, from the third address behind the bridge on.
pub proof fn law_nodes_are_addressed_in_turn(bridge: u32, i: int)
    requires
        0 <= i,
        bridge + 3 + i <= u32::MAX,
    ensures
        namespace_ip(bridge, i) == text::dotted((bridge + 3 + i) as u32),
{
}

/// The ends of the veth pair of a node are named by its place: one ends in an a, the other in a b.
pub proof fn law_veth_ends_are_named_by_place(idx: nat)
    ensures
        host_veth(idx) == "veth"@ + text::decimal(idx) + "a"@,
        node_veth(idx) == "veth"@ + text::decimal(idx) + "b"@,
        host_veth(idx) != node_veth(idx),
{
    reveal_strlit("a");
    reveal_strlit("b");
    assert(host_veth(idx).last() == 'a');
    assert(node_veth(idx).last() == 'b');
}

/// Rules are added only where they are asked for: the two that let packets pass, and the one that
/// shares an address, which needs a valid network of the nodes.
pub proof fn law_only_wanted_rules_are_added(manager: NamespaceManager, out_if: Seq<char>)
    ensures
        ({
            let rules = manager.host_rule_words(out_if);
            let bridge = manager.config.bridge_name@;
            let forward = manager.config.auto_add_forward_rules;
            let shared = manager.config.auto_add_nat && is_ipv4_text(manager.config.bridge_ip@)
                && manager.config.subnet <= 32;
            &&& rules.len() == if forward {
                2int
            } else {
                0int
            } + if shared {
                1int
            } else {
                0int
            }
            &&& forward ==> rules[0] == network::forward_words(bridge, out_if, false) && rules[1]
                == network::forward_words(out_if, bridge, true)
            &&& shared ==> rules.last() == network::masquerade_words(
                text::dotted(
                    network_of(
                        ipv4_in(manager.config.bridge_ip@),
                        manager.config.subnet as nat,
                    ),
                ) + "/"@ + text::decimal(manager.config.subnet as nat),
                out_if,
            )
        }),
{
    reveal_strlit("/");
    assert("/"@ =~= seq!['/']);
}

/// The address that a text stands for is the one that is written so.
pub proof fn law_address_in_text(ip: u32)
    ensures
        is_ipv4_text(text::dotted(ip)),
        ipv4_in(text::dotted(ip)) == ip,
{
    assert(text::dotted(ip) == text::dotted(ipv4_in(text::dotted(ip))));
    text::law_address_round_trip(ip, ipv4_in(text::dotted(ip)));
}

/// Suffixes are made of the letters and digits, of which there are 62.
pub proof fn law_suffix_characters(c: char)
    ensures
        charset().contains(c) <==> 'A' <= c <= 'Z' || 'a' <= c <= 'z' || '0' <= c <= '9',
        charset().len() == 62,
{
    reveal_strlit("ABCDEFGHIJKLMNOPQRSTUVWXYZabcdefghijklmnopqrstuvwxyz0123456789");
    let all = charset();
    if 'A' <= c <= 'Z' {
        assert(all[c as int - 'A' as int] == c);
    } else if 'a' <= c <= 'z' {
        assert(all[26 + c as int - 'a' as int] == c);
    } else if '0' <= c <= '9' {
        assert(all[52 + c as int - '0' as int] == c);
    }
}

} // verus!
