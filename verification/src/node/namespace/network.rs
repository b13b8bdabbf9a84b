//! What the network of a machine is told, and what is made of its answers.

use vstd::prelude::*;

use crate::text::{self, append_decimal};

verus! {

/// The flag of a link that tells of a carrier.
pub const IFF_LOWER_UP: u32 = 0x1_0000;

/// Why an operation on the network failed. The causes are kept in words.
#[derive(Debug, PartialEq, Eq)]
pub enum NetworkError {
    ConnectionError(String),
    OperationError(String),
    AddressParseError(String),
    Other(String),
}

impl NetworkError {
    /// The error in words.
    pub open spec fn text(self) -> Seq<char> {
        match self {
            NetworkError::ConnectionError(cause) => "Connection error: "@ + cause@ + "."@,
            NetworkError::OperationError(cause) => "Operation error: "@ + cause@ + "."@,
            NetworkError::AddressParseError(cause) => "Address parse error: "@ + cause@ + "."@,
            NetworkError::Other(cause) => "IO error: "@ + cause@ + "."@,
        }
    }

    /// The error in words.
    pub fn message(&self) -> (message: String)
        ensures
            message@ == self.text(),
    {
        let mut message = String::new();
        match self {
            NetworkError::ConnectionError(cause) => {
                message.append("Connection error: ");
                message.append(cause.as_str());
            },
            NetworkError::OperationError(cause) => {
                message.append("Operation error: ");
                message.append(cause.as_str());
            },
            NetworkError::AddressParseError(cause) => {
                message.append("Address parse error: ");
                message.append(cause.as_str());
            },
            NetworkError::Other(cause) => {
                message.append("IO error: ");
                message.append(cause.as_str());
            },
        }
        message.append(".");
        assert(message@ =~= self.text());
        message
    }
}

/// A rule of `iptables`: the arguments that look whether it is there, and those that add it.
#[derive(Debug)]
pub struct Rule {
    pub check: Vec<String>,
    pub add: Vec<String>,
}

/// The texts of a list of arguments.
pub open spec fn words(args: Seq<String>) -> Seq<Seq<char>> {
    Seq::new(args.len(), |i: int| args[i]@)
}

/// Adds an argument.
fn push_word(args: &mut Vec<String>, word: &str)
    ensures
        words(final(args)@) == words(old(args)@).push(word@),
{
    args.push(word.to_owned());
    assert(words(args@) =~= words(old(args)@).push(word@));
}

/// Which packets may be forwarded from an interface to another, as arguments: all, or only those
/// of connections that were opened the other way.
pub open spec fn forward_match(from: Seq<char>, to: Seq<char>, answers_only: bool) -> Seq<Seq<char>> {
    let ends = seq!["-i"@, from, "-o"@, to];
    let state = if answers_only {
        seq!["-m"@, "state"@, "--state"@, "RELATED,ESTABLISHED"@]
    } else {
        Seq::empty()
    };
    ends + state + seq!["-j"@, "ACCEPT"@]
}

fn push_forward_match(args: &mut Vec<String>, from: &str, to: &str, answers_only: bool)
    ensures
        words(final(args)@) == words(old(args)@) + forward_match(from@, to@, answers_only),
{
    push_word(args, "-i");
    push_word(args, from);
    push_word(args, "-o");
    push_word(args, to);
    if answers_only {
        push_word(args, "-m");
        push_word(args, "state");
        push_word(args, "--state");
        push_word(args, "RELATED,ESTABLISHED");
    }
    push_word(args, "-j");
    push_word(args, "ACCEPT");
    assert(words(args@) =~= words(old(args)@) + forward_match(from@, to@, answers_only));
}

/// The rule that lets packets be forwarded. It is added before all others.
fn forward_rule(from: &str, to: &str, answers_only: bool) -> (rule: Rule)
    ensures
        words(rule.check@) == seq!["-C"@, "FORWARD"@] + forward_match(from@, to@, answers_only),
        words(rule.add@) == seq!["-I"@, "FORWARD"@, "1"@] + forward_match(
            from@,
            to@,
            answers_only,
        ),
{
    let mut check: Vec<String> = Vec::new();
    assert(words(check@) =~= Seq::<Seq<char>>::empty());
    push_word(&mut check, "-C");
    push_word(&mut check, "FORWARD");
    push_forward_match(&mut check, from, to, answers_only);
    assert(words(check@) =~= seq!["-C"@, "FORWARD"@] + forward_match(from@, to@, answers_only));
    let mut add: Vec<String> = Vec::new();
    assert(words(add@) =~= Seq::<Seq<char>>::empty());
    push_word(&mut add, "-I");
    push_word(&mut add, "FORWARD");
    push_word(&mut add, "1");
    push_forward_match(&mut add, from, to, answers_only);
    assert(words(add@) =~= seq!["-I"@, "FORWARD"@, "1"@] + forward_match(from@, to@, answers_only));
    Rule { check, add }
}

/// The rules by which nodes reach the outside: what leaves the bridge is accepted, and of what
/// comes back the answers are.
pub fn ensure_forward_rules(bridge_name: &str, outbound_if: &str) -> (rules: Vec<Rule>)
    ensures
        rules@.len() == 2,
        words(rules@[0].check@) == seq!["-C"@, "FORWARD"@] + forward_match(
            bridge_name@,
            outbound_if@,
            false,
        ),
        words(rules@[0].add@) == seq!["-I"@, "FORWARD"@, "1"@] + forward_match(
            bridge_name@,
            outbound_if@,
            false,
        ),
        words(rules@[1].check@) == seq!["-C"@, "FORWARD"@] + forward_match(
            outbound_if@,
            bridge_name@,
            true,
        ),
        words(rules@[1].add@) == seq!["-I"@, "FORWARD"@, "1"@] + forward_match(
            outbound_if@,
            bridge_name@,
            true,
        ),
{
    let mut rules: Vec<Rule> = Vec::new();
    rules.push(forward_rule(bridge_name, outbound_if, false));
    rules.push(forward_rule(outbound_if, bridge_name, true));
    rules
}

/// Which packets are given the address of an interface, as arguments.
pub open spec fn masquerade_match(subnet_cidr: Seq<char>, outbound_if: Seq<char>) -> Seq<Seq<char>> {
    seq!["POSTROUTING"@, "-s"@, subnet_cidr, "-o"@, outbound_if, "-j"@, "MASQUERADE"@]
}

fn push_masquerade(args: &mut Vec<String>, operation: &str, subnet_cidr: &str, outbound_if: &str)
    ensures
        words(final(args)@) == words(old(args)@) + (seq!["-t"@, "nat"@, operation@]
            + masquerade_match(subnet_cidr@, outbound_if@)),
{
    push_word(args, "-t");
    push_word(args, "nat");
    push_word(args, operation);
    push_word(args, "POSTROUTING");
    push_word(args, "-s");
    push_word(args, subnet_cidr);
    push_word(args, "-o");
    push_word(args, outbound_if);
    push_word(args, "-j");
    push_word(args, "MASQUERADE");
    assert(words(args@) =~= words(old(args)@) + (seq!["-t"@, "nat"@, operation@]
        + masquerade_match(subnet_cidr@, outbound_if@)));
}

/// The rule that gives packets of the nodes the address of an interface. It is added after all
/// others.
pub fn ensure_nat_masquerade(subnet_cidr: &str, outbound_if: &str) -> (rule: Rule)
    ensures
        words(rule.check@) == seq!["-t"@, "nat"@, "-C"@] + masquerade_match(
            subnet_cidr@,
            outbound_if@,
        ),
        words(rule.add@) == seq!["-t"@, "nat"@, "-A"@] + masquerade_match(
            subnet_cidr@,
            outbound_if@,
        ),
{
    let mut check: Vec<String> = Vec::new();
    push_masquerade(&mut check, "-C", subnet_cidr, outbound_if);
    assert(words(check@) =~= seq!["-t"@, "nat"@, "-C"@] + masquerade_match(
        subnet_cidr@,
        outbound_if@,
    ));
    let mut add: Vec<String> = Vec::new();
    push_masquerade(&mut add, "-A", subnet_cidr, outbound_if);
    assert(words(add@) =~= seq!["-t"@, "nat"@, "-A"@] + masquerade_match(
        subnet_cidr@,
        outbound_if@,
    ));
    Rule { check, add }
}

/// The arguments of a rule, as texts.
#[verifier::ext_equal]
pub struct RuleWords {
    pub check: Seq<Seq<char>>,
    pub add: Seq<Seq<char>>,
}

/// The arguments of a rule.
pub open spec fn rule_words(rule: Rule) -> RuleWords {
    RuleWords { check: words(rule.check@), add: words(rule.add@) }
}

/// The rule by which packets pass from one interface to another.
pub open spec fn forward_words(from: Seq<char>, to: Seq<char>, answers_only: bool) -> RuleWords {
    RuleWords {
        check: seq!["-C"@, "FORWARD"@] + forward_match(from, to, answers_only),
        add: seq!["-I"@, "FORWARD"@, "1"@] + forward_match(from, to, answers_only),
    }
}

/// The rule by which packets of a network are given the address of an interface.
pub open spec fn masquerade_words(subnet_cidr: Seq<char>, outbound_if: Seq<char>) -> RuleWords {
    RuleWords {
        check: seq!["-t"@, "nat"@, "-C"@] + masquerade_match(subnet_cidr, outbound_if),
        add: seq!["-t"@, "nat"@, "-A"@] + masquerade_match(subnet_cidr, outbound_if),
    }
}

/// What the machine knows of a link.
#[derive(Clone, Copy, Debug, PartialEq, Eq, Structural)]
pub enum LinkState {
    /// The link exists, with these flags and this operational state. Its carrier is also what
    /// `/sys/class/net` tells, where that can be read.
    Present { flags: u32, operstate_up: bool, sysfs_carrier: Option<bool> },
    Missing,
    /// Its state cannot be read.
    Unreadable,
}

/// What to do about a link that is waited for.
#[derive(Clone, Copy, Debug, PartialEq, Eq, Structural)]
pub enum CarrierStep {
    /// The link is established.
    Established,
    /// The link does not exist.
    Missing,
    /// Wait, and look again.
    Retry,
    /// Wait, and give up.
    GiveUp,
}

/// Whether flags tell of a carrier.
pub fn has_carrier(flags: u32) -> (carrier: bool)
    ensures
        carrier == (flags / IFF_LOWER_UP % 2 == 1),
        carrier == (flags & 0x1_0000 != 0),
{
    assert((flags & 0x1_0000 != 0) == (flags / 0x1_0000 % 2 == 1)) by (bit_vector);
    flags & IFF_LOWER_UP != 0
}

/// Decides after an attempt, counted from 1, what to do about a link that is waited for.
pub fn carrier_step(link: LinkState, attempt: u32, max_retries: u32) -> (step: CarrierStep)
    requires
        1 <= attempt <= max_retries,
    ensures
        step == match link {
            LinkState::Missing => CarrierStep::Missing,
            LinkState::Present { flags, operstate_up, sysfs_carrier } if flags / IFF_LOWER_UP % 2
                == 1 || operstate_up || sysfs_carrier == Some(true) => (CarrierStep::Established),
            _ => if attempt < max_retries {
                CarrierStep::Retry
            } else {
                CarrierStep::GiveUp
            },
        },
{
    let again = if attempt < max_retries {
        CarrierStep::Retry
    } else {
        CarrierStep::GiveUp
    };
    match link {
        LinkState::Present { flags, operstate_up, sysfs_carrier } => {
            let told = match sysfs_carrier {
                Some(carrier) => carrier,
                None => false,
            };
            if has_carrier(flags) || operstate_up || told {
                CarrierStep::Established
            } else {
                again
            }
        },
        LinkState::Missing => CarrierStep::Missing,
        LinkState::Unreadable => again,
    }
}

/// The error for a link that does not exist.
pub fn missing_veth(veth_idx: u32) -> (error: NetworkError)
    ensures
        error matches NetworkError::OperationError(cause) && cause@ == "Veth interface "@
            + text::decimal(veth_idx as nat) + " not found."@,
{
    let mut cause = "Veth interface ".to_owned();
    append_decimal(&mut cause, veth_idx as u128);
    cause.append(" not found.");
    NetworkError::OperationError(cause)
}

/// The error for a link that was not established in time.
pub fn no_carrier(veth_idx: u32, max_retries: u32, retry_interval_ms: u64) -> (error: NetworkError)
    requires
        max_retries * retry_interval_ms <= u64::MAX,
    ensures
        error matches NetworkError::OperationError(cause) && cause@ == "Veth interface "@
            + text::decimal(veth_idx as nat) + " failed to establish carrier after "@
            + text::decimal(max_retries as nat) + " attempts ("@ + text::decimal(
            (max_retries * retry_interval_ms / 1000) as nat,
        ) + " seconds)."@,
{
    let seconds: u64 = max_retries as u64 * retry_interval_ms / 1000;
    let mut cause = "Veth interface ".to_owned();
    append_decimal(&mut cause, veth_idx as u128);
    cause.append(" failed to establish carrier after ");
    append_decimal(&mut cause, max_retries as u128);
    cause.append(" attempts (");
    append_decimal(&mut cause, seconds as u128);
    cause.append(" seconds).");
    NetworkError::OperationError(cause)
}

/// What leaves the bridge may pass to the outside; of what comes back only the answers may. Packets of
/// the nodes are given the address of the outbound interface behind routing. A rule is looked for with
/// the same words with which it is added.
pub proof fn law_rules_in_words(bridge: Seq<char>, outbound: Seq<char>, cidr: Seq<char>)
    ensures
        forward_words(bridge, outbound, false).add == seq![
            "-I"@,
            "FORWARD"@,
            "1"@,
            "-i"@,
            bridge,
            "-o"@,
            outbound,
            "-j"@,
            "ACCEPT"@,
        ],
        forward_words(outbound, bridge, true).add == seq![
            "-I"@,
            "FORWARD"@,
            "1"@,
            "-i"@,
            outbound,
            "-o"@,
            bridge,
            "-m"@,
            "state"@,
            "--state"@,
            "RELATED,ESTABLISHED"@,
            "-j"@,
            "ACCEPT"@,
        ],
        masquerade_words(cidr, outbound).add == seq![
            "-t"@,
            "nat"@,
            "-A"@,
            "POSTROUTING"@,
            "-s"@,
            cidr,
            "-o"@,
            outbound,
            "-j"@,
            "MASQUERADE"@,
        ],
        forward_words(bridge, outbound, false).check == seq!["-C"@] + (seq!["FORWARD"@]
            + forward_words(bridge, outbound, false).add.skip(3)),
        forward_words(outbound, bridge, true).check == seq!["-C"@] + (seq!["FORWARD"@]
            + forward_words(outbound, bridge, true).add.skip(3)),
        masquerade_words(cidr, outbound).check == masquerade_words(cidr, outbound).add.update(
            2,
            "-C"@,
        ),
{
    let out = forward_words(bridge, outbound, false);
    let back = forward_words(outbound, bridge, true);
    let shared = masquerade_words(cidr, outbound);
    assert(out.add =~= seq![
        "-I"@,
        "FORWARD"@,
        "1"@,
        "-i"@,
        bridge,
        "-o"@,
        outbound,
        "-j"@,
        "ACCEPT"@,
    ]);
    assert(back.add =~= seq![
        "-I"@,
        "FORWARD"@,
        "1"@,
        "-i"@,
        outbound,
        "-o"@,
        bridge,
        "-m"@,
        "state"@,
        "--state"@,
        "RELATED,ESTABLISHED"@,
        "-j"@,
        "ACCEPT"@,
    ]);
    assert(shared.add =~= seq![
        "-t"@,
        "nat"@,
        "-A"@,
        "POSTROUTING"@,
        "-s"@,
        cidr,
        "-o"@,
        outbound,
        "-j"@,
        "MASQUERADE"@,
    ]);
    assert(out.check =~= seq!["-C"@] + (seq!["FORWARD"@] + out.add.skip(3)));
    assert(back.check =~= seq!["-C"@] + (seq!["FORWARD"@] + back.add.skip(3)));
    assert(shared.check =~= shared.add.update(2, "-C"@));
}

/// What is said of the words of a rule is said of its arguments, each at its place.
pub proof fn law_words_are_the_arguments(rule: Rule, i: int)
    ensures
        rule_words(rule).check.len() == rule.check@.len(),
        rule_words(rule).add.len() == rule.add@.len(),
        0 <= i < rule.check@.len() ==> rule_words(rule).check[i] == rule.check@[i]@,
        0 <= i < rule.add@.len() ==> rule_words(rule).add[i] == rule.add@[i]@,
{
}

/// An error in words says what kind of operation failed, then the cause as it was given, and ends with
/// a full stop.
pub proof fn law_errors_tell_their_cause(cause: String)
    ensures
        NetworkError::ConnectionError(cause).text() == "Connection error: "@ + cause@ + "."@,
        NetworkError::OperationError(cause).text() == "Operation error: "@ + cause@ + "."@,
        NetworkError::AddressParseError(cause).text() == "Address parse error: "@ + cause@ + "."@,
        NetworkError::Other(cause).text() == "IO error: "@ + cause@ + "."@,
{
}

} // verus!
