//! The file in which the source of a transfer tells the receivers about the group.

use vstd::prelude::*;

use crate::lines::{self, read_line};
use crate::net::Ipv4Addr;
use crate::text::{self, append_decimal, append_ipv4, read_ipv4, read_number, same_chars, to_chars};

verus! {

/// What receivers need to know of a group.
#[derive(Clone, Copy, Debug, PartialEq, Eq, Structural)]
pub struct GroupInfo {
    pub group_id: usize,
    pub group_ip: Ipv4Addr,
    pub source_node_id: usize,
}

/// The text that tells about a group.
pub open spec fn group_info_text(info: GroupInfo) -> Seq<char> {
    let first = "group_id"@.push('=') + text::decimal(info.group_id as nat);
    let second = "group_ip"@.push('=') + text::dotted(info.group_ip.bits);
    let third = "source_node_id"@.push('=') + text::decimal(info.source_node_id as nat);
    first.push('\n') + (second.push('\n') + third.push('\n'))
}

/// The text that tells about a group.
pub fn group_info_payload(info: &GroupInfo) -> (payload: String)
    ensures
        payload@ == group_info_text(*info),
{
    let mut payload = "group_id".to_owned();
    payload.append("=");
    append_decimal(&mut payload, info.group_id as u128);
    payload.append("\n");
    payload.append("group_ip");
    payload.append("=");
    append_ipv4(&mut payload, info.group_ip);
    payload.append("\n");
    payload.append("source_node_id");
    payload.append("=");
    append_decimal(&mut payload, info.source_node_id as u128);
    payload.append("\n");
    proof {
        reveal_strlit("=");
        reveal_strlit("\n");
        assert(payload@ =~= group_info_text(*info));
    }
    payload
}

/// The number that a value stands for.
pub open spec fn number_value(value: Option<Seq<char>>) -> Option<usize> {
    match value {
        Some(value) => match text::number_in(value, usize::MAX as nat) {
            Some(n) => Some(n as usize),
            None => None,
        },
        None => None,
    }
}

/// The address that a value stands for.
pub open spec fn address_value(value: Option<Seq<char>>) -> Option<Ipv4Addr> {
    match value {
        Some(value) => if exists|ip: Ipv4Addr| value == #[trigger] text::dotted(ip.bits) {
            Some(choose|ip: Ipv4Addr| value == #[trigger] text::dotted(ip.bits))
        } else {
            None
        },
        None => None,
    }
}

/// What lines tell about a group: each of the three values must be there and be readable.
pub open spec fn info_in(lines: Seq<Seq<char>>) -> Option<GroupInfo> {
    let group_id = number_value(lines::last_value(lines, "group_id"@));
    let group_ip = address_value(lines::last_value(lines, "group_ip"@));
    let source_node_id = number_value(lines::last_value(lines, "source_node_id"@));
    if group_id is Some && group_ip is Some && source_node_id is Some {
        Some(
            GroupInfo {
                group_id: group_id->0,
                group_ip: group_ip->0,
                source_node_id: source_node_id->0,
            },
        )
    } else {
        None
    }
}

fn parse_number(value: &Vec<char>) -> (number: Option<usize>)
    ensures
        number == number_value(Some(value@)),
{
    proof {
        if text::all_digits(text::unsigned_part(value@)) {
            text::lemma_value_nonneg(text::unsigned_part(value@));
        }
    }
    match read_number(value.as_slice()) {
        Some(number) => if number <= usize::MAX as u64 {
            Some(number as usize)
        } else {
            None
        },
        None => None,
    }
}

fn parse_address(value: &Vec<char>) -> (address: Option<Ipv4Addr>)
    ensures
        address == address_value(Some(value@)),
{
    let address = read_ipv4(value);
    proof {
        match address {
            Some(ip) => {
                assert(value@ == text::dotted(ip.bits));
                let chosen = choose|ip: Ipv4Addr| value@ == #[trigger] text::dotted(ip.bits);
                text::law_address_round_trip(ip.bits, chosen.bits);
            },
            None => {
                assert forall|ip: Ipv4Addr| value@ != #[trigger] text::dotted(ip.bits) by {
                    let bits = ip.bits;
                    assert(value@ != text::dotted(bits));
                }
            },
        }
    }
    address
}

fn is_key(key: &Vec<char>, name: &str) -> (same: bool)
    ensures
        same == (key@ == name@),
{
    same_chars(key, &to_chars(name))
}

/// The three keys differ.
proof fn lemma_keys_differ()
    ensures
        "group_id"@ != "group_ip"@,
        "group_id"@ != "source_node_id"@,
        "group_ip"@ != "source_node_id"@,
{
    reveal_strlit("group_id");
    reveal_strlit("group_ip");
    reveal_strlit("source_node_id");
    assert("group_id"@[7] == 'd');
    assert("group_ip"@[7] == 'p');
    assert("group_id"@.len() == 8);
    assert("source_node_id"@.len() == 14);
}

/// Reads what a text tells about a group. Lines that assign nothing, or other keys, are skipped.
pub fn parse_group_info(contents: &str) -> (info: Result<GroupInfo, String>)
    ensures
        (match info {
            Ok(info) => Some(info),
            Err(_) => None,
        }) == info_in(lines::lines(contents@)),
        info matches Err(message) ==> message@ == "group info file is incomplete"@,
{
    let chars = to_chars(contents);
    let mut group_id: Option<usize> = None;
    let mut group_ip: Option<Ipv4Addr> = None;
    let mut source_node_id: Option<usize> = None;
    let ghost all = lines::lines(chars@);
    let ghost mut done: Seq<Seq<char>> = Seq::empty();
    let mut from: usize = 0;
    let mut more = true;
    assert(chars@.skip(0) =~= chars@);
    assert(done + all =~= all);
    while more
        invariant
            from <= chars@.len(),
            all == lines::lines(chars@),
            more ==> all == done + lines::lines(chars@.skip(from as int)),
            !more ==> all == done,
            group_id == number_value(lines::last_value(done, "group_id"@)),
            group_ip == address_value(lines::last_value(done, "group_ip"@)),
            source_node_id == number_value(lines::last_value(done, "source_node_id"@)),
        decreases chars@.len() - from + if more {
            1int
        } else {
            0
        },
    {
        let line = read_line(&chars, from);
        let ghost text = match line.next {
            Some(next) => chars@.subrange(from as int, next - 1),
            None => chars@.skip(from as int),
        };
        let ghost before = done;
        proof {
            done = done.push(text);
            assert(done.drop_last() =~= before);
            assert(done.last() == text);
            lemma_keys_differ();
        }
        if let Some((key, value)) = line.assignment {
            if is_key(&key, "group_id") {
                group_id = parse_number(&value);
            } else if is_key(&key, "group_ip") {
                group_ip = parse_address(&value);
            } else if is_key(&key, "source_node_id") {
                source_node_id = parse_number(&value);
            }
        }
        match line.next {
            Some(next) => {
                assert(all =~= done + lines::lines(chars@.skip(next as int)));
                from = next;
            },
            None => {
                assert(all =~= done);
                more = false;
            },
        }
    }
    match (group_id, group_ip, source_node_id) {
        (Some(group_id), Some(group_ip), Some(source_node_id)) => Ok(
            GroupInfo { group_id, group_ip, source_node_id },
        ),
        _ => Err("group info file is incomplete".to_owned()),
    }
}

/// Numbers in decimal hold neither white space nor line ends.
proof fn lemma_decimal_plain(n: nat)
    ensures
        lines::trim(text::decimal(n)) == text::decimal(n),
        forall|k: int| 0 <= k < text::decimal(n).len() ==> #[trigger] text::decimal(n)[k] != '\n',
{
    text::lemma_decimal(n);
    let s = text::decimal(n);
    assert forall|k: int| 0 <= k < s.len() implies #[trigger] s[k] != '\n' by {
        assert(text::is_digit(s[k]));
    }
    assert(text::is_digit(s[0]));
    assert(text::is_digit(s[s.len() - 1]));
    lines::lemma_trim_plain(s);
}

/// Addresses hold neither white space nor line ends.
proof fn lemma_dotted_plain(ip: u32)
    ensures
        lines::trim(text::dotted(ip)) == text::dotted(ip),
        forall|k: int| 0 <= k < text::dotted(ip).len() ==> #[trigger] text::dotted(ip)[k] != '\n',
{
    let s = text::dotted(ip);
    let a = text::decimal((ip / 0x100_0000) as nat);
    let b = text::decimal((ip / 0x1_0000 % 0x100) as nat);
    let c = text::decimal((ip / 0x100 % 0x100) as nat);
    let d = text::decimal((ip % 0x100) as nat);
    text::lemma_decimal((ip / 0x100_0000) as nat);
    text::lemma_decimal((ip / 0x1_0000 % 0x100) as nat);
    text::lemma_decimal((ip / 0x100 % 0x100) as nat);
    text::lemma_decimal((ip % 0x100) as nat);
    assert(s =~= a + seq!['.'] + b + seq!['.'] + c + seq!['.'] + d);
    assert forall|k: int| 0 <= k < s.len() implies #[trigger] s[k] == '.' || text::is_digit(
        s[k],
    ) by {
        let first = a.len() as int;
        let second = first + 1 + b.len();
        let third = second + 1 + c.len();
        if k < first {
            assert(text::is_digit(a[k]));
        } else if first < k < second {
            assert(text::is_digit(b[k - first - 1]));
        } else if second < k < third {
            assert(text::is_digit(c[k - second - 1]));
        } else if third < k {
            assert(text::is_digit(d[k - third - 1]));
        }
    }
    assert(s[0] == '.' || text::is_digit(s[0]));
    assert(s[s.len() - 1] == '.' || text::is_digit(s[s.len() - 1]));
    lines::lemma_trim_plain(s);
}

/// A key is read back from a line that assigns to it, and such a line holds no line end.
proof fn lemma_key_line(key: Seq<char>, value: Seq<char>)
    requires
        key.len() > 0,
        forall|k: int| 0 <= k < key.len() ==> #[trigger] key[k] != '=' && !lines::is_white(key[k]),
        lines::trim(value) == value,
        forall|k: int| 0 <= k < value.len() ==> #[trigger] value[k] != '\n',
    ensures
        lines::assignment(key.push('=') + value) == Some((key, value)),
        forall|k: int|
            0 <= k < (key.push('=') + value).len() ==> #[trigger] (key.push('=') + value)[k] != '\n',
{
    assert(!lines::is_white(key[0]));
    assert(!lines::is_white(key[key.len() - 1]));
    lines::lemma_trim_plain(key);
    lines::lemma_assignment_read_back(key, value);
    let s = key.push('=') + value;
    assert forall|k: int| 0 <= k < s.len() implies #[trigger] s[k] != '\n' by {
        if k < key.len() {
            assert(s[k] == key[k]);
        } else if k > key.len() {
            assert(s[k] == value[k - key.len() - 1]);
        }
    }
}

/// What the source writes about a group, the receivers read back.
pub proof fn law_group_info_round_trip(info: GroupInfo)
    ensures
        info_in(lines::lines(group_info_text(info))) == Some(info),
{
    reveal_strlit("group_id");
    reveal_strlit("group_ip");
    reveal_strlit("source_node_id");
    lemma_keys_differ();
    lemma_decimal_plain(info.group_id as nat);
    lemma_dotted_plain(info.group_ip.bits);
    lemma_decimal_plain(info.source_node_id as nat);
    let first = "group_id"@.push('=') + text::decimal(info.group_id as nat);
    let second = "group_ip"@.push('=') + text::dotted(info.group_ip.bits);
    let third = "source_node_id"@.push('=') + text::decimal(info.source_node_id as nat);
    lemma_key_line("group_id"@, text::decimal(info.group_id as nat));
    lemma_key_line("group_ip"@, text::dotted(info.group_ip.bits));
    lemma_key_line("source_node_id"@, text::decimal(info.source_node_id as nat));
    let nothing = Seq::<char>::empty();
    assert(third.push('\n') =~= third.push('\n') + nothing);
    lines::lemma_lines_of_front(third, nothing);
    lines::lemma_lines_of_front(second, third.push('\n'));
    lines::lemma_lines_of_front(first, second.push('\n') + third.push('\n'));
    let all = lines::lines(group_info_text(info));
    lines::lemma_first_place(nothing, '\n', 0);
    lines::lemma_first_place(nothing, '=', 0);
    assert(all =~= seq![first, second, third, nothing]);
    let three = seq![first, second, third];
    let two = seq![first, second];
    let one = seq![first];
    assert(all.drop_last() =~= three);
    assert(three.drop_last() =~= two);
    assert(two.drop_last() =~= one);
    assert(lines::last_value(all, "source_node_id"@) == lines::last_value(
        three,
        "source_node_id"@,
    ));
    assert(lines::last_value(all, "group_ip"@) == lines::last_value(two, "group_ip"@)) by {
        assert(lines::last_value(all, "group_ip"@) == lines::last_value(three, "group_ip"@));
    }
    assert(lines::last_value(all, "group_id"@) == lines::last_value(one, "group_id"@)) by {
        assert(lines::last_value(all, "group_id"@) == lines::last_value(three, "group_id"@));
        assert(lines::last_value(three, "group_id"@) == lines::last_value(two, "group_id"@));
    }
    text::law_number_round_trip(info.group_id as nat, usize::MAX as nat);
    text::law_number_round_trip(info.source_node_id as nat, usize::MAX as nat);
    let value = text::dotted(info.group_ip.bits);
    let chosen = choose|ip: Ipv4Addr| value == #[trigger] text::dotted(ip.bits);
    assert(value == text::dotted(chosen.bits));
    text::law_address_round_trip(info.group_ip.bits, chosen.bits);
}

/// A group is told of only with all three values: the ID of the group, its address, and the ID of its
/// source. Each is that of the last line for its key.
pub proof fn law_group_info_needs_all_values(all: Seq<Seq<char>>)
    ensures
        info_in(all) is Some <==> {
            &&& lines::last_value(all, "group_id"@) matches Some(value) && text::number_in(
                value,
                usize::MAX as nat,
            ) is Some
            &&& lines::last_value(all, "group_ip"@) matches Some(value) && exists|ip: Ipv4Addr|
                value == #[trigger] text::dotted(ip.bits)
            &&& lines::last_value(all, "source_node_id"@) matches Some(value) && text::number_in(
                value,
                usize::MAX as nat,
            ) is Some
        },
        info_in(all) matches Some(info) ==> {
            &&& text::number_in(lines::last_value(all, "group_id"@)->0, usize::MAX as nat) == Some(
                info.group_id as nat,
            )
            &&& lines::last_value(all, "group_ip"@) == Some(text::dotted(info.group_ip.bits))
            &&& text::number_in(lines::last_value(all, "source_node_id"@)->0, usize::MAX as nat)
                == Some(info.source_node_id as nat)
        },
{
    if info_in(all) is Some {
        lemma_number_fits(lines::last_value(all, "group_id"@)->0);
        lemma_number_fits(lines::last_value(all, "source_node_id"@)->0);
    }
}

proof fn lemma_number_fits(value: Seq<char>)
    ensures
        text::number_in(value, usize::MAX as nat) matches Some(n) ==> n <= usize::MAX,
{
    if text::all_digits(text::unsigned_part(value)) {
        text::lemma_value_nonneg(text::unsigned_part(value));
    }
}

} // verus!
