//! The files in which a transfer leaves its results.

use sha2::Digest;
use vstd::prelude::*;

use crate::text::{self, append_decimal};

verus! {

/// What a node does in a transfer.
#[derive(Clone, Copy, Debug, PartialEq, Eq, Structural)]
pub enum IntegrationNodeRole {
    Source,
    Receiver,
    Router,
}

/// The name of a role in file names.
pub open spec fn role_name(role: IntegrationNodeRole) -> Seq<char> {
    match role {
        IntegrationNodeRole::Source => "source"@,
        IntegrationNodeRole::Receiver => "receiver"@,
        IntegrationNodeRole::Router => "router"@,
    }
}

fn role_label(role: IntegrationNodeRole) -> (label: &'static str)
    ensures
        label@ == role_name(role),
{
    match role {
        IntegrationNodeRole::Source => "source",
        IntegrationNodeRole::Receiver => "receiver",
        IntegrationNodeRole::Router => "router",
    }
}

/// The path of a file in a directory.
pub open spec fn joined(dir: Seq<char>, name: Seq<char>) -> Seq<char> {
    if dir.len() == 0 || dir.last() == '/' {
        dir + name
    } else {
        dir + seq!['/'] + name
    }
}

/// The path of a file in a directory, for a name that is no path itself.
pub fn join_path(dir: &str, name: &str) -> (path: String)
    ensures
        path@ == joined(dir@, name@),
{
    let mut path = dir.to_owned();
    let len: usize = dir.unicode_len();
    if len > 0 && dir.get_char(len - 1) != '/' {
        path.append("/");
    }
    path.append(name);
    proof {
        reveal_strlit("/");
        assert(path@ =~= joined(dir@, name@));
    }
    path
}

/// The file that tells about the group.
pub fn group_info_path(artifact_dir: &str) -> (path: String)
    ensures
        path@ == joined(artifact_dir@, "group-info.txt"@),
{
    join_path(artifact_dir, "group-info.txt")
}

/// The file that tells that a receiver is ready.
pub fn ready_marker_path(artifact_dir: &str, node_id: usize) -> (path: String)
    ensures
        path@ == joined(
            artifact_dir@,
            "receiver-ready-"@ + text::decimal(node_id as nat) + ".txt"@,
        ),
{
    let mut name = "receiver-ready-".to_owned();
    append_decimal(&mut name, node_id as u128);
    name.append(".txt");
    join_path(artifact_dir, name.as_str())
}

/// The name of a file of a node in its role.
pub open spec fn role_file(
    role: IntegrationNodeRole,
    node_id: usize,
    extension: Seq<char>,
) -> Seq<char> {
    role_name(role) + "-"@ + text::decimal(node_id as nat) + extension
}

fn role_path(artifact_dir: &str, node_id: usize, role: IntegrationNodeRole, extension: &str)
    -> (path: String)
    ensures
        path@ == joined(artifact_dir@, role_file(role, node_id, extension@)),
{
    let mut name = role_label(role).to_owned();
    name.append("-");
    append_decimal(&mut name, node_id as u128);
    name.append(extension);
    join_path(artifact_dir, name.as_str())
}

/// The file that tells how a node fared.
pub fn status_path(artifact_dir: &str, node_id: usize, role: IntegrationNodeRole) -> (path: String)
    ensures
        path@ == joined(artifact_dir@, role_file(role, node_id, ".status"@)),
{
    role_path(artifact_dir, node_id, role, ".status")
}

/// The file that tells how fast the transfer was at a node.
pub fn performance_metrics_path(
    artifact_dir: &str,
    node_id: usize,
    role: IntegrationNodeRole,
) -> (path: String)
    ensures
        path@ == joined(artifact_dir@, role_file(role, node_id, ".metrics"@)),
{
    role_path(artifact_dir, node_id, role, ".metrics")
}

/// The file with what was sent.
pub fn source_artifact_path(artifact_dir: &str) -> (path: String)
    ensures
        path@ == joined(artifact_dir@, "source.bin"@),
{
    join_path(artifact_dir, "source.bin")
}

/// The file with what a node received.
pub fn receiver_artifact_path(artifact_dir: &str, node_id: usize) -> (path: String)
    ensures
        path@ == joined(
            artifact_dir@,
            role_file(IntegrationNodeRole::Receiver, node_id, ".bin"@),
        ),
{
    role_path(artifact_dir, node_id, IntegrationNodeRole::Receiver, ".bin")
}

/// What the file that tells how a node fared holds.
pub fn status_payload(status: &str) -> (payload: String)
    ensures
        payload@ == status@.push('\n'),
{
    let mut payload = status.to_owned();
    payload.append("\n");
    proof {
        reveal_strlit("\n");
        assert(payload@ =~= status@.push('\n'));
    }
    payload
}

/// What the file that tells how fast the transfer was holds. Seconds and throughput are given as
/// text.
pub fn metrics_payload(
    role: IntegrationNodeRole,
    node_id: usize,
    payload_bytes: u64,
    duration_seconds: &str,
    throughput_gbps: &str,
) -> (payload: String)
    ensures
        payload@ == "role="@ + role_name(role) + "\nnode_id="@ + text::decimal(node_id as nat)
            + "\npayload_bytes="@ + text::decimal(payload_bytes as nat) + "\nduration_seconds="@
            + duration_seconds@ + "\nthroughput_gbps="@ + throughput_gbps@ + "\n"@,
{
    let mut payload = "role=".to_owned();
    payload.append(role_label(role));
    payload.append("\nnode_id=");
    append_decimal(&mut payload, node_id as u128);
    payload.append("\npayload_bytes=");
    append_decimal(&mut payload, payload_bytes as u128);
    payload.append("\nduration_seconds=");
    payload.append(duration_seconds);
    payload.append("\nthroughput_gbps=");
    payload.append(throughput_gbps);
    payload.append("\n");
    payload
}

/// The SHA-256 digest of bytes, as the outside crate `sha2` computes it.
pub uninterp spec fn sha256(bytes: Seq<u8>) -> Seq<u8>;

/// Calls `update` and `finalize` on a new `sha2::Sha256`: the digest depends on the bytes alone,
/// and is 32 bytes long.
#[verifier::external_body]
fn sha256_digest(bytes: &[u8]) -> (digest: Vec<u8>)
    ensures
        digest@ == sha256(bytes@),
        digest@.len() == 32,
{
    let mut hasher = sha2::Sha256::new();
    hasher.update(bytes);
    hasher.finalize().to_vec()
}

/// A hexadecimal digit, with a small letter.
pub open spec fn hex_digit(n: u8) -> char {
    if n < 10 {
        (0x30 + n) as char
    } else {
        (0x57 + n) as char
    }
}

/// Bytes in hexadecimal: two digits for each, the higher one first.
pub open spec fn hex_text(bytes: Seq<u8>) -> Seq<char> {
    Seq::new(
        bytes.len() * 2,
        |i: int|
            hex_digit(
                if i % 2 == 0 {
                    bytes[i / 2] / 16
                } else {
                    bytes[i / 2] % 16
                },
            ),
    )
}

/// Calls `hex::encode`: two hexadecimal digits for each byte, the higher one first, with small
/// letters.
#[verifier::external_body]
fn hex_encode(bytes: &Vec<u8>) -> (text: String)
    ensures
        text@ == hex_text(bytes@),
{
    hex::encode(bytes)
}

/// The SHA-256 digest of bytes in hexadecimal.
pub fn sha256_hex(bytes: &[u8]) -> (digest: String)
    ensures
        digest@ == hex_text(sha256(bytes@)),
        digest@.len() == 64,
{
    hex_encode(&sha256_digest(bytes))
}

/// The name of the file that holds the digest of a file with a name, or without one.
pub fn hash_file_name(name: Option<&str>) -> (hash_name: String)
    ensures
        hash_name@ == match name {
            Some(name) => name@ + ".sha256"@,
            None => "artifact.sha256"@,
        },
{
    match name {
        Some(name) => {
            let mut hash_name = name.to_owned();
            hash_name.append(".sha256");
            hash_name
        },
        None => "artifact.sha256".to_owned(),
    }
}

/// A file lies in its directory: its path is that of the directory, a slash where that has none at its
/// end, and its name.
pub proof fn law_files_lie_in_their_directory(dir: Seq<char>, name: Seq<char>)
    ensures
        dir.len() > 0 && dir.last() != '/' ==> joined(dir, name) == dir + "/"@ + name,
        joined(dir + "/"@, name) == dir + "/"@ + name,
        joined(Seq::empty(), name) == name,
{
    reveal_strlit("/");
    assert("/"@ =~= seq!['/']);
    assert((dir + "/"@).last() == '/');
    assert(joined(Seq::empty(), name) =~= name);
    if dir.len() > 0 && dir.last() != '/' {
        assert(joined(dir, name) =~= dir + "/"@ + name);
    }
}

/// A file of a node is named after its role and its ID.
pub proof fn law_files_are_named_after_their_node(node_id: usize, extension: Seq<char>)
    ensures
        role_file(IntegrationNodeRole::Source, node_id, extension) == "source-"@ + text::decimal(
            node_id as nat,
        ) + extension,
        role_file(IntegrationNodeRole::Receiver, node_id, extension) == "receiver-"@
            + text::decimal(node_id as nat) + extension,
        role_file(IntegrationNodeRole::Router, node_id, extension) == "router-"@ + text::decimal(
            node_id as nat,
        ) + extension,
{
    reveal_strlit("source");
    reveal_strlit("receiver");
    reveal_strlit("router");
    reveal_strlit("-");
    reveal_strlit("source-");
    reveal_strlit("receiver-");
    reveal_strlit("router-");
    assert("source"@ + "-"@ =~= "source-"@);
    assert("receiver"@ + "-"@ =~= "receiver-"@);
    assert("router"@ + "-"@ =~= "router-"@);
}

/// The value of a hexadecimal digit with a small letter.
pub open spec fn hex_value(c: char) -> int {
    if '0' <= c <= '9' {
        c as int - '0' as int
    } else {
        c as int - 'a' as int + 10
    }
}

/// Each byte is written as two hexadecimal digits with small letters, from which it can be read back.
pub proof fn law_hex_reads_back(bytes: Seq<u8>, i: int)
    requires
        0 <= i < bytes.len(),
    ensures
        hex_text(bytes).len() == 2 * bytes.len(),
        hex_value(hex_text(bytes)[2 * i]) * 16 + hex_value(hex_text(bytes)[2 * i + 1]) == bytes[i],
        '0' <= hex_text(bytes)[2 * i] <= '9' || 'a' <= hex_text(bytes)[2 * i] <= 'f',
        '0' <= hex_text(bytes)[2 * i + 1] <= '9' || 'a' <= hex_text(bytes)[2 * i + 1] <= 'f',
{
    let text = hex_text(bytes);
    assert((2 * i) % 2 == 0 && (2 * i) / 2 == i);
    assert((2 * i + 1) % 2 == 1 && (2 * i + 1) / 2 == i);
    assert(text[2 * i] == hex_digit(bytes[i] / 16));
    assert(text[2 * i + 1] == hex_digit(bytes[i] % 16));
}

} // verus!
