//! What the source and the receivers of a transfer ask of the lossless runtime.

use std::collections::hash_map::DefaultHasher;
use std::hash::Hasher;

use vstd::bytes::u64_to_le_bytes;
use vstd::prelude::*;
use vstd::std_specs::hash::DefaultHasherAdditionalSpecFns;

use crate::messages::TokenBucketSpec;
use crate::net::Ipv4Addr;
use crate::node::config::{LocalConfig, LosslessRuntimeConfig};
use crate::node::controller::lossless_unicast::{
    ReceiverRequest, SessionId, TransportRoute, ASSIGNED_SESSION,
};
use crate::node::{NodeId, NodeIdExt};
use crate::text::{self, append_decimal};

verus! {

/// A multicast tree.
#[derive(Debug)]
pub struct Tree {
    pub tree_id: u16,
    pub edges: Vec<(u32, u32)>,
}

/// The settings of a transfer.
#[derive(Debug)]
pub struct IntegrationTestConfig {
    pub artifact_dir: String,
    pub group_label: String,
    pub payload_path: String,
    pub source_node_id: NodeId,
    pub receiver_ids: Vec<NodeId>,
    pub trees: Vec<Tree>,
    /// The block size of the session; 0 stands for the default.
    pub block_size: usize,
    pub src_port: u16,
    pub dst_port: u16,
}

/// What the controller is asked for the routes of a group.
#[derive(Clone, Copy, Debug, PartialEq, Eq, Structural)]
pub enum RoutePlan {
    /// The edges of the only tree.
    OneTree,
    /// All trees, without weights.
    ManyTrees,
}

/// Decides what the controller is asked for the routes of a group.
pub fn plan_routes(trees: &Vec<Tree>) -> (plan: Result<RoutePlan, String>)
    ensures
        match plan {
            Ok(RoutePlan::OneTree) => trees@.len() == 1,
            Ok(RoutePlan::ManyTrees) => trees@.len() > 1,
            Err(message) => trees@.len() == 0 && message@
                == "integration_test.trees must contain at least one tree"@,
        },
{
    if trees.len() == 0 {
        Err("integration_test.trees must contain at least one tree".to_owned())
    } else if trees.len() == 1 {
        Ok(RoutePlan::OneTree)
    } else {
        Ok(RoutePlan::ManyTrees)
    }
}

/// The session of a group and a source: a hash of both, with the mark of assigned sessions.
pub open spec fn multicast_session(group_id: u64, source_node_id: usize) -> SessionId {
    DefaultHasher::spec_finish(
        seq![
            vstd::bytes::spec_u64_to_le_bytes(group_id),
            vstd::bytes::spec_u64_to_le_bytes(source_node_id as u64),
        ],
    ) | ASSIGNED_SESSION
}

/// Generates a deterministic session ID for a group and a source, the same at all members.
pub fn multicast_session_id(group_id: u64, source_node_id: usize) -> (session_id: SessionId)
    ensures
        session_id == multicast_session(group_id, source_node_id),
        session_id >= ASSIGNED_SESSION,
{
    let mut hasher = DefaultHasher::new();
    hasher.write(u64_to_le_bytes(group_id).as_slice());
    hasher.write(u64_to_le_bytes(source_node_id as u64).as_slice());
    assert(hasher@ =~= seq![
        vstd::bytes::spec_u64_to_le_bytes(group_id),
        vstd::bytes::spec_u64_to_le_bytes(source_node_id as u64),
    ]);
    let hash: u64 = hasher.finish();
    assert((hash & 0x7FFF_FFFF_FFFF_FFFF) | 0x8000_0000_0000_0000 == hash | 0x8000_0000_0000_0000)
        by (bit_vector);
    assert(hash | 0x8000_0000_0000_0000 >= 0x8000_0000_0000_0000) by (bit_vector);
    (hash & 0x7FFF_FFFF_FFFF_FFFF) | ASSIGNED_SESSION
}

/// The request to send to a group.
#[derive(Debug)]
pub struct GroupSenderRequest {
    pub session_id: SessionId,
    pub block_size: usize,
    pub route: TransportRoute,
    pub pacing: Option<TokenBucketSpec>,
    pub receiver_ids: Vec<NodeId>,
    pub total_bytes: u64,
    pub source_buffer: Vec<u8>,
    pub ready_grace_ms: u64,
}

/// What the source asks of the runtime; a source file without contents is an error.
pub fn source_request(
    config: &LocalConfig,
    runtime: &LosslessRuntimeConfig,
    harness_cfg: &IntegrationTestConfig,
    group_id: usize,
    group_ip: Ipv4Addr,
    source_bytes: Vec<u8>,
) -> (request: Result<GroupSenderRequest, String>)
    ensures
        match request {
            Err(message) => source_bytes@.len() == 0 && message@ == "source file is empty"@,
            Ok(request) => {
                &&& source_bytes@.len() > 0
                &&& request.session_id == multicast_session(group_id as u64, config.node_id)
                &&& request.block_size == if harness_cfg.block_size > 0 {
                    harness_cfg.block_size
                } else {
                    runtime.default_block_size
                }
                &&& request.route == (TransportRoute {
                    src_ip: config.user_space_address,
                    dst_ip: group_ip,
                    src_port: harness_cfg.src_port,
                    dst_port: harness_cfg.dst_port,
                })
                &&& request.pacing == runtime.data_bucket
                &&& request.receiver_ids@ == harness_cfg.receiver_ids@
                &&& request.total_bytes == source_bytes@.len()
                &&& request.source_buffer@ == source_bytes@
                &&& request.ready_grace_ms == runtime.ready_grace_ms
            },
        },
{
    if source_bytes.len() == 0 {
        return Err("source file is empty".to_owned());
    }
    let block_size: usize = if harness_cfg.block_size > 0 {
        harness_cfg.block_size
    } else {
        runtime.default_block_size
    };
    let mut receiver_ids: Vec<NodeId> = Vec::new();
    let mut i: usize = 0;
    while i < harness_cfg.receiver_ids.len()
        invariant
            i <= harness_cfg.receiver_ids@.len(),
            receiver_ids@ == harness_cfg.receiver_ids@.take(i as int),
        decreases harness_cfg.receiver_ids@.len() - i,
    {
        receiver_ids.push(harness_cfg.receiver_ids[i]);
        i = i + 1;
        assert(receiver_ids@ =~= harness_cfg.receiver_ids@.take(i as int));
    }
    assert(receiver_ids@ =~= harness_cfg.receiver_ids@);
    Ok(
        GroupSenderRequest {
            session_id: multicast_session_id(group_id as u64, config.node_id),
            block_size,
            route: TransportRoute {
                src_ip: config.user_space_address,
                dst_ip: group_ip,
                src_port: harness_cfg.src_port,
                dst_port: harness_cfg.dst_port,
            },
            pacing: runtime.data_bucket,
            receiver_ids,
            total_bytes: source_bytes.len() as u64,
            source_buffer: source_bytes,
            ready_grace_ms: runtime.ready_grace_ms,
        },
    )
}

/// What a receiver asks of the runtime.
pub fn receiver_request(config: &LocalConfig, harness_cfg: &IntegrationTestConfig, group_id: usize)
    -> (request: ReceiverRequest)
    requires
        harness_cfg.source_node_id.fits_network(config.user_space_base_addr, config.local_netmask),
    ensures
        request == (ReceiverRequest {
            session_id: multicast_session(group_id as u64, harness_cfg.source_node_id),
            route: TransportRoute {
                src_ip: config.user_space_address,
                dst_ip: harness_cfg.source_node_id.offset_addr(config.user_space_base_addr),
                src_port: harness_cfg.src_port,
                dst_port: harness_cfg.dst_port,
            },
            local_node_id: config.node_id,
        }),
{
    ReceiverRequest {
        session_id: multicast_session_id(group_id as u64, harness_cfg.source_node_id),
        route: TransportRoute {
            src_ip: config.user_space_address,
            dst_ip: harness_cfg.source_node_id.ip_addr(
                config.user_space_base_addr,
                config.local_netmask,
            ),
            src_port: harness_cfg.src_port,
            dst_port: harness_cfg.dst_port,
        },
        local_node_id: config.node_id,
    }
}

/// How a session came to its end.
#[derive(Clone, Copy, Debug, PartialEq, Eq, Structural)]
pub enum SessionEnd {
    Completed,
    Aborted,
    TimedOut,
}

/// Whether a session of the source or of a receiver succeeded, or the error.
pub fn session_result(is_source: bool, session_id: SessionId, end: SessionEnd) -> (result: Result<
    (),
    String,
>)
    ensures
        result is Ok == (end is Completed),
        result matches Err(message) ==> message@ == (if is_source {
            "sender session "@
        } else {
            "receiver session "@
        }) + text::decimal(session_id as nat) + (if end is TimedOut {
            " timed out waiting for completion"@
        } else {
            " did not complete successfully"@
        }),
{
    let reason = match end {
        SessionEnd::Completed => {
            return Ok(());
        },
        SessionEnd::TimedOut => " timed out waiting for completion",
        SessionEnd::Aborted => " did not complete successfully",
    };
    let mut message = if is_source {
        "sender session ".to_owned()
    } else {
        "receiver session ".to_owned()
    };
    append_decimal(&mut message, session_id as u128);
    message.append(reason);
    Err(message)
}

/// Whether something arrived in a session that completed, or the error.
pub fn arrival_result(session_id: SessionId, has_arrival: bool, num_bytes: usize) -> (result: Result<
    (),
    String,
>)
    ensures
        result is Ok == (has_arrival && num_bytes > 0),
        result matches Err(message) ==> message@ == if !has_arrival {
            "receiver session "@ + text::decimal(session_id as nat)
                + " completed without recording payload arrival"@
        } else {
            "receiver sink is empty"@
        },
{
    if !has_arrival {
        let mut message = "receiver session ".to_owned();
        append_decimal(&mut message, session_id as u128);
        message.append(" completed without recording payload arrival");
        return Err(message);
    }
    if num_bytes == 0 {
        return Err("receiver sink is empty".to_owned());
    }
    Ok(())
}

/// The session of a group is one of the upper half, and the same at its source and at its receivers.
pub proof fn law_members_agree_on_the_session(
    source: LocalConfig,
    receiver: IntegrationTestConfig,
    group_id: u64,
)
    requires
        receiver.source_node_id == source.node_id,
    ensures
        multicast_session(group_id, source.node_id) == multicast_session(
            group_id,
            receiver.source_node_id,
        ),
        multicast_session(group_id, source.node_id) >= 0x8000_0000_0000_0000,
        multicast_session(group_id, source.node_id) == DefaultHasher::spec_finish(
            seq![
                vstd::bytes::spec_u64_to_le_bytes(group_id),
                vstd::bytes::spec_u64_to_le_bytes(source.node_id as u64),
            ],
        ) | 0x8000_0000_0000_0000,
{
    let hash = DefaultHasher::spec_finish(
        seq![
            vstd::bytes::spec_u64_to_le_bytes(group_id),
            vstd::bytes::spec_u64_to_le_bytes(source.node_id as u64),
        ],
    );
    assert(hash | 0x8000_0000_0000_0000 >= 0x8000_0000_0000_0000) by (bit_vector);
}

} // verus!
