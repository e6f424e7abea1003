//! What an error says.
use crate::cluster::discovery::{announcement_refusal, AnnouncementView};
use crate::cluster::election::Leadership;
use crate::config::ConfigView;
use crate::error::{ConfigFault, Error};
use crate::ids::{hyphenated, Uuid};
use crate::memory::block::{element_width, tensor_check, BlockState, HandleView, LocationView, TensorView};
use crate::memory::local_ram::{
    chunk_check, commit_check, lease_check, publish_check, read_check, store_check, BlockView, LocalRam,
};
use crate::memory::migration::migration_check;
use crate::protocol::request::Request;
use crate::runtime::blocks::{local_check, register_check, resolve_check};
use crate::runtime::control::{allocation_refusal, job_refusal};
use crate::runtime::data::path_of;
use crate::runtime::monitor::peer_check;
use crate::runtime::session::{packets, SessionView};
use crate::runtime::udp::{finish_check, read_request_check, start_check};
use crate::runtime::Runtime;
use crate::bytes::be_value;
use crate::node::capabilities::NodeView;
use crate::text::decimal;
use crate::transport::sender::send_check;
use crate::transport::udp::{datagram_check, PacketView};
use vstd::prelude::*;
use vstd::utf8::encode_utf8;

verus! {

/// A lease is denied to another token, ended or not, and has expired to its own
/// at its end.
pub proof fn law_what_is_wrong_with_a_lease(h: HandleView, token: Uuid, now_ms: u64)
    ensures
        token != h.lease_token <==> lease_check(h, token, now_ms) == Err::<(), Error>(Error::LeaseDenied),
        token == h.lease_token && h.lease_expires_ms <= now_ms <==> lease_check(h, token, now_ms) == Err::<(), Error>(
            Error::LeaseExpired,
        ),
{
}

/// What is wrong with a request for a block here, whose lease is open.
pub proof fn law_what_is_wrong_with_a_request(
    b: BlockView,
    h: HandleView,
    transfer_id: Uuid,
    offset: u64,
    length: nat,
    total_size: u64,
    checksum: Seq<char>,
    now_ms: u64,
    e: Error,
)
    requires
        h.lease_token == b.handle.lease_token,
        now_ms < b.handle.lease_expires_ms,
    ensures
        chunk_check(b, h, transfer_id, offset, total_size, now_ms) == Err::<(), Error>(e) ==> {
            ||| e == Error::WriteStaleDirect && (b.handle.state != BlockState::Writing || b.handle.generation
                != h.generation)
            ||| e == Error::WriteOrder && (b.written != offset || b.handle.size != total_size)
            ||| e == Error::TransferMismatch && b.transfer_id is Some && b.transfer_id->0 != transfer_id
        },
        store_check(b, h, offset, now_ms) == Err::<(), Error>(e) ==> e == Error::WriteStale,
        read_check(b, h, offset, length, now_ms) == Err::<(), Error>(e) ==> {
            ||| e == Error::ReadStale && (b.handle.state != BlockState::Ready || b.handle.generation != h.generation)
            ||| e == Error::ReadRange && offset + length > b.bytes.len()
        },
        publish_check(b, h, now_ms) == Err::<(), Error>(e) ==> e == Error::NotReady,
        commit_check(b, h.lease_token, checksum, now_ms) == Err::<(), Error>(e) ==> {
            ||| e == Error::Incomplete && b.written != b.bytes.len()
            ||| e == Error::ChecksumMismatch && b.written == b.bytes.len()
        },
{
}

/// What is wrong with a block that is to be made here.
pub proof fn law_what_is_wrong_with_a_new_block(a: Runtime, s: LocalRam, h: HandleView, leadership: Leadership, e: Error)
    ensures
        local_check(a, h, leadership) == Some(e) ==> {
            ||| e == Error::LeadershipChanged && a.led() != leadership
            ||| e == Error::WrongOwner && (h.owner_node != a.node_id || h.owner_incarnation != a.me().incarnation)
            ||| e == Error::OnlyRam && h.location_type != (LocationView::Ram { node_id: a.node_id })
            ||| e == Error::MustWrite && (h.state != BlockState::Writing || h.checksum is Some)
            ||| h.tensor is Some && tensor_check(h.tensor->0, h.size) == Err::<(), Error>(e)
        },
        s.admission(h) == Err::<(), Error>(e) ==> {
            ||| e == Error::BlockExists && s@.contains_key(h.id)
            ||| e == Error::BlockLimit && (s.blocks.keys().len() >= 100_000 || s.next_serial == u64::MAX)
            ||| e == Error::Range && h.size > usize::MAX
            ||| e == (Error::OutOfCapacity { bytes: h.size }) && s.accounting.owned + h.size > s.accounting.budget
        },
{
}

/// What is wrong with a tensor.
pub proof fn law_what_is_wrong_with_a_tensor(t: TensorView, size: u64, e: Error)
    ensures
        tensor_check(t, size) == Err::<(), Error>(e) ==> {
            ||| e == Error::TensorLayout && (t.layout != "contiguous"@ || t.shape.len() > 32)
            ||| e == Error::TensorDtype && element_width(t.dtype) is None
            ||| e == Error::TensorSize && element_width(t.dtype) is Some
        },
        t.layout == "contiguous"@ && t.shape.len() <= 32 && element_width(t.dtype) is Some && t.byte_length != size
            ==> tensor_check(t, size) == Err::<(), Error>(Error::TensorSize),
{
}

/// What is wrong with a move, a lookup and a report.
pub proof fn law_what_is_wrong_with_a_move(
    a: Runtime,
    h: HandleView,
    destination: Uuid,
    previous: Option<u64>,
    leadership: Leadership,
    now_ms: u64,
    e: Error,
)
    ensures
        migration_check(a, h, destination, now_ms) == Some(e) ==> {
            let b = a.ram@[h.id].handle;
            ||| e == Error::MigrationHere && destination == a.node_id
            ||| e == (Error::BlockAbsent { id: h.id }) && !a.ram@.contains_key(h.id)
            ||| e == Error::LeaseDenied && b.lease_token != h.lease_token
            ||| e == Error::LeaseExpired && b.lease_expires_ms <= now_ms
            ||| e == Error::MigrationStale && (b.generation != h.generation || b.state != BlockState::Ready)
            ||| e == Error::MigrationDestination && !a.membership@.contains_key(destination)
        },
        resolve_check(a, h.id, h.lease_token, now_ms) == Some(e) ==> {
            let b = a.residency@[h.id];
            ||| e == (Error::BlockUnknown { id: h.id }) && !a.residency@.contains_key(h.id)
            ||| e == Error::LeaseDenied && b.lease_token != h.lease_token
            ||| e == (Error::BlockLost { id: h.id, node: b.owner_node }) && b.state == BlockState::Lost
            ||| e == Error::LeaseExpired && b.lease_expires_ms <= now_ms
            ||| e == (Error::NodeUnavailable { node: b.owner_node }) && !a.membership@.contains_key(b.owner_node)
        },
        register_check(a, h, previous, leadership) == Some(e) ==> {
            ||| e == Error::LeadershipChanged && a.led() != leadership
            ||| e == Error::MigrationConflict && previous is Some
            ||| e == Error::MigrationCommit && previous is Some
        },
        a.led() == leadership && previous is Some && a.residency@.contains_key(h.id) && a.residency@[h.id].generation
            != previous->0 ==> register_check(a, h, previous, leadership) == Some(Error::MigrationConflict),
{
}

/// What is wrong with a peer.
pub proof fn law_what_is_wrong_with_a_peer(a: Runtime, node: NodeView, inventory: Seq<HandleView>)
    ensures
        node.node_id == a.node_id <==> peer_check(a, node, inventory) == Some(Error::DuplicateNode),
        node.node_id != a.node_id && !(4096 <= node.network.chunk_bytes <= 67_108_864) <==> peer_check(a, node, inventory)
            == Some(Error::PeerChunk),
        node.node_id != a.node_id && 4096 <= node.network.chunk_bytes <= 67_108_864 && inventory.len() > 100_000
            <==> peer_check(a, node, inventory) == Some(Error::PeerInventory),
{
}

/// What is wrong with an upload over UDP, with a read, and with the end of one.
pub proof fn law_what_is_wrong_with_a_transfer(
    store: Map<Uuid, BlockView>,
    p: PacketView,
    s: SessionView,
    config: ConfigView,
    active: nat,
    now_ms: u64,
    e: Error,
)
    ensures
        start_check(store, p, config, now_ms) == Err::<(), Error>(e) ==> {
            let length = be_value(p.payload.subrange(0, 8));
            let b = store[p.block_id];
            ||| e == Error::UdpStart && p.payload.len() != 40
            ||| e == Error::UdpSessionLength && (length == 0 || length > config.chunk_bytes)
            ||| e == Error::UdpPacketCount && p.sequence_id != packets(length, config.udp_payload_bytes as nat)
            ||| e == Error::UdpSessionRange && p.offset + length > p.total_size
            ||| e == (Error::BlockAbsent { id: p.block_id }) && !store.contains_key(p.block_id)
            ||| e == Error::LeaseDenied && b.handle.lease_token != p.lease_token
            ||| e == Error::LeaseExpired && b.handle.lease_expires_ms <= now_ms
            ||| e == Error::UdpWriteStale && b.handle.lease_token == p.lease_token
        },
        read_request_check(store, p, config, active, now_ms) == Err::<(), Error>(e) ==> {
            let b = store[p.block_id];
            ||| e == Error::UdpReadLength && (p.sequence_id == 0 || p.sequence_id > config.chunk_bytes)
            ||| e == (Error::BlockAbsent { id: p.block_id }) && !store.contains_key(p.block_id)
            ||| e == Error::LeaseDenied && b.handle.lease_token != p.lease_token
            ||| e == Error::LeaseExpired && b.handle.lease_expires_ms <= now_ms
            ||| e == Error::UdpReadStale && (b.handle.job_id != p.object_id || b.handle.generation != p.generation
                || b.handle.state != BlockState::Ready)
            ||| e == Error::Range && p.offset > usize::MAX
            ||| e == Error::UdpRangeOverflow && p.offset + p.sequence_id > usize::MAX
            ||| e == Error::UdpReadRange && p.offset + p.sequence_id > b.bytes.len()
            ||| e == Error::UdpReadLimit && active >= config.udp_max_sessions
        },
        finish_check(store, p, s, now_ms) == Err::<(), Error>(e) ==> {
            let b = store[p.block_id];
            ||| e == (Error::BlockAbsent { id: p.block_id }) && !store.contains_key(p.block_id)
            ||| e == Error::LeaseDenied && b.handle.lease_token != p.lease_token
            ||| e == Error::LeaseExpired && b.handle.lease_expires_ms <= now_ms
            ||| e == Error::UdpDestinationChanged && b.handle.lease_token == p.lease_token
        },
        s.data_fault(p) == Some(e) ==> {
            ||| e == Error::UdpSequence && p.sequence_id >= s.packet_count
            ||| e == Error::UdpOffset && p.offset != s.base_offset + p.sequence_id * s.payload_size
            ||| e == Error::UdpPayload && p.sequence_id * s.payload_size + p.payload.len() > s.buffer.len()
        },
{
}

/// What is wrong with a chunk that is to go out, and with a datagram.
pub proof fn law_what_is_wrong_on_the_wire(
    h: HandleView,
    offset: u64,
    length: nat,
    config: ConfigView,
    d: Seq<u8>,
    secret: Option<Seq<char>>,
    e: Error,
)
    ensures
        length == 0 <==> send_check(h, offset, length, config) == Some(Error::TransferEmpty),
        send_check(h, offset, length, config) == Some(Error::TransferTooLong) ==> length > config.chunk_bytes,
        send_check(h, offset, length, config) == Some(Error::TransferRange) ==> offset + length > h.size,
        !(166 <= d.len() <= 1400) <==> datagram_check(d, secret) == Err::<(), Error>(Error::DatagramLength),
        datagram_check(d, secret) == Err::<(), Error>(e) ==> {
            ||| e == Error::DatagramLength
            ||| e == Error::DatagramMagic && d.subrange(0, 4) != seq![84u8, 80u8, 85u8, 49u8]
            ||| e == Error::DatagramVersion && d[4] != 1
            ||| e == (Error::DatagramKind { code: d[5] }) && !(1 <= d[5] <= 10)
            ||| e == Error::DatagramPayload && d.len() != 166 + be_value(d.subrange(100, 102))
            ||| e == Error::DatagramChecksum && d.subrange(102, 134) != crate::digest::blake3_digest(
                d.subrange(166, d.len() as int),
            )
            ||| e == Error::DatagramAuth
        },
{
}

/// What is wrong with a request for data.
pub proof fn law_what_is_wrong_with_a_data_request(request: Request, chunk_bytes: usize)
    ensures
        request matches Request::WriteChunk { length, .. } ==> (path_of(request, chunk_bytes) == Err::<
            crate::runtime::data::DataPath,
            Error,
        >(Error::ChunkSize) <==> length == 0 || length > chunk_bytes),
        request matches Request::ReadChunk { length, .. } ==> (path_of(request, chunk_bytes) == Err::<
            crate::runtime::data::DataPath,
            Error,
        >(Error::ChunkSize) <==> length == 0 || length > chunk_bytes),
        request matches Request::ReadChunk { length, handle, offset, .. } ==> (path_of(request, chunk_bytes) == Err::<
            crate::runtime::data::DataPath,
            Error,
        >(Error::ReadRequestRange) <==> 0 < length <= chunk_bytes && offset + length > handle.size),
        request matches Request::Probe { bytes } ==> (path_of(request, chunk_bytes) is Err ==> path_of(request, chunk_bytes)
            == Err::<crate::runtime::data::DataPath, Error>(Error::ProbeTooLarge)),
        request is Ping ==> path_of(request, chunk_bytes) == Err::<crate::runtime::data::DataPath, Error>(Error::NotData),
{
}

/// What is wrong with a job, and with memory that is asked for it.
pub proof fn law_what_is_wrong_with_a_job(a: Runtime, job: Uuid, size: u64)
    ensures
        !a.jobs@.contains_key(job) ==> job_refusal(a, job) == Some(
            "TRAINPOOL_JOB_LOST: unknown job; leadership may have changed"@,
        ),
        a.jobs@.contains_key(job) && a.jobs@[job].plan.leader_epoch != a.led().leader_epoch ==> job_refusal(a, job) == Some(
            "TRAINPOOL_STALE_LEADER: recreate job after leadership change"@,
        ),
        a.jobs@.contains_key(job) && a.jobs@[job].plan.leader_epoch == a.led().leader_epoch ==> job_refusal(a, job)
            == a.jobs@[job].error,
        size > 0 && !a.jobs@.contains_key(job) ==> allocation_refusal(a, size, job, None) == Some("TRAINPOOL_JOB_LOST"@),
        size > 0 && a.jobs@.contains_key(job) && a.jobs@[job].error is Some ==> allocation_refusal(a, size, job, None)
            == a.jobs@[job].error,
        size > 0 && a.jobs@.contains_key(job) && a.jobs@[job].error is None && a.jobs@[job].plan.leader_epoch
            != a.led().leader_epoch ==> allocation_refusal(a, size, job, None) == Some("TRAINPOOL_STALE_LEADER"@),
{
}

/// What is wrong with an announcement.
pub proof fn law_what_is_wrong_with_an_announcement(
    a: AnnouncementView,
    payload: Seq<u8>,
    mac: Option<Seq<char>>,
    config: ConfigView,
    now_ms: u64,
)
    ensures
        a.cluster_name != config.cluster_name ==> announcement_refusal(a, payload, mac, config, now_ms) == Some(
            "different cluster"@,
        ),
        a.cluster_name == config.cluster_name && a.protocol_version != 1 ==> announcement_refusal(
            a,
            payload,
            mac,
            config,
            now_ms,
        ) == Some("TRAINPOOL_PROTOCOL_VERSION: incompatible discovery packet"@),
        a.cluster_name == config.cluster_name && a.protocol_version == 1 && (a.timestamp > now_ms + 30_000 || now_ms
            > a.timestamp + 30_000) ==> announcement_refusal(a, payload, mac, config, now_ms) == Some(
            "stale discovery packet (check clock synchronization)"@,
        ),
        a.cluster_name == config.cluster_name && a.protocol_version == 1 && a.timestamp == now_ms && config.cluster_secret
            is Some && mac is None ==> announcement_refusal(a, payload, mac, config, now_ms) == Some(
            "TRAINPOOL_AUTH_FAILED: cluster secret mismatch"@,
        ),
{
}

/// The first bound that a setting is beyond is named.
pub proof fn law_which_bound_is_named(c: ConfigView)
    ensures
        c.fault() matches Some(f) ==> {
            ||| f == ConfigFault::RamFraction
            ||| f == ConfigFault::RamReserveFraction
            ||| f == ConfigFault::ChunkBytes && !(4096 <= c.chunk_bytes <= 67_108_864)
            ||| f == ConfigFault::DataTransport && c.data_transport != "tcp"@ && c.data_transport != "udp"@
            ||| f == ConfigFault::UdpPayloadBytes && !(512 <= c.udp_payload_bytes <= 1200)
            ||| f == ConfigFault::UdpWindowPackets && !(2 <= c.udp_window_packets <= 256)
            ||| f == ConfigFault::UdpInitialRto && !(10 <= c.udp_initial_rto_ms <= 5000)
            ||| f == ConfigFault::UdpPacing && !(1 <= c.udp_pacing_micros <= 100_000)
            ||| f == ConfigFault::UdpMaxRetries && !(1 <= c.udp_max_retries <= 64)
            ||| f == ConfigFault::UdpMaxSessions && !(1 <= c.udp_max_sessions <= 4096)
            ||| f == ConfigFault::LeaseSeconds && !(10 <= c.lease_seconds <= 86_400)
            ||| f == ConfigFault::VramReserveFraction
            ||| f == ConfigFault::MulticastGroup && !(0xe000_0000 <= c.multicast_group <= 0xefff_ffff)
            ||| f == ConfigFault::ClusterName && !(1 <= encode_utf8(c.cluster_name).len() <= 128)
            ||| f == ConfigFault::DiskSpill && c.disk.enabled
            ||| f == ConfigFault::ClusterSecret && c.cluster_secret is Some && encode_utf8(c.cluster_secret->0).len() == 0
        },
{
}

/// Who is let in: one that names the cluster, and has the code of its secret or
/// none where there is none.
pub proof fn law_who_is_let_in(config: ConfigView, server: Uuid, name: Seq<char>, client: Uuid, mac: Option<Seq<char>>)
    ensures
        name != config.cluster_name ==> crate::transport::client_refusal(config, server, name, client, mac) == Some(
            "TRAINPOOL_CLUSTER_MISMATCH"@,
        ),
        name == config.cluster_name && config.cluster_secret is None ==> (crate::transport::client_refusal(
            config,
            server,
            name,
            client,
            mac,
        ) is None <==> mac is None),
        name == config.cluster_name && config.cluster_secret is Some ==> (crate::transport::client_refusal(
            config,
            server,
            name,
            client,
            mac,
        ) is None ==> mac is Some),
        config.cluster_secret is None ==> (crate::transport::server_refusal(config, server, client, mac) is None <==> mac
            is None),
{
}

/// The texts that callers look for.
pub proof fn law_texts_that_callers_look_for(bytes: u64, id: Uuid, node: Uuid, received: u32, code: u8)
    ensures
        (Error::OutOfCapacity { bytes }).text() == "TRAINPOOL_OUT_OF_CAPACITY: RAM budget cannot satisfy "@ + decimal(
            bytes as nat,
        ) + " bytes"@,
        (Error::BlockAbsent { id }).text() == "TRAINPOOL_DATA_LOST: block "@ + hyphenated(id) + " is absent on this node"@,
        (Error::BlockUnknown { id }).text() == "TRAINPOOL_DATA_LOST: block "@ + hyphenated(id) + " not found"@,
        (Error::BlockLost { id, node }).text() == "TRAINPOOL_DATA_LOST: block "@ + hyphenated(id)
            + " was stored exclusively on node "@ + hyphenated(node),
        (Error::NodeUnavailable { node }).text() == "TRAINPOOL_NODE_UNAVAILABLE: "@ + hyphenated(node),
        (Error::NoCudaNode { node }).text() == "TRAINPOOL_NO_CUDA: node "@ + hyphenated(node) + " is a memory provider only"@,
        (Error::ProtocolVersion { received }).text() == "TRAINPOOL_PROTOCOL_VERSION: expected 1, received "@ + decimal(
            received as nat,
        ),
        (Error::DatagramKind { code }).text() == "unknown UDP packet kind "@ + decimal(code as nat),
        Error::LeaseDenied.text() == "TRAINPOOL_LEASE_DENIED"@,
        Error::LeaseExpired.text() == "TRAINPOOL_LEASE_EXPIRED"@,
        Error::ChecksumMismatch.text() == "TRAINPOOL_CHECKSUM_MISMATCH"@,
        Error::Headroom.text() == "TRAINPOOL_OUT_OF_CAPACITY: allocation must leave 256 KiB relay headroom"@,
        Error::MigrationConflict.text() == "TRAINPOOL_MIGRATION_CONFLICT"@,
        Error::LeadershipChanged.text() == "TRAINPOOL_STALE_LEADER: membership/epoch changed"@,
        Error::NoCuda.text() == "TRAINPOOL_NO_CUDA: no eligible primary GPU"@,
        Error::AuthFailed.text() == "TRAINPOOL_AUTH_FAILED"@,
        Error::TransferAborted.text() == "TRAINPOOL_TRANSFER_ABORTED"@,
        Error::StartTimeout.text() == "TRAINPOOL_TRANSFER_TIMEOUT: UDP START"@,
        Error::RetryTimeout.text() == "TRAINPOOL_TRANSFER_TIMEOUT: bounded UDP retry exhausted"@,
        Error::FinTimeout.text() == "TRAINPOOL_TRANSFER_TIMEOUT: UDP FIN acknowledgement"@,
        Error::UdpReadLimit.text() == "TRAINPOOL_UDP_BACKPRESSURE: receiver read-session limit"@,
        Error::UdpSessionLimit.text() == "TRAINPOOL_UDP_BACKPRESSURE: receiver session limit"@,
        Error::PeerUnavailable.text() == "TRAINPOOL_NODE_UNAVAILABLE"@,
{
}

} // verus!
