//! Nodes that hear of one another.
use crate::address::{IpAddress, SocketAddress};
use crate::cluster::discovery::{advertised, announcement_of, announcement_refusal, Advertised, AnnouncementView};
use crate::cluster::election::leader_of;
use crate::config::ConfigView;
use crate::double::Double;
use crate::error::Error;
use crate::ids::Uuid;
use crate::laws::election::law_silent_peers_are_gone;
use crate::memory::block::HandleView;
use crate::memory::local_ram::listed;
use crate::node::capabilities::{detected, Found, NodeView};
use crate::node::gpu::GpuView;
use crate::protocol::request::Request;
use crate::runtime::monitor::{accepted, felt, merged, own_prefix, parted};
use crate::runtime::{MemorySample, Runtime};
use crate::scheduler::topology::{links_apart, with_sample, LinkEstimate};
use crate::transport::code_check;
use vstd::prelude::*;

verus! {

proof fn lemma_own_prefix(handles: Seq<HandleView>, node: NodeView)
    ensures
        0 <= own_prefix(handles, node) <= handles.len(),
        own_prefix(handles, node) == handles.len() <==> forall|i: int|
            0 <= i < handles.len() ==> (#[trigger] handles[i]).owner_node == node.node_id && handles[i].owner_incarnation
                == node.incarnation,
    decreases handles.len(),
{
    if handles.len() > 0 {
        let rest = handles.skip(1);
        lemma_own_prefix(rest, node);
        if forall|i: int|
            0 <= i < handles.len() ==> (#[trigger] handles[i]).owner_node == node.node_id && handles[i].owner_incarnation
                == node.incarnation {
            assert(handles[0].owner_node == node.node_id);
            assert forall|i: int| 0 <= i < rest.len() implies (#[trigger] rest[i]).owner_node == node.node_id
                && rest[i].owner_incarnation == node.incarnation by {
                assert(rest[i] == handles[i + 1]);
            }
        }
        if own_prefix(handles, node) == handles.len() {
            assert forall|i: int| 0 <= i < handles.len() implies (#[trigger] handles[i]).owner_node == node.node_id
                && handles[i].owner_incarnation == node.incarnation by {
                if i > 0 {
                    assert(handles[i] == rest[i - 1]);
                }
            }
        }
    }
}

/// A peer is taken in where it is another node, its chunks are of a size that
/// all can handle, and it lists no more than 100,000 blocks, each of its own.
pub proof fn law_which_peers_are_taken_in(
    a: Runtime,
    z: Runtime,
    node: NodeView,
    inventory: Seq<HandleView>,
    token: Uuid,
    now_ns: u64,
    r: Result<(), Error>,
)
    requires
        accepted(a, z, node, inventory, token, now_ns, r),
    ensures
        r is Ok <==> {
            &&& node.node_id != a.node_id
            &&& 4096 <= node.network.chunk_bytes <= 64 * 1024 * 1024
            &&& inventory.len() <= 100_000
            &&& forall|i: int|
                0 <= i < inventory.len() ==> (#[trigger] inventory[i]).owner_node == node.node_id
                    && inventory[i].owner_incarnation == node.incarnation
        },
        r is Err ==> z.membership == a.membership && z.ram == a.ram,
{
    lemma_own_prefix(inventory, node);
}

/// A peer that was taken in is known as it described itself, as heard of now;
/// the other peers are as they were.
pub proof fn law_peer_is_known_as_it_is(
    a: Runtime,
    z: Runtime,
    node: NodeView,
    inventory: Seq<HandleView>,
    token: Uuid,
    now_ns: u64,
    r: Result<(), Error>,
    other: Uuid,
)
    requires
        accepted(a, z, node, inventory, token, now_ns, r),
        r is Ok,
        other != a.node_id,
        other != node.node_id,
    ensures
        z.membership@.contains_key(node.node_id),
        z.membership@[node.node_id].capabilities == node,
        z.membership@[node.node_id].last_seen == now_ns,
        z.membership@.contains_key(other) <==> a.membership@.contains_key(other),
        a.membership@.contains_key(other) ==> z.membership@[other] == a.membership@[other],
        !(a.membership@.contains_key(node.node_id) && a.membership@[node.node_id].capabilities.incarnation
            != node.incarnation) ==> z.jobs@ == a.jobs@,
        !(a.membership@.contains_key(node.node_id) && a.membership@[node.node_id].capabilities.incarnation
            != node.incarnation) && inventory.len() == 0 ==> z.residency@ == a.residency@,
        z.ram == a.ram,
        z.staging == a.staging,
        z.metrics == a.metrics,
{
}

/// Becoming the leader gives a node a new generation; otherwise it keeps what it
/// has.
pub proof fn law_generation_changes_with_leadership(
    a: Runtime,
    z: Runtime,
    node: NodeView,
    inventory: Seq<HandleView>,
    token: Uuid,
    now_ns: u64,
    r: Result<(), Error>,
)
    requires
        accepted(a, z, node, inventory, token, now_ns, r),
        r is Ok,
        a.wf(),
    ensures
        z.me().leader_generation == token || z.me().leader_generation == a.me().leader_generation,
        leader_of(a.membership.all()).leader_id == Some(a.node_id) ==> z.me() == a.me(),
        z.me() == (NodeView { leader_generation: z.me().leader_generation, ..a.me() }),
{
}

/// A node that owns more than its budget tells the leader so: what it owns is
/// the budget and the excess. It tells nothing else, and nothing where it is
/// within its budget.
pub proof fn law_pressure_is_told(a: Runtime, z: Runtime, r: Option<Request>)
    requires
        felt(a, z, r),
    ensures
        r is Some <==> a.me().memory.trainpool_ram_used > a.me().memory.trainpool_ram_budget,
        r matches Some(q) ==> (q matches Request::MemoryPressure { node_id, currently_owned, new_budget, excess_bytes } && {
            &&& node_id == a.node_id
            &&& currently_owned == a.me().memory.trainpool_ram_used
            &&& new_budget == a.me().memory.trainpool_ram_budget
            &&& currently_owned == new_budget + excess_bytes
        }),
        r is None ==> z == a,
        z.ram == a.ram && z.membership == a.membership && z.jobs == a.jobs,
{
}

/// Pressure counts once for every job that has a block here that shows, and for
/// no other.
pub proof fn law_pressure_is_counted_once(a: Runtime, z: Runtime, r: Option<Request>, job: Uuid)
    requires
        felt(a, z, r),
        r is Some,
        a.metrics@.contains_key(job),
        a.metrics@[job].ram_pressure_events < u64::MAX,
    ensures
        ({
            let here = listed(a.ram.blocks.keys(), a.ram@);
            let shown = exists|i: int| 0 <= i < here.len() && (#[trigger] here[i]).job_id == job;
            &&& shown ==> z.metrics@.contains_key(job) && z.metrics@[job].ram_pressure_events
                == a.metrics@[job].ram_pressure_events + 1
            &&& !shown ==> z.metrics@.contains_key(job) && z.metrics@[job] == a.metrics@[job]
        }),
{
    let here = listed(a.ram.blocks.keys(), a.ram@);
    assert(crate::runtime::monitor::concerns(here, job) <==> exists|i: int|
        0 <= i < here.len() && (#[trigger] here[i]).job_id == job);
    assert(z.metrics@.contains_key(job) || !z.metrics@.contains_key(job));
}

/// A card that is found again shows what was found, but for what TrainPool has
/// on it; one that is not found stays as it was.
pub proof fn law_cards_are_found_again(known: GpuView, found: Seq<GpuView>, i: int)
    ensures
        merged(known, found).uuid == known.uuid,
        merged(known, found).trainpool_allocated_vram == known.trainpool_allocated_vram,
        (forall|k: int| 0 <= k < found.len() ==> (#[trigger] found[k]).uuid != known.uuid) ==> merged(known, found) == known,
        0 <= i < found.len() && found[i].uuid == known.uuid && (forall|k: int|
            0 <= k < i ==> (#[trigger] found[k]).uuid != known.uuid) ==> merged(known, found) == (GpuView {
            trainpool_allocated_vram: known.trainpool_allocated_vram,
            ..found[i]
        }),
    decreases found.len(),
{
    if found.len() > 0 {
        let rest = found.skip(1);
        if found[0].uuid != known.uuid {
            law_cards_are_found_again(known, rest, i - 1);
            if forall|k: int| 0 <= k < found.len() ==> (#[trigger] found[k]).uuid != known.uuid {
                assert forall|k: int| 0 <= k < rest.len() implies (#[trigger] rest[k]).uuid != known.uuid by {
                    assert(rest[k] == found[k + 1]);
                }
            }
            if 0 < i < found.len() && found[i].uuid == known.uuid && (forall|k: int|
                0 <= k < i ==> (#[trigger] found[k]).uuid != known.uuid) {
                assert(rest[i - 1] == found[i]);
                assert forall|k: int| 0 <= k < i - 1 implies (#[trigger] rest[k]).uuid != known.uuid by {
                    assert(rest[k] == found[k + 1]);
                }
            }
        } else if 0 < i < found.len() && (forall|k: int| 0 <= k < i ==> (#[trigger] found[k]).uuid != known.uuid) {
            assert(found[0].uuid != known.uuid);
        }
    }
}

/// The addresses that a node turns to are its seeds and those of its peers, in
/// order, each once, and no more than 64 of them: the first ones.
pub proof fn law_whom_a_node_turns_to(a: Runtime, r: Vec<SocketAddress>, x: SocketAddress, i: int, j: int)
    requires
        call_ensures(Runtime::contacts, (&a,), r),
    ensures
        r@.len() <= 64,
        r@.contains(x) ==> a.config@.seeds.contains(x) || exists|k: Uuid| #[trigger]
            a.membership@.contains_key(k) && k != a.node_id && a.membership@[k].capabilities.network.control_address == x,
        a.config@.seeds.contains(x) && r@.len() < 64 ==> r@.contains(x),
        0 <= i < j < r@.len() ==> r@[i] != r@[j],
{
    if a.config@.seeds.contains(x) {
        assert(crate::runtime::monitor::contact(a, x));
    }
    if r@.contains(x) {
        assert(crate::runtime::monitor::contact(a, x));
    }
    if 0 <= i < j < r@.len() {
        assert(r@[i].before(r@[j]));
    }
}

/// An announcement counts where it is of the same cluster and version, no more
/// than half a minute off, carries the right code, and names an address that can
/// be reached.
pub proof fn law_which_announcements_count(
    a: AnnouncementView,
    payload: Seq<u8>,
    mac: Option<Seq<char>>,
    config: ConfigView,
    now_ms: u64,
)
    ensures
        announcement_refusal(a, payload, mac, config, now_ms) is None <==> {
            &&& a.cluster_name == config.cluster_name
            &&& a.protocol_version == 1
            &&& a.timestamp <= now_ms + 30_000
            &&& now_ms <= a.timestamp + 30_000
            &&& code_check(config.cluster_secret, payload, mac) is None
            &&& a.control_address != (IpAddress::V4 { ip: 0 })
            &&& a.control_address != (IpAddress::V6 { ip: 0 })
            &&& a.control_port != 0
        },
{
}

/// A node announces itself as it is: where it listens, and all its physical
/// memory as its weight.
pub proof fn law_what_a_node_announces(node: NodeView, config: ConfigView, version: Seq<char>, now_ms: u64)
    ensures
        ({
            let a = announcement_of(node, config, version, now_ms);
            &&& a.protocol_version == 1
            &&& a.trainpool_version == version
            &&& a.cluster_name == config.cluster_name
            &&& a.node_id == node.node_id
            &&& a.hostname == node.hostname
            &&& a.os == node.os
            &&& a.architecture == node.architecture
            &&& a.timestamp == now_ms
            &&& node.network.control_address matches SocketAddress::V4 { ip, port } ==> a.control_address
                == (IpAddress::V4 { ip }) && a.control_port == port
            &&& node.network.control_address matches SocketAddress::V6 { ip, port, .. } ==> a.control_address
                == (IpAddress::V6 { ip }) && a.control_port == port
            &&& node.gpus.len() == 0 ==> a.leader_election_score == node.memory.physical_ram_total
        }),
{
}

/// The address that others are told: the one that was set, with the port that is
/// listened on; else the one that is listened on; and where that is none in
/// particular, the one on the way to the first seed or to the group.
pub proof fn law_address_that_others_are_told(config: ConfigView)
    ensures
        ({
            let port = match config.listen {
                SocketAddress::V4 { ip, port } => port,
                SocketAddress::V6 { ip, port, .. } => port,
            };
            let open = match config.listen {
                SocketAddress::V4 { ip, port } => ip == 0,
                SocketAddress::V6 { ip, port, .. } => ip == 0,
            };
            &&& config.advertise_ip matches Some(ip) ==> advertised(config) == (Advertised::Known {
                address: SocketAddress::V4 { ip, port },
            })
            &&& config.advertise_ip is None && !open ==> advertised(config) == (Advertised::Known { address: config.listen })
            &&& config.advertise_ip is None && open ==> (advertised(config) matches Advertised::Towards { route, port: p } && p
                == port && (config.seeds.len() > 0 ==> route == config.seeds[0]) && (config.seeds.len() == 0 ==> route
                == (SocketAddress::V4 { ip: config.multicast_group, port: config.discovery_port })))
        }),
{
}

/// What a node says of itself at its start: nothing of its RAM is used, no
/// transfer is under way, it gives RAM, and it computes where it has a card.
pub proof fn law_what_a_node_is_at_its_start(
    id: Uuid,
    address: SocketAddress,
    config: ConfigView,
    found: Found,
    incarnation: Uuid,
    generation: Uuid,
    sample: MemorySample,
)
    ensures
        ({
            let n = detected(id, address, config, found, incarnation, generation, sample);
            &&& n.node_id == id
            &&& n.incarnation == incarnation
            &&& n.leader_generation == generation
            &&& n.network.control_address == address
            &&& n.network.data_address == Some(address)
            &&& n.network.data_transport == config.data_transport
            &&& n.network.chunk_bytes == config.chunk_bytes
            &&& n.network.active_transfers == 0
            &&& n.memory.physical_ram_total == found.total_ram
            &&& n.memory.trainpool_ram_used == 0
            &&& n.memory.trainpool_ram_available == n.memory.trainpool_ram_budget
            &&& n.gpus.len() == found.gpus@.len()
            &&& forall|i: int| 0 <= i < n.gpus.len() ==> #[trigger] n.gpus[i] == found.gpus@[i]@
            &&& n.runtime.gpu_compute <==> found.gpus@.len() > 0
            &&& n.runtime.ram_provider
            &&& !n.runtime.disk_spill
            &&& n.runtime.version == found.version@
            &&& n.cpu.logical_cores == found.logical_cores
            &&& n.cpu.architecture == n.architecture && n.architecture == found.architecture@
            &&& found.hostname matches Some(name) ==> n.hostname == name@
            &&& n.os == found.os@
        }),
{
}

/// A sample of a link becomes known, and no other link changes. The first one of
/// a link is taken as it is; of a later one the time and the end of the link are
/// taken, and the smoothed latency; a rate that was not measured stays.
pub proof fn law_samples_of_links(links: Seq<LinkEstimate>, s: LinkEstimate, latency: Double, rate: Double, i: int)
    requires
        links_apart(links),
        0 <= i < links.len(),
    ensures
        ({
            let z = with_sample(links, s, latency, rate);
            let same = links[i].source == s.source && links[i].destination == s.destination;
            &&& !same ==> z[i] == links[i]
            &&& same ==> {
                &&& z.len() == links.len()
                &&& z[i].source == s.source && z[i].destination == s.destination
                &&& z[i].latency_ms == latency
                &&& s.bytes_per_second is None ==> z[i].bytes_per_second == links[i].bytes_per_second
                &&& s.bytes_per_second is Some && links[i].bytes_per_second is None ==> z[i].bytes_per_second
                    == s.bytes_per_second
                &&& s.bytes_per_second is Some && links[i].bytes_per_second is Some ==> z[i].bytes_per_second == Some(rate)
            }
            &&& (forall|k: int|
                0 <= k < links.len() ==> !((#[trigger] links[k]).source == s.source && links[k].destination
                    == s.destination)) ==> z == links.push(s)
        }),
{
    lemma_link_at(links, s.source, s.destination);
    let at = crate::scheduler::topology::link_at(links, s.source, s.destination);
    let same = links[i].source == s.source && links[i].destination == s.destination;
    if same {
        assert(at <= i);
        if at < i {
            assert(!crate::scheduler::topology::joins(links[at], links[i].source, links[i].destination));
        }
    }
}

proof fn lemma_link_at(links: Seq<LinkEstimate>, source: Uuid, destination: Uuid)
    ensures
        ({
            let at = crate::scheduler::topology::link_at(links, source, destination);
            &&& 0 <= at <= links.len()
            &&& at < links.len() ==> links[at].source == source && links[at].destination == destination
            &&& forall|k: int|
                0 <= k < at ==> !((#[trigger] links[k]).source == source && links[k].destination == destination)
        }),
    decreases links.len(),
{
    if links.len() > 0 && !(links[0].source == source && links[0].destination == destination) {
        let rest = links.skip(1);
        lemma_link_at(rest, source, destination);
        let at = crate::scheduler::topology::link_at(links, source, destination);
        assert forall|k: int| 0 <= k < at implies !((#[trigger] links[k]).source == source && links[k].destination
            == destination) by {
            if k > 0 {
                assert(links[k] == rest[k - 1]);
            }
        }
    }
}

/// A peer that was silent for more than seven seconds is dropped; this node and
/// every other peer stay as they were, but for this node's generation.
pub proof fn law_silent_peers_are_dropped(a: Runtime, z: Runtime, token: Uuid, now_ns: u64, r: Seq<Uuid>, k: Uuid)
    requires
        parted(a, z, token, now_ns, r),
        a.wf(),
        k != a.node_id,
    ensures
        z.membership@.contains_key(k) <==> a.membership@.contains_key(k) && now_ns <= a.membership@[k].last_seen
            + 7_000_000_000,
        z.membership@.contains_key(k) ==> z.membership@[k] == a.membership@[k],
        z.ram == a.ram && z.staging == a.staging && z.metrics == a.metrics,
        r.len() == 0 ==> z.jobs@ == a.jobs@ && z.residency@ == a.residency@,
        r.contains(k) ==> now_ns > a.membership@[k].last_seen + 7_000_000_000,
{
    law_silent_peers_are_gone(a.membership.peers.keys(), a.membership@, a.node_id, now_ns, k);
}

/// What a node sees of its own RAM: the budget that is within all its bounds,
/// and what it owns; no block changes with it.
pub proof fn law_node_sees_its_budget(a: Runtime, z: Runtime, sample: MemorySample)
    requires
        a.looked(z, sample),
    ensures
        ({
            let m = z.me().memory;
            &&& m.physical_ram_total == a.me().memory.physical_ram_total
            &&& m.os_available_ram == sample.available
            &&& m.trainpool_ram_used == a.ram.accounting.owned
            &&& z.ram.accounting.budget == m.trainpool_ram_budget
            &&& z.ram.accounting.owned == a.ram.accounting.owned
            &&& m.trainpool_ram_budget <= sample.ceiling
            &&& a.config.ram_limit_bytes matches Some(l) ==> m.trainpool_ram_budget <= l
            &&& m.trainpool_ram_budget + a.config.ram_reserve_bytes <= m.physical_ram_total || m.trainpool_ram_budget == 0
            &&& m.trainpool_ram_used <= m.trainpool_ram_budget ==> m.trainpool_ram_available == m.trainpool_ram_budget
                - m.trainpool_ram_used
            &&& m.trainpool_ram_used > m.trainpool_ram_budget ==> m.trainpool_ram_available == 0
            &&& z.me().network.active_transfers == a.active_transfers
            &&& z.ram@ == a.ram@
            &&& z.me().gpus == a.me().gpus
        }),
{
}

} // verus!
