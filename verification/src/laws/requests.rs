//! What nodes are asked, what they count, and what they show.
use crate::address::SocketAddress;
use crate::config::ConfigView;
use crate::double::Double;
use crate::error::Error;
use crate::ids::Uuid;
use crate::jobs::{compute_lost, failed, without_node, JobView};
use crate::memory::allocator::{account_of, risen, with_less, with_more, JobRamAccounting, Reservation};
use crate::memory::block::{tensor_check, BlockState, HandleView, MemoryBlockHandle, TensorView};
use crate::memory::local_ram::{accounts_without, bytes_of, lapsed_ids, pinned_of, unpinned, BlockView, LocalRam, Pin};
use crate::metrics::{job_of, less_one, plus, with_rates, with_stats, JobMetrics};
use crate::node::capabilities::NodeView;
use crate::node::gpu::GpuView;
use crate::protocol::memory::LogicalTrainingMemory;
use crate::protocol::request::{for_data, for_leader, Request};
use crate::protocol::Response;
use crate::runtime::control::{
    allocation_refusal, asked_handle, counted, job_refusal, planned, replied, sdk_reported, searched, tensor_view, with_residency,
    with_sdk, Allocation, Candidate, ControlStep,
};
use crate::runtime::data::{passed_through, relay_begun, relay_to, with_connection, with_network, Relay};
use crate::runtime::datagram::{one_more, outcome_of, packet_taken, Outcome};
use crate::runtime::dispatch::{all_pairs, answered, from_node, Moment};
use crate::runtime::monitor::{overdue_ids, staged_bytes, unstaged};
use crate::runtime::relief::{
    eased, is_queue, movable, others, relief_begun, tally, Fate, Relief, ReliefEvent, ReliefStep, Wait,
};
use crate::runtime::status::{latest, remote_used, with_local, with_report};
use crate::runtime::udp::{Counted, UdpAction};
use crate::runtime::{MemorySample, Runtime, Staged};
use crate::scheduler::planner::{plan_refusal, StageSpecView, TrainingPlan};
use crate::transport::udp::{is_datagram, Kind, PacketView, TransferStats};
use vstd::prelude::*;
use vstd::utf8::encode_utf8;

verus! {

/// Additions begin again at zero beyond 64 bits, and are exact before that.
pub proof fn law_sums(a: u64, b: u64)
    ensures
        a + b <= u64::MAX ==> plus(a, b) == a + b,
        a + b > u64::MAX ==> plus(a, b) == a + b - 0x1_0000_0000_0000_0000,
        a > 0 ==> less_one(a) == a - 1,
        less_one(0) == 0,
{
}

/// Requests that only the leader answers.
pub proof fn law_requests_for_the_leader(r: Request)
    ensures
        for_leader(r) <==> r is Plan || r is JobStatus || r is Allocate || r is Resolve || r is Register
            || r is MemoryPressure || r is Benchmark || r is Topology,
        for_data(r) <==> r is WriteChunk || r is ReadChunk || r is Probe,
{
}

/// What another node is asked goes to the leader unchanged, and changes nothing
/// here.
pub proof fn law_leader_is_asked_the_same(
    a: Runtime,
    z: Runtime,
    request: Request,
    now: Moment,
    costs: Seq<Double>,
    r: Result<ControlStep, Error>,
)
    requires
        answered(a, z, request, now, costs, r),
        request is Plan || request is JobStatus || request is Allocate || request is Resolve || request is Register
            || request is MemoryPressure || request is Benchmark || request is Topology,
        a.led().leader_id != Some(a.node_id),
    ensures
        z == a,
        r matches Ok(ControlStep::Forward { request: passed_on }) && passed_on == request,
{
}

/// Benchmarks of up to 64 MiB are run, of no more; and none from a node to
/// itself.
pub proof fn law_which_benchmarks_are_run(
    a: Runtime,
    z: Runtime,
    request: Request,
    now: Moment,
    costs: Seq<Double>,
    r: Result<ControlStep, Error>,
)
    requires
        answered(a, z, request, now, costs, r),
        a.led().leader_id == Some(a.node_id),
    ensures
        request matches Request::Benchmark { bytes } ==> (r is Ok <==> bytes <= 64 * 1024 * 1024) && z == a,
        request matches Request::Measure { destination, bytes } ==> z == a && (r is Ok <==> {
            &&& bytes <= 64 * 1024 * 1024
            &&& destination != a.node_id
            &&& a.membership@.contains_key(destination)
        }),
        request matches Request::Measure { destination, bytes } ==> (r matches Ok(step) ==> (step matches ControlStep::Measure {
            address,
            destination: d,
            bytes: n,
        } && d == destination && n == bytes && address
            == a.membership@[destination].capabilities.network.control_address)),
{
}

/// A job is shown by the leader that planned it, while nothing went wrong.
pub proof fn law_which_jobs_are_shown(a: Runtime, job: Uuid)
    ensures
        job_refusal(a, job) is None <==> {
            &&& a.jobs@.contains_key(job)
            &&& a.jobs@[job].plan.leader_epoch == a.led().leader_epoch
            &&& a.jobs@[job].error is None
        },
{
}

/// Memory is looked for where the job is known, is of this leader and has not
/// failed, the size is not zero, and a tensor says its size truly.
pub proof fn law_what_memory_is_looked_for(a: Runtime, size: u64, job: Uuid, tensor: Option<TensorView>)
    ensures
        allocation_refusal(a, size, job, tensor) is None <==> {
            &&& size > 0
            &&& tensor matches Some(t) ==> tensor_check(t, size) is Ok
            &&& a.jobs@.contains_key(job)
            &&& a.jobs@[job].error is None
            &&& a.jobs@[job].plan.leader_epoch == a.led().leader_epoch
        },
{
}

/// A plan has no more than 4096 stages. Its job is known from then on, without a
/// fault, and every other job stays as it was.
pub proof fn law_planned_job_is_known(
    a: Runtime,
    z: Runtime,
    stages: Seq<StageSpecView>,
    job: Uuid,
    r: Result<TrainingPlan, Error>,
    other: Uuid,
)
    requires
        planned(a, z, stages, job, r),
    ensures
        r is Ok <==> stages.len() <= 4096 && plan_refusal(a.membership.all(), a.led(), stages) is None,
        r is Err ==> z == a,
        r matches Ok(p) ==> {
            &&& z.jobs@.contains_key(job)
            &&& z.jobs@[job].plan == p@
            &&& z.jobs@[job].error is None
            &&& other != job ==> (z.jobs@.contains_key(other) <==> a.jobs@.contains_key(other))
            &&& other != job && a.jobs@.contains_key(other) ==> z.jobs@[other] == a.jobs@[other]
            &&& z.ram == a.ram && z.residency == a.residency
        },
{
}

/// What a candidate is asked for is a new block of the job, of the size, that is
/// to be its own.
pub proof fn law_what_a_candidate_is_asked(al: Allocation, c: Candidate, id: Uuid, token: Uuid, expires_ms: u64)
    ensures
        ({
            let h = asked_handle(al, c, id, token, expires_ms);
            &&& h.id == id
            &&& h.job_id == al.job_id
            &&& h.size == al.size
            &&& h.owner_node == c.node_id
            &&& h.owner_incarnation == c.incarnation
            &&& h.lease_token == token
            &&& h.lease_expires_ms == expires_ms
            &&& h.generation == 0
            &&& h.state == BlockState::Writing
            &&& h.checksum is None
        }),
{
}

/// A candidate that refuses is followed by the next; one that does not has made
/// the block, which is then known.
pub proof fn law_refusal_leads_to_the_next(
    a: Runtime,
    z: Runtime,
    before: Allocation,
    after: Allocation,
    h: HandleView,
    refusal: Option<String>,
    r: Option<MemoryBlockHandle>,
)
    requires
        replied(a, z, before, after, h, refusal, r),
        before.next < usize::MAX,
    ensures
        r is Some <==> refusal is None,
        r matches Some(made) ==> made@ == h && z.residency@.contains_key(h.id) && after == before,
        r is None ==> after.next == before.next + 1 && Some(after.last_error) == refusal && z == a,
        after.candidates == before.candidates && after.size == before.size && after.job_id == before.job_id,
{
}

/// What a training process reports adds to what it reported before; its present
/// residency replaces the last, and its peak is the larger one.
pub proof fn law_reports_of_training_add_up(j: JobMetrics, m: JobMetrics, waited: Double)
    requires
        j.bytes_local_ram_to_gpu + m.bytes_local_ram_to_gpu <= u64::MAX,
        j.bytes_gpu_to_local_ram + m.bytes_gpu_to_local_ram <= u64::MAX,
        j.prefetch_hits + m.prefetch_hits <= u64::MAX,
        j.prefetch_misses + m.prefetch_misses <= u64::MAX,
    ensures
        ({
            let k = with_sdk(j, m, waited);
            &&& k.bytes_local_ram_to_gpu == j.bytes_local_ram_to_gpu + m.bytes_local_ram_to_gpu
            &&& k.bytes_gpu_to_local_ram == j.bytes_gpu_to_local_ram + m.bytes_gpu_to_local_ram
            &&& k.prefetch_hits == j.prefetch_hits + m.prefetch_hits
            &&& k.prefetch_misses == j.prefetch_misses + m.prefetch_misses
            &&& k.gpu_wait_for_data_ms == waited
            &&& k.current_gpu_residency == m.current_gpu_residency
            &&& k.peak_gpu_residency >= j.peak_gpu_residency && k.peak_gpu_residency >= m.peak_gpu_residency
            &&& k.peak_gpu_residency == j.peak_gpu_residency || k.peak_gpu_residency == m.peak_gpu_residency
            &&& k.gpu_id == m.gpu_id
            &&& k.network_bytes == j.network_bytes && k.failed_transfers == j.failed_transfers
        }),
{
}

/// What TrainPool has on a card is noted on the first card of that name, and on
/// no other.
pub proof fn law_residency_is_noted(gpus: Seq<GpuView>, id: Seq<char>, bytes: u64, i: int)
    requires
        0 <= i < gpus.len(),
    ensures
        with_residency(gpus, id, bytes).len() == gpus.len(),
        gpus[i].uuid != id ==> with_residency(gpus, id, bytes)[i] == gpus[i],
        gpus[i].uuid == id && (forall|k: int| 0 <= k < i ==> (#[trigger] gpus[k]).uuid != id) ==> with_residency(
            gpus,
            id,
            bytes,
        )[i] == (GpuView { trainpool_allocated_vram: bytes, ..gpus[i] }),
        (exists|k: int| 0 <= k < i && (#[trigger] gpus[k]).uuid == id) ==> with_residency(gpus, id, bytes)[i] == gpus[i],
    decreases gpus.len(),
{
    if gpus[0].uuid != id {
        let rest = gpus.skip(1);
        if i > 0 {
            law_residency_is_noted(rest, id, bytes, i - 1);
            assert(rest[i - 1] == gpus[i]);
            if forall|k: int| 0 <= k < i ==> (#[trigger] gpus[k]).uuid != id {
                assert forall|k: int| 0 <= k < i - 1 implies (#[trigger] rest[k]).uuid != id by {
                    assert(rest[k] == gpus[k + 1]);
                }
            }
            if exists|k: int| 0 <= k < i && (#[trigger] gpus[k]).uuid == id {
                let k = choose|k: int| 0 <= k < i && (#[trigger] gpus[k]).uuid == id;
                assert(rest[k - 1] == gpus[k]);
            }
        } else if rest.len() > 0 {
            law_residency_is_noted(rest, id, bytes, 0);
        }
    }
}

/// The figures of a job show what it has of this node's RAM, and the most that
/// it had.
pub proof fn law_figures_show_the_accounts(a: Runtime, z: Runtime, job: Uuid)
    requires
        counted(a, z),
    ensures
        a.ram.accounting.jobs@.contains_key(job) ==> {
            &&& z.metrics@.contains_key(job)
            &&& z.metrics@[job].current_ram_residency == a.ram.accounting.jobs@[job].owned
            &&& z.metrics@[job].peak_ram_residency == a.ram.accounting.jobs@[job].peak
        },
        !a.ram.accounting.jobs@.contains_key(job) && a.metrics@.contains_key(job) ==> z.metrics@.contains_key(job)
            && z.metrics@[job] == a.metrics@[job],
        z.ram == a.ram,
{
    assert(z.metrics@.contains_key(job) || !z.metrics@.contains_key(job));
}

/// A job owns what it reserved and did not give back, and its peak is the most
/// that it ever owned.
pub proof fn law_accounts_of_a_job(jobs: Map<Uuid, JobRamAccounting>, job: Uuid, bytes: u64, other: Uuid)
    requires
        account_of(jobs, job).owned + bytes <= u64::MAX,
        other != job,
    ensures
        !jobs.contains_key(job) ==> account_of(jobs, job).owned == 0 && account_of(jobs, job).peak == 0,
        ({
            let before = account_of(jobs, job);
            let more = with_more(jobs, job, bytes);
            let back = with_less(more, job, bytes);
            &&& more[job].owned == before.owned + bytes
            &&& more[job].peak >= before.peak && more[job].peak >= more[job].owned
            &&& more[job].peak == before.peak || more[job].peak == more[job].owned
            &&& back[job].owned == before.owned
            &&& back[job].peak == more[job].peak
            &&& more.contains_key(other) == jobs.contains_key(other)
            &&& jobs.contains_key(other) ==> more[other] == jobs[other] && back[other] == jobs[other]
        }),
{
}

/// The peak of a node is the most that was ever owned.
pub proof fn law_peaks(peak: u64, owned: u64)
    ensures
        risen(peak, owned as int) >= peak,
        risen(peak, owned as int) >= owned,
        risen(peak, owned as int) == peak || risen(peak, owned as int) == owned,
{
}

/// A relay has its bytes reserved where the budget has room for them, and else
/// does not begin.
pub proof fn law_relays_are_paid_for(a: Runtime, z: Runtime, length: usize, r: Result<Reservation, Error>)
    requires
        relay_begun(a, z, length, r),
    ensures
        r is Ok <==> a.ram.accounting.owned + length <= a.ram.accounting.budget,
        r is Ok ==> z.ram.accounting.owned == a.ram.accounting.owned + length && z.ram@ == a.ram@,
        r is Ok ==> z.ram.accounting.peak >= a.ram.accounting.peak && z.ram.accounting.peak >= z.ram.accounting.owned,
        r is Ok ==> z.ram.accounting.peak == a.ram.accounting.peak || z.ram.accounting.peak == z.ram.accounting.owned,
        r matches Ok(held) ==> held.entry().bytes == length && z.ram.accounting.budget == a.ram.accounting.budget,
        r is Err ==> z == a,
{
}

/// Bytes go over UDP where both nodes use it, to the address that the owner has
/// for data; else over TCP.
pub proof fn law_which_way_bytes_go(a: Runtime, owner: Uuid)
    ensures
        relay_to(a, owner) is Some <==> a.membership@.contains_key(owner),
        relay_to(a, owner) matches Some(way) ==> {
            let n = a.membership@[owner].capabilities.network;
            &&& way is Udp <==> a.config@.data_transport == "udp"@ && n.data_transport == "udp"@
            &&& !(way is Here)
            &&& way matches Relay::Udp { address } ==> (n.data_address matches Some(d) ==> address == d) && (
            n.data_address is None ==> address == n.control_address)
            &&& way matches Relay::Tcp { address } ==> address == n.control_address
        },
{
}

/// What goes through a node for a job is counted by its direction, and as
/// network traffic; so are connections by whether they are new.
pub proof fn law_traffic_is_counted(m: Map<Uuid, JobMetrics>, job: Uuid, length: usize, outward: bool, waited: Double, reused: bool)
    requires
        m.contains_key(job),
        m[job].network_bytes + length <= u64::MAX,
        m[job].bytes_local_to_remote_ram + length <= u64::MAX,
        m[job].local_to_remote_bytes + length <= u64::MAX,
        m[job].bytes_remote_ram_to_local + length <= u64::MAX,
        m[job].remote_to_local_bytes + length <= u64::MAX,
        m[job].tcp_connections_opened < u64::MAX,
        m[job].tcp_connections_reused < u64::MAX,
        m[job].udp_datagrams_received < u64::MAX,
    ensures
        ({
            let j = m[job];
            let k = passed_through(m, job, length, outward, waited)[job];
            &&& k.network_bytes == j.network_bytes + length
            &&& k.network_wait_ms == waited
            &&& outward ==> k.bytes_local_to_remote_ram == j.bytes_local_to_remote_ram + length && k.local_to_remote_bytes
                == j.local_to_remote_bytes + length && k.bytes_remote_ram_to_local == j.bytes_remote_ram_to_local
                && k.remote_to_local_bytes == j.remote_to_local_bytes
            &&& !outward ==> k.bytes_remote_ram_to_local == j.bytes_remote_ram_to_local + length && k.remote_to_local_bytes
                == j.remote_to_local_bytes + length && k.bytes_local_to_remote_ram == j.bytes_local_to_remote_ram
                && k.local_to_remote_bytes == j.local_to_remote_bytes
            &&& with_network(m, job, length as u64)[job].network_bytes == j.network_bytes + length
            &&& one_more(m, job)[job].udp_datagrams_received == j.udp_datagrams_received + 1
            &&& with_connection(m, job, true)[job].tcp_connections_reused == j.tcp_connections_reused + 1
            &&& with_connection(m, job, true)[job].tcp_connections_opened == j.tcp_connections_opened
            &&& with_connection(m, job, false)[job].tcp_connections_opened == j.tcp_connections_opened + 1
            &&& with_connection(m, job, false)[job].tcp_connections_reused == j.tcp_connections_reused
        }),
{
}

/// The counters of a transfer add to those of its job; a time that was not taken
/// leaves the last one.
pub proof fn law_transfers_add_up(m: JobMetrics, s: TransferStats)
    requires
        m.udp_datagrams_sent + s.datagrams_sent <= u64::MAX,
        m.udp_datagrams_received + s.datagrams_received <= u64::MAX,
        m.udp_payload_bytes + s.payload_bytes <= u64::MAX,
        m.udp_retransmitted_datagrams + s.retransmitted_datagrams <= u64::MAX,
        m.udp_retransmitted_bytes + s.retransmitted_bytes <= u64::MAX,
        m.duplicate_datagrams + s.duplicate_datagrams <= u64::MAX,
        m.out_of_order_datagrams + s.out_of_order_datagrams <= u64::MAX,
        m.ack_count + s.ack_count <= u64::MAX,
        m.nack_count + s.nack_count <= u64::MAX,
    ensures
        ({
            let k = with_stats(m, s);
            &&& k.udp_datagrams_sent == m.udp_datagrams_sent + s.datagrams_sent
            &&& k.udp_datagrams_received == m.udp_datagrams_received + s.datagrams_received
            &&& k.udp_payload_bytes == m.udp_payload_bytes + s.payload_bytes
            &&& k.udp_retransmitted_datagrams == m.udp_retransmitted_datagrams + s.retransmitted_datagrams
            &&& k.udp_retransmitted_bytes == m.udp_retransmitted_bytes + s.retransmitted_bytes
            &&& k.duplicate_datagrams == m.duplicate_datagrams + s.duplicate_datagrams
            &&& k.out_of_order_datagrams == m.out_of_order_datagrams + s.out_of_order_datagrams
            &&& k.ack_count == m.ack_count + s.ack_count
            &&& k.nack_count == m.nack_count + s.nack_count
            &&& 0 < s.estimated_rtt_ms.bits <= 0x7ff0_0000_0000_0000 ==> k.estimated_rtt_ms == s.estimated_rtt_ms
            &&& s.estimated_rtt_ms.bits == 0 ==> k.estimated_rtt_ms == m.estimated_rtt_ms
            &&& s.retransmission_timeout_ms.bits == 0 ==> k.retransmission_timeout_ms == m.retransmission_timeout_ms
            &&& k.network_bytes == m.network_bytes
        }),
{
}

/// Rates are those that were measured; where nothing was sent, nothing was lost,
/// and the mean size stays.
pub proof fn law_rates_of_a_job(m: JobMetrics, loss: Double, throughput: Double, average: Double)
    ensures
        ({
            let k = with_rates(m, loss, throughput, average);
            &&& m.udp_datagrams_sent == 0 ==> k.packet_loss_estimate.bits == 0 && k.average_payload_size
                == m.average_payload_size
            &&& m.udp_datagrams_sent > 0 ==> k.packet_loss_estimate == loss && k.average_payload_size == average
            &&& k.effective_throughput_mbps == throughput
            &&& k.udp_datagrams_sent == m.udp_datagrams_sent
        }),
{
}

/// A job of which nothing was counted has counted nothing.
pub proof fn law_nothing_was_counted(m: Map<Uuid, JobMetrics>, job: Uuid)
    requires
        !m.contains_key(job),
    ensures
        ({
            let j = job_of(m, job);
            &&& j.network_bytes == 0 && j.transfer_sessions == 0 && j.active_transfer_sessions == 0 && j.failed_transfers == 0
            &&& j.udp_datagrams_sent == 0 && j.udp_datagrams_received == 0 && j.udp_payload_bytes == 0
            &&& j.ack_count == 0 && j.nack_count == 0 && j.duplicate_datagrams == 0 && j.out_of_order_datagrams == 0
            &&& j.tensor_allocations == 0 && j.tensor_migrations == 0 && j.ram_pressure_events == 0
            &&& j.peak_ram_residency == 0 && j.current_ram_residency == 0 && j.peak_gpu_residency == 0
            &&& j.gpu_id is None && j.sdk_metrics_timestamp_ms is None
        }),
{
}

/// A job fails when a node that computes for it is gone, and keeps its plan; the
/// others go on.
pub proof fn law_jobs_fail_with_their_nodes(j: JobView, node: Uuid, m: Map<Uuid, JobView>, id: Uuid, error: Seq<char>, other: Uuid)
    requires
        other != id,
    ensures
        j.plan.compute_nodes.contains(node) ==> without_node(j, node).error == Some(compute_lost(node)),
        !j.plan.compute_nodes.contains(node) ==> without_node(j, node) == j,
        without_node(j, node).plan == j.plan,
        m.contains_key(id) ==> failed(m, id, error)[id].error == Some(error) && failed(m, id, error)[id].plan == m[id].plan,
        failed(m, id, error).contains_key(other) == m.contains_key(other),
        m.contains_key(other) ==> failed(m, id, error)[other] == m[other],
        !m.contains_key(id) ==> failed(m, id, error) == m,
{
}

/// Blocks that can be moved away are committed, of the node under pressure, and
/// under a lease that goes on.
pub proof fn law_which_blocks_can_be_moved(h: HandleView, source: Uuid, now_ms: u64)
    ensures
        movable(h, source, now_ms) <==> h.owner_node == source && h.state == BlockState::Ready && now_ms
            < h.lease_expires_ms,
{
}

/// The smallest blocks are moved first.
pub proof fn law_smallest_blocks_first(
    list: Seq<HandleView>,
    keys: Seq<Uuid>,
    m: Map<Uuid, HandleView>,
    source: Uuid,
    now_ms: u64,
    i: int,
    j: int,
)
    requires
        is_queue(list, keys, m, source, now_ms),
        0 <= i < j < list.len(),
    ensures
        list[i].size <= list[j].size,
        list[i].size == list[j].size ==> list[i].id < list[j].id,
{
    assert(crate::runtime::relief::sooner(list[i], list[j]));
}

/// Relief begins once: from nothing moved, and not while it is under way.
pub proof fn law_relief_begins_once(a: Runtime, z: Runtime, source: Uuid, excess: u64, now_ms: u64, r: Option<Relief>)
    requires
        relief_begun(a, z, source, excess, now_ms, r),
    ensures
        r is Some <==> !a.relieving,
        z.relieving,
        r matches Some(f) ==> f.moved == 0 && f.excess == excess && f.source == source && f.block == 0 && f.leadership
            == a.led(),
        z.ram == a.ram && z.residency == a.residency,
{
}

/// What was moved away is what the blocks with a taker hold.
pub proof fn law_moved_bytes_add_up(blocks: Seq<HandleView>, past: Seq<Fate>, f: Fate)
    requires
        past.len() < blocks.len(),
        tally(blocks, past) + blocks[past.len() as int].size <= u64::MAX,
    ensures
        tally(blocks, Seq::<Fate>::empty()) == 0,
        f.taker is Some ==> tally(blocks, past.push(f)) == tally(blocks, past) + blocks[past.len() as int].size,
        f.taker is None ==> tally(blocks, past.push(f)) == tally(blocks, past),
{
    assert(past.push(f).drop_last() =~= past);
}

/// A node under pressure is no target of its own blocks; every other node may
/// be one.
pub proof fn law_others_are_targets(nodes: Seq<NodeView>, source: Uuid, i: int)
    ensures
        forall|k: int| 0 <= k < others(nodes, source).len() ==> (#[trigger] others(nodes, source)[k]).node_id != source,
        0 <= i < nodes.len() && nodes[i].node_id != source ==> others(nodes, source).contains(nodes[i]),
        others(nodes, source).len() <= nodes.len(),
    decreases nodes.len(),
{
    if nodes.len() > 0 {
        let rest = nodes.drop_last();
        law_others_are_targets(rest, source, i);
        if 0 <= i < rest.len() && nodes[i].node_id != source {
            assert(rest[i] == nodes[i]);
            let k = choose|k: int| 0 <= k < others(rest, source).len() && others(rest, source)[k] == nodes[i];
            assert(others(nodes, source)[k] == nodes[i]);
        } else if i == rest.len() && nodes[i].node_id != source {
            assert(others(nodes, source)[others(rest, source).len() as int] == nodes[i]);
        }
    }
}

proof fn lemma_from_node(nodes: Seq<NodeView>, source: NodeView, upto: int, j: int)
    requires
        0 <= upto <= nodes.len(),
        0 <= j < upto,
        nodes[j].node_id != source.node_id,
    ensures
        exists|k: int|
            0 <= k < from_node(nodes, source, upto).len() && (#[trigger] from_node(nodes, source, upto)[k]).destination
                == nodes[j].node_id && from_node(nodes, source, upto)[k].address == source.network.control_address,
    decreases upto,
{
    let all = from_node(nodes, source, upto);
    let before = from_node(nodes, source, upto - 1);
    if j < upto - 1 {
        lemma_from_node(nodes, source, upto - 1, j);
        let k = choose|k: int|
            0 <= k < before.len() && (#[trigger] before[k]).destination == nodes[j].node_id && before[k].address
                == source.network.control_address;
        assert(all[k] == before[k]);
    } else {
        assert(all[before.len() as int].destination == nodes[j].node_id);
    }
}

/// A benchmark measures every link: from every node to every other.
pub proof fn law_every_link_is_measured(nodes: Seq<NodeView>, upto: int, i: int, j: int)
    requires
        0 <= i < upto <= nodes.len(),
        0 <= j < nodes.len(),
        nodes[i].node_id != nodes[j].node_id,
    ensures
        exists|k: int|
            0 <= k < all_pairs(nodes, upto).len() && (#[trigger] all_pairs(nodes, upto)[k]).destination == nodes[j].node_id
                && all_pairs(nodes, upto)[k].address == nodes[i].network.control_address,
    decreases upto,
{
    let all = all_pairs(nodes, upto);
    let before = all_pairs(nodes, upto - 1);
    if i < upto - 1 {
        law_every_link_is_measured(nodes, upto - 1, i, j);
        let k = choose|k: int|
            0 <= k < before.len() && (#[trigger] before[k]).destination == nodes[j].node_id && before[k].address
                == nodes[i].network.control_address;
        assert(all[k] == before[k]);
    } else {
        let more = from_node(nodes, nodes[i], nodes.len() as int);
        lemma_from_node(nodes, nodes[i], nodes.len() as int, j);
        let k = choose|k: int|
            0 <= k < more.len() && (#[trigger] more[k]).destination == nodes[j].node_id && more[k].address
                == nodes[i].network.control_address;
        assert(all[before.len() + k] == more[k]);
    }
}

proof fn lemma_destinations(nodes: Seq<NodeView>, source: NodeView, upto: int)
    requires
        0 <= upto <= nodes.len(),
    ensures
        from_node(nodes, source, upto).len() <= upto,
        forall|k: int|
            0 <= k < from_node(nodes, source, upto).len() ==> (#[trigger] from_node(nodes, source, upto)[k]).destination
                != source.node_id,
    decreases upto,
{
    if upto > 0 {
        lemma_destinations(nodes, source, upto - 1);
    }
}

/// No node is measured against itself, so that there are fewer links than pairs.
pub proof fn law_no_node_is_measured_against_itself(nodes: Seq<NodeView>, source: NodeView, k: int)
    requires
        0 <= k < from_node(nodes, source, nodes.len() as int).len(),
    ensures
        from_node(nodes, source, nodes.len() as int)[k].destination != source.node_id,
        from_node(nodes, source, nodes.len() as int).len() <= nodes.len(),
{
    lemma_destinations(nodes, source, nodes.len() as int);
}

/// The RAM that is used elsewhere is that of all other nodes.
pub proof fn law_ram_used_elsewhere(nodes: Seq<NodeView>, n: NodeView, me: Uuid)
    requires
        remote_used(nodes, me) + n.memory.trainpool_ram_used <= u64::MAX,
    ensures
        remote_used(Seq::<NodeView>::empty(), me) == 0,
        n.node_id == me ==> remote_used(nodes.push(n), me) == remote_used(nodes, me),
        n.node_id != me ==> remote_used(nodes.push(n), me) == remote_used(nodes, me) + n.memory.trainpool_ram_used,
{
    assert(nodes.push(n).drop_last() =~= nodes);
}

/// The latest report is shown: none is later, and it is shown where there is
/// one.
pub proof fn law_latest_report_is_shown(keys: Seq<Uuid>, m: Map<Uuid, JobMetrics>, i: int)
    requires
        0 <= i < keys.len(),
        m[keys[i]].sdk_metrics_timestamp_ms is Some,
    ensures
        latest(keys, m) matches Some(b) && keys.contains(b) && m[b].sdk_metrics_timestamp_ms is Some
            && m[b].sdk_metrics_timestamp_ms->0 >= m[keys[i]].sdk_metrics_timestamp_ms->0,
    decreases keys.len(),
{
    lemma_latest(keys.drop_last(), m);
    lemma_latest(keys, m);
    if i < keys.len() - 1 {
        assert(keys.drop_last()[i] == keys[i]);
        law_latest_report_is_shown(keys.drop_last(), m, i);
    }
}

proof fn lemma_latest(keys: Seq<Uuid>, m: Map<Uuid, JobMetrics>)
    ensures
        latest(keys, m) matches Some(b) ==> keys.contains(b) && m[b].sdk_metrics_timestamp_ms is Some,
    decreases keys.len(),
{
    if keys.len() > 0 {
        lemma_latest(keys.drop_last(), m);
        assert(keys[keys.len() - 1] == keys.last());
        if let Some(b) = latest(keys.drop_last(), m) {
            let k = choose|k: int| 0 <= k < keys.drop_last().len() && keys.drop_last()[k] == b;
            assert(keys[k] == b);
        }
    }
}

/// The figures of this node are its own, and those of a training process are the
/// ones that it reported, with their age.
pub proof fn law_figures_that_are_shown(m: LogicalTrainingMemory, me: NodeView, remote: u64, j: JobMetrics, now_ms: u64)
    ensures
        ({
            let l = with_local(m, me, remote);
            &&& l.local_physical_ram == me.memory.physical_ram_total
            &&& l.local_os_available_ram == me.memory.os_available_ram
            &&& l.local_pool_ram_budget == me.memory.trainpool_ram_budget
            &&& l.local_pool_ram_used == me.memory.trainpool_ram_used
            &&& l.local_pool_ram_allocatable == me.memory.trainpool_ram_available
            &&& l.local_ram_safety_reserve == me.memory.safety_reserve
            &&& l.remote_pool_ram_used == remote
            &&& l.logical_training_capacity == m.logical_training_capacity
            &&& l.physical_ram == m.physical_ram
        }),
        ({
            let s = with_report(m, j, now_ms);
            &&& s.sdk_metrics_timestamp_ms == j.sdk_metrics_timestamp_ms
            &&& j.sdk_metrics_timestamp_ms is None ==> s.sdk_metrics_age_ms is None
            &&& j.sdk_metrics_timestamp_ms matches Some(t) ==> {
                &&& t <= now_ms ==> s.sdk_metrics_age_ms == Some((now_ms - t) as u64)
                &&& t > now_ms ==> s.sdk_metrics_age_ms == Some(0u64)
            }
            &&& s.driver_used_vram_bytes == j.driver_used_vram_bytes
            &&& s.driver_free_vram_bytes == j.driver_free_vram_bytes
            &&& s.sdk_physical_vram_bytes == j.physical_vram_bytes
            &&& s.torch_allocated_bytes == j.torch_allocated_bytes
            &&& s.torch_reserved_bytes == j.torch_reserved_bytes
            &&& s.torch_reclaimable_bytes == j.torch_reclaimable_bytes
            &&& s.trainpool_resident_vram_bytes == Some(j.current_vram_resident_bytes)
            &&& s.safe_vram_allocatable_bytes == j.safe_vram_allocatable_bytes
            &&& s.configured_usable_vram_ceiling_bytes == j.configured_usable_vram_ceiling_bytes
            &&& s.configured_vram_safety_reserve_bytes == j.configured_vram_safety_reserve_bytes
            &&& s.logical_training_capacity == m.logical_training_capacity
        }),
{
}

/// A search for memory begins with the first candidate, and asks for what was
/// asked for.
pub proof fn law_search_begins_with_the_first(
    a: Runtime,
    z: Runtime,
    size: u64,
    job: Uuid,
    compute_node: Uuid,
    preferred: Option<Uuid>,
    tensor: Option<TensorView>,
    costs: Seq<Double>,
    sample: MemorySample,
    r: Result<Allocation, Error>,
)
    requires
        searched(a, z, size, job, compute_node, preferred, tensor, costs, sample, r),
    ensures
        r is Ok <==> {
            &&& size > 0
            &&& tensor matches Some(t) ==> tensor_check(t, size) is Ok
            &&& a.jobs@.contains_key(job)
            &&& a.jobs@[job].error is None
            &&& a.jobs@[job].plan.leader_epoch == a.led().leader_epoch
        },
        r matches Ok(al) ==> al.next == 0 && al.size == size && al.job_id == job && al.leadership == z.led()
            && tensor_view(al.tensor) == tensor && al.last_error@ == "no eligible memory nodes"@,
        r is Err ==> z == a,
{
}

/// What a process reports is noted for its job, and on its card of this node;
/// nothing else of the node changes.
pub proof fn law_report_is_noted(a: Runtime, z: Runtime, job: Uuid, m: JobMetrics, waited: Double, other: Uuid)
    requires
        sdk_reported(a, z, job, m, waited),
        other != job,
        a.wf(),
    ensures
        z.metrics@.contains_key(job),
        z.metrics@[job].current_gpu_residency == m.current_gpu_residency,
        z.metrics@[job].gpu_wait_for_data_ms == waited,
        a.metrics@.contains_key(other) ==> z.metrics@[other] == a.metrics@[other],
        m.gpu_id is None ==> z.me() == a.me(),
        z.me() == (NodeView { gpus: z.me().gpus, ..a.me() }),
        m.gpu_id matches Some(id) ==> z.me().gpus == with_residency(a.me().gpus, id@, m.current_gpu_residency),
        z.ram == a.ram && z.jobs == a.jobs && z.residency == a.residency,
{
}

/// A promise that is given back is gone, and its bytes are free.
pub proof fn law_promise_is_given_back(a: Runtime, z: Runtime, id: Uuid, other: Uuid)
    requires
        unstaged(a, z, id),
        other != id,
    ensures
        !z.staging@.contains_key(id),
        a.staging@.contains_key(id) ==> z.ram.accounting.owned + a.staging@[id].reservation.entry().bytes
            == a.ram.accounting.owned,
        !a.staging@.contains_key(id) ==> z == a,
        z.staging@.contains_key(other) <==> a.staging@.contains_key(other),
        a.staging@.contains_key(other) ==> z.staging@[other] == a.staging@[other],
        z.ram@ == a.ram@,
{
}

/// Relief goes from block to block: a block that was taken counts with its
/// bytes, and the next one is turned to while bytes and blocks are left. One that
/// was refused is offered to the next target.
pub proof fn law_relief_goes_on(a: Runtime, f: Relief, g: Relief, event: ReliefEvent, r: Result<ReliefStep, Error>)
    requires
        f.wf(),
        eased(a, f, g, event, r),
        event is Answered,
        f.wait == Wait::Answer,
        f.moved + f.blocks@[f.block as int].size <= u64::MAX,
    ensures
        event == (ReliefEvent::Answered { moved: true }) ==> {
            &&& g.moved == f.moved + f.blocks@[f.block as int].size
            &&& g.block == f.block + 1
            &&& g.moved < f.excess && g.block < f.blocks@.len() ==> r == Ok::<ReliefStep, Error>(
                ReliefStep::Price { size: f.blocks@[g.block as int].size },
            )
            &&& g.moved >= f.excess || g.block >= f.blocks@.len() ==> r == Ok::<ReliefStep, Error>(
                ReliefStep::Over { moved: g.moved },
            )
        },
        event == (ReliefEvent::Answered { moved: false }) ==> {
            &&& g.moved == f.moved
            &&& f.target + 1 < f.targets@.len() ==> g.block == f.block && g.target == f.target + 1
            &&& f.target + 1 >= f.targets@.len() ==> g.block == f.block + 1
        },
        g.excess == f.excess && g.source == f.source && g.blocks == f.blocks,
{
    assert(f.block < f.blocks@.len() == f.blocks.len());
    assert(f.target < f.targets@.len() == f.targets.len());
}

/// What goes out for a packet: the reply under the cluster's secret, or the text
/// of what is wrong, which goes unanswered where it does not fit.
pub proof fn law_what_goes_out_for_a_packet(config: ConfigView, p: PacketView, step: Result<UdpAction, Error>, r: Outcome)
    requires
        outcome_of(config, p, step, r),
    ensures
        step == Ok::<UdpAction, Error>(UdpAction::Nothing) ==> r is Silent,
        step matches Ok(UdpAction::Reply { packet, counted }) ==> (r matches Outcome::Reply { wire, counted: c, refusal } && c
            == counted && !refusal && is_datagram(wire@, packet@, config.cluster_secret)),
        step matches Err(e) ==> {
            &&& encode_utf8(e.text()).len() > 1234 ==> r is Silent
            &&& encode_utf8(e.text()).len() <= 1234 ==> (r matches Outcome::Reply { wire, counted, refusal } && refusal
                && counted == Counted::Plain && wire@.len() == 166 + encode_utf8(e.text()).len() && wire@[5] == 10
                && wire@.subrange(166, wire@.len() as int) == encode_utf8(e.text()))
        },
{
}

/// Every packet that comes counts for its job, whatever comes of it, and nothing
/// but the sessions, the store and the counters changes.
pub proof fn law_every_packet_counts(
    a: Runtime,
    z: Runtime,
    p: PacketView,
    source: SocketAddress,
    now_ms: u64,
    now_ns: u64,
    r: Outcome,
)
    requires
        packet_taken(a, z, p, source, now_ms, now_ns, r),
        p.kind == Kind::StartAck || p.kind == Kind::Ack || p.kind == Kind::Nack || p.kind == Kind::Complete,
        a.metrics@.contains_key(p.object_id),
        a.metrics@[p.object_id].udp_datagrams_received < u64::MAX,
    ensures
        r is Silent,
        z.metrics@[p.object_id].udp_datagrams_received == a.metrics@[p.object_id].udp_datagrams_received + 1,
        z.ram == a.ram,
        z.membership == a.membership && z.jobs == a.jobs && z.residency == a.residency && z.staging == a.staging,
{
}

/// An answer that is good gives its data, one that is not what went wrong.
pub proof fn law_answers<T>(value: T, made: Response<T>, came: Response<T>, r: Result<T, Error>)
    requires
        call_ensures(Response::<T>::data, (value,), made),
        call_ensures(Response::<T>::into_data, (came,), r),
    ensures
        made.ok && made.data == Some(value) && made.error is None,
        r is Ok <==> came.ok && came.data is Some,
        r matches Ok(v) ==> came.data == Some(v),
        r matches Err(e) ==> (came.ok ==> e == Error::ProtocolFailure),
        r matches Err(e) ==> (!came.ok ==> (came.error matches Some(t) ==> e.text() == t@)),
{
}

/// A block whose targets are known is offered to the first of them, from the
/// node under pressure; one without any is passed over.
pub proof fn law_relief_asks_the_first_target(a: Runtime, f: Relief, g: Relief, event: ReliefEvent, r: Result<ReliefStep, Error>)
    requires
        f.wf(),
        eased(a, f, g, event, r),
        event is Priced,
        f.wait == Wait::Costs,
    ensures
        g.moved == f.moved,
        g.wait == Wait::Answer ==> {
            &&& g.target == 0
            &&& g.block == f.block
            &&& g.targets@.len() > 0
            &&& r matches Ok(ReliefStep::Ask { address, request: Request::Migrate { handle, destination, leadership } }) && {
                &&& destination == g.targets@[0]
                &&& handle@ == f.blocks@[f.block as int]@
                &&& leadership == f.leadership
                &&& a.membership@.contains_key(f.source)
                &&& address == a.membership@[f.source].capabilities.network.control_address
            }
        },
        !a.membership@.contains_key(f.source) && g.block == f.block ==> r is Err,
{
    assert(f.block < f.blocks@.len() == f.blocks.len());
}

/// Sweeps give back the bytes of what they take, one by one: of a promise all of
/// them, of a block only where no reader has it.
pub proof fn law_sweeps_give_bytes_back(
    ids: Seq<Uuid>,
    id: Uuid,
    blocks: Map<Uuid, BlockView>,
    staged: Map<Uuid, Staged>,
    jobs: Map<Uuid, JobRamAccounting>,
)
    ensures
        bytes_of(Seq::<Uuid>::empty(), blocks) == 0,
        blocks[id].pins == 0 ==> bytes_of(ids.push(id), blocks) == bytes_of(ids, blocks) + blocks[id].handle.size,
        blocks[id].pins > 0 ==> bytes_of(ids.push(id), blocks) == bytes_of(ids, blocks),
        blocks[id].pins > 0 ==> pinned_of(ids.push(id), blocks) == pinned_of(ids, blocks).push(blocks[id]),
        blocks[id].pins == 0 ==> pinned_of(ids.push(id), blocks) == pinned_of(ids, blocks),
        blocks[id].pins > 0 ==> accounts_without(jobs, ids.push(id), blocks) == accounts_without(jobs, ids, blocks),
        blocks[id].pins == 0 ==> {
            let before = accounts_without(jobs, ids, blocks)[blocks[id].handle.job_id];
            let after = accounts_without(jobs, ids.push(id), blocks)[blocks[id].handle.job_id];
            before.owned >= blocks[id].handle.size ==> after.owned == before.owned - blocks[id].handle.size && after.peak
                == before.peak
        },
        staged_bytes(Seq::<Uuid>::empty(), staged) == 0,
        staged_bytes(ids.push(id), staged) == staged_bytes(ids, staged) + staged[id].reservation.entry().bytes,
{
    assert(ids.push(id).drop_last() =~= ids);
}

/// What a sweep takes: the blocks whose leases have ended, unless something holds
/// them or they are on the move, and the promises past their deadlines.
pub proof fn law_what_sweeps_take(
    keys: Seq<Uuid>,
    blocks: Map<Uuid, BlockView>,
    staged: Map<Uuid, Staged>,
    now_ms: u64,
    id: Uuid,
)
    requires
        keys.contains(id),
    ensures
        lapsed_ids(keys, blocks, now_ms).contains(id) <==> !blocks[id].busy && blocks[id].handle.lease_expires_ms <= now_ms
            && blocks[id].handle.state != BlockState::Migrating,
        overdue_ids(keys, staged, now_ms).contains(id) <==> staged[id].deadline_ms <= now_ms,
{
    lemma_lapsed_ids(keys, blocks, now_ms, id);
    lemma_overdue_ids(keys, staged, now_ms, id);
}

proof fn lemma_last_or_before(keys: Seq<Uuid>, id: Uuid)
    requires
        keys.len() > 0,
    ensures
        keys.contains(id) <==> keys.drop_last().contains(id) || keys.last() == id,
{
    if keys.contains(id) {
        let k = choose|k: int| 0 <= k < keys.len() && keys[k] == id;
        if k < keys.len() - 1 {
            assert(keys.drop_last()[k] == id);
        }
    }
    if keys.drop_last().contains(id) {
        let k = choose|k: int| 0 <= k < keys.drop_last().len() && keys.drop_last()[k] == id;
        assert(keys[k] == id);
    }
    assert(keys[keys.len() - 1] == keys.last());
}

proof fn lemma_lapsed_ids(keys: Seq<Uuid>, blocks: Map<Uuid, BlockView>, now_ms: u64, id: Uuid)
    ensures
        lapsed_ids(keys, blocks, now_ms).contains(id) <==> keys.contains(id) && !blocks[id].busy
            && blocks[id].handle.lease_expires_ms <= now_ms && blocks[id].handle.state != BlockState::Migrating,
    decreases keys.len(),
{
    if keys.len() > 0 {
        let all = lapsed_ids(keys, blocks, now_ms);
        lemma_lapsed_ids(keys.drop_last(), blocks, now_ms, id);
        lemma_last_or_before(keys, id);
        if all.len() > lapsed_ids(keys.drop_last(), blocks, now_ms).len() {
            lemma_last_or_before(all, id);
            assert(all.drop_last() =~= lapsed_ids(keys.drop_last(), blocks, now_ms));
        }
    }
}

proof fn lemma_overdue_ids(keys: Seq<Uuid>, staged: Map<Uuid, Staged>, now_ms: u64, id: Uuid)
    ensures
        overdue_ids(keys, staged, now_ms).contains(id) <==> keys.contains(id) && staged[id].deadline_ms <= now_ms,
    decreases keys.len(),
{
    if keys.len() > 0 {
        let all = overdue_ids(keys, staged, now_ms);
        lemma_overdue_ids(keys.drop_last(), staged, now_ms, id);
        lemma_last_or_before(keys, id);
        if all.len() > overdue_ids(keys.drop_last(), staged, now_ms).len() {
            lemma_last_or_before(all, id);
            assert(all.drop_last() =~= overdue_ids(keys.drop_last(), staged, now_ms));
        }
    }
}

/// A reader that lets go of a block that is gone gives its bytes back where it
/// was the last; one of a block that is there only stops reading it.
pub proof fn law_readers_let_go(a: LocalRam, z: LocalRam, pin: Pin, i: int)
    requires
        a.wf(),
        unpinned(a, z, pin),
    ensures
        a.stored(pin) ==> {
            &&& z.accounting == a.accounting
            &&& z@.contains_key(pin.id())
            &&& a@[pin.id()].pins > 0 ==> z@[pin.id()].pins == a@[pin.id()].pins - 1
            &&& z@[pin.id()].bytes == a@[pin.id()].bytes
        },
        !a.stored(pin) ==> z@ == a@,
        !a.stored(pin) && a.lingers(pin, i) ==> {
            let b = a.lingering()[i];
            &&& b.pins == 1 ==> z.accounting.owned + b.handle.size == a.accounting.owned && z.lingering().len()
                == a.lingering().len() - 1
            &&& b.pins == 1 && a.accounting.jobs@[b.handle.job_id].owned >= b.handle.size
                ==> z.accounting.jobs@[b.handle.job_id].owned == a.accounting.jobs@[b.handle.job_id].owned - b.handle.size
            &&& b.pins > 1 ==> z.accounting == a.accounting && z.lingering()[i].pins == b.pins - 1
        },
{
    if !a.stored(pin) && a.lingers(pin, i) {
        assert(a.lingering()[i] == a.detached@[i]@);
        assert(a.detached@[i].pins > 0);
    }
}

} // verus!
