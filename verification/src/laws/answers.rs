//! What single questions are answered.
use crate::address::SocketAddress;
use crate::cluster::election::Leadership;
use crate::config::{text_view, Config};
use crate::digest::{blake3_digest, hex_text};
use crate::double::Double;
use crate::error::Error;
use crate::ids::Uuid;
use crate::memory::block::{BlockState, HandleView, MemoryBlockHandle};
use crate::memory::local_ram::LocalRam;
use crate::memory::migration::{Migration, Step};
use crate::memory::remote_ram::{check_chunk, read_request, write_request};
use crate::node::capabilities::{available_ram, node_capabilities_views, NodeCapabilities};
use crate::protocol::request::Request;
use crate::runtime::control::{Reply, Routed};
use crate::runtime::data::Relay;
use crate::runtime::Runtime;
use crate::scheduler::placement::{CapacityPlacement, PlacementPolicy};
use crate::scheduler::planner::{
    require_cuda, stage_spec_views, CapacityPlanner, StageSpec, TrainingPlan, TrainingPlanner,
};
use crate::scheduler::topology::{LinkEstimate, Topology};
use crate::transport::udp::{bitmap_contains, parse_bitmap, Kind, Packet};
use crate::transport::reader::request_heard;
use vstd::prelude::*;

verus! {

/// A node that was ranked earlier never has a dearer link than one that was
/// ranked later, where neither computes; room decides between equal costs, and
/// ids between equal room. The node that computes goes before all.
pub proof fn law_ranking_goes_by_cost(
    p: CapacityPlacement,
    nodes: Vec<NodeCapabilities>,
    compute: Uuid,
    size: u64,
    costs: Vec<Double>,
    r: Vec<usize>,
    a: int,
    b: int,
)
    requires
        costs@.len() == nodes@.len(),
        call_ensures(CapacityPlacement::rank_ram, (&p, &nodes, compute, size, &costs), r),
        0 <= a < b < r@.len(),
        forall|i: int| 0 <= i < costs@.len() ==> (#[trigger] costs@[i]).bits < 0x8000_0000_0000_0000,
    ensures
        ({
            let m = nodes@[r@[a] as int];
            let n = nodes@[r@[b] as int];
            let x = costs@[r@[a] as int].bits;
            let y = costs@[r@[b] as int].bits;
            &&& n.node_id == compute ==> m.node_id == compute
            &&& m.node_id != compute && n.node_id != compute ==> {
                &&& x <= y
                &&& x == y ==> m.memory.trainpool_ram_available >= n.memory.trainpool_ram_available
                &&& x == y && m.memory.trainpool_ram_available == n.memory.trainpool_ram_available ==> m.node_id
                    <= n.node_id
            }
            &&& m.runtime.ram_provider && n.runtime.ram_provider
            &&& m.memory.trainpool_ram_available >= size && n.memory.trainpool_ram_available >= size
        }),
{
    let views = node_capabilities_views(nodes@);
    crate::laws::placement::law_cheaper_link_comes_first(r@, views, costs@, compute, size, a, b);
    crate::laws::placement::law_all_with_room_are_asked(r@, views, costs@, compute, size);
    assert(views[r@[a] as int] == nodes@[r@[a] as int]@);
    assert(views[r@[b] as int] == nodes@[r@[b] as int]@);
}

/// A plan has the budget of each node that gives RAM under its id, and no other
/// budgets.
pub proof fn law_planned_budgets(
    p: CapacityPlanner,
    nodes: Vec<NodeCapabilities>,
    leader: Leadership,
    topology: Topology,
    stages: Vec<StageSpec>,
    job_id: Uuid,
    r: Result<TrainingPlan, Error>,
    i: int,
)
    requires
        call_ensures(CapacityPlanner::plan_as, (&p, &nodes, &leader, &topology, &stages, job_id), r),
        r is Ok,
        0 <= i < nodes@.len(),
        forall|x: int, y: int| 0 <= x < y < nodes@.len() ==> (#[trigger] nodes@[x]).node_id != (#[trigger] nodes@[y]).node_id,
    ensures
        ({
            let plan = (r->Ok_0)@;
            &&& plan.memory_budgets.contains_key(nodes@[i].node_id) <==> nodes@[i].runtime.ram_provider
            &&& nodes@[i].runtime.ram_provider ==> plan.memory_budgets[nodes@[i].node_id]
                == nodes@[i].memory.trainpool_ram_budget
            &&& plan.memory_nodes.contains(nodes@[i].node_id) <==> nodes@[i].runtime.ram_provider
            &&& forall|id: Uuid| #[trigger]
                plan.memory_budgets.contains_key(id) ==> exists|k: int|
                    0 <= k < nodes@.len() && (#[trigger] nodes@[k]).node_id == id && nodes@[k].runtime.ram_provider
            &&& plan.job_id == job_id
            &&& plan.leader_epoch == leader.leader_epoch
            &&& plan.stages.len() == stages@.len()
        }),
{
    let views = node_capabilities_views(nodes@);
    let plan = (r->Ok_0)@;
    crate::laws::planning::law_plan_has_the_budgets(views, leader, topology@, stage_spec_views(stages@), job_id);
    assert forall|x: int, y: int| 0 <= x < y < views.len() implies (#[trigger] views[x]).node_id != (
    #[trigger] views[y]).node_id by {
        assert(nodes@[x].node_id != nodes@[y].node_id);
    }
    assert(views[i] == nodes@[i]@);
    let id = nodes@[i].node_id;
    if crate::laws::planning::gives_ram(views, id) {
        let k = choose|k: int| 0 <= k < views.len() && (#[trigger] views[k]).runtime.ram_provider && views[k].node_id == id;
        if k != i {
            assert(views[k].node_id != views[i].node_id);
        }
    }
    assert forall|x: Uuid| #[trigger] plan.memory_budgets.contains_key(x) implies exists|k: int|
        0 <= k < nodes@.len() && (#[trigger] nodes@[k]).node_id == x && nodes@[k].runtime.ram_provider by {
        assert(crate::laws::planning::gives_ram(views, x));
        let k = choose|k: int| 0 <= k < views.len() && (#[trigger] views[k]).runtime.ram_provider && views[k].node_id == x;
        assert(views[k] == nodes@[k]@);
        assert(nodes@[k].node_id == x);
    }
}

/// A lookup gives the block as it is known, to the holder of its token.
pub proof fn law_lookup_gives_what_is_known(a: Runtime, id: Uuid, token: Uuid, now_ms: u64, r: Result<MemoryBlockHandle, Error>)
    requires
        a.wf(),
        call_ensures(Runtime::resolve, (&a, id, token, now_ms), r),
    ensures
        r is Ok <==> {
            let h = a.residency@[id];
            &&& a.residency@.contains_key(id)
            &&& h.lease_token == token
            &&& now_ms < h.lease_expires_ms
            &&& h.state != BlockState::Lost
            &&& a.membership@.contains_key(h.owner_node)
        },
        r matches Ok(h) ==> h@ == a.residency@[id],
{
}

/// What is asked of a block goes to the node that has it, as a direct request.
pub proof fn law_requests_go_to_the_owner(a: Runtime, handle: MemoryBlockHandle, routed: Routed, r: Result<(SocketAddress, Request), Error>)
    requires
        a.wf(),
        call_ensures(Runtime::route, (&a, handle, routed), r),
    ensures
        r is Ok <==> a.membership@.contains_key(handle.owner_node),
        r matches Ok((address, request)) ==> {
            &&& address == a.membership@[handle.owner_node].capabilities.network.control_address
            &&& routed is Renew ==> (request matches Request::Renew { handle: h, direct } && h == handle && direct)
            &&& routed is Free ==> (request matches Request::Free { handle: h, direct } && h == handle && direct)
            &&& routed is Commit ==> (request matches Request::Commit { handle: h, checksum, direct } && h == handle && direct
                && checksum == routed->checksum)
        },
{
}

/// A block that was given back is reported with no lease left, and one that was
/// not is not reported.
pub proof fn law_given_back_blocks_are_reported(a: Runtime, handle: MemoryBlockHandle, ok: bool, r: Option<Request>)
    requires
        a.wf(),
        call_ensures(Runtime::after_free, (&a, handle, ok), r),
    ensures
        r is Some <==> ok,
        r matches Some(q) ==> (q matches Request::Register { handle: h, previous_generation, leadership } && h@
            == (HandleView { lease_expires_ms: 0, ..handle@ }) && previous_generation is None && leadership == a.led()),
{
}

/// What relief did: what was asked, what was moved, and what is left of it.
pub proof fn law_result_of_relief(excess: u64, moved: u64, r: Reply)
    requires
        call_ensures(Runtime::relieved, (excess, moved), r),
    ensures
        r matches Reply::Relieved { requested_bytes, migrated_bytes, unresolved_bytes } && {
            &&& requested_bytes == excess
            &&& migrated_bytes == moved
            &&& moved <= excess ==> unresolved_bytes + moved == excess
            &&& moved > excess ==> unresolved_bytes == 0
        },
{
}

/// Nodes are reached where they say; the leader is the one that leads now.
pub proof fn law_where_nodes_are_reached(
    a: Runtime,
    node: Uuid,
    at: Result<SocketAddress, Error>,
    leader: Result<SocketAddress, Error>,
    expected: Leadership,
    valid: Result<(), Error>,
)
    requires
        a.wf(),
        call_ensures(Runtime::address, (&a, node), at),
        call_ensures(Runtime::leader_address, (&a,), leader),
        call_ensures(Runtime::validate_leadership, (&a, &expected), valid),
    ensures
        at is Ok <==> a.membership@.contains_key(node),
        at matches Ok(x) ==> x == a.membership@[node].capabilities.network.control_address,
        a.led().leader_id matches Some(id) ==> {
            &&& leader is Ok <==> a.membership@.contains_key(id)
            &&& leader matches Ok(x) ==> x == a.membership@[id].capabilities.network.control_address
        },
        a.led().leader_id is None ==> leader is Err,
        valid is Ok <==> a.led() == expected,
{
}

/// A sample of a link has a rate where bytes were sent.
pub proof fn law_sample_of_a_link(
    source: Uuid,
    destination: Uuid,
    latency_ms: Double,
    bytes: usize,
    rate: Double,
    now_ms: u64,
    r: LinkEstimate,
)
    requires
        call_ensures(LinkEstimate::measured, (source, destination, latency_ms, bytes, rate, now_ms), r),
    ensures
        r.source == source && r.destination == destination,
        r.latency_ms == latency_ms,
        r.sampled_at_ms == now_ms,
        r.active_transfers == 0,
        bytes == 0 ==> r.bytes_per_second is None,
        bytes > 0 ==> r.bytes_per_second == Some(rate),
{
}

/// What is free is what the system has, or what the container leaves where that
/// is less.
pub proof fn law_free_ram(system: u64, container: Option<u64>, r: u64)
    requires
        call_ensures(available_ram, (system, container), r),
    ensures
        r <= system,
        container matches Some(free) ==> r <= free && (r == free || r == system),
        container is None ==> r == system,
{
}

/// Milliseconds since the epoch are cut to 64 bits; without a clock they are
/// zero.
pub proof fn law_milliseconds_since_the_epoch(millis: Option<u128>, r: u64)
    requires
        call_ensures(crate::epoch_millis, (millis,), r),
    ensures
        millis matches Some(n) ==> (n <= u64::MAX ==> r == n),
        millis is None ==> r == 0,
{
}

/// What another node is sent of a block, and asked of it: the digest is that of
/// the bytes, and the request is direct.
pub proof fn law_requests_for_chunks(
    handle: MemoryBlockHandle,
    transfer_id: Uuid,
    offset: u64,
    payload: &[u8],
    length: usize,
    write: Request,
    read: Request,
    named: Option<String>,
    checked: Result<(), Error>,
)
    requires
        call_ensures(write_request, (&handle, transfer_id, offset, payload), write),
        call_ensures(read_request, (&handle, transfer_id, offset, length), read),
        call_ensures(check_chunk, (payload, &named), checked),
    ensures
        write matches Request::WriteChunk { handle: h, transfer_id: t, offset: o, length: l, total_size, checksum, direct } && {
            &&& h@ == handle@ && t == transfer_id && o == offset
            &&& l == payload@.len()
            &&& total_size == handle@.size
            &&& checksum@ == hex_text(blake3_digest(payload@))
            &&& direct
        },
        read matches Request::ReadChunk { handle: h, transfer_id: t, offset: o, length: l, direct } && {
            &&& h@ == handle@ && t == transfer_id && o == offset && l == length && direct
        },
        checked is Ok <==> text_view(named) == Some(hex_text(blake3_digest(payload@))),
{
}

/// A move begins by asking the destination for room, under the leader's word.
pub proof fn law_move_begins_with_room(a: Runtime, m: Migration, r: Step)
    requires
        call_ensures(Runtime::migration_opening, (&a, &m), r),
    ensures
        r matches Step::Ask { address, request: Request::AllocateLocal { handle, leadership } } && address == m.address
            && handle@ == m.target@ && leadership == m.leadership,
{
}

/// Bytes that are read are those of the block, where it is here and the lease
/// opens it; else they come from the node that has it.
pub proof fn law_bytes_that_are_read(
    a: Runtime,
    handle: MemoryBlockHandle,
    offset: u64,
    length: usize,
    now_ms: u64,
    r: Result<(Relay, Vec<u8>), Error>,
)
    requires
        a.wf(),
        handle.owner_node == a.node_id ==> !a.ram.held(handle.id),
        call_ensures(Runtime::relay_read, (&a, &handle, offset, length, now_ms), r),
    ensures
        handle.owner_node == a.node_id ==> (r is Ok <==> {
            let b = a.ram@[handle.id];
            &&& a.ram@.contains_key(handle.id)
            &&& handle.lease_token == b.handle.lease_token
            &&& now_ms < b.handle.lease_expires_ms
            &&& b.handle.state == BlockState::Ready
            &&& b.handle.generation == handle.generation
            &&& offset + length <= b.bytes.len()
        }),
        handle.owner_node == a.node_id ==> (r matches Ok((way, bytes)) ==> {
            &&& way is Here
            &&& bytes@.len() == length
            &&& forall|i: int| 0 <= i < length ==> #[trigger] bytes@[i] == a.ram@[handle.id].bytes[offset + i]
        }),
        handle.owner_node != a.node_id ==> (r is Ok <==> a.membership@.contains_key(handle.owner_node)),
        handle.owner_node != a.node_id ==> (r matches Ok((way, bytes)) ==> !(way is Here)),
{
}

/// The store gives the bytes that are asked for, or none.
pub proof fn law_store_gives_its_bytes(
    s: LocalRam,
    handle: MemoryBlockHandle,
    offset: u64,
    length: usize,
    now_ms: u64,
    r: Result<Vec<u8>, Error>,
)
    requires
        s.wf(),
        !s.held(handle.id),
        call_ensures(LocalRam::read, (&s, &handle, offset, length, now_ms), r),
    ensures
        r matches Ok(v) ==> {
            &&& v@.len() == length
            &&& forall|i: int| 0 <= i < length ==> #[trigger] v@[i] == s@[handle.id].bytes[offset + i]
            &&& s@[handle.id].handle.lease_token == handle.lease_token
            &&& now_ms < s@[handle.id].handle.lease_expires_ms
        },
{
}

/// A node may compute for a plan where the plan has a card of it.
pub proof fn law_who_may_compute(plan: TrainingPlan, node: Uuid, r: Result<(), Error>)
    requires
        call_ensures(require_cuda, (&plan, node), r),
    ensures
        r is Ok <==> exists|i: int|
            0 <= i < plan@.gpu_assignments.len() && (#[trigger] plan@.gpu_assignments[i]).node_id == node,
{
}

/// The numbers from one to ten are kinds, and no others.
pub proof fn law_numbers_that_are_kinds(value: u8, r: Result<Kind, Error>)
    requires
        call_ensures(Kind::try_from, (value,), r),
    ensures
        r is Ok <==> 1 <= value <= 10,
        r == Ok::<Kind, Error>(Kind::Start) <==> value == 1,
        r == Ok::<Kind, Error>(Kind::StartAck) <==> value == 2,
        r == Ok::<Kind, Error>(Kind::Data) <==> value == 3,
        r == Ok::<Kind, Error>(Kind::Ack) <==> value == 4,
        r == Ok::<Kind, Error>(Kind::Nack) <==> value == 5,
        r == Ok::<Kind, Error>(Kind::Fin) <==> value == 6,
        r == Ok::<Kind, Error>(Kind::Complete) <==> value == 7,
        r == Ok::<Kind, Error>(Kind::Abort) <==> value == 8,
        r == Ok::<Kind, Error>(Kind::ReadRequest) <==> value == 9,
        r == Ok::<Kind, Error>(Kind::Error) <==> value == 10,
{
}

/// A bitmap message is read as it was written, where it has 38 bytes; beyond 256
/// nothing is marked.
pub proof fn law_bitmaps_are_read(payload: &[u8], r: Result<(u32, [u8; 32], usize), Error>, bitmap: [u8; 32], index: usize, marked: bool)
    requires
        call_ensures(parse_bitmap, (payload,), r),
        call_ensures(bitmap_contains, (&bitmap, index), marked),
    ensures
        r is Ok <==> payload@.len() == 38,
        r matches Ok((base, map, window)) ==> {
            &&& base == crate::bytes::be_value(payload@.subrange(0, 4))
            &&& map@ == payload@.subrange(4, 36)
            &&& window == crate::bytes::be_value(payload@.subrange(36, 38))
        },
        index >= 256 ==> !marked,
        index < 256 ==> marked == crate::transport::udp::bit(bitmap@[index as int / 8], (index % 8) as u8),
{
}

/// A read opens with the start that answers it; a refusal of it ends it, and
/// what is of another transfer is passed over.
pub proof fn law_what_opens_a_read(p: Packet, transfer_id: Uuid, r: Result<bool, Error>)
    requires
        call_ensures(request_heard, (&p, transfer_id), r),
    ensures
        r is Err <==> p.transfer_id == transfer_id && p.kind == Kind::Error,
        r == Ok::<bool, Error>(true) <==> p.transfer_id == transfer_id && p.kind == Kind::Start,
{
}

/// Settings pass where they are within their bounds.
pub proof fn law_which_settings_pass(c: Config, r: Result<(), Error>)
    requires
        call_ensures(Config::validate, (&c,), r),
    ensures
        r is Ok <==> c@.valid(),
{
}

/// Numbers that are not negative go by their bits.
pub proof fn law_order_of_numbers(a: Double, b: Double, r: bool)
    requires
        call_ensures(Double::precedes, (a, b), r),
        a.bits < 0x8000_0000_0000_0000,
        b.bits < 0x8000_0000_0000_0000,
    ensures
        r <==> a.bits < b.bits,
{
}

} // verus!
