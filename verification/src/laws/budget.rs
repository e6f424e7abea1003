//! What the pool may have of the memory of a node.
use crate::node::gpu::{card_of, usable_vram, GpuRowView, GpuView};
use crate::double::Double;
use crate::node::capabilities::NodeView;
use crate::node::memory::MemoryCapabilities;
use crate::protocol::memory::{inventory, memory_of, with_cards, with_node, LogicalTrainingMemory};
use crate::runtime::{MemorySample, Runtime};
use vstd::prelude::*;

verus! {

/// The budget is the least of what bounds it: the node's share, the limit if
/// there is one, and what the pool has and the system has left, no more than
/// there is, less the larger of the two reserves. What is left of the budget is
/// what the pool does not have yet.
pub proof fn law_budget_is_the_least_bound(
    total: u64,
    available: u64,
    owned: u64,
    ceiling: u64,
    limit: Option<u64>,
    reserve_bytes: u64,
    reserve_share: u64,
    r: MemoryCapabilities,
)
    requires
        call_ensures(
            MemoryCapabilities::calculate,
            (total, available, owned, ceiling, limit, reserve_bytes, reserve_share),
            r,
        ),
    ensures
        ({
            let budget = r.trainpool_ram_budget;
            let reserve = r.safety_reserve;
            &&& reserve >= reserve_bytes && reserve >= reserve_share
            &&& reserve == reserve_bytes || reserve == reserve_share
            &&& budget <= ceiling
            &&& limit matches Some(l) ==> budget <= l
            &&& budget > 0 ==> budget + reserve <= total && budget + reserve <= available + owned
            &&& {
                ||| budget == ceiling
                ||| limit == Some(budget)
                ||| budget + reserve == total
                ||| budget + reserve == available + owned
                ||| budget == 0 && (total <= reserve || available + owned <= reserve)
            }
            &&& owned <= budget ==> r.trainpool_ram_available + owned == budget
            &&& owned > budget ==> r.trainpool_ram_available == 0
            &&& r.safe_local_ram_allocatable_now == r.trainpool_ram_available
            &&& r.physical_ram_total == total
            &&& r.os_available_ram == available
            &&& r.trainpool_ram_used == owned
        }),
{
}

/// The excess is what the pool has on top of its budget.
pub proof fn law_excess_is_beyond_the_budget(m: MemoryCapabilities, r: u64)
    requires
        call_ensures(MemoryCapabilities::excess, (&m,), r),
    ensures
        m.trainpool_ram_used > m.trainpool_ram_budget ==> r + m.trainpool_ram_budget == m.trainpool_ram_used,
        m.trainpool_ram_used <= m.trainpool_ram_budget ==> r == 0,
{
}

/// What a job may use of a card and what is kept back make up what is free. What
/// is kept back is the fixed reserve, or the share where that is larger, of
/// which no more than 256 MiB count.
pub proof fn law_free_vram_is_used_or_kept_back(free: u64, reserve: u64, share: u64, r: u64)
    requires
        call_ensures(usable_vram, (free, reserve, share), r),
    ensures
        r > 0 ==> {
            &&& r + reserve <= free
            &&& share <= 268_435_456 ==> r + share <= free
            &&& share > 268_435_456 ==> r + 268_435_456 <= free
            &&& r + reserve == free || r + share == free && share <= 268_435_456 || r + 268_435_456 == free && share
                > 268_435_456
        },
        r == 0 ==> free <= reserve || free <= share && free <= 268_435_456,
{
}

/// A card of a listing has the memory that is listed, and what a job may use
/// goes by what is free; the pool has nothing on it yet.
pub proof fn law_listed_card(
    row: GpuRowView,
    reserve: u64,
    share: u64,
    utilization: Option<Double>,
    temperature: Option<Double>,
    capable: bool,
    usable: u64,
)
    requires
        call_ensures(usable_vram, (row.vram_free, reserve, share), usable),
    ensures
        ({
            let g = card_of(row, reserve, share, utilization, temperature, capable);
            &&& g.uuid == row.uuid
            &&& g.model == row.model
            &&& g.vram_total == row.vram_total
            &&& g.vram_free == row.vram_free
            &&& g.vram_used == row.vram_used
            &&& g.usable_vram == usable
            &&& g.trainpool_allocated_vram == 0
            &&& g.driver_version == row.driver_version
            &&& g.utilization == utilization
            &&& g.temperature == temperature
            &&& capable ==> g.cuda_capability == row.cuda_capability
            &&& !capable ==> g.cuda_capability is None
        }),
{
}

/// A look at the RAM counts what the node owns now against what the system says
/// now, sets the budget that reservations are held to, and changes nothing else
/// but the number of transfers that others are told of.
pub proof fn law_look_at_the_ram(a: Runtime, z: Runtime, sample: MemorySample, m: MemoryCapabilities)
    requires
        a.wf(),
        a.looked(z, sample),
        call_ensures(
            MemoryCapabilities::calculate,
            (
                a.me().memory.physical_ram_total,
                sample.available,
                a.ram.accounting.owned,
                sample.ceiling,
                a.config.ram_limit_bytes,
                a.config.ram_reserve_bytes,
                sample.reserve_share,
            ),
            m,
        ),
    ensures
        z.me().memory == m,
        z.ram.accounting.budget == m.trainpool_ram_budget,
        z.me().network.active_transfers == a.active_transfers,
        z.me().gpus == a.me().gpus,
        z.me().node_id == a.me().node_id,
        z.me().score() == a.me().score(),
        z.ram@ == a.ram@,
        z.ram.accounting.owned == a.ram.accounting.owned,
        z.residency == a.residency,
        z.jobs == a.jobs,
        z.metrics == a.metrics,
        z.staging == a.staging,
        forall|k: crate::ids::Uuid| k != a.node_id && #[trigger] a.membership@.contains_key(k) ==> z.membership@[k]
            == a.membership@[k],
{
}

proof fn lemma_cards_leave_ram(m: LogicalTrainingMemory, gpus: Seq<GpuView>)
    ensures
        ({
            let w = with_cards(m, gpus);
            &&& w.physical_ram == m.physical_ram
            &&& w.pool_ram_budget == m.pool_ram_budget
            &&& w.pool_ram_allocatable == m.pool_ram_allocatable
            &&& w.allocated_ram == m.allocated_ram
        }),
    decreases gpus.len(),
{
    if gpus.len() > 0 {
        lemma_cards_leave_ram(m, gpus.drop_last());
    }
}

proof fn lemma_plus(a: u64, b: u64)
    ensures
        a + b <= u64::MAX ==> crate::metrics::plus(a, b) == a + b,
{
}

proof fn lemma_node_adds(m: LogicalTrainingMemory, n: NodeView)
    ensures
        ({
            let z = with_node(m, n);
            &&& z.physical_ram == crate::metrics::plus(m.physical_ram, n.memory.physical_ram_total)
            &&& z.pool_ram_budget == crate::metrics::plus(m.pool_ram_budget, n.memory.trainpool_ram_budget)
            &&& z.pool_ram_allocatable == crate::metrics::plus(m.pool_ram_allocatable, n.memory.trainpool_ram_available)
            &&& z.allocated_ram == crate::metrics::plus(m.allocated_ram, n.memory.trainpool_ram_used)
        }),
{
    lemma_cards_leave_ram(
        LogicalTrainingMemory {
            physical_ram: crate::metrics::plus(m.physical_ram, n.memory.physical_ram_total),
            pool_ram_budget: crate::metrics::plus(m.pool_ram_budget, n.memory.trainpool_ram_budget),
            pool_ram_allocatable: crate::metrics::plus(m.pool_ram_allocatable, n.memory.trainpool_ram_available),
            allocated_ram: crate::metrics::plus(m.allocated_ram, n.memory.trainpool_ram_used),
            ..m
        },
        n.gpus,
    );
}

/// Every node adds its RAM to that of the cluster, each figure to its own: what
/// it has, what the pool may have, what the pool may still have, and what the
/// pool has.
pub proof fn law_every_node_adds_its_ram(nodes: Seq<NodeView>, n: NodeView)
    ensures
        ({
            let a = memory_of(nodes);
            let z = memory_of(nodes.push(n));
            &&& a.physical_ram + n.memory.physical_ram_total <= u64::MAX ==> z.physical_ram == a.physical_ram
                + n.memory.physical_ram_total
            &&& a.pool_ram_budget + n.memory.trainpool_ram_budget <= u64::MAX ==> z.pool_ram_budget
                == a.pool_ram_budget + n.memory.trainpool_ram_budget
            &&& a.pool_ram_allocatable + n.memory.trainpool_ram_available <= u64::MAX ==> z.pool_ram_allocatable
                == a.pool_ram_allocatable + n.memory.trainpool_ram_available
            &&& a.pool_ram_owned + n.memory.trainpool_ram_used <= u64::MAX ==> z.pool_ram_owned == a.pool_ram_owned
                + n.memory.trainpool_ram_used
            &&& z.pool_ram_owned == z.allocated_ram
        }),
{
    assert(nodes.push(n).drop_last() =~= nodes);
    let m = inventory(nodes);
    lemma_node_adds(m, n);
    assert(inventory(nodes.push(n)) == with_node(m, n));
    lemma_plus(m.physical_ram, n.memory.physical_ram_total);
    lemma_plus(m.pool_ram_budget, n.memory.trainpool_ram_budget);
    lemma_plus(m.pool_ram_allocatable, n.memory.trainpool_ram_available);
    lemma_plus(m.allocated_ram, n.memory.trainpool_ram_used);
}

/// A cluster without nodes has nothing.
pub proof fn law_no_nodes_no_memory()
    ensures
        ({
            let e = memory_of(Seq::empty());
            &&& e.physical_ram == 0
            &&& e.pool_ram_budget == 0
            &&& e.pool_ram_allocatable == 0
            &&& e.pool_ram_owned == 0
            &&& e.cluster_physical_vram == 0
            &&& e.cluster_usable_vram == 0
            &&& e.free_vram == 0
            &&& e.primary_gpu_usable_vram == 0
            &&& e.current_job_backing_capacity == 0
            &&& e.current_job_remaining_capacity == 0
        }),
{
    assert(crate::scheduler::planner::cards(Seq::<NodeView>::empty()).len() == 0);
}

/// Every card of a node adds its memory to the inventory, each figure to its
/// own, whether or not the card computes.
pub proof fn law_every_card_adds_to_the_inventory(nodes: Seq<NodeView>, n: NodeView, g: GpuView)
    ensures
        ({
            let a = memory_of(nodes.push(n));
            let z = memory_of(nodes.push(NodeView { gpus: n.gpus.push(g), ..n }));
            &&& a.cluster_physical_vram + g.vram_total <= u64::MAX ==> z.cluster_physical_vram
                == a.cluster_physical_vram + g.vram_total
            &&& a.cluster_usable_vram + g.usable_vram <= u64::MAX ==> z.cluster_usable_vram == a.cluster_usable_vram
                + g.usable_vram
            &&& a.free_vram + g.vram_free <= u64::MAX ==> z.free_vram == a.free_vram + g.vram_free
            &&& a.allocated_vram + g.trainpool_allocated_vram <= u64::MAX ==> z.allocated_vram == a.allocated_vram
                + g.trainpool_allocated_vram
            &&& z.physical_vram == z.cluster_physical_vram
            &&& z.usable_vram == z.cluster_usable_vram
            &&& z.pool_ram_budget == a.pool_ram_budget
        }),
{
    let more = NodeView { gpus: n.gpus.push(g), ..n };
    assert(nodes.push(n).drop_last() =~= nodes);
    assert(nodes.push(more).drop_last() =~= nodes);
    assert(n.gpus.push(g).drop_last() =~= n.gpus);
    let m = inventory(nodes);
    let w = with_node(m, n);
    assert(inventory(nodes.push(n)) == w);
    assert(inventory(nodes.push(more)) == with_node(m, more));
    lemma_plus(w.physical_vram, g.vram_total);
    lemma_plus(w.usable_vram, g.usable_vram);
    lemma_plus(w.free_vram, g.vram_free);
    lemma_plus(w.allocated_vram, g.trainpool_allocated_vram);
}

/// What a job has is the card that its plan computes on, and the RAM of the
/// pool: all the budget behind it, and of that still to have what is left.
pub proof fn law_capacity_is_one_card_and_the_pool(
    nodes: Seq<NodeView>,
    leader: crate::cluster::election::Leadership,
    topology: Seq<crate::scheduler::topology::LinkEstimate>,
    stages: Seq<crate::scheduler::planner::StageSpecView>,
    job_id: crate::ids::Uuid,
)
    ensures
        ({
            let m = memory_of(nodes);
            let p = crate::scheduler::planner::plan_of(nodes, leader, topology, stages, job_id);
            &&& p.gpu_assignments.len() == 0 ==> m.primary_gpu_usable_vram == 0 && m.primary_gpu_physical_vram == 0
            &&& p.gpu_assignments.len() > 0 ==> m.primary_gpu_usable_vram == p.gpu_assignments[0].usable_bytes
            &&& m.primary_gpu_usable_vram + m.pool_ram_budget <= u64::MAX ==> m.current_job_backing_capacity
                == m.primary_gpu_usable_vram + m.pool_ram_budget
            &&& m.primary_gpu_usable_vram + m.pool_ram_allocatable <= u64::MAX ==> m.current_job_remaining_capacity
                == m.primary_gpu_usable_vram + m.pool_ram_allocatable
            &&& m.logical_training_capacity == m.current_job_remaining_capacity
        }),
{
}

} // verus!
