//! The memory of the cluster as one.
use crate::metrics::{plus, sum};
use crate::node::capabilities::{node_capabilities_views, NodeCapabilities, NodeView};
use crate::node::gpu::{gpu_capabilities_views, GpuCapabilities, GpuView};
use crate::scheduler::planner::{cards, primary, primary_gpu, Card};
use vstd::prelude::*;

verus! {

/// The memory of the cluster, and what one job can have of it. Sums begin
/// again at zero beyond 64 bits.
#[derive(Clone, Copy, Debug, PartialEq, Eq, Structural)]
pub struct LogicalTrainingMemory {
    pub physical_ram: u64,
    pub pool_ram_budget: u64,
    pub pool_ram_allocatable: u64,
    pub pool_ram_owned: u64,
    pub allocated_ram: u64,
    pub physical_vram: u64,
    pub free_vram: u64,
    pub usable_vram: u64,
    pub allocated_vram: u64,
    pub cluster_physical_vram: u64,
    pub cluster_usable_vram: u64,
    pub primary_gpu_physical_vram: u64,
    pub primary_gpu_usable_vram: u64,
    pub current_job_backing_capacity: u64,
    pub current_job_remaining_capacity: u64,
    pub logical_training_capacity: u64,
    pub disk_spill: bool,
    pub local_physical_ram: u64,
    pub local_os_available_ram: u64,
    pub local_pool_ram_budget: u64,
    pub local_pool_ram_used: u64,
    pub local_pool_ram_allocatable: u64,
    pub local_ram_safety_reserve: u64,
    pub remote_pool_ram_used: u64,
    pub sdk_metrics_timestamp_ms: Option<u64>,
    pub sdk_metrics_age_ms: Option<u64>,
    pub sdk_physical_vram_bytes: Option<u64>,
    pub driver_used_vram_bytes: Option<u64>,
    pub driver_free_vram_bytes: Option<u64>,
    pub torch_allocated_bytes: Option<u64>,
    pub torch_reserved_bytes: Option<u64>,
    pub torch_reclaimable_bytes: Option<u64>,
    pub trainpool_resident_vram_bytes: Option<u64>,
    pub safe_vram_allocatable_bytes: Option<u64>,
    pub configured_usable_vram_ceiling_bytes: Option<u64>,
    pub configured_vram_safety_reserve_bytes: Option<u64>,
}

/// No memory.
pub open spec fn no_memory() -> LogicalTrainingMemory {
    LogicalTrainingMemory {
        physical_ram: 0,
        pool_ram_budget: 0,
        pool_ram_allocatable: 0,
        pool_ram_owned: 0,
        allocated_ram: 0,
        physical_vram: 0,
        free_vram: 0,
        usable_vram: 0,
        allocated_vram: 0,
        cluster_physical_vram: 0,
        cluster_usable_vram: 0,
        primary_gpu_physical_vram: 0,
        primary_gpu_usable_vram: 0,
        current_job_backing_capacity: 0,
        current_job_remaining_capacity: 0,
        logical_training_capacity: 0,
        disk_spill: false,
        local_physical_ram: 0,
        local_os_available_ram: 0,
        local_pool_ram_budget: 0,
        local_pool_ram_used: 0,
        local_pool_ram_allocatable: 0,
        local_ram_safety_reserve: 0,
        remote_pool_ram_used: 0,
        sdk_metrics_timestamp_ms: None,
        sdk_metrics_age_ms: None,
        sdk_physical_vram_bytes: None,
        driver_used_vram_bytes: None,
        driver_free_vram_bytes: None,
        torch_allocated_bytes: None,
        torch_reserved_bytes: None,
        torch_reclaimable_bytes: None,
        trainpool_resident_vram_bytes: None,
        safe_vram_allocatable_bytes: None,
        configured_usable_vram_ceiling_bytes: None,
        configured_vram_safety_reserve_bytes: None,
    }
}

impl Default for LogicalTrainingMemory {
    fn default() -> (r: Self)
        ensures
            r == no_memory(),
    {
        LogicalTrainingMemory {
            physical_ram: 0,
            pool_ram_budget: 0,
            pool_ram_allocatable: 0,
            pool_ram_owned: 0,
            allocated_ram: 0,
            physical_vram: 0,
            free_vram: 0,
            usable_vram: 0,
            allocated_vram: 0,
            cluster_physical_vram: 0,
            cluster_usable_vram: 0,
            primary_gpu_physical_vram: 0,
            primary_gpu_usable_vram: 0,
            current_job_backing_capacity: 0,
            current_job_remaining_capacity: 0,
            logical_training_capacity: 0,
            disk_spill: false,
            local_physical_ram: 0,
            local_os_available_ram: 0,
            local_pool_ram_budget: 0,
            local_pool_ram_used: 0,
            local_pool_ram_allocatable: 0,
            local_ram_safety_reserve: 0,
            remote_pool_ram_used: 0,
            sdk_metrics_timestamp_ms: None,
            sdk_metrics_age_ms: None,
            sdk_physical_vram_bytes: None,
            driver_used_vram_bytes: None,
            driver_free_vram_bytes: None,
            torch_allocated_bytes: None,
            torch_reserved_bytes: None,
            torch_reclaimable_bytes: None,
            trainpool_resident_vram_bytes: None,
            safe_vram_allocatable_bytes: None,
            configured_usable_vram_ceiling_bytes: None,
            configured_vram_safety_reserve_bytes: None,
        }
    }
}

/// One more card.
pub open spec fn with_card(m: LogicalTrainingMemory, g: GpuView) -> LogicalTrainingMemory {
    LogicalTrainingMemory {
        physical_vram: plus(m.physical_vram, g.vram_total),
        free_vram: plus(m.free_vram, g.vram_free),
        usable_vram: plus(m.usable_vram, g.usable_vram),
        allocated_vram: plus(m.allocated_vram, g.trainpool_allocated_vram),
        ..m
    }
}

/// Several more cards.
pub open spec fn with_cards(m: LogicalTrainingMemory, gpus: Seq<GpuView>) -> LogicalTrainingMemory
    decreases gpus.len(),
{
    if gpus.len() == 0 {
        m
    } else {
        with_card(with_cards(m, gpus.drop_last()), gpus.last())
    }
}

/// One more node.
pub open spec fn with_node(m: LogicalTrainingMemory, n: NodeView) -> LogicalTrainingMemory {
    with_cards(
        LogicalTrainingMemory {
            physical_ram: plus(m.physical_ram, n.memory.physical_ram_total),
            pool_ram_budget: plus(m.pool_ram_budget, n.memory.trainpool_ram_budget),
            pool_ram_allocatable: plus(m.pool_ram_allocatable, n.memory.trainpool_ram_available),
            allocated_ram: plus(m.allocated_ram, n.memory.trainpool_ram_used),
            ..m
        },
        n.gpus,
    )
}

/// What all nodes have together.
pub open spec fn inventory(nodes: Seq<NodeView>) -> LogicalTrainingMemory
    decreases nodes.len(),
{
    if nodes.len() == 0 {
        no_memory()
    } else {
        with_node(inventory(nodes.drop_last()), nodes.last())
    }
}

/// The memory of the cluster: what all nodes have, of which a job has the
/// pooled RAM and one card.
pub open spec fn memory_of(nodes: Seq<NodeView>) -> LogicalTrainingMemory {
    let m = inventory(nodes);
    let physical = match primary(nodes) {
        Some(c) => c.vram_total,
        None => 0,
    };
    let usable = match primary(nodes) {
        Some(c) => c.usable_bytes,
        None => 0,
    };
    LogicalTrainingMemory {
        pool_ram_owned: m.allocated_ram,
        cluster_physical_vram: m.physical_vram,
        cluster_usable_vram: m.usable_vram,
        primary_gpu_physical_vram: physical,
        primary_gpu_usable_vram: usable,
        current_job_backing_capacity: plus(usable, m.pool_ram_budget),
        current_job_remaining_capacity: plus(usable, m.pool_ram_allocatable),
        logical_training_capacity: plus(usable, m.pool_ram_allocatable),
        ..m
    }
}

impl LogicalTrainingMemory {
    fn count_cards(&mut self, gpus: &Vec<GpuCapabilities>)
        ensures
            *final(self) == with_cards(*old(self), gpu_capabilities_views(gpus@)),
    {
        let ghost before = *self;
        let ghost all = gpu_capabilities_views(gpus@);
        let mut i: usize = 0;
        while i < gpus.len()
            invariant
                all == gpu_capabilities_views(gpus@),
                i <= gpus@.len(),
                *self == with_cards(before, all.take(i as int)),
            decreases gpus@.len() - i,
        {
            let g: &GpuCapabilities = &gpus[i];
            proof {
                assert(all.take(i + 1).drop_last() =~= all.take(i as int));
                assert(all.take(i + 1).last() == g@);
            }
            self.physical_vram = sum(self.physical_vram, g.vram_total);
            self.free_vram = sum(self.free_vram, g.vram_free);
            self.usable_vram = sum(self.usable_vram, g.usable_vram);
            self.allocated_vram = sum(self.allocated_vram, g.trainpool_allocated_vram);
            i = i + 1;
        }
        proof {
            assert(all.take(i as int) =~= all);
        }
    }

    /// The memory of a cluster of these nodes.
    pub fn from_nodes(nodes: &Vec<NodeCapabilities>) -> (r: Self)
        ensures
            r == memory_of(node_capabilities_views(nodes@)),
    {
        let ghost all = node_capabilities_views(nodes@);
        let mut m = LogicalTrainingMemory::default();
        let mut i: usize = 0;
        while i < nodes.len()
            invariant
                all == node_capabilities_views(nodes@),
                i <= nodes@.len(),
                m == inventory(all.take(i as int)),
            decreases nodes@.len() - i,
        {
            let n: &NodeCapabilities = &nodes[i];
            proof {
                assert(all.take(i + 1).drop_last() =~= all.take(i as int));
                assert(all.take(i + 1).last() == n@);
            }
            m.physical_ram = sum(m.physical_ram, n.memory.physical_ram_total);
            m.pool_ram_budget = sum(m.pool_ram_budget, n.memory.trainpool_ram_budget);
            m.pool_ram_allocatable = sum(m.pool_ram_allocatable, n.memory.trainpool_ram_available);
            m.allocated_ram = sum(m.allocated_ram, n.memory.trainpool_ram_used);
            m.count_cards(&n.gpus);
            i = i + 1;
        }
        proof {
            assert(all.take(i as int) =~= all);
        }
        m.pool_ram_owned = m.allocated_ram;
        m.cluster_physical_vram = m.physical_vram;
        m.cluster_usable_vram = m.usable_vram;
        let card: Option<Card> = primary_gpu(nodes);
        match &card {
            Some(c) => {
                m.primary_gpu_physical_vram = c.vram_total;
                m.primary_gpu_usable_vram = c.usable_bytes;
            },
            None => {},
        }
        m.current_job_backing_capacity = sum(m.primary_gpu_usable_vram, m.pool_ram_budget);
        m.current_job_remaining_capacity = sum(m.primary_gpu_usable_vram, m.pool_ram_allocatable);
        m.logical_training_capacity = m.current_job_remaining_capacity;
        proof {
            lemma_inventory_plain(all);
        }
        m
    }
}

proof fn lemma_cards_plain(m: LogicalTrainingMemory, gpus: Seq<GpuView>)
    ensures
        with_cards(m, gpus).primary_gpu_physical_vram == m.primary_gpu_physical_vram,
        with_cards(m, gpus).primary_gpu_usable_vram == m.primary_gpu_usable_vram,
    decreases gpus.len(),
{
    if gpus.len() > 0 {
        lemma_cards_plain(m, gpus.drop_last());
    }
}

proof fn lemma_inventory_plain(nodes: Seq<NodeView>)
    ensures
        inventory(nodes).primary_gpu_physical_vram == 0,
        inventory(nodes).primary_gpu_usable_vram == 0,
    decreases nodes.len(),
{
    if nodes.len() > 0 {
        lemma_inventory_plain(nodes.drop_last());
        let m = inventory(nodes.drop_last());
        let n = nodes.last();
        lemma_cards_plain(
            LogicalTrainingMemory {
                physical_ram: plus(m.physical_ram, n.memory.physical_ram_total),
                pool_ram_budget: plus(m.pool_ram_budget, n.memory.trainpool_ram_budget),
                pool_ram_allocatable: plus(m.pool_ram_allocatable, n.memory.trainpool_ram_available),
                allocated_ram: plus(m.allocated_ram, n.memory.trainpool_ram_used),
                ..m
            },
            n.gpus,
        );
    }
}

/// The inventory of cards is not what a job can have: of all cards it has the
/// primary one, and none where no node computes.
pub proof fn law_inventory_is_not_capacity(nodes: Seq<NodeView>)
    ensures
        memory_of(nodes).logical_training_capacity == plus(
            memory_of(nodes).primary_gpu_usable_vram,
            memory_of(nodes).pool_ram_allocatable,
        ),
        memory_of(nodes).current_job_backing_capacity == plus(
            memory_of(nodes).primary_gpu_usable_vram,
            memory_of(nodes).pool_ram_budget,
        ),
        (forall|i: int| 0 <= i < nodes.len() ==> !(#[trigger] nodes[i]).runtime.gpu_compute)
            ==> memory_of(nodes).primary_gpu_usable_vram == 0 && memory_of(nodes).primary_gpu_physical_vram == 0,
{
    if forall|i: int| 0 <= i < nodes.len() ==> !(#[trigger] nodes[i]).runtime.gpu_compute {
        lemma_no_cards(nodes);
    }
}

proof fn lemma_no_cards(nodes: Seq<NodeView>)
    requires
        forall|i: int| 0 <= i < nodes.len() ==> !(#[trigger] nodes[i]).runtime.gpu_compute,
    ensures
        cards(nodes).len() == 0,
    decreases nodes.len(),
{
    if nodes.len() > 0 {
        assert(!nodes[nodes.len() - 1].runtime.gpu_compute);
        assert forall|i: int| 0 <= i < nodes.drop_last().len() implies !(
        #[trigger] nodes.drop_last()[i]).runtime.gpu_compute by {
            assert(!nodes[i].runtime.gpu_compute);
        }
        lemma_no_cards(nodes.drop_last());
    }
}

} // verus!
