//! The cluster as a node tells of it.
use crate::ids::Uuid;
use crate::metrics::{plus, sum, JobMetrics, Metrics};
use crate::node::capabilities::{node_capabilities_views, NodeCapabilities, NodeView};
use crate::node::memory::beyond;
use crate::protocol::memory::{memory_of, LogicalTrainingMemory};
use crate::protocol::request::ClusterStatus;
use crate::runtime::{MemorySample, Runtime};
use vstd::prelude::*;

verus! {

/// The job under these keys with the latest report of an SDK; of equals the
/// last.
pub open spec fn latest(keys: Seq<Uuid>, m: Map<Uuid, JobMetrics>) -> Option<Uuid>
    decreases keys.len(),
{
    if keys.len() == 0 {
        None
    } else {
        let best = latest(keys.drop_last(), m);
        match m[keys.last()].sdk_metrics_timestamp_ms {
            None => best,
            Some(t) => match best {
                Some(b) => if t >= m[b].sdk_metrics_timestamp_ms->0 {
                    Some(keys.last())
                } else {
                    best
                },
                None => Some(keys.last()),
            },
        }
    }
}

/// What the other nodes have in use for the pool.
pub open spec fn remote_used(nodes: Seq<NodeView>, node_id: Uuid) -> u64
    decreases nodes.len(),
{
    if nodes.len() == 0 {
        0
    } else if nodes.last().node_id != node_id {
        plus(remote_used(nodes.drop_last(), node_id), nodes.last().memory.trainpool_ram_used)
    } else {
        remote_used(nodes.drop_last(), node_id)
    }
}

/// The memory of the cluster with that of the node itself.
pub open spec fn with_local(m: LogicalTrainingMemory, me: NodeView, remote: u64) -> LogicalTrainingMemory {
    LogicalTrainingMemory {
        local_physical_ram: me.memory.physical_ram_total,
        local_os_available_ram: me.memory.os_available_ram,
        local_pool_ram_budget: me.memory.trainpool_ram_budget,
        local_pool_ram_used: me.memory.trainpool_ram_used,
        local_pool_ram_allocatable: me.memory.trainpool_ram_available,
        local_ram_safety_reserve: me.memory.safety_reserve,
        remote_pool_ram_used: remote,
        ..m
    }
}

/// The memory of the cluster with what an SDK reported.
pub open spec fn with_report(m: LogicalTrainingMemory, j: JobMetrics, now_ms: u64) -> LogicalTrainingMemory {
    LogicalTrainingMemory {
        sdk_metrics_timestamp_ms: j.sdk_metrics_timestamp_ms,
        sdk_metrics_age_ms: match j.sdk_metrics_timestamp_ms {
            Some(t) => Some(beyond(now_ms as int, t as int) as u64),
            None => None,
        },
        driver_used_vram_bytes: j.driver_used_vram_bytes,
        sdk_physical_vram_bytes: j.physical_vram_bytes,
        driver_free_vram_bytes: j.driver_free_vram_bytes,
        torch_allocated_bytes: j.torch_allocated_bytes,
        torch_reserved_bytes: j.torch_reserved_bytes,
        torch_reclaimable_bytes: j.torch_reclaimable_bytes,
        trainpool_resident_vram_bytes: Some(j.current_vram_resident_bytes),
        safe_vram_allocatable_bytes: j.safe_vram_allocatable_bytes,
        configured_usable_vram_ceiling_bytes: j.configured_usable_vram_ceiling_bytes,
        configured_vram_safety_reserve_bytes: j.configured_vram_safety_reserve_bytes,
        ..m
    }
}

/// The memory that a node tells of.
pub open spec fn told_memory(r: Runtime, now_ms: u64) -> LogicalTrainingMemory {
    let nodes = r.membership.all();
    let m = with_local(memory_of(nodes), r.me(), remote_used(nodes, r.node_id));
    match latest(r.metrics.jobs.keys(), r.metrics@) {
        Some(id) => with_report(m, r.metrics@[id], now_ms),
        None => m,
    }
}

/// Whether a status tells of a node as it is.
pub open spec fn tells_of(s: ClusterStatus, r: Runtime, now_ms: u64) -> bool {
    &&& s.local_node == r.node_id
    &&& s.leadership == r.led()
    &&& node_capabilities_views(s.nodes@) == r.membership.all()
    &&& s.logical_memory == told_memory(r, now_ms)
    &&& s.topology@ == r.topology@
    &&& s.chunk_bytes == r.config.chunk_bytes
    &&& s.lease_seconds == r.config.lease_seconds
}

fn find_latest(metrics: &Metrics) -> (r: Option<usize>)
    requires
        metrics.wf(),
    ensures
        match r {
            Some(i) => i < metrics.jobs.keys().len() && latest(metrics.jobs.keys(), metrics@) == Some(
                metrics.jobs.keys()[i as int],
            ),
            None => latest(metrics.jobs.keys(), metrics@) is None,
        },
{
    let ghost keys = metrics.jobs.keys();
    let n: usize = metrics.jobs.len();
    let mut best: Option<usize> = None;
    let mut time: u64 = 0;
    let mut i: usize = 0;
    while i < n
        invariant
            metrics.wf(),
            keys == metrics.jobs.keys(),
            n == keys.len(),
            i <= n,
            match best {
                Some(b) => {
                    &&& b < i
                    &&& latest(keys.take(i as int), metrics@) == Some(keys[b as int])
                    &&& metrics@[keys[b as int]].sdk_metrics_timestamp_ms == Some(time)
                },
                None => latest(keys.take(i as int), metrics@) is None,
            },
        decreases n - i,
    {
        let j: &JobMetrics = metrics.jobs.value_at(i);
        proof {
            assert(keys.take(i + 1).drop_last() =~= keys.take(i as int));
            assert(keys.take(i + 1).last() == keys[i as int]);
        }
        match j.sdk_metrics_timestamp_ms {
            Some(t) => {
                if best.is_none() || t >= time {
                    best = Some(i);
                    time = t;
                }
            },
            None => {},
        }
        i = i + 1;
    }
    proof {
        assert(keys.take(n as int) =~= keys);
    }
    best
}

fn others_used(nodes: &Vec<NodeCapabilities>, node_id: Uuid) -> (r: u64)
    ensures
        r == remote_used(node_capabilities_views(nodes@), node_id),
{
    let ghost all = node_capabilities_views(nodes@);
    let mut r: u64 = 0;
    let mut i: usize = 0;
    while i < nodes.len()
        invariant
            all == node_capabilities_views(nodes@),
            i <= nodes@.len(),
            r == remote_used(all.take(i as int), node_id),
        decreases nodes@.len() - i,
    {
        proof {
            assert(all.take(i + 1).drop_last() =~= all.take(i as int));
            assert(all.take(i + 1).last() == nodes@[i as int]@);
        }
        if nodes[i].node_id != node_id {
            r = sum(r, nodes[i].memory.trainpool_ram_used);
        }
        i = i + 1;
    }
    proof {
        assert(all.take(i as int) =~= all);
    }
    r
}

impl Runtime {
    /// The cluster as this node sees it, after a look at its RAM.
    pub fn status(&mut self, sample: MemorySample, now_ms: u64) -> (r: ClusterStatus)
        requires
            old(self).wf(),
        ensures
            final(self).wf(),
            old(self).looked(*final(self), sample),
            tells_of(r, *final(self), now_ms),
    {
        self.refresh_memory(sample);
        let nodes: Vec<NodeCapabilities> = self.membership.nodes();
        let mut m: LogicalTrainingMemory = LogicalTrainingMemory::from_nodes(&nodes);
        let me: NodeCapabilities = self.local();
        m.local_physical_ram = me.memory.physical_ram_total;
        m.local_os_available_ram = me.memory.os_available_ram;
        m.local_pool_ram_budget = me.memory.trainpool_ram_budget;
        m.local_pool_ram_used = me.memory.trainpool_ram_used;
        m.local_pool_ram_allocatable = me.memory.trainpool_ram_available;
        m.local_ram_safety_reserve = me.memory.safety_reserve;
        m.remote_pool_ram_used = others_used(&nodes, self.node_id);
        match find_latest(&self.metrics) {
            Some(i) => {
                let j: &JobMetrics = self.metrics.jobs.value_at(i);
                m.sdk_metrics_timestamp_ms = j.sdk_metrics_timestamp_ms;
                m.sdk_metrics_age_ms =
                match j.sdk_metrics_timestamp_ms {
                    Some(t) => Some(now_ms.saturating_sub(t)),
                    None => None,
                };
                m.driver_used_vram_bytes = j.driver_used_vram_bytes;
                m.sdk_physical_vram_bytes = j.physical_vram_bytes;
                m.driver_free_vram_bytes = j.driver_free_vram_bytes;
                m.torch_allocated_bytes = j.torch_allocated_bytes;
                m.torch_reserved_bytes = j.torch_reserved_bytes;
                m.torch_reclaimable_bytes = j.torch_reclaimable_bytes;
                m.trainpool_resident_vram_bytes = Some(j.current_vram_resident_bytes);
                m.safe_vram_allocatable_bytes = j.safe_vram_allocatable_bytes;
                m.configured_usable_vram_ceiling_bytes = j.configured_usable_vram_ceiling_bytes;
                m.configured_vram_safety_reserve_bytes = j.configured_vram_safety_reserve_bytes;
            },
            None => {},
        }
        ClusterStatus {
            local_node: self.node_id,
            leadership: self.leadership(),
            nodes,
            logical_memory: m,
            topology: self.topology.duplicate(),
            chunk_bytes: self.config.chunk_bytes,
            lease_seconds: self.config.lease_seconds,
        }
    }
}

} // verus!
