//! A node as others see it.
use crate::address::SocketAddress;
use crate::arith::capped;
use crate::config::{Config, ConfigView};
use crate::ids::{hyphenated, uuid_text, Uuid};
use crate::node::cpu::{CpuCapabilities, CpuView};
use crate::node::gpu::{copy_gpu_capabilities, gpu_capabilities_views, GpuCapabilities, GpuView};
use crate::node::memory::{memory_for, MemoryCapabilities};
use crate::runtime::MemorySample;
use vstd::prelude::*;

verus! {

/// What a node does for others.
#[derive(Clone, Debug)]
pub struct RuntimeCapabilities {
    pub gpu_compute: bool,
    pub ram_provider: bool,
    pub disk_spill: bool,
    pub version: String,
}

/// The model of [`RuntimeCapabilities`].
pub struct RuntimeView {
    pub gpu_compute: bool,
    pub ram_provider: bool,
    pub disk_spill: bool,
    pub version: Seq<char>,
}

impl View for RuntimeCapabilities {
    type V = RuntimeView;

    open spec fn view(&self) -> RuntimeView {
        RuntimeView {
            gpu_compute: self.gpu_compute,
            ram_provider: self.ram_provider,
            disk_spill: self.disk_spill,
            version: self.version@,
        }
    }
}

impl RuntimeCapabilities {
    /// An equal copy.
    pub fn duplicate(&self) -> (r: Self)
        ensures
            r@ == self@,
    {
        RuntimeCapabilities {
            gpu_compute: self.gpu_compute,
            ram_provider: self.ram_provider,
            disk_spill: self.disk_spill,
            version: self.version.clone(),
        }
    }
}

/// How a node is reached.
#[derive(Clone, Debug)]
pub struct NetworkCapabilities {
    pub control_address: SocketAddress,
    pub data_address: Option<SocketAddress>,
    pub transport: String,
    pub data_transport: String,
    pub chunk_bytes: usize,
    pub active_transfers: u32,
}

/// The model of [`NetworkCapabilities`].
pub struct NetworkView {
    pub control_address: SocketAddress,
    pub data_address: Option<SocketAddress>,
    pub transport: Seq<char>,
    pub data_transport: Seq<char>,
    pub chunk_bytes: usize,
    pub active_transfers: u32,
}

impl View for NetworkCapabilities {
    type V = NetworkView;

    open spec fn view(&self) -> NetworkView {
        NetworkView {
            control_address: self.control_address,
            data_address: self.data_address,
            transport: self.transport@,
            data_transport: self.data_transport@,
            chunk_bytes: self.chunk_bytes,
            active_transfers: self.active_transfers,
        }
    }
}

impl NetworkCapabilities {
    /// An equal copy.
    pub fn duplicate(&self) -> (r: Self)
        ensures
            r@ == self@,
    {
        NetworkCapabilities {
            control_address: self.control_address,
            data_address: self.data_address,
            transport: self.transport.clone(),
            data_transport: self.data_transport.clone(),
            chunk_bytes: self.chunk_bytes,
            active_transfers: self.active_transfers,
        }
    }
}

/// A node as others see it.
#[derive(Clone, Debug)]
pub struct NodeCapabilities {
    pub node_id: Uuid,
    /// Another one on each start, so that a restart is told from a retained state.
    pub incarnation: Uuid,
    pub leader_generation: Uuid,
    pub hostname: String,
    pub os: String,
    pub architecture: String,
    pub cpu: CpuCapabilities,
    pub memory: MemoryCapabilities,
    pub gpus: Vec<GpuCapabilities>,
    pub network: NetworkCapabilities,
    pub runtime: RuntimeCapabilities,
}

/// The model of [`NodeCapabilities`].
pub struct NodeView {
    pub node_id: Uuid,
    pub incarnation: Uuid,
    pub leader_generation: Uuid,
    pub hostname: Seq<char>,
    pub os: Seq<char>,
    pub architecture: Seq<char>,
    pub cpu: CpuView,
    pub memory: MemoryCapabilities,
    pub gpus: Seq<GpuView>,
    pub network: NetworkView,
    pub runtime: RuntimeView,
}

impl View for NodeCapabilities {
    type V = NodeView;

    open spec fn view(&self) -> NodeView {
        NodeView {
            node_id: self.node_id,
            incarnation: self.incarnation,
            leader_generation: self.leader_generation,
            hostname: self.hostname@,
            os: self.os@,
            architecture: self.architecture@,
            cpu: self.cpu@,
            memory: self.memory,
            gpus: gpu_capabilities_views(self.gpus@),
            network: self.network@,
            runtime: self.runtime@,
        }
    }
}

impl NodeCapabilities {
    /// An equal copy.
    pub fn duplicate(&self) -> (r: Self)
        ensures
            r@ == self@,
    {
        NodeCapabilities {
            node_id: self.node_id,
            incarnation: self.incarnation,
            leader_generation: self.leader_generation,
            hostname: self.hostname.clone(),
            os: self.os.clone(),
            architecture: self.architecture.clone(),
            cpu: self.cpu.duplicate(),
            memory: self.memory,
            gpus: copy_gpu_capabilities(&self.gpus),
            network: self.network.duplicate(),
            runtime: self.runtime.duplicate(),
        }
    }
}

/// The models of several.
pub open spec fn node_capabilities_views(s: Seq<NodeCapabilities>) -> Seq<NodeView> {
    s.map_values(|x: NodeCapabilities| x@)
}

/// The memory of several cards on top of `start`, as far as 64 bits go.
pub open spec fn card_total(start: u64, gpus: Seq<GpuView>) -> u64
    decreases gpus.len(),
{
    if gpus.len() == 0 {
        start
    } else {
        capped(card_total(start, gpus.drop_last()) + gpus.last().vram_total)
    }
}

impl NodeView {
    /// RAM and the memory of all cards together, whatever is in use.
    pub open spec fn score(self) -> u64 {
        card_total(self.memory.physical_ram_total, self.gpus)
    }
}

impl NodeCapabilities {
    /// RAM and the memory of all cards together, whatever is in use.
    pub fn election_score(&self) -> (r: u64)
        ensures
            r == self@.score(),
    {
        let mut total: u64 = self.memory.physical_ram_total;
        let mut i: usize = 0;
        let ghost all = self@.gpus;
        while i < self.gpus.len()
            invariant
                all == self@.gpus,
                all.len() == self.gpus@.len(),
                i <= all.len(),
                total == card_total(self.memory.physical_ram_total, all.take(i as int)),
            decreases all.len() - i,
        {
            proof {
                assert(all.take(i + 1).drop_last() =~= all.take(i as int));
                assert(all[i as int] == self.gpus@[i as int]@);
            }
            total = total.saturating_add(self.gpus[i].vram_total);
            i = i + 1;
        }
        proof {
            assert(all.take(i as int) =~= all);
        }
        total
    }
}

/// What the system says of itself.
pub struct Found {
    pub hostname: Option<String>,
    pub os: String,
    pub architecture: String,
    pub cpu_model: Option<String>,
    pub physical_cores: Option<usize>,
    pub logical_cores: usize,
    pub total_ram: u64,
    pub gpus: Vec<GpuCapabilities>,
    /// The version of this software.
    pub version: String,
}

/// The RAM that is free: no more than a container leaves.
pub fn available_ram(system: u64, container: Option<u64>) -> (r: u64)
    ensures
        r == match container {
            Some(free) => if free < system {
                free
            } else {
                system
            },
            None => system,
        },
{
    match container {
        Some(free) => if free < system {
            free
        } else {
            system
        },
        None => system,
    }
}

/// The node that a system makes.
pub open spec fn detected(
    id: Uuid,
    address: SocketAddress,
    config: ConfigView,
    found: Found,
    incarnation: Uuid,
    leader_generation: Uuid,
    sample: MemorySample,
) -> NodeView {
    NodeView {
        node_id: id,
        incarnation,
        leader_generation,
        hostname: match found.hostname {
            Some(name) => name@,
            None => hyphenated(id),
        },
        os: found.os@,
        architecture: found.architecture@,
        cpu: CpuView {
            model: match found.cpu_model {
                Some(model) => model@,
                None => "unknown"@,
            },
            physical_cores: match found.physical_cores {
                Some(n) => n,
                None => 0,
            },
            logical_cores: found.logical_cores,
            architecture: found.architecture@,
        },
        memory: memory_for(
            found.total_ram,
            sample.available,
            0,
            sample.ceiling,
            config.ram_limit_bytes,
            config.ram_reserve_bytes,
            sample.reserve_share,
        ),
        gpus: gpu_capabilities_views(found.gpus@),
        network: NetworkView {
            control_address: address,
            data_address: Some(address),
            transport: "framed-tcp-control"@,
            data_transport: config.data_transport,
            chunk_bytes: config.chunk_bytes,
            active_transfers: 0,
        },
        runtime: RuntimeView {
            gpu_compute: found.gpus@.len() > 0,
            ram_provider: true,
            disk_spill: false,
            version: found.version@,
        },
    }
}

impl NodeCapabilities {
    /// A node on its first start, from what its system says.
    pub fn detect(
        id: Uuid,
        address: SocketAddress,
        config: &Config,
        found: Found,
        incarnation: Uuid,
        leader_generation: Uuid,
        sample: MemorySample,
    ) -> (r: Self)
        ensures
            r@ == detected(id, address, config@, found, incarnation, leader_generation, sample),
    {
        let hostname: String = match found.hostname {
            Some(name) => name,
            None => uuid_text(id),
        };
        let model: String = match found.cpu_model {
            Some(model) => model,
            None => "unknown".to_owned(),
        };
        let physical_cores: usize = match found.physical_cores {
            Some(n) => n,
            None => 0,
        };
        let gpu_compute: bool = found.gpus.len() > 0;
        NodeCapabilities {
            node_id: id,
            incarnation,
            leader_generation,
            hostname,
            os: found.os,
            architecture: found.architecture.clone(),
            cpu: CpuCapabilities {
                model,
                physical_cores,
                logical_cores: found.logical_cores,
                architecture: found.architecture,
            },
            memory: MemoryCapabilities::calculate(
                found.total_ram,
                sample.available,
                0,
                sample.ceiling,
                config.ram_limit_bytes,
                config.ram_reserve_bytes,
                sample.reserve_share,
            ),
            gpus: found.gpus,
            network: NetworkCapabilities {
                control_address: address,
                data_address: Some(address),
                transport: "framed-tcp-control".to_owned(),
                data_transport: config.data_transport.clone(),
                chunk_bytes: config.chunk_bytes,
                active_transfers: 0,
            },
            runtime: RuntimeCapabilities { gpu_compute, ram_provider: true, disk_spill: false, version: found.version },
        }
    }
}

} // verus!
