//! What a node can be asked for.
use crate::cluster::election::Leadership;
use crate::ids::Uuid;
use crate::memory::block::{MemoryBlockHandle, TensorMetadata};
use crate::metrics::JobMetrics;
use crate::node::capabilities::NodeCapabilities;
use crate::protocol::memory::LogicalTrainingMemory;
use crate::scheduler::planner::StageSpec;
use crate::scheduler::topology::Topology;
use vstd::prelude::*;

verus! {

/// A request of the control plane or the payload plane.
#[allow(inconsistent_fields)]
pub enum Request {
    Ping,
    Status,
    Capabilities,
    Exchange { node: NodeCapabilities, inventory: Vec<MemoryBlockHandle> },
    Inventory { page: u64 },
    Metrics,
    ReserveStaging { bytes: u64 },
    ReleaseStaging { reservation_id: Uuid },
    ReportMetrics { job_id: Uuid, metrics: JobMetrics },
    Plan { stages: Vec<StageSpec> },
    JobStatus { job_id: Uuid },
    Allocate {
        size: u64,
        job_id: Uuid,
        compute_node: Uuid,
        preferred_node: Option<Uuid>,
        tensor: Option<TensorMetadata>,
    },
    AllocateLocal { handle: MemoryBlockHandle, leadership: Leadership },
    Resolve { id: Uuid, lease_token: Uuid },
    Register { handle: MemoryBlockHandle, previous_generation: Option<u64>, leadership: Leadership },
    Publish { handle: MemoryBlockHandle, leadership: Leadership },
    WriteChunk {
        handle: MemoryBlockHandle,
        transfer_id: Uuid,
        offset: u64,
        length: usize,
        total_size: u64,
        checksum: String,
        direct: bool,
    },
    Commit { handle: MemoryBlockHandle, checksum: String, direct: bool },
    ReadChunk { handle: MemoryBlockHandle, transfer_id: Uuid, offset: u64, length: usize, direct: bool },
    Renew { handle: MemoryBlockHandle, direct: bool },
    Free { handle: MemoryBlockHandle, direct: bool },
    MemoryPressure { node_id: Uuid, currently_owned: u64, new_budget: u64, excess_bytes: u64 },
    Migrate { handle: MemoryBlockHandle, destination: Uuid, leadership: Leadership },
    Benchmark { bytes: usize },
    Probe { bytes: usize },
    Measure { destination: Uuid, bytes: usize },
    Topology,
}

/// The cluster as a node sees it.
pub struct ClusterStatus {
    pub local_node: Uuid,
    pub leadership: Leadership,
    pub nodes: Vec<NodeCapabilities>,
    pub logical_memory: LogicalTrainingMemory,
    pub topology: Topology,
    pub chunk_bytes: usize,
    pub lease_seconds: u64,
}

/// Whether only the leader answers a request: those on the shared metadata.
pub open spec fn for_leader(r: Request) -> bool {
    match r {
        Request::Plan { .. } => true,
        Request::JobStatus { .. } => true,
        Request::Allocate { .. } => true,
        Request::Resolve { .. } => true,
        Request::Register { .. } => true,
        Request::MemoryPressure { .. } => true,
        Request::Benchmark { .. } => true,
        Request::Topology => true,
        _ => false,
    }
}

/// Whether a request moves payload, so that it goes to the payload plane.
pub open spec fn for_data(r: Request) -> bool {
    match r {
        Request::WriteChunk { .. } => true,
        Request::ReadChunk { .. } => true,
        Request::Probe { .. } => true,
        _ => false,
    }
}

impl Request {
    /// Whether only the leader answers this.
    pub fn is_for_leader(&self) -> (r: bool)
        ensures
            r == for_leader(*self),
    {
        match self {
            Request::Plan { .. } => true,
            Request::JobStatus { .. } => true,
            Request::Allocate { .. } => true,
            Request::Resolve { .. } => true,
            Request::Register { .. } => true,
            Request::MemoryPressure { .. } => true,
            Request::Benchmark { .. } => true,
            Request::Topology => true,
            _ => false,
        }
    }

    /// Whether this goes to the payload plane.
    pub fn is_for_data(&self) -> (r: bool)
        ensures
            r == for_data(*self),
    {
        match self {
            Request::WriteChunk { .. } => true,
            Request::ReadChunk { .. } => true,
            Request::Probe { .. } => true,
            _ => false,
        }
    }
}

} // verus!
