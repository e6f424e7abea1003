//! What a node answers to requests of the control plane. Metadata is the
//! leader's; bytes are moved elsewhere.
use crate::address::SocketAddress;
use crate::cluster::election::Leadership;
use crate::cluster::membership::{Peer, PeerView};
use crate::double::Double;
use crate::error::Error;
use crate::ids::Uuid;
use crate::jobs::{Job, JobView};
use crate::memory::allocator::{risen, LedgerEntry, Reservation};
use crate::memory::block::{
    tensor_check, BlockState, HandleView, Location, LocationView, MemoryBlockHandle, TensorMetadata, TensorView,
};
use crate::memory::migration::{lease_end, Migration};
use crate::memory::residency::registered;
use crate::metrics::{job_of, plus, sum, JobMetrics};
use crate::node::capabilities::{node_capabilities_views, NodeCapabilities, NodeView};
use crate::node::gpu::{GpuCapabilities, GpuView};
use crate::protocol::request::{ClusterStatus, Request};
use crate::runtime::{MemorySample, Runtime, Staged};
use crate::scheduler::placement::{is_ranking, CapacityPlacement, PlacementPolicy};
use crate::scheduler::planner::{
    plan_of, plan_refusal, stage_spec_views, CapacityPlanner, StageSpec, StageSpecView, TrainingPlan, TrainingPlanner,
};
use crate::scheduler::topology::Topology;
use crate::text::{copy_text, same_text};
use vstd::prelude::*;

verus! {

/// The data of an answer.
pub enum Reply {
    Nothing,
    Time { now_ms: u64 },
    Id { id: Uuid },
    Status { status: ClusterStatus },
    Node { node: NodeCapabilities },
    Exchange { node: NodeCapabilities, inventory: Vec<MemoryBlockHandle> },
    Handles { handles: Vec<MemoryBlockHandle> },
    Metrics { owned_ram: u64, peak_ram: u64 },
    Plan { plan: TrainingPlan },
    Job { job: Job },
    Handle { handle: MemoryBlockHandle },
    Relieved { requested_bytes: u64, migrated_bytes: u64, unresolved_bytes: u64 },
    Topology { topology: Topology },
}

/// What is to be done with a block once its owner is known.
pub enum Routed {
    Commit { checksum: String },
    Renew,
    Free,
}

/// What follows a request.
pub enum ControlStep {
    Reply { reply: Reply },
    /// The leader is asked in this node's place.
    Forward { request: Request },
    /// The leader is asked where the block is.
    Resolve { handle: MemoryBlockHandle, routed: Routed },
    /// The leader is told; then comes the answer.
    Register { request: Request, reply: Reply },
    Allocate { allocation: Allocation },
    Relieve { source: Uuid, excess: u64 },
    Migrate { migration: Migration },
    Benchmark { bytes: usize },
    Measure { address: SocketAddress, destination: Uuid, bytes: usize },
}

/// The most bytes of one measurement.
pub const PROBE_LIMIT: usize = 67_108_864;

/// The most stages of one job.
pub const STAGE_LIMIT: usize = 4096;

/// RAM that an allocation leaves free, for payloads that pass through.
pub const HEADROOM: u64 = 262_144;

/// What a promise to an SDK leads to.
pub open spec fn promised(
    a: Runtime,
    z: Runtime,
    bytes: u64,
    id: Uuid,
    sample: MemorySample,
    now_ms: u64,
    r: Result<Uuid, Error>,
) -> bool {
    if bytes > a.config.chunk_bytes {
        r == Err::<Uuid, Error>(Error::StagingTooLarge) && z == a
    } else {
        exists|mid: Runtime|
            {
                &&& #[trigger] a.looked(mid, sample)
                &&& promise_kept(mid, z, bytes, id, now_ms, r)
            }
    }
}

/// What a promise to an SDK leads to, once the RAM has been looked at.
pub open spec fn promise_kept(mid: Runtime, z: Runtime, bytes: u64, id: Uuid, now_ms: u64, r: Result<Uuid, Error>) -> bool {
    let entry = LedgerEntry { ticket: mid.ram.accounting.next_ticket(), bytes, job: None };
    if mid.ram.accounting.owned + bytes > mid.ram.accounting.budget {
        r == Err::<Uuid, Error>(Error::OutOfCapacity { bytes }) && z == mid
    } else {
        &&& r == Ok::<Uuid, Error>(id)
        &&& z == (Runtime { staging: z.staging, ram: z.ram, ..mid })
        &&& z.staging@ == mid.staging@.insert(id, z.staging@[id])
        &&& z.staging@[id].reservation.entry() == entry
        &&& z.staging@[id].deadline_ms == lease_end(mid.config@, now_ms)
        &&& z.ram.same_blocks(&mid.ram)
        &&& z.ram@ == mid.ram@
        &&& z.ram.accounting.budget == mid.ram.accounting.budget
        &&& z.ram.accounting.owned == mid.ram.accounting.owned + bytes - (if mid.staging@.contains_key(id) {
            mid.staging@[id].reservation.entry().bytes as int
        } else {
            0
        })
        &&& z.ram.accounting.peak == risen(mid.ram.accounting.peak, mid.ram.accounting.owned + bytes)
        &&& z.ram.accounting.jobs == mid.ram.accounting.jobs
        &&& forall|e: LedgerEntry|
            z.ram.accounting.holds(e) == (mid.ram.accounting.holds(e) && !(mid.staging@.contains_key(id) && e
                == mid.staging@[id].reservation.entry()) || e == entry)
    }
}

impl Runtime {
    /// Promises RAM to an SDK under an id, until the lease runs out.
    pub fn reserve_staging_as(&mut self, bytes: u64, id: Uuid, sample: MemorySample, now_ms: u64) -> (r: Result<
        Uuid,
        Error,
    >)
        requires
            old(self).wf(),
        ensures
            final(self).wf(),
            promised(*old(self), *final(self), bytes, id, sample, now_ms, r),
    {
        let ghost first = *self;
        if bytes > self.config.chunk_bytes as u64 {
            return Err(Error::StagingTooLarge);
        }
        self.refresh_memory(sample);
        let ghost mid = *self;
        proof {
            assert(first.looked(mid, sample));
        }
        let held: Reservation = match self.ram.reserve(bytes) {
            Ok(held) => held,
            Err(e) => {
                proof {
                    assert(promise_kept(mid, *self, bytes, id, now_ms, Err(e)));
                }
                return Err(e);
            },
        };
        let ghost entry = held.entry();
        let ghost reserved = *self;
        proof {
            mid.lemma_ram_changed(reserved);
            assert(!reserved.owns(entry)) by {
                if reserved.stages(entry) {
                    let k = choose|k: Uuid|
                        #[trigger] reserved.staging@.contains_key(k) && reserved.staging@[k].reservation.entry() == entry;
                    assert(mid.ram.accounting.holds(mid.staging@[k].reservation.entry()));
                }
                if reserved.udp_server.owns(entry) {
                    let i = choose|i: int|
                        0 <= i < reserved.udp_server.sessions().len() && (
                        #[trigger] reserved.udp_server.sessions()[i]).1.entry == entry;
                    assert(mid.ram.accounting.holds(mid.udp_server.sessions()[i].1.entry));
                }
                if reserved.ram.owns(entry) {
                    reserved.ram.lemma_owned(entry);
                }
            }
        }
        self.release_staging(id);
        let ghost cleared = *self;
        let deadline_ms: u64 = sum(now_ms, self.config.lease_seconds * 1000);
        let _ = self.staging.insert(id, Staged { reservation: held, deadline_ms });
        proof {
            assert(cleared.ram.accounting.holds(entry)) by {
                if reserved.staging@.contains_key(id) {
                    assert(reserved.stages(reserved.staging@[id].reservation.entry()));
                }
            }
            assert forall|k: Uuid| #[trigger] self.staging@.contains_key(k) implies {
                &&& self.ram.accounting.holds(self.staging@[k].reservation.entry())
                &&& self.staging@[k].reservation.entry().job is None
                &&& !self.udp_server.owns(self.staging@[k].reservation.entry())
                &&& k != id ==> self.staging@[k].reservation.entry() != entry
            } by {
                if k != id {
                    assert(cleared.staging@.contains_key(k));
                    assert(reserved.staging@.contains_key(k));
                    assert(reserved.stages(reserved.staging@[k].reservation.entry()));
                }
            }
            assert(self.staging@ =~= mid.staging@.insert(id, self.staging@[id]));
            assert(promise_kept(mid, *self, bytes, id, now_ms, Ok(id)));
        }
        Ok(id)
    }
}

/// What planning a job leads to.
pub open spec fn planned(a: Runtime, z: Runtime, stages: Seq<StageSpecView>, job_id: Uuid, r: Result<TrainingPlan, Error>) -> bool {
    let nodes = a.membership.all();
    match r {
        Ok(p) => {
            &&& stages.len() <= STAGE_LIMIT
            &&& plan_refusal(nodes, a.led(), stages) is None
            &&& p@ == plan_of(nodes, a.led(), a.topology@, stages, job_id)
            &&& z == (Runtime { jobs: z.jobs, ..a })
            &&& z.jobs@ == a.jobs@.insert(job_id, JobView { plan: p@, error: None })
        },
        Err(e) => {
            &&& z == a
            &&& if stages.len() > STAGE_LIMIT {
                e == Error::TooManyStages
            } else {
                plan_refusal(nodes, a.led(), stages) == Some(e.text())
            }
        },
    }
}

/// Why the state of a job is not told.
pub open spec fn job_refusal(a: Runtime, job_id: Uuid) -> Option<Seq<char>> {
    if !a.jobs@.contains_key(job_id) {
        Some(Error::JobUnknown.text())
    } else if a.jobs@[job_id].plan.leader_epoch != a.led().leader_epoch {
        Some(Error::JobStale.text())
    } else {
        a.jobs@[job_id].error
    }
}

impl Runtime {
    /// Plans a job under an id and keeps the plan.
    pub fn plan_as(&mut self, stages: &Vec<StageSpec>, job_id: Uuid) -> (r: Result<TrainingPlan, Error>)
        requires
            old(self).wf(),
        ensures
            final(self).wf(),
            planned(*old(self), *final(self), stage_spec_views(stages@), job_id, r),
            r matches Ok(p) ==> p.wf(),
    {
        if stages.len() > STAGE_LIMIT {
            return Err(Error::TooManyStages);
        }
        let nodes: Vec<NodeCapabilities> = self.membership.nodes();
        let leader: Leadership = self.leadership();
        let plan: TrainingPlan = CapacityPlanner.plan_as(&nodes, &leader, &self.topology, stages, job_id)?;
        let kept: TrainingPlan = plan.duplicate();
        self.jobs.insert(Job { plan: kept, error: None });
        Ok(plan)
    }

    /// The state of a job, if it can go on under this leader.
    pub fn job_status(&self, job_id: Uuid) -> (r: Result<Job, Error>)
        requires
            self.wf(),
        ensures
            match r {
                Ok(j) => job_refusal(*self, job_id) is None && j@ == self.jobs@[job_id] && j.wf(),
                Err(e) => job_refusal(*self, job_id) == Some(e.text()),
            },
    {
        let epoch: Uuid = self.leadership().leader_epoch;
        match self.jobs.get(job_id) {
            None => Err(Error::JobUnknown),
            Some(job) => {
                if job.plan.leader_epoch != epoch {
                    return Err(Error::JobStale);
                }
                match &job.error {
                    Some(text) => Err(Error::Told { text: text.clone() }),
                    None => Ok(job.duplicate()),
                }
            },
        }
    }
}

/// A node that may be asked for room.
#[derive(Clone, Copy, Debug, PartialEq, Eq, Structural)]
pub struct Candidate {
    pub node_id: Uuid,
    pub incarnation: Uuid,
    pub address: SocketAddress,
}

/// A block on the way to the first node that has room for it.
pub struct Allocation {
    pub job_id: Uuid,
    pub size: u64,
    pub tensor: Option<TensorMetadata>,
    pub leadership: Leadership,
    pub candidates: Vec<Candidate>,
    pub next: usize,
    /// What the last node that was asked said.
    pub last_error: String,
}

/// The view of an optional tensor.
pub open spec fn tensor_view(t: Option<TensorMetadata>) -> Option<TensorView> {
    match t {
        Some(m) => Some(m@),
        None => None,
    }
}

/// A node as a candidate.
pub open spec fn candidate(n: NodeView) -> Candidate {
    Candidate { node_id: n.node_id, incarnation: n.incarnation, address: n.network.control_address }
}

/// The candidates of a ranking; where a node is preferred, only that one.
pub open spec fn candidates_of(ranked: Seq<usize>, nodes: Seq<NodeView>, preferred: Option<Uuid>) -> Seq<Candidate>
    decreases ranked.len(),
{
    if ranked.len() == 0 {
        Seq::empty()
    } else {
        let n = nodes[ranked.last() as int];
        let rest = candidates_of(ranked.drop_last(), nodes, preferred);
        if preferred is None || preferred == Some(n.node_id) {
            rest.push(candidate(n))
        } else {
            rest
        }
    }
}

/// Why no block is allocated for a job.
pub open spec fn allocation_refusal(a: Runtime, size: u64, job_id: Uuid, tensor: Option<TensorView>) -> Option<Seq<char>> {
    if tensor is Some && tensor_check(tensor->0, size) is Err {
        Some(tensor_check(tensor->0, size)->Err_0.text())
    } else if size == 0 {
        Some(Error::ZeroLength.text())
    } else if !a.jobs@.contains_key(job_id) {
        Some(Error::JobLost.text())
    } else if a.jobs@[job_id].error is Some {
        a.jobs@[job_id].error
    } else if a.jobs@[job_id].plan.leader_epoch != a.led().leader_epoch {
        Some(Error::StaleLeader.text())
    } else {
        None
    }
}

/// What is known when candidates are about to be asked.
pub open spec fn searched(
    a: Runtime,
    z: Runtime,
    size: u64,
    job_id: Uuid,
    compute_node: Uuid,
    preferred: Option<Uuid>,
    tensor: Option<TensorView>,
    costs: Seq<Double>,
    sample: MemorySample,
    r: Result<Allocation, Error>,
) -> bool {
    match r {
        Err(e) => allocation_refusal(a, size, job_id, tensor) == Some(e.text()) && z == a,
        Ok(al) => {
            &&& allocation_refusal(a, size, job_id, tensor) is None
            &&& a.looked(z, sample)
            &&& al.job_id == job_id
            &&& al.size == size
            &&& tensor_view(al.tensor) == tensor
            &&& al.leadership == z.led()
            &&& al.next == 0
            &&& al.last_error@ == "no eligible memory nodes"@
            &&& exists|ranked: Seq<usize>|
                {
                    &&& #[trigger] is_ranking(
                        ranked,
                        z.membership.all(),
                        costs,
                        compute_node,
                        size,
                        z.membership.all().len() as int,
                    )
                    &&& al.candidates@ == candidates_of(ranked, z.membership.all(), preferred)
                }
        },
    }
}

/// The handle of a block that a node is asked for.
pub open spec fn asked_handle(al: Allocation, c: Candidate, id: Uuid, token: Uuid, expires_ms: u64) -> HandleView {
    HandleView {
        id,
        job_id: al.job_id,
        size: al.size,
        owner_node: c.node_id,
        owner_incarnation: c.incarnation,
        location_type: LocationView::Ram { node_id: c.node_id },
        checksum: None,
        state: BlockState::Writing,
        lease_token: token,
        lease_expires_ms: expires_ms,
        generation: 0,
        tensor: tensor_view(al.tensor),
    }
}

fn copy_tensor(t: &Option<TensorMetadata>) -> (r: Option<TensorMetadata>)
    ensures
        tensor_view(r) == tensor_view(*t),
{
    match t {
        Some(m) => Some(m.duplicate()),
        None => None,
    }
}

/// What an answer of a candidate leads to: a block that is known, or the next
/// candidate.
pub open spec fn replied(
    a: Runtime,
    z: Runtime,
    before: Allocation,
    after: Allocation,
    h: HandleView,
    refusal: Option<String>,
    r: Option<MemoryBlockHandle>,
) -> bool {
    match refusal {
        None => {
            &&& r matches Some(made)
            &&& made@ == h
            &&& z == (Runtime { residency: z.residency, ..a })
            &&& z.residency@ == registered(a.residency@, h)
            &&& after == before
        },
        Some(text) => {
            &&& r is None
            &&& z == a
            &&& after == (Allocation { next: (before.next + 1) as usize, last_error: text, ..before })
        },
    }
}

impl Runtime {
    /// Begins to look for room for a block of a job. `costs[i]` is what it
    /// costs to move the block from the computing node to node `i`.
    pub fn begin_allocation(
        &mut self,
        size: u64,
        job_id: Uuid,
        compute_node: Uuid,
        preferred: Option<Uuid>,
        tensor: Option<TensorMetadata>,
        costs: &Vec<Double>,
        sample: MemorySample,
    ) -> (r: Result<Allocation, Error>)
        requires
            old(self).wf(),
            costs@.len() == old(self).membership.all().len(),
        ensures
            final(self).wf(),
            searched(
                *old(self),
                *final(self),
                size,
                job_id,
                compute_node,
                preferred,
                tensor_view(tensor),
                costs@,
                sample,
                r,
            ),
    {
        let ghost first = *self;
        match &tensor {
            Some(t) => {
                t.validate(size)?;
            },
            None => {},
        }
        if size == 0 {
            return Err(Error::ZeroLength);
        }
        let epoch: Uuid = self.leadership().leader_epoch;
        match self.jobs.get(job_id) {
            None => {
                return Err(Error::JobLost);
            },
            Some(job) => {
                match &job.error {
                    Some(text) => {
                        return Err(Error::Told { text: text.clone() });
                    },
                    None => {},
                }
                if job.plan.leader_epoch != epoch {
                    return Err(Error::StaleLeader);
                }
            },
        }
        self.refresh_memory(sample);
        let nodes: Vec<NodeCapabilities> = self.membership.nodes();
        let ghost all = node_capabilities_views(nodes@);
        proof {
            assert(all.len() == nodes@.len());
            assert(all.len() == first.membership.all().len());
        }
        let ranked: Vec<usize> = CapacityPlacement.rank_ram(&nodes, compute_node, size, costs);
        let mut candidates: Vec<Candidate> = Vec::new();
        let mut i: usize = 0;
        proof {
            assert(ranked@.take(0) =~= Seq::<usize>::empty());
        }
        while i < ranked.len()
            invariant
                i <= ranked@.len(),
                all == node_capabilities_views(nodes@),
                forall|k: int| 0 <= k < ranked@.len() ==> (#[trigger] ranked@[k]) < nodes@.len(),
                candidates@ == candidates_of(ranked@.take(i as int), all, preferred),
            decreases ranked@.len() - i,
        {
            proof {
                assert(ranked@[i as int] < nodes@.len());
                assert(ranked@.take(i + 1).drop_last() =~= ranked@.take(i as int));
                assert(ranked@.take(i + 1).last() == ranked@[i as int]);
                assert(all[ranked@[i as int] as int] == nodes@[ranked@[i as int] as int]@);
            }
            let n: &NodeCapabilities = &nodes[ranked[i]];
            let wanted: bool = match preferred {
                Some(id) => id == n.node_id,
                None => true,
            };
            if wanted {
                candidates.push(
                    Candidate {
                        node_id: n.node_id,
                        incarnation: n.incarnation,
                        address: n.network.control_address,
                    },
                );
            }
            i = i + 1;
        }
        proof {
            assert(ranked@.take(i as int) =~= ranked@);
        }
        Ok(
            Allocation {
                job_id,
                size,
                tensor,
                leadership: self.leadership(),
                candidates,
                next: 0,
                last_error: "no eligible memory nodes".to_owned(),
            },
        )
    }

    /// The next candidate, and the block it is asked for under the given id
    /// and token; an error when all have been asked.
    pub fn allocation_next(&self, al: &Allocation, id: Uuid, token: Uuid, now_ms: u64) -> (r: Result<
        (SocketAddress, MemoryBlockHandle),
        Error,
    >)
        requires
            self.wf(),
        ensures
            match r {
                Ok((address, handle)) => {
                    &&& al.next < al.candidates@.len()
                    &&& address == al.candidates@[al.next as int].address
                    &&& handle@ == asked_handle(
                        *al,
                        al.candidates@[al.next as int],
                        id,
                        token,
                        lease_end(self.config@, now_ms),
                    )
                },
                Err(e) => {
                    &&& al.next >= al.candidates@.len()
                    &&& e.text() == "TRAINPOOL_OUT_OF_CAPACITY: "@ + al.last_error@
                },
            },
    {
        if al.next >= al.candidates.len() {
            return Err(Error::NoCapacity { reason: al.last_error.clone() });
        }
        let c: Candidate = al.candidates[al.next];
        let handle = MemoryBlockHandle {
            id,
            job_id: al.job_id,
            size: al.size,
            owner_node: c.node_id,
            owner_incarnation: c.incarnation,
            location_type: Location::Ram { node_id: c.node_id },
            checksum: None,
            state: BlockState::Writing,
            lease_token: token,
            lease_expires_ms: sum(now_ms, self.config.lease_seconds * 1000),
            generation: 0,
            tensor: copy_tensor(&al.tensor),
        };
        Ok((c.address, handle))
    }

    /// Takes what a candidate said: the block is there and the leader notes it,
    /// or the next one is asked.
    pub fn allocation_answered(&mut self, al: &mut Allocation, handle: MemoryBlockHandle, refusal: Option<String>) -> (r:
        Option<MemoryBlockHandle>)
        requires
            old(self).wf(),
            old(al).next < old(al).candidates@.len(),
        ensures
            final(self).wf(),
            replied(*old(self), *final(self), *old(al), *final(al), handle@, refusal, r),
    {
        match refusal {
            None => {
                self.residency.register(handle.duplicate());
                Some(handle)
            },
            Some(text) => {
                let count: usize = al.candidates.len();
                assert(al.next < count);
                al.next = al.next + 1;
                al.last_error = text;
                None
            },
        }
    }
}

/// What an SDK reported on top of the counters of a job; `waited` is the time
/// that the card waited in all.
pub open spec fn with_sdk(j: JobMetrics, m: JobMetrics, waited: Double) -> JobMetrics {
    JobMetrics {
        bytes_local_ram_to_gpu: plus(j.bytes_local_ram_to_gpu, m.bytes_local_ram_to_gpu),
        bytes_gpu_to_local_ram: plus(j.bytes_gpu_to_local_ram, m.bytes_gpu_to_local_ram),
        prefetch_hits: plus(j.prefetch_hits, m.prefetch_hits),
        prefetch_misses: plus(j.prefetch_misses, m.prefetch_misses),
        gpu_wait_for_data_ms: waited,
        peak_gpu_residency: if j.peak_gpu_residency >= m.peak_gpu_residency {
            j.peak_gpu_residency
        } else {
            m.peak_gpu_residency
        },
        current_gpu_residency: m.current_gpu_residency,
        gpu_id: m.gpu_id,
        ..j
    }
}

/// The cards with what the pool now has on one of them.
pub open spec fn with_residency(gpus: Seq<GpuView>, id: Seq<char>, bytes: u64) -> Seq<GpuView>
    decreases gpus.len(),
{
    if gpus.len() == 0 {
        gpus
    } else if gpus[0].uuid == id {
        gpus.update(0, GpuView { trainpool_allocated_vram: bytes, ..gpus[0] })
    } else {
        seq![gpus[0]] + with_residency(gpus.skip(1), id, bytes)
    }
}

/// What a report of an SDK leads to.
pub open spec fn sdk_reported(a: Runtime, z: Runtime, job_id: Uuid, m: JobMetrics, waited: Double) -> bool {
    let me = a.membership@[a.node_id];
    &&& z == (Runtime { metrics: z.metrics, membership: z.membership, ..a })
    &&& z.metrics@ == a.metrics@.insert(job_id, with_sdk(job_of(a.metrics@, job_id), m, waited))
    &&& z.membership.local_id == a.membership.local_id
    &&& z.membership.peers.keys() == a.membership.peers.keys()
    &&& z.membership@ == match m.gpu_id {
        None => a.membership@,
        Some(id) => a.membership@.insert(
            a.node_id,
            PeerView {
                capabilities: NodeView {
                    gpus: with_residency(me.capabilities.gpus, id@, m.current_gpu_residency),
                    ..me.capabilities
                },
                ..me
            },
        ),
    }
}

/// The counters with what every job has of the RAM here.
pub open spec fn counted(a: Runtime, z: Runtime) -> bool {
    let jobs = a.ram.accounting.jobs@;
    &&& z == (Runtime { metrics: z.metrics, ..a })
    &&& forall|k: Uuid| #![trigger z.metrics@.contains_key(k)] jobs.contains_key(k) ==> {
        &&& z.metrics@.contains_key(k)
        &&& z.metrics@[k] == (JobMetrics {
            peak_ram_residency: jobs[k].peak,
            current_ram_residency: jobs[k].owned,
            ..job_of(a.metrics@, k)
        })
    }
    &&& forall|k: Uuid| #![trigger z.metrics@.contains_key(k)] !jobs.contains_key(k) ==> {
        &&& z.metrics@.contains_key(k) == a.metrics@.contains_key(k)
        &&& a.metrics@.contains_key(k) ==> z.metrics@[k] == a.metrics@[k]
    }
}

fn find_card(gpus: &Vec<GpuCapabilities>, id: &str) -> (r: Option<usize>)
    ensures
        match r {
            Some(i) => {
                &&& i < gpus@.len()
                &&& gpus@[i as int].uuid@ == id@
                &&& forall|k: int| 0 <= k < i ==> (#[trigger] gpus@[k]).uuid@ != id@
            },
            None => forall|k: int| 0 <= k < gpus@.len() ==> (#[trigger] gpus@[k]).uuid@ != id@,
        },
{
    let mut i: usize = 0;
    while i < gpus.len()
        invariant
            i <= gpus@.len(),
            forall|k: int| 0 <= k < i ==> (#[trigger] gpus@[k]).uuid@ != id@,
        decreases gpus@.len() - i,
    {
        if same_text(gpus[i].uuid.as_str(), id) {
            return Some(i);
        }
        i = i + 1;
    }
    None
}

proof fn lemma_residency(gpus: Seq<GpuView>, id: Seq<char>, bytes: u64, at: int)
    requires
        0 <= at <= gpus.len(),
        forall|k: int| 0 <= k < at ==> (#[trigger] gpus[k]).uuid != id,
        at < gpus.len() ==> gpus[at].uuid == id,
    ensures
        with_residency(gpus, id, bytes) == if at < gpus.len() {
            gpus.update(at, GpuView { trainpool_allocated_vram: bytes, ..gpus[at] })
        } else {
            gpus
        },
    decreases gpus.len(),
{
    if gpus.len() > 0 && at > 0 {
        let rest = gpus.skip(1);
        assert(gpus[0].uuid != id);
        assert forall|k: int| 0 <= k < at - 1 implies (#[trigger] rest[k]).uuid != id by {
            assert(rest[k] == gpus[k + 1]);
        }
        lemma_residency(rest, id, bytes, at - 1);
        assert(seq![gpus[0]] + rest =~= gpus);
        if at < gpus.len() {
            let changed = GpuView { trainpool_allocated_vram: bytes, ..gpus[at] };
            assert(seq![gpus[0]] + rest.update(at - 1, changed) =~= gpus.update(at, changed));
        }
    }
}

impl Runtime {
    /// Takes a report of an SDK.
    pub fn report_metrics(&mut self, job_id: Uuid, metrics: JobMetrics, waited: Double)
        requires
            old(self).wf(),
        ensures
            final(self).wf(),
            sdk_reported(*old(self), *final(self), job_id, metrics, waited),
    {
        let ghost first = *self;
        let bytes: u64 = metrics.current_gpu_residency;
        let card: Option<String> = copy_text(&metrics.gpu_id);
        let m: &mut JobMetrics = self.metrics.job(job_id);
        m.bytes_local_ram_to_gpu = sum(m.bytes_local_ram_to_gpu, metrics.bytes_local_ram_to_gpu);
        m.bytes_gpu_to_local_ram = sum(m.bytes_gpu_to_local_ram, metrics.bytes_gpu_to_local_ram);
        m.prefetch_hits = sum(m.prefetch_hits, metrics.prefetch_hits);
        m.prefetch_misses = sum(m.prefetch_misses, metrics.prefetch_misses);
        m.gpu_wait_for_data_ms = waited;
        if metrics.peak_gpu_residency > m.peak_gpu_residency {
            m.peak_gpu_residency = metrics.peak_gpu_residency;
        }
        m.current_gpu_residency = metrics.current_gpu_residency;
        m.gpu_id = metrics.gpu_id;
        match card {
            None => {},
            Some(id) => {
                let p: usize = self.my_place();
                let peer: &mut Peer = self.membership.peers.value_mut(p);
                let ghost was = peer.capabilities@;
                let found: Option<usize> = find_card(&peer.capabilities.gpus, id.as_str());
                let ghost at = match found {
                    Some(i) => i as int,
                    None => was.gpus.len() as int,
                };
                proof {
                    assert forall|k: int| 0 <= k < was.gpus.len() implies #[trigger] was.gpus[k]
                        == peer.capabilities.gpus@[k]@ by {}
                    lemma_residency(was.gpus, id@, bytes, at);
                }
                match found {
                    Some(i) => {
                        let g: &mut GpuCapabilities = &mut peer.capabilities.gpus[i];
                        g.trainpool_allocated_vram = bytes;
                    },
                    None => {},
                }
                proof {
                    assert(peer.capabilities@.gpus =~= with_residency(was.gpus, id@, bytes));
                }
                proof {
                    assert(first.membership@[first.node_id] == first.membership.peers@[first.node_id]@);
                    assert(self.membership@ =~= first.membership@.insert(
                        first.node_id,
                        PeerView {
                            capabilities: NodeView {
                                gpus: with_residency(was.gpus, id@, bytes),
                                ..was
                            },
                            ..first.membership@[first.node_id]
                        },
                    ));
                }
            },
        }
    }

    /// Brings the counters up to what every job has of the RAM here.
    #[verifier::loop_isolation(false)]
    pub fn count_ram(&mut self)
        requires
            old(self).wf(),
        ensures
            final(self).wf(),
            counted(*old(self), *final(self)),
    {
        let ghost first = *self;
        let ghost keys = self.ram.accounting.jobs.keys();
        let ghost jobs = self.ram.accounting.jobs@;
        let n: usize = self.ram.accounting.jobs.len();
        let mut i: usize = 0;
        proof {
            first.ram.accounting.jobs.lemma_keys();
        }
        while i < n
            invariant
                n == keys.len(),
                i <= n,
                self.metrics.wf(),
                *self == (Runtime { metrics: self.metrics, ..first }),
                forall|k: Uuid| #![trigger self.metrics@.contains_key(k)] keys.take(i as int).contains(k) ==> {
                    &&& self.metrics@.contains_key(k)
                    &&& self.metrics@[k] == (JobMetrics {
                        peak_ram_residency: jobs[k].peak,
                        current_ram_residency: jobs[k].owned,
                        ..job_of(first.metrics@, k)
                    })
                },
                forall|k: Uuid| #![trigger self.metrics@.contains_key(k)] !keys.take(i as int).contains(k) ==> {
                    &&& self.metrics@.contains_key(k) == first.metrics@.contains_key(k)
                    &&& first.metrics@.contains_key(k) ==> self.metrics@[k] == first.metrics@[k]
                },
            decreases n - i,
        {
            let ghost before = self.metrics@;
            let ghost part = keys.take(i as int);
            let ghost next = keys.take(i + 1);
            let id: Uuid = self.ram.accounting.jobs.key_at(i);
            let peak: u64 = self.ram.accounting.jobs.value_at(i).peak;
            let owned: u64 = self.ram.accounting.jobs.value_at(i).owned;
            proof {
                assert forall|k: Uuid| next.contains(k) <==> part.contains(k) || k == id by {
                    if next.contains(k) {
                        let x = choose|x: int| 0 <= x < next.len() && next[x] == k;
                        if x < i {
                            assert(part[x] == k);
                        }
                    }
                    if part.contains(k) {
                        let x = choose|x: int| 0 <= x < part.len() && part[x] == k;
                        assert(next[x] == k);
                    }
                    assert(next[i as int] == id);
                }
                assert(!part.contains(id)) by {
                    if part.contains(id) {
                        let x = choose|x: int| 0 <= x < part.len() && part[x] == id;
                        assert(keys[x] < keys[i as int]);
                    }
                }
            }
            let m: &mut JobMetrics = self.metrics.job(id);
            m.peak_ram_residency = peak;
            m.current_ram_residency = owned;
            proof {
                assert forall|k: Uuid| #![trigger self.metrics@.contains_key(k)] !next.contains(k) implies {
                    &&& self.metrics@.contains_key(k) == first.metrics@.contains_key(k)
                    &&& first.metrics@.contains_key(k) ==> self.metrics@[k] == first.metrics@[k]
                } by {
                    assert(before.contains_key(k) == first.metrics@.contains_key(k));
                }
                assert forall|k: Uuid| #![trigger self.metrics@.contains_key(k)] next.contains(k) implies {
                    &&& self.metrics@.contains_key(k)
                    &&& self.metrics@[k] == (JobMetrics {
                        peak_ram_residency: jobs[k].peak,
                        current_ram_residency: jobs[k].owned,
                        ..job_of(first.metrics@, k)
                    })
                } by {
                    if k == id {
                        assert(before.contains_key(k) == first.metrics@.contains_key(k));
                    } else {
                        assert(before.contains_key(k));
                    }
                }
            }
            i = i + 1;
        }
        proof {
            assert(keys.take(n as int) =~= keys);
            assert forall|k: Uuid| #![trigger self.metrics@.contains_key(k)] jobs.contains_key(k) implies {
                &&& self.metrics@.contains_key(k)
                &&& self.metrics@[k] == (JobMetrics {
                    peak_ram_residency: jobs[k].peak,
                    current_ram_residency: jobs[k].owned,
                    ..job_of(first.metrics@, k)
                })
            } by {
                assert(keys.take(n as int).contains(k));
                assert(self.metrics@.contains_key(k));
            }
            assert forall|k: Uuid| #![trigger self.metrics@.contains_key(k)] !jobs.contains_key(k) implies {
                &&& self.metrics@.contains_key(k) == first.metrics@.contains_key(k)
                &&& first.metrics@.contains_key(k) ==> self.metrics@[k] == first.metrics@[k]
            } by {
                assert(!keys.take(n as int).contains(k));
                assert(self.metrics@.contains_key(k) == first.metrics@.contains_key(k));
            }
            assert(jobs == first.ram.accounting.jobs@);
            assert(counted(first, *self));
        }
    }
}

} // verus!
