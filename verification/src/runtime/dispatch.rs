//! What follows each request of the control plane.
use crate::address::SocketAddress;
use crate::double::Double;
use crate::error::Error;
use crate::ids::{fresh_uuid, Uuid};
use crate::memory::block::MemoryBlockHandle;
use crate::memory::local_ram::{listed, publish_check, views, BlockView, LocalRam};
use crate::memory::migration::{begun, migration_check};
use crate::memory::residency::registered;
use crate::node::capabilities::{node_capabilities_views, NodeCapabilities, NodeView};
use crate::node::memory::beyond;
use crate::protocol::request::{for_leader, Request};
use crate::runtime::blocks::{committed, given_back, register_check, renewed, resolve_check, settled};
use crate::runtime::control::{
    counted, job_refusal, planned, promised, sdk_reported, searched, tensor_view, ControlStep, Reply, Routed,
    PROBE_LIMIT,
};
use crate::runtime::monitor::{accepted, unstaged};
use crate::runtime::status::tells_of;
use crate::runtime::{MemorySample, Runtime};
use crate::scheduler::planner::stage_spec_views;
use vstd::prelude::*;

verus! {

/// What is read from the world when a request comes.
#[derive(Clone, Copy, Debug, PartialEq, Eq, Structural)]
pub struct Moment {
    /// Milliseconds since the epoch.
    pub now_ms: u64,
    /// Nanoseconds on the monotonic clock.
    pub now_ns: u64,
    pub sample: MemorySample,
    /// For a report of an SDK: the time that the card waited in all.
    pub waited: Double,
}

/// The block that a request works on, here and now.
pub open spec fn block_of(r: Request) -> Option<Uuid> {
    match r {
        Request::Publish { handle, .. } => Some(handle.id),
        Request::Commit { handle, direct, .. } => if direct {
            Some(handle.id)
        } else {
            None
        },
        Request::Renew { handle, direct } => if direct {
            Some(handle.id)
        } else {
            None
        },
        Request::Free { handle, direct } => if direct {
            Some(handle.id)
        } else {
            None
        },
        Request::Migrate { handle, .. } => Some(handle.id),
        _ => None,
    }
}

impl Request {
    /// The block that this works on; it waits while something else holds it.
    pub fn block(&self) -> (r: Option<Uuid>)
        ensures
            r == block_of(*self),
    {
        match self {
            Request::Publish { handle, .. } => Some(handle.id),
            Request::Commit { handle, direct, .. } => if *direct {
                Some(handle.id)
            } else {
                None
            },
            Request::Renew { handle, direct } => if *direct {
                Some(handle.id)
            } else {
                None
            },
            Request::Free { handle, direct } => if *direct {
                Some(handle.id)
            } else {
                None
            },
            Request::Migrate { handle, .. } => Some(handle.id),
            _ => None,
        }
    }
}

/// What an answer says with nothing in it.
pub open spec fn says_nothing(r: Result<ControlStep, Error>) -> bool {
    r matches Ok(ControlStep::Reply { reply: Reply::Nothing })
}

/// Whether a block is first looked for.
pub open spec fn looks_for(r: Result<ControlStep, Error>, h: MemoryBlockHandle, then_do: Routed) -> bool {
    r matches Ok(ControlStep::Resolve { handle, routed }) && handle == h && routed == then_do
}

/// What follows a request.
pub open spec fn answered(
    a: Runtime,
    z: Runtime,
    request: Request,
    now: Moment,
    costs: Seq<Double>,
    r: Result<ControlStep, Error>,
) -> bool {
    if for_leader(request) && a.led().leader_id != Some(a.node_id) {
        z == a && r == Ok::<ControlStep, Error>(ControlStep::Forward { request })
    } else {
        match request {
            Request::Ping => {
                &&& z == a
                &&& r matches Ok(ControlStep::Reply { reply: Reply::Time { now_ms } }) && now_ms == now.now_ms
            },
            Request::ReserveStaging { bytes } => match r {
                Ok(ControlStep::Reply { reply: Reply::Id { id } }) => promised(
                    a,
                    z,
                    bytes,
                    id,
                    now.sample,
                    now.now_ms,
                    Ok(id),
                ),
                Err(e) => exists|id: Uuid| #[trigger] promised(a, z, bytes, id, now.sample, now.now_ms, Err(e)),
                _ => false,
            },
            Request::ReleaseStaging { reservation_id } => says_nothing(r) && unstaged(a, z, reservation_id),
            Request::Status => {
                &&& a.looked(z, now.sample)
                &&& r matches Ok(ControlStep::Reply { reply: Reply::Status { status } }) && tells_of(
                    status,
                    z,
                    now.now_ms,
                )
            },
            Request::Capabilities => {
                &&& z == a
                &&& r matches Ok(ControlStep::Reply { reply: Reply::Node { node } }) && node@ == a.me()
            },
            Request::Exchange { node, inventory } => match r {
                Ok(ControlStep::Reply { reply: Reply::Exchange { node: me, inventory: mine } }) => {
                    &&& exists|token: Uuid| #[trigger]
                        accepted(a, z, node@, views(inventory@), token, now.now_ns, Ok(()))
                    &&& me@ == z.me()
                    &&& views(mine@) == listed(
                        LocalRam::page_keys(z.ram.blocks.keys(), now.now_ms / 2000),
                        z.ram@,
                    )
                },
                Err(e) => exists|token: Uuid| #[trigger]
                    accepted(a, z, node@, views(inventory@), token, now.now_ns, Err(e)),
                _ => false,
            },
            Request::Inventory { page } => {
                &&& z == a
                &&& r matches Ok(ControlStep::Reply { reply: Reply::Handles { handles } }) && views(handles@) == listed(
                    LocalRam::page_keys(a.ram.blocks.keys(), page),
                    a.ram@,
                )
            },
            Request::Metrics => {
                &&& counted(a, z)
                &&& r matches Ok(ControlStep::Reply { reply: Reply::Metrics { owned_ram, peak_ram } }) && owned_ram
                    == a.ram.accounting.owned && peak_ram == a.ram.accounting.peak
            },
            Request::ReportMetrics { job_id, metrics } => says_nothing(r) && sdk_reported(
                a,
                z,
                job_id,
                metrics,
                now.waited,
            ),
            Request::Plan { stages } => match r {
                Ok(ControlStep::Reply { reply: Reply::Plan { plan } }) => planned(
                    a,
                    z,
                    stage_spec_views(stages@),
                    plan.job_id,
                    Ok(plan),
                ),
                Err(e) => exists|id: Uuid| #[trigger] planned(a, z, stage_spec_views(stages@), id, Err(e)),
                _ => false,
            },
            Request::JobStatus { job_id } => {
                &&& z == a
                &&& match r {
                    Ok(ControlStep::Reply { reply: Reply::Job { job } }) => job_refusal(a, job_id) is None && job@
                        == a.jobs@[job_id],
                    Err(e) => job_refusal(a, job_id) == Some(e.text()),
                    _ => false,
                }
            },
            Request::Allocate { size, job_id, compute_node, preferred_node, tensor } => match r {
                Ok(ControlStep::Allocate { allocation }) => searched(
                    a,
                    z,
                    size,
                    job_id,
                    compute_node,
                    preferred_node,
                    tensor_view(tensor),
                    costs,
                    now.sample,
                    Ok(allocation),
                ),
                Err(e) => searched(
                    a,
                    z,
                    size,
                    job_id,
                    compute_node,
                    preferred_node,
                    tensor_view(tensor),
                    costs,
                    now.sample,
                    Err(e),
                ),
                _ => false,
            },
            Request::AllocateLocal { handle, leadership } => match r {
                Ok(ControlStep::Reply { reply: Reply::Handle { handle: made } }) => settled(
                    a,
                    z,
                    handle@,
                    leadership,
                    now.sample,
                    Ok(made),
                ),
                Err(e) => settled(a, z, handle@, leadership, now.sample, Err(e)),
                _ => false,
            },
            Request::Resolve { id, lease_token } => {
                &&& z == a
                &&& match r {
                    Ok(ControlStep::Reply { reply: Reply::Handle { handle } }) => resolve_check(
                        a,
                        id,
                        lease_token,
                        now.now_ms,
                    ) is None && handle@ == a.residency@[id],
                    Err(e) => resolve_check(a, id, lease_token, now.now_ms) == Some(e),
                    _ => false,
                }
            },
            Request::Register { handle, previous_generation, leadership } => match register_check(
                a,
                handle@,
                previous_generation,
                leadership,
            ) {
                Some(e) => r == Err::<ControlStep, Error>(e) && z == a,
                None => {
                    &&& says_nothing(r)
                    &&& z == (Runtime { residency: z.residency, ..a })
                    &&& z.residency@ == registered(a.residency@, handle@)
                },
            },
            Request::Publish { handle, leadership } => {
                let refusal = if a.led() != leadership {
                    Some(Error::LeadershipChanged)
                } else if !a.ram@.contains_key(handle.id) {
                    Some(Error::BlockAbsent { id: handle.id })
                } else {
                    match publish_check(a.ram@[handle.id], handle@, now.now_ms) {
                        Ok(_) => None,
                        Err(e) => Some(e),
                    }
                };
                match refusal {
                    Some(e) => r == Err::<ControlStep, Error>(e) && z == a,
                    None => {
                        &&& says_nothing(r)
                        &&& z == (Runtime { ram: z.ram, ..a })
                        &&& z.ram.accounting == a.ram.accounting
                        &&& z.ram@ == a.ram@.insert(
                            handle.id,
                            BlockView { published: true, ..a.ram@[handle.id] },
                        )
                    },
                }
            },
            Request::Commit { handle, checksum, direct } => if direct {
                committed(a, z, handle@, checksum@, now.now_ms, r)
            } else {
                z == a && looks_for(r, handle, Routed::Commit { checksum })
            },
            Request::Renew { handle, direct } => if direct {
                renewed(a, z, handle@, now.now_ms, r)
            } else {
                z == a && looks_for(r, handle, Routed::Renew)
            },
            Request::Free { handle, direct } => if direct {
                match r {
                    Err(e) => given_back(a, z, handle.id, handle.lease_token, Err(e)),
                    Ok(_) => says_nothing(r) && given_back(a, z, handle.id, handle.lease_token, Ok(())),
                }
            } else {
                z == a && looks_for(r, handle, Routed::Free)
            },
            Request::MemoryPressure { node_id, excess_bytes, .. } => {
                &&& z == a
                &&& r == Ok::<ControlStep, Error>(ControlStep::Relieve { source: node_id, excess: excess_bytes })
            },
            Request::Migrate { handle, destination, leadership } => if a.led() != leadership {
                r == Err::<ControlStep, Error>(Error::LeadershipChanged) && z == a
            } else {
                match r {
                    Ok(ControlStep::Migrate { migration }) => {
                        &&& migration_check(a, handle@, destination, now.now_ms) is None
                        &&& z == (Runtime { ram: z.ram, ..a })
                        &&& z.ram.accounting == a.ram.accounting
                        &&& z.ram@ == a.ram@.insert(handle.id, BlockView { busy: true, ..a.ram@[handle.id] })
                        &&& z.migrates(migration)
                        &&& begun(migration, a, handle@, destination, leadership, now.now_ms)
                    },
                    Err(e) => migration_check(a, handle@, destination, now.now_ms) == Some(e) && z == a,
                    _ => false,
                }
            },
            Request::Benchmark { bytes } => {
                &&& z == a
                &&& r == if bytes > PROBE_LIMIT {
                    Err(Error::BenchmarkTooLarge)
                } else {
                    Ok(ControlStep::Benchmark { bytes })
                }
            },
            Request::Measure { destination, bytes } => {
                &&& z == a
                &&& r == if bytes > PROBE_LIMIT {
                    Err(Error::BenchmarkTooLarge)
                } else if destination == a.node_id {
                    Err(Error::BenchmarkSelf)
                } else {
                    match a.reached(destination) {
                        None => Err(Error::NodeUnavailable { node: destination }),
                        Some(address) => Ok(ControlStep::Measure { address, destination, bytes }),
                    }
                }
            },
            Request::Topology => {
                &&& z == a
                &&& r matches Ok(ControlStep::Reply { reply: Reply::Topology { topology } }) && topology@ == a.topology@
            },
            _ => r == Err::<ControlStep, Error>(Error::NotControl) && z == a,
        }
    }
}

impl Runtime {
    /// Takes a request of the control plane. `costs[i]` is, for an allocation,
    /// what it costs to move the block from the computing node to node `i`.
    #[verifier::rlimit(60)]
    pub fn control(&mut self, request: Request, now: Moment, costs: &Vec<Double>) -> (r: Result<ControlStep, Error>)
        requires
            old(self).wf(),
            block_of(request) matches Some(id) ==> !old(self).ram.held(id),
            request is Allocate ==> costs@.len() == old(self).membership.all().len(),
        ensures
            final(self).wf(),
            answered(*old(self), *final(self), request, now, costs@, r),
    {
        if request.is_for_leader() && self.leadership().leader_id != Some(self.node_id) {
            return Ok(ControlStep::Forward { request });
        }
        let reply: Reply = match request {
            Request::Ping => Reply::Time { now_ms: now.now_ms },
            Request::ReserveStaging { bytes } => {
                let id: Uuid = fresh_uuid();
                match self.reserve_staging_as(bytes, id, now.sample, now.now_ms) {
                    Ok(id) => Reply::Id { id },
                    Err(e) => {
                        return Err(e);
                    },
                }
            },
            Request::ReleaseStaging { reservation_id } => {
                self.release_staging(reservation_id);
                Reply::Nothing
            },
            Request::Status => Reply::Status { status: self.status(now.sample, now.now_ms) },
            Request::Capabilities => Reply::Node { node: self.local() },
            Request::Exchange { node, inventory } => {
                let token: Uuid = fresh_uuid();
                match self.accept_peer(node, inventory, token, now.now_ns) {
                    Ok(_) => Reply::Exchange {
                        node: self.local(),
                        inventory: self.ram.inventory_page(now.now_ms / 2000),
                    },
                    Err(e) => {
                        return Err(e);
                    },
                }
            },
            Request::Inventory { page } => Reply::Handles { handles: self.ram.inventory_page(page) },
            Request::Metrics => {
                self.count_ram();
                Reply::Metrics { owned_ram: self.ram.accounting.used(), peak_ram: self.ram.accounting.peak }
            },
            Request::ReportMetrics { job_id, metrics } => {
                self.report_metrics(job_id, metrics, now.waited);
                Reply::Nothing
            },
            Request::Plan { stages } => {
                let id: Uuid = fresh_uuid();
                match self.plan_as(&stages, id) {
                    Ok(plan) => Reply::Plan { plan },
                    Err(e) => {
                        return Err(e);
                    },
                }
            },
            Request::JobStatus { job_id } => match self.job_status(job_id) {
                Ok(job) => Reply::Job { job },
                Err(e) => {
                    return Err(e);
                },
            },
            Request::Allocate { size, job_id, compute_node, preferred_node, tensor } => {
                return match self.begin_allocation(
                    size,
                    job_id,
                    compute_node,
                    preferred_node,
                    tensor,
                    costs,
                    now.sample,
                ) {
                    Ok(allocation) => Ok(ControlStep::Allocate { allocation }),
                    Err(e) => Err(e),
                };
            },
            Request::AllocateLocal { handle, leadership } => match self.allocate_local(
                handle,
                &leadership,
                now.sample,
            ) {
                Ok(handle) => Reply::Handle { handle },
                Err(e) => {
                    return Err(e);
                },
            },
            Request::Resolve { id, lease_token } => match self.resolve(id, lease_token, now.now_ms) {
                Ok(handle) => Reply::Handle { handle },
                Err(e) => {
                    return Err(e);
                },
            },
            Request::Register { handle, previous_generation, leadership } => match self.register(
                handle,
                previous_generation,
                &leadership,
            ) {
                Ok(_) => Reply::Nothing,
                Err(e) => {
                    return Err(e);
                },
            },
            Request::Publish { handle, leadership } => match self.publish(&handle, &leadership, now.now_ms) {
                Ok(_) => Reply::Nothing,
                Err(e) => {
                    return Err(e);
                },
            },
            Request::Commit { handle, checksum, direct } => {
                return if direct {
                    self.commit(&handle, checksum.as_str(), now.now_ms)
                } else {
                    Ok(ControlStep::Resolve { handle, routed: Routed::Commit { checksum } })
                };
            },
            Request::Renew { handle, direct } => {
                return if direct {
                    self.renew(&handle, now.now_ms)
                } else {
                    Ok(ControlStep::Resolve { handle, routed: Routed::Renew })
                };
            },
            Request::Free { handle, direct } => {
                if !direct {
                    return Ok(ControlStep::Resolve { handle, routed: Routed::Free });
                }
                match self.free(handle.id, handle.lease_token) {
                    Ok(_) => Reply::Nothing,
                    Err(e) => {
                        return Err(e);
                    },
                }
            },
            Request::MemoryPressure { node_id, excess_bytes, .. } => {
                return Ok(ControlStep::Relieve { source: node_id, excess: excess_bytes });
            },
            Request::Migrate { handle, destination, leadership } => {
                match self.validate_leadership(&leadership) {
                    Ok(_) => {},
                    Err(e) => {
                        return Err(e);
                    },
                }
                return match self.begin_migration(handle, destination, leadership, now.now_ms) {
                    Ok(migration) => Ok(ControlStep::Migrate { migration }),
                    Err(e) => Err(e),
                };
            },
            Request::Benchmark { bytes } => {
                return if bytes > PROBE_LIMIT {
                    Err(Error::BenchmarkTooLarge)
                } else {
                    Ok(ControlStep::Benchmark { bytes })
                };
            },
            Request::Measure { destination, bytes } => {
                if bytes > PROBE_LIMIT {
                    return Err(Error::BenchmarkTooLarge);
                }
                if destination == self.node_id {
                    return Err(Error::BenchmarkSelf);
                }
                return match self.address(destination) {
                    Ok(address) => Ok(ControlStep::Measure { address, destination, bytes }),
                    Err(e) => Err(e),
                };
            },
            Request::Topology => Reply::Topology { topology: self.topology.duplicate() },
            _ => {
                return Err(Error::NotControl);
            },
        };
        Ok(ControlStep::Reply { reply })
    }

    /// What a leader answers when a relief is over.
    pub fn relieved(excess: u64, moved: u64) -> (r: Reply)
        ensures
            r == (Reply::Relieved {
                requested_bytes: excess,
                migrated_bytes: moved,
                unresolved_bytes: beyond(excess as int, moved as int) as u64,
            }),
    {
        Reply::Relieved {
            requested_bytes: excess,
            migrated_bytes: moved,
            unresolved_bytes: excess.saturating_sub(moved),
        }
    }
}

/// A measurement that a node is asked for: where it is, and the other end.
#[derive(Clone, Copy, Debug, PartialEq, Eq, Structural)]
pub struct Directed {
    pub address: SocketAddress,
    pub destination: Uuid,
}

/// The measurements from one node to the first `upto` others.
pub open spec fn from_node(nodes: Seq<NodeView>, source: NodeView, upto: int) -> Seq<Directed>
    decreases upto,
{
    if upto <= 0 {
        Seq::empty()
    } else {
        let rest = from_node(nodes, source, upto - 1);
        if nodes[upto - 1].node_id == source.node_id {
            rest
        } else {
            rest.push(
                Directed {
                    address: source.network.control_address,
                    destination: nodes[upto - 1].node_id,
                },
            )
        }
    }
}

/// The measurements from the first `upto` nodes to all others.
pub open spec fn all_pairs(nodes: Seq<NodeView>, upto: int) -> Seq<Directed>
    decreases upto,
{
    if upto <= 0 {
        Seq::empty()
    } else {
        all_pairs(nodes, upto - 1) + from_node(nodes, nodes[upto - 1], nodes.len() as int)
    }
}

impl Runtime {
    /// The measurements of a benchmark: every link in both directions.
    pub fn benchmark_pairs(&self) -> (r: Vec<Directed>)
        requires
            self.wf(),
        ensures
            r@ == all_pairs(self.membership.all(), self.membership.all().len() as int),
    {
        let nodes: Vec<NodeCapabilities> = self.membership.nodes();
        let ghost all = node_capabilities_views(nodes@);
        let mut r: Vec<Directed> = Vec::new();
        let n: usize = nodes.len();
        let mut i: usize = 0;
        while i < n
            invariant
                n == nodes@.len(),
                i <= n,
                all == node_capabilities_views(nodes@),
                r@ == all_pairs(all, i as int),
            decreases n - i,
        {
            let source: &NodeCapabilities = &nodes[i];
            let ghost before = r@;
            let mut j: usize = 0;
            proof {
                assert(all[i as int] == source@);
                assert(before + from_node(all, source@, 0) =~= before);
            }
            while j < n
                invariant
                    n == nodes@.len(),
                    j <= n,
                    all == node_capabilities_views(nodes@),
                    r@ == before + from_node(all, source@, j as int),
                decreases n - j,
            {
                let ghost so_far = r@;
                proof {
                    assert(all[j as int] == nodes@[j as int]@);
                }
                if nodes[j].node_id != source.node_id {
                    r.push(
                        Directed {
                            address: source.network.control_address,
                            destination: nodes[j].node_id,
                        },
                    );
                }
                proof {
                    assert(r@ =~= before + from_node(all, source@, j + 1));
                }
                j = j + 1;
            }
            i = i + 1;
        }
        r
    }
}

/// A request on behalf of a leader that this node does not know as the leader,
/// or not under that epoch, is refused and changes nothing.
pub proof fn law_stale_leader_is_refused(
    a: Runtime,
    z: Runtime,
    request: Request,
    now: Moment,
    costs: Seq<Double>,
    r: Result<ControlStep, Error>,
)
    requires
        answered(a, z, request, now, costs, r),
        match request {
            Request::AllocateLocal { leadership, .. } => leadership != a.led(),
            Request::Publish { leadership, .. } => leadership != a.led(),
            Request::Migrate { leadership, .. } => leadership != a.led(),
            Request::Register { leadership, .. } => leadership != a.led() && a.led().leader_id == Some(a.node_id),
            _ => false,
        },
    ensures
        r == Err::<ControlStep, Error>(Error::LeadershipChanged),
        z == a,
{
}

/// A job does not outlive the leadership that planned it: under another epoch
/// the leader neither tells of it nor places blocks for it.
pub proof fn law_stale_job_is_refused(
    a: Runtime,
    z: Runtime,
    request: Request,
    now: Moment,
    costs: Seq<Double>,
    r: Result<ControlStep, Error>,
    job: Uuid,
)
    requires
        answered(a, z, request, now, costs, r),
        a.led().leader_id == Some(a.node_id),
        a.jobs@.contains_key(job) ==> a.jobs@[job].plan.leader_epoch != a.led().leader_epoch,
        match request {
            Request::JobStatus { job_id } => job_id == job,
            Request::Allocate { job_id, .. } => job_id == job,
            _ => false,
        },
    ensures
        r is Err,
        z == a,
{
}

/// What only the leader decides, no other node decides in its place.
pub proof fn law_only_the_leader_decides(
    a: Runtime,
    z: Runtime,
    request: Request,
    now: Moment,
    costs: Seq<Double>,
    r: Result<ControlStep, Error>,
)
    requires
        answered(a, z, request, now, costs, r),
        for_leader(request),
        a.led().leader_id != Some(a.node_id),
    ensures
        r == Ok::<ControlStep, Error>(ControlStep::Forward { request }),
        z == a,
{
}

} // verus!
