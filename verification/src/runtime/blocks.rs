//! Requests on blocks: by their owner on the bytes it has, by the leader on
//! where they are.
use crate::address::SocketAddress;
use crate::arith::capped;
use crate::cluster::election::Leadership;
use crate::error::Error;
use crate::ids::Uuid;
use crate::memory::allocator::{risen, with_less, with_more, LedgerEntry};
use crate::memory::block::{
    tensor_check, BlockState, HandleView, Location, LocationView, MemoryBlockHandle,
};
use crate::memory::local_ram::{commit_check, lease_check, publish_check, BlockView, LocalRam};
use crate::memory::migration::lease_end;
use crate::memory::residency::registered;
use crate::metrics::{job_of, plus, sum, JobMetrics};
use crate::node::memory::beyond;
use crate::protocol::request::Request;
use crate::runtime::control::{ControlStep, Reply, Routed, HEADROOM};
use crate::runtime::{MemorySample, Runtime};
use vstd::prelude::*;

verus! {

/// What stands in the way of an allocation here, before the RAM is looked at.
pub open spec fn local_check(a: Runtime, h: HandleView, leadership: Leadership) -> Option<Error> {
    if a.led() != leadership {
        Some(Error::LeadershipChanged)
    } else if h.owner_node != a.node_id || h.owner_incarnation != a.me().incarnation {
        Some(Error::WrongOwner)
    } else if h.location_type != (LocationView::Ram { node_id: a.node_id }) {
        Some(Error::OnlyRam)
    } else if h.state != BlockState::Writing || h.checksum is Some {
        Some(Error::MustWrite)
    } else if h.tensor is Some && tensor_check(h.tensor->0, h.size) is Err {
        Some(tensor_check(h.tensor->0, h.size)->Err_0)
    } else {
        None
    }
}

/// What an allocation here leads to, once the RAM has been looked at. Where
/// nothing stands in its way a block with bytes can still fail for want of
/// memory.
pub open spec fn allocated(mid: Runtime, z: Runtime, h: HandleView, r: Result<MemoryBlockHandle, Error>) -> bool {
    let free = beyond(mid.ram.accounting.budget as int, mid.ram.accounting.owned as int);
    let j = job_of(mid.metrics@, h.job_id);
    if capped(h.size + HEADROOM) > free {
        r == Err::<MemoryBlockHandle, Error>(Error::Headroom) && z == mid
    } else if mid.ram.admission(h) is Err {
        r == Err::<MemoryBlockHandle, Error>(mid.ram.admission(h)->Err_0) && z == mid
    } else {
        match r {
            Ok(k) => {
                &&& k@ == h
                &&& h.size <= isize::MAX
                &&& z == (Runtime { ram: z.ram, metrics: z.metrics, ..mid })
                &&& z.ram@ == mid.ram@.insert(h.id, LocalRam::fresh(h, mid.ram.next_serial))
                &&& z.ram.accounting.budget == mid.ram.accounting.budget
                &&& z.ram.accounting.owned == mid.ram.accounting.owned + h.size
                &&& z.ram.accounting.job_owned(h.job_id) == mid.ram.accounting.job_owned(h.job_id) + h.size
                &&& z.ram.accounting.peak == risen(mid.ram.accounting.peak, mid.ram.accounting.owned + h.size)
                &&& z.ram.accounting.jobs@ == with_more(mid.ram.accounting.jobs@, h.job_id, h.size)
                &&& z.metrics@ == mid.metrics@.insert(
                    h.job_id,
                    JobMetrics { tensor_allocations: plus(j.tensor_allocations, 1), ..j },
                )
            },
            Err(e) => {
                &&& e == Error::MemoryExhausted
                &&& h.size > 0
                &&& z == (Runtime { ram: z.ram, ..mid })
                &&& z.ram@ == mid.ram@
                &&& z.ram.accounting.budget == mid.ram.accounting.budget
                &&& z.ram.accounting.owned == mid.ram.accounting.owned
                &&& z.ram.accounting.peak == risen(mid.ram.accounting.peak, mid.ram.accounting.owned + h.size)
                &&& z.ram.accounting.jobs@ == with_less(
                    with_more(mid.ram.accounting.jobs@, h.job_id, h.size),
                    h.job_id,
                    h.size,
                )
            },
        }
    }
}

/// What an allocation here leads to.
pub open spec fn settled(
    a: Runtime,
    z: Runtime,
    h: HandleView,
    leadership: Leadership,
    sample: MemorySample,
    r: Result<MemoryBlockHandle, Error>,
) -> bool {
    match local_check(a, h, leadership) {
        Some(e) => r == Err::<MemoryBlockHandle, Error>(e) && z == a,
        None => exists|mid: Runtime|
            {
                &&& #[trigger] a.looked(mid, sample)
                &&& allocated(mid, z, h, r)
            },
    }
}

/// Why a block is not resolved.
pub open spec fn resolve_check(a: Runtime, id: Uuid, token: Uuid, now_ms: u64) -> Option<Error> {
    let h = a.residency@[id];
    if !a.residency@.contains_key(id) {
        Some(Error::BlockUnknown { id })
    } else if h.lease_token != token {
        Some(Error::LeaseDenied)
    } else if h.state == BlockState::Lost {
        Some(Error::BlockLost { id, node: h.owner_node })
    } else if h.lease_expires_ms <= now_ms {
        Some(Error::LeaseExpired)
    } else if a.reached(h.owner_node) is None {
        Some(Error::NodeUnavailable { node: h.owner_node })
    } else {
        None
    }
}

/// Why a report on a block is not taken. One that moves a block must follow on
/// what is known.
pub open spec fn register_check(a: Runtime, h: HandleView, previous: Option<u64>, leadership: Leadership) -> Option<Error> {
    let known = a.residency@[h.id];
    if a.led() != leadership {
        Some(Error::LeadershipChanged)
    } else if previous is Some && !(a.residency@.contains_key(h.id) && known.generation == previous->0
        && known.lease_token == h.lease_token) {
        Some(Error::MigrationConflict)
    } else if previous is Some && (h.generation != plus(previous->0, 1) || h.state != BlockState::Ready) {
        Some(Error::MigrationCommit)
    } else {
        None
    }
}

impl Runtime {
    /// Makes room for a block that the leader has placed here.
    pub fn allocate_local(&mut self, handle: MemoryBlockHandle, leadership: &Leadership, sample: MemorySample) -> (r:
        Result<MemoryBlockHandle, Error>)
        requires
            old(self).wf(),
        ensures
            final(self).wf(),
            settled(*old(self), *final(self), handle@, *leadership, sample, r),
    {
        let ghost first = *self;
        let ghost h = handle@;
        self.validate_leadership(leadership)?;
        let incarnation: Uuid = self.local().incarnation;
        if handle.owner_node != self.node_id || handle.owner_incarnation != incarnation {
            return Err(Error::WrongOwner);
        }
        let here: bool = match &handle.location_type {
            Location::Ram { node_id } => *node_id == self.node_id,
            _ => false,
        };
        if !here {
            return Err(Error::OnlyRam);
        }
        if handle.state != BlockState::Writing || handle.checksum.is_some() {
            return Err(Error::MustWrite);
        }
        match &handle.tensor {
            Some(t) => {
                t.validate(handle.size)?;
            },
            None => {},
        }
        self.refresh_memory(sample);
        let ghost mid = *self;
        proof {
            assert(first.looked(mid, sample));
        }
        let free: u64 = self.ram.accounting.budget.saturating_sub(self.ram.accounting.used());
        if handle.size.saturating_add(HEADROOM) > free {
            proof {
                assert(allocated(mid, *self, h, Err(Error::Headroom)));
            }
            return Err(Error::Headroom);
        }
        let job: Uuid = handle.job_id;
        let kept: MemoryBlockHandle = handle.duplicate();
        let made: Result<(), Error> = self.ram.allocate(kept);
        proof {
            assert forall|e: LedgerEntry|
                e.job is None && mid.ram.accounting.holds(e) implies self.ram.accounting.holds(e) by {}
            mid.lemma_ram_changed(*self);
        }
        match made {
            Err(e) => {
                proof {
                    assert(allocated(mid, *self, h, Err(e)));
                }
                Err(e)
            },
            Ok(_) => {
                let m: &mut JobMetrics = self.metrics.job(job);
                m.tensor_allocations = sum(m.tensor_allocations, 1);
                proof {
                    assert(allocated(mid, *self, h, Ok(handle)));
                }
                Ok(handle)
            },
        }
    }

    /// Where a block is, for the holder of a good lease.
    pub fn resolve(&self, id: Uuid, token: Uuid, now_ms: u64) -> (r: Result<MemoryBlockHandle, Error>)
        requires
            self.wf(),
        ensures
            match r {
                Ok(h) => resolve_check(*self, id, token, now_ms) is None && h@ == self.residency@[id],
                Err(e) => resolve_check(*self, id, token, now_ms) == Some(e),
            },
    {
        match self.residency.get(id) {
            None => Err(Error::BlockUnknown { id }),
            Some(h) => {
                if h.lease_token != token {
                    return Err(Error::LeaseDenied);
                }
                if h.state == BlockState::Lost {
                    return Err(Error::BlockLost { id, node: h.owner_node });
                }
                if h.lease_expires_ms <= now_ms {
                    return Err(Error::LeaseExpired);
                }
                let _ = self.address(h.owner_node)?;
                Ok(h.duplicate())
            },
        }
    }

    /// Takes a report on a block.
    pub fn register(&mut self, handle: MemoryBlockHandle, previous: Option<u64>, leadership: &Leadership) -> (r: Result<
        (),
        Error,
    >)
        requires
            old(self).wf(),
        ensures
            final(self).wf(),
            match register_check(*old(self), handle@, previous, *leadership) {
                Some(e) => r == Err::<(), Error>(e) && *final(self) == *old(self),
                None => {
                    &&& r == Ok::<(), Error>(())
                    &&& *final(self) == (Runtime { residency: final(self).residency, ..*old(self) })
                    &&& final(self).residency@ == registered(old(self).residency@, handle@)
                },
            },
    {
        self.validate_leadership(leadership)?;
        match previous {
            Some(p) => {
                let follows: bool = match self.residency.get(handle.id) {
                    Some(known) => known.generation == p && known.lease_token == handle.lease_token,
                    None => false,
                };
                if !follows {
                    return Err(Error::MigrationConflict);
                }
                if handle.generation != sum(p, 1) || handle.state != BlockState::Ready {
                    return Err(Error::MigrationCommit);
                }
            },
            None => {},
        }
        self.residency.register(handle);
        Ok(())
    }

    /// Lets a migrated block be seen.
    pub fn publish(&mut self, handle: &MemoryBlockHandle, leadership: &Leadership, now_ms: u64) -> (r: Result<
        (),
        Error,
    >)
        requires
            old(self).wf(),
            !old(self).ram.held(handle.id),
        ensures
            final(self).wf(),
            r == if old(self).led() != *leadership {
                Err(Error::LeadershipChanged)
            } else if !old(self).ram@.contains_key(handle.id) {
                Err(Error::BlockAbsent { id: handle.id })
            } else {
                publish_check(old(self).ram@[handle.id], handle@, now_ms)
            },
            r is Err ==> *final(self) == *old(self),
            r is Ok ==> {
                &&& *final(self) == (Runtime { ram: final(self).ram, ..*old(self) })
                &&& final(self).ram.accounting == old(self).ram.accounting
                &&& final(self).ram@ == old(self).ram@.insert(
                    handle.id,
                    (BlockView { published: true, ..old(self).ram@[handle.id] }),
                )
            },
    {
        let ghost first = *self;
        self.validate_leadership(leadership)?;
        let r: Result<(), Error> = self.ram.publish(handle, now_ms);
        proof {
            if r is Ok {
                first.lemma_ram_changed(*self);
            }
        }
        r
    }
}

/// A report to the leader on a block as it now is.
pub open spec fn reports(request: Request, h: HandleView, leadership: Leadership) -> bool {
    request matches Request::Register { handle, previous_generation, leadership: told } && {
        &&& handle@ == h
        &&& previous_generation is None
        &&& told == leadership
    }
}

/// What committing a block leads to. The leader is told at once, unless the
/// block was moved here: then the source tells it.
pub open spec fn committed(a: Runtime, z: Runtime, h: HandleView, checksum: Seq<char>, now_ms: u64, r: Result<ControlStep, Error>) -> bool {
    let b = a.ram@[h.id];
    let after = HandleView { state: BlockState::Ready, checksum: Some(checksum), ..b.handle };
    if !a.ram@.contains_key(h.id) {
        r == Err::<ControlStep, Error>(Error::BlockAbsent { id: h.id }) && z == a
    } else if commit_check(b, h.lease_token, checksum, now_ms) is Err {
        r == Err::<ControlStep, Error>(commit_check(b, h.lease_token, checksum, now_ms)->Err_0) && z == a
    } else {
        &&& z == (Runtime { ram: z.ram, ..a })
        &&& z.ram.accounting == a.ram.accounting
        &&& z.ram@ == a.ram@.insert(h.id, BlockView { handle: after, ..b })
        &&& match r {
            Ok(ControlStep::Register { request, reply: Reply::Handle { handle } }) => b.handle.generation == 0
                && handle@ == after && reports(request, after, a.led()),
            Ok(ControlStep::Reply { reply: Reply::Handle { handle } }) => b.handle.generation != 0 && handle@ == after,
            _ => false,
        }
    }
}

/// What renewing a lease leads to.
pub open spec fn renewed(a: Runtime, z: Runtime, h: HandleView, now_ms: u64, r: Result<ControlStep, Error>) -> bool {
    let b = a.ram@[h.id];
    let after = HandleView { lease_expires_ms: lease_end(a.config@, now_ms), ..b.handle };
    if !a.ram@.contains_key(h.id) {
        r == Err::<ControlStep, Error>(Error::BlockAbsent { id: h.id }) && z == a
    } else if lease_check(b.handle, h.lease_token, now_ms) is Err {
        r == Err::<ControlStep, Error>(lease_check(b.handle, h.lease_token, now_ms)->Err_0) && z == a
    } else {
        &&& z == (Runtime { ram: z.ram, ..a })
        &&& z.ram.accounting == a.ram.accounting
        &&& z.ram@ == a.ram@.insert(h.id, BlockView { handle: after, ..b })
        &&& r matches Ok(ControlStep::Register { request, reply: Reply::Handle { handle } }) && handle@ == after
            && reports(request, after, a.led())
    }
}

/// What giving a block back leads to.
pub open spec fn given_back(a: Runtime, z: Runtime, id: Uuid, token: Uuid, r: Result<(), Error>) -> bool {
    let b = a.ram@[id];
    if !a.ram@.contains_key(id) {
        r == Ok::<(), Error>(()) && z == a
    } else if b.handle.lease_token != token {
        r == Err::<(), Error>(Error::LeaseDenied) && z == a
    } else {
        &&& r == Ok::<(), Error>(())
        &&& z == (Runtime { ram: z.ram, ..a })
        &&& z.ram@ == a.ram@.remove(id)
        &&& if b.pins == 0 {
            &&& z.ram.accounting.budget == a.ram.accounting.budget
            &&& z.ram.accounting.owned + b.handle.size == a.ram.accounting.owned
            &&& z.ram.accounting.peak == a.ram.accounting.peak
            &&& z.ram.accounting.jobs@ == with_less(a.ram.accounting.jobs@, b.handle.job_id, b.handle.size)
            &&& z.ram.lingering() == a.ram.lingering()
        } else {
            z.ram.accounting == a.ram.accounting && z.ram.lingering() == a.ram.lingering().push(b)
        }
    }
}

impl Runtime {
    /// Commits an upload that this node has.
    pub fn commit(&mut self, handle: &MemoryBlockHandle, checksum: &str, now_ms: u64) -> (r: Result<ControlStep, Error>)
        requires
            old(self).wf(),
            !old(self).ram.held(handle.id),
        ensures
            final(self).wf(),
            committed(*old(self), *final(self), handle@, checksum@, now_ms, r),
    {
        let ghost first = *self;
        let done: MemoryBlockHandle = self.ram.commit(handle.id, handle.lease_token, checksum, now_ms)?;
        proof {
            first.lemma_ram_changed(*self);
        }
        if done.generation == 0 {
            let told: MemoryBlockHandle = done.duplicate();
            Ok(
                ControlStep::Register {
                    request: Request::Register {
                        handle: told,
                        previous_generation: None,
                        leadership: self.leadership(),
                    },
                    reply: Reply::Handle { handle: done },
                },
            )
        } else {
            Ok(ControlStep::Reply { reply: Reply::Handle { handle: done } })
        }
    }

    /// Renews the lease of a block that this node has.
    pub fn renew(&mut self, handle: &MemoryBlockHandle, now_ms: u64) -> (r: Result<ControlStep, Error>)
        requires
            old(self).wf(),
            !old(self).ram.held(handle.id),
        ensures
            final(self).wf(),
            renewed(*old(self), *final(self), handle@, now_ms, r),
    {
        let ghost first = *self;
        let expires_ms: u64 = sum(now_ms, self.config.lease_seconds * 1000);
        let done: MemoryBlockHandle = self.ram.renew(handle.id, handle.lease_token, expires_ms, now_ms)?;
        proof {
            first.lemma_ram_changed(*self);
        }
        let told: MemoryBlockHandle = done.duplicate();
        Ok(
            ControlStep::Register {
                request: Request::Register { handle: told, previous_generation: None, leadership: self.leadership() },
                reply: Reply::Handle { handle: done },
            },
        )
    }

    /// Gives back a block that this node has.
    pub fn free(&mut self, id: Uuid, token: Uuid) -> (r: Result<(), Error>)
        requires
            old(self).wf(),
            !old(self).ram.held(id),
        ensures
            final(self).wf(),
            given_back(*old(self), *final(self), id, token, r),
    {
        let ghost first = *self;
        let r: Result<(), Error> = self.ram.free(id, token);
        proof {
            assert forall|e: LedgerEntry|
                e.job is None && first.ram.accounting.holds(e) implies self.ram.accounting.holds(e) by {
                if first.ram.owns(e) {
                    first.ram.lemma_owned(e);
                }
            }
            first.lemma_ram_changed(*self);
        }
        r
    }

    /// What the owner of a block is asked, once it is known, and where.
    pub fn route(&self, handle: MemoryBlockHandle, routed: Routed) -> (r: Result<(SocketAddress, Request), Error>)
        requires
            self.wf(),
        ensures
            match self.reached(handle.owner_node) {
                None => r == Err::<(SocketAddress, Request), Error>(
                    Error::NodeUnavailable { node: handle.owner_node },
                ),
                Some(a) => r matches Ok((address, request)) && address == a && match routed {
                    Routed::Commit { checksum } => request == (Request::Commit { handle, checksum, direct: true }),
                    Routed::Renew => request == (Request::Renew { handle, direct: true }),
                    Routed::Free => request == (Request::Free { handle, direct: true }),
                },
            },
    {
        let address: SocketAddress = self.address(handle.owner_node)?;
        let request: Request = match routed {
            Routed::Commit { checksum } => Request::Commit { handle, checksum, direct: true },
            Routed::Renew => Request::Renew { handle, direct: true },
            Routed::Free => Request::Free { handle, direct: true },
        };
        Ok((address, request))
    }

    /// What the leader is told when the owner has given a block back: that its
    /// lease has ended for good. Nothing when the owner refused.
    pub fn after_free(&self, handle: MemoryBlockHandle, ok: bool) -> (r: Option<Request>)
        requires
            self.wf(),
        ensures
            !ok ==> r is None,
            ok ==> (r matches Some(request) && reports(
                request,
                (HandleView { lease_expires_ms: 0, ..handle@ }),
                self.led(),
            )),
    {
        if !ok {
            return None;
        }
        let mut ended: MemoryBlockHandle = handle;
        ended.lease_expires_ms = 0;
        Some(
            Request::Register { handle: ended, previous_generation: None, leadership: self.leadership() },
        )
    }
}

/// An allocation leaves room for relays: whatever a leader believed of the
/// node, the bytes that are promised and the headroom fit into the budget.
pub proof fn law_allocation_leaves_headroom(
    a: Runtime,
    z: Runtime,
    h: HandleView,
    leadership: Leadership,
    sample: MemorySample,
    r: Result<MemoryBlockHandle, Error>,
)
    requires
        a.wf(),
        z.wf(),
        settled(a, z, h, leadership, sample, r),
        r is Ok,
    ensures
        z.ram.accounting.owned + HEADROOM <= z.ram.accounting.budget,
        z.ram.accounting.budget == z.me().memory.trainpool_ram_budget,
{
}

/// A migration is noted once: when the leader has taken a report that a block
/// moved on from a generation, a second report that it moved on from the same
/// generation is refused.
pub proof fn law_migration_is_noted_once(a: Runtime, z: Runtime, h: HandleView, k: HandleView, previous: u64, leadership: Leadership)
    requires
        previous < u64::MAX,
        a.residency@.contains_key(h.id),
        a.residency@[h.id].lease_expires_ms != 0,
        register_check(a, h, Some(previous), leadership) is None,
        z == (Runtime { residency: z.residency, ..a }),
        z.residency@ == registered(a.residency@, h),
        k.id == h.id,
    ensures
        register_check(z, k, Some(previous), leadership) == Some(Error::MigrationConflict),
{
}

} // verus!
