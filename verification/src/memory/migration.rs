//! Moving a block to another node. The source keeps its copy until the
//! destination has checked its own and the leader has taken note.
use crate::address::SocketAddress;
use crate::bytes::slice_of;
use crate::cluster::election::Leadership;
use crate::cluster::membership::Peer;
use crate::config::ConfigView;
use crate::double::Double;
use crate::error::Error;
use crate::ids::Uuid;
use crate::memory::allocator::{with_less, LedgerEntry};
use crate::memory::block::{BlockState, HandleView, Location, LocationView, MemoryBlockHandle};
use crate::memory::local_ram::{lease_check, let_go, BlockView, RamBlock};
use crate::metrics::{job_of, plus, sum, JobMetrics};
use crate::node::capabilities::NodeView;
use crate::protocol::request::Request;
use crate::runtime::Runtime;
use crate::text::same_text;
use vstd::prelude::*;

verus! {

/// When a lease that begins now ends.
pub open spec fn lease_end(config: ConfigView, now_ms: u64) -> u64 {
    plus(now_ms, (config.lease_seconds * 1000) as u64)
}

/// How far a migration has come.
#[derive(Clone, Copy, Debug, PartialEq, Eq, Structural)]
pub enum Stage {
    /// The destination is asked for room.
    Allocate,
    /// The bytes are on their way.
    Copy,
    /// The destination is asked to check what it has.
    Commit,
    /// The copy at the destination is given back.
    Undo,
    /// The leader is told of the new place.
    Register,
    /// The destination is told that it may show the block.
    Publish,
    /// Nothing is left to do.
    Over,
}

/// A block on its way.
pub struct Migration {
    /// The block as the leader named it.
    pub handle: MemoryBlockHandle,
    /// The block as it is to be at the destination.
    pub target: MemoryBlockHandle,
    pub leadership: Leadership,
    pub address: SocketAddress,
    pub data_address: SocketAddress,
    pub chunk: usize,
    pub udp: bool,
    pub sent: usize,
    pub stage: Stage,
    /// The block as the destination has committed it.
    pub committed: Option<MemoryBlockHandle>,
    /// Why the copy failed.
    pub reason: String,
}

/// What a migration asks for next.
pub enum Step {
    /// A request to the destination.
    Ask { address: SocketAddress, request: Request },
    /// A chunk to the destination.
    Write { address: SocketAddress, udp: bool, offset: u64, payload: Vec<u8> },
    /// A request to the leader.
    Tell { request: Request },
    /// The block is at the destination.
    Moved { handle: MemoryBlockHandle },
    /// The block stays where it was.
    Stayed { reason: String },
}

/// What came of the last step.
pub enum Outcome {
    Accepted,
    Committed { handle: MemoryBlockHandle },
    Refused { reason: String },
}

/// What stands in the way of a migration.
pub open spec fn migration_check(a: Runtime, h: HandleView, destination: Uuid, now_ms: u64) -> Option<Error> {
    let b = a.ram@[h.id];
    if destination == a.node_id {
        Some(Error::MigrationHere)
    } else if !a.ram@.contains_key(h.id) {
        Some(Error::BlockAbsent { id: h.id })
    } else if lease_check(b.handle, h.lease_token, now_ms) is Err {
        Some(lease_check(b.handle, h.lease_token, now_ms)->Err_0)
    } else if b.handle.generation != h.generation || b.handle.state != BlockState::Ready {
        Some(Error::MigrationStale)
    } else if !a.membership@.contains_key(destination) {
        Some(Error::MigrationDestination)
    } else {
        None
    }
}

/// A block as it is to be at its destination: of the next generation, and still
/// to be written.
pub open spec fn target_of(h: HandleView, node: NodeView, expires_ms: u64) -> HandleView {
    HandleView {
        owner_node: node.node_id,
        owner_incarnation: node.incarnation,
        location_type: LocationView::Ram { node_id: node.node_id },
        generation: plus(h.generation, 1),
        state: BlockState::Writing,
        checksum: None,
        lease_expires_ms: expires_ms,
        ..h
    }
}

/// A migration that has just begun.
pub open spec fn begun(m: Migration, a: Runtime, h: HandleView, destination: Uuid, leadership: Leadership, now_ms: u64) -> bool {
    let node = a.membership@[destination].capabilities;
    &&& m.handle@ == h
    &&& m.target@ == target_of(a.ram@[h.id].handle, node, lease_end(a.config@, now_ms))
    &&& m.leadership == leadership
    &&& m.address == node.network.control_address
    &&& m.data_address == match node.network.data_address {
        Some(d) => d,
        None => node.network.control_address,
    }
    &&& m.chunk == if a.config.chunk_bytes <= node.network.chunk_bytes {
        a.config.chunk_bytes
    } else {
        node.network.chunk_bytes
    }
    &&& m.udp == (a.config@.data_transport == "udp"@ && node.network.data_transport == "udp"@)
    &&& m.sent == 0
    &&& m.stage == Stage::Allocate
    &&& m.committed is None
}

impl Runtime {
    /// A migration is under way: the source's copy is committed and held.
    pub open spec fn migrates(&self, m: Migration) -> bool {
        let b = self.ram@[m.handle.id];
        &&& self.ram.held(m.handle.id)
        &&& b.handle.state == BlockState::Ready
        &&& b.handle.lease_token == m.handle.lease_token
        &&& m.sent <= b.bytes.len()
        &&& 4096 <= m.chunk <= 67_108_864
        &&& m.stage == Stage::Register || m.stage == Stage::Publish ==> m.committed is Some
        &&& m.stage != Stage::Over
    }

    /// The node with one block of its store let go.
    pub open spec fn released(self, z: Runtime, id: Uuid) -> bool {
        &&& z == (Runtime { ram: z.ram, metrics: z.metrics, ..self })
        &&& z.ram@ == self.ram@.insert(id, let_go(self.ram@[id]))
        &&& z.ram.accounting == self.ram.accounting
    }

    /// Begins to move a block: it is held from here to the end.
    pub fn begin_migration(
        &mut self,
        handle: MemoryBlockHandle,
        destination: Uuid,
        leadership: Leadership,
        now_ms: u64,
    ) -> (r: Result<Migration, Error>)
        requires
            old(self).wf(),
            !old(self).ram.held(handle.id),
        ensures
            final(self).wf(),
            match r {
                Ok(m) => {
                    &&& migration_check(*old(self), handle@, destination, now_ms) is None
                    &&& *final(self) == (Runtime { ram: final(self).ram, ..*old(self) })
                    &&& final(self).ram.accounting == old(self).ram.accounting
                    &&& final(self).ram@ == old(self).ram@.insert(
                        handle.id,
                        (BlockView { busy: true, ..old(self).ram@[handle.id] }),
                    )
                    &&& final(self).migrates(m)
                    &&& begun(m, *old(self), handle@, destination, leadership, now_ms)
                },
                Err(e) => {
                    &&& migration_check(*old(self), handle@, destination, now_ms) == Some(e)
                    &&& *final(self) == *old(self)
                },
            },
    {
        let ghost first = *self;
        if destination == self.node_id {
            return Err(Error::MigrationHere);
        }
        let b: &RamBlock = self.ram.get(handle.id)?;
        b.authorize(handle.lease_token, now_ms)?;
        if b.handle.generation != handle.generation || b.handle.state != BlockState::Ready {
            return Err(Error::MigrationStale);
        }
        let peer: &Peer = match self.membership.peers.get(destination) {
            Some(p) => p,
            None => {
                proof {
                    assert(!first.membership@.contains_key(destination));
                }
                return Err(Error::MigrationDestination);
            },
        };
        proof {
            assert(first.membership@.contains_key(destination));
            assert(first.membership@[destination] == peer@);
        }
        let mut target: MemoryBlockHandle = b.handle.duplicate();
        target.owner_node = destination;
        target.owner_incarnation = peer.capabilities.incarnation;
        target.location_type = Location::Ram { node_id: destination };
        target.generation = sum(target.generation, 1);
        target.state = BlockState::Writing;
        target.checksum = None;
        target.lease_expires_ms = sum(now_ms, self.config.lease_seconds * 1000);
        let address: SocketAddress = peer.capabilities.network.control_address;
        let data_address: SocketAddress = match peer.capabilities.network.data_address {
            Some(d) => d,
            None => address,
        };
        let theirs: usize = peer.capabilities.network.chunk_bytes;
        let chunk: usize = if self.config.chunk_bytes <= theirs {
            self.config.chunk_bytes
        } else {
            theirs
        };
        let udp: bool = same_text(self.config.data_transport.as_str(), "udp") && same_text(
            peer.capabilities.network.data_transport.as_str(),
            "udp",
        );
        let id: Uuid = handle.id;
        self.ram.hold(id);
        proof {
            first.lemma_ram_changed(*self);
        }
        Ok(
            Migration {
                handle,
                target,
                leadership,
                address,
                data_address,
                chunk,
                udp,
                sent: 0,
                stage: Stage::Allocate,
                committed: None,
                reason: String::new(),
            },
        )
    }

    /// The first step of a migration: the destination is asked for room.
    pub fn migration_opening(&self, m: &Migration) -> (r: Step)
        ensures
            r matches Step::Ask { address, request: Request::AllocateLocal { handle, leadership } } && address
                == m.address && handle@ == m.target@ && leadership == m.leadership,
    {
        Step::Ask {
            address: m.address,
            request: Request::AllocateLocal { handle: m.target.duplicate(), leadership: m.leadership },
        }
    }
}

/// The chunk of a block that follows what was sent.
pub open spec fn next_piece(bytes: Seq<u8>, sent: int, chunk: int) -> Seq<u8> {
    bytes.subrange(
        sent,
        if sent + chunk < bytes.len() {
            sent + chunk
        } else {
            bytes.len() as int
        },
    )
}

/// What is asked for while bytes are left, and then.
pub open spec fn copying(a: Runtime, m: Migration, r: Step) -> bool {
    let b = a.ram@[m.handle.id];
    if m.sent < b.bytes.len() {
        &&& m.stage == Stage::Copy
        &&& r matches Step::Write { address, udp, offset, payload } && {
            &&& address == if m.udp {
                m.data_address
            } else {
                m.address
            }
            &&& udp == m.udp
            &&& offset == m.sent
            &&& payload@ == next_piece(b.bytes, m.sent as int, m.chunk as int)
        }
    } else {
        &&& m.stage == Stage::Commit
        &&& r matches Step::Ask { address, request: Request::Commit { handle, checksum, direct } } && {
            &&& address == m.address
            &&& handle@ == m.target@
            &&& Some(checksum@) == b.handle.checksum
            &&& direct
        }
    }
}

/// The same migration but for how far it has come.
pub open spec fn same_migration(a: Migration, z: Migration) -> bool {
    &&& z.handle == a.handle
    &&& z.target == a.target
    &&& z.leadership == a.leadership
    &&& z.address == a.address
    &&& z.data_address == a.data_address
    &&& z.chunk == a.chunk
    &&& z.udp == a.udp
}

/// The counters of a job whose block has moved.
pub open spec fn moved_metrics(
    a: Map<Uuid, JobMetrics>,
    h: HandleView,
    waited: Double,
    latency: Double,
) -> Map<Uuid, JobMetrics> {
    let j = job_of(a, h.job_id);
    a.insert(
        h.job_id,
        JobMetrics {
            tensor_migrations: plus(j.tensor_migrations, 1),
            bytes_local_to_remote_ram: plus(j.bytes_local_to_remote_ram, h.size),
            local_to_remote_bytes: plus(j.local_to_remote_bytes, h.size),
            network_bytes: plus(j.network_bytes, h.size),
            network_wait_ms: waited,
            migration_latency_ms: latency,
            ..j
        },
    )
}

/// What the outcome of a step leads to.
pub open spec fn migrated(
    a: Runtime,
    z: Runtime,
    m: Migration,
    n: Migration,
    o: Outcome,
    waited: Double,
    latency: Double,
    r: Step,
) -> bool {
    let id = m.handle.id;
    let b = a.ram@[id];
    &&& same_migration(m, n)
    &&& match (m.stage, o) {
        (Stage::Allocate, Outcome::Accepted) => z == a && n.sent == m.sent && copying(a, n, r),
        (Stage::Copy, Outcome::Accepted) => {
            &&& z == a
            &&& n.sent == m.sent + next_piece(b.bytes, m.sent as int, m.chunk as int).len()
            &&& copying(a, n, r)
        },
        (Stage::Commit, Outcome::Committed { handle }) => {
            &&& z == a
            &&& n.stage == Stage::Register
            &&& n.committed matches Some(c) && c@ == handle@
            &&& r matches Step::Tell {
                request: Request::Register { handle: told, previous_generation, leadership },
            } && {
                &&& told@ == handle@
                &&& previous_generation == Some(m.handle.generation)
                &&& leadership == m.leadership
            }
        },
        (Stage::Copy, Outcome::Refused { reason }) | (Stage::Commit, Outcome::Refused { reason }) => {
            &&& z == a
            &&& n.stage == Stage::Undo
            &&& n.reason@ == reason@
            &&& r matches Step::Ask { address, request: Request::Free { handle, direct } } && {
                &&& address == m.address
                &&& handle@ == m.target@
                &&& direct
            }
        },
        (Stage::Copy, _) | (Stage::Commit, _) => {
            &&& z == a
            &&& n.stage == Stage::Undo
            &&& n.reason@ == "protocol failure"@
            &&& r matches Step::Ask { address, request: Request::Free { handle, direct } } && {
                &&& address == m.address
                &&& handle@ == m.target@
                &&& direct
            }
        },
        (Stage::Undo, _) => {
            let j = job_of(a.metrics@, m.handle.job_id);
            &&& a.released(z, id)
            &&& z.metrics@ == a.metrics@.insert(
                m.handle.job_id,
                JobMetrics { failed_transfers: plus(j.failed_transfers, 1), ..j },
            )
            &&& n.stage == Stage::Over
            &&& r matches Step::Stayed { reason } && reason@ == m.reason@
        },
        (Stage::Register, Outcome::Accepted) => {
            &&& z == a
            &&& n.stage == Stage::Publish
            &&& n.committed == m.committed
            &&& r matches Step::Ask { address, request: Request::Publish { handle, leadership } } && {
                &&& address == m.address
                &&& handle@ == (m.committed->0)@
                &&& leadership == m.leadership
            }
        },
        (Stage::Publish, Outcome::Accepted) => {
            &&& z == (Runtime { ram: z.ram, metrics: z.metrics, ..a })
            &&& z.ram@ == a.ram@.remove(id)
            &&& if b.pins == 0 {
                &&& z.ram.accounting.budget == a.ram.accounting.budget
                &&& z.ram.accounting.owned + b.handle.size == a.ram.accounting.owned
                &&& z.ram.accounting.peak == a.ram.accounting.peak
                &&& z.ram.accounting.jobs@ == with_less(a.ram.accounting.jobs@, b.handle.job_id, b.handle.size)
                &&& z.ram.lingering() == a.ram.lingering()
            } else {
                &&& z.ram.accounting == a.ram.accounting
                &&& z.ram.lingering() == a.ram.lingering().push(let_go(b))
            }
            &&& z.metrics@ == moved_metrics(a.metrics@, m.handle@, waited, latency)
            &&& n.stage == Stage::Over
            &&& r matches Step::Moved { handle } && handle@ == (m.committed->0)@
        },
        (_, Outcome::Refused { reason }) => {
            &&& a.released(z, id)
            &&& z.metrics == a.metrics
            &&& n.stage == Stage::Over
            &&& r matches Step::Stayed { reason: told } && told@ == reason@
        },
        _ => {
            &&& a.released(z, id)
            &&& z.metrics == a.metrics
            &&& n.stage == Stage::Over
            &&& r matches Step::Stayed { reason } && reason@ == "protocol failure"@
        },
    }
}

/// Has the destination give back its copy before the leader knows of it.
fn undo(m: &mut Migration, reason: String) -> (r: Step)
    ensures
        *final(m) == (Migration { stage: Stage::Undo, reason, ..*old(m) }),
        r matches Step::Ask { address, request: Request::Free { handle, direct } } && {
            &&& address == old(m).address
            &&& handle@ == old(m).target@
            &&& direct
        },
{
    m.stage = Stage::Undo;
    m.reason = reason;
    Step::Ask { address: m.address, request: Request::Free { handle: m.target.duplicate(), direct: true } }
}

impl Runtime {
    /// The next chunk, or the request to commit when there is none.
    fn go_on(&self, m: &mut Migration) -> (r: Step)
        requires
            self.wf(),
            self.migrates(*old(m)),
        ensures
            same_migration(*old(m), *final(m)),
            final(m).sent == old(m).sent,
            final(m).committed == old(m).committed,
            self.migrates(*final(m)),
            copying(*self, *final(m), r),
    {
        proof {
            assert(self.ram@.contains_key(m.handle.id));
        }
        match self.ram.get(m.handle.id) {
            Ok(b) => {
                let total: usize = b.bytes.len();
                let sent: usize = m.sent;
                if sent < total {
                    let end: usize = if total - sent > m.chunk {
                        sent + m.chunk
                    } else {
                        total
                    };
                    m.stage = Stage::Copy;
                    Step::Write {
                        address: if m.udp {
                            m.data_address
                        } else {
                            m.address
                        },
                        udp: m.udp,
                        offset: sent as u64,
                        payload: slice_of(b.bytes.as_slice(), sent, end),
                    }
                } else {
                    m.stage = Stage::Commit;
                    proof {
                        assert(self.ram@[m.handle.id].intact());
                    }
                    let checksum: String = match &b.handle.checksum {
                        Some(c) => c.clone(),
                        None => {
                            assert(false);
                            String::new()
                        },
                    };
                    Step::Ask {
                        address: m.address,
                        request: Request::Commit { handle: m.target.duplicate(), checksum, direct: true },
                    }
                }
            },
            Err(_) => {
                assert(false);
                Step::Stayed { reason: String::new() }
            },
        }
    }

    /// Lets the source's copy go and stay.
    fn stay(&mut self, m: &mut Migration, reason: String) -> (r: Step)
        requires
            old(self).wf(),
            old(self).migrates(*old(m)),
        ensures
            final(self).wf(),
            old(self).released(*final(self), old(m).handle.id),
            final(self).metrics == old(self).metrics,
            same_migration(*old(m), *final(m)),
            final(m).stage == Stage::Over,
            r matches Step::Stayed { reason: told } && told@ == reason@,
    {
        let ghost first = *self;
        self.ram.abandon(m.handle.id);
        proof {
            first.lemma_ram_changed(*self);
        }
        m.stage = Stage::Over;
        Step::Stayed { reason }
    }

    /// Takes the outcome of the last step and says what comes next. Only when
    /// the destination has committed its copy, the leader has taken note and
    /// the copy is published does the source give up its own.
    pub fn migration_step(
        &mut self,
        m: &mut Migration,
        outcome: Outcome,
        waited: Double,
        latency: Double,
    ) -> (r: Step)
        requires
            old(self).wf(),
            old(self).migrates(*old(m)),
        ensures
            final(self).wf(),
            final(m).stage != Stage::Over ==> final(self).migrates(*final(m)),
            migrated(*old(self), *final(self), *old(m), *final(m), outcome, waited, latency, r),
    {
        let ghost first = *self;
        let ghost before = *m;
        let id: Uuid = m.handle.id;
        match (m.stage, outcome) {
            (Stage::Allocate, Outcome::Accepted) => self.go_on(m),
            (Stage::Copy, Outcome::Accepted) => {
                match self.ram.get(id) {
                    Ok(b) => {
                        let total: usize = b.bytes.len();
                        if m.sent < total {
                            m.sent =
                            if total - m.sent > m.chunk {
                                m.sent + m.chunk
                            } else {
                                total
                            };
                        }
                    },
                    Err(_) => {
                        assert(false);
                    },
                }
                self.go_on(m)
            },
            (Stage::Commit, Outcome::Committed { handle }) => {
                m.stage = Stage::Register;
                let told: MemoryBlockHandle = handle.duplicate();
                m.committed = Some(handle);
                Step::Tell {
                    request: Request::Register {
                        handle: told,
                        previous_generation: Some(m.handle.generation),
                        leadership: m.leadership,
                    },
                }
            },
            (Stage::Copy, Outcome::Refused { reason }) | (Stage::Commit, Outcome::Refused { reason }) => undo(
                m,
                reason,
            ),
            (Stage::Copy, _) | (Stage::Commit, _) => undo(m, "protocol failure".to_owned()),
            (Stage::Undo, _) => {
                let reason: String = m.reason.clone();
                let r: Step = self.stay(m, reason);
                let j: &mut JobMetrics = self.metrics.job(m.handle.job_id);
                j.failed_transfers = sum(j.failed_transfers, 1);
                r
            },
            (Stage::Register, Outcome::Accepted) => {
                m.stage = Stage::Publish;
                let handle: MemoryBlockHandle = match &m.committed {
                    Some(c) => c.duplicate(),
                    None => {
                        assert(false);
                        m.target.duplicate()
                    },
                };
                Step::Ask {
                    address: m.address,
                    request: Request::Publish { handle, leadership: m.leadership },
                }
            },
            (Stage::Publish, Outcome::Accepted) => {
                self.ram.abandon(id);
                let ghost free = *self;
                let _ = self.ram.free(id, m.handle.lease_token);
                proof {
                    assert(self.ram@ =~= first.ram@.remove(id));
                    assert forall|e: LedgerEntry|
                        e.job is None && first.ram.accounting.holds(e) implies self.ram.accounting.holds(e) by {
                        if free.ram.owns(e) {
                            free.ram.lemma_owned(e);
                        }
                    }
                    first.lemma_ram_changed(*self);
                }
                let j: &mut JobMetrics = self.metrics.job(m.handle.job_id);
                j.tensor_migrations = sum(j.tensor_migrations, 1);
                j.bytes_local_to_remote_ram = sum(j.bytes_local_to_remote_ram, m.handle.size);
                j.local_to_remote_bytes = sum(j.local_to_remote_bytes, m.handle.size);
                j.network_bytes = sum(j.network_bytes, m.handle.size);
                j.network_wait_ms = waited;
                j.migration_latency_ms = latency;
                m.stage = Stage::Over;
                let handle: MemoryBlockHandle = match &m.committed {
                    Some(c) => c.duplicate(),
                    None => {
                        assert(false);
                        m.target.duplicate()
                    },
                };
                Step::Moved { handle }
            },
            (_, Outcome::Refused { reason }) => self.stay(m, reason),
            _ => self.stay(m, "protocol failure".to_owned()),
        }
    }
}

/// A migration copies the block: where the destination has what was sent, it
/// has that and the next chunk once the chunk has arrived, and the whole block
/// when nothing is left to send.
pub proof fn law_migration_copies(source: Seq<u8>, there: BlockView, sent: int, chunk: int, transfer_id: Uuid)
    requires
        0 <= sent <= source.len(),
        chunk > 0,
        there.bytes.len() == source.len(),
        there.written == sent,
        there.bytes.take(sent) == source.take(sent),
    ensures
        ({
            let piece = next_piece(source, sent, chunk);
            let after = there.extended(transfer_id, piece);
            &&& after.bytes.len() == source.len()
            &&& after.written == sent + piece.len()
            &&& after.bytes.take(sent + piece.len()) == source.take(sent + piece.len())
            &&& sent < source.len() ==> piece.len() > 0
        }),
        sent == source.len() ==> there.bytes == source,
{
    let piece = next_piece(source, sent, chunk);
    let after = there.extended(transfer_id, piece);
    assert(after.bytes.take(sent + piece.len()) =~= source.take(sent + piece.len())) by {
        assert forall|i: int| 0 <= i < sent + piece.len() implies after.bytes[i] == source[i] by {
            if i < sent {
                assert(there.bytes.take(sent)[i] == source.take(sent)[i]);
            }
        }
    }
    if sent == source.len() {
        assert(there.bytes.take(sent) =~= there.bytes);
        assert(source.take(sent) =~= source);
    }
}

/// The source never gives up its copy unless the destination has committed its
/// own, the leader has taken note, and the destination has published it: in
/// every other case the block is still there, with the same bytes.
pub proof fn law_source_keeps_its_copy(
    a: Runtime,
    z: Runtime,
    m: Migration,
    n: Migration,
    o: Outcome,
    waited: Double,
    latency: Double,
    r: Step,
)
    requires
        a.migrates(m),
        migrated(a, z, m, n, o, waited, latency, r),
        !(m.stage == Stage::Publish && o is Accepted),
    ensures
        z.ram@.contains_key(m.handle.id),
        z.ram@[m.handle.id].bytes == a.ram@[m.handle.id].bytes,
        z.ram@[m.handle.id].handle == a.ram@[m.handle.id].handle,
{
}

/// A copy that fails before the leader knows of it does not stay: whatever goes
/// wrong, the destination is asked to give its room back, and the block stays
/// where it was.
pub proof fn law_failed_copy_is_discarded(
    a: Runtime,
    z: Runtime,
    m: Migration,
    n: Migration,
    o: Outcome,
    waited: Double,
    latency: Double,
    r: Step,
)
    requires
        a.migrates(m),
        migrated(a, z, m, n, o, waited, latency, r),
        match m.stage {
            Stage::Copy => !(o is Accepted),
            Stage::Commit => !(o is Committed),
            _ => false,
        },
    ensures
        z == a,
        n.stage == Stage::Undo,
        r matches Step::Ask { address, request: Request::Free { handle, direct } } && address == m.address && handle@
            == m.target@ && direct,
{
}

} // verus!
