//! What a node does with requests for bytes: its own, and those that pass
//! through it to and from the owner of a block.
use crate::address::SocketAddress;
use crate::cluster::membership::Peer;
use crate::double::Double;
use crate::error::Error;
use crate::ids::Uuid;
use crate::memory::allocator::{risen, Reservation};
use crate::memory::block::{BlockState, HandleView, MemoryBlockHandle};
use crate::memory::local_ram::{chunk_check, let_go, read_check, store_check, BlockView};
use crate::memory::remote_ram::{chunk_checksum, chunk_sum};
use crate::metrics::{job_of, plus, sum, JobMetrics, Metrics};
use crate::protocol::request::Request;
use crate::runtime::control::PROBE_LIMIT;
use crate::runtime::session::{freed, opened_session};
use crate::runtime::udp::served;
use crate::runtime::Runtime;
use crate::text::same_text;
use crate::transport::udp::TransferStats;
use vstd::prelude::*;

verus! {

/// The count of requests for bytes that are under way.
pub struct ActiveTransfer;

impl ActiveTransfer {
    /// One more is under way.
    pub fn new(count: &mut u32) -> (r: Self)
        ensures
            *final(count) == if *old(count) == u32::MAX {
                0
            } else {
                *old(count) + 1
            },
    {
        *count = count.wrapping_add(1);
        ActiveTransfer
    }

    /// One is over.
    pub fn end(self, count: &mut u32)
        ensures
            *final(count) == if *old(count) == 0 {
                u32::MAX as int
            } else {
                *old(count) - 1
            },
    {
        *count = count.wrapping_sub(1);
    }
}

/// The way that a request for bytes takes.
#[derive(Clone, Copy, Debug, PartialEq, Eq, Structural)]
pub enum DataPath {
    /// Into a block here.
    Write,
    /// Into a block that the leader knows of.
    WriteThrough,
    /// Out of a block here.
    Read,
    /// Out of a block that the leader knows of.
    ReadThrough,
    /// Bytes for a measurement.
    Probe,
}

/// The way that a request for bytes takes, or what is wrong with it.
pub open spec fn path_of(request: Request, chunk_bytes: usize) -> Result<DataPath, Error> {
    match request {
        Request::WriteChunk { handle, offset, length, total_size, direct, .. } => if length == 0 || length
            > chunk_bytes {
            Err(Error::ChunkSize)
        } else if offset + length > total_size || total_size != handle.size {
            Err(Error::ChunkRange)
        } else if direct {
            Ok(DataPath::Write)
        } else {
            Ok(DataPath::WriteThrough)
        },
        Request::ReadChunk { handle, offset, length, direct, .. } => if length == 0 || length > chunk_bytes {
            Err(Error::ChunkSize)
        } else if offset + length > handle.size {
            Err(Error::ReadRequestRange)
        } else if direct {
            Ok(DataPath::Read)
        } else {
            Ok(DataPath::ReadThrough)
        },
        Request::Probe { bytes } => if bytes > PROBE_LIMIT {
            Err(Error::ProbeTooLarge)
        } else {
            Ok(DataPath::Probe)
        },
        _ => Err(Error::NotData),
    }
}

/// How bytes get to or from the owner of a block.
#[derive(Clone, Copy, Debug, PartialEq, Eq, Structural)]
pub enum Relay {
    /// The block is here.
    Here,
    Udp { address: SocketAddress },
    Tcp { address: SocketAddress },
}

/// How bytes get to or from a node: over UDP where both ends speak it.
pub open spec fn relay_to(a: Runtime, owner: Uuid) -> Option<Relay> {
    let n = a.membership@[owner].capabilities.network;
    if !a.membership@.contains_key(owner) {
        None
    } else if a.config@.data_transport == "udp"@ && n.data_transport == "udp"@ {
        Some(
            Relay::Udp {
                address: match n.data_address {
                    Some(d) => d,
                    None => n.control_address,
                },
            },
        )
    } else {
        Some(Relay::Tcp { address: n.control_address })
    }
}

/// The connections to one node that are kept for later.
pub const POOLED: usize = 8;

/// The counters after bytes went to another node, or came from one; `waited` is
/// the time that was spent on the network in all.
pub open spec fn passed_through(m: Map<Uuid, JobMetrics>, job: Uuid, length: usize, outward: bool, waited: Double) -> Map<
    Uuid,
    JobMetrics,
> {
    let j = job_of(m, job);
    let n = length as u64;
    m.insert(
        job,
        if outward {
            JobMetrics {
                bytes_local_to_remote_ram: plus(j.bytes_local_to_remote_ram, n),
                local_to_remote_bytes: plus(j.local_to_remote_bytes, n),
                network_bytes: plus(j.network_bytes, n),
                network_wait_ms: waited,
                ..j
            }
        } else {
            JobMetrics {
                bytes_remote_ram_to_local: plus(j.bytes_remote_ram_to_local, n),
                remote_to_local_bytes: plus(j.remote_to_local_bytes, n),
                network_bytes: plus(j.network_bytes, n),
                network_wait_ms: waited,
                ..j
            }
        },
    )
}

/// The counters with bytes that a job sent or received.
pub open spec fn with_network(m: Map<Uuid, JobMetrics>, job: Uuid, length: u64) -> Map<Uuid, JobMetrics> {
    m.insert(
        job,
        JobMetrics { network_bytes: plus(job_of(m, job).network_bytes, length), ..job_of(m, job) },
    )
}

/// The counters with a connection that was opened for a job, or used again.
pub open spec fn with_connection(m: Map<Uuid, JobMetrics>, job: Uuid, reused: bool) -> Map<Uuid, JobMetrics> {
    m.insert(
        job,
        JobMetrics {
            tcp_connections_opened: plus(
                job_of(m, job).tcp_connections_opened,
                if reused {
                    0
                } else {
                    1
                },
            ),
            tcp_connections_reused: plus(
                job_of(m, job).tcp_connections_reused,
                if reused {
                    1
                } else {
                    0
                },
            ),
            ..job_of(m, job)
        },
    )
}

impl Metrics {
    /// Counts bytes that went to another node, or came from one.
    pub fn count_relay(&mut self, job: Uuid, length: usize, outward: bool, waited: Double)
        requires
            old(self).wf(),
        ensures
            final(self).wf(),
            final(self)@ == passed_through(old(self)@, job, length, outward, waited),
    {
        let m: &mut JobMetrics = self.job(job);
        let n: u64 = length as u64;
        if outward {
            m.bytes_local_to_remote_ram = sum(m.bytes_local_to_remote_ram, n);
            m.local_to_remote_bytes = sum(m.local_to_remote_bytes, n);
        } else {
            m.bytes_remote_ram_to_local = sum(m.bytes_remote_ram_to_local, n);
            m.remote_to_local_bytes = sum(m.remote_to_local_bytes, n);
        }
        m.network_bytes = sum(m.network_bytes, n);
        m.network_wait_ms = waited;
    }

    /// Counts bytes that went over the network.
    pub fn count_network(&mut self, job: Uuid, length: usize)
        requires
            old(self).wf(),
        ensures
            final(self).wf(),
            final(self)@ == with_network(old(self)@, job, length as u64),
    {
        let m: &mut JobMetrics = self.job(job);
        m.network_bytes = sum(m.network_bytes, length as u64);
    }

    /// Counts a connection that was opened, or used again.
    pub fn count_connection(&mut self, job: Uuid, reused: bool)
        requires
            old(self).wf(),
        ensures
            final(self).wf(),
            final(self)@ == with_connection(old(self)@, job, reused),
    {
        let m: &mut JobMetrics = self.job(job);
        if reused {
            m.tcp_connections_reused = sum(m.tcp_connections_reused, 1);
        } else {
            m.tcp_connections_opened = sum(m.tcp_connections_opened, 1);
        }
    }

    /// Counts a transfer over UDP that begins.
    pub fn open_session(&mut self, job: Uuid)
        requires
            old(self).wf(),
        ensures
            final(self).wf(),
            final(self)@ == opened_session(old(self)@, job),
    {
        let m: &mut JobMetrics = self.job(job);
        m.transfer_sessions = sum(m.transfer_sessions, 1);
        m.active_transfer_sessions = sum(m.active_transfer_sessions, 1);
    }

    /// Counts a transfer over UDP that ended, well or not.
    pub fn close_session(&mut self, job: Uuid, outcome: Option<TransferStats>)
        requires
            old(self).wf(),
        ensures
            final(self).wf(),
            final(self)@ == served(old(self)@, job, outcome),
    {
        let m: &mut JobMetrics = self.job(job);
        match outcome {
            Some(stats) => {
                m.apply_udp_stats(&stats);
            },
            None => {
                m.failed_transfers = sum(m.failed_transfers, 1);
            },
        }
        m.active_transfer_sessions = m.active_transfer_sessions.saturating_sub(1);
    }
}

/// What a chunk that came to its end leads to. Bytes with another checksum are
/// in the buffer too, but behind what has arrived.
pub open spec fn landed(
    a: Runtime,
    z: Runtime,
    id: Uuid,
    job: Uuid,
    transfer_id: Uuid,
    payload: Seq<u8>,
    checksum: Seq<char>,
    r: Result<(), Error>,
) -> bool {
    let b = a.ram@[id];
    &&& z == (Runtime { ram: z.ram, metrics: z.metrics, ..a })
    &&& z.ram.accounting == a.ram.accounting
    &&& if chunk_sum(payload) == checksum {
        let j = job_of(a.metrics@, job);
        &&& r == Ok::<(), Error>(())
        &&& z.ram@ == a.ram@.insert(id, let_go(b.extended(transfer_id, payload)))
        &&& z.metrics@ == a.metrics@.insert(
            job,
            JobMetrics { network_bytes: plus(j.network_bytes, payload.len() as u64), ..j },
        )
    } else {
        &&& r == Err::<(), Error>(Error::ChecksumMismatch)
        &&& z.ram@ == a.ram@.insert(id, let_go(b.overlaid(payload)))
        &&& z.metrics == a.metrics
    }
}

/// What a chunk that passes through leads to, when all its bytes are here.
pub open spec fn relayed(
    a: Runtime,
    z: Runtime,
    h: MemoryBlockHandle,
    transfer_id: Uuid,
    offset: u64,
    payload: Seq<u8>,
    checksum: Seq<char>,
    now_ms: u64,
    r: Result<Relay, Error>,
) -> bool {
    if chunk_sum(payload) != checksum {
        r == Err::<Relay, Error>(Error::ChecksumMismatch) && z == a
    } else if h.owner_node != a.node_id {
        &&& z == a
        &&& r == match relay_to(a, h.owner_node) {
            Some(way) => Ok(way),
            None => Err(Error::PeerUnavailable),
        }
    } else if !a.ram@.contains_key(h.id) {
        r == Err::<Relay, Error>(Error::BlockAbsent { id: h.id }) && z == a
    } else if store_check(a.ram@[h.id], h@, offset, now_ms) is Err {
        r == Err::<Relay, Error>(store_check(a.ram@[h.id], h@, offset, now_ms)->Err_0) && z == a
    } else {
        &&& r == Ok::<Relay, Error>(Relay::Here)
        &&& z == (Runtime { ram: z.ram, ..a })
        &&& z.ram.accounting == a.ram.accounting
        &&& z.ram@ == a.ram@.insert(h.id, a.ram@[h.id].extended(transfer_id, payload))
    }
}

/// A relay that begins: its bytes are reserved, if there is room for them.
pub open spec fn relay_begun(a: Runtime, z: Runtime, length: usize, r: Result<Reservation, Error>) -> bool {
    match r {
        Ok(held) => {
            &&& a.ram.accounting.owned + length <= a.ram.accounting.budget
            &&& z == (Runtime { ram: z.ram, ..a })
            &&& z.ram.same_blocks(&a.ram)
            &&& z.ram@ == a.ram@
            &&& z.ram.accounting.budget == a.ram.accounting.budget
            &&& z.ram.accounting.owned == a.ram.accounting.owned + length
            &&& z.ram.accounting.peak == risen(a.ram.accounting.peak, a.ram.accounting.owned + length)
            &&& z.ram.accounting.jobs == a.ram.accounting.jobs
            &&& held.entry().bytes == length
            &&& held.entry().job is None
            &&& z.ram.accounting.holds(held.entry())
        },
        Err(e) => {
            &&& a.ram.accounting.owned + length > a.ram.accounting.budget
            &&& e == (Error::OutOfCapacity { bytes: length as u64 })
            &&& z == a
        },
    }
}

impl Runtime {
    /// The way that a request for bytes takes.
    pub fn data_path(&self, request: &Request) -> (r: Result<DataPath, Error>)
        ensures
            r == path_of(*request, self.config.chunk_bytes),
    {
        match request {
            Request::WriteChunk { handle, offset, length, total_size, direct, .. } => {
                if *length == 0 || *length > self.config.chunk_bytes {
                    return Err(Error::ChunkSize);
                }
                let fits: bool = match offset.checked_add(*length as u64) {
                    Some(end) => end <= *total_size,
                    None => false,
                };
                if !fits || *total_size != handle.size {
                    return Err(Error::ChunkRange);
                }
                if *direct {
                    Ok(DataPath::Write)
                } else {
                    Ok(DataPath::WriteThrough)
                }
            },
            Request::ReadChunk { handle, offset, length, direct, .. } => {
                if *length == 0 || *length > self.config.chunk_bytes {
                    return Err(Error::ChunkSize);
                }
                let fits: bool = match offset.checked_add(*length as u64) {
                    Some(end) => end <= handle.size,
                    None => false,
                };
                if !fits {
                    return Err(Error::ReadRequestRange);
                }
                if *direct {
                    Ok(DataPath::Read)
                } else {
                    Ok(DataPath::ReadThrough)
                }
            },
            Request::Probe { bytes } => {
                if *bytes > PROBE_LIMIT {
                    Err(Error::ProbeTooLarge)
                } else {
                    Ok(DataPath::Probe)
                }
            },
            _ => Err(Error::NotData),
        }
    }

    /// Begins a chunk of an upload to a block here: the sender may go on.
    pub fn begin_chunk(
        &mut self,
        handle: &MemoryBlockHandle,
        transfer_id: Uuid,
        offset: u64,
        total_size: u64,
        now_ms: u64,
    ) -> (r: Result<(), Error>)
        requires
            old(self).wf(),
            !old(self).ram.held(handle.id),
        ensures
            final(self).wf(),
            r == if !old(self).ram@.contains_key(handle.id) {
                Err(Error::BlockAbsent { id: handle.id })
            } else {
                chunk_check(old(self).ram@[handle.id], handle@, transfer_id, offset, total_size, now_ms)
            },
            r is Err ==> *final(self) == *old(self),
            r is Ok ==> {
                &&& *final(self) == (Runtime { ram: final(self).ram, ..*old(self) })
                &&& final(self).ram.accounting == old(self).ram.accounting
                &&& final(self).ram@ == old(self).ram@.insert(
                    handle.id,
                    (BlockView { busy: true, ..old(self).ram@[handle.id] }),
                )
            },
    {
        let ghost first = *self;
        let r: Result<(), Error> = self.ram.begin_write(handle, transfer_id, offset, total_size, now_ms);
        proof {
            if r is Ok {
                first.lemma_ram_changed(*self);
            }
        }
        r
    }

    /// Ends a chunk of an upload to a block here.
    pub fn finish_chunk(&mut self, id: Uuid, job: Uuid, transfer_id: Uuid, payload: &[u8], checksum: &str) -> (r: Result<
        (),
        Error,
    >)
        requires
            old(self).wf(),
            old(self).ram.held(id),
            old(self).ram@[id].handle.state == BlockState::Writing,
            old(self).ram@[id].written + payload@.len() <= old(self).ram@[id].bytes.len(),
        ensures
            final(self).wf(),
            landed(*old(self), *final(self), id, job, transfer_id, payload@, checksum@, r),
    {
        let ghost first = *self;
        let r: Result<(), Error> = self.ram.finish_write(id, transfer_id, payload, checksum);
        proof {
            first.lemma_ram_changed(*self);
        }
        if r.is_ok() {
            self.metrics.count_network(job, payload.len());
        }
        r
    }

    /// Gives up a chunk whose sender broke off: the block is as it was before.
    pub fn drop_chunk(&mut self, id: Uuid)
        requires
            old(self).wf(),
            old(self).ram.held(id),
        ensures
            final(self).wf(),
            *final(self) == (Runtime { ram: final(self).ram, ..*old(self) }),
            final(self).ram.accounting == old(self).ram.accounting,
            final(self).ram@ == old(self).ram@.insert(id, let_go(old(self).ram@[id])),
    {
        let ghost first = *self;
        self.ram.abandon(id);
        proof {
            first.lemma_ram_changed(*self);
        }
    }

    /// Makes room for bytes that pass through.
    pub fn begin_relay(&mut self, length: usize) -> (r: Result<Reservation, Error>)
        requires
            old(self).wf(),
        ensures
            final(self).wf(),
            relay_begun(*old(self), *final(self), length, r),
            r matches Ok(held) ==> !final(self).owns(held.entry()),
    {
        let ghost first = *self;
        let r: Result<Reservation, Error> = self.ram.reserve(length as u64);
        proof {
            if r is Ok {
                first.lemma_ram_changed(*self);
                let e = r->Ok_0.entry();
                assert(!self.owns(e)) by {
                    if self.stages(e) {
                        let k = choose|k: Uuid|
                            #[trigger] self.staging@.contains_key(k) && self.staging@[k].reservation.entry() == e;
                        assert(first.ram.accounting.holds(first.staging@[k].reservation.entry()));
                    }
                    if self.udp_server.owns(e) {
                        let i = choose|i: int|
                            0 <= i < self.udp_server.sessions().len() && (
                            #[trigger] self.udp_server.sessions()[i]).1.entry == e;
                        assert(first.ram.accounting.holds(first.udp_server.sessions()[i].1.entry));
                    }
                    if self.ram.owns(e) {
                        self.ram.lemma_owned(e);
                    }
                }
            }
        }
        r
    }

    /// Gives back the room for bytes that passed through.
    pub fn end_relay(&mut self, held: Reservation)
        requires
            old(self).wf(),
            old(self).ram.accounting.holds(held.entry()),
            held.entry().job is None,
            !old(self).owns(held.entry()),
        ensures
            final(self).wf(),
            *final(self) == (Runtime { ram: final(self).ram, ..*old(self) }),
            freed(old(self).ram, final(self).ram, held.entry()),
    {
        let ghost first = *self;
        let ghost e = held.entry();
        self.ram.release(held);
        proof {
            assert forall|i: int| 0 <= i < self.udp_server.sessions().len() implies self.ram.accounting.holds(
                (#[trigger] self.udp_server.sessions()[i]).1.entry,
            ) by {
                assert(first.ram.accounting.holds(first.udp_server.sessions()[i].1.entry));
                assert(first.udp_server.owns(first.udp_server.sessions()[i].1.entry));
            }
            assert forall|k: Uuid| #[trigger] self.staging@.contains_key(k) implies self.ram.accounting.holds(
                self.staging@[k].reservation.entry(),
            ) by {
                assert(first.ram.accounting.holds(first.staging@[k].reservation.entry()));
                assert(first.stages(first.staging@[k].reservation.entry()));
            }
        }
    }

    fn way_to(&self, owner: Uuid) -> (r: Result<Relay, Error>)
        requires
            self.wf(),
        ensures
            r == match relay_to(*self, owner) {
                Some(way) => Ok(way),
                None => Err(Error::PeerUnavailable),
            },
    {
        let peer: &Peer = match self.membership.peers.get(owner) {
            Some(p) => p,
            None => {
                proof {
                    assert(!self.membership@.contains_key(owner));
                }
                return Err(Error::PeerUnavailable);
            },
        };
        proof {
            assert(self.membership@.contains_key(owner));
            assert(self.membership@[owner] == peer@);
        }
        if same_text(self.config.data_transport.as_str(), "udp") && same_text(
            peer.capabilities.network.data_transport.as_str(),
            "udp",
        ) {
            Ok(
                Relay::Udp {
                    address: match peer.capabilities.network.data_address {
                        Some(d) => d,
                        None => peer.capabilities.network.control_address,
                    },
                },
            )
        } else {
            Ok(Relay::Tcp { address: peer.capabilities.network.control_address })
        }
    }

    /// Takes a chunk that came to be passed on to the owner of a block: it goes
    /// into the block if that is here, else the way to its owner is told.
    pub fn relay_write(
        &mut self,
        handle: &MemoryBlockHandle,
        transfer_id: Uuid,
        offset: u64,
        payload: &[u8],
        checksum: &str,
        now_ms: u64,
    ) -> (r: Result<Relay, Error>)
        requires
            old(self).wf(),
            handle.owner_node == old(self).node_id ==> {
                &&& !old(self).ram.held(handle.id)
                &&& checksum@ == chunk_sum(payload@) && old(self).ram@.contains_key(handle.id) && store_check(
                    old(self).ram@[handle.id],
                    handle@,
                    offset,
                    now_ms,
                ) is Ok ==> offset + payload@.len() <= old(self).ram@[handle.id].bytes.len()
            },
        ensures
            final(self).wf(),
            relayed(*old(self), *final(self), *handle, transfer_id, offset, payload@, checksum@, now_ms, r),
    {
        let ghost first = *self;
        let found: String = chunk_checksum(payload);
        if !same_text(found.as_str(), checksum) {
            return Err(Error::ChecksumMismatch);
        }
        if handle.owner_node != self.node_id {
            return self.way_to(handle.owner_node);
        }
        match self.ram.store(handle, transfer_id, offset, payload, now_ms) {
            Ok(_) => {},
            Err(e) => {
                return Err(e);
            },
        }
        proof {
            first.lemma_ram_changed(*self);
        }
        Ok(Relay::Here)
    }

    /// The bytes of a chunk, if the block is here, or the way to its owner.
    pub fn relay_read(&self, handle: &MemoryBlockHandle, offset: u64, length: usize, now_ms: u64) -> (r: Result<
        (Relay, Vec<u8>),
        Error,
    >)
        requires
            self.wf(),
            handle.owner_node == self.node_id ==> !self.ram.held(handle.id),
        ensures
            match r {
                Ok((way, payload)) => if handle.owner_node == self.node_id {
                    &&& way == Relay::Here
                    &&& self.ram@.contains_key(handle.id)
                    &&& read_check(self.ram@[handle.id], handle@, offset, length as nat, now_ms) is Ok
                    &&& payload@ == self.ram@[handle.id].bytes.subrange(offset as int, offset + length)
                } else {
                    relay_to(*self, handle.owner_node) == Some(way) && payload@.len() == 0
                },
                Err(e) => if handle.owner_node != self.node_id {
                    relay_to(*self, handle.owner_node) is None && e == Error::PeerUnavailable
                } else if !self.ram@.contains_key(handle.id) {
                    e == (Error::BlockAbsent { id: handle.id })
                } else {
                    read_check(self.ram@[handle.id], handle@, offset, length as nat, now_ms) == Err::<(), Error>(e)
                },
            },
    {
        if handle.owner_node != self.node_id {
            let way: Relay = self.way_to(handle.owner_node)?;
            return Ok((way, Vec::new()));
        }
        let payload: Vec<u8> = self.ram.read(handle, offset, length, now_ms)?;
        Ok((Relay::Here, payload))
    }
}

/// What was written is read: once all chunks of a block have arrived in order
/// and it is committed under their digest, a read of any range gives those
/// bytes.
pub proof fn law_read_gives_what_was_written(b: BlockView, transfer_id: Uuid, payload: Seq<u8>, offset: int, length: int)
    requires
        b.written + payload.len() <= b.bytes.len(),
        b.written <= offset,
        0 <= length,
        offset + length <= b.written + payload.len(),
    ensures
        b.extended(transfer_id, payload).bytes.len() == b.bytes.len(),
        b.extended(transfer_id, payload).bytes.subrange(offset, offset + length) == payload.subrange(
            offset - b.written,
            offset - b.written + length,
        ),
        b.extended(transfer_id, payload).bytes.take(b.written as int) == b.bytes.take(b.written as int),
{
    let after = b.extended(transfer_id, payload);
    assert(after.bytes.subrange(offset, offset + length) =~= payload.subrange(
        offset - b.written,
        offset - b.written + length,
    ));
    assert(after.bytes.take(b.written as int) =~= b.bytes.take(b.written as int));
}

/// Committed bytes are never written again: no chunk is let into a block that
/// is committed.
pub proof fn law_committed_bytes_are_fixed(
    b: BlockView,
    h: HandleView,
    transfer_id: Uuid,
    offset: u64,
    total_size: u64,
    now_ms: u64,
)
    requires
        b.handle.state != BlockState::Writing,
    ensures
        chunk_check(b, h, transfer_id, offset, total_size, now_ms) is Err,
        store_check(b, h, offset, now_ms) is Err,
{
}

/// Bytes that are still being written are never read.
pub proof fn law_partial_uploads_are_unreadable(
    b: BlockView,
    h: HandleView,
    offset: u64,
    length: nat,
    now_ms: u64,
)
    requires
        b.handle.state == BlockState::Writing,
    ensures
        read_check(b, h, offset, length, now_ms) is Err,
{
}

} // verus!
