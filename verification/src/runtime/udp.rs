//! What the receiver does with each packet.
use crate::address::SocketAddress;
use crate::bytes::{be, be_value, lemma_widths, push_be, read_be, same_bytes, slice_of};
use crate::config::{Config, ConfigView};
use crate::digest::{blake3_digest, blake3_hash};
use crate::error::Error;
use crate::ids::Uuid;
use crate::memory::allocator::{risen, LedgerEntry, Reservation};
use crate::memory::block::{BlockState, MemoryBlockHandle};
use crate::memory::local_ram::{lease_check, BlockView, LocalRam, RamBlock};
use crate::metrics::{job_of, less_one, plus, sum, with_stats, JobMetrics, Metrics};
use crate::runtime::datagram::one_more;
use crate::runtime::session::{
    answer, completed_data_ack, freed, is_full_ack, lemma_trues_bound, lemma_trues_none, lemma_trues_set, lively,
    lost_session, marks_of, missing, opened_session, packets, present, remembered, response, silenced, silent_bytes,
    silent_metrics, silent_owns, stretch, CompletedKey, IncomingSession, SessionKey, SessionView, UdpServerState,
};
use crate::table::{keyed, place};
use crate::transport::udp::{bitmap_payload, is_bitmap, Kind, Packet, PacketView, TransferStats, ACK_BITS};
use vstd::prelude::*;

verus! {

/// The parts of a node that packets change.
pub struct Scene {
    pub server: UdpServerState,
    pub ram: LocalRam,
    pub metrics: Map<Uuid, JobMetrics>,
}

impl Scene {
    /// Every part is whole, and the sessions are paid for.
    pub open spec fn wf(self) -> bool {
        &&& self.server.wf()
        &&& self.ram.wf()
        &&& self.server.backed(self.ram.accounting)
    }

    /// The sessions apart, the receiver is the same.
    pub open spec fn same_rest(self, other: Scene) -> bool {
        &&& self.server.finishing == other.server.finishing
        &&& self.server.completed == other.server.completed
        &&& self.server.active_reads == other.server.active_reads
    }
}

/// The key of a packet's session.
pub open spec fn key_of(p: PacketView, source: SocketAddress) -> SessionKey {
    SessionKey { source, transfer: p.transfer_id, block: p.block_id }
}

/// What stands in the way of serving a read.
pub open spec fn read_request_check(
    store: Map<Uuid, BlockView>,
    p: PacketView,
    config: ConfigView,
    active: nat,
    now_ms: u64,
) -> Result<(), Error> {
    let b = store[p.block_id];
    if p.sequence_id == 0 || p.sequence_id > config.chunk_bytes {
        Err(Error::UdpReadLength)
    } else if !store.contains_key(p.block_id) {
        Err(Error::BlockAbsent { id: p.block_id })
    } else if lease_check(b.handle, p.lease_token, now_ms) is Err {
        lease_check(b.handle, p.lease_token, now_ms)
    } else if b.handle.job_id != p.object_id || b.handle.generation != p.generation || b.handle.state
        != BlockState::Ready {
        Err(Error::UdpReadStale)
    } else if p.offset > usize::MAX {
        Err(Error::Range)
    } else if p.offset + p.sequence_id > usize::MAX {
        Err(Error::UdpRangeOverflow)
    } else if p.offset + p.sequence_id > b.bytes.len() {
        Err(Error::UdpReadRange)
    } else if active >= config.udp_max_sessions {
        Err(Error::UdpReadLimit)
    } else {
        Ok(())
    }
}

/// A chunk to be sent to a reader.
pub struct ReadJob {
    pub handle: MemoryBlockHandle,
    pub transfer_id: Uuid,
    pub offset: u64,
    pub payload: Vec<u8>,
}

/// What a read request leads to.
pub open spec fn read_requested(
    a: Scene,
    z: Scene,
    config: ConfigView,
    p: PacketView,
    now_ms: u64,
    r: Result<ReadJob, Error>,
) -> bool {
    let check = read_request_check(a.ram@, p, config, a.server.active_reads as nat, now_ms);
    match r {
        Ok(job) => {
            &&& check is Ok
            &&& job.handle@ == a.ram@[p.block_id].handle
            &&& job.transfer_id == p.transfer_id
            &&& job.offset == p.offset
            &&& job.payload@ == a.ram@[p.block_id].bytes.subrange(p.offset as int, p.offset + p.sequence_id)
            &&& z.ram == a.ram
            &&& z.metrics == opened_session(a.metrics, p.object_id)
            &&& z.server == (UdpServerState { active_reads: (a.server.active_reads + 1) as usize, ..a.server })
        },
        Err(e) => check == Err::<(), Error>(e) && z == a,
    }
}

/// What stands in the way of opening a session.
pub open spec fn start_check(store: Map<Uuid, BlockView>, p: PacketView, config: ConfigView, now_ms: u64) -> Result<
    (),
    Error,
> {
    let b = store[p.block_id];
    let length = be_value(p.payload.subrange(0, 8));
    if p.payload.len() != 40 {
        Err(Error::UdpStart)
    } else if length == 0 || length > config.chunk_bytes {
        Err(Error::UdpSessionLength)
    } else if p.sequence_id != packets(length, config.udp_payload_bytes as nat) {
        Err(Error::UdpPacketCount)
    } else if p.offset + length > p.total_size {
        Err(Error::UdpSessionRange)
    } else if !store.contains_key(p.block_id) {
        Err(Error::BlockAbsent { id: p.block_id })
    } else if lease_check(b.handle, p.lease_token, now_ms) is Err {
        lease_check(b.handle, p.lease_token, now_ms)
    } else if b.handle.job_id != p.object_id || b.handle.generation != p.generation || b.handle.size != p.total_size
        || b.handle.state != BlockState::Writing || b.written != p.offset {
        Err(Error::UdpWriteStale)
    } else {
        Ok(())
    }
}

/// The session that a start packet opens.
pub open spec fn opened(p: PacketView, config: ConfigView, ticket: nat, now_ns: u64) -> SessionView {
    let length = be_value(p.payload.subrange(0, 8));
    SessionView {
        object: p.object_id,
        lease: p.lease_token,
        generation: p.generation,
        base_offset: p.offset,
        block_size: p.total_size,
        payload_size: config.udp_payload_bytes as nat,
        packet_count: p.sequence_id as nat,
        checksum: p.payload.subrange(8, 40),
        buffer: Seq::new(length, |i: int| 0u8),
        received: Seq::new(p.sequence_id as nat, |i: int| false),
        received_count: 0,
        last_sequence: None,
        last_activity: now_ns,
        entry: LedgerEntry { ticket, bytes: length as u64, job: None },
    }
}

/// The acknowledgement of a start packet names the window.
pub open spec fn start_ack(p: PacketView, config: ConfigView) -> PacketView {
    answer(
        p,
        Kind::StartAck,
        be(
            if config.udp_window_packets <= ACK_BITS {
                config.udp_window_packets as nat
            } else {
                ACK_BITS as nat
            },
            2,
        ),
    )
}

/// What a start packet leads to. A session that is already open stays as it is.
pub open spec fn started(
    a: Scene,
    z: Scene,
    config: ConfigView,
    p: PacketView,
    source: SocketAddress,
    now_ms: u64,
    now_ns: u64,
    r: Result<Packet, Error>,
) -> bool {
    let check = start_check(a.ram@, p, config, now_ms);
    let key = key_of(p, source);
    let length = be_value(p.payload.subrange(0, 8));
    let all = a.server.sessions();
    let live = lively(all, config, now_ns);
    let lost = silent_metrics(a.metrics, all, config, now_ns);
    let owned = a.ram.accounting.owned - silent_bytes(all, config, now_ns);
    let session = opened(p, config, a.ram.accounting.next_ticket(), now_ns);
    if check is Err {
        r == Err::<Packet, Error>(check->Err_0) && z == a
    } else if keyed(live, key) {
        &&& r matches Ok(k) && k@ == start_ack(p, config)
        &&& z.same_rest(a)
        &&& z.server.sessions() == live
        &&& z.metrics == lost
        &&& silenced(a.ram, z.ram, all, config, now_ns)
    } else if live.len() >= config.udp_max_sessions || owned + length > a.ram.accounting.budget {
        &&& r == Err::<Packet, Error>(
            if live.len() >= config.udp_max_sessions {
                Error::UdpSessionLimit
            } else {
                Error::OutOfCapacity { bytes: length as u64 }
            },
        )
        &&& z.same_rest(a)
        &&& z.server.sessions() == live
        &&& z.metrics == lost
        &&& silenced(a.ram, z.ram, all, config, now_ns)
    } else {
        &&& r matches Ok(k) && k@ == start_ack(p, config)
        &&& z.same_rest(a)
        &&& z.server.sessions() == live.push((key, session))
        &&& z.metrics == opened_session(lost, p.object_id)
        &&& z.ram.same_blocks(&a.ram)
        &&& z.ram@ == a.ram@
        &&& a.ram.intact() ==> z.ram.intact()
        &&& z.ram.accounting.budget == a.ram.accounting.budget
        &&& z.ram.accounting.owned == owned + length
        &&& z.ram.accounting.peak == risen(a.ram.accounting.peak, owned + length)
        &&& z.ram.accounting.jobs == a.ram.accounting.jobs
        &&& z.ram.accounting.next_ticket() == a.ram.accounting.next_ticket() + 1
        &&& forall|x: LedgerEntry|
            z.ram.accounting.holds(x) == (a.ram.accounting.holds(x) && !silent_owns(all, config, now_ns, x) || x
                == session.entry)
    }
}

/// `n` zero bytes.
fn zeros(n: usize) -> (v: Vec<u8>)
    ensures
        v@ == Seq::new(n as nat, |i: int| 0u8),
{
    let mut v: Vec<u8> = Vec::new();
    v.resize(n, 0);
    assert(v@ =~= Seq::new(n as nat, |i: int| 0u8));
    v
}

/// `n` marks that are not set.
fn unmarked(n: usize) -> (v: Vec<bool>)
    ensures
        v@ == Seq::new(n as nat, |i: int| false),
{
    let mut v: Vec<bool> = Vec::new();
    v.resize(n, false);
    assert(v@ =~= Seq::new(n as nat, |i: int| false));
    v
}

impl UdpServerState {
    /// Takes a read request: the chunk is copied and the session counted, or
    /// nothing happens.
    pub fn on_read_request(
        &mut self,
        ram: &LocalRam,
        metrics: &mut Metrics,
        config: &Config,
        packet: &Packet,
        now_ms: u64,
    ) -> (r: Result<ReadJob, Error>)
        requires
            old(self).wf(),
            ram.wf(),
            old(metrics).wf(),
            config@.valid(),
            !ram.held(packet.block_id),
        ensures
            final(self).wf(),
            final(metrics).wf(),
            read_requested(
                (Scene { server: *old(self), ram: *ram, metrics: old(metrics)@ }),
                (Scene { server: *final(self), ram: *ram, metrics: final(metrics)@ }),
                config@,
                packet@,
                now_ms,
                r,
            ),
    {
        let length: usize = packet.sequence_id as usize;
        if length == 0 || length > config.chunk_bytes {
            return Err(Error::UdpReadLength);
        }
        let b: &RamBlock = ram.get(packet.block_id)?;
        b.authorize(packet.lease_token, now_ms)?;
        if b.handle.job_id != packet.object_id || b.handle.generation != packet.generation || b.handle.state
            != BlockState::Ready {
            return Err(Error::UdpReadStale);
        }
        if packet.offset > usize::MAX as u64 {
            return Err(Error::Range);
        }
        let begin: usize = packet.offset as usize;
        let end: usize = match begin.checked_add(length) {
            Some(end) => end,
            None => {
                return Err(Error::UdpRangeOverflow);
            },
        };
        if end > b.bytes.len() {
            return Err(Error::UdpReadRange);
        }
        if self.active_reads >= config.udp_max_sessions {
            return Err(Error::UdpReadLimit);
        }
        let ghost before = *self;
        self.active_reads = self.active_reads + 1;
        proof {
            assert(self.sessions() == before.sessions());
        }
        let payload: Vec<u8> = slice_of(b.bytes.as_slice(), begin, end);
        let m: &mut JobMetrics = metrics.job(packet.object_id);
        m.transfer_sessions = sum(m.transfer_sessions, 1);
        m.active_transfer_sessions = sum(m.active_transfer_sessions, 1);
        Ok(
            ReadJob {
                handle: b.handle.duplicate(),
                transfer_id: packet.transfer_id,
                offset: packet.offset,
                payload,
            },
        )
    }

    /// Takes a start packet.
    pub fn on_start(
        &mut self,
        ram: &mut LocalRam,
        metrics: &mut Metrics,
        config: &Config,
        packet: &Packet,
        source: SocketAddress,
        now_ms: u64,
        now_ns: u64,
    ) -> (r: Result<Packet, Error>)
        requires
            old(self).wf(),
            old(ram).wf(),
            old(metrics).wf(),
            old(self).backed(old(ram).accounting),
            config@.valid(),
            !old(ram).held(packet.block_id),
        ensures
            final(self).wf(),
            final(ram).wf(),
            final(metrics).wf(),
            final(self).backed(final(ram).accounting),
            started(
                (Scene { server: *old(self), ram: *old(ram), metrics: old(metrics)@ }),
                (Scene { server: *final(self), ram: *final(ram), metrics: final(metrics)@ }),
                config@,
                packet@,
                source,
                now_ms,
                now_ns,
                r,
            ),
    {
        let ghost p = packet@;
        let ghost c = config@;
        if packet.payload.len() != 40 {
            return Err(Error::UdpStart);
        }
        proof {
            lemma_widths();
        }
        let named: u64 = read_be(packet.payload.as_slice(), 0, 8) as u64;
        if named == 0 || named > config.chunk_bytes as u64 {
            return Err(Error::UdpSessionLength);
        }
        let length: usize = named as usize;
        let packet_count: usize = packet.sequence_id as usize;
        if packet_count != (length + (config.udp_payload_bytes - 1)) / config.udp_payload_bytes {
            return Err(Error::UdpPacketCount);
        }
        if named > packet.total_size || packet.offset > packet.total_size - named {
            return Err(Error::UdpSessionRange);
        }
        let b: &RamBlock = ram.get(packet.block_id)?;
        b.authorize(packet.lease_token, now_ms)?;
        if b.handle.job_id != packet.object_id || b.handle.generation != packet.generation || b.handle.size
            != packet.total_size || b.handle.state != BlockState::Writing || b.written as u64 != packet.offset {
            return Err(Error::UdpWriteStale);
        }
        let ghost all = self.sessions();
        let ghost ram0 = *ram;
        self.give_up(ram, metrics, config, now_ns);
        let key = SessionKey { source, transfer: packet.transfer_id, block: packet.block_id };
        let ghost live = self.sessions();
        proof {
            assert(keyed(live, key) == keyed(self.incoming@, key)) by {
                if keyed(live, key) {
                    let i = place(live, key);
                    assert(self.incoming@[i].0 == key);
                }
                if keyed(self.incoming@, key) {
                    let i = place(self.incoming@, key);
                    assert(live[i].0 == key);
                }
            }
        }
        if !self.incoming.contains(key) {
            if self.incoming.len() >= config.udp_max_sessions {
                return Err(Error::UdpSessionLimit);
            }
            let ghost ram1 = *ram;
            let held: Reservation = match ram.reserve(named) {
                Ok(held) => held,
                Err(e) => {
                    return Err(e);
                },
            };
            let mut checksum: [u8; 32] = [0; 32];
            let mut i: usize = 0;
            while i < 32
                invariant
                    packet.payload@.len() == 40,
                    i <= 32,
                    forall|k: int| 0 <= k < i ==> #[trigger] checksum@[k] == packet.payload@[8 + k],
                decreases 32 - i,
            {
                checksum[i] = packet.payload[8 + i];
                i = i + 1;
            }
            let session = IncomingSession {
                object: packet.object_id,
                lease: packet.lease_token,
                generation: packet.generation,
                base_offset: packet.offset,
                block_size: packet.total_size,
                payload_size: config.udp_payload_bytes,
                packet_count,
                checksum,
                buffer: zeros(length),
                received: unmarked(packet_count),
                received_count: 0,
                last_sequence: None,
                last_activity: now_ns,
                reservation: held,
            };
            proof {
                assert(session@.checksum =~= p.payload.subrange(8, 40));
                assert(session@ == opened(p, c, ram0.accounting.next_ticket(), now_ns));
                lemma_trues_none(session@.received);
                assert(session@.wf());
            }
            let ghost mine = session@;
            self.incoming.push(key, session);
            proof {
                let s = self.sessions();
                assert(s =~= live.push((key, mine)));
                assert forall|i: int| 0 <= i < s.len() implies (#[trigger] s[i]).1.wf() && ram.accounting.holds(
                    s[i].1.entry,
                ) && (i < live.len() ==> s[i].1.entry != mine.entry) by {
                    if i < live.len() {
                        assert(s[i] == live[i]);
                        assert(ram1.accounting.holds(live[i].1.entry));
                    }
                }
                assert forall|i: int, j: int| 0 <= i < j < s.len() implies (#[trigger] s[i]).1.entry != (
                #[trigger] s[j]).1.entry by {
                    assert(s[i] == live[i]);
                    if j < live.len() {
                        assert(s[j] == live[j]);
                    }
                }
            }
            let m: &mut JobMetrics = metrics.job(packet.object_id);
            m.transfer_sessions = sum(m.transfer_sessions, 1);
            m.active_transfer_sessions = sum(m.active_transfer_sessions, 1);
        }
        let window: usize = if config.udp_window_packets <= ACK_BITS {
            config.udp_window_packets
        } else {
            ACK_BITS
        };
        let mut payload: Vec<u8> = Vec::new();
        push_be(&mut payload, window as u128, 2);
        assert(payload@ =~= be(window as nat, 2));
        Ok(response(packet, Kind::StartAck, payload))
    }
}

/// Whether the chunk of a data packet has already been completed.
pub open spec fn done(server: UdpServerState, p: PacketView, source: SocketAddress, config: ConfigView) -> bool {
    let back = p.sequence_id * config.udp_payload_bytes;
    p.offset >= back && keyed(
        server.completed@,
        CompletedKey { session: key_of(p, source), offset: (p.offset - back) as u64 },
    )
}

/// Whether a data packet that was taken calls for an acknowledgement: it came
/// twice or out of order, or it ends a group of eight or the chunk.
pub open spec fn ack_due(before: SessionView, after: SessionView, sequence: int) -> bool {
    ||| before.received[sequence]
    ||| late(before, sequence)
    ||| after.received_count % 8 == 0
    ||| after.received_count == after.packet_count
}

/// Whether a packet that had not come before comes behind a later one.
pub open spec fn late(s: SessionView, sequence: int) -> bool {
    !s.received[sequence] && s.last_sequence is Some && sequence < s.last_sequence->0
}

/// The counters of a job that took a data packet.
pub open spec fn took_data(m: Map<Uuid, JobMetrics>, p: PacketView, s: SessionView) -> Map<Uuid, JobMetrics> {
    let j = job_of(m, p.object_id);
    let again = s.received[p.sequence_id as int];
    m.insert(
        p.object_id,
        JobMetrics {
            udp_payload_bytes: plus(
                j.udp_payload_bytes,
                if again {
                    0
                } else {
                    p.payload.len() as u64
                },
            ),
            duplicate_datagrams: plus(
                j.duplicate_datagrams,
                if again {
                    1
                } else {
                    0
                },
            ),
            out_of_order_datagrams: plus(
                j.out_of_order_datagrams,
                if late(s, p.sequence_id as int) {
                    1
                } else {
                    0
                },
            ),
            ..j
        },
    )
}

/// What a data packet leads to. Late packets of a session that is over are
/// acknowledged in full; others go into their place, once.
pub open spec fn data_taken(
    a: Scene,
    z: Scene,
    config: ConfigView,
    p: PacketView,
    source: SocketAddress,
    now_ns: u64,
    r: Result<Option<Packet>, Error>,
) -> bool {
    let key = key_of(p, source);
    let all = a.server.sessions();
    let at = place(all, key);
    let s = all[at].1;
    if done(a.server, p, source, config) || !keyed(all, key) && a.server.finishing@.contains(key) {
        &&& r matches Ok(Some(k)) && is_full_ack(k@, p, config.udp_window_packets as nat)
        &&& z == a
    } else if !keyed(all, key) {
        r == Err::<Option<Packet>, Error>(Error::UdpTransferStale) && z == a
    } else if !s.expects(p) {
        r == Err::<Option<Packet>, Error>(Error::UdpSessionChanged) && z == a
    } else {
        let sequence = p.sequence_id as int;
        let t = s.touched(now_ns);
        let u = t.placed(sequence, p.payload);
        &&& z.same_rest(a)
        &&& z.ram == a.ram
        &&& match s.data_fault(p) {
            Some(e) => {
                &&& r == Err::<Option<Packet>, Error>(e)
                &&& z.server.sessions() == all.update(at, (key, t))
                &&& z.metrics == a.metrics
            },
            None => {
                &&& z.server.sessions() == all.update(at, (key, u))
                &&& z.metrics == took_data(a.metrics, p, s)
                &&& match r {
                    Ok(Some(k)) => {
                        &&& ack_due(s, u, sequence)
                        &&& k@ == answer(p, Kind::Ack, k@.payload)
                        &&& is_bitmap(
                            k@.payload,
                            stretch(sequence) as u32,
                            present(u.received, stretch(sequence)),
                            config.udp_window_packets as nat,
                        )
                    },
                    Ok(None) => !ack_due(s, u, sequence),
                    Err(_) => false,
                }
            },
        }
    }
}

/// Sequence numbers within the count begin within the buffer.
proof fn lemma_begin(s: SessionView, sequence: int)
    requires
        s.wf(),
        0 <= sequence < s.packet_count,
    ensures
        0 <= s.begin(sequence) < s.buffer.len(),
{
    let n = s.buffer.len() as int;
    let size = s.payload_size as int;
    let count = s.packet_count as int;
    assert(count == (n + size - 1) / size);
    assert(count * size <= n + size - 1) by (nonlinear_arith)
        requires
            count == (n + size - 1) / size,
            size > 0,
            n > 0,
    ;
    assert(sequence * size <= (count - 1) * size) by (nonlinear_arith)
        requires
            sequence <= count - 1,
            size > 0,
    ;
    assert((count - 1) * size == count * size - size) by (nonlinear_arith);
    assert(sequence * size >= 0) by (nonlinear_arith)
        requires
            sequence >= 0,
            size > 0,
    ;
}

/// A packet in its place leaves a session whole.
proof fn lemma_placed(s: SessionView, sequence: int, payload: Seq<u8>)
    requires
        s.wf(),
        0 <= sequence < s.packet_count,
        s.begin(sequence) + payload.len() <= s.buffer.len(),
    ensures
        s.placed(sequence, payload).wf(),
{
    lemma_begin(s, sequence);
    if !s.received[sequence] {
        lemma_trues_set(s.received, sequence);
    }
}

impl IncomingSession {
    /// Puts a packet in its place, unless it has come before.
    fn put(&mut self, sequence: usize, payload: &[u8])
        requires
            old(self)@.wf(),
            sequence < old(self).packet_count,
            old(self)@.begin(sequence as int) + payload@.len() <= old(self)@.buffer.len(),
        ensures
            final(self)@ == old(self)@.placed(sequence as int, payload@),
            final(self)@.wf(),
    {
        let ghost before = *self;
        let ghost s = self@;
        proof {
            lemma_begin(s, sequence as int);
            lemma_placed(s, sequence as int, payload@);
        }
        if self.received[sequence] {
            return;
        }
        let total: usize = self.buffer.len();
        let begin: usize = sequence * self.payload_size;
        let length: usize = payload.len();
        let mut i: usize = 0;
        while i < length
            invariant
                i <= length == payload@.len(),
                begin + length <= total == before.buffer@.len(),
                self.buffer@.len() == total,
                forall|k: int|
                    0 <= k < total ==> #[trigger] self.buffer@[k] == if begin <= k < begin + i {
                        payload@[k - begin]
                    } else {
                        before.buffer@[k]
                    },
                self.object == before.object,
                self.lease == before.lease,
                self.generation == before.generation,
                self.base_offset == before.base_offset,
                self.block_size == before.block_size,
                self.payload_size == before.payload_size,
                self.packet_count == before.packet_count,
                self.checksum == before.checksum,
                self.received == before.received,
                self.received_count == before.received_count,
                self.last_sequence == before.last_sequence,
                self.last_activity == before.last_activity,
                self.reservation == before.reservation,
            decreases length - i,
        {
            self.buffer.set(begin + i, payload[i]);
            i = i + 1;
        }
        proof {
            lemma_trues_bound(before.received@);
            lemma_trues_set(before.received@, sequence as int);
            lemma_trues_bound(before.received@.update(sequence as int, true));
        }
        self.received.set(sequence, true);
        self.received_count = self.received_count + 1;
        self.last_sequence = Some(sequence);
        proof {
            assert(self.buffer@ =~= s.placed(sequence as int, payload@).buffer);
        }
    }
}

/// Keys are the same in a table and in its model.
pub proof fn lemma_keys_alike(server: UdpServerState, key: SessionKey)
    requires
        server.wf(),
    ensures
        keyed(server.sessions(), key) == keyed(server.incoming@, key),
        keyed(server.incoming@, key) ==> {
            let at = place(server.incoming@, key);
            &&& 0 <= at < server.incoming@.len()
            &&& place(server.sessions(), key) == at
            &&& server.sessions()[at] == (key, server.incoming@[at].1@)
        },
{
    let s = server.sessions();
    if keyed(s, key) {
        let i = place(s, key);
        assert(server.incoming@[i].0 == key);
    }
    if keyed(server.incoming@, key) {
        let i = place(server.incoming@, key);
        assert(server.incoming@[i].0 == key);
        assert(s[i].0 == key);
        let j = place(s, key);
        assert(s[j].0 == key);
        assert(server.incoming@[j].0 == key);
        if i < j {
            assert(server.incoming@[i].0 != server.incoming@[j].0);
        }
        if j < i {
            assert(server.incoming@[j].0 != server.incoming@[i].0);
        }
    }
}

fn listed_key(keys: &Vec<SessionKey>, key: SessionKey) -> (r: Option<usize>)
    ensures
        match r {
            Some(i) => i < keys@.len() && keys@[i as int] == key && keys@.contains(key),
            None => !keys@.contains(key),
        },
{
    let mut i: usize = 0;
    while i < keys.len()
        invariant
            i <= keys@.len(),
            forall|j: int| 0 <= j < i ==> #[trigger] keys@[j] != key,
        decreases keys@.len() - i,
    {
        if keys[i] == key {
            return Some(i);
        }
        i = i + 1;
    }
    None
}

impl UdpServerState {
    /// Replaces the session at place `at` by one of the same reservation.
    proof fn lemma_replaced(self, after: Self, ram: LocalRam, at: int)
        requires
            self.wf(),
            self.backed(ram.accounting),
            0 <= at < self.incoming@.len(),
            after.incoming.wf(),
            after.completed == self.completed,
            after.finishing == self.finishing,
            after.incoming@ == self.incoming@.update(at, (self.incoming@[at].0, after.incoming@[at].1)),
            after.incoming@[at].1@.wf(),
            after.incoming@[at].1@.entry == self.incoming@[at].1@.entry,
        ensures
            after.wf(),
            after.backed(ram.accounting),
            after.sessions() == self.sessions().update(at, (self.incoming@[at].0, after.incoming@[at].1@)),
    {
        let s = self.sessions();
        let t = after.sessions();
        assert(t =~= s.update(at, (self.incoming@[at].0, after.incoming@[at].1@)));
        assert forall|i: int| 0 <= i < t.len() implies (#[trigger] t[i]).1.wf() && ram.accounting.holds(t[i].1.entry)
            && t[i].1.entry == s[i].1.entry by {
            assert(s[i].1.wf());
            assert(ram.accounting.holds(s[i].1.entry));
            assert(s[at].1 == self.incoming@[at].1@);
        }
        assert forall|i: int, j: int| 0 <= i < j < t.len() implies (#[trigger] t[i]).1.entry != (
        #[trigger] t[j]).1.entry by {
            assert(s[i].1.entry != s[j].1.entry);
        }
    }

    /// Takes a data packet.
    pub fn on_data(
        &mut self,
        ram: &LocalRam,
        metrics: &mut Metrics,
        config: &Config,
        packet: &Packet,
        source: SocketAddress,
        now_ns: u64,
    ) -> (r: Result<Option<Packet>, Error>)
        requires
            old(self).wf(),
            ram.wf(),
            old(metrics).wf(),
            old(self).backed(ram.accounting),
            config@.valid(),
        ensures
            final(self).wf(),
            final(metrics).wf(),
            final(self).backed(ram.accounting),
            data_taken(
                (Scene { server: *old(self), ram: *ram, metrics: old(metrics)@ }),
                (Scene { server: *final(self), ram: *ram, metrics: final(metrics)@ }),
                config@,
                packet@,
                source,
                now_ns,
                r,
            ),
    {
        let ghost before = *self;
        let ghost p = packet@;
        let key = SessionKey { source, transfer: packet.transfer_id, block: packet.block_id };
        proof {
            assert(packet.sequence_id * config.udp_payload_bytes <= 0xffff_ffff * 1200) by (nonlinear_arith)
                requires
                    packet.sequence_id <= 0xffff_ffff,
                    config.udp_payload_bytes <= 1200,
            ;
        }
        let back: u64 = packet.sequence_id as u64 * config.udp_payload_bytes as u64;
        if packet.offset >= back && self.completed.contains(
            CompletedKey { session: key, offset: packet.offset - back },
        ) {
            return Ok(Some(completed_data_ack(packet, config.udp_window_packets)));
        }
        proof {
            lemma_keys_alike(*self, key);
        }
        let at: usize = match self.incoming.find(key) {
            Some(at) => at,
            None => {
                return match listed_key(&self.finishing, key) {
                    Some(_) => Ok(Some(completed_data_ack(packet, config.udp_window_packets))),
                    None => Err(Error::UdpTransferStale),
                };
            },
        };
        let ghost s = self.incoming@[at as int].1@;
        proof {
            assert(self.sessions()[at as int].1 == s);
            assert(s.wf());
        }
        let seen: &IncomingSession = self.incoming.value_at(at);
        if packet.object_id != seen.object || packet.lease_token != seen.lease || packet.generation != seen.generation
            || packet.total_size != seen.block_size {
            return Err(Error::UdpSessionChanged);
        }
        let sequence: usize = packet.sequence_id as usize;
        let base: usize = (sequence / ACK_BITS) * ACK_BITS;
        let mut fault: Option<Error> = None;
        let mut duplicate: bool = false;
        let mut out_of_order: bool = false;
        let mut ack: Option<Vec<u8>> = None;
        let session: &mut IncomingSession = self.incoming.value_mut(at);
        session.last_activity = now_ns;
        let ghost t = s.touched(now_ns);
        if sequence >= session.packet_count {
            fault = Some(Error::UdpSequence);
        } else {
            proof {
                lemma_begin(s, sequence as int);
            }
            let total: usize = session.buffer.len();
            let begin: usize = sequence * session.payload_size;
            if packet.offset != session.base_offset + begin as u64 {
                fault = Some(Error::UdpOffset);
            } else if packet.payload.len() > total - begin {
                fault = Some(Error::UdpPayload);
            } else {
                duplicate = session.received[sequence];
                out_of_order =
                !duplicate && match session.last_sequence {
                    Some(last) => sequence < last,
                    None => false,
                };
                session.put(sequence, packet.payload.as_slice());
                if duplicate || out_of_order || session.received_count % 8 == 0 || session.received_count
                    == session.packet_count {
                    let bits: Vec<bool> = marks_of(&session.received, base, true);
                    ack = Some(bitmap_payload(base as u32, bits.as_slice(), config.udp_window_packets));
                }
            }
        }
        proof {
            before.lemma_replaced(*self, *ram, at as int);
        }
        match fault {
            Some(e) => {
                return Err(e);
            },
            None => {},
        }
        let m: &mut JobMetrics = metrics.job(packet.object_id);
        m.udp_payload_bytes =
        sum(
            m.udp_payload_bytes,
            if duplicate {
                0
            } else {
                packet.payload.len() as u64
            },
        );
        m.duplicate_datagrams =
        sum(
            m.duplicate_datagrams,
            if duplicate {
                1
            } else {
                0
            },
        );
        m.out_of_order_datagrams =
        sum(
            m.out_of_order_datagrams,
            if out_of_order {
                1
            } else {
                0
            },
        );
        match ack {
            Some(payload) => Ok(Some(response(packet, Kind::Ack, payload))),
            None => Ok(None),
        }
    }
}

/// The first packet that has not come, or the count if all have.
pub open spec fn first_missing(received: Seq<bool>) -> int
    decreases received.len(),
{
    if received.len() == 0 || !received[0] {
        0
    } else {
        1 + first_missing(received.skip(1))
    }
}

fn find_missing(received: &Vec<bool>) -> (r: usize)
    ensures
        r == first_missing(received@),
        r <= received@.len(),
{
    let mut i: usize = 0;
    proof {
        assert(received@.skip(0) =~= received@);
    }
    while i < received.len() && received[i]
        invariant
            i <= received@.len(),
            first_missing(received@) == i + first_missing(received@.skip(i as int)),
        decreases received@.len() - i,
    {
        proof {
            assert(received@.skip(i as int).skip(1) =~= received@.skip(i + 1));
            assert(received@.skip(i as int)[0] == received@[i as int]);
        }
        i = i + 1;
    }
    proof {
        if i < received@.len() {
            assert(received@.skip(i as int)[0] == received@[i as int]);
        }
    }
    i
}

/// A whole chunk on its way into its block.
pub struct Finalization {
    pub key: SessionKey,
    pub session: IncomingSession,
    pub packet: Packet,
}

/// What follows a fin packet.
pub enum FinStep {
    /// The chunk had been completed before.
    Again(Packet),
    /// The chunk is on its way.
    Silent,
    /// Packets are missing.
    Missing(Packet),
    Finalize(Finalization),
}

/// What a fin packet leads to.
pub open spec fn fin_taken(
    a: Scene,
    z: Scene,
    config: ConfigView,
    p: PacketView,
    source: SocketAddress,
    r: Result<FinStep, Error>,
) -> bool {
    let key = key_of(p, source);
    let all = a.server.sessions();
    let at = place(all, key);
    let s = all[at].1;
    if keyed(a.server.completed@, CompletedKey { session: key, offset: p.offset }) {
        &&& r matches Ok(FinStep::Again(k)) && k@ == answer(p, Kind::Complete, Seq::empty())
        &&& z == a
    } else if !keyed(all, key) {
        &&& z == a
        &&& if a.server.finishing@.contains(key) {
            r matches Ok(FinStep::Silent)
        } else {
            r == Err::<FinStep, Error>(Error::UdpTransferStale)
        }
    } else if s.received_count != s.packet_count {
        let base = stretch(first_missing(s.received));
        &&& r matches Ok(FinStep::Missing(k)) && k@ == answer(p, Kind::Nack, k@.payload) && is_bitmap(
            k@.payload,
            base as u32,
            missing(s.received, base),
            config.udp_window_packets as nat,
        )
        &&& z == a
    } else if p.payload != s.checksum {
        r == Err::<FinStep, Error>(Error::UdpFinChanged) && z == a
    } else if blake3_digest(s.buffer) != s.checksum {
        r == Err::<FinStep, Error>(Error::UdpChecksum) && z == a
    } else {
        &&& r matches Ok(FinStep::Finalize(f)) && f.key == key && f.packet@ == p && f.session@ == s
        &&& z.server.sessions() == all.remove(at)
        &&& z.server.finishing@ == if a.server.finishing@.contains(key) {
            a.server.finishing@
        } else {
            a.server.finishing@.push(key)
        }
        &&& z.server.completed == a.server.completed
        &&& z.server.active_reads == a.server.active_reads
        &&& z.ram == a.ram
        &&& z.metrics == a.metrics
        &&& z.ram.accounting.holds(s.entry)
        &&& !z.server.owns(s.entry)
    }
}

impl UdpServerState {
    /// Takes a fin packet: a chunk that is whole and has the announced digest
    /// leaves its session.
    pub fn on_fin(
        &mut self,
        ram: &LocalRam,
        config: &Config,
        packet: &Packet,
        source: SocketAddress,
    ) -> (r: Result<FinStep, Error>)
        requires
            old(self).wf(),
            ram.wf(),
            old(self).backed(ram.accounting),
            config@.valid(),
        ensures
            final(self).wf(),
            final(self).backed(ram.accounting),
            forall|m: Map<Uuid, JobMetrics>| #[trigger]
                fin_taken(
                    (Scene { server: *old(self), ram: *ram, metrics: m }),
                    (Scene { server: *final(self), ram: *ram, metrics: m }),
                    config@,
                    packet@,
                    source,
                    r,
                ),
    {
        let ghost before = *self;
        let key = SessionKey { source, transfer: packet.transfer_id, block: packet.block_id };
        if self.completed.contains(CompletedKey { session: key, offset: packet.offset }) {
            let nothing: Vec<u8> = Vec::new();
            assert(nothing@ =~= Seq::<u8>::empty());
            return Ok(FinStep::Again(response(packet, Kind::Complete, nothing)));
        }
        proof {
            lemma_keys_alike(*self, key);
        }
        let at: usize = match self.incoming.find(key) {
            Some(at) => at,
            None => {
                return match listed_key(&self.finishing, key) {
                    Some(_) => Ok(FinStep::Silent),
                    None => Err(Error::UdpTransferStale),
                };
            },
        };
        let ghost all = self.sessions();
        let ghost s = self.incoming@[at as int].1@;
        proof {
            assert(all[at as int].1 == s);
            assert(s.wf());
        }
        let seen: &IncomingSession = self.incoming.value_at(at);
        if seen.received_count != seen.packet_count {
            let first: usize = find_missing(&seen.received);
            let base: usize = (first / ACK_BITS) * ACK_BITS;
            let bits: Vec<bool> = marks_of(&seen.received, base, false);
            let payload: Vec<u8> = bitmap_payload(base as u32, bits.as_slice(), config.udp_window_packets);
            return Ok(FinStep::Missing(response(packet, Kind::Nack, payload)));
        }
        if !same_bytes(packet.payload.as_slice(), &seen.checksum) {
            return Err(Error::UdpFinChanged);
        }
        let digest: [u8; 32] = blake3_hash(seen.buffer.as_slice());
        if !same_bytes(&digest, &seen.checksum) {
            return Err(Error::UdpChecksum);
        }
        match listed_key(&self.finishing, key) {
            Some(_) => {},
            None => {
                self.finishing.push(key);
            },
        }
        let (_, session) = self.incoming.remove_at(at);
        proof {
            let t = self.sessions();
            assert(t =~= all.remove(at as int));
            assert(self.finishing@.no_duplicates());
            assert forall|j: int| 0 <= j < t.len() implies #[trigger] t[j] == all[if j < at {
                j
            } else {
                j + 1
            }] by {}
            assert forall|j: int| 0 <= j < t.len() implies (#[trigger] t[j]).1.wf() && ram.accounting.holds(
                t[j].1.entry,
            ) && t[j].1.entry != s.entry by {
                let a = if j < at {
                    j
                } else {
                    j + 1
                };
                assert(all[a].1.wf());
                if a < at {
                    assert(all[a].1.entry != all[at as int].1.entry);
                } else {
                    assert(all[at as int].1.entry != all[a].1.entry);
                }
            }
            assert forall|a: int, b: int| 0 <= a < b < t.len() implies (#[trigger] t[a]).1.entry != (
            #[trigger] t[b]).1.entry by {
                let x = if a < at {
                    a
                } else {
                    a + 1
                };
                let y = if b < at {
                    b
                } else {
                    b + 1
                };
                assert(all[x].1.entry != all[y].1.entry);
            }
        }
        Ok(FinStep::Finalize(Finalization { key, session, packet: packet.duplicate() }))
    }
}

/// What stands in the way of a chunk that is whole.
pub open spec fn finish_check(store: Map<Uuid, BlockView>, p: PacketView, s: SessionView, now_ms: u64) -> Result<
    (),
    Error,
> {
    let b = store[p.block_id];
    if !store.contains_key(p.block_id) {
        Err(Error::BlockAbsent { id: p.block_id })
    } else if lease_check(b.handle, p.lease_token, now_ms) is Err {
        lease_check(b.handle, p.lease_token, now_ms)
    } else if b.handle.generation != s.generation || b.handle.state != BlockState::Writing || b.written
        != s.base_offset {
        Err(Error::UdpDestinationChanged)
    } else {
        Ok(())
    }
}

/// Whether a chunk that is whole may go into its block.
pub(crate) fn may_finish(ram: &LocalRam, packet: &Packet, session: &IncomingSession, now_ms: u64) -> (r: Result<(), Error>)
    requires
        ram.wf(),
    ensures
        r == finish_check(ram@, packet@, session@, now_ms),
{
    match ram.get(packet.block_id) {
        Err(e) => Err(e),
        Ok(b) => match b.authorize(packet.lease_token, now_ms) {
            Err(e) => Err(e),
            Ok(_) => if b.handle.generation != session.generation || b.handle.state != BlockState::Writing
                || b.written as u64 != session.base_offset {
                Err(Error::UdpDestinationChanged)
            } else {
                Ok(())
            },
        },
    }
}

/// The completed sessions with one more, in place of an older entry of its own.
pub open spec fn with_completed(s: Seq<(CompletedKey, u64)>, key: CompletedKey, now_ns: u64) -> Seq<
    (CompletedKey, u64),
> {
    if keyed(s, key) {
        s.update(place(s, key), (key, now_ns))
    } else {
        s.push((key, now_ns))
    }
}

/// Beyond `limit` entries, one of the oldest is gone.
pub open spec fn trimmed(before: Seq<(CompletedKey, u64)>, after: Seq<(CompletedKey, u64)>, limit: int) -> bool {
    if before.len() > limit {
        exists|i: int|
            {
                &&& 0 <= i < before.len()
                &&& forall|j: int| 0 <= j < before.len() ==> (#[trigger] before[i]).1 <= (#[trigger] before[j]).1
                &&& after == before.remove(i)
            }
    } else {
        after == before
    }
}

/// The end of a chunk: in its block, or given up.
pub open spec fn finished(
    a: Scene,
    z: Scene,
    config: ConfigView,
    key: SessionKey,
    p: PacketView,
    s: SessionView,
    now_ms: u64,
    now_ns: u64,
    r: Result<Packet, Error>,
) -> bool {
    let check = finish_check(a.ram@, p, s, now_ms);
    &&& z.server.sessions() == a.server.sessions()
    &&& z.server.active_reads == a.server.active_reads
    &&& z.server.finishing@ == without(a.server.finishing@, key)
    &&& a.ram.intact() ==> z.ram.intact()
    &&& z.ram.lingering() == a.ram.lingering()
    &&& z.ram.accounting.budget == a.ram.accounting.budget
    &&& z.ram.accounting.next_ticket() == a.ram.accounting.next_ticket()
    &&& z.ram.accounting.owned + s.entry.bytes == a.ram.accounting.owned
    &&& z.ram.accounting.peak == a.ram.accounting.peak
    &&& z.ram.accounting.jobs == a.ram.accounting.jobs
    &&& forall|x: LedgerEntry| z.ram.accounting.holds(x) == (a.ram.accounting.holds(x) && x != s.entry)
    &&& if check is Err {
        &&& r == Err::<Packet, Error>(check->Err_0)
        &&& z.ram@ == a.ram@
        &&& z.metrics == a.metrics
        &&& z.server.completed == a.server.completed
    } else {
        let j = job_of(a.metrics, p.object_id);
        &&& r matches Ok(k) && k@ == answer(p, Kind::Complete, Seq::empty())
        &&& z.ram@ == a.ram@.insert(p.block_id, a.ram@[p.block_id].extended(p.transfer_id, s.buffer))
        &&& z.metrics == a.metrics.insert(
            p.object_id,
            JobMetrics { active_transfer_sessions: less_one(j.active_transfer_sessions), ..j },
        )
        &&& trimmed(
            with_completed(a.server.completed@, CompletedKey { session: key, offset: p.offset }, now_ns),
            z.server.completed@,
            config.udp_max_sessions * 16,
        )
    }
}

/// The keys without one of them.
pub open spec fn without(s: Seq<SessionKey>, key: SessionKey) -> Seq<SessionKey> {
    if s.contains(key) {
        s.remove(s.index_of(key))
    } else {
        s
    }
}

impl UdpServerState {
    /// Takes a key off the list of those on their way.
    fn unlist(&mut self, key: SessionKey)
        requires
            old(self).wf(),
        ensures
            final(self).wf(),
            final(self).incoming == old(self).incoming,
            final(self).completed == old(self).completed,
            final(self).active_reads == old(self).active_reads,
            final(self).finishing@ == without(old(self).finishing@, key),
    {
        let ghost before = *self;
        match listed_key(&self.finishing, key) {
            Some(i) => {
                let _ = self.finishing.remove(i);
                proof {
                    let s = before.finishing@;
                    let k = s.index_of(key);
                    assert(s[k] == key);
                    assert(k == i);
                    assert(self.finishing@ =~= s.remove(i as int));
                    assert forall|a: int, b: int|
                        0 <= a < self.finishing@.len() && 0 <= b < self.finishing@.len() && a
                            != b implies self.finishing@[a] != self.finishing@[b] by {
                        let x = if a < i {
                            a
                        } else {
                            a + 1
                        };
                        let y = if b < i {
                            b
                        } else {
                            b + 1
                        };
                        assert(s[x] != s[y]);
                    }
                }
            },
            None => {},
        }
        proof {
            assert(self.sessions() == before.sessions());
        }
    }

    /// Remembers that a chunk was completed, and forgets one of the oldest
    /// where there are too many.
    fn remember(&mut self, key: CompletedKey, now_ns: u64, limit: usize)
        requires
            old(self).wf(),
        ensures
            final(self).wf(),
            final(self).incoming == old(self).incoming,
            final(self).finishing == old(self).finishing,
            final(self).active_reads == old(self).active_reads,
            trimmed(with_completed(old(self).completed@, key, now_ns), final(self).completed@, limit as int),
    {
        let ghost before = *self;
        match self.completed.find(key) {
            Some(at) => {
                let then: &mut u64 = self.completed.value_mut(at);
                *then = now_ns;
            },
            None => {
                self.completed.push(key, now_ns);
            },
        }
        let ghost all = with_completed(before.completed@, key, now_ns);
        proof {
            assert(self.completed@ =~= all);
            assert(self.sessions() == before.sessions());
        }
        if self.completed.len() > limit {
            let mut oldest: usize = 0;
            let mut i: usize = 1;
            while i < self.completed.len()
                invariant
                    self.completed@ == all,
                    oldest < i <= all.len(),
                    forall|j: int| 0 <= j < i ==> all[oldest as int].1 <= (#[trigger] all[j]).1,
                decreases all.len() - i,
            {
                if *self.completed.value_at(i) < *self.completed.value_at(oldest) {
                    oldest = i;
                }
                i = i + 1;
            }
            let _ = self.completed.remove_at(oldest);
            proof {
                assert(self.sessions() == before.sessions());
            }
        }
    }

    /// Puts a whole chunk into its block, if the block is still as it was.
    /// Either way the session is over and what it had reserved is free.
    pub fn finish(
        &mut self,
        ram: &mut LocalRam,
        metrics: &mut Metrics,
        config: &Config,
        chunk: Finalization,
        now_ms: u64,
        now_ns: u64,
    ) -> (r: Result<Packet, Error>)
        requires
            old(self).wf(),
            old(ram).wf(),
            old(metrics).wf(),
            old(self).backed(old(ram).accounting),
            config@.valid(),
            !old(ram).held(chunk.packet.block_id),
            chunk.session@.wf(),
            old(ram).accounting.holds(chunk.session@.entry),
            !old(self).owns(chunk.session@.entry),
            finish_check(old(ram)@, chunk.packet@, chunk.session@, now_ms) is Ok ==> chunk.session@.base_offset
                + chunk.session@.buffer.len() <= old(ram)@[chunk.packet.block_id].bytes.len(),
        ensures
            final(self).wf(),
            final(ram).wf(),
            final(metrics).wf(),
            final(self).backed(final(ram).accounting),
            finished(
                (Scene { server: *old(self), ram: *old(ram), metrics: old(metrics)@ }),
                (Scene { server: *final(self), ram: *final(ram), metrics: final(metrics)@ }),
                config@,
                chunk.key,
                chunk.packet@,
                chunk.session@,
                now_ms,
                now_ns,
                r,
            ),
    {
        let ghost before = *self;
        let ghost ram0 = *ram;
        let ghost p = chunk.packet@;
        let ghost s = chunk.session@;
        let Finalization { key, session, packet } = chunk;
        let id: Uuid = packet.block_id;
        let check: Result<(), Error> = may_finish(ram, &packet, &session, now_ms);
        self.unlist(key);
        proof {
            assert(self.sessions() == before.sessions());
        }
        match check {
            Err(e) => {
                ram.release(session.reservation);
                proof {
                    self.lemma_still_backed(ram0, *ram, s.entry);
                }
                Err(e)
            },
            Ok(_) => {
                ram.append(id, packet.transfer_id, session.buffer.as_slice());
                let ghost ram1 = *ram;
                ram.release(session.reservation);
                let limit: usize = config.udp_max_sessions * 16;
                self.remember(CompletedKey { session: key, offset: packet.offset }, now_ns, limit);
                let m: &mut JobMetrics = metrics.job(packet.object_id);
                m.active_transfer_sessions = m.active_transfer_sessions.saturating_sub(1);
                let nothing: Vec<u8> = Vec::new();
                proof {
                    assert(self.sessions() == before.sessions());
                    self.lemma_still_backed(ram0, *ram, s.entry);
                    assert(nothing@ =~= Seq::<u8>::empty());
                    assert(ram.lingering() =~= ram0.lingering());
                }
                Ok(response(&packet, Kind::Complete, nothing))
            },
        }
    }

    proof fn lemma_still_backed(self, before: LocalRam, after: LocalRam, gone: LedgerEntry)
        requires
            self.backed(before.accounting),
            !self.owns(gone),
            forall|x: LedgerEntry| after.accounting.holds(x) == (before.accounting.holds(x) && x != gone),
        ensures
            self.backed(after.accounting),
    {
        assert forall|i: int| 0 <= i < self.sessions().len() implies after.accounting.holds(
            (#[trigger] self.sessions()[i]).1.entry,
        ) by {
            assert(before.accounting.holds(self.sessions()[i].1.entry));
        }
    }
}

/// What an abort packet leads to.
pub open spec fn aborted(a: Scene, z: Scene, p: PacketView, source: SocketAddress) -> bool {
    let key = key_of(p, source);
    let all = a.server.sessions();
    let at = place(all, key);
    if keyed(all, key) {
        &&& z.same_rest(a)
        &&& z.server.sessions() == all.remove(at)
        &&& freed(a.ram, z.ram, all[at].1.entry)
        &&& z.metrics == lost_session(a.metrics, p.object_id)
    } else {
        z == a
    }
}

/// The counters of a job whose chunk was sent to a reader, or was not.
pub open spec fn served(m: Map<Uuid, JobMetrics>, job: Uuid, outcome: Option<TransferStats>) -> Map<Uuid, JobMetrics> {
    let j = job_of(m, job);
    let k = match outcome {
        Some(stats) => with_stats(j, stats),
        None => JobMetrics { failed_transfers: plus(j.failed_transfers, 1), ..j },
    };
    m.insert(job, JobMetrics { active_transfer_sessions: less_one(k.active_transfer_sessions), ..k })
}

impl UdpServerState {
    /// Takes an abort packet.
    pub fn on_abort(&mut self, ram: &mut LocalRam, metrics: &mut Metrics, packet: &Packet, source: SocketAddress)
        requires
            old(self).wf(),
            old(ram).wf(),
            old(metrics).wf(),
            old(self).backed(old(ram).accounting),
        ensures
            final(self).wf(),
            final(ram).wf(),
            final(metrics).wf(),
            final(self).backed(final(ram).accounting),
            aborted(
                (Scene { server: *old(self), ram: *old(ram), metrics: old(metrics)@ }),
                (Scene { server: *final(self), ram: *final(ram), metrics: final(metrics)@ }),
                packet@,
                source,
            ),
    {
        let key = SessionKey { source, transfer: packet.transfer_id, block: packet.block_id };
        proof {
            lemma_keys_alike(*self, key);
        }
        match self.incoming.find(key) {
            Some(at) => {
                self.drop_session(ram, at);
                let m: &mut JobMetrics = metrics.job(packet.object_id);
                m.active_transfer_sessions = m.active_transfer_sessions.saturating_sub(1);
                m.failed_transfers = sum(m.failed_transfers, 1);
            },
            None => {},
        }
    }

    /// Ends a read that was being served.
    pub fn finish_read(&mut self, metrics: &mut Metrics, job: Uuid, outcome: Option<TransferStats>)
        requires
            old(self).wf(),
            old(metrics).wf(),
        ensures
            final(self).wf(),
            final(metrics).wf(),
            final(self).incoming == old(self).incoming,
            final(self).finishing == old(self).finishing,
            final(self).completed == old(self).completed,
            final(self).active_reads == if old(self).active_reads == 0 {
                0
            } else {
                old(self).active_reads - 1
            },
            final(metrics)@ == served(old(metrics)@, job, outcome),
    {
        let ghost before = *self;
        let m: &mut JobMetrics = metrics.job(job);
        match outcome {
            Some(stats) => {
                m.apply_udp_stats(&stats);
            },
            None => {
                m.failed_transfers = sum(m.failed_transfers, 1);
            },
        }
        m.active_transfer_sessions = m.active_transfer_sessions.saturating_sub(1);
        self.active_reads = self.active_reads.saturating_sub(1);
        proof {
            assert(self.sessions() == before.sessions());
        }
    }
}

/// Which counter a reply moves besides that of datagrams.
#[derive(Clone, Copy, Debug, PartialEq, Eq, Structural)]
pub enum Counted {
    Plain,
    Ack,
    Nack,
}

/// What is to be done after a packet was taken.
pub enum UdpAction {
    Nothing,
    Reply { packet: Packet, counted: Counted },
    Serve(ReadJob),
    Finalize(Finalization),
}

/// The scene once the old completed sessions are forgotten.
pub open spec fn forgot(a: Scene, z: Scene, now_ns: u64) -> bool {
    &&& z.server.incoming == a.server.incoming
    &&& z.server.finishing == a.server.finishing
    &&& z.server.active_reads == a.server.active_reads
    &&& z.server.completed@ == remembered(a.server.completed@, now_ns)
    &&& z.ram == a.ram
    &&& z.metrics == a.metrics
}

/// What a packet leads to, by its kind.
pub open spec fn acted(
    a: Scene,
    z: Scene,
    config: ConfigView,
    p: PacketView,
    source: SocketAddress,
    now_ms: u64,
    now_ns: u64,
    r: Result<UdpAction, Error>,
) -> bool {
    match p.kind {
        Kind::ReadRequest => match r {
            Ok(UdpAction::Serve(job)) => read_requested(a, z, config, p, now_ms, Ok(job)),
            Err(e) => read_requested(a, z, config, p, now_ms, Err(e)),
            _ => false,
        },
        Kind::Start => if p.flags != 0 {
            r matches Ok(UdpAction::Nothing) && z == a
        } else {
            match r {
                Ok(UdpAction::Reply { packet, counted }) => counted == Counted::Plain && started(
                    a,
                    z,
                    config,
                    p,
                    source,
                    now_ms,
                    now_ns,
                    Ok(packet),
                ),
                Err(e) => started(a, z, config, p, source, now_ms, now_ns, Err(e)),
                _ => false,
            }
        },
        Kind::Data => match r {
            Ok(UdpAction::Reply { packet, counted }) => {
                &&& data_taken(a, z, config, p, source, now_ns, Ok(Some(packet)))
                &&& counted == if done(a.server, p, source, config) || !keyed(a.server.sessions(), key_of(p, source)) {
                    Counted::Plain
                } else {
                    Counted::Ack
                }
            },
            Ok(UdpAction::Nothing) => data_taken(a, z, config, p, source, now_ns, Ok(None)),
            Err(e) => data_taken(a, z, config, p, source, now_ns, Err(e)),
            _ => false,
        },
        Kind::Fin => match r {
            Ok(UdpAction::Reply { packet, counted }) => if counted == Counted::Nack {
                fin_taken(a, z, config, p, source, Ok(FinStep::Missing(packet)))
            } else {
                counted == Counted::Plain && fin_taken(a, z, config, p, source, Ok(FinStep::Again(packet)))
            },
            Ok(UdpAction::Nothing) => fin_taken(a, z, config, p, source, Ok(FinStep::Silent)),
            Ok(UdpAction::Finalize(f)) => fin_taken(a, z, config, p, source, Ok(FinStep::Finalize(f))),
            Err(e) => fin_taken(a, z, config, p, source, Err(e)),
            _ => false,
        },
        Kind::Abort => r matches Ok(UdpAction::Nothing) && aborted(a, z, p, source),
        _ => r matches Ok(UdpAction::Nothing) && z == a,
    }
}

/// What a packet leads to: what ended long ago is forgotten, then the kind of
/// the packet decides.
pub open spec fn handled(
    a: Scene,
    z: Scene,
    config: ConfigView,
    p: PacketView,
    source: SocketAddress,
    now_ms: u64,
    now_ns: u64,
    r: Result<UdpAction, Error>,
) -> bool {
    exists|mid: Scene|
        {
            &&& #[trigger] forgot(a, mid, now_ns)
            &&& acted(mid, z, config, p, source, now_ms, now_ns, r)
        }
}

/// Whether a packet is answered by a look at its block: a request for bytes of
/// it, and the start of an upload into it. No other packet minds what holds the
/// block.
pub open spec fn looks_at_block(p: PacketView) -> bool {
    p.kind == Kind::ReadRequest || p.kind == Kind::Start && p.flags == 0
}

impl Packet {
    /// Whether this is answered by a look at its block, so that it waits while
    /// something holds the block.
    pub fn needs_block(&self) -> (r: bool)
        ensures
            r == looks_at_block(self@),
    {
        match self.kind {
            Kind::ReadRequest => true,
            Kind::Start => self.flags == 0,
            _ => false,
        }
    }
}

impl UdpServerState {
    /// Takes a packet: forgets what ended long ago, then does what its kind
    /// asks for.
    pub fn handle_udp_packet(
        &mut self,
        ram: &mut LocalRam,
        metrics: &mut Metrics,
        config: &Config,
        packet: &Packet,
        source: SocketAddress,
        now_ms: u64,
        now_ns: u64,
    ) -> (r: Result<UdpAction, Error>)
        requires
            old(self).wf(),
            old(ram).wf(),
            old(metrics).wf(),
            old(self).backed(old(ram).accounting),
            config@.valid(),
            looks_at_block(packet@) ==> !old(ram).held(packet.block_id),
        ensures
            final(self).wf(),
            final(ram).wf(),
            final(metrics).wf(),
            final(self).backed(final(ram).accounting),
            handled(
                (Scene { server: *old(self), ram: *old(ram), metrics: old(metrics)@ }),
                (Scene { server: *final(self), ram: *final(ram), metrics: final(metrics)@ }),
                config@,
                packet@,
                source,
                now_ms,
                now_ns,
                r,
            ),
    {
        let ghost first = Scene { server: *self, ram: *ram, metrics: metrics@ };
        self.forget(now_ns);
        let ghost mid = Scene { server: *self, ram: *ram, metrics: metrics@ };
        proof {
            assert(mid.server.sessions() == first.server.sessions());
            assert(forgot(first, mid, now_ns));
        }
        match packet.kind {
            Kind::ReadRequest => match self.on_read_request(ram, metrics, config, packet, now_ms) {
                Ok(job) => {
                    proof {
                        assert(self.sessions() == mid.server.sessions());
                    }
                    Ok(UdpAction::Serve(job))
                },
                Err(e) => Err(e),
            },
            Kind::Start => if packet.flags != 0 {
                Ok(UdpAction::Nothing)
            } else {
                match self.on_start(ram, metrics, config, packet, source, now_ms, now_ns) {
                    Ok(packet) => Ok(UdpAction::Reply { packet, counted: Counted::Plain }),
                    Err(e) => Err(e),
                }
            },
            Kind::Data => {
                let key = SessionKey { source, transfer: packet.transfer_id, block: packet.block_id };
                proof {
                    lemma_keys_alike(*self, key);
                    assert(packet.sequence_id * config.udp_payload_bytes <= 0xffff_ffff * 1200) by (nonlinear_arith)
                        requires
                            packet.sequence_id <= 0xffff_ffff,
                            config.udp_payload_bytes <= 1200,
                    ;
                }
                let back: u64 = packet.sequence_id as u64 * config.udp_payload_bytes as u64;
                let over: bool = packet.offset >= back && self.completed.contains(
                    CompletedKey { session: key, offset: packet.offset - back },
                ) || !self.incoming.contains(key);
                match self.on_data(ram, metrics, config, packet, source, now_ns) {
                    Ok(Some(packet)) => Ok(
                        UdpAction::Reply {
                            packet,
                            counted: if over {
                                Counted::Plain
                            } else {
                                Counted::Ack
                            },
                        },
                    ),
                    Ok(None) => Ok(UdpAction::Nothing),
                    Err(e) => Err(e),
                }
            },
            Kind::Fin => {
                let step: Result<FinStep, Error> = self.on_fin(ram, config, packet, source);
                proof {
                    let z = Scene { server: *self, ram: *ram, metrics: metrics@ };
                    assert(fin_taken(mid, z, config@, packet@, source, step));
                }
                match step {
                    Ok(FinStep::Again(packet)) => Ok(UdpAction::Reply { packet, counted: Counted::Plain }),
                    Ok(FinStep::Missing(packet)) => Ok(UdpAction::Reply { packet, counted: Counted::Nack }),
                    Ok(FinStep::Silent) => Ok(UdpAction::Nothing),
                    Ok(FinStep::Finalize(chunk)) => Ok(UdpAction::Finalize(chunk)),
                    Err(e) => Err(e),
                }
            },
            Kind::Abort => {
                self.on_abort(ram, metrics, packet, source);
                Ok(UdpAction::Nothing)
            },
            _ => Ok(UdpAction::Nothing),
        }
    }
}

/// The counters after a reply went out.
pub open spec fn replied(m: Map<Uuid, JobMetrics>, job: Uuid, counted: Counted) -> Map<Uuid, JobMetrics> {
    let j = job_of(m, job);
    m.insert(
        job,
        JobMetrics {
            udp_datagrams_sent: plus(j.udp_datagrams_sent, 1),
            ack_count: if counted == Counted::Ack {
                plus(j.ack_count, 1)
            } else {
                j.ack_count
            },
            nack_count: if counted == Counted::Nack {
                plus(j.nack_count, 1)
            } else {
                j.nack_count
            },
            ..j
        },
    )
}

impl Metrics {
    /// Counts a reply that went out.
    pub fn count_reply(&mut self, job: Uuid, counted: Counted)
        requires
            old(self).wf(),
        ensures
            final(self).wf(),
            final(self)@ == replied(old(self)@, job, counted),
    {
        let m: &mut JobMetrics = self.job(job);
        m.udp_datagrams_sent = sum(m.udp_datagrams_sent, 1);
        match counted {
            Counted::Plain => {},
            Counted::Ack => {
                m.ack_count = sum(m.ack_count, 1);
            },
            Counted::Nack => {
                m.nack_count = sum(m.nack_count, 1);
            },
        }
    }

    /// Counts a datagram that came in.
    pub fn count_datagram(&mut self, job: Uuid)
        requires
            old(self).wf(),
        ensures
            final(self).wf(),
            final(self)@ == one_more(old(self)@, job),
    {
        let m: &mut JobMetrics = self.job(job);
        m.udp_datagrams_received = sum(m.udp_datagrams_received, 1);
    }
}

/// The bytes of packet `sequence` when `message` is cut into pieces of `size`.
pub open spec fn piece(message: Seq<u8>, size: nat, sequence: int) -> Seq<u8> {
    let begin = sequence * size;
    let end = if begin + size < message.len() {
        begin + size
    } else {
        message.len() as int
    };
    message.subrange(begin, end)
}

/// Whether all that a session has taken is from `message`.
pub open spec fn agrees(s: SessionView, message: Seq<u8>) -> bool {
    &&& s.wf()
    &&& s.buffer.len() == message.len()
    &&& forall|q: int|
        0 <= q < s.packet_count && #[trigger] s.received[q] ==> piece(s.buffer, s.payload_size, q) == piece(
            message,
            s.payload_size,
            q,
        )
}

/// Pieces of different packets do not overlap.
proof fn lemma_apart(size: int, q: int, k: int)
    requires
        size > 0,
        q != k,
        0 <= q,
        0 <= k,
    ensures
        q < k ==> q * size + size <= k * size,
        k < q ==> k * size + size <= q * size,
{
    assert(q < k ==> q * size + size <= k * size) by (nonlinear_arith)
        requires
            size > 0,
    ;
    assert(k < q ==> k * size + size <= q * size) by (nonlinear_arith)
        requires
            size > 0,
    ;
}

/// A chunk comes together from its packets in whatever order they come, and
/// however often: taking a packet of the message keeps a session in agreement
/// with the message, and a session that has them all holds the message.
pub proof fn law_reassembly(s: SessionView, message: Seq<u8>, sequence: int)
    requires
        agrees(s, message),
    ensures
        0 <= sequence < s.packet_count ==> agrees(
            s.placed(sequence, piece(message, s.payload_size, sequence)),
            message,
        ),
        s.received_count == s.packet_count ==> s.buffer == message,
{
    let size = s.payload_size as int;
    if 0 <= sequence < s.packet_count {
        let part = piece(message, s.payload_size, sequence);
        lemma_begin(s, sequence);
        lemma_placed(s, sequence, part);
        let t = s.placed(sequence, part);
        if !s.received[sequence] {
            assert forall|q: int| 0 <= q < t.packet_count && #[trigger] t.received[q] implies piece(
                t.buffer,
                t.payload_size,
                q,
            ) == piece(message, t.payload_size, q) by {
                lemma_begin(s, q);
                if q == sequence {
                    assert(piece(t.buffer, t.payload_size, q) =~= part);
                } else {
                    assert(s.received[q]);
                    lemma_apart(size, q, sequence);
                    assert(piece(t.buffer, t.payload_size, q) =~= piece(s.buffer, s.payload_size, q));
                }
            }
        }
    }
    if s.received_count == s.packet_count {
        lemma_trues_bound(s.received);
        assert forall|i: int| 0 <= i < message.len() implies s.buffer[i] == message[i] by {
            let q = i / size;
            assert(q * size <= i < q * size + size) by (nonlinear_arith)
                requires
                    q == i / size,
                    size > 0,
            ;
            let n = message.len() as int;
            assert(q < (n + size - 1) / size) by (nonlinear_arith)
                requires
                    q * size <= i,
                    i < n,
                    size > 0,
            ;
            assert(0 <= q) by (nonlinear_arith)
                requires
                    q == i / size,
                    size > 0,
                    i >= 0,
            ;
            assert(s.received[q]);
            assert(piece(s.buffer, s.payload_size, q)[i - q * size] == s.buffer[i]);
            assert(piece(message, s.payload_size, q)[i - q * size] == message[i]);
        }
        assert(s.buffer =~= message);
    }
}

/// A session that was just opened agrees with every message of its length.
pub proof fn law_open_session_agrees(
    store: Map<Uuid, BlockView>,
    p: PacketView,
    config: ConfigView,
    ticket: nat,
    now_ms: u64,
    now_ns: u64,
    message: Seq<u8>,
)
    requires
        config.valid(),
        start_check(store, p, config, now_ms) is Ok,
        message.len() == be_value(p.payload.subrange(0, 8)),
    ensures
        agrees(opened(p, config, ticket, now_ns), message),
{
    let s = opened(p, config, ticket, now_ns);
    lemma_trues_none(s.received);
    assert(s.checksum.len() == 32);
}

/// A chunk whose end was confirmed is confirmed again when the sender asks
/// again, and its packets are acknowledged; nothing changes by it. This holds
/// while the session is remembered.
pub proof fn law_completion_is_repeated(
    a: Scene,
    m: Scene,
    z: Scene,
    config: ConfigView,
    p: PacketView,
    d: PacketView,
    s: SessionView,
    source: SocketAddress,
    now_ms: u64,
    now_ns: u64,
    end: Result<Packet, Error>,
    r: Result<FinStep, Error>,
    t: Result<Option<Packet>, Error>,
)
    requires
        finished(a, m, config, key_of(p, source), p, s, now_ms, now_ns, end),
        end is Ok,
        with_completed(a.server.completed@, CompletedKey { session: key_of(p, source), offset: p.offset }, now_ns).len()
            <= config.udp_max_sessions * 16,
        key_of(d, source) == key_of(p, source),
        d.offset == p.offset + d.sequence_id * config.udp_payload_bytes,
    ensures
        fin_taken(m, z, config, p, source, r) ==> {
            &&& r matches Ok(FinStep::Again(k)) && k@ == answer(p, Kind::Complete, Seq::empty())
            &&& z == m
        },
        data_taken(m, z, config, d, source, now_ns, t) ==> {
            &&& t matches Ok(Some(k)) && is_full_ack(k@, d, config.udp_window_packets as nat)
            &&& z == m
        },
{
    let key = CompletedKey { session: key_of(p, source), offset: p.offset };
    let before = a.server.completed@;
    let after = with_completed(before, key, now_ns);
    if keyed(before, key) {
        assert(after[place(before, key)].0 == key);
    } else {
        assert(after[before.len() as int].0 == key);
    }
    assert(keyed(m.server.completed@, key));
    let back = d.sequence_id * config.udp_payload_bytes;
    assert(back >= 0) by (nonlinear_arith)
        requires
            back == d.sequence_id * config.udp_payload_bytes,
    ;
    assert((d.offset - back) as u64 == p.offset);
}

proof fn lemma_lively_fewer(s: Seq<(SessionKey, SessionView)>, config: ConfigView, now_ns: u64)
    ensures
        lively(s, config, now_ns).len() <= s.len(),
    decreases s.len(),
{
    if s.len() > 0 {
        lemma_lively_fewer(s.drop_last(), config, now_ns);
    }
}

/// A receiver that has as many sessions as it may have refuses one more and
/// promises no memory for it. When one of the open sessions is aborted, the
/// same start packet is acknowledged, as long as the lease lasts and the budget
/// has room. What else holds the block in the meantime does not matter.
pub proof fn law_abort_makes_room(
    a: Scene,
    b: Scene,
    c: Scene,
    z: Scene,
    config: ConfigView,
    start: PacketView,
    source: SocketAddress,
    abort: PacketView,
    other: SocketAddress,
    start_ms: u64,
    start_ns: u64,
    abort_ms: u64,
    abort_ns: u64,
    again_ms: u64,
    again_ns: u64,
    refused: Result<UdpAction, Error>,
    dropped: Result<UdpAction, Error>,
    r: Result<UdpAction, Error>,
)
    requires
        a.wf(),
        start.kind == Kind::Start,
        start.flags == 0,
        abort.kind == Kind::Abort,
        start_check(a.ram@, start, config, start_ms) is Ok,
        lively(a.server.sessions(), config, start_ns).len() == config.udp_max_sessions,
        !keyed(lively(a.server.sessions(), config, start_ns), key_of(start, source)),
        handled(a, b, config, start, source, start_ms, start_ns, refused),
        keyed(b.server.sessions(), key_of(abort, other)),
        handled(b, c, config, abort, other, abort_ms, abort_ns, dropped),
        again_ms < a.ram@[start.block_id].handle.lease_expires_ms,
        c.ram.accounting.owned - silent_bytes(c.server.sessions(), config, again_ns) + be_value(
            start.payload.subrange(0, 8),
        ) <= c.ram.accounting.budget,
        handled(c, z, config, start, source, again_ms, again_ns, r),
    ensures
        refused == Err::<UdpAction, Error>(Error::UdpSessionLimit),
        Error::UdpSessionLimit.text() == "TRAINPOOL_UDP_BACKPRESSURE: receiver session limit"@,
        b.server.sessions() == lively(a.server.sessions(), config, start_ns),
        b.ram.accounting.owned <= a.ram.accounting.owned,
        dropped matches Ok(UdpAction::Nothing),
        r matches Ok(UdpAction::Reply { packet, .. }) && packet@ == start_ack(start, config),
        keyed(z.server.sessions(), key_of(start, source)),
{
    let key = key_of(start, source);
    let a1 = choose|mid: Scene|
        #[trigger] forgot(a, mid, start_ns) && acted(mid, b, config, start, source, start_ms, start_ns, refused);
    let b1 = choose|mid: Scene|
        #[trigger] forgot(b, mid, abort_ns) && acted(mid, c, config, abort, other, abort_ms, abort_ns, dropped);
    let c1 = choose|mid: Scene|
        #[trigger] forgot(c, mid, again_ns) && acted(mid, z, config, start, source, again_ms, again_ns, r);
    assert(a1.server.sessions() == a.server.sessions());
    assert(b1.server.sessions() == b.server.sessions());
    assert(c1.server.sessions() == c.server.sessions());
    let all = b.server.sessions();
    assert(c.server.sessions() == all.remove(place(all, key_of(abort, other))));
    assert(c.server.sessions().len() < config.udp_max_sessions);
    let live = lively(c.server.sessions(), config, again_ns);
    lemma_lively_fewer(c.server.sessions(), config, again_ns);
    assert(start_check(c.ram@, start, config, again_ms) is Ok);
    if !keyed(live, key) {
        let session = opened(start, config, c.ram.accounting.next_ticket(), again_ns);
        assert(live.push((key, session))[live.len() as int].0 == key);
    }
}

} // verus!
