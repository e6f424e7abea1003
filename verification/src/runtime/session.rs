//! The receiving side of the payload plane: sessions that put a chunk together
//! from datagrams in any order and hand it to the block when it is whole.
use crate::address::SocketAddress;
use crate::arith::{capped, capped_product};
use crate::config::{Config, ConfigView};
use crate::error::Error;
use crate::ids::Uuid;
use crate::memory::allocator::{LedgerEntry, RamAccounting, Reservation};
use crate::memory::local_ram::LocalRam;
use crate::metrics::{job_of, less_one, plus, sum, JobMetrics, Metrics};
use crate::table::{Key, Table};
use crate::transport::udp::{bitmap_payload, is_bitmap, Kind, Packet, PacketView, ACK_BITS};
use vstd::prelude::*;

verus! {

/// Who sends what to which block.
#[derive(Clone, Copy, Debug, PartialEq, Eq, Structural)]
pub struct SessionKey {
    pub source: SocketAddress,
    pub transfer: Uuid,
    pub block: Uuid,
}

impl Key for SessionKey {
    fn same(&self, other: &Self) -> (r: bool) {
        *self == *other
    }
}

/// A session that ended well, and where its chunk began.
#[derive(Clone, Copy, Debug, PartialEq, Eq, Structural)]
pub struct CompletedKey {
    pub session: SessionKey,
    pub offset: u64,
}

impl Key for CompletedKey {
    fn same(&self, other: &Self) -> (r: bool) {
        *self == *other
    }
}

/// A chunk on its way in.
pub struct IncomingSession {
    pub object: Uuid,
    pub lease: Uuid,
    pub generation: u64,
    pub base_offset: u64,
    pub block_size: u64,
    pub payload_size: usize,
    pub packet_count: usize,
    pub checksum: [u8; 32],
    pub buffer: Vec<u8>,
    pub received: Vec<bool>,
    pub received_count: usize,
    pub last_sequence: Option<usize>,
    /// Nanoseconds on the monotonic clock.
    pub last_activity: u64,
    pub reservation: Reservation,
}

/// The model of an [`IncomingSession`].
pub struct SessionView {
    pub object: Uuid,
    pub lease: Uuid,
    pub generation: u64,
    pub base_offset: u64,
    pub block_size: u64,
    pub payload_size: nat,
    pub packet_count: nat,
    pub checksum: Seq<u8>,
    pub buffer: Seq<u8>,
    pub received: Seq<bool>,
    pub received_count: nat,
    pub last_sequence: Option<usize>,
    pub last_activity: u64,
    pub entry: LedgerEntry,
}

impl View for IncomingSession {
    type V = SessionView;

    open spec fn view(&self) -> SessionView {
        SessionView {
            object: self.object,
            lease: self.lease,
            generation: self.generation,
            base_offset: self.base_offset,
            block_size: self.block_size,
            payload_size: self.payload_size as nat,
            packet_count: self.packet_count as nat,
            checksum: self.checksum@,
            buffer: self.buffer@,
            received: self.received@,
            received_count: self.received_count as nat,
            last_sequence: self.last_sequence,
            last_activity: self.last_activity,
            entry: self.reservation.entry(),
        }
    }
}

/// How many are true.
pub open spec fn trues(s: Seq<bool>) -> nat
    decreases s.len(),
{
    if s.len() == 0 {
        0
    } else {
        trues(s.drop_last()) + (if s.last() {
            1nat
        } else {
            0
        })
    }
}

pub proof fn lemma_trues_bound(s: Seq<bool>)
    ensures
        trues(s) <= s.len(),
        trues(s) == s.len() <==> forall|i: int| 0 <= i < s.len() ==> #[trigger] s[i],
    decreases s.len(),
{
    if s.len() > 0 {
        let t = s.drop_last();
        lemma_trues_bound(t);
        if trues(s) == s.len() {
            assert forall|i: int| 0 <= i < s.len() implies #[trigger] s[i] by {
                if i < t.len() {
                    assert(t[i]);
                }
            }
        }
        if forall|i: int| 0 <= i < s.len() ==> #[trigger] s[i] {
            assert forall|i: int| 0 <= i < t.len() implies #[trigger] t[i] by {
                assert(s[i]);
            }
            assert(s[s.len() - 1]);
        }
    }
}

pub proof fn lemma_trues_set(s: Seq<bool>, i: int)
    requires
        0 <= i < s.len(),
        !s[i],
    ensures
        trues(s.update(i, true)) == trues(s) + 1,
    decreases s.len(),
{
    let t = s.update(i, true);
    if i == s.len() - 1 {
        assert(t.drop_last() =~= s.drop_last());
    } else {
        assert(t.drop_last() =~= s.drop_last().update(i, true));
        lemma_trues_set(s.drop_last(), i);
    }
}

pub proof fn lemma_trues_none(s: Seq<bool>)
    requires
        forall|i: int| 0 <= i < s.len() ==> !#[trigger] s[i],
    ensures
        trues(s) == 0,
    decreases s.len(),
{
    if s.len() > 0 {
        assert forall|i: int| 0 <= i < s.len() - 1 implies !#[trigger] s.drop_last()[i] by {
            assert(!s[i]);
        }
        lemma_trues_none(s.drop_last());
    }
}

/// How many packets of `size` a chunk of `length` bytes takes.
pub open spec fn packets(length: nat, size: nat) -> nat {
    ((length + size - 1) / size as int) as nat
}

impl SessionView {
    /// The packets cover the buffer, the count is that of the marks, and the
    /// reservation pays for the buffer.
    pub open spec fn wf(self) -> bool {
        &&& 0 < self.payload_size <= 1200
        &&& self.buffer.len() > 0
        &&& self.packet_count == packets(self.buffer.len(), self.payload_size)
        &&& self.packet_count == self.received.len()
        &&& self.packet_count <= u32::MAX
        &&& self.received_count == trues(self.received)
        &&& self.checksum.len() == 32
        &&& self.base_offset + self.buffer.len() <= self.block_size
        &&& self.entry.job is None
        &&& self.entry.bytes == self.buffer.len()
    }

    /// Where the bytes of packet `sequence` begin in the buffer.
    pub open spec fn begin(self, sequence: int) -> int {
        sequence * self.payload_size
    }

    /// The session with packet `sequence` in its place, if it was not there yet.
    pub open spec fn placed(self, sequence: int, payload: Seq<u8>) -> SessionView {
        if self.received[sequence] {
            self
        } else {
            SessionView {
                buffer: self.buffer.take(self.begin(sequence)) + payload + self.buffer.skip(
                    self.begin(sequence) + payload.len(),
                ),
                received: self.received.update(sequence, true),
                received_count: self.received_count + 1,
                last_sequence: Some(sequence as usize),
                ..self
            }
        }
    }

    /// The session when something was heard of it.
    pub open spec fn touched(self, now_ns: u64) -> SessionView {
        SessionView { last_activity: now_ns, ..self }
    }

    /// Whether a packet is of this session.
    pub open spec fn expects(self, p: PacketView) -> bool {
        &&& p.object_id == self.object
        &&& p.lease_token == self.lease
        &&& p.generation == self.generation
        &&& p.total_size == self.block_size
    }

    /// What is wrong with a data packet of this session.
    pub open spec fn data_fault(self, p: PacketView) -> Option<Error> {
        if p.sequence_id >= self.packet_count {
            Some(Error::UdpSequence)
        } else if p.offset != self.base_offset + self.begin(p.sequence_id as int) {
            Some(Error::UdpOffset)
        } else if self.begin(p.sequence_id as int) + p.payload.len() > self.buffer.len() {
            Some(Error::UdpPayload)
        } else {
            None
        }
    }
}

/// Nanoseconds from `then` to `now`, none if it lies ahead.
pub open spec fn elapsed(then: u64, now: u64) -> nat {
    if now >= then {
        (now - then) as nat
    } else {
        0
    }
}

/// How long a completed session is remembered.
pub const COMPLETED_NANOS: u64 = 120_000_000_000;

/// Milliseconds after which a silent session is given up.
pub open spec fn incoming_expiry(config: ConfigView) -> nat {
    let allowed = capped(config.udp_initial_rto_ms * (config.udp_max_retries + 2));
    if allowed < 30_000 {
        30_000
    } else {
        allowed as nat
    }
}

/// Whether a session has been silent for too long.
pub open spec fn silent(s: SessionView, config: ConfigView, now_ns: u64) -> bool {
    elapsed(s.last_activity, now_ns) >= incoming_expiry(config) * 1_000_000
}

/// The completed sessions that are still remembered.
pub open spec fn remembered(s: Seq<(CompletedKey, u64)>, now_ns: u64) -> Seq<(CompletedKey, u64)>
    decreases s.len(),
{
    if s.len() == 0 {
        s
    } else if elapsed(s.last().1, now_ns) < COMPLETED_NANOS {
        remembered(s.drop_last(), now_ns).push(s.last())
    } else {
        remembered(s.drop_last(), now_ns)
    }
}

/// The sessions that are not given up.
pub open spec fn lively(s: Seq<(SessionKey, SessionView)>, config: ConfigView, now_ns: u64) -> Seq<
    (SessionKey, SessionView),
>
    decreases s.len(),
{
    if s.len() == 0 {
        s
    } else if silent(s.last().1, config, now_ns) {
        lively(s.drop_last(), config, now_ns)
    } else {
        lively(s.drop_last(), config, now_ns).push(s.last())
    }
}

/// The bytes of the sessions that are given up.
pub open spec fn silent_bytes(s: Seq<(SessionKey, SessionView)>, config: ConfigView, now_ns: u64) -> nat
    decreases s.len(),
{
    if s.len() == 0 {
        0
    } else if silent(s.last().1, config, now_ns) {
        silent_bytes(s.drop_last(), config, now_ns) + s.last().1.buffer.len()
    } else {
        silent_bytes(s.drop_last(), config, now_ns)
    }
}

/// The counters of a job that lost a session.
pub open spec fn lost_session(m: Map<Uuid, JobMetrics>, object: Uuid) -> Map<Uuid, JobMetrics> {
    let j = job_of(m, object);
    m.insert(
        object,
        JobMetrics {
            active_transfer_sessions: less_one(j.active_transfer_sessions),
            failed_transfers: plus(j.failed_transfers, 1),
            ..j
        },
    )
}

/// The counters of a job that opened a session.
pub open spec fn opened_session(m: Map<Uuid, JobMetrics>, object: Uuid) -> Map<Uuid, JobMetrics> {
    let j = job_of(m, object);
    m.insert(
        object,
        JobMetrics {
            transfer_sessions: plus(j.transfer_sessions, 1),
            active_transfer_sessions: plus(j.active_transfer_sessions, 1),
            ..j
        },
    )
}

/// The counters after the silent sessions were given up.
pub open spec fn silent_metrics(
    m: Map<Uuid, JobMetrics>,
    s: Seq<(SessionKey, SessionView)>,
    config: ConfigView,
    now_ns: u64,
) -> Map<Uuid, JobMetrics>
    decreases s.len(),
{
    if s.len() == 0 {
        m
    } else if silent(s.last().1, config, now_ns) {
        lost_session(silent_metrics(m, s.drop_last(), config, now_ns), s.last().1.object)
    } else {
        silent_metrics(m, s.drop_last(), config, now_ns)
    }
}

/// A packet in answer to another.
pub open spec fn answer(p: PacketView, kind: Kind, payload: Seq<u8>) -> PacketView {
    PacketView { kind, payload, ..p }
}

/// A packet in answer to another.
pub fn response(request: &Packet, kind: Kind, payload: Vec<u8>) -> (r: Packet)
    ensures
        r@ == answer(request@, kind, payload@),
{
    Packet {
        kind,
        flags: request.flags,
        transfer_id: request.transfer_id,
        object_id: request.object_id,
        block_id: request.block_id,
        lease_token: request.lease_token,
        generation: request.generation,
        sequence_id: request.sequence_id,
        offset: request.offset,
        total_size: request.total_size,
        payload,
    }
}

/// The first sequence of the stretch that acknowledgements of `sequence` speak of.
pub open spec fn stretch(sequence: int) -> int {
    (sequence / ACK_BITS as int) * ACK_BITS
}

/// Which packets of a stretch have come.
pub open spec fn present(received: Seq<bool>, base: int) -> Seq<bool> {
    Seq::new(ACK_BITS as nat, |i: int| base + i < received.len() && received[base + i])
}

/// Which packets of a stretch are missing.
pub open spec fn missing(received: Seq<bool>, base: int) -> Seq<bool> {
    Seq::new(ACK_BITS as nat, |i: int| base + i < received.len() && !received[base + i])
}

/// An acknowledgement of all that a data packet's stretch can hold.
pub open spec fn is_full_ack(r: PacketView, p: PacketView, window: nat) -> bool {
    &&& r == answer(p, Kind::Ack, r.payload)
    &&& is_bitmap(
        r.payload,
        stretch(p.sequence_id as int) as u32,
        Seq::new(ACK_BITS as nat, |i: int| true),
        window,
    )
}

/// The acknowledgement of a data packet whose session is over.
pub fn completed_data_ack(request: &Packet, window: usize) -> (r: Packet)
    ensures
        is_full_ack(r@, request@, window as nat),
{
    let mut bits: Vec<bool> = Vec::new();
    while bits.len() < ACK_BITS
        invariant
            bits@.len() <= ACK_BITS,
            forall|i: int| 0 <= i < bits@.len() ==> #[trigger] bits@[i],
        decreases ACK_BITS - bits@.len(),
    {
        bits.push(true);
    }
    assert(bits@ =~= Seq::new(ACK_BITS as nat, |i: int| true));
    let base: u32 = (request.sequence_id / 256) * 256;
    let payload: Vec<u8> = bitmap_payload(base, bits.as_slice(), window);
    response(request, Kind::Ack, payload)
}

/// The marks of a stretch: those that have come, or those that are missing.
pub(crate) fn marks_of(received: &Vec<bool>, base: usize, come: bool) -> (bits: Vec<bool>)
    requires
        base <= received@.len(),
    ensures
        come ==> bits@ == present(received@, base as int),
        !come ==> bits@ == missing(received@, base as int),
{
    let mut bits: Vec<bool> = Vec::new();
    let total: usize = received.len();
    let mut i: usize = 0;
    while i < ACK_BITS
        invariant
            i <= ACK_BITS,
            bits@.len() == i,
            total == received@.len(),
            base <= total,
            forall|k: int|
                0 <= k < i ==> #[trigger] bits@[k] == (base + k < received@.len() && received@[base + k] == come),
        decreases ACK_BITS - i,
    {
        let b: bool = i < total - base && received[base + i] == come;
        bits.push(b);
        i = i + 1;
    }
    proof {
        if come {
            assert(bits@ =~= present(received@, base as int));
        } else {
            assert(bits@ =~= missing(received@, base as int));
        }
    }
    bits
}

/// What the receiver knows.
pub struct UdpServerState {
    pub incoming: Table<SessionKey, IncomingSession>,
    /// Sessions whose chunk is on its way into the block.
    pub finishing: Vec<SessionKey>,
    /// Sessions that ended well, with the time of their end.
    pub completed: Table<CompletedKey, u64>,
    pub active_reads: usize,
}

/// The models of the sessions.
pub open spec fn session_views(s: Seq<(SessionKey, IncomingSession)>) -> Seq<(SessionKey, SessionView)> {
    s.map_values(|e: (SessionKey, IncomingSession)| (e.0, e.1@))
}

/// Whether one of the given-up sessions held this reservation.
pub open spec fn silent_owns(s: Seq<(SessionKey, SessionView)>, config: ConfigView, now_ns: u64, e: LedgerEntry) -> bool {
    exists|i: int| 0 <= i < s.len() && silent((#[trigger] s[i]).1, config, now_ns) && s[i].1.entry == e
}

impl UdpServerState {
    /// The sessions.
    pub open spec fn sessions(&self) -> Seq<(SessionKey, SessionView)> {
        session_views(self.incoming@)
    }

    /// Keys are told apart and every session is whole.
    pub open spec fn wf(&self) -> bool {
        &&& self.incoming.wf()
        &&& self.completed.wf()
        &&& self.finishing@.no_duplicates()
        &&& forall|i: int| 0 <= i < self.sessions().len() ==> (#[trigger] self.sessions()[i]).1.wf()
    }

    /// Whether a session holds this reservation.
    pub open spec fn owns(&self, e: LedgerEntry) -> bool {
        exists|i: int| 0 <= i < self.sessions().len() && (#[trigger] self.sessions()[i]).1.entry == e
    }

    /// Every session is paid for by a live reservation of its own.
    pub open spec fn backed(&self, accounting: RamAccounting) -> bool {
        &&& forall|i: int|
            0 <= i < self.sessions().len() ==> accounting.holds((#[trigger] self.sessions()[i]).1.entry)
        &&& forall|i: int, j: int|
            0 <= i < j < self.sessions().len() ==> (#[trigger] self.sessions()[i]).1.entry != (
            #[trigger] self.sessions()[j]).1.entry
    }

    pub fn new() -> (r: Self)
        ensures
            r.wf(),
            r.sessions() == Seq::<(SessionKey, SessionView)>::empty(),
            r.finishing@ == Seq::<SessionKey>::empty(),
            r.completed@ == Seq::<(CompletedKey, u64)>::empty(),
            r.active_reads == 0,
    {
        let r = UdpServerState {
            incoming: Table::new(),
            finishing: Vec::new(),
            completed: Table::new(),
            active_reads: 0,
        };
        assert(r.sessions() =~= Seq::<(SessionKey, SessionView)>::empty());
        r
    }

    /// Forgets the completed sessions that ended too long ago.
    pub(crate) fn forget(&mut self, now_ns: u64)
        requires
            old(self).wf(),
        ensures
            final(self).wf(),
            final(self).incoming == old(self).incoming,
            final(self).finishing == old(self).finishing,
            final(self).active_reads == old(self).active_reads,
            final(self).completed@ == remembered(old(self).completed@, now_ns),
    {
        let ghost before = *self;
        let ghost all = self.completed@;
        let mut i: usize = 0;
        let ghost mut k: int = 0;
        proof {
            assert(all.take(0) =~= Seq::<(CompletedKey, u64)>::empty());
            assert(remembered(all.take(0), now_ns) + all.skip(0) =~= all);
        }
        while i < self.completed.len()
            invariant
                self.wf(),
                before.wf(),
                self.incoming == before.incoming,
                self.finishing == before.finishing,
                self.active_reads == before.active_reads,
                0 <= k <= all.len(),
                i == remembered(all.take(k), now_ns).len(),
                self.completed@ == remembered(all.take(k), now_ns) + all.skip(k),
            decreases all.len() - k,
        {
            let then: u64 = *self.completed.value_at(i);
            proof {
                assert(self.completed@[i as int] == all[k]);
                assert(all.take(k + 1).drop_last() =~= all.take(k));
                assert(all.take(k + 1).last() == all[k]);
            }
            let ghost kept = remembered(all.take(k), now_ns);
            let age: u64 = if now_ns >= then {
                now_ns - then
            } else {
                0
            };
            if age < COMPLETED_NANOS {
                proof {
                    assert(kept + all.skip(k) =~= kept.push(all[k]) + all.skip(k + 1));
                }
                i = i + 1;
            } else {
                let _ = self.completed.remove_at(i);
                proof {
                    assert((kept + all.skip(k)).remove(i as int) =~= kept + all.skip(k + 1));
                }
            }
            proof {
                k = k + 1;
                assert(self.sessions() == before.sessions());
            }
        }
        proof {
            assert(self.completed@.len() == i);
            assert(k == all.len());
            assert(all.take(k) =~= all);
            assert(self.completed@ =~= remembered(all, now_ns));
        }
    }

    /// Gives up a session and what it had reserved.
    pub(crate) fn drop_session(&mut self, ram: &mut LocalRam, i: usize)
        requires
            old(self).wf(),
            old(ram).wf(),
            old(self).backed(old(ram).accounting),
            i < old(self).sessions().len(),
        ensures
            final(self).wf(),
            final(ram).wf(),
            final(self).backed(final(ram).accounting),
            final(self).finishing == old(self).finishing,
            final(self).completed == old(self).completed,
            final(self).active_reads == old(self).active_reads,
            final(self).sessions() == old(self).sessions().remove(i as int),
            freed(*old(ram), *final(ram), old(self).sessions()[i as int].1.entry),
    {
        let ghost before = *self;
        let ghost s = self.sessions();
        let ghost ram0 = *ram;
        let (key, session) = self.incoming.remove_at(i);
        proof {
            assert(s[i as int].1 == session@);
            assert(self.sessions() =~= s.remove(i as int));
        }
        let ghost t = self.sessions();
        ram.release(session.reservation);
        proof {
            assert forall|j: int| 0 <= j < t.len() implies #[trigger] t[j] == s[if j < i {
                j
            } else {
                j + 1
            }] by {}
            assert forall|j: int| 0 <= j < t.len() implies (#[trigger] t[j]).1.wf() && ram.accounting.holds(
                t[j].1.entry,
            ) by {
                let a = if j < i {
                    j
                } else {
                    j + 1
                };
                assert(s[a].1.wf());
                assert(ram0.accounting.holds(s[a].1.entry));
                if a < i {
                    assert(s[a].1.entry != s[i as int].1.entry);
                } else {
                    assert(s[i as int].1.entry != s[a].1.entry);
                }
            }
            assert forall|a: int, b: int| 0 <= a < b < t.len() implies (#[trigger] t[a]).1.entry != (
            #[trigger] t[b]).1.entry by {
                let x = if a < i {
                    a
                } else {
                    a + 1
                };
                let y = if b < i {
                    b
                } else {
                    b + 1
                };
                assert(s[x].1.entry != s[y].1.entry);
            }
        }
    }
}

/// The store after a reservation that was no block's has ended.
pub open spec fn freed(before: LocalRam, after: LocalRam, e: LedgerEntry) -> bool {
    &&& after.same_blocks(&before)
    &&& after@ == before@
    &&& before.intact() ==> after.intact()
    &&& after.accounting.budget == before.accounting.budget
    &&& after.accounting.next_ticket() == before.accounting.next_ticket()
    &&& after.accounting.owned + e.bytes == before.accounting.owned
    &&& after.accounting.peak == before.accounting.peak
    &&& after.accounting.jobs == before.accounting.jobs
    &&& forall|x: LedgerEntry| after.accounting.holds(x) == (before.accounting.holds(x) && x != e)
}

/// The store after all the silent sessions were given up.
pub open spec fn silenced(
    before: LocalRam,
    after: LocalRam,
    s: Seq<(SessionKey, SessionView)>,
    config: ConfigView,
    now_ns: u64,
) -> bool {
    &&& after.same_blocks(&before)
    &&& after@ == before@
    &&& before.intact() ==> after.intact()
    &&& after.accounting.budget == before.accounting.budget
    &&& after.accounting.next_ticket() == before.accounting.next_ticket()
    &&& after.accounting.owned + silent_bytes(s, config, now_ns) == before.accounting.owned
    &&& after.accounting.peak == before.accounting.peak
    &&& after.accounting.jobs == before.accounting.jobs
    &&& forall|x: LedgerEntry|
        after.accounting.holds(x) == (before.accounting.holds(x) && !silent_owns(s, config, now_ns, x))
}

impl UdpServerState {
    /// Gives up every session that has been silent for too long.
    pub(crate) fn give_up(&mut self, ram: &mut LocalRam, metrics: &mut Metrics, config: &Config, now_ns: u64)
        requires
            old(self).wf(),
            old(ram).wf(),
            old(metrics).wf(),
            old(self).backed(old(ram).accounting),
        ensures
            final(self).wf(),
            final(ram).wf(),
            final(metrics).wf(),
            final(self).backed(final(ram).accounting),
            final(self).finishing == old(self).finishing,
            final(self).completed == old(self).completed,
            final(self).active_reads == old(self).active_reads,
            final(self).sessions() == lively(old(self).sessions(), config@, now_ns),
            final(metrics)@ == silent_metrics(old(metrics)@, old(self).sessions(), config@, now_ns),
            silenced(*old(ram), *final(ram), old(self).sessions(), config@, now_ns),
    {
        let ghost all = self.sessions();
        let ghost before = *self;
        let ghost ram0 = *ram;
        let ghost metrics0 = metrics@;
        let ghost c = config@;
        let allowed: u64 = capped_product(config.udp_initial_rto_ms, config.udp_max_retries as u64 + 2);
        let expiry: u64 = if allowed < 30_000 {
            30_000
        } else {
            allowed
        };
        proof {
            assert(expiry == incoming_expiry(c));
        }
        let mut i: usize = 0;
        let ghost mut k: int = 0;
        proof {
            assert(all.take(0) =~= Seq::<(SessionKey, SessionView)>::empty());
            assert(lively(all.take(0), c, now_ns) + all.skip(0) =~= all);
        }
        while i < self.incoming.len()
            invariant
                self.wf(),
                ram.wf(),
                metrics.wf(),
                self.backed(ram.accounting),
                self.finishing == before.finishing,
                self.completed == before.completed,
                self.active_reads == before.active_reads,
                expiry == incoming_expiry(c),
                0 <= k <= all.len(),
                i == lively(all.take(k), c, now_ns).len(),
                self.sessions() == lively(all.take(k), c, now_ns) + all.skip(k),
                metrics@ == silent_metrics(metrics0, all.take(k), c, now_ns),
                silenced(ram0, *ram, all.take(k), c, now_ns),
                forall|j: int| 0 <= j < all.len() ==> (#[trigger] all[j]).1.entry.bytes == all[j].1.buffer.len(),
            decreases all.len() - k,
        {
            let ghost kept = lively(all.take(k), c, now_ns);
            let ghost part = all.take(k);
            let ghost next = all.take(k + 1);
            proof {
                assert(self.sessions().len() == self.incoming@.len());
                assert(self.sessions()[i as int] == all[k]);
                assert(next.drop_last() =~= part);
                assert(next.last() == all[k]);
            }
            let then: u64 = self.incoming.value_at(i).last_activity;
            let object: Uuid = self.incoming.value_at(i).object;
            let age: u64 = if now_ns >= then {
                now_ns - then
            } else {
                0
            };
            let ghost ram1 = *ram;
            if age as u128 >= expiry as u128 * 1_000_000 {
                self.drop_session(ram, i);
                let m: &mut JobMetrics = metrics.job(object);
                m.active_transfer_sessions = m.active_transfer_sessions.saturating_sub(1);
                m.failed_transfers = sum(m.failed_transfers, 1);
                proof {
                    assert((kept + all.skip(k)).remove(i as int) =~= kept + all.skip(k + 1));
                    assert(silent(all[k].1, c, now_ns));
                    assert forall|x: LedgerEntry|
                        silent_owns(next, c, now_ns, x) == (silent_owns(part, c, now_ns, x) || x == all[k].1.entry) by {
                        assert(next[k] == all[k]);
                        if silent_owns(part, c, now_ns, x) {
                            let j = choose|j: int|
                                0 <= j < part.len() && silent((#[trigger] part[j]).1, c, now_ns) && part[j].1.entry == x;
                            assert(next[j] == part[j]);
                        }
                        if silent_owns(next, c, now_ns, x) {
                            let j = choose|j: int|
                                0 <= j < next.len() && silent((#[trigger] next[j]).1, c, now_ns) && next[j].1.entry == x;
                            if j < k {
                                assert(part[j] == next[j]);
                            }
                        }
                    }
                }
            } else {
                proof {
                    assert(!silent(all[k].1, c, now_ns));
                    assert(kept + all.skip(k) =~= kept.push(all[k]) + all.skip(k + 1));
                    assert forall|x: LedgerEntry|
                        silent_owns(next, c, now_ns, x) == silent_owns(part, c, now_ns, x) by {
                        if silent_owns(part, c, now_ns, x) {
                            let j = choose|j: int|
                                0 <= j < part.len() && silent((#[trigger] part[j]).1, c, now_ns) && part[j].1.entry == x;
                            assert(next[j] == part[j]);
                        }
                        if silent_owns(next, c, now_ns, x) {
                            let j = choose|j: int|
                                0 <= j < next.len() && silent((#[trigger] next[j]).1, c, now_ns) && next[j].1.entry == x;
                            assert(part[j] == next[j]);
                        }
                    }
                }
                i = i + 1;
            }
            proof {
                k = k + 1;
            }
        }
        proof {
            assert(self.sessions().len() == self.incoming@.len());
            assert(k == all.len());
            assert(all.take(k) =~= all);
            assert(self.sessions() =~= lively(all, c, now_ns));
        }
    }
}

} // verus!
