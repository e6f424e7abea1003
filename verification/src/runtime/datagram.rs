//! Packets at a node: what it answers, and that all else it promised stays.
use crate::address::SocketAddress;
use crate::bytes::{lemma_be_len, slice_of};
use crate::config::ConfigView;
use crate::error::Error;
use crate::ids::Uuid;
use crate::memory::allocator::LedgerEntry;
use crate::metrics::{job_of, plus, JobMetrics};
use crate::runtime::session::{answer, lively, response, silent, silent_owns, SessionKey, SessionView};
use crate::runtime::udp::{
    acted, finish_check, finished, forgot, key_of, looks_at_block, may_finish, served, Counted, Finalization, ReadJob, Scene, UdpAction,
};
use crate::runtime::Runtime;
use crate::table::{keyed, place};
use crate::transport::udp::{
    is_datagram, Kind, Packet, PacketView, TransferStats, ACK_BITS, HEADER_LEN, MAX_DATAGRAM,
};
use vstd::prelude::*;
use vstd::utf8::encode_utf8;

verus! {

/// What a packet asks of the node.
pub enum Outcome {
    Silent,
    /// Send this. A refusal counts as sent whether it goes out or not.
    Reply { wire: Vec<u8>, counted: Counted, refusal: bool },
    /// Send this chunk.
    Serve(ReadJob),
    /// Put this chunk into its block.
    Finalize(Finalization),
}

/// The counters when a datagram of a job came in.
pub open spec fn one_more(m: Map<Uuid, JobMetrics>, job: Uuid) -> Map<Uuid, JobMetrics> {
    let j = job_of(m, job);
    m.insert(job, JobMetrics { udp_datagrams_received: plus(j.udp_datagrams_received, 1), ..j })
}

/// What is answered to a packet that led to `step`. A refusal that does not fit
/// into a datagram is not sent.
pub open spec fn outcome_of(config: ConfigView, p: PacketView, step: Result<UdpAction, Error>, r: Outcome) -> bool {
    match step {
        Ok(UdpAction::Nothing) => r is Silent,
        Ok(UdpAction::Reply { packet, counted }) => {
            &&& r matches Outcome::Reply { wire, counted: c, refusal }
            &&& c == counted
            &&& !refusal
            &&& is_datagram(wire@, packet@, config.cluster_secret)
        },
        Ok(UdpAction::Serve(job)) => r == Outcome::Serve(job),
        Ok(UdpAction::Finalize(chunk)) => r == Outcome::Finalize(chunk),
        Err(e) => {
            let text = encode_utf8(e.text());
            if text.len() + HEADER_LEN > MAX_DATAGRAM {
                r is Silent
            } else {
                &&& r matches Outcome::Reply { wire, counted, refusal }
                &&& counted == Counted::Plain
                &&& refusal
                &&& is_datagram(wire@, answer(p, Kind::Error, text), config.cluster_secret)
            }
        },
    }
}

impl Runtime {
    /// The parts of the node that packets change.
    pub open spec fn scene(&self) -> Scene {
        Scene { server: self.udp_server, ram: self.ram, metrics: self.metrics@ }
    }

    /// Whether a chunk is paid for, apart from all else.
    pub open spec fn finalizes(&self, chunk: Finalization) -> bool {
        &&& chunk.session@.wf()
        &&& self.ram.accounting.holds(chunk.session@.entry)
        &&& !self.udp_server.owns(chunk.session@.entry)
        &&& !self.stages(chunk.session@.entry)
    }
}

/// What a packet leads to at a node.
pub open spec fn packet_taken(
    a: Runtime,
    z: Runtime,
    p: PacketView,
    source: SocketAddress,
    now_ms: u64,
    now_ns: u64,
    r: Outcome,
) -> bool {
    &&& z == (Runtime { udp_server: z.udp_server, ram: z.ram, metrics: z.metrics, ..a })
    &&& exists|mid: Scene, step: Result<UdpAction, Error>|
        {
            &&& #[trigger] acted(mid, z.scene(), a.config@, p, source, now_ms, now_ns, step)
            &&& forgot(Scene { metrics: one_more(a.metrics@, p.object_id), ..a.scene() }, mid, now_ns)
            &&& outcome_of(a.config@, p, step, r)
        }
}

/// Whether a reservation is a session's.
pub open spec fn session_owns(s: Seq<(SessionKey, SessionView)>, e: LedgerEntry) -> bool {
    exists|i: int| 0 <= i < s.len() && (#[trigger] s[i]).1.entry == e
}

/// Sessions that are not given up were there before.
proof fn lemma_lively(s: Seq<(SessionKey, SessionView)>, config: ConfigView, now_ns: u64, e: LedgerEntry)
    ensures
        session_owns(lively(s, config, now_ns), e) ==> session_owns(s, e),
        silent_owns(s, config, now_ns, e) ==> session_owns(s, e),
    decreases s.len(),
{
    if s.len() > 0 {
        let t = s.drop_last();
        lemma_lively(t, config, now_ns, e);
        let l = lively(s, config, now_ns);
        if session_owns(l, e) {
            let i = choose|i: int| 0 <= i < l.len() && (#[trigger] l[i]).1.entry == e;
            let b = lively(t, config, now_ns);
            if i < b.len() {
                assert(b[i].1.entry == e);
                let k = choose|k: int| 0 <= k < t.len() && (#[trigger] t[k]).1.entry == e;
                assert(s[k].1.entry == e);
            } else {
                assert(s[s.len() - 1].1.entry == e);
            }
        }
        if silent_owns(s, config, now_ns, e) {
            let i = choose|i: int|
                0 <= i < s.len() && silent((#[trigger] s[i]).1, config, now_ns) && s[i].1.entry
                    == e;
            assert(s[i].1.entry == e);
        }
    }
}

/// The place of a key is where it is.
proof fn lemma_found(s: Seq<(SessionKey, SessionView)>, key: SessionKey)
    requires
        keyed(s, key),
    ensures
        0 <= place(s, key) < s.len(),
        s[place(s, key)].0 == key,
{
}

/// A packet leaves alone what is not a session's.
proof fn lemma_others_stay(
    a: Scene,
    z: Scene,
    config: ConfigView,
    p: PacketView,
    source: SocketAddress,
    now_ms: u64,
    now_ns: u64,
    step: Result<UdpAction, Error>,
    e: LedgerEntry,
)
    requires
        a.wf(),
        acted(a, z, config, p, source, now_ms, now_ns, step),
        a.ram.accounting.holds(e),
        !a.server.owns(e),
    ensures
        z.ram.accounting.holds(e),
        !z.server.owns(e),
{
    let all = a.server.sessions();
    let at = place(all, key_of(p, source));
    if keyed(all, key_of(p, source)) {
        lemma_found(all, key_of(p, source));
    }
    lemma_lively(all, config, now_ns, e);
    assert(a.server.owns(e) == session_owns(all, e));
    if z.server.owns(e) {
        let s = z.server.sessions();
        let i = choose|i: int| 0 <= i < s.len() && (#[trigger] s[i]).1.entry == e;
        match p.kind {
            Kind::Start => {
                let live = lively(all, config, now_ns);
                if s.len() > live.len() && i == live.len() {
                    let k = choose|k: int|
                        0 <= k < a.ram.accounting.ledger().len() && #[trigger] a.ram.accounting.ledger()[k] == e;
                    assert(a.ram.accounting.ledger()[k].ticket < a.ram.accounting.next_ticket());
                } else if s == all {
                    assert(all[i].1.entry == e);
                } else {
                    assert(live[i].1.entry == e);
                }
            },
            Kind::Data => {
                assert(all[i].1.entry == e);
            },
            Kind::Fin => {
                if s.len() < all.len() {
                    let k = if i < at {
                        i
                    } else {
                        i + 1
                    };
                    assert(all[k].1.entry == e);
                } else {
                    assert(all[i].1.entry == e);
                }
            },
            Kind::Abort => {
                if s.len() < all.len() {
                    let k = if i < at {
                        i
                    } else {
                        i + 1
                    };
                    assert(all[k].1.entry == e);
                } else {
                    assert(all[i].1.entry == e);
                }
            },
            _ => {
                assert(all[i].1.entry == e);
            },
        }
    }
    if p.kind == Kind::Abort && keyed(all, key_of(p, source)) {
        assert(all[at].1.entry != e);
    }
}

/// A packet leaves committed blocks as they are.
proof fn lemma_intact_stays(
    a: Scene,
    z: Scene,
    config: ConfigView,
    p: PacketView,
    source: SocketAddress,
    now_ms: u64,
    now_ns: u64,
    step: Result<UdpAction, Error>,
)
    requires
        a.ram.intact(),
        acted(a, z, config, p, source, now_ms, now_ns, step),
    ensures
        z.ram.intact(),
{
}

/// The replies of the receiver are short.
proof fn lemma_reply_fits(
    a: Scene,
    z: Scene,
    config: ConfigView,
    p: PacketView,
    source: SocketAddress,
    now_ms: u64,
    now_ns: u64,
    packet: Packet,
    counted: Counted,
)
    requires
        acted(a, z, config, p, source, now_ms, now_ns, Ok(UdpAction::Reply { packet, counted })),
    ensures
        packet@.payload.len() <= 38,
{
    lemma_be_len(
        if config.udp_window_packets <= ACK_BITS {
            config.udp_window_packets as nat
        } else {
            ACK_BITS as nat
        },
        2,
    );
}

impl Runtime {
    /// A node is whole after a change of its receiver, its store and its
    /// counters that leaves alone what is not a session's.
    proof fn lemma_packet_taken(self, after: Self)
        requires
            self.wf(),
            after == (Runtime { udp_server: after.udp_server, ram: after.ram, metrics: after.metrics, ..self }),
            after.udp_server.wf(),
            after.ram.wf(),
            after.ram.intact(),
            after.metrics.wf(),
            after.udp_server.backed(after.ram.accounting),
            forall|e: LedgerEntry|
                self.ram.accounting.holds(e) && !self.udp_server.owns(e) && self.stages(e)
                    ==> #[trigger] after.ram.accounting.holds(e) && !after.udp_server.owns(e),
        ensures
            after.wf(),
    {
        assert forall|k: Uuid| #[trigger] after.staging@.contains_key(k) implies {
            &&& after.ram.accounting.holds(after.staging@[k].reservation.entry())
            &&& after.staging@[k].reservation.entry().job is None
            &&& !after.udp_server.owns(after.staging@[k].reservation.entry())
        } by {
            let e = self.staging@[k].reservation.entry();
            assert(self.ram.accounting.holds(e));
            assert(self.stages(e));
            assert(after.ram.accounting.holds(e));
        }
    }

    /// The datagram of a packet of this node.
    fn seal(&self, packet: &Packet) -> (r: Result<Vec<u8>, Error>)
        ensures
            match r {
                Ok(d) => is_datagram(d@, packet@, self.config@.cluster_secret),
                Err(e) => packet@.payload.len() + HEADER_LEN > MAX_DATAGRAM,
            },
    {
        match &self.config.cluster_secret {
            Some(secret) => packet.encode(Some(secret.as_str())),
            None => packet.encode(None),
        }
    }

    /// Takes a packet: counts it, does what its kind asks for, and says what
    /// is to be answered.
    pub fn udp_datagram(&mut self, packet: &Packet, source: SocketAddress, now_ms: u64, now_ns: u64) -> (r: Outcome)
        requires
            old(self).wf(),
            looks_at_block(packet@) ==> !old(self).ram.held(packet.block_id),
        ensures
            final(self).wf(),
            packet_taken(*old(self), *final(self), packet@, source, now_ms, now_ns, r),
            r matches Outcome::Finalize(chunk) ==> {
                &&& final(self).finalizes(chunk)
                &&& chunk.packet.block_id == packet.block_id
                &&& final(self).ram@ == old(self).ram@
            },
    {
        let ghost a = *self;
        self.metrics.count_datagram(packet.object_id);
        let ghost b = Scene { metrics: self.metrics@, ..a.scene() };
        let step: Result<UdpAction, Error> = self.udp_server.handle_udp_packet(
            &mut self.ram,
            &mut self.metrics,
            &self.config,
            packet,
            source,
            now_ms,
            now_ns,
        );
        let ghost mid = choose|mid: Scene|
            {
                &&& #[trigger] forgot(b, mid, now_ns)
                &&& acted(mid, self.scene(), self.config@, packet@, source, now_ms, now_ns, step)
            };
        proof {
            assert(mid.server.sessions() == a.udp_server.sessions());
            lemma_intact_stays(mid, self.scene(), self.config@, packet@, source, now_ms, now_ns, step);
            assert forall|e: LedgerEntry|
                a.ram.accounting.holds(e) && !a.udp_server.owns(e) && a.stages(e) implies #[trigger]
            self.ram.accounting.holds(e) && !self.udp_server.owns(e) by {
                assert(!mid.server.owns(e));
                lemma_others_stay(mid, self.scene(), self.config@, packet@, source, now_ms, now_ns, step, e);
            }
            a.lemma_packet_taken(*self);
        }
        match step {
            Ok(UdpAction::Nothing) => Outcome::Silent,
            Ok(UdpAction::Reply { packet: reply, counted }) => {
                proof {
                    lemma_reply_fits(
                        mid,
                        self.scene(),
                        self.config@,
                        packet@,
                        source,
                        now_ms,
                        now_ns,
                        reply,
                        counted,
                    );
                }
                match self.seal(&reply) {
                    Ok(wire) => Outcome::Reply { wire, counted, refusal: false },
                    Err(_) => Outcome::Silent,
                }
            },
            Ok(UdpAction::Serve(job)) => Outcome::Serve(job),
            Ok(UdpAction::Finalize(chunk)) => {
                proof {
                    let e = chunk.session@.entry;
                    let all = mid.server.sessions();
                    let at = place(all, key_of(packet@, source));
                    lemma_found(all, key_of(packet@, source));
                    assert(all[at].1.entry == e);
                    assert(a.udp_server.sessions()[at].1.entry == e);
                    assert(a.udp_server.owns(e));
                    assert(a.udp_server.sessions()[at].1.wf());
                    assert(!self.stages(e));
                }
                Outcome::Finalize(chunk)
            },
            Err(e) => {
                let text: String = e.message();
                let bytes: &[u8] = text.as_str().as_bytes();
                let payload: Vec<u8> = slice_of(bytes, 0, bytes.len());
                proof {
                    assert(payload@ =~= encode_utf8(e.text()));
                }
                let reply: Packet = response(packet, Kind::Error, payload);
                match self.seal(&reply) {
                    Ok(wire) => Outcome::Reply { wire, counted: Counted::Plain, refusal: true },
                    Err(_) => Outcome::Silent,
                }
            },
        }
    }

    /// Whether a whole chunk fits into its block, where it may go there.
    pub fn chunk_fits(&self, chunk: &Finalization, now_ms: u64) -> (r: bool)
        requires
            self.wf(),
        ensures
            r == (finish_check(self.ram@, chunk.packet@, chunk.session@, now_ms) is Ok ==> chunk.session@.base_offset
                + chunk.session@.buffer.len() <= self.ram@[chunk.packet.block_id].bytes.len()),
    {
        match may_finish(&self.ram, &chunk.packet, &chunk.session, now_ms) {
            Err(_) => true,
            Ok(_) => match self.ram.get(chunk.packet.block_id) {
                Ok(b) => chunk.session.buffer.len() <= b.bytes.len() && chunk.session.base_offset <= (b.bytes.len()
                    - chunk.session.buffer.len()) as u64,
                Err(_) => true,
            },
        }
    }

    /// Puts a whole chunk into its block, if the block is still as it was, and
    /// says what is to be answered.
    pub fn udp_finish(&mut self, chunk: Finalization, now_ms: u64, now_ns: u64) -> (r: Result<Packet, Error>)
        requires
            old(self).wf(),
            old(self).finalizes(chunk),
            !old(self).ram.held(chunk.packet.block_id),
            finish_check(old(self).ram@, chunk.packet@, chunk.session@, now_ms) is Ok ==> chunk.session@.base_offset
                + chunk.session@.buffer.len() <= old(self).ram@[chunk.packet.block_id].bytes.len(),
        ensures
            final(self).wf(),
            *final(self) == (Runtime {
                udp_server: final(self).udp_server,
                ram: final(self).ram,
                metrics: final(self).metrics,
                ..*old(self)
            }),
            finished(
                old(self).scene(),
                final(self).scene(),
                old(self).config@,
                chunk.key,
                chunk.packet@,
                chunk.session@,
                now_ms,
                now_ns,
                r,
            ),
    {
        let ghost a = *self;
        let ghost e = chunk.session@.entry;
        let r: Result<Packet, Error> = self.udp_server.finish(
            &mut self.ram,
            &mut self.metrics,
            &self.config,
            chunk,
            now_ms,
            now_ns,
        );
        proof {
            assert forall|x: LedgerEntry|
                a.ram.accounting.holds(x) && !a.udp_server.owns(x) && a.stages(x) implies #[trigger]
            self.ram.accounting.holds(x) && !self.udp_server.owns(x) by {
                assert(x != e);
                assert(self.udp_server.sessions() == a.udp_server.sessions());
            }
            a.lemma_packet_taken(*self);
        }
        r
    }

    /// Ends a read that was being served.
    pub fn udp_served(&mut self, job: Uuid, outcome: Option<TransferStats>)
        requires
            old(self).wf(),
        ensures
            final(self).wf(),
            *final(self) == (Runtime {
                udp_server: final(self).udp_server,
                metrics: final(self).metrics,
                ..*old(self)
            }),
            final(self).udp_server.sessions() == old(self).udp_server.sessions(),
            final(self).udp_server.finishing == old(self).udp_server.finishing,
            final(self).udp_server.completed == old(self).udp_server.completed,
            final(self).udp_server.active_reads == if old(self).udp_server.active_reads == 0 {
                0
            } else {
                old(self).udp_server.active_reads - 1
            },
            final(self).metrics@ == served(old(self).metrics@, job, outcome),
    {
        let ghost a = *self;
        self.udp_server.finish_read(&mut self.metrics, job, outcome);
        proof {
            assert(self.udp_server.sessions() == a.udp_server.sessions());
            a.lemma_packet_taken(*self);
        }
    }
}

} // verus!
