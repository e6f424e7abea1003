//! Sending a chunk from its start to its end: what goes out next, and what the
//! answers, or their absence, lead to.
use crate::arith::capped;
use crate::bytes::{be, lemma_be_len, lemma_value_of_be, lemma_widths};
use crate::config::{Config, ConfigView};
use crate::digest::blake3_digest;
use crate::error::Error;
use crate::ids::Uuid;
use crate::memory::block::BlockState;
use crate::memory::local_ram::{lease_check, BlockView};
use crate::runtime::session::SessionView;
use crate::runtime::udp::{agrees, law_open_session_agrees, law_reassembly, opened, piece, start_check};
use crate::transport::sender::{
    all_acknowledged, chunk_flags, data_counted, fin_again, fin_counted, fin_heard_of, heard_of, lemma_begins_within,
    round_ended, send_check,
    slowdown, start_again, start_counted, start_heard_of, window_opened, Estimate, Heard, SendPayload, Sender, Started,
    Times,
};
use crate::transport::udp::{handle_packet, no_stats, Kind, Packet, PacketView};
use vstd::prelude::*;

verus! {

/// Packets that go out in one burst.
pub const BURST: u64 = 32;

/// How far a chunk has come.
#[derive(Clone, Copy, Debug, PartialEq, Eq, Structural)]
pub enum Phase {
    /// The receiver has yet to answer the start.
    Opening,
    /// A round goes out; packets before `from` are dealt with.
    Sending { from: usize, sent: u64 },
    /// The round is out, and answers are awaited.
    Listening,
    /// The receiver has yet to confirm the end.
    Closing,
    /// The receiver has the chunk.
    Closed,
}

/// What to do next.
pub enum Turn {
    /// Send this, and wait for an answer.
    Ask { packet: Packet },
    /// Send this and go on, not before so many microseconds into the round.
    Tell { packet: Packet, pace: Option<u64> },
    /// Listen, not before so many microseconds into the round.
    Listen { after: u64 },
    /// Nothing is left to do.
    Done,
}

/// A chunk on its way out.
pub struct Transmission {
    pub sender: Sender,
    pub phase: Phase,
}

/// The start of a chunk.
pub open spec fn start_of(a: Sender) -> PacketView {
    PacketView {
        flags: chunk_flags(a.request.read_response),
        sequence_id: a.packet_count as u32,
        offset: a.request.offset,
        payload: be(a.request.payload@.len(), 8) + blake3_digest(a.request.payload@),
        ..handle_packet(Kind::Start, a.request.handle@, a.request.transfer_id)
    }
}

/// Packet `sequence` of a chunk.
pub open spec fn data_of(a: Sender, sequence: int) -> PacketView {
    PacketView {
        flags: chunk_flags(a.request.read_response),
        sequence_id: sequence as u32,
        offset: (a.request.offset + sequence * a.payload_bytes) as u64,
        payload: piece(a.request.payload@, a.payload_bytes as nat, sequence),
        ..handle_packet(Kind::Data, a.request.handle@, a.request.transfer_id)
    }
}

/// The end of a chunk.
pub open spec fn fin_of(a: Sender) -> PacketView {
    PacketView {
        flags: chunk_flags(a.request.read_response),
        sequence_id: a.packet_count as u32,
        offset: a.request.offset,
        payload: blake3_digest(a.request.payload@),
        ..handle_packet(Kind::Fin, a.request.handle@, a.request.transfer_id)
    }
}

/// How many microseconds into a round so many packets should have taken.
pub open spec fn pace_of(a: Sender, sent: u64) -> u64 {
    capped(capped(a.pacing_micros * slowdown(a.round as int)) * sent)
}

/// What goes out next.
pub open spec fn turned(a: Transmission, z: Transmission, r: Turn) -> bool {
    match a.phase {
        Phase::Opening => {
            &&& z == (Transmission { sender: start_counted(a.sender), ..a })
            &&& r matches Turn::Ask { packet }
            &&& packet@ == start_of(a.sender)
        },
        Phase::Sending { from, sent } => if all_acknowledged(a.sender.acknowledged@, from as int, a.sender.end as int) {
            &&& z == (Transmission { phase: Phase::Listening, ..a })
            &&& r == Turn::Listen { after: pace_of(a.sender, sent) }
        } else {
            &&& r matches Turn::Tell { packet, pace }
            &&& z.phase matches Phase::Sending { from: next, sent: count }
            &&& from < next <= a.sender.end
            &&& !a.sender.acknowledged@[next - 1]
            &&& all_acknowledged(a.sender.acknowledged@, from as int, next - 1)
            &&& packet@ == data_of(a.sender, next - 1)
            &&& z.sender == data_counted(a.sender, packet@.payload.len() as u64)
            &&& count == sent + 1
            &&& pace == if count % BURST == 0 {
                Some(pace_of(a.sender, count))
            } else {
                None
            }
        },
        Phase::Listening => z == a && r == (Turn::Listen { after: 0 }),
        Phase::Closing => {
            &&& z == (Transmission { sender: fin_counted(a.sender), ..a })
            &&& r matches Turn::Ask { packet }
            &&& packet@ == fin_of(a.sender)
        },
        Phase::Closed => z == a && r == Turn::Done,
    }
}

/// Where a sender goes on: with the packets of its window that are not
/// acknowledged, with a later window, or with the end.
pub open spec fn advanced(a: Sender) -> Transmission
    decreases a.packet_count - a.end,
{
    if !all_acknowledged(a.acknowledged@, a.base as int, a.end as int) {
        Transmission { sender: a, phase: Phase::Sending { from: a.base, sent: 0 } }
    } else if a.end < a.packet_count && a.window > 0 {
        advanced(window_opened(a))
    } else {
        Transmission { sender: a, phase: Phase::Closing }
    }
}

/// Where a sender goes on after a round.
pub open spec fn after_round(a: Sender, z: Transmission, r: Result<bool, Error>, sampled: bool) -> bool {
    if a.round >= a.max_retries {
        r == Err::<bool, Error>(Error::RetryTimeout)
    } else {
        r == Ok::<bool, Error>(sampled) && z == advanced(round_ended(a))
    }
}

/// What silence, or a stranger in place of the receiver, leads to.
pub open spec fn missed(a: Transmission, z: Transmission, r: Result<bool, Error>) -> bool {
    match a.phase {
        Phase::Opening => if a.sender.retries >= a.sender.max_retries {
            r == Err::<bool, Error>(Error::StartTimeout)
        } else {
            r == Ok::<bool, Error>(false) && z == (Transmission { sender: start_again(a.sender), ..a })
        },
        Phase::Closing => if a.sender.attempt >= a.sender.max_retries {
            r == Err::<bool, Error>(Error::FinTimeout)
        } else {
            r == Ok::<bool, Error>(false) && z == (Transmission { sender: fin_again(a.sender), ..a })
        },
        _ => r == Ok::<bool, Error>(false) && z == a,
    }
}

/// What the end of the wait leads to.
pub open spec fn waited(a: Transmission, z: Transmission, r: Result<bool, Error>) -> bool {
    if a.phase is Listening {
        after_round(a.sender, z, r, false)
    } else {
        missed(a, z, r)
    }
}

/// What a packet of the receiver leads to.
pub open spec fn answered(
    a: Transmission,
    z: Transmission,
    p: PacketView,
    sample: Estimate,
    times: Times,
    r: Result<bool, Error>,
) -> bool {
    match a.phase {
        Phase::Opening => exists|mid: Sender, step: Result<Started, Error>| #[trigger]
            start_heard_of(a.sender, mid, p, sample, step) && match step {
                Err(e) => r == Err::<bool, Error>(e),
                Ok(Started::Again) => r == Ok::<bool, Error>(false) && z == (Transmission { sender: mid, ..a }),
                Ok(Started::Ready { sampled }) => r == Ok::<bool, Error>(sampled) && z == advanced(mid),
            },
        Phase::Listening => exists|mid: Sender, step: Result<Heard, Error>| #[trigger]
            heard_of(a.sender, mid, p, sample, step) && match step {
                Err(e) => r == Err::<bool, Error>(e),
                Ok(Heard::RoundOver) => after_round(mid, z, r, false),
                Ok(Heard::More { sampled }) => if all_acknowledged(
                    mid.acknowledged@,
                    mid.base as int,
                    mid.end as int,
                ) {
                    after_round(mid, z, r, sampled)
                } else {
                    r == Ok::<bool, Error>(sampled) && z == (Transmission { sender: mid, ..a })
                },
            },
        Phase::Closing => exists|mid: Sender, step: Result<bool, Error>| #[trigger]
            fin_heard_of(a.sender, mid, p, times, step) && match step {
                Err(e) => r == Err::<bool, Error>(e),
                Ok(true) => r == Ok::<bool, Error>(false) && z == (Transmission { sender: mid, phase: Phase::Closed }),
                Ok(false) => missed(Transmission { sender: mid, ..a }, z, r),
            },
        _ => r == Ok::<bool, Error>(false) && z == a,
    }
}

impl Transmission {
    /// The packets of a round are of its window, and the end goes out only when
    /// all packets are acknowledged.
    pub open spec fn wf(&self) -> bool {
        &&& self.sender.wf()
        &&& match self.phase {
            Phase::Sending { from, sent } => self.sender.base <= from <= self.sender.end && sent <= from
                - self.sender.base,
            _ => true,
        }
        &&& (self.phase is Closing || self.phase is Closed) ==> all_acknowledged(
            self.sender.acknowledged@,
            0,
            self.sender.packet_count as int,
        )
    }

    /// Begins to send a chunk.
    pub fn begin(request: SendPayload, config: &Config) -> (r: Result<Self, Error>)
        requires
            config@.valid(),
        ensures
            match r {
                Ok(t) => {
                    &&& send_check(request.handle@, request.offset, request.payload@.len(), config@) is None
                    &&& t.wf()
                    &&& t.phase == Phase::Opening
                    &&& t.sender.request == request
                    &&& t.sender.payload_bytes == config.udp_payload_bytes
                    &&& t.sender.pacing_micros == config.udp_pacing_micros
                    &&& t.sender.max_retries == config.udp_max_retries
                    &&& t.sender.window == config.udp_window_packets
                    &&& t.sender.rto_ns == config.udp_initial_rto_ms * 1_000_000
                    &&& t.sender.acknowledged@ == Seq::new(t.sender.packet_count as nat, |i: int| false)
                    &&& t.sender.end == 0
                    &&& t.sender.retries == 0
                    &&& t.sender.attempt == 0
                    &&& t.sender.stats == no_stats()
                },
                Err(e) => send_check(request.handle@, request.offset, request.payload@.len(), config@) == Some(e),
            },
    {
        match Sender::begin(request, config) {
            Ok(sender) => Ok(Transmission { sender, phase: Phase::Opening }),
            Err(e) => Err(e),
        }
    }

    /// What goes out next.
    pub fn turn(&mut self) -> (r: Turn)
        requires
            old(self).wf(),
        ensures
            final(self).wf(),
            turned(*old(self), *final(self), r),
    {
        match self.phase {
            Phase::Opening => {
                let packet: Packet = self.sender.start_packet();
                self.sender.start_sent();
                Turn::Ask { packet }
            },
            Phase::Sending { from, sent } => {
                match self.sender.next_packet(from) {
                    Some(sequence) => {
                        let packet: Packet = self.sender.data_packet(sequence);
                        let count: u64 = sent + 1;
                        let pace: Option<u64> = if count % BURST == 0 {
                            Some(self.sender.pace(count))
                        } else {
                            None
                        };
                        let length: usize = packet.payload.len();
                        self.sender.data_sent(length);
                        self.phase = Phase::Sending { from: sequence + 1, sent: count };
                        Turn::Tell { packet, pace }
                    },
                    None => {
                        let after: u64 = self.sender.pace(sent);
                        self.phase = Phase::Listening;
                        Turn::Listen { after }
                    },
                }
            },
            Phase::Listening => Turn::Listen { after: 0 },
            Phase::Closing => {
                let packet: Packet = self.sender.fin_packet();
                self.sender.fin_sent();
                Turn::Ask { packet }
            },
            Phase::Closed => Turn::Done,
        }
    }

    /// Goes on with what is left.
    fn advance(&mut self)
        requires
            old(self).sender.wf(),
        ensures
            final(self).wf(),
            *final(self) == advanced(old(self).sender),
    {
        let ghost first = self.sender;
        while !self.sender.window_open()
            invariant
                first == old(self).sender,
                self.sender.wf(),
                advanced(self.sender) == advanced(first),
            decreases self.sender.packet_count - self.sender.end,
        {
            if !self.sender.next_window() {
                self.phase = Phase::Closing;
                return;
            }
        }
        self.phase = Phase::Sending { from: self.sender.base, sent: 0 };
    }

    /// Ends a round and goes on.
    fn finish_round(&mut self, sampled: bool) -> (r: Result<bool, Error>)
        requires
            old(self).sender.wf(),
        ensures
            r is Ok ==> final(self).wf(),
            after_round(old(self).sender, *final(self), r, sampled),
    {
        match self.sender.end_round() {
            Ok(_) => {
                self.advance();
                Ok(sampled)
            },
            Err(e) => Err(e),
        }
    }

    /// Nothing came within the wait.
    pub fn quiet(&mut self) -> (r: Result<bool, Error>)
        requires
            old(self).wf(),
        ensures
            r is Ok ==> final(self).wf(),
            waited(*old(self), *final(self), r),
    {
        match self.phase {
            Phase::Listening => self.finish_round(false),
            _ => self.stranger(),
        }
    }

    /// What came was not from the receiver. A start or an end then goes out
    /// again; between them it is passed over.
    pub fn stranger(&mut self) -> (r: Result<bool, Error>)
        requires
            old(self).wf(),
        ensures
            r is Ok ==> final(self).wf(),
            missed(*old(self), *final(self), r),
    {
        match self.phase {
            Phase::Opening => match self.sender.start_missed() {
                Ok(_) => Ok(false),
                Err(e) => Err(e),
            },
            Phase::Closing => match self.sender.fin_missed() {
                Ok(_) => Ok(false),
                Err(e) => Err(e),
            },
            _ => Ok(false),
        }
    }

    /// Takes a packet of the receiver, and says whether the sample was used.
    pub fn heard(&mut self, packet: &Packet, sample: Estimate, times: Times) -> (r: Result<bool, Error>)
        requires
            old(self).wf(),
        ensures
            r is Ok ==> final(self).wf(),
            answered(*old(self), *final(self), packet@, sample, times, r),
    {
        let ghost a = *self;
        match self.phase {
            Phase::Opening => {
                let step: Result<Started, Error> = self.sender.start_heard(packet, sample);
                assert(start_heard_of(a.sender, self.sender, packet@, sample, step));
                match step {
                    Ok(Started::Ready { sampled }) => {
                        self.advance();
                        Ok(sampled)
                    },
                    Ok(Started::Again) => Ok(false),
                    Err(e) => Err(e),
                }
            },
            Phase::Listening => {
                let step: Result<Heard, Error> = self.sender.heard(packet, sample);
                assert(heard_of(a.sender, self.sender, packet@, sample, step));
                match step {
                    Ok(Heard::RoundOver) => self.finish_round(false),
                    Ok(Heard::More { sampled }) => {
                        if self.sender.window_open() {
                            Ok(sampled)
                        } else {
                            self.finish_round(sampled)
                        }
                    },
                    Err(e) => Err(e),
                }
            },
            Phase::Closing => {
                let step: Result<bool, Error> = self.sender.fin_heard(packet, times);
                assert(fin_heard_of(a.sender, self.sender, packet@, times, step));
                match step {
                    Ok(true) => {
                        self.phase = Phase::Closed;
                        Ok(false)
                    },
                    Ok(false) => self.stranger(),
                    Err(e) => Err(e),
                }
            },
            _ => Ok(false),
        }
    }
}

/// Whether a session at the receiver is one for this chunk, and has taken
/// nothing but what belongs to it.
pub open spec fn receives(a: Sender, s: SessionView) -> bool {
    &&& s.object == a.request.handle.job_id
    &&& s.lease == a.request.handle.lease_token
    &&& s.generation == a.request.handle.generation
    &&& s.base_offset == a.request.offset
    &&& s.block_size == a.request.handle.size
    &&& s.payload_size == a.payload_bytes
    &&& s.packet_count == a.packet_count
    &&& s.checksum == blake3_digest(a.request.payload@)
    &&& agrees(s, a.request.payload@)
}

/// The start of a chunk opens a session for it at a receiver whose block waits
/// for these bytes.
pub proof fn law_start_is_understood(
    a: Sender,
    store: Map<Uuid, BlockView>,
    config: ConfigView,
    ticket: nat,
    now_ms: u64,
    now_ns: u64,
)
    requires
        a.wf(),
        config.valid(),
        config.udp_payload_bytes == a.payload_bytes,
        a.request.payload@.len() <= config.chunk_bytes,
        store.contains_key(a.request.handle.id),
        lease_check(store[a.request.handle.id].handle, a.request.handle.lease_token, now_ms) is Ok,
        store[a.request.handle.id].handle.job_id == a.request.handle.job_id,
        store[a.request.handle.id].handle.generation == a.request.handle.generation,
        store[a.request.handle.id].handle.size == a.request.handle.size,
        store[a.request.handle.id].handle.state == BlockState::Writing,
        store[a.request.handle.id].written == a.request.offset,
    ensures
        start_check(store, start_of(a), config, now_ms) is Ok,
        receives(a, opened(start_of(a), config, ticket, now_ns)),
{
    let p = start_of(a);
    let length = a.request.payload@.len();
    lemma_widths();
    lemma_be_len(length, 8);
    lemma_value_of_be(length, 8);
    assert(a.digest@.len() == 32);
    assert(p.payload.subrange(0, 8) =~= be(length, 8));
    assert(p.payload.subrange(8, 40) =~= blake3_digest(a.request.payload@));
    lemma_count_fits(length as int, a.payload_bytes as int);
    law_open_session_agrees(store, p, config, ticket, now_ms, now_ns, a.request.payload@);
}

/// Whatever packet of a chunk comes, in whatever order and however often, its
/// session takes it and stays one for the chunk; and when all have come the
/// chunk is there, byte for byte, under the digest that the end names.
pub proof fn law_chunk_arrives(a: Sender, s: SessionView, sequence: int, now_ns: u64)
    requires
        a.wf(),
        receives(a, s),
        0 <= sequence < a.packet_count,
    ensures
        s.expects(data_of(a, sequence)),
        s.data_fault(data_of(a, sequence)) is None,
        receives(a, s.touched(now_ns).placed(sequence, data_of(a, sequence).payload)),
        s.received_count == s.packet_count ==> {
            &&& s.buffer == a.request.payload@
            &&& fin_of(a).payload == s.checksum
            &&& blake3_digest(s.buffer) == s.checksum
        },
{
    let length = a.request.payload@.len() as int;
    let t = s.touched(now_ns);
    lemma_begins_within(length, a.payload_bytes as int, sequence);
    lemma_count_fits(length, a.payload_bytes as int);
    assert(agrees(t, a.request.payload@));
    law_reassembly(t, a.request.payload@, sequence);
}

/// A chunk has fewer packets than 32 bits count.
proof fn lemma_count_fits(length: int, size: int)
    requires
        0 < length <= 67_108_864,
        512 <= size <= 1200,
    ensures
        (length + size - 1) / size <= 0xffff_ffff,
{
    assert((length + size - 1) / size <= length + size - 1) by (nonlinear_arith)
        requires
            size >= 1,
            length > 0,
    ;
}

} // verus!
