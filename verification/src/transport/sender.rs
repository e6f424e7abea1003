//! Sending a chunk over UDP: a handshake, windows of packets of which only the
//! missing ones are sent again, and an end that the receiver confirms.
use crate::arith::{capped, capped_product};
use crate::bytes::{be, be_value, lemma_widths, push_all, push_be, read_be, slice_of};
use crate::config::{Config, ConfigView};
use crate::digest::{blake3_digest, blake3_hash};
use crate::double::Double;
use crate::error::Error;
use crate::ids::Uuid;
use crate::memory::block::{HandleView, MemoryBlockHandle};
use crate::metrics::{plus, sum};
use crate::runtime::session::packets;
use crate::runtime::udp::piece;
use crate::text::{lossy_text, utf8_lossy};
use crate::transport::udp::{
    bitmap_contains, handle_packet, marks, no_stats, parse_bitmap, Kind, Packet, PacketView, TransferStats, ACK_BITS,
};
use vstd::prelude::*;

verus! {

/// The longest wait for an answer, in nanoseconds.
pub const MAX_RTO: u64 = 2_000_000_000;

/// The smallest window.
pub const MIN_WINDOW: usize = 2;

/// A chunk to be sent.
pub struct SendPayload {
    pub handle: MemoryBlockHandle,
    pub transfer_id: Uuid,
    pub offset: u64,
    pub payload: Vec<u8>,
    /// It answers a read.
    pub read_response: bool,
}

/// What is known of the round trip after a sample: how long to wait from now
/// on, in nanoseconds, and the smoothed time in milliseconds.
#[derive(Clone, Copy, Debug, PartialEq, Eq, Structural)]
pub struct Estimate {
    pub rto_ns: u64,
    pub rtt_ms: Double,
}

/// What is known of the times of a chunk at its end, in milliseconds.
#[derive(Clone, Copy, Debug, PartialEq, Eq, Structural)]
pub struct Times {
    pub rto_ms: Double,
    pub rtt_ms: Double,
    pub elapsed_ms: Double,
}

/// A chunk being sent.
pub struct Sender {
    pub request: SendPayload,
    pub digest: [u8; 32],
    pub payload_bytes: usize,
    pub pacing_micros: u64,
    pub max_retries: u32,
    pub packet_count: usize,
    pub window: usize,
    /// How long to wait for an answer, in nanoseconds.
    pub rto_ns: u64,
    pub acknowledged: Vec<bool>,
    /// The packets under way are those from `base` to `end`.
    pub base: usize,
    pub end: usize,
    pub round: u32,
    pub sampled: bool,
    pub retries: u32,
    pub attempt: u32,
    pub stats: TransferStats,
}

/// What stands in the way of sending a chunk.
pub open spec fn send_check(h: HandleView, offset: u64, length: nat, config: ConfigView) -> Option<Error> {
    if length == 0 {
        Some(Error::TransferEmpty)
    } else if length > config.chunk_bytes {
        Some(Error::TransferTooLong)
    } else if offset + length > h.size {
        Some(Error::TransferRange)
    } else {
        None
    }
}

/// The flags of the packets of a chunk.
pub open spec fn chunk_flags(read_response: bool) -> u16 {
    if read_response {
        1
    } else {
        0
    }
}

/// A wait that is twice as long, up to the longest.
pub open spec fn longer(rto_ns: u64) -> u64 {
    if rto_ns * 2 > MAX_RTO {
        MAX_RTO
    } else {
        (rto_ns * 2) as u64
    }
}

fn wait_longer(rto_ns: u64) -> (r: u64)
    ensures
        r == longer(rto_ns),
{
    if rto_ns > MAX_RTO / 2 {
        MAX_RTO
    } else {
        rto_ns * 2
    }
}

/// A window that the receiver has a say in.
pub open spec fn agreed(window: usize, receiver: nat) -> usize {
    let theirs: nat = if receiver >= MIN_WINDOW {
        receiver
    } else {
        MIN_WINDOW as nat
    };
    if window <= theirs {
        window
    } else {
        theirs as usize
    }
}

fn agree(window: usize, receiver: usize) -> (r: usize)
    ensures
        r == agreed(window, receiver as nat),
{
    let theirs: usize = if receiver >= MIN_WINDOW {
        receiver
    } else {
        MIN_WINDOW
    };
    if window <= theirs {
        window
    } else {
        theirs
    }
}

/// Whether all packets from `base` to `end` are acknowledged.
pub open spec fn all_acknowledged(a: Seq<bool>, base: int, end: int) -> bool {
    forall|i: int| base <= i < end ==> #[trigger] a[i]
}

/// What an acknowledgement adds: the packets that it marks.
pub open spec fn acked(a: Seq<bool>, first: int, bitmap: Seq<u8>) -> Seq<bool> {
    Seq::new(
        a.len(),
        |i: int| a[i] || first <= i < first + ACK_BITS && marks(bitmap, i - first),
    )
}

/// What a complaint adds: the packets under way that it does not mark.
pub open spec fn nacked(a: Seq<bool>, base: int, end: int, first: int, bitmap: Seq<u8>) -> Seq<bool> {
    Seq::new(
        a.len(),
        |i: int| a[i] || base <= i < end && first <= i < first + ACK_BITS && !marks(bitmap, i - first),
    )
}

/// What an answer to a start leads to.
#[derive(Clone, Copy, Debug, PartialEq, Eq, Structural)]
pub enum Started {
    /// The receiver is ready; the sample was used or not.
    Ready { sampled: bool },
    /// The answer was not for this; the start is sent again.
    Again,
}

/// What an answer in the middle of a round leads to.
#[derive(Clone, Copy, Debug, PartialEq, Eq, Structural)]
pub enum Heard {
    /// Go on listening; the sample was used or not.
    More { sampled: bool },
    /// The round is over.
    RoundOver,
}

/// A sender whose start went out.
pub open spec fn start_counted(a: Sender) -> Sender {
    Sender { stats: TransferStats { datagrams_sent: plus(a.stats.datagrams_sent, 1), ..a.stats }, ..a }
}

/// A sender whose start was not answered.
pub open spec fn start_again(a: Sender) -> Sender {
    Sender {
        retries: (a.retries + 1) as u32,
        rto_ns: longer(a.rto_ns),
        stats: TransferStats { retransmitted_datagrams: plus(a.stats.retransmitted_datagrams, 1), ..a.stats },
        ..a
    }
}

/// The counters when a packet was heard.
pub open spec fn counted(a: Sender) -> TransferStats {
    TransferStats { datagrams_received: plus(a.stats.datagrams_received, 1), ..a.stats }
}

/// What an answer to a start leads to.
pub open spec fn start_heard_of(a: Sender, z: Sender, p: PacketView, sample: Estimate, r: Result<Started, Error>) -> bool {
    let mine = p.transfer_id == a.request.transfer_id;
    let heard = counted(a);
    let first = a.retries == 0;
    if mine && p.kind == Kind::StartAck {
        &&& r == Ok::<Started, Error>(Started::Ready { sampled: first })
        &&& z == (Sender {
            window: if p.payload.len() == 2 {
                agreed(a.window, be_value(p.payload))
            } else {
                a.window
            },
            rto_ns: if first {
                sample.rto_ns
            } else {
                a.rto_ns
            },
            stats: TransferStats {
                ack_count: plus(heard.ack_count, 1),
                estimated_rtt_ms: if first {
                    sample.rtt_ms
                } else {
                    heard.estimated_rtt_ms
                },
                ..heard
            },
            ..a
        })
    } else if mine && p.kind == Kind::Error {
        r matches Err(e) && e.text() == utf8_lossy(p.payload)
    } else {
        &&& r == Ok::<Started, Error>(Started::Again)
        &&& z == (Sender { stats: heard, ..a })
    }
}

/// A sender that goes on to the next window.
pub open spec fn window_opened(a: Sender) -> Sender {
    Sender {
        base: a.end,
        end: if a.end + a.window < a.packet_count {
            (a.end + a.window) as usize
        } else {
            a.packet_count
        },
        round: 0,
        sampled: false,
        ..a
    }
}

/// A sender that sent a packet of the chunk.
pub open spec fn data_counted(a: Sender, length: u64) -> Sender {
    let sent = TransferStats { datagrams_sent: plus(a.stats.datagrams_sent, 1), ..a.stats };
    Sender {
        stats: if a.round > 0 {
            TransferStats {
                retransmitted_datagrams: plus(a.stats.retransmitted_datagrams, 1),
                retransmitted_bytes: plus(a.stats.retransmitted_bytes, length),
                ..sent
            }
        } else {
            TransferStats { payload_bytes: plus(a.stats.payload_bytes, length), ..sent }
        },
        ..a
    }
}

/// A sender at the end of a round.
pub open spec fn round_ended(a: Sender) -> Sender {
    Sender {
        round: (a.round + 1) as u32,
        sampled: false,
        rto_ns: if a.round > 0 {
            longer(a.rto_ns)
        } else {
            a.rto_ns
        },
        window: if a.round > 0 {
            if a.window / 2 >= MIN_WINDOW {
                a.window / 2
            } else {
                MIN_WINDOW
            }
        } else {
            a.window
        },
        ..a
    }
}

/// A sender whose end went out.
pub open spec fn fin_counted(a: Sender) -> Sender {
    Sender {
        stats: TransferStats {
            datagrams_sent: plus(a.stats.datagrams_sent, 1),
            retransmitted_datagrams: if a.attempt > 0 {
                plus(a.stats.retransmitted_datagrams, 1)
            } else {
                a.stats.retransmitted_datagrams
            },
            ..a.stats
        },
        ..a
    }
}

/// What an answer to an end leads to.
pub open spec fn fin_heard_of(a: Sender, z: Sender, p: PacketView, times: Times, r: Result<bool, Error>) -> bool {
    let mine = p.transfer_id == a.request.transfer_id;
    let heard = counted(a);
    if mine && p.kind == Kind::Complete {
        &&& r == Ok::<bool, Error>(true)
        &&& z == (Sender {
            stats: TransferStats {
                ack_count: plus(heard.ack_count, 1),
                retransmission_timeout_ms: times.rto_ms,
                estimated_rtt_ms: times.rtt_ms,
                elapsed_ms: times.elapsed_ms,
                ..heard
            },
            ..a
        })
    } else if mine && p.kind == Kind::Error {
        r matches Err(e) && e.text() == utf8_lossy(p.payload)
    } else {
        &&& r == Ok::<bool, Error>(false)
        &&& z == (Sender {
            stats: TransferStats {
                nack_count: if mine && p.kind == Kind::Nack {
                    plus(heard.nack_count, 1)
                } else {
                    heard.nack_count
                },
                ..heard
            },
            ..a
        })
    }
}

/// A sender whose end was not confirmed.
pub open spec fn fin_again(a: Sender) -> Sender {
    Sender { attempt: (a.attempt + 1) as u32, rto_ns: longer(a.rto_ns), ..a }
}

impl Sender {
    /// The packets cover the payload, the window lies within them, and all
    /// packets before it are acknowledged.
    pub open spec fn wf(&self) -> bool {
        &&& 512 <= self.payload_bytes <= 1200
        &&& 1 <= self.max_retries <= 64
        &&& 0 < self.request.payload@.len() <= 67_108_864
        &&& self.packet_count == packets(self.request.payload@.len(), self.payload_bytes as nat)
        &&& self.acknowledged@.len() == self.packet_count
        &&& self.base <= self.end <= self.packet_count
        &&& all_acknowledged(self.acknowledged@, 0, self.base as int)
        &&& MIN_WINDOW <= self.window <= ACK_BITS
        &&& self.round <= self.max_retries
        &&& self.retries <= self.max_retries
        &&& self.attempt <= self.max_retries + 1
        &&& self.digest@ == blake3_digest(self.request.payload@)
        &&& self.request.offset + self.request.payload@.len() <= self.request.handle.size
    }

    /// Begins to send a chunk.
    pub fn begin(request: SendPayload, config: &Config) -> (r: Result<Self, Error>)
        requires
            config@.valid(),
        ensures
            match r {
                Ok(s) => {
                    &&& send_check(request.handle@, request.offset, request.payload@.len(), config@) is None
                    &&& s.wf()
                    &&& s.request == request
                    &&& s.payload_bytes == config.udp_payload_bytes
                    &&& s.pacing_micros == config.udp_pacing_micros
                    &&& s.max_retries == config.udp_max_retries
                    &&& s.window == config.udp_window_packets
                    &&& s.rto_ns == config.udp_initial_rto_ms * 1_000_000
                    &&& s.acknowledged@ == Seq::new(s.packet_count as nat, |i: int| false)
                    &&& s.base == 0
                    &&& s.end == 0
                    &&& s.round == 0
                    &&& !s.sampled
                    &&& s.retries == 0
                    &&& s.attempt == 0
                    &&& s.stats == no_stats()
                },
                Err(e) => send_check(request.handle@, request.offset, request.payload@.len(), config@) == Some(e),
            },
    {
        let length: usize = request.payload.len();
        if length == 0 {
            return Err(Error::TransferEmpty);
        }
        if length > config.chunk_bytes {
            return Err(Error::TransferTooLong);
        }
        let fits: bool = match request.offset.checked_add(length as u64) {
            Some(end) => end <= request.handle.size,
            None => false,
        };
        if !fits {
            return Err(Error::TransferRange);
        }
        let size: usize = config.udp_payload_bytes;
        let packet_count: usize = (length + (size - 1)) / size;
        let mut acknowledged: Vec<bool> = Vec::new();
        acknowledged.resize(packet_count, false);
        proof {
            assert(acknowledged@ =~= Seq::new(packet_count as nat, |i: int| false));
        }
        let digest: [u8; 32] = blake3_hash(request.payload.as_slice());
        Ok(
            Sender {
                request,
                digest,
                payload_bytes: size,
                pacing_micros: config.udp_pacing_micros,
                max_retries: config.udp_max_retries,
                packet_count,
                window: config.udp_window_packets,
                rto_ns: config.udp_initial_rto_ms * 1_000_000,
                acknowledged,
                base: 0,
                end: 0,
                round: 0,
                sampled: false,
                retries: 0,
                attempt: 0,
                stats: TransferStats::default(),
            },
        )
    }

    /// The packet that opens a session at the receiver: how many packets come,
    /// how many bytes they have, and their digest.
    pub fn start_packet(&self) -> (p: Packet)
        requires
            self.wf(),
        ensures
            p@ == (PacketView {
                flags: chunk_flags(self.request.read_response),
                sequence_id: self.packet_count as u32,
                offset: self.request.offset,
                payload: be(self.request.payload@.len(), 8) + blake3_digest(self.request.payload@),
                ..handle_packet(Kind::Start, self.request.handle@, self.request.transfer_id)
            }),
    {
        let mut p: Packet = Packet::for_handle(Kind::Start, &self.request.handle, self.request.transfer_id);
        p.flags =
        if self.request.read_response {
            1
        } else {
            0
        };
        p.sequence_id = self.packet_count as u32;
        p.offset = self.request.offset;
        let mut payload: Vec<u8> = Vec::new();
        push_be(&mut payload, self.request.payload.len() as u128, 8);
        push_all(&mut payload, &self.digest);
        proof {
            assert(payload@ =~= be(self.request.payload@.len(), 8) + blake3_digest(self.request.payload@));
        }
        p.payload = payload;
        p
    }

    /// A start went out.
    pub fn start_sent(&mut self)
        requires
            old(self).wf(),
        ensures
            final(self).wf(),
            *final(self) == start_counted(*old(self)),
    {
        self.stats.datagrams_sent = sum(self.stats.datagrams_sent, 1);
    }

    /// No answer came to a start.
    pub fn start_missed(&mut self) -> (r: Result<(), Error>)
        requires
            old(self).wf(),
        ensures
            old(self).retries >= old(self).max_retries ==> r == Err::<(), Error>(Error::StartTimeout),
            old(self).retries < old(self).max_retries ==> {
                &&& r == Ok::<(), Error>(())
                &&& final(self).wf()
                &&& *final(self) == start_again(*old(self))
            },
    {
        self.stats.retransmitted_datagrams = sum(self.stats.retransmitted_datagrams, 1);
        if self.retries >= self.max_retries {
            return Err(Error::StartTimeout);
        }
        self.retries = self.retries + 1;
        self.rto_ns = wait_longer(self.rto_ns);
        Ok(())
    }

    /// Takes an answer to a start. The sample counts only if the first start
    /// was answered.
    pub fn start_heard(&mut self, packet: &Packet, sample: Estimate) -> (r: Result<Started, Error>)
        requires
            old(self).wf(),
        ensures
            r is Ok ==> final(self).wf(),
            start_heard_of(*old(self), *final(self), packet@, sample, r),
    {
        self.stats.datagrams_received = sum(self.stats.datagrams_received, 1);
        if packet.transfer_id != self.request.transfer_id {
            return Ok(Started::Again);
        }
        if packet.kind == Kind::StartAck {
            self.stats.ack_count = sum(self.stats.ack_count, 1);
            if packet.payload.len() == 2 {
                proof {
                    lemma_widths();
                    assert(packet.payload@.subrange(0, 2) =~= packet.payload@);
                }
                let receiver: usize = read_be(packet.payload.as_slice(), 0, 2) as usize;
                self.window = agree(self.window, receiver);
            }
            let first: bool = self.retries == 0;
            if first {
                self.rto_ns = sample.rto_ns;
                self.stats.estimated_rtt_ms = sample.rtt_ms;
            }
            return Ok(Started::Ready { sampled: first });
        }
        if packet.kind == Kind::Error {
            return Err(Error::Told { text: lossy_text(packet.payload.as_slice()) });
        }
        Ok(Started::Again)
    }

    /// Opens the next window. There is none when all packets are through.
    pub fn next_window(&mut self) -> (r: bool)
        requires
            old(self).wf(),
            all_acknowledged(old(self).acknowledged@, old(self).base as int, old(self).end as int),
        ensures
            final(self).wf(),
            r == (old(self).end < old(self).packet_count),
            !r ==> *final(self) == *old(self),
            r ==> *final(self) == window_opened(*old(self)),
    {
        if self.end >= self.packet_count {
            return false;
        }
        self.base = self.end;
        self.end =
        if self.window < self.packet_count - self.base {
            self.base + self.window
        } else {
            self.packet_count
        };
        self.round = 0;
        self.sampled = false;
        true
    }

    /// Whether packets of the window are still to be acknowledged.
    pub fn window_open(&self) -> (r: bool)
        requires
            self.wf(),
        ensures
            r == !all_acknowledged(self.acknowledged@, self.base as int, self.end as int),
    {
        let mut i: usize = self.base;
        while i < self.end
            invariant
                self.wf(),
                self.base <= i <= self.end,
                forall|k: int| self.base <= k < i ==> #[trigger] self.acknowledged@[k],
            decreases self.end - i,
        {
            if !self.acknowledged[i] {
                return true;
            }
            i = i + 1;
        }
        false
    }

    /// The first packet from `from` on in the window that is not acknowledged.
    pub fn next_packet(&self, from: usize) -> (r: Option<usize>)
        requires
            self.wf(),
            self.base <= from,
        ensures
            match r {
                Some(i) => {
                    &&& from <= i < self.end
                    &&& !self.acknowledged@[i as int]
                    &&& all_acknowledged(self.acknowledged@, from as int, i as int)
                },
                None => all_acknowledged(self.acknowledged@, from as int, self.end as int),
            },
    {
        let mut i: usize = from;
        while i < self.end
            invariant
                self.wf(),
                from <= i,
                i <= self.end || i == from,
                forall|k: int| from <= k < i ==> #[trigger] self.acknowledged@[k],
            decreases self.end - i,
        {
            if !self.acknowledged[i] {
                return Some(i);
            }
            i = i + 1;
        }
        None
    }

    /// A packet of the chunk: its piece of the payload, and where it belongs.
    pub fn data_packet(&self, sequence: usize) -> (p: Packet)
        requires
            self.wf(),
            sequence < self.packet_count,
        ensures
            p@ == (PacketView {
                flags: chunk_flags(self.request.read_response),
                sequence_id: sequence as u32,
                offset: (self.request.offset + sequence * self.payload_bytes) as u64,
                payload: piece(self.request.payload@, self.payload_bytes as nat, sequence as int),
                ..handle_packet(Kind::Data, self.request.handle@, self.request.transfer_id)
            }),
            p@.payload.len() > 0,
    {
        let length: usize = self.request.payload.len();
        proof {
            lemma_begins_within(length as int, self.payload_bytes as int, sequence as int);
        }
        let begin: usize = sequence * self.payload_bytes;
        let end: usize = if self.payload_bytes < length - begin {
            begin + self.payload_bytes
        } else {
            length
        };
        let mut p: Packet = Packet::for_handle(Kind::Data, &self.request.handle, self.request.transfer_id);
        p.flags =
        if self.request.read_response {
            1
        } else {
            0
        };
        p.sequence_id = sequence as u32;
        p.offset = self.request.offset + begin as u64;
        p.payload = slice_of(self.request.payload.as_slice(), begin, end);
        p
    }

    /// A packet went out. In the first round it counts as payload, later as
    /// sent again.
    pub fn data_sent(&mut self, length: usize)
        requires
            old(self).wf(),
        ensures
            final(self).wf(),
            *final(self) == data_counted(*old(self), length as u64),
    {
        self.stats.datagrams_sent = sum(self.stats.datagrams_sent, 1);
        if self.round > 0 {
            self.stats.retransmitted_datagrams = sum(self.stats.retransmitted_datagrams, 1);
            self.stats.retransmitted_bytes = sum(self.stats.retransmitted_bytes, length as u64);
        } else {
            self.stats.payload_bytes = sum(self.stats.payload_bytes, length as u64);
        }
    }

    /// How many microseconds a round should have taken when so many packets
    /// went out: more with each round that lost some, up to sixteen times.
    pub fn pace(&self, sent: u64) -> (r: u64)
        requires
            self.wf(),
        ensures
            r == capped(capped(self.pacing_micros * slowdown(self.round as int)) * sent),
    {
        let factor: u64 = if self.round == 0 {
            1
        } else if self.round == 1 {
            2
        } else if self.round == 2 {
            4
        } else if self.round == 3 {
            8
        } else {
            16
        };
        capped_product(capped_product(self.pacing_micros, factor), sent)
    }

    /// Takes an answer in the middle of a round.
    #[verifier::loop_isolation(false)]
    pub fn heard(&mut self, packet: &Packet, sample: Estimate) -> (r: Result<Heard, Error>)
        requires
            old(self).wf(),
        ensures
            r is Ok ==> final(self).wf(),
            heard_of(*old(self), *final(self), packet@, sample, r),
    {
        let ghost first = *self;
        self.stats.datagrams_received = sum(self.stats.datagrams_received, 1);
        if packet.transfer_id != self.request.transfer_id {
            return Ok(Heard::More { sampled: false });
        }
        if packet.kind == Kind::Error {
            return Err(Error::Told { text: lossy_text(packet.payload.as_slice()) });
        }
        if packet.kind != Kind::Ack && packet.kind != Kind::Nack {
            return Ok(Heard::More { sampled: false });
        }
        let (from, bitmap, receiver) = match parse_bitmap(packet.payload.as_slice()) {
            Ok(parts) => parts,
            Err(e) => {
                return Err(e);
            },
        };
        self.window = agree(self.window, receiver);
        let ghost before = self.acknowledged@;
        let positive: bool = packet.kind == Kind::Ack;
        let mut sampled: bool = false;
        if positive {
            self.stats.ack_count = sum(self.stats.ack_count, 1);
            if self.round == 0 && !self.sampled {
                self.rto_ns = sample.rto_ns;
                self.stats.estimated_rtt_ms = sample.rtt_ms;
                self.sampled = true;
                sampled = true;
            }
        } else {
            self.stats.nack_count = sum(self.stats.nack_count, 1);
        }
        let ghost ready = *self;
        let mut i: usize = 0;
        while i < ACK_BITS
            invariant
                i <= ACK_BITS,
                self.acknowledged@.len() == before.len(),
                *self == (Sender { acknowledged: self.acknowledged, ..ready }),
                forall|k: int|
                    0 <= k < before.len() ==> #[trigger] self.acknowledged@[k] == (before[k] || from <= k < from + i && (
                    positive && marks(bitmap@, k - from) || !positive && self.base <= k < self.end && !marks(
                        bitmap@,
                        k - from,
                    ))),
            decreases ACK_BITS - i,
        {
            let marked: bool = bitmap_contains(&bitmap, i);
            if (from as usize) < self.packet_count && i < self.packet_count - from as usize {
                let at: usize = from as usize + i;
                if positive && marked || !positive && at >= self.base && at < self.end && !marked {
                    self.acknowledged.set(at, true);
                }
            }
            i = i + 1;
        }
        proof {
            if positive {
                assert(self.acknowledged@ =~= acked(before, from as int, bitmap@));
            } else {
                assert(self.acknowledged@ =~= nacked(before, first.base as int, first.end as int, from as int, bitmap@));
            }
        }
        if positive {
            Ok(Heard::More { sampled })
        } else {
            Ok(Heard::RoundOver)
        }
    }

    /// Ends a round. When some were sent again the waits get longer and the
    /// window smaller; after too many rounds the chunk is given up.
    pub fn end_round(&mut self) -> (r: Result<(), Error>)
        requires
            old(self).wf(),
        ensures
            old(self).round >= old(self).max_retries ==> r == Err::<(), Error>(Error::RetryTimeout),
            old(self).round < old(self).max_retries ==> {
                &&& r == Ok::<(), Error>(())
                &&& final(self).wf()
                &&& *final(self) == round_ended(*old(self))
            },
    {
        if self.round >= self.max_retries {
            return Err(Error::RetryTimeout);
        }
        self.round = self.round + 1;
        self.sampled = false;
        if self.round > 1 {
            self.rto_ns = wait_longer(self.rto_ns);
            let half: usize = self.window / 2;
            self.window =
            if half >= MIN_WINDOW {
                half
            } else {
                MIN_WINDOW
            };
        }
        Ok(())
    }

    /// The packet that ends a chunk, with its digest.
    pub fn fin_packet(&self) -> (p: Packet)
        requires
            self.wf(),
        ensures
            p@ == (PacketView {
                flags: chunk_flags(self.request.read_response),
                sequence_id: self.packet_count as u32,
                offset: self.request.offset,
                payload: blake3_digest(self.request.payload@),
                ..handle_packet(Kind::Fin, self.request.handle@, self.request.transfer_id)
            }),
    {
        let mut p: Packet = Packet::for_handle(Kind::Fin, &self.request.handle, self.request.transfer_id);
        p.flags =
        if self.request.read_response {
            1
        } else {
            0
        };
        p.sequence_id = self.packet_count as u32;
        p.offset = self.request.offset;
        let mut payload: Vec<u8> = Vec::new();
        push_all(&mut payload, &self.digest);
        proof {
            assert(payload@ =~= blake3_digest(self.request.payload@));
        }
        p.payload = payload;
        p
    }

    /// An end went out.
    pub fn fin_sent(&mut self)
        requires
            old(self).wf(),
        ensures
            final(self).wf(),
            *final(self) == fin_counted(*old(self)),
    {
        self.stats.datagrams_sent = sum(self.stats.datagrams_sent, 1);
        if self.attempt > 0 {
            self.stats.retransmitted_datagrams = sum(self.stats.retransmitted_datagrams, 1);
        }
    }

    /// Takes an answer to an end. It is over when the receiver has the chunk;
    /// the times are what was known of them then.
    pub fn fin_heard(&mut self, packet: &Packet, times: Times) -> (r: Result<bool, Error>)
        requires
            old(self).wf(),
        ensures
            r is Ok ==> final(self).wf(),
            fin_heard_of(*old(self), *final(self), packet@, times, r),
    {
        self.stats.datagrams_received = sum(self.stats.datagrams_received, 1);
        if packet.transfer_id != self.request.transfer_id {
            return Ok(false);
        }
        if packet.kind == Kind::Complete {
            self.stats.ack_count = sum(self.stats.ack_count, 1);
            self.stats.retransmission_timeout_ms = times.rto_ms;
            self.stats.estimated_rtt_ms = times.rtt_ms;
            self.stats.elapsed_ms = times.elapsed_ms;
            return Ok(true);
        }
        if packet.kind == Kind::Error {
            return Err(Error::Told { text: lossy_text(packet.payload.as_slice()) });
        }
        if packet.kind == Kind::Nack {
            self.stats.nack_count = sum(self.stats.nack_count, 1);
        }
        Ok(false)
    }

    /// The end was not confirmed in time: it is sent again, a bounded number
    /// of times.
    pub fn fin_missed(&mut self) -> (r: Result<(), Error>)
        requires
            old(self).wf(),
        ensures
            old(self).attempt >= old(self).max_retries ==> r == Err::<(), Error>(Error::FinTimeout),
            old(self).attempt < old(self).max_retries ==> {
                &&& r == Ok::<(), Error>(())
                &&& final(self).wf()
                &&& *final(self) == fin_again(*old(self))
            },
    {
        if self.attempt >= self.max_retries {
            return Err(Error::FinTimeout);
        }
        self.attempt = self.attempt + 1;
        self.rto_ns = wait_longer(self.rto_ns);
        Ok(())
    }
}

/// The packet that tells a receiver to give a chunk up.
pub fn abort_packet(request: &SendPayload) -> (p: Packet)
    ensures
        p@ == (PacketView {
            flags: chunk_flags(request.read_response),
            offset: request.offset,
            ..handle_packet(Kind::Abort, request.handle@, request.transfer_id)
        }),
{
    let mut p: Packet = Packet::for_handle(Kind::Abort, &request.handle, request.transfer_id);
    p.flags =
    if request.read_response {
        1
    } else {
        0
    };
    p.offset = request.offset;
    p
}

/// How much more slowly packets go out in a round.
pub open spec fn slowdown(round: int) -> int {
    if round == 0 {
        1
    } else if round == 1 {
        2
    } else if round == 2 {
        4
    } else if round == 3 {
        8
    } else {
        16
    }
}

/// What an answer in the middle of a round leads to.
pub open spec fn heard_of(a: Sender, z: Sender, p: PacketView, sample: Estimate, r: Result<Heard, Error>) -> bool {
    let heard = counted(a);
    let first = be_value(p.payload.subrange(0, 4)) as int;
    let bitmap = p.payload.subrange(4, 36);
    let window = agreed(a.window, be_value(p.payload.subrange(36, 38)));
    if p.transfer_id != a.request.transfer_id {
        &&& r == Ok::<Heard, Error>(Heard::More { sampled: false })
        &&& z == (Sender { stats: heard, ..a })
    } else if p.kind == Kind::Error {
        r matches Err(e) && e.text() == utf8_lossy(p.payload)
    } else if p.kind == Kind::Ack {
        if p.payload.len() != 38 {
            r == Err::<Heard, Error>(Error::Bitmap)
        } else {
            let fresh = a.round == 0 && !a.sampled;
            &&& r == Ok::<Heard, Error>(Heard::More { sampled: fresh })
            &&& z == (Sender {
                acknowledged: z.acknowledged,
                window,
                rto_ns: if fresh {
                    sample.rto_ns
                } else {
                    a.rto_ns
                },
                sampled: a.sampled || fresh,
                stats: TransferStats {
                    ack_count: plus(heard.ack_count, 1),
                    estimated_rtt_ms: if fresh {
                        sample.rtt_ms
                    } else {
                        heard.estimated_rtt_ms
                    },
                    ..heard
                },
                ..a
            })
            &&& z.acknowledged@ == acked(a.acknowledged@, first, bitmap)
        }
    } else if p.kind == Kind::Nack {
        if p.payload.len() != 38 {
            r == Err::<Heard, Error>(Error::Bitmap)
        } else {
            &&& r == Ok::<Heard, Error>(Heard::RoundOver)
            &&& z == (Sender {
                acknowledged: z.acknowledged,
                window,
                stats: TransferStats { nack_count: plus(heard.nack_count, 1), ..heard },
                ..a
            })
            &&& z.acknowledged@ == nacked(a.acknowledged@, a.base as int, a.end as int, first, bitmap)
        }
    } else {
        &&& r == Ok::<Heard, Error>(Heard::More { sampled: false })
        &&& z == (Sender { stats: heard, ..a })
    }
}

/// Sequence numbers within the count begin within the payload.
pub proof fn lemma_begins_within(length: int, size: int, sequence: int)
    requires
        length > 0,
        size > 0,
        0 <= sequence < (length + size - 1) / size,
    ensures
        0 <= sequence * size < length,
{
    let count = (length + size - 1) / size;
    assert(count * size <= length + size - 1) by (nonlinear_arith)
        requires
            count == (length + size - 1) / size,
            size > 0,
            length > 0,
    ;
    assert(sequence * size <= (count - 1) * size) by (nonlinear_arith)
        requires
            sequence <= count - 1,
            size > 0,
    ;
    assert((count - 1) * size == count * size - size) by (nonlinear_arith);
    assert(sequence * size >= 0) by (nonlinear_arith)
        requires
            sequence >= 0,
            size > 0,
    ;
}

/// A packet that was acknowledged stays so, whatever else is heard: nothing is
/// sent twice that has arrived.
pub proof fn law_acknowledgements_stay(a: Sender, z: Sender, p: PacketView, sample: Estimate, r: Result<Heard, Error>, i: int)
    requires
        heard_of(a, z, p, sample, r),
        r is Ok,
        0 <= i < a.acknowledged@.len(),
        a.acknowledged@[i],
    ensures
        z.acknowledged@.len() == a.acknowledged@.len(),
        z.acknowledged@[i],
{
}

} // verus!
