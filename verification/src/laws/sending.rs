//! How chunks go out over UDP, and come back as the answer to a read.
use crate::bytes::{be_value, lemma_be_len, lemma_value_of_be, lemma_widths};
use crate::config::Config;
use crate::digest::blake3_digest;
use crate::error::Error;
use crate::ids::Uuid;
use crate::memory::block::MemoryBlockHandle;
use crate::runtime::session::trues;
use crate::transport::reader::{
    read_data, read_fin, read_wait, request_missed, request_packet, silence, taken, Reader, Taken,
};
use crate::transport::sender::{
    abort_packet, acked, agreed, data_counted, fin_again, fin_counted, fin_heard_of, heard_of, longer, nacked, round_ended, slowdown,
    start_again, start_counted, start_heard_of, window_opened, Estimate, Heard, SendPayload, Sender, Started, Times,
};
use crate::transport::transmission::{
    advanced, data_of, fin_of, pace_of, start_of, turned, waited, Phase, Transmission, Turn,
};
use crate::transport::udp::{marks, Kind, Packet, PacketView};
use vstd::prelude::*;

verus! {

/// A chunk goes out where it is not empty, is no longer than a chunk may be and
/// lies within its block. At its beginning no packet is acknowledged, nothing
/// is under way and nothing was tried.
pub proof fn law_which_chunks_go_out(request: SendPayload, config: Config, r: Result<Sender, Error>)
    requires
        config@.valid(),
        call_ensures(Sender::begin, (request, &config), r),
    ensures
        r is Ok <==> 0 < request.payload@.len() <= config@.chunk_bytes && request.offset + request.payload@.len()
            <= request.handle@.size,
        r matches Ok(s) ==> {
            &&& s.request == request
            &&& s.payload_bytes == config@.udp_payload_bytes
            &&& s.pacing_micros == config@.udp_pacing_micros
            &&& s.max_retries == config@.udp_max_retries
            &&& s.window == config@.udp_window_packets
            &&& s.rto_ns == config@.udp_initial_rto_ms * 1_000_000
            &&& s.acknowledged@.len() == s.packet_count
            &&& forall|i: int| 0 <= i < s.packet_count ==> !(#[trigger] s.acknowledged@[i])
            &&& s.base == 0 && s.end == 0
            &&& s.round == 0 && s.retries == 0 && s.attempt == 0
            &&& !s.sampled
            &&& s.stats.datagrams_sent == 0 && s.stats.datagrams_received == 0
            &&& s.stats.payload_bytes == 0
            &&& s.stats.retransmitted_datagrams == 0 && s.stats.retransmitted_bytes == 0
            &&& s.stats.ack_count == 0 && s.stats.nack_count == 0
            &&& s.stats.duplicate_datagrams == 0 && s.stats.out_of_order_datagrams == 0
            &&& s.stats.estimated_rtt_ms.bits == 0 && s.stats.retransmission_timeout_ms.bits == 0
            &&& s.stats.elapsed_ms.bits == 0
        },
{
}

/// A wait grows to twice its length, and never beyond two seconds.
pub proof fn law_waits_grow_twofold(rto_ns: u64)
    ensures
        longer(rto_ns) <= 2_000_000_000,
        rto_ns <= 1_000_000_000 ==> longer(rto_ns) == 2 * rto_ns,
        rto_ns > 1_000_000_000 ==> longer(rto_ns) == 2_000_000_000,
{
}

/// The receiver can make a window smaller, never larger, and not below two.
pub proof fn law_receiver_can_shrink_the_window(window: usize, receiver: nat)
    requires
        window >= 2,
    ensures
        2 <= agreed(window, receiver) <= window,
        2 <= receiver <= window ==> agreed(window, receiver) == receiver,
        receiver > window ==> agreed(window, receiver) == window,
        receiver < 2 ==> agreed(window, receiver) == 2,
{
}

/// An unanswered start, or end, is another try with a longer wait.
pub proof fn law_another_try_waits_longer(a: Sender)
    requires
        a.retries < u32::MAX,
        a.attempt < u32::MAX,
        a.stats.retransmitted_datagrams < u64::MAX,
        a.rto_ns <= 2_000_000_000,
    ensures
        ({
            let s = start_again(a);
            let f = fin_again(a);
            &&& s.retries == a.retries + 1 && f.attempt == a.attempt + 1
            &&& s.rto_ns == f.rto_ns
            &&& a.rto_ns <= 1_000_000_000 ==> s.rto_ns == 2 * a.rto_ns
            &&& a.rto_ns > 1_000_000_000 ==> s.rto_ns == 2_000_000_000
            &&& s.rto_ns >= a.rto_ns
            &&& s.stats.retransmitted_datagrams == a.stats.retransmitted_datagrams + 1
            &&& f.stats == a.stats
            &&& s.acknowledged == a.acknowledged && f.acknowledged == a.acknowledged
            &&& s.window == a.window && f.window == a.window
        }),
{
}

/// What goes out is counted: every packet as sent, a data packet of a first
/// round by its bytes, one of a later round as sent again, and an end of a later
/// try as sent again.
pub proof fn law_what_goes_out_is_counted(a: Sender, length: u64)
    requires
        a.stats.datagrams_sent < u64::MAX,
        a.stats.retransmitted_datagrams < u64::MAX,
        a.stats.payload_bytes + length <= u64::MAX,
        a.stats.retransmitted_bytes + length <= u64::MAX,
    ensures
        start_counted(a).stats.datagrams_sent == a.stats.datagrams_sent + 1,
        fin_counted(a).stats.datagrams_sent == a.stats.datagrams_sent + 1,
        fin_counted(a).stats.retransmitted_datagrams == a.stats.retransmitted_datagrams + (if a.attempt > 0 {
            1int
        } else {
            0
        }),
        ({
            let s = data_counted(a, length).stats;
            &&& s.datagrams_sent == a.stats.datagrams_sent + 1
            &&& a.round == 0 ==> s.payload_bytes == a.stats.payload_bytes + length && s.retransmitted_bytes
                == a.stats.retransmitted_bytes && s.retransmitted_datagrams == a.stats.retransmitted_datagrams
            &&& a.round > 0 ==> s.payload_bytes == a.stats.payload_bytes && s.retransmitted_bytes
                == a.stats.retransmitted_bytes + length && s.retransmitted_datagrams == a.stats.retransmitted_datagrams + 1
        }),
        start_counted(a) == (Sender { stats: start_counted(a).stats, ..a }),
        data_counted(a, length) == (Sender { stats: data_counted(a, length).stats, ..a }),
        fin_counted(a) == (Sender { stats: fin_counted(a).stats, ..a }),
{
}

/// The next window begins where the last one ended, and has as many packets as
/// the window holds or as are left.
pub proof fn law_next_window(a: Sender)
    requires
        a.end <= a.packet_count,
        a.end + a.window <= usize::MAX,
    ensures
        ({
            let z = window_opened(a);
            &&& z.base == a.end
            &&& a.end + a.window <= a.packet_count ==> z.end - z.base == a.window
            &&& a.end + a.window > a.packet_count ==> z.end == a.packet_count
            &&& z.round == 0
            &&& !z.sampled
            &&& z.acknowledged == a.acknowledged
            &&& z.window == a.window
            &&& z.rto_ns == a.rto_ns
            &&& z.stats == a.stats
        }),
{
}

/// After a first round window and wait stay; after a later one the window
/// halves, not below two, and the wait doubles, up to two seconds.
pub proof fn law_end_of_a_round(a: Sender)
    requires
        a.round < u32::MAX,
        a.window >= 2,
    ensures
        ({
            let z = round_ended(a);
            &&& z.round == a.round + 1
            &&& a.round == 0 ==> z.window == a.window && z.rto_ns == a.rto_ns
            &&& a.round > 0 && a.window >= 4 ==> 2 * z.window <= a.window < 2 * z.window + 2
            &&& a.round > 0 && a.window < 4 ==> z.window == 2
            &&& a.round > 0 && a.rto_ns <= 1_000_000_000 ==> z.rto_ns == 2 * a.rto_ns
            &&& a.round > 0 && a.rto_ns > 1_000_000_000 ==> z.rto_ns == 2_000_000_000
            &&& !z.sampled
            &&& z.acknowledged == a.acknowledged
            &&& z.base == a.base && z.end == a.end
            &&& z.stats == a.stats
        }),
{
}

/// Every round is twice as slow as the one before, up to sixteen times the pace
/// of the first.
pub proof fn law_rounds_slow_down_twofold(round: int)
    requires
        round >= 0,
    ensures
        slowdown(0) == 1,
        round < 4 ==> slowdown(round + 1) == 2 * slowdown(round),
        round >= 4 ==> slowdown(round) == 16,
{
}

/// Packets of a first round go out one in every pacing interval.
pub proof fn law_pace_of_a_first_round(a: Sender, sent: u64)
    requires
        a.round == 0,
        a.pacing_micros * sent <= u64::MAX,
    ensures
        pace_of(a, sent) == a.pacing_micros * sent,
{
    assert(a.pacing_micros * 1 == a.pacing_micros);
}

/// The packets of later rounds wait longer, never less.
pub proof fn law_pace_of_a_later_round(a: Sender, sent: u64)
    requires
        0 < a.round,
        a.pacing_micros * 16 * sent <= u64::MAX,
        sent > 0,
    ensures
        a.round == 1 ==> pace_of(a, sent) == 2 * (a.pacing_micros * sent),
        a.round == 2 ==> pace_of(a, sent) == 4 * (a.pacing_micros * sent),
        a.round == 3 ==> pace_of(a, sent) == 8 * (a.pacing_micros * sent),
        a.round >= 4 ==> pace_of(a, sent) == 16 * (a.pacing_micros * sent),
{
    let p = a.pacing_micros as int;
    let k = slowdown(a.round as int);
    assert(p * k <= u64::MAX) by (nonlinear_arith)
        requires
            p * 16 * sent <= u64::MAX,
            1 <= k <= 16,
            sent > 0,
            p >= 0,
    ;
    assert(p * k * sent <= u64::MAX) by (nonlinear_arith)
        requires
            p * 16 * sent <= u64::MAX,
            1 <= k <= 16,
            sent > 0,
            p >= 0,
    ;
    assert(p * k * sent == k * (p * sent)) by (nonlinear_arith);
    assert(p * k >= 0) by (nonlinear_arith)
        requires
            p >= 0,
            k >= 1,
    ;
    assert(p * k * sent >= 0) by (nonlinear_arith)
        requires
            p * k >= 0,
            sent > 0,
    ;
}

/// An acknowledgement acknowledges just the packets that it marks, among the
/// 256 from its first on.
pub proof fn law_acknowledged_packets(a: Seq<bool>, first: int, bitmap: Seq<u8>, i: int)
    requires
        0 <= i < a.len(),
    ensures
        acked(a, first, bitmap).len() == a.len(),
        acked(a, first, bitmap)[i] <==> a[i] || first <= i < first + 256 && marks(bitmap, i - first),
{
}

/// A refusal of the end acknowledges, of the packets under way and the 256 that
/// it speaks of, those that it does not mark as missing.
pub proof fn law_packets_that_are_not_missing(a: Seq<bool>, base: int, end: int, first: int, bitmap: Seq<u8>, i: int)
    requires
        0 <= i < a.len(),
    ensures
        nacked(a, base, end, first, bitmap).len() == a.len(),
        nacked(a, base, end, first, bitmap)[i] <==> a[i] || base <= i < end && first <= i < first + 256 && !marks(
            bitmap,
            i - first,
        ),
{
}

/// The answer to a start settles the window: no larger than the receiver's, nor
/// than it was. Only the answer to a first start is a sample of the round trip.
pub proof fn law_answer_to_a_start(a: Sender, z: Sender, p: PacketView, sample: Estimate, r: Result<Started, Error>)
    requires
        start_heard_of(a, z, p, sample, r),
        a.window >= 2,
        a.stats.datagrams_received < u64::MAX,
        a.stats.ack_count < u64::MAX,
    ensures
        ({
            let mine = p.transfer_id == a.request.transfer_id;
            let theirs = be_value(p.payload);
            &&& r is Err <==> mine && p.kind == Kind::Error
            &&& r matches Ok(step) ==> {
                &&& step is Ready <==> mine && p.kind == Kind::StartAck
                &&& z.stats.datagrams_received == a.stats.datagrams_received + 1
                &&& z.stats.ack_count == a.stats.ack_count + (if step is Ready {
                    1int
                } else {
                    0
                })
                &&& z.stats.nack_count == a.stats.nack_count
                &&& z.acknowledged == a.acknowledged
                &&& step is Ready && p.payload.len() == 2 && 2 <= theirs <= a.window ==> z.window == theirs
                &&& step is Ready && p.payload.len() == 2 && theirs > a.window ==> z.window == a.window
                &&& step is Ready && p.payload.len() == 2 && theirs < 2 ==> z.window == 2
                &&& step is Again ==> z.window == a.window && z.rto_ns == a.rto_ns
                &&& step is Ready && a.retries == 0 ==> z.rto_ns == sample.rto_ns && z.stats.estimated_rtt_ms
                    == sample.rtt_ms
                &&& step is Ready && a.retries > 0 ==> z.rto_ns == a.rto_ns && z.stats.estimated_rtt_ms
                    == a.stats.estimated_rtt_ms
                &&& step matches Started::Ready { sampled } ==> sampled == (a.retries == 0)
            }
        }),
{
}

/// What is heard in a round: acknowledgements are taken while the round goes
/// on, a refusal ends the round, and anything of another transfer changes
/// nothing but the count of what was heard.
pub proof fn law_heard_in_a_round(a: Sender, z: Sender, p: PacketView, sample: Estimate, r: Result<Heard, Error>, i: int)
    requires
        heard_of(a, z, p, sample, r),
        0 <= i < a.acknowledged@.len(),
        a.window >= 2,
        a.stats.datagrams_received < u64::MAX,
        a.stats.ack_count < u64::MAX,
        a.stats.nack_count < u64::MAX,
    ensures
        ({
            let mine = p.transfer_id == a.request.transfer_id;
            let first = be_value(p.payload.subrange(0, 4));
            let bitmap = p.payload.subrange(4, 36);
            let ack = mine && p.kind == Kind::Ack;
            let nack = mine && p.kind == Kind::Nack;
            &&& r is Err <==> mine && (p.kind == Kind::Error || p.payload.len() != 38 && (ack || nack))
            &&& r matches Ok(h) ==> {
                &&& h is RoundOver <==> nack
                &&& z.stats.datagrams_received == a.stats.datagrams_received + 1
                &&& z.stats.ack_count == a.stats.ack_count + (if ack {
                    1int
                } else {
                    0
                })
                &&& z.stats.nack_count == a.stats.nack_count + (if nack {
                    1int
                } else {
                    0
                })
                &&& z.acknowledged@.len() == a.acknowledged@.len()
                &&& a.acknowledged@[i] ==> z.acknowledged@[i]
                &&& ack && !a.acknowledged@[i] ==> (z.acknowledged@[i] <==> first <= i < first + 256 && marks(
                    bitmap,
                    i - first,
                ))
                &&& nack && !a.acknowledged@[i] ==> (z.acknowledged@[i] <==> a.base <= i < a.end && first <= i < first
                    + 256 && !marks(bitmap, i - first))
                &&& !ack && !nack ==> z.acknowledged == a.acknowledged && z.window == a.window && z.rto_ns == a.rto_ns
                &&& z.window <= a.window
                &&& ack && a.round == 0 && !a.sampled ==> z.rto_ns == sample.rto_ns
                &&& !(ack && a.round == 0 && !a.sampled) ==> z.rto_ns == a.rto_ns
                &&& z.base == a.base && z.end == a.end && z.round == a.round
            }
        }),
{
}

/// What is heard at the end: only a confirmation of this transfer ends it.
pub proof fn law_heard_at_the_end(a: Sender, z: Sender, p: PacketView, times: Times, r: Result<bool, Error>)
    requires
        fin_heard_of(a, z, p, times, r),
        a.stats.datagrams_received < u64::MAX,
        a.stats.ack_count < u64::MAX,
        a.stats.nack_count < u64::MAX,
    ensures
        ({
            let mine = p.transfer_id == a.request.transfer_id;
            &&& r is Err <==> mine && p.kind == Kind::Error
            &&& r matches Ok(ended) ==> {
                &&& ended <==> mine && p.kind == Kind::Complete
                &&& z.stats.datagrams_received == a.stats.datagrams_received + 1
                &&& z.stats.ack_count == a.stats.ack_count + (if ended {
                    1int
                } else {
                    0
                })
                &&& z.stats.nack_count == a.stats.nack_count + (if mine && p.kind == Kind::Nack {
                    1int
                } else {
                    0
                })
                &&& ended ==> z.stats.elapsed_ms == times.elapsed_ms && z.stats.estimated_rtt_ms == times.rtt_ms
                    && z.stats.retransmission_timeout_ms == times.rto_ms
                &&& z.acknowledged == a.acknowledged
                &&& z.attempt == a.attempt
            }
        }),
{
}

/// Silence is borne for as many tries as are allowed, at the start, in a round
/// and at the end, and for none beyond them.
pub proof fn law_silence_is_borne_so_often(a: Transmission, z: Transmission, r: Result<bool, Error>)
    requires
        waited(a, z, r),
    ensures
        a.phase is Opening ==> (r is Err <==> a.sender.retries >= a.sender.max_retries),
        a.phase is Listening ==> (r is Err <==> a.sender.round >= a.sender.max_retries),
        a.phase is Closing ==> (r is Err <==> a.sender.attempt >= a.sender.max_retries),
        a.phase is Opening ==> (r matches Err(e) ==> e == Error::StartTimeout),
        a.phase is Listening ==> (r matches Err(e) ==> e == Error::RetryTimeout),
        a.phase is Closing ==> (r matches Err(e) ==> e == Error::FinTimeout),
        a.phase is Sending || a.phase is Closed ==> r is Ok && z == a,
{
}

/// Rounds go out until all of a window is acknowledged, windows until all of the
/// chunk is, and then its end goes out: what comes next has either an
/// unacknowledged packet under way, or nothing left to send.
pub proof fn law_end_comes_when_all_is_acknowledged(a: Sender, i: int)
    requires
        a.base <= a.end <= a.packet_count,
        a.acknowledged@.len() == a.packet_count,
        a.window > 0,
        a.packet_count + a.window <= usize::MAX,
        forall|k: int| 0 <= k < a.base ==> #[trigger] a.acknowledged@[k],
    ensures
        ({
            let z = advanced(a);
            &&& z.phase is Sending || z.phase is Closing
            &&& z.phase is Closing ==> (0 <= i < a.packet_count ==> a.acknowledged@[i])
            &&& z.phase matches Phase::Sending { from, sent } ==> {
                &&& sent == 0
                &&& from == z.sender.base
                &&& exists|k: int| z.sender.base <= k < z.sender.end && !(#[trigger] a.acknowledged@[k])
                &&& 0 <= i < from ==> a.acknowledged@[i]
            }
            &&& z.sender.acknowledged == a.acknowledged
        }),
    decreases a.packet_count - a.end,
{
    if forall|k: int| a.base <= k < a.end ==> #[trigger] a.acknowledged@[k] {
        if a.end < a.packet_count {
            let b = window_opened(a);
            assert forall|k: int| 0 <= k < b.base implies #[trigger] b.acknowledged@[k] by {
                if k >= a.base {
                    assert(a.acknowledged@[k]);
                }
            }
            law_end_comes_when_all_is_acknowledged(b, i);
        } else {
            if 0 <= i < a.packet_count && i >= a.base {
                assert(a.acknowledged@[i]);
            }
        }
    }
}

/// A round sends the packets under way that are not acknowledged, in their
/// order, and pauses after every 32.
pub proof fn law_round_sends_what_is_missing(a: Transmission, z: Transmission, r: Turn, from: usize, sent: u64, i: int)
    requires
        turned(a, z, r),
        a.phase == (Phase::Sending { from, sent }),
        a.wf(),
        sent < u64::MAX,
    ensures
        r is Tell || r is Listen,
        r is Listen ==> (from <= i < a.sender.end ==> a.sender.acknowledged@[i]) && z.phase is Listening,
        r matches Turn::Tell { packet, pace } ==> {
            let q = packet@.sequence_id as int;
            &&& packet@.kind == Kind::Data
            &&& from <= q < a.sender.end
            &&& !a.sender.acknowledged@[q]
            &&& from <= i < q ==> a.sender.acknowledged@[i]
            &&& z.phase matches Phase::Sending { from: next, sent: count } && next == q + 1 && count == sent + 1
            &&& pace is Some <==> (sent + 1) % 32 == 0
        },
{
    if let Turn::Tell { packet, pace } = r {
        assert(a.sender.packet_count <= u32::MAX) by {
            let n = a.sender.request.payload@.len() as int;
            let s = a.sender.payload_bytes as int;
            assert((n + s - 1) / s <= n + s - 1) by (nonlinear_arith)
                requires
                    s >= 1,
                    n + s - 1 >= 0,
            ;
        }
    }
}

/// The packets of a chunk say where they belong: the start names its length, its
/// packets and its digest, a data packet its place, and the end the digest.
pub proof fn law_packets_say_where_they_belong(a: Sender, q: int, i: int)
    requires
        a.wf(),
        0 <= q < a.packet_count,
        0 <= i < 32,
        blake3_digest(a.request.payload@).len() == 32,
    ensures
        ({
            let s = start_of(a);
            let d = data_of(a, q);
            let f = fin_of(a);
            &&& s.kind == Kind::Start && d.kind == Kind::Data && f.kind == Kind::Fin
            &&& s.payload.len() == 40
            &&& be_value(s.payload.subrange(0, 8)) == a.request.payload@.len()
            &&& s.payload[8 + i] == blake3_digest(a.request.payload@)[i]
            &&& s.sequence_id == a.packet_count
            &&& s.offset == a.request.offset
            &&& d.sequence_id == q
            &&& d.offset == a.request.offset + q * a.payload_bytes
            &&& f.payload == blake3_digest(a.request.payload@)
            &&& f.offset == a.request.offset
            &&& s.flags == d.flags && d.flags == f.flags
            &&& s.flags == (if a.request.read_response {
                1int
            } else {
                0
            })
            &&& s.transfer_id == a.request.transfer_id && d.transfer_id == a.request.transfer_id && f.transfer_id
                == a.request.transfer_id
            &&& d.object_id == a.request.handle@.job_id && d.block_id == a.request.handle@.id
            &&& d.lease_token == a.request.handle@.lease_token && d.generation == a.request.handle@.generation
            &&& d.total_size == a.request.handle@.size && s.total_size == a.request.handle@.size
        }),
{
    let n = a.request.payload@.len() as int;
    let s = a.payload_bytes as int;
    lemma_widths();
    lemma_be_len(n as nat, 8);
    lemma_value_of_be(n as nat, 8);
    assert(start_of(a).payload.subrange(0, 8) =~= crate::bytes::be(n as nat, 8));
    assert((n + s - 1) / s <= n + s - 1) by (nonlinear_arith)
        requires
            s >= 1,
            n + s - 1 >= 0,
    ;
    crate::transport::sender::lemma_begins_within(n, s, q);
    assert(q * s >= 0) by (nonlinear_arith)
        requires
            q >= 0,
            s >= 0,
    ;
}

/// A read asks for a stretch of a block under its lease, and is asked again for
/// as long as tries are left, waiting four times as long as for an answer.
pub proof fn law_read_is_asked_for(
    handle: MemoryBlockHandle,
    offset: u64,
    length: usize,
    transfer_id: Uuid,
    p: Result<Packet, Error>,
    retries: u32,
    config: Config,
    again: Result<u32, Error>,
    wait: u64,
)
    requires
        call_ensures(request_packet, (&handle, transfer_id, offset, length, &config), p),
        call_ensures(request_missed, (retries, &config), again),
        call_ensures(read_wait, (&config,), wait),
        retries < u32::MAX,
        config@.valid(),
    ensures
        p is Ok <==> length <= config@.chunk_bytes && length <= u32::MAX,
        p matches Ok(k) ==> {
            &&& k@.kind == Kind::ReadRequest
            &&& k@.sequence_id == length
            &&& k@.offset == offset
            &&& k@.transfer_id == transfer_id
            &&& k@.block_id == handle@.id
            &&& k@.lease_token == handle@.lease_token
            &&& k@.generation == handle@.generation
            &&& k@.payload.len() == 0
        },
        again is Ok <==> retries < config@.udp_max_retries,
        again matches Ok(n) ==> n == retries + 1,
        config@.udp_initial_rto_ms >= 20 ==> wait == 4 * config@.udp_initial_rto_ms,
        config@.udp_initial_rto_ms < 20 ==> wait == 80,
{
}

/// Bytes of a read go into their places once, and every eighth new packet and
/// the last are acknowledged.
pub proof fn law_read_takes_its_bytes(a: Reader, z: Reader, p: PacketView, r: Result<Taken, Error>)
    requires
        read_data(a, z, p, r),
        a.wf(),
        a.stats.datagrams_received < u64::MAX,
        a.stats.ack_count < u64::MAX,
        a.stats.duplicate_datagrams < u64::MAX,
        a.stats.payload_bytes + p.payload.len() <= u64::MAX,
    ensures
        ({
            let q = p.sequence_id as int;
            let at = q * a.payload_bytes;
            &&& r is Ok <==> q < a.packet_count && at + p.payload.len() <= a.buffer@.len()
            &&& r is Ok ==> {
                let again = a.received@[q];
                &&& z.received@ == a.received@.update(q, true)
                &&& again ==> z.buffer@ == a.buffer@ && z.count == a.count && z.stats.payload_bytes
                    == a.stats.payload_bytes && z.stats.duplicate_datagrams == a.stats.duplicate_datagrams + 1
                &&& !again ==> z.count == a.count + 1 && z.buffer@.subrange(at, at + p.payload.len()) == p.payload
                    && z.stats.payload_bytes == a.stats.payload_bytes + p.payload.len() && z.stats.duplicate_datagrams
                    == a.stats.duplicate_datagrams
                &&& z.buffer@.len() == a.buffer@.len()
                &&& r->Ok_0 is Reply <==> z.count % 8 == 0 || z.count == a.packet_count
                &&& z.stats.datagrams_received == a.stats.datagrams_received + 1
                &&& z.stats.ack_count == a.stats.ack_count + (if r->Ok_0 is Reply {
                    1int
                } else {
                    0
                })
            }
        }),
{
    let q = p.sequence_id as int;
    let at = q * a.payload_bytes;
    assert(at >= 0) by (nonlinear_arith)
        requires
            at == q * a.payload_bytes,
            q >= 0,
    ;
    if r is Ok {
        assert(z.picture().buffer == z.buffer@);
        assert(z.picture().received == z.received@);
        assert(z.picture().received_count == z.count as nat);
        if a.received@[q] {
            assert(a.received@.update(q, true) =~= a.received@);
        } else {
            assert(z.buffer@.subrange(at, at + p.payload.len()) =~= p.payload);
        }
    }
}

/// A read is complete when all its packets have come and the digest is that of
/// the bytes; an end before that is told what is missing.
pub proof fn law_read_is_complete(
    a: Reader,
    z: Reader,
    p: PacketView,
    elapsed_ms: crate::double::Double,
    r: Result<Taken, Error>,
)
    requires
        read_fin(a, z, p, elapsed_ms, r),
    ensures
        a.count != a.packet_count ==> (r matches Ok(Taken::Reply { packet }) && packet@.kind == Kind::Nack),
        a.count == a.packet_count ==> (r is Ok <==> p.payload == a.digest@ && blake3_digest(a.buffer@) == a.digest@),
        a.count == a.packet_count ==> (r is Ok ==> (r matches Ok(Taken::Complete { packet }) && packet@.kind
            == Kind::Complete && z.stats.elapsed_ms == elapsed_ms)),
        r is Ok ==> z.buffer == a.buffer,
        r is Ok && a.stats.datagrams_sent < u64::MAX ==> z.stats.datagrams_sent == a.stats.datagrams_sent + 1,
        r is Ok && a.stats.datagrams_received < u64::MAX ==> z.stats.datagrams_received == a.stats.datagrams_received + 1,
        r is Ok && a.count == a.packet_count && a.stats.ack_count < u64::MAX ==> z.stats.ack_count == a.stats.ack_count + 1,
        r is Ok && a.count != a.packet_count && a.stats.nack_count < u64::MAX ==> z.stats.nack_count == a.stats.nack_count + 1,
{
}

/// A read begins with room for all its bytes and none of its packets, and tells
/// the sender its window.
pub proof fn law_read_begins(handle: MemoryBlockHandle, start: Packet, config: Config, r: Result<(Reader, Packet), Error>)
    requires
        call_ensures(Reader::begin, (handle, &start, &config), r),
        config@.valid(),
    ensures
        r is Ok <==> {
            &&& start@.payload.len() == 40
            &&& start@.sequence_id > 0
            &&& be_value(start@.payload.subrange(0, 8)) <= config@.chunk_bytes
        },
        r matches Ok((a, p)) ==> {
            &&& a.buffer@.len() == be_value(start@.payload.subrange(0, 8))
            &&& a.digest@ == start@.payload.subrange(8, 40)
            &&& a.packet_count == start@.sequence_id
            &&& a.received@.len() == a.packet_count
            &&& forall|i: int| 0 <= i < a.packet_count ==> !(#[trigger] a.received@[i])
            &&& a.count == 0
            &&& a.retries == 0
            &&& a.max_retries == config@.udp_max_retries
            &&& a.payload_bytes == config@.udp_payload_bytes
            &&& a.window == config@.udp_window_packets
            &&& a.transfer_id == start@.transfer_id
            &&& a.stats.datagrams_sent == 1 && a.stats.datagrams_received == 0
            &&& p@.kind == Kind::StartAck
            &&& p@.flags == 1
            &&& p@.transfer_id == start@.transfer_id
            &&& p@.payload.len() == 2
            &&& be_value(p@.payload) == config@.udp_window_packets
        },
{
    lemma_widths();
    lemma_be_len(config@.udp_window_packets as nat, 2);
    lemma_value_of_be(config@.udp_window_packets as nat, 2);
    if let Ok((a, p)) = r {
        lemma_no_trues(a.received@);
    }
}

proof fn lemma_no_trues(s: Seq<bool>)
    requires
        forall|i: int| 0 <= i < s.len() ==> !(#[trigger] s[i]),
    ensures
        trues(s) == 0,
    decreases s.len(),
{
    if s.len() > 0 {
        assert forall|i: int| 0 <= i < s.drop_last().len() implies !(#[trigger] s.drop_last()[i]) by {
            assert(!s[i]);
        }
        assert(!s[s.len() - 1]);
        lemma_no_trues(s.drop_last());
    }
}

/// A read bears silence for as many waits as are allowed. What is not of its
/// transfer is only counted, and an abort ends it.
pub proof fn law_what_ends_a_read(
    a: Reader,
    z: Reader,
    quiet: Result<(), Error>,
    p: PacketView,
    elapsed_ms: crate::double::Double,
    y: Reader,
    r: Result<Taken, Error>,
)
    requires
        silence(a, z, quiet),
        taken(a, y, p, elapsed_ms, r),
        a.stats.datagrams_received < u64::MAX,
    ensures
        quiet is Ok <==> a.retries < a.max_retries,
        quiet is Ok ==> z == (Reader { retries: z.retries, ..a }) && z.retries == a.retries + 1,
        p.transfer_id != a.transfer_id ==> r == Ok::<Taken, Error>(Taken::Silent) && y.stats.datagrams_received
            == a.stats.datagrams_received + 1 && y.buffer == a.buffer && y.received == a.received,
        p.transfer_id == a.transfer_id && (p.kind == Kind::Abort || p.kind == Kind::Error) ==> r is Err,
        p.transfer_id == a.transfer_id && !(p.kind == Kind::Abort || p.kind == Kind::Error || p.kind == Kind::Data || p.kind
            == Kind::Fin) ==> r == Ok::<Taken, Error>(Taken::Silent) && y.buffer == a.buffer && y.received == a.received,
{
}

/// An abort names its transfer and the block, and carries nothing.
pub proof fn law_abort_names_its_transfer(request: SendPayload, p: Packet)
    requires
        call_ensures(abort_packet, (&request,), p),
    ensures
        p@.kind == Kind::Abort,
        p@.transfer_id == request.transfer_id,
        p@.block_id == request.handle@.id,
        p@.lease_token == request.handle@.lease_token,
        p@.offset == request.offset,
        p@.payload.len() == 0,
{
}

} // verus!
