//! How chunks come in over UDP.
use crate::address::SocketAddress;
use crate::bytes::{be_value, lemma_be_len, lemma_value_of_be, lemma_widths};
use crate::config::ConfigView;
use crate::digest::blake3_digest;
use crate::error::Error;
use crate::ids::Uuid;
use crate::memory::block::BlockState;
use crate::memory::local_ram::BlockView;
use crate::metrics::JobMetrics;
use crate::runtime::session::{
    lively, lost_session, missing, opened_session, packets, present, remembered, silent, silent_bytes, silent_metrics, stretch, CompletedKey, SessionKey,
    SessionView,
};
use crate::runtime::udp::{
    ack_due, aborted, acted, data_taken, done, fin_taken, finished, first_missing, forgot, key_of, opened, piece,
    read_requested, replied, served, start_check, started, took_data, trimmed, Counted, FinStep, ReadJob, Scene,
    UdpAction,
};
use crate::table::{keyed, place};
use crate::transport::udp::{marks, Kind, Packet, PacketView, TransferStats};
use vstd::prelude::*;

verus! {

/// A chunk has as many packets as it takes: all but the last are full, and the
/// last has at least a byte.
pub proof fn law_chunk_is_cut_into_full_packets(length: nat, size: nat)
    requires
        length > 0,
        size > 0,
    ensures
        (packets(length, size) - 1) * size < length <= packets(length, size) * size,
{
    let n = length as int;
    let s = size as int;
    let q = (n + s - 1) / s;
    assert((q - 1) * s < n <= q * s) by (nonlinear_arith)
        requires
            q == (n + s - 1) / s,
            s > 0,
            n > 0,
    ;
}

/// The packets of a message cut it up: packet `q` has the bytes from `q` times
/// the size on, as many as the size or as there are.
pub proof fn law_packets_cut_up_a_message(message: Seq<u8>, size: nat, q: int, i: int)
    requires
        size > 0,
        0 <= q,
        q * size < message.len(),
        0 <= i,
    ensures
        piece(message, size, q).len() <= size,
        piece(message, size, q).len() == size || q * size + piece(message, size, q).len() == message.len(),
        i < piece(message, size, q).len() ==> piece(message, size, q)[i] == message[q * size + i],
{
    assert(q * size >= 0) by (nonlinear_arith)
        requires
            q >= 0,
    ;
}

/// An upload starts where its metadata is whole, its chunk is not empty and no
/// longer than a chunk may be, its packets are counted right, and it lies
/// within a block that waits for just these bytes, under a lease that its token
/// opens.
pub proof fn law_which_uploads_start(store: Map<Uuid, BlockView>, p: PacketView, config: ConfigView, now_ms: u64)
    ensures
        start_check(store, p, config, now_ms) is Ok <==> {
            let length = be_value(p.payload.subrange(0, 8));
            let b = store[p.block_id];
            &&& p.payload.len() == 40
            &&& 0 < length <= config.chunk_bytes
            &&& p.sequence_id == packets(length, config.udp_payload_bytes as nat)
            &&& p.offset + length <= p.total_size
            &&& store.contains_key(p.block_id)
            &&& p.lease_token == b.handle.lease_token
            &&& now_ms < b.handle.lease_expires_ms
            &&& b.handle.job_id == p.object_id
            &&& b.handle.generation == p.generation
            &&& b.handle.size == p.total_size
            &&& b.handle.state == BlockState::Writing
            &&& b.written == p.offset
        },
{
}

/// A session that was opened waits for the whole chunk: it has room for all its
/// bytes, has received none of its packets, and pays for the bytes.
pub proof fn law_opened_session_waits(p: PacketView, config: ConfigView, ticket: nat, now_ns: u64)
    requires
        p.payload.len() == 40,
        be_value(p.payload.subrange(0, 8)) <= u64::MAX,
    ensures
        ({
            let s = opened(p, config, ticket, now_ns);
            &&& s.object == p.object_id
            &&& s.lease == p.lease_token
            &&& s.generation == p.generation
            &&& s.base_offset == p.offset
            &&& s.block_size == p.total_size
            &&& s.payload_size == config.udp_payload_bytes
            &&& s.packet_count == p.sequence_id
            &&& s.buffer.len() == be_value(p.payload.subrange(0, 8))
            &&& s.checksum.len() == 32
            &&& forall|i: int| 0 <= i < 32 ==> #[trigger] s.checksum[i] == p.payload[8 + i]
            &&& s.received.len() == p.sequence_id
            &&& forall|i: int| 0 <= i < s.received.len() ==> !(#[trigger] s.received[i])
            &&& s.received_count == 0
            &&& s.last_sequence is None
            &&& s.last_activity == now_ns
            &&& s.entry.bytes == s.buffer.len()
            &&& s.entry.job is None
        }),
{
}

/// A start is acknowledged where the session is open already, or where there is
/// room for one more session and for the bytes of the chunk. The
/// acknowledgement names a window of at most 256 packets.
pub proof fn law_start_is_acknowledged(
    a: Scene,
    z: Scene,
    config: ConfigView,
    p: PacketView,
    source: SocketAddress,
    now_ms: u64,
    now_ns: u64,
    r: Result<Packet, Error>,
)
    requires
        started(a, z, config, p, source, now_ms, now_ns, r),
        start_check(a.ram@, p, config, now_ms) is Ok,
        crate::runtime::session::silent_bytes(a.server.sessions(), config, now_ns) == 0,
        config.valid(),
    ensures
        ({
            let live = lively(a.server.sessions(), config, now_ns);
            let length = be_value(p.payload.subrange(0, 8));
            &&& r is Ok <==> keyed(live, key_of(p, source)) || live.len() < config.udp_max_sessions
                && a.ram.accounting.owned + length <= a.ram.accounting.budget
            &&& r matches Ok(k) ==> {
                &&& k@.kind == Kind::StartAck
                &&& k@.transfer_id == p.transfer_id
                &&& k@.block_id == p.block_id
                &&& k@.payload.len() == 2
                &&& config.udp_window_packets <= 256 ==> be_value(k@.payload) == config.udp_window_packets
                &&& config.udp_window_packets > 256 ==> be_value(k@.payload) == 256
            }
            &&& r is Ok && !keyed(live, key_of(p, source)) ==> {
                &&& z.server.sessions().len() == live.len() + 1
                &&& z.ram.accounting.owned == a.ram.accounting.owned + length
            }
            &&& !(r is Ok && !keyed(live, key_of(p, source))) ==> z.ram.accounting.owned == a.ram.accounting.owned
            &&& z.ram@ == a.ram@
            &&& z.server.sessions().len() <= config.udp_max_sessions || z.server.sessions().len() == live.len()
            &&& r is Ok && !keyed(live, key_of(p, source)) ==> {
                &&& z.ram.accounting.peak >= a.ram.accounting.peak
                &&& z.ram.accounting.peak >= z.ram.accounting.owned
                &&& z.ram.accounting.peak == a.ram.accounting.peak || z.ram.accounting.peak == z.ram.accounting.owned
            }
        }),
{
    lemma_widths();
    lemma_be_len(config.udp_window_packets as nat, 2);
    lemma_value_of_be(config.udp_window_packets as nat, 2);
    lemma_be_len(256, 2);
    lemma_value_of_be(256, 2);
}

/// A session is given up when nothing was heard for half a minute, or for as
/// long as the sender's tries may take where that is longer.
pub proof fn law_silent_sessions_are_given_up(s: SessionView, config: ConfigView, now_ns: u64)
    requires
        config.valid(),
        s.last_activity <= now_ns,
    ensures
        silent(s, config, now_ns) <==> {
            &&& now_ns - s.last_activity >= 30_000 * 1_000_000
            &&& now_ns - s.last_activity >= config.udp_initial_rto_ms * (config.udp_max_retries + 2) * 1_000_000
        },
{
    assert(config.udp_initial_rto_ms * (config.udp_max_retries + 2) <= 5000 * 66) by (nonlinear_arith)
        requires
            config.udp_initial_rto_ms <= 5000,
            config.udp_max_retries <= 64,
    ;
    assert(config.udp_initial_rto_ms * (config.udp_max_retries + 2) >= 0) by (nonlinear_arith);
}

/// Sessions that are not given up stay, in their order.
pub proof fn law_lively_sessions_stay(s: Seq<(SessionKey, SessionView)>, config: ConfigView, now_ns: u64, i: int)
    requires
        0 <= i < s.len(),
    ensures
        !silent(s[i].1, config, now_ns) ==> lively(s, config, now_ns).contains(s[i]),
        (forall|k: int| 0 <= k < s.len() ==> !silent((#[trigger] s[k]).1, config, now_ns)) ==> lively(s, config, now_ns)
            == s,
    decreases s.len(),
{
    let rest = s.drop_last();
    let all = lively(s, config, now_ns);
    let before = lively(rest, config, now_ns);
    if i < rest.len() {
        law_lively_sessions_stay(rest, config, now_ns, i);
        assert(rest[i] == s[i]);
        if !silent(s[i].1, config, now_ns) {
            let k = choose|k: int| 0 <= k < before.len() && before[k] == s[i];
            assert(all[k] == s[i]);
        }
    } else if !silent(s[i].1, config, now_ns) {
        assert(all[before.len() as int] == s[i]);
        if rest.len() > 0 {
            law_lively_sessions_stay(rest, config, now_ns, 0);
        }
    }
    if forall|k: int| 0 <= k < s.len() ==> !silent((#[trigger] s[k]).1, config, now_ns) {
        assert forall|k: int| 0 <= k < rest.len() implies !silent((#[trigger] rest[k]).1, config, now_ns) by {
            assert(rest[k] == s[k]);
        }
        if rest.len() > 0 {
            law_lively_sessions_stay(rest, config, now_ns, 0);
        }
        assert(!silent(s[s.len() - 1].1, config, now_ns));
        assert(before =~= rest);
        assert(all =~= s);
    }
}

/// A completed session is remembered for two minutes.
pub proof fn law_completed_sessions_are_remembered(s: Seq<(CompletedKey, u64)>, now_ns: u64, i: int)
    requires
        0 <= i < s.len(),
        s[i].1 <= now_ns,
    ensures
        now_ns - s[i].1 < 120_000_000_000 ==> remembered(s, now_ns).contains(s[i]),
        forall|k: int|
            0 <= k < remembered(s, now_ns).len() && (#[trigger] remembered(s, now_ns)[k]).1 <= now_ns ==> now_ns
                - remembered(s, now_ns)[k].1 < 120_000_000_000,
    decreases s.len(),
{
    let rest = s.drop_last();
    let all = remembered(s, now_ns);
    let before = remembered(rest, now_ns);
    if rest.len() > 0 {
        if i < rest.len() {
            law_completed_sessions_are_remembered(rest, now_ns, i);
            assert(rest[i] == s[i]);
            if now_ns - s[i].1 < 120_000_000_000 {
                let k = choose|k: int| 0 <= k < before.len() && before[k] == s[i];
                assert(all[k] == s[i]);
            }
        }
        lemma_remembered_young(rest, now_ns);
    } else {
        assert(before.len() == 0);
    }
    if i == rest.len() && now_ns - s[i].1 < 120_000_000_000 {
        assert(all[before.len() as int] == s[i]);
    }
    assert forall|k: int| 0 <= k < all.len() && (#[trigger] all[k]).1 <= now_ns implies now_ns - all[k].1
        < 120_000_000_000 by {
        if k < before.len() {
            assert(all[k] == before[k]);
        }
    }
}

proof fn lemma_remembered_young(s: Seq<(CompletedKey, u64)>, now_ns: u64)
    ensures
        forall|k: int|
            0 <= k < remembered(s, now_ns).len() && (#[trigger] remembered(s, now_ns)[k]).1 <= now_ns ==> now_ns
                - remembered(s, now_ns)[k].1 < 120_000_000_000,
    decreases s.len(),
{
    if s.len() > 0 {
        lemma_remembered_young(s.drop_last(), now_ns);
        let before = remembered(s.drop_last(), now_ns);
        let all = remembered(s, now_ns);
        assert forall|k: int| 0 <= k < all.len() && (#[trigger] all[k]).1 <= now_ns implies now_ns - all[k].1
            < 120_000_000_000 by {
            if k < before.len() {
                assert(all[k] == before[k]);
            }
        }
    }
}

/// The stretch of a packet begins at a multiple of 256 and has the packet among
/// its 256.
pub proof fn law_stretches_hold_256_packets(sequence: int)
    requires
        sequence >= 0,
    ensures
        stretch(sequence) % 256 == 0,
        stretch(sequence) <= sequence < stretch(sequence) + 256,
{
}

/// What an acknowledgement shows is what has come, and what a refusal of the
/// end shows is what has not; neither shows packets that there are not.
pub proof fn law_marks_are_what_came(received: Seq<bool>, base: int, i: int)
    requires
        0 <= base,
        0 <= i < 256,
    ensures
        present(received, base).len() == 256,
        missing(received, base).len() == 256,
        present(received, base)[i] <==> base + i < received.len() && received[base + i],
        missing(received, base)[i] <==> base + i < received.len() && !received[base + i],
{
}

/// The first packet that is missing has not come, and all before it have.
pub proof fn law_first_missing_packet(received: Seq<bool>, k: int)
    requires
        exists|j: int| 0 <= j < received.len() && !received[j],
    ensures
        0 <= first_missing(received) < received.len(),
        !received[first_missing(received)],
        0 <= k < first_missing(received) ==> received[k],
    decreases received.len(),
{
    if received[0] {
        let rest = received.skip(1);
        let j = choose|j: int| 0 <= j < received.len() && !received[j];
        assert(!rest[j - 1]);
        law_first_missing_packet(rest, k - 1);
        if 1 <= k < first_missing(received) {
            assert(rest[k - 1] == received[k]);
        }
    }
}

/// A packet is acknowledged when it came twice or behind a later one, with
/// every eighth, and with the last.
pub proof fn law_when_packets_are_acknowledged(before: SessionView, after: SessionView, sequence: int)
    ensures
        ack_due(before, after, sequence) <==> {
            ||| before.received[sequence]
            ||| before.last_sequence is Some && sequence < before.last_sequence->0
            ||| after.received_count % 8 == 0
            ||| after.received_count == after.packet_count
        },
{
}

/// A data packet of an open session goes into its place once; what it says of
/// the session must agree with it, and it must lie where its number says. An
/// answer shows all that has come of its stretch of 256.
pub proof fn law_data_goes_into_its_place(
    a: Scene,
    z: Scene,
    config: ConfigView,
    p: PacketView,
    source: SocketAddress,
    now_ns: u64,
    r: Result<Option<Packet>, Error>,
    i: int,
)
    requires
        data_taken(a, z, config, p, source, now_ns, r),
        !done(a.server, p, source, config),
        keyed(a.server.sessions(), key_of(p, source)),
        a.wf(),
        0 <= i < 256,
    ensures
        ({
            let all = a.server.sessions();
            let at = place(all, key_of(p, source));
            let s = all[at].1;
            let q = p.sequence_id as int;
            let u = z.server.sessions()[at].1;
            let agrees = p.object_id == s.object && p.lease_token == s.lease && p.generation == s.generation
                && p.total_size == s.block_size;
            &&& z.ram == a.ram
            &&& !agrees ==> r is Err && z == a
            &&& agrees && q >= s.packet_count ==> r is Err && z.metrics == a.metrics
            &&& agrees && q < s.packet_count && p.offset != s.base_offset + q * s.payload_size ==> r is Err && z.metrics
                == a.metrics
            &&& agrees && q < s.packet_count && p.offset == s.base_offset + q * s.payload_size && q * s.payload_size
                + p.payload.len() <= s.buffer.len() ==> {
                &&& r is Ok
                &&& u.received[q]
                &&& u.last_activity == now_ns
                &&& s.received[q] ==> u.buffer == s.buffer && u.received == s.received && u.received_count
                    == s.received_count
                &&& !s.received[q] ==> {
                    &&& u.received_count == s.received_count + 1
                    &&& u.received == s.received.update(q, true)
                    &&& u.buffer.len() == s.buffer.len()
                    &&& u.buffer.subrange(q * s.payload_size, q * s.payload_size + p.payload.len()) == p.payload
                }
                &&& r matches Ok(Some(k)) ==> {
                    &&& k@.kind == Kind::Ack
                    &&& k@.transfer_id == p.transfer_id
                    &&& marks(k@.payload.subrange(4, 36), i) <==> stretch(q) + i < u.received.len()
                        && u.received[stretch(q) + i]
                }
            }
        }),
{
    let all = a.server.sessions();
    let at = place(all, key_of(p, source));
    let s = all[at].1;
    let q = p.sequence_id as int;
    assert(s.wf());
    assert(q * s.payload_size >= 0) by (nonlinear_arith)
        requires
            q >= 0,
    ;
    if s.expects(p) && s.data_fault(p) is None {
        let u = z.server.sessions()[at].1;
        if !s.received[q] {
            assert(u.buffer.subrange(q * s.payload_size, q * s.payload_size + p.payload.len()) =~= p.payload);
        }
        if let Ok(Some(k)) = r {
            assert(present(u.received, stretch(q))[i] <==> stretch(q) + i < u.received.len() && u.received[stretch(q)
                + i]);
        }
    }
}

/// Data of a chunk that is complete already is answered as if all of it had just
/// come, and changes nothing.
pub proof fn law_data_of_a_complete_chunk(
    a: Scene,
    z: Scene,
    config: ConfigView,
    p: PacketView,
    source: SocketAddress,
    now_ns: u64,
    r: Result<Option<Packet>, Error>,
    i: int,
)
    requires
        data_taken(a, z, config, p, source, now_ns, r),
        p.offset >= p.sequence_id * config.udp_payload_bytes,
        keyed(
            a.server.completed@,
            CompletedKey {
                session: key_of(p, source),
                offset: (p.offset - p.sequence_id * config.udp_payload_bytes) as u64,
            },
        ),
        0 <= i < 256,
    ensures
        z == a,
        r matches Ok(Some(k)) && k@.kind == Kind::Ack && k@.transfer_id == p.transfer_id && marks(
            k@.payload.subrange(4, 36),
            i,
        ),
{
}

/// An end that names the digest of a whole chunk, which has it, takes the chunk
/// out of its session. Where packets are missing it is told which, and nothing
/// changes; nor does it where a digest is wrong.
pub proof fn law_end_of_a_chunk(
    a: Scene,
    z: Scene,
    config: ConfigView,
    p: PacketView,
    source: SocketAddress,
    r: Result<FinStep, Error>,
    i: int,
)
    requires
        fin_taken(a, z, config, p, source, r),
        !keyed(a.server.completed@, CompletedKey { session: key_of(p, source), offset: p.offset }),
        keyed(a.server.sessions(), key_of(p, source)),
        0 <= i < 256,
    ensures
        ({
            let all = a.server.sessions();
            let at = place(all, key_of(p, source));
            let s = all[at].1;
            &&& s.received_count != s.packet_count ==> (r matches Ok(FinStep::Missing(k)) && z == a && k@.kind == Kind::Nack
                && k@.transfer_id == p.transfer_id && be_base(k@.payload) == stretch(first_missing(s.received)) as u32
                && (marks(k@.payload.subrange(4, 36), i) <==> stretch(first_missing(s.received)) + i < s.received.len()
                && !s.received[stretch(first_missing(s.received)) + i]))
            &&& s.received_count == s.packet_count && (p.payload != s.checksum || blake3_digest(s.buffer) != s.checksum)
                ==> r is Err && z == a
            &&& s.received_count == s.packet_count && p.payload == s.checksum && blake3_digest(s.buffer) == s.checksum
                ==> (r matches Ok(FinStep::Finalize(f)) && f.session@ == s && f.packet@ == p && f.key == key_of(p, source)
                && z.server.sessions() == all.remove(at) && z.ram == a.ram && z.metrics == a.metrics && z.server.completed
                == a.server.completed)
        }),
{
    let all = a.server.sessions();
    let at = place(all, key_of(p, source));
    let s = all[at].1;
    if s.received_count != s.packet_count {
        let base = stretch(first_missing(s.received));
        if let Ok(FinStep::Missing(k)) = r {
            lemma_widths();
            lemma_value_of_be(base as u32 as nat, 4);
            assert(missing(s.received, base)[i] <==> base + i < s.received.len() && !s.received[base + i]);
        }
    }
}

/// The number of the packet that the first mark of a bitmap is for.
pub open spec fn be_base(payload: Seq<u8>) -> nat {
    be_value(payload.subrange(0, 4))
}

/// A whole chunk goes into its block where that still waits for it; then its
/// bytes have arrived, and what the session had reserved is free either way.
pub proof fn law_whole_chunk_goes_into_its_block(
    a: Scene,
    z: Scene,
    config: ConfigView,
    key: SessionKey,
    p: PacketView,
    s: SessionView,
    now_ms: u64,
    now_ns: u64,
    r: Result<Packet, Error>,
)
    requires
        finished(a, z, config, key, p, s, now_ms, now_ns, r),
        a.ram@.contains_key(p.block_id) ==> s.base_offset + s.buffer.len() <= a.ram@[p.block_id].bytes.len(),
    ensures
        r is Ok <==> {
            let b = a.ram@[p.block_id];
            &&& a.ram@.contains_key(p.block_id)
            &&& p.lease_token == b.handle.lease_token
            &&& now_ms < b.handle.lease_expires_ms
            &&& b.handle.generation == s.generation
            &&& b.handle.state == BlockState::Writing
            &&& b.written == s.base_offset
        },
        r matches Ok(k) ==> {
            let b = a.ram@[p.block_id];
            let c = z.ram@[p.block_id];
            &&& k@.kind == Kind::Complete
            &&& k@.payload.len() == 0
            &&& k@.transfer_id == p.transfer_id
            &&& c.written == b.written + s.buffer.len()
            &&& c.bytes.subrange(b.written as int, (b.written + s.buffer.len()) as int) == s.buffer
            &&& c.bytes.take(b.written as int) == b.bytes.take(b.written as int)
            &&& c.handle == b.handle
        },
        r is Err ==> z.ram@ == a.ram@ && z.metrics == a.metrics && z.server.completed == a.server.completed,
        r is Ok && a.metrics.contains_key(p.object_id) && a.metrics[p.object_id].active_transfer_sessions > 0
            ==> z.metrics[p.object_id].active_transfer_sessions == a.metrics[p.object_id].active_transfer_sessions - 1,
        z.server.sessions() == a.server.sessions(),
        a.server.finishing@.contains(key) ==> z.server.finishing@.len() == a.server.finishing@.len() - 1,
        !a.server.finishing@.contains(key) ==> z.server.finishing@ == a.server.finishing@,
        z.ram.accounting.budget == a.ram.accounting.budget,
        z.ram.accounting.owned + s.entry.bytes == a.ram.accounting.owned,
        forall|k: Uuid| k != p.block_id && #[trigger] a.ram@.contains_key(k) ==> z.ram@[k] == a.ram@[k],
{
    if r is Ok {
        let b = a.ram@[p.block_id];
        let c = z.ram@[p.block_id];
        assert(c.bytes.subrange(b.written as int, (b.written + s.buffer.len()) as int) =~= s.buffer);
        assert(c.bytes.take(b.written as int) =~= b.bytes.take(b.written as int));
    }
    if a.server.finishing@.contains(key) {
        let k = choose|k: int| 0 <= k < a.server.finishing@.len() && a.server.finishing@[k] == key;
        assert(a.server.finishing@[a.server.finishing@.index_of(key)] == key);
    }
}

/// An abort ends its session, and only that: what the session had reserved is
/// free, and it counts as a failed transfer.
pub proof fn law_abort_ends_its_session(a: Scene, z: Scene, p: PacketView, source: SocketAddress)
    requires
        aborted(a, z, p, source),
        a.metrics.contains_key(p.object_id),
    ensures
        ({
            let all = a.server.sessions();
            let key = key_of(p, source);
            let j = a.metrics[p.object_id];
            let k = z.metrics[p.object_id];
            &&& !keyed(all, key) ==> z == a
            &&& keyed(all, key) ==> {
                &&& z.server.sessions() == all.remove(place(all, key))
                &&& z.ram.accounting.owned + all[place(all, key)].1.entry.bytes == a.ram.accounting.owned
                &&& z.ram@ == a.ram@
                &&& j.failed_transfers < u64::MAX ==> k.failed_transfers == j.failed_transfers + 1
                &&& j.active_transfer_sessions > 0 ==> k.active_transfer_sessions == j.active_transfer_sessions - 1
                &&& j.active_transfer_sessions == 0 ==> k.active_transfer_sessions == 0
            }
        }),
{
}

/// A read is served of a committed block, within its bounds, under a lease that
/// the token opens, of at most a chunk, and while not too many are served. The
/// bytes are those of the block.
pub proof fn law_which_reads_are_served(
    a: Scene,
    z: Scene,
    config: ConfigView,
    p: PacketView,
    now_ms: u64,
    r: Result<ReadJob, Error>,
)
    requires
        read_requested(a, z, config, p, now_ms, r),
    ensures
        r is Ok <==> {
            let b = a.ram@[p.block_id];
            &&& 0 < p.sequence_id <= config.chunk_bytes
            &&& a.ram@.contains_key(p.block_id)
            &&& p.lease_token == b.handle.lease_token
            &&& now_ms < b.handle.lease_expires_ms
            &&& b.handle.job_id == p.object_id
            &&& b.handle.generation == p.generation
            &&& b.handle.state == BlockState::Ready
            &&& p.offset + p.sequence_id <= usize::MAX
            &&& p.offset + p.sequence_id <= b.bytes.len()
            &&& a.server.active_reads < config.udp_max_sessions
        },
        r matches Ok(job) ==> {
            &&& job.handle@ == a.ram@[p.block_id].handle
            &&& job.transfer_id == p.transfer_id
            &&& job.offset == p.offset
            &&& job.payload@.len() == p.sequence_id
            &&& forall|i: int|
                0 <= i < job.payload@.len() ==> #[trigger] job.payload@[i] == a.ram@[p.block_id].bytes[p.offset + i]
            &&& z.server.active_reads == a.server.active_reads + 1
            &&& z.ram == a.ram
        },
        r is Err ==> z == a,
{
}

/// Data packets are counted by what they were: their bytes where they are new,
/// and as duplicates or out of order where they are that.
pub proof fn law_data_is_counted(m: Map<Uuid, JobMetrics>, p: PacketView, s: SessionView)
    requires
        m.contains_key(p.object_id),
        0 <= p.sequence_id < s.received.len(),
        m[p.object_id].udp_payload_bytes + p.payload.len() <= u64::MAX,
        m[p.object_id].duplicate_datagrams < u64::MAX,
        m[p.object_id].out_of_order_datagrams < u64::MAX,
    ensures
        ({
            let j = m[p.object_id];
            let k = took_data(m, p, s)[p.object_id];
            let again = s.received[p.sequence_id as int];
            &&& again ==> k.udp_payload_bytes == j.udp_payload_bytes && k.duplicate_datagrams == j.duplicate_datagrams + 1
                && k.out_of_order_datagrams == j.out_of_order_datagrams
            &&& !again ==> k.udp_payload_bytes == j.udp_payload_bytes + p.payload.len() && k.duplicate_datagrams
                == j.duplicate_datagrams
            &&& !again && s.last_sequence is Some && p.sequence_id < s.last_sequence->0 ==> k.out_of_order_datagrams
                == j.out_of_order_datagrams + 1
            &&& !again && (s.last_sequence is None || p.sequence_id >= s.last_sequence->0) ==> k.out_of_order_datagrams
                == j.out_of_order_datagrams
        }),
{
}

/// A reply counts as a datagram that was sent, and an acknowledgement or a
/// refusal of the end as that too.
pub proof fn law_replies_are_counted(m: Map<Uuid, JobMetrics>, job: Uuid, counted: Counted)
    requires
        m.contains_key(job),
        m[job].udp_datagrams_sent < u64::MAX,
        m[job].ack_count < u64::MAX,
        m[job].nack_count < u64::MAX,
    ensures
        replied(m, job, counted)[job].udp_datagrams_sent == m[job].udp_datagrams_sent + 1,
        counted == Counted::Ack ==> replied(m, job, counted)[job].ack_count == m[job].ack_count + 1,
        counted != Counted::Ack ==> replied(m, job, counted)[job].ack_count == m[job].ack_count,
        counted == Counted::Nack ==> replied(m, job, counted)[job].nack_count == m[job].nack_count + 1,
        counted != Counted::Nack ==> replied(m, job, counted)[job].nack_count == m[job].nack_count,
{
}

/// A session that opens is counted and is active; one that is lost is neither
/// active nor a success.
pub proof fn law_sessions_are_counted(m: Map<Uuid, JobMetrics>, job: Uuid)
    requires
        m.contains_key(job),
        m[job].transfer_sessions < u64::MAX,
        m[job].failed_transfers < u64::MAX,
        0 < m[job].active_transfer_sessions < u64::MAX,
    ensures
        opened_session(m, job)[job].transfer_sessions == m[job].transfer_sessions + 1,
        opened_session(m, job)[job].active_transfer_sessions == m[job].active_transfer_sessions + 1,
        opened_session(m, job)[job].failed_transfers == m[job].failed_transfers,
        lost_session(m, job)[job].active_transfer_sessions == m[job].active_transfer_sessions - 1,
        lost_session(m, job)[job].failed_transfers == m[job].failed_transfers + 1,
{
}

/// A read that was served is not active any more; one that failed counts as
/// that, and one that did not by its bytes.
pub proof fn law_served_reads_are_counted(m: Map<Uuid, JobMetrics>, job: Uuid, stats: TransferStats)
    requires
        m.contains_key(job),
        m[job].failed_transfers < u64::MAX,
        0 < m[job].active_transfer_sessions,
        m[job].udp_payload_bytes + stats.payload_bytes <= u64::MAX,
    ensures
        served(m, job, None)[job].active_transfer_sessions == m[job].active_transfer_sessions - 1,
        served(m, job, None)[job].failed_transfers == m[job].failed_transfers + 1,
        served(m, job, Some(stats))[job].active_transfer_sessions == m[job].active_transfer_sessions - 1,
        served(m, job, Some(stats))[job].failed_transfers == m[job].failed_transfers,
        served(m, job, Some(stats))[job].udp_payload_bytes == m[job].udp_payload_bytes + stats.payload_bytes,
{
}

/// What comes of a packet goes by its kind. A start that answers a read, an
/// acknowledgement, a refusal, a confirmation and an error are for senders: they
/// lead to nothing here, and are not answered.
pub proof fn law_packets_for_senders_lead_to_nothing(
    a: Scene,
    z: Scene,
    config: ConfigView,
    p: PacketView,
    source: SocketAddress,
    now_ms: u64,
    now_ns: u64,
    r: Result<UdpAction, Error>,
)
    requires
        acted(a, z, config, p, source, now_ms, now_ns, r),
        p.kind == Kind::StartAck || p.kind == Kind::Ack || p.kind == Kind::Nack || p.kind == Kind::Complete || p.kind
            == Kind::Error || p.kind == Kind::Start && p.flags != 0,
    ensures
        r == Ok::<UdpAction, Error>(UdpAction::Nothing),
        z == a,
{
}

/// Which packets are answered with bytes, with a chunk that is whole, or with a
/// reply that counts as an acknowledgement or a refusal.
pub proof fn law_answers_by_kind(
    a: Scene,
    z: Scene,
    config: ConfigView,
    p: PacketView,
    source: SocketAddress,
    now_ms: u64,
    now_ns: u64,
    r: Result<UdpAction, Error>,
)
    requires
        acted(a, z, config, p, source, now_ms, now_ns, r),
    ensures
        r matches Ok(UdpAction::Serve(_)) ==> p.kind == Kind::ReadRequest,
        r matches Ok(UdpAction::Finalize(_)) ==> p.kind == Kind::Fin,
        r matches Ok(UdpAction::Reply { packet, counted }) ==> {
            &&& p.kind == Kind::Start || p.kind == Kind::Data || p.kind == Kind::Fin
            &&& counted == Counted::Ack ==> p.kind == Kind::Data && packet@.kind == Kind::Ack
            &&& counted == Counted::Nack ==> p.kind == Kind::Fin && packet@.kind == Kind::Nack
            &&& packet@.kind == Kind::Nack ==> counted == Counted::Nack
            &&& p.kind == Kind::Start ==> packet@.kind == Kind::StartAck
            &&& p.kind == Kind::Data ==> packet@.kind == Kind::Ack
            &&& p.kind == Kind::Fin ==> packet@.kind == Kind::Nack || packet@.kind == Kind::Complete
            &&& packet@.transfer_id == p.transfer_id
            &&& packet@.block_id == p.block_id
        },
        p.kind == Kind::Abort ==> r == Ok::<UdpAction, Error>(UdpAction::Nothing),
{
}

/// A chunk that went into its block is remembered as completed, now. No more than
/// sixteen times the sessions are remembered; the oldest one goes first.
pub proof fn law_completed_chunks_are_remembered(
    a: Scene,
    z: Scene,
    config: ConfigView,
    key: SessionKey,
    p: PacketView,
    s: SessionView,
    now_ms: u64,
    now_ns: u64,
    r: Result<Packet, Error>,
)
    requires
        finished(a, z, config, key, p, s, now_ms, now_ns, r),
        r is Ok,
        !keyed(a.server.completed@, CompletedKey { session: key, offset: p.offset }),
    ensures
        ({
            let before = a.server.completed@;
            let after = z.server.completed@;
            let mine = (CompletedKey { session: key, offset: p.offset }, now_ns);
            &&& before.len() < 16 * config.udp_max_sessions ==> after == before.push(mine)
            &&& before.len() >= 16 * config.udp_max_sessions ==> after.len() == before.len() && exists|i: int|
                {
                    &&& 0 <= i <= before.len()
                    &&& after == #[trigger] before.push(mine).remove(i)
                    &&& forall|j: int| 0 <= j <= before.len() ==> before.push(mine)[i].1 <= (#[trigger] before.push(mine)[j]).1
                }
        }),
{
    let before = a.server.completed@;
    let mine = (CompletedKey { session: key, offset: p.offset }, now_ns);
    let all = before.push(mine);
    let limit = config.udp_max_sessions * 16;
    assert(trimmed(all, z.server.completed@, limit));
}

/// Before a packet is looked at, what was completed long ago is forgotten, and
/// nothing else.
pub proof fn law_only_old_completions_are_forgotten(a: Scene, z: Scene, now_ns: u64, i: int)
    requires
        forgot(a, z, now_ns),
        0 <= i < a.server.completed@.len(),
        a.server.completed@[i].1 <= now_ns,
    ensures
        now_ns - a.server.completed@[i].1 < 120_000_000_000 ==> z.server.completed@.contains(a.server.completed@[i]),
        z.server.sessions() == a.server.sessions(),
        z.server.active_reads == a.server.active_reads,
        z.ram == a.ram,
        z.metrics == a.metrics,
{
    law_completed_sessions_are_remembered(a.server.completed@, now_ns, i);
}

/// Sessions that are given up give back what each of them had reserved, and
/// count as failed transfers of their jobs.
pub proof fn law_sessions_that_are_given_up(
    s: Seq<(SessionKey, SessionView)>,
    key: SessionKey,
    x: SessionView,
    m: Map<Uuid, JobMetrics>,
    config: ConfigView,
    now_ns: u64,
)
    ensures
        silent_bytes(Seq::<(SessionKey, SessionView)>::empty(), config, now_ns) == 0,
        silent(x, config, now_ns) ==> silent_bytes(s.push((key, x)), config, now_ns) == silent_bytes(s, config, now_ns)
            + x.buffer.len(),
        !silent(x, config, now_ns) ==> silent_bytes(s.push((key, x)), config, now_ns) == silent_bytes(s, config, now_ns),
        silent_metrics(m, Seq::<(SessionKey, SessionView)>::empty(), config, now_ns) == m,
        !silent(x, config, now_ns) ==> silent_metrics(m, s.push((key, x)), config, now_ns) == silent_metrics(
            m,
            s,
            config,
            now_ns,
        ),
        silent(x, config, now_ns) ==> {
            let before = silent_metrics(m, s, config, now_ns);
            let after = silent_metrics(m, s.push((key, x)), config, now_ns);
            before.contains_key(x.object) && before[x.object].failed_transfers < u64::MAX ==> after[x.object].failed_transfers
                == before[x.object].failed_transfers + 1
        },
{
    assert(s.push((key, x)).drop_last() =~= s);
}

} // verus!
