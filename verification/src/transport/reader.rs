//! Reading a chunk over UDP: the request, and the chunk that comes in answer.
use crate::bytes::{be, be_value, lemma_value_bound, lemma_widths, push_be, read_be, same_bytes, slice_of};
use crate::config::{Config, ConfigView};
use crate::digest::{blake3_digest, blake3_hash};
use crate::double::Double;
use crate::error::Error;
use crate::ids::Uuid;
use crate::memory::allocator::LedgerEntry;
use crate::memory::block::MemoryBlockHandle;
use crate::metrics::{plus, sum};
use crate::runtime::session::{
    lemma_trues_bound, lemma_trues_none, lemma_trues_set, marks_of, missing, present, stretch, trues, SessionView,
};
use crate::runtime::udp::{agrees, late, law_reassembly, piece};
use crate::text::{lossy_text, utf8_lossy};
use crate::transport::udp::{
    bitmap_payload, handle_packet, is_bitmap, no_stats, Kind, Packet, PacketView, TransferStats, ACK_BITS,
};
use vstd::prelude::*;

verus! {

/// The packet that asks for a chunk.
pub fn request_packet(
    handle: &MemoryBlockHandle,
    transfer_id: Uuid,
    offset: u64,
    length: usize,
    config: &Config,
) -> (r: Result<Packet, Error>)
    ensures
        match r {
            Ok(p) => {
                &&& length <= config.chunk_bytes
                &&& length <= u32::MAX
                &&& p@ == (PacketView {
                    sequence_id: length as u32,
                    offset,
                    ..handle_packet(Kind::ReadRequest, handle@, transfer_id)
                })
            },
            Err(e) => if length > config.chunk_bytes {
                e == Error::ReadTooLong
            } else {
                length > u32::MAX && e == Error::Range
            },
        },
{
    if length > config.chunk_bytes {
        return Err(Error::ReadTooLong);
    }
    if length as u64 > u32::MAX as u64 {
        return Err(Error::Range);
    }
    let mut p: Packet = Packet::for_handle(Kind::ReadRequest, handle, transfer_id);
    p.offset = offset;
    p.sequence_id = length as u32;
    Ok(p)
}

/// Whether a packet in answer to a request opens the chunk. Others are passed
/// over, except a refusal.
pub fn request_heard(packet: &Packet, transfer_id: Uuid) -> (r: Result<bool, Error>)
    ensures
        match r {
            Ok(opens) => {
                &&& !(packet.transfer_id == transfer_id && packet.kind == Kind::Error)
                &&& opens == (packet.transfer_id == transfer_id && packet.kind == Kind::Start)
            },
            Err(e) => {
                &&& packet.transfer_id == transfer_id
                &&& packet.kind == Kind::Error
                &&& e.text() == utf8_lossy(packet.payload@)
            },
        },
{
    if packet.transfer_id == transfer_id && packet.kind == Kind::Error {
        return Err(Error::Told { text: lossy_text(packet.payload.as_slice()) });
    }
    Ok(packet.transfer_id == transfer_id && packet.kind == Kind::Start)
}

/// The number of tries after another one without an answer.
pub fn request_missed(retries: u32, config: &Config) -> (r: Result<u32, Error>)
    ensures
        match r {
            Ok(n) => retries < config.udp_max_retries && n == retries + 1,
            Err(e) => retries >= config.udp_max_retries && e == Error::RequestTimeout,
        },
{
    if retries >= config.udp_max_retries {
        return Err(Error::RequestTimeout);
    }
    Ok(retries + 1)
}

/// How many milliseconds a reader waits for a packet.
pub fn read_wait(config: &Config) -> (r: u64)
    requires
        config@.valid(),
    ensures
        r == 4 * (if config.udp_initial_rto_ms >= 20 {
            config.udp_initial_rto_ms as int
        } else {
            20
        }),
{
    if config.udp_initial_rto_ms >= 20 {
        config.udp_initial_rto_ms * 4
    } else {
        80
    }
}

/// A chunk on its way to its reader.
pub struct Reader {
    pub handle: MemoryBlockHandle,
    pub transfer_id: Uuid,
    pub digest: Vec<u8>,
    pub payload_bytes: usize,
    pub window: usize,
    pub max_retries: u32,
    pub packet_count: usize,
    pub buffer: Vec<u8>,
    pub received: Vec<bool>,
    pub count: usize,
    pub last_sequence: Option<usize>,
    pub retries: u32,
    pub stats: TransferStats,
}

/// What is wrong with the start of a chunk.
pub open spec fn read_check(start: PacketView, config: ConfigView) -> Option<Error> {
    let length = be_value(start.payload.subrange(0, 8));
    if start.payload.len() != 40 {
        Some(Error::UdpStart)
    } else if length > usize::MAX {
        Some(Error::Range)
    } else if start.sequence_id == 0 || length > config.chunk_bytes {
        Some(Error::ReadSession)
    } else {
        None
    }
}

/// What a packet leads to.
pub enum Taken {
    /// Nothing is to be sent.
    Silent,
    /// This is to be sent.
    Reply { packet: Packet },
    /// This is to be sent, and the chunk is complete.
    Complete { packet: Packet },
}

/// The counters when a packet was heard.
pub open spec fn heard(a: Reader) -> TransferStats {
    TransferStats { datagrams_received: plus(a.stats.datagrams_received, 1), ..a.stats }
}

/// A reader that heard a packet and is otherwise unchanged.
pub open spec fn only_heard(a: Reader) -> Reader {
    Reader { stats: heard(a), ..a }
}

/// The counters after a data packet.
pub open spec fn data_stats(a: Reader, p: PacketView, due: bool) -> TransferStats {
    let again = a.received@[p.sequence_id as int];
    let h = heard(a);
    TransferStats {
        duplicate_datagrams: plus(
            h.duplicate_datagrams,
            if again {
                1
            } else {
                0
            },
        ),
        out_of_order_datagrams: plus(
            h.out_of_order_datagrams,
            if late(a.picture(), p.sequence_id as int) {
                1
            } else {
                0
            },
        ),
        payload_bytes: plus(
            h.payload_bytes,
            if again {
                0
            } else {
                p.payload.len() as u64
            },
        ),
        datagrams_sent: plus(
            h.datagrams_sent,
            if due {
                1
            } else {
                0
            },
        ),
        ack_count: plus(
            h.ack_count,
            if due {
                1
            } else {
                0
            },
        ),
        ..h
    }
}

/// What a data packet leads to: it goes into its place once, and every eighth
/// one, and the last, is acknowledged.
pub open spec fn read_data(a: Reader, z: Reader, p: PacketView, r: Result<Taken, Error>) -> bool {
    let sequence = p.sequence_id as int;
    if sequence >= a.packet_count {
        r == Err::<Taken, Error>(Error::ReadSequence)
    } else if sequence * a.payload_bytes + p.payload.len() > a.buffer@.len() {
        r == Err::<Taken, Error>(Error::ReadData)
    } else {
        let after = a.picture().placed(sequence, p.payload);
        let due = after.received_count % 8 == 0 || after.received_count == a.packet_count;
        &&& z == (Reader {
            buffer: z.buffer,
            received: z.received,
            count: z.count,
            last_sequence: z.last_sequence,
            stats: data_stats(a, p, due),
            ..a
        })
        &&& z.picture() == after
        &&& if due {
            &&& r matches Ok(Taken::Reply { packet })
            &&& packet@ == (PacketView {
                payload: packet@.payload,
                ..handle_packet(Kind::Ack, a.handle@, a.transfer_id)
            })
            &&& is_bitmap(
                packet@.payload,
                stretch(sequence) as u32,
                present(after.received, stretch(sequence)),
                a.window as nat,
            )
        } else {
            r == Ok::<Taken, Error>(Taken::Silent)
        }
    }
}

/// What an end leads to: the chunk, if all of it is there and it has the digest
/// that was announced, and otherwise a complaint about what is missing.
pub open spec fn read_fin(a: Reader, z: Reader, p: PacketView, elapsed_ms: Double, r: Result<Taken, Error>) -> bool {
    let h = heard(a);
    if a.count == a.packet_count {
        if p.payload != a.digest@ {
            r == Err::<Taken, Error>(Error::UdpFinChanged)
        } else if blake3_digest(a.buffer@) != a.digest@ {
            r == Err::<Taken, Error>(Error::UdpChecksum)
        } else {
            &&& r matches Ok(Taken::Complete { packet })
            &&& packet@ == handle_packet(Kind::Complete, a.handle@, a.transfer_id)
            &&& z == (Reader {
                stats: TransferStats {
                    datagrams_sent: plus(h.datagrams_sent, 1),
                    ack_count: plus(h.ack_count, 1),
                    elapsed_ms,
                    ..h
                },
                ..a
            })
        }
    } else {
        &&& r matches Ok(Taken::Reply { packet })
        &&& packet@ == (PacketView { payload: packet@.payload, ..handle_packet(Kind::Nack, a.handle@, a.transfer_id) })
        &&& is_bitmap(packet@.payload, 0, missing(a.received@, 0), a.window as nat)
        &&& z == (Reader {
            stats: TransferStats {
                datagrams_sent: plus(h.datagrams_sent, 1),
                nack_count: plus(h.nack_count, 1),
                ..h
            },
            ..a
        })
    }
}

/// A wait in which nothing came: one more is borne, as long as any are left.
pub open spec fn silence(a: Reader, z: Reader, r: Result<(), Error>) -> bool {
    &&& a.retries >= a.max_retries ==> r == Err::<(), Error>(Error::ReadTimeout)
    &&& a.retries < a.max_retries ==> {
        &&& r == Ok::<(), Error>(())
        &&& z == (Reader { retries: (a.retries + 1) as u32, ..a })
    }
}

/// What a packet of the sender leads to.
pub open spec fn taken(a: Reader, z: Reader, p: PacketView, elapsed_ms: Double, r: Result<Taken, Error>) -> bool {
    if p.transfer_id != a.transfer_id {
        r == Ok::<Taken, Error>(Taken::Silent) && z == only_heard(a)
    } else if p.kind == Kind::Data {
        read_data(a, z, p, r)
    } else if p.kind == Kind::Fin {
        read_fin(a, z, p, elapsed_ms, r)
    } else if p.kind == Kind::Abort || p.kind == Kind::Error {
        r == Err::<Taken, Error>(Error::TransferAborted)
    } else {
        r == Ok::<Taken, Error>(Taken::Silent) && z == only_heard(a)
    }
}

impl Reader {
    /// What has come of the chunk.
    pub open spec fn picture(&self) -> SessionView {
        SessionView {
            object: self.handle.job_id,
            lease: self.handle.lease_token,
            generation: self.handle.generation,
            base_offset: 0,
            block_size: u64::MAX,
            payload_size: self.payload_bytes as nat,
            packet_count: self.packet_count as nat,
            checksum: self.digest@,
            buffer: self.buffer@,
            received: self.received@,
            received_count: self.count as nat,
            last_sequence: self.last_sequence,
            last_activity: 0,
            entry: LedgerEntry { ticket: 0, bytes: self.buffer@.len() as u64, job: None },
        }
    }

    pub open spec fn wf(&self) -> bool {
        &&& 512 <= self.payload_bytes <= 1200
        &&& 0 < self.packet_count <= u32::MAX
        &&& self.received@.len() == self.packet_count
        &&& self.count == trues(self.received@)
        &&& self.digest@.len() == 32
        &&& self.retries <= self.max_retries
    }

    /// Begins to take the chunk that a start announces, and gives the answer.
    pub fn begin(handle: MemoryBlockHandle, start: &Packet, config: &Config) -> (r: Result<(Self, Packet), Error>)
        requires
            config@.valid(),
        ensures
            match r {
                Ok((a, p)) => {
                    let length = be_value(start.payload@.subrange(0, 8));
                    &&& read_check(start@, config@) is None
                    &&& a.wf()
                    &&& a.handle == handle
                    &&& a.transfer_id == start.transfer_id
                    &&& a.digest@ == start.payload@.subrange(8, 40)
                    &&& a.payload_bytes == config.udp_payload_bytes
                    &&& a.window == config.udp_window_packets
                    &&& a.max_retries == config.udp_max_retries
                    &&& a.packet_count == start.sequence_id
                    &&& a.buffer@ == Seq::new(length, |i: int| 0u8)
                    &&& a.received@ == Seq::new(start.sequence_id as nat, |i: int| false)
                    &&& a.last_sequence is None
                    &&& a.retries == 0
                    &&& a.stats == (TransferStats { datagrams_sent: 1, ..no_stats() })
                    &&& p@ == (PacketView {
                        flags: 1,
                        payload: be(config.udp_window_packets as nat, 2),
                        ..handle_packet(Kind::StartAck, handle@, start.transfer_id)
                    })
                },
                Err(e) => read_check(start@, config@) == Some(e),
            },
    {
        if start.payload.len() != 40 {
            return Err(Error::UdpStart);
        }
        proof {
            lemma_widths();
            lemma_value_bound(start.payload@.subrange(0, 8));
        }
        let length: u128 = read_be(start.payload.as_slice(), 0, 8);
        if length > usize::MAX as u128 {
            return Err(Error::Range);
        }
        let length: usize = length as usize;
        if start.sequence_id == 0 || length > config.chunk_bytes {
            return Err(Error::ReadSession);
        }
        let packet_count: usize = start.sequence_id as usize;
        let mut buffer: Vec<u8> = Vec::new();
        buffer.resize(length, 0);
        let mut received: Vec<bool> = Vec::new();
        received.resize(packet_count, false);
        let mut p: Packet = Packet::for_handle(Kind::StartAck, &handle, start.transfer_id);
        p.flags = 1;
        let mut payload: Vec<u8> = Vec::new();
        push_be(&mut payload, config.udp_window_packets as u128, 2);
        p.payload = payload;
        proof {
            assert(p.payload@ =~= be(config.udp_window_packets as nat, 2));
            assert(buffer@ =~= Seq::new(length as nat, |i: int| 0u8));
            assert(received@ =~= Seq::new(start.sequence_id as nat, |i: int| false));
            lemma_trues_none(received@);
        }
        let mut stats: TransferStats = TransferStats::default();
        stats.datagrams_sent = 1;
        Ok(
            (
                Reader {
                    handle,
                    transfer_id: start.transfer_id,
                    digest: slice_of(start.payload.as_slice(), 8, 40),
                    payload_bytes: config.udp_payload_bytes,
                    window: config.udp_window_packets,
                    max_retries: config.udp_max_retries,
                    packet_count,
                    buffer,
                    received,
                    count: 0,
                    last_sequence: None,
                    retries: 0,
                    stats,
                },
                p,
            ),
        )
    }

    /// Nothing came within the wait.
    pub fn quiet(&mut self) -> (r: Result<(), Error>)
        requires
            old(self).wf(),
        ensures
            r is Ok ==> final(self).wf(),
            silence(*old(self), *final(self), r),
    {
        if self.retries >= self.max_retries {
            return Err(Error::ReadTimeout);
        }
        self.retries = self.retries + 1;
        Ok(())
    }

    /// Takes a packet of the sender.
    pub fn take(&mut self, packet: &Packet, elapsed_ms: Double) -> (r: Result<Taken, Error>)
        requires
            old(self).wf(),
        ensures
            r is Ok ==> final(self).wf(),
            taken(*old(self), *final(self), packet@, elapsed_ms, r),
    {
        if packet.transfer_id != self.transfer_id {
            self.stats.datagrams_received = sum(self.stats.datagrams_received, 1);
            return Ok(Taken::Silent);
        }
        match packet.kind {
            Kind::Data => self.take_data(packet),
            Kind::Fin => self.take_fin(packet, elapsed_ms),
            Kind::Abort => Err(Error::TransferAborted),
            Kind::Error => Err(Error::TransferAborted),
            _ => {
                self.stats.datagrams_received = sum(self.stats.datagrams_received, 1);
                Ok(Taken::Silent)
            },
        }
    }

    /// Puts bytes into the buffer.
    fn write(&mut self, begin: usize, payload: &Vec<u8>)
        requires
            begin + payload@.len() <= old(self).buffer@.len(),
        ensures
            *final(self) == (Reader { buffer: final(self).buffer, ..*old(self) }),
            final(self).buffer@ == old(self).buffer@.take(begin as int) + payload@ + old(self).buffer@.skip(
                begin + payload@.len(),
            ),
    {
        let ghost before = *self;
        let total: usize = self.buffer.len();
        let length: usize = payload.len();
        let mut i: usize = 0;
        while i < length
            invariant
                i <= length == payload@.len(),
                begin + length <= total == before.buffer@.len(),
                self.buffer@.len() == total,
                *self == (Reader { buffer: self.buffer, ..before }),
                forall|k: int|
                    0 <= k < total ==> #[trigger] self.buffer@[k] == if begin <= k < begin + i {
                        payload@[k - begin]
                    } else {
                        before.buffer@[k]
                    },
            decreases length - i,
        {
            self.buffer.set(begin + i, payload[i]);
            i = i + 1;
        }
        proof {
            assert(self.buffer@ =~= before.buffer@.take(begin as int) + payload@ + before.buffer@.skip(
                begin + payload@.len(),
            ));
        }
    }

    fn take_data(&mut self, packet: &Packet) -> (r: Result<Taken, Error>)
        requires
            old(self).wf(),
        ensures
            r is Ok ==> final(self).wf(),
            read_data(*old(self), *final(self), packet@, r),
    {
        let ghost a = *self;
        self.stats.datagrams_received = sum(self.stats.datagrams_received, 1);
        if packet.sequence_id as u64 >= self.packet_count as u64 {
            return Err(Error::ReadSequence);
        }
        let sequence: usize = packet.sequence_id as usize;
        let length: usize = packet.payload.len();
        proof {
            assert(sequence * self.payload_bytes <= 0xffff_ffff * 1200) by (nonlinear_arith)
                requires
                    sequence <= 0xffff_ffff,
                    self.payload_bytes <= 1200,
            ;
            assert(sequence * self.payload_bytes >= 0) by (nonlinear_arith);
        }
        let begin: u64 = sequence as u64 * self.payload_bytes as u64;
        if begin > self.buffer.len() as u64 || length > self.buffer.len() - begin as usize {
            return Err(Error::ReadData);
        }
        let begin: usize = begin as usize;
        proof {
            lemma_trues_bound(self.received@);
        }
        if self.received[sequence] {
            self.stats.duplicate_datagrams = sum(self.stats.duplicate_datagrams, 1);
        } else {
            if let Some(previous) = self.last_sequence {
                if sequence < previous {
                    self.stats.out_of_order_datagrams = sum(self.stats.out_of_order_datagrams, 1);
                }
            }
            proof {
                lemma_trues_set(self.received@, sequence as int);
                lemma_trues_bound(self.received@.update(sequence as int, true));
            }
            self.write(begin, &packet.payload);
            self.received.set(sequence, true);
            self.count = self.count + 1;
            self.stats.payload_bytes = sum(self.stats.payload_bytes, length as u64);
            self.last_sequence = Some(sequence);
        }
        if self.count % 8 == 0 || self.count == self.packet_count {
            let base: usize = (sequence / ACK_BITS) * ACK_BITS;
            let bits: Vec<bool> = marks_of(&self.received, base, true);
            let mut reply: Packet = Packet::for_handle(Kind::Ack, &self.handle, self.transfer_id);
            reply.payload = bitmap_payload(base as u32, bits.as_slice(), self.window);
            self.stats.datagrams_sent = sum(self.stats.datagrams_sent, 1);
            self.stats.ack_count = sum(self.stats.ack_count, 1);
            Ok(Taken::Reply { packet: reply })
        } else {
            Ok(Taken::Silent)
        }
    }

    fn take_fin(&mut self, packet: &Packet, elapsed_ms: Double) -> (r: Result<Taken, Error>)
        requires
            old(self).wf(),
        ensures
            r is Ok ==> final(self).wf(),
            read_fin(*old(self), *final(self), packet@, elapsed_ms, r),
    {
        self.stats.datagrams_received = sum(self.stats.datagrams_received, 1);
        if self.count == self.packet_count {
            if !same_bytes(packet.payload.as_slice(), self.digest.as_slice()) {
                return Err(Error::UdpFinChanged);
            }
            let digest: [u8; 32] = blake3_hash(self.buffer.as_slice());
            if !same_bytes(&digest, self.digest.as_slice()) {
                return Err(Error::UdpChecksum);
            }
            self.stats.datagrams_sent = sum(self.stats.datagrams_sent, 1);
            self.stats.ack_count = sum(self.stats.ack_count, 1);
            self.stats.elapsed_ms = elapsed_ms;
            return Ok(
                Taken::Complete { packet: Packet::for_handle(Kind::Complete, &self.handle, self.transfer_id) },
            );
        }
        let bits: Vec<bool> = marks_of(&self.received, 0, false);
        let mut reply: Packet = Packet::for_handle(Kind::Nack, &self.handle, self.transfer_id);
        reply.payload = bitmap_payload(0, bits.as_slice(), self.window);
        self.stats.datagrams_sent = sum(self.stats.datagrams_sent, 1);
        self.stats.nack_count = sum(self.stats.nack_count, 1);
        Ok(Taken::Reply { packet: reply })
    }
}

/// A chunk that is read comes together from its packets: a reader that takes a
/// packet of the message stays in agreement with it, and one that has them all
/// holds the message.
pub proof fn law_read_comes_together(a: Reader, z: Reader, p: PacketView, message: Seq<u8>, r: Result<Taken, Error>)
    requires
        agrees(a.picture(), message),
        p.sequence_id < a.packet_count,
        p.payload == piece(message, a.payload_bytes as nat, p.sequence_id as int),
        r is Ok,
        read_data(a, z, p, r),
    ensures
        agrees(z.picture(), message),
        z.count == z.packet_count ==> z.buffer@ == message,
{
    law_reassembly(a.picture(), message, p.sequence_id as int);
    law_reassembly(z.picture(), message, p.sequence_id as int);
}

} // verus!
