//! Datagrams of the payload plane: each is checked by itself and, where the
//! cluster has a secret, authenticated.
use crate::bytes::{be, be_value, lemma_be_len, lemma_be_of_value, lemma_value_of_be, lemma_widths, push_all, push_be, read_be, same_bytes, slice_of};
use crate::digest::{blake3_digest, blake3_hash, hmac_sha256, hmac_sha256_code};
use crate::double::Double;
use crate::error::Error;
use crate::ids::{uuid_bytes, uuid_from_bytes, Uuid};
use crate::memory::block::{HandleView, MemoryBlockHandle};
use vstd::prelude::*;
use vstd::utf8::encode_utf8;

verus! {

pub const VERSION: u8 = 1;

pub const HEADER_LEN: usize = 166;

pub const MAX_DATAGRAM: usize = 1400;

/// Packets that one acknowledgement speaks of.
pub const ACK_BITS: usize = 256;

/// The four bytes that every datagram begins with, `TPU1`.
pub open spec fn magic() -> Seq<u8> {
    seq![84u8, 80u8, 85u8, 49u8]
}

#[derive(Clone, Copy, Debug, PartialEq, Eq, Structural)]
pub enum Kind {
    Start,
    StartAck,
    Data,
    Ack,
    Nack,
    Fin,
    Complete,
    Abort,
    ReadRequest,
    Error,
}

/// The number of a kind on the wire.
pub open spec fn kind_code(kind: Kind) -> u8 {
    match kind {
        Kind::Start => 1,
        Kind::StartAck => 2,
        Kind::Data => 3,
        Kind::Ack => 4,
        Kind::Nack => 5,
        Kind::Fin => 6,
        Kind::Complete => 7,
        Kind::Abort => 8,
        Kind::ReadRequest => 9,
        Kind::Error => 10,
    }
}

impl Kind {
    /// The number of this kind on the wire.
    pub fn code(self) -> (r: u8)
        ensures
            r == kind_code(self),
    {
        match self {
            Kind::Start => 1,
            Kind::StartAck => 2,
            Kind::Data => 3,
            Kind::Ack => 4,
            Kind::Nack => 5,
            Kind::Fin => 6,
            Kind::Complete => 7,
            Kind::Abort => 8,
            Kind::ReadRequest => 9,
            Kind::Error => 10,
        }
    }

    /// The kind of a number.
    pub fn try_from(value: u8) -> (r: Result<Kind, Error>)
        ensures
            match r {
                Ok(kind) => kind_code(kind) == value,
                Err(e) => !(1 <= value <= 10) && e == (Error::DatagramKind { code: value }),
            },
    {
        Ok(
            match value {
                1 => Kind::Start,
                2 => Kind::StartAck,
                3 => Kind::Data,
                4 => Kind::Ack,
                5 => Kind::Nack,
                6 => Kind::Fin,
                7 => Kind::Complete,
                8 => Kind::Abort,
                9 => Kind::ReadRequest,
                10 => Kind::Error,
                _ => {
                    return Err(Error::DatagramKind { code: value });
                },
            },
        )
    }
}

/// One datagram's content.
#[derive(Clone, Debug, PartialEq, Eq)]
pub struct Packet {
    pub kind: Kind,
    pub flags: u16,
    pub transfer_id: Uuid,
    /// The job that the block belongs to.
    pub object_id: Uuid,
    pub block_id: Uuid,
    pub lease_token: Uuid,
    pub generation: u64,
    pub sequence_id: u32,
    pub offset: u64,
    pub total_size: u64,
    pub payload: Vec<u8>,
}

/// The model of a [`Packet`].
pub struct PacketView {
    pub kind: Kind,
    pub flags: u16,
    pub transfer_id: Uuid,
    pub object_id: Uuid,
    pub block_id: Uuid,
    pub lease_token: Uuid,
    pub generation: u64,
    pub sequence_id: u32,
    pub offset: u64,
    pub total_size: u64,
    pub payload: Seq<u8>,
}

impl View for Packet {
    type V = PacketView;

    open spec fn view(&self) -> PacketView {
        PacketView {
            kind: self.kind,
            flags: self.flags,
            transfer_id: self.transfer_id,
            object_id: self.object_id,
            block_id: self.block_id,
            lease_token: self.lease_token,
            generation: self.generation,
            sequence_id: self.sequence_id,
            offset: self.offset,
            total_size: self.total_size,
            payload: self.payload@,
        }
    }
}

/// A packet that speaks of a block, with an empty payload.
pub open spec fn handle_packet(kind: Kind, handle: HandleView, transfer_id: Uuid) -> PacketView {
    PacketView {
        kind,
        flags: 0,
        transfer_id,
        object_id: handle.job_id,
        block_id: handle.id,
        lease_token: handle.lease_token,
        generation: handle.generation,
        sequence_id: 0,
        offset: 0,
        total_size: handle.size,
        payload: Seq::empty(),
    }
}

/// The view of an optional secret.
pub open spec fn secret_view(secret: Option<&str>) -> Option<Seq<char>> {
    match secret {
        Some(s) => Some(s@),
        None => None,
    }
}

/// What stands in the authentication field: the code of the message under the
/// secret, or zeros where there is none.
pub open spec fn tag(secret: Option<Seq<char>>, message: Seq<u8>) -> Seq<u8> {
    match secret {
        Some(s) => hmac_sha256_code(encode_utf8(s), message),
        None => Seq::new(32, |i: int| 0u8),
    }
}

/// Whether `d` is the datagram of `p` under `secret`: a header of big-endian
/// fields in fixed places, the digest of the payload, the authentication code
/// over both, and the payload.
pub open spec fn is_datagram(d: Seq<u8>, p: PacketView, secret: Option<Seq<char>>) -> bool {
    &&& d.len() == HEADER_LEN + p.payload.len()
    &&& d.len() <= MAX_DATAGRAM
    &&& d.subrange(0, 4) == magic()
    &&& d[4] == VERSION
    &&& d[5] == kind_code(p.kind)
    &&& d.subrange(6, 8) == be(p.flags as nat, 2)
    &&& d.subrange(8, 24) == be(p.transfer_id as nat, 16)
    &&& d.subrange(24, 40) == be(p.object_id as nat, 16)
    &&& d.subrange(40, 56) == be(p.block_id as nat, 16)
    &&& d.subrange(56, 72) == be(p.lease_token as nat, 16)
    &&& d.subrange(72, 80) == be(p.generation as nat, 8)
    &&& d.subrange(80, 84) == be(p.sequence_id as nat, 4)
    &&& d.subrange(84, 92) == be(p.offset as nat, 8)
    &&& d.subrange(92, 100) == be(p.total_size as nat, 8)
    &&& d.subrange(100, 102) == be(p.payload.len(), 2)
    &&& d.subrange(102, 134) == blake3_digest(p.payload)
    &&& d.subrange(134, 166) == tag(secret, d.subrange(0, 134) + p.payload)
    &&& d.subrange(166, d.len() as int) == p.payload
}

/// The first thing that is wrong with a datagram.
pub open spec fn datagram_check(d: Seq<u8>, secret: Option<Seq<char>>) -> Result<(), Error> {
    if !(HEADER_LEN <= d.len() <= MAX_DATAGRAM) {
        Err(Error::DatagramLength)
    } else if d.subrange(0, 4) != magic() {
        Err(Error::DatagramMagic)
    } else if d[4] != VERSION {
        Err(Error::DatagramVersion)
    } else if !(1 <= d[5] <= 10) {
        Err(Error::DatagramKind { code: d[5] })
    } else if d.len() != HEADER_LEN + be_value(d.subrange(100, 102)) {
        Err(Error::DatagramPayload)
    } else if d.subrange(102, 134) != blake3_digest(d.subrange(166, d.len() as int)) {
        Err(Error::DatagramChecksum)
    } else if d.subrange(134, 166) != tag(secret, d.subrange(0, 134) + d.subrange(166, d.len() as int)) {
        Err(Error::DatagramAuth)
    } else {
        Ok(())
    }
}

/// The authentication field for a message in two parts.
fn authentication_tag(secret: Option<&str>, header: &[u8], payload: &[u8]) -> (r: [u8; 32])
    ensures
        r@ == tag(secret_view(secret), header@ + payload@),
{
    match secret {
        None => {
            let zeros: [u8; 32] = [0; 32];
            assert(zeros@ =~= Seq::new(32, |i: int| 0u8));
            zeros
        },
        Some(s) => {
            let mut message: Vec<u8> = Vec::new();
            push_all(&mut message, header);
            push_all(&mut message, payload);
            assert(message@ =~= header@ + payload@);
            hmac_sha256(s.as_bytes(), message.as_slice())
        },
    }
}

/// The identifier in sixteen bytes of a datagram.
fn read_id(d: &[u8], from: usize) -> (id: Uuid)
    requires
        from + 16 <= d@.len(),
    ensures
        d@.subrange(from as int, from + 16) == be(id as nat, 16),
{
    let mut raw: [u8; 16] = [0; 16];
    let length: usize = d.len();
    let mut i: usize = 0;
    while i < 16
        invariant
            from + 16 <= d@.len() == length,
            i <= 16,
            forall|k: int| 0 <= k < i ==> #[trigger] raw@[k] == d@[from + k],
        decreases 16 - i,
    {
        raw[i] = d[from + i];
        i = i + 1;
    }
    assert(raw@ =~= d@.subrange(from as int, from + 16));
    uuid_from_bytes(raw)
}

impl Packet {
    /// A packet that speaks of a block, with an empty payload.
    pub fn for_handle(kind: Kind, handle: &MemoryBlockHandle, transfer_id: Uuid) -> (p: Self)
        ensures
            p@ == handle_packet(kind, handle@, transfer_id),
    {
        let payload: Vec<u8> = Vec::new();
        assert(payload@ =~= Seq::<u8>::empty());
        Packet {
            kind,
            flags: 0,
            transfer_id,
            object_id: handle.job_id,
            block_id: handle.id,
            lease_token: handle.lease_token,
            generation: handle.generation,
            sequence_id: 0,
            offset: 0,
            total_size: handle.size,
            payload,
        }
    }

    /// An equal copy.
    pub fn duplicate(&self) -> (p: Self)
        ensures
            p@ == self@,
    {
        let payload: Vec<u8> = slice_of(self.payload.as_slice(), 0, self.payload.len());
        assert(payload@ =~= self.payload@);
        Packet {
            kind: self.kind,
            flags: self.flags,
            transfer_id: self.transfer_id,
            object_id: self.object_id,
            block_id: self.block_id,
            lease_token: self.lease_token,
            generation: self.generation,
            sequence_id: self.sequence_id,
            offset: self.offset,
            total_size: self.total_size,
            payload,
        }
    }

    /// The datagram of this packet, unless it would not fit.
    pub fn encode(&self, secret: Option<&str>) -> (r: Result<Vec<u8>, Error>)
        ensures
            match r {
                Ok(d) => is_datagram(d@, self@, secret_view(secret)),
                Err(e) => self@.payload.len() + HEADER_LEN > MAX_DATAGRAM && e == Error::DatagramTooLong,
            },
    {
        if self.payload.len() > MAX_DATAGRAM - HEADER_LEN {
            return Err(Error::DatagramTooLong);
        }
        let ghost p = self@;
        let mut d: Vec<u8> = Vec::new();
        d.push(84);
        d.push(80);
        d.push(85);
        d.push(49);
        d.push(VERSION);
        d.push(self.kind.code());
        proof {
            lemma_be_len(p.flags as nat, 2);
            lemma_be_len(p.transfer_id as nat, 16);
            lemma_be_len(p.object_id as nat, 16);
            lemma_be_len(p.block_id as nat, 16);
            lemma_be_len(p.lease_token as nat, 16);
            lemma_be_len(p.generation as nat, 8);
            lemma_be_len(p.sequence_id as nat, 4);
            lemma_be_len(p.offset as nat, 8);
            lemma_be_len(p.total_size as nat, 8);
            lemma_be_len(p.payload.len(), 2);
        }
        push_be(&mut d, self.flags as u128, 2);
        let ghost d1 = d@;
        let ids: [u8; 16] = uuid_bytes(self.transfer_id);
        push_all(&mut d, &ids);
        let ids: [u8; 16] = uuid_bytes(self.object_id);
        push_all(&mut d, &ids);
        let ids: [u8; 16] = uuid_bytes(self.block_id);
        push_all(&mut d, &ids);
        let ids: [u8; 16] = uuid_bytes(self.lease_token);
        push_all(&mut d, &ids);
        let ghost d2 = d@;
        push_be(&mut d, self.generation as u128, 8);
        push_be(&mut d, self.sequence_id as u128, 4);
        push_be(&mut d, self.offset as u128, 8);
        push_be(&mut d, self.total_size as u128, 8);
        push_be(&mut d, self.payload.len() as u128, 2);
        let ghost d3 = d@;
        let digest: [u8; 32] = blake3_hash(self.payload.as_slice());
        push_all(&mut d, &digest);
        let ghost d4 = d@;
        let code: [u8; 32] = authentication_tag(secret, d.as_slice(), self.payload.as_slice());
        push_all(&mut d, &code);
        push_all(&mut d, self.payload.as_slice());
        proof {
            let w = d@;
            assert(d1.len() == 8);
            assert(d2.len() == 72);
            assert(d3.len() == 102);
            assert(d4.len() == 134);
            assert(w.subrange(0, 134) =~= d4);
            assert(w.subrange(0, 4) =~= magic());
            assert(w.subrange(6, 8) =~= be(p.flags as nat, 2));
            assert(w.subrange(8, 24) =~= be(p.transfer_id as nat, 16));
            assert(w.subrange(24, 40) =~= be(p.object_id as nat, 16));
            assert(w.subrange(40, 56) =~= be(p.block_id as nat, 16));
            assert(w.subrange(56, 72) =~= be(p.lease_token as nat, 16));
            assert(w.subrange(72, 80) =~= be(p.generation as nat, 8));
            assert(w.subrange(80, 84) =~= be(p.sequence_id as nat, 4));
            assert(w.subrange(84, 92) =~= be(p.offset as nat, 8));
            assert(w.subrange(92, 100) =~= be(p.total_size as nat, 8));
            assert(w.subrange(100, 102) =~= be(p.payload.len(), 2));
            assert(w.subrange(102, 134) =~= digest@);
            assert(w.subrange(134, 166) =~= code@);
            assert(w.subrange(166, w.len() as int) =~= p.payload);
        }
        Ok(d)
    }

    /// The packet of a datagram, or the first thing that is wrong with it.
    pub fn decode(datagram: &[u8], secret: Option<&str>) -> (r: Result<Self, Error>)
        ensures
            match r {
                Ok(p) => {
                    &&& datagram_check(datagram@, secret_view(secret)) is Ok
                    &&& is_datagram(datagram@, p@, secret_view(secret))
                },
                Err(e) => datagram_check(datagram@, secret_view(secret)) == Err::<(), Error>(e),
            },
    {
        let length: usize = datagram.len();
        let ghost d = datagram@;
        if length < HEADER_LEN || length > MAX_DATAGRAM {
            return Err(Error::DatagramLength);
        }
        if !(datagram[0] == 84 && datagram[1] == 80 && datagram[2] == 85 && datagram[3] == 49) {
            proof {
                assert(d.subrange(0, 4)[0] == d[0]);
                assert(d.subrange(0, 4)[1] == d[1]);
                assert(d.subrange(0, 4)[2] == d[2]);
                assert(d.subrange(0, 4)[3] == d[3]);
            }
            return Err(Error::DatagramMagic);
        }
        proof {
            assert(d.subrange(0, 4) =~= magic());
            lemma_widths();
        }
        if datagram[4] != VERSION {
            return Err(Error::DatagramVersion);
        }
        let kind: Kind = Kind::try_from(datagram[5])?;
        let flags: u16 = read_be(datagram, 6, 2) as u16;
        let transfer_id: Uuid = read_id(datagram, 8);
        let object_id: Uuid = read_id(datagram, 24);
        let block_id: Uuid = read_id(datagram, 40);
        let lease_token: Uuid = read_id(datagram, 56);
        let generation: u64 = read_be(datagram, 72, 8) as u64;
        let sequence_id: u32 = read_be(datagram, 80, 4) as u32;
        let offset: u64 = read_be(datagram, 84, 8) as u64;
        let total_size: u64 = read_be(datagram, 92, 8) as u64;
        let payload_len: usize = read_be(datagram, 100, 2) as usize;
        if length != HEADER_LEN + payload_len {
            return Err(Error::DatagramPayload);
        }
        let payload: Vec<u8> = slice_of(datagram, HEADER_LEN, length);
        let digest: [u8; 32] = blake3_hash(payload.as_slice());
        let named: Vec<u8> = slice_of(datagram, 102, 134);
        if !same_bytes(named.as_slice(), &digest) {
            return Err(Error::DatagramChecksum);
        }
        let header: Vec<u8> = slice_of(datagram, 0, 134);
        let code: [u8; 32] = authentication_tag(secret, header.as_slice(), payload.as_slice());
        let given: Vec<u8> = slice_of(datagram, 134, 166);
        if !same_bytes(given.as_slice(), &code) {
            return Err(Error::DatagramAuth);
        }
        proof {
            lemma_be_of_value(d.subrange(6, 8));
            lemma_be_of_value(d.subrange(72, 80));
            lemma_be_of_value(d.subrange(80, 84));
            lemma_be_of_value(d.subrange(84, 92));
            lemma_be_of_value(d.subrange(92, 100));
            lemma_be_of_value(d.subrange(100, 102));
        }
        Ok(
            Packet {
                kind,
                flags,
                transfer_id,
                object_id,
                block_id,
                lease_token,
                generation,
                sequence_id,
                offset,
                total_size,
                payload,
            },
        )
    }
}

/// A datagram has one packet: whatever was encoded decodes to itself, and
/// nothing else does.
pub proof fn law_datagram_is_unambiguous(d: Seq<u8>, p: PacketView, q: PacketView, secret: Option<Seq<char>>)
    requires
        is_datagram(d, p, secret),
    ensures
        datagram_check(d, secret) is Ok,
        is_datagram(d, q, secret) ==> q == p,
{
    lemma_widths();
    lemma_value_of_be(p.payload.len(), 2);
    if is_datagram(d, q, secret) {
        lemma_value_of_be(p.flags as nat, 2);
        lemma_value_of_be(q.flags as nat, 2);
        lemma_value_of_be(p.transfer_id as nat, 16);
        lemma_value_of_be(q.transfer_id as nat, 16);
        lemma_value_of_be(p.object_id as nat, 16);
        lemma_value_of_be(q.object_id as nat, 16);
        lemma_value_of_be(p.block_id as nat, 16);
        lemma_value_of_be(q.block_id as nat, 16);
        lemma_value_of_be(p.lease_token as nat, 16);
        lemma_value_of_be(q.lease_token as nat, 16);
        lemma_value_of_be(p.generation as nat, 8);
        lemma_value_of_be(q.generation as nat, 8);
        lemma_value_of_be(p.sequence_id as nat, 4);
        lemma_value_of_be(q.sequence_id as nat, 4);
        lemma_value_of_be(p.offset as nat, 8);
        lemma_value_of_be(q.offset as nat, 8);
        lemma_value_of_be(p.total_size as nat, 8);
        lemma_value_of_be(q.total_size as nat, 8);
        assert(kind_code(p.kind) == kind_code(q.kind));
    }
}

/// What a transfer took.
#[derive(Clone, Copy, Debug, PartialEq, Eq, Structural)]
pub struct TransferStats {
    pub datagrams_sent: u64,
    pub datagrams_received: u64,
    pub payload_bytes: u64,
    pub retransmitted_datagrams: u64,
    pub retransmitted_bytes: u64,
    pub ack_count: u64,
    pub nack_count: u64,
    pub duplicate_datagrams: u64,
    pub out_of_order_datagrams: u64,
    pub estimated_rtt_ms: Double,
    pub retransmission_timeout_ms: Double,
    pub elapsed_ms: Double,
}

/// The counters of a transfer that has not begun.
pub open spec fn no_stats() -> TransferStats {
    TransferStats {
        datagrams_sent: 0,
        datagrams_received: 0,
        payload_bytes: 0,
        retransmitted_datagrams: 0,
        retransmitted_bytes: 0,
        ack_count: 0,
        nack_count: 0,
        duplicate_datagrams: 0,
        out_of_order_datagrams: 0,
        estimated_rtt_ms: Double { bits: 0 },
        retransmission_timeout_ms: Double { bits: 0 },
        elapsed_ms: Double { bits: 0 },
    }
}

impl Default for TransferStats {
    fn default() -> (r: Self)
        ensures
            r == no_stats(),
    {
        TransferStats {
            datagrams_sent: 0,
            datagrams_received: 0,
            payload_bytes: 0,
            retransmitted_datagrams: 0,
            retransmitted_bytes: 0,
            ack_count: 0,
            nack_count: 0,
            duplicate_datagrams: 0,
            out_of_order_datagrams: 0,
            estimated_rtt_ms: Double { bits: 0 },
            retransmission_timeout_ms: Double { bits: 0 },
            elapsed_ms: Double { bits: 0 },
        }
    }
}

/// Whether bit `k` of `b` is set.
pub open spec fn bit(b: u8, k: u8) -> bool {
    b & (1u8 << k) != 0
}

/// Whether a bitmap of 32 bytes marks `index`: eight to a byte, lowest bit first.
pub open spec fn marks(bitmap: Seq<u8>, index: int) -> bool {
    bit(bitmap[index / 8], (index % 8) as u8)
}

/// Whether `payload` is a bitmap message: the first sequence that it speaks of,
/// which of the following [`ACK_BITS`] it marks, and a window.
pub open spec fn is_bitmap(payload: Seq<u8>, base: u32, bits: Seq<bool>, window: nat) -> bool {
    &&& payload.len() == 38
    &&& payload.subrange(0, 4) == be(base as nat, 4)
    &&& forall|i: int|
        0 <= i < ACK_BITS ==> #[trigger] marks(payload.subrange(4, 36), i) == (i < bits.len() && bits[i])
    &&& payload.subrange(36, 38) == be(
        if window <= 65535 {
            window
        } else {
            65535
        },
        2,
    )
}

proof fn lemma_set_bit(b: u8, k: u8, j: u8)
    requires
        k < 8,
        j < 8,
    ensures
        bit(b | (1u8 << k), j) == (j == k || bit(b, j)),
        !bit(0, j),
{
    assert(((b | (1u8 << k)) & (1u8 << j) != 0) == (j == k || (b & (1u8 << j) != 0))) by (bit_vector)
        requires
            k < 8,
            j < 8,
    ;
    assert(0u8 & (1u8 << j) == 0) by (bit_vector);
}

/// The message that marks the true ones among the first [`ACK_BITS`] of `bits`,
/// counted from `base`.
pub fn bitmap_payload(base: u32, bits: &[bool], window: usize) -> (payload: Vec<u8>)
    ensures
        is_bitmap(payload@, base, bits@, window as nat),
{
    let mut map: [u8; 32] = [0; 32];
    let count: usize = bits.len();
    let mut i: usize = 0;
    proof {
        assert forall|k: int| 0 <= k < ACK_BITS implies !#[trigger] marks(map@, k) by {
            lemma_set_bit(0, 0, (k % 8) as u8);
        }
    }
    while i < ACK_BITS && i < count
        invariant
            count == bits@.len(),
            i <= ACK_BITS,
            i <= count,
            forall|k: int| 0 <= k < ACK_BITS ==> #[trigger] marks(map@, k) == (k < i && bits@[k]),
        decreases ACK_BITS - i,
    {
        if bits[i] {
            let at: usize = i / 8;
            let shift: u8 = (i % 8) as u8;
            let ghost before = map@;
            let byte: u8 = map[at] | (1u8 << shift);
            map[at] = byte;
            proof {
                assert(map@ =~= before.update(at as int, byte));
                assert forall|k: int| 0 <= k < ACK_BITS implies #[trigger] marks(map@, k) == (k < i + 1 && bits@[k]) by {
                    lemma_set_bit(before[at as int], shift, (k % 8) as u8);
                    assert(marks(before, k) == (k < i && bits@[k]));
                    if k / 8 == at as int && k % 8 == shift as int {
                        assert(k == i as int);
                    }
                }
            }
        }
        i = i + 1;
    }
    let mut payload: Vec<u8> = Vec::new();
    push_be(&mut payload, base as u128, 4);
    push_all(&mut payload, &map);
    let shown: usize = if window <= 65535 {
        window
    } else {
        65535
    };
    push_be(&mut payload, shown as u128, 2);
    proof {
        lemma_be_len(base as nat, 4);
        lemma_be_len(shown as nat, 2);
        assert(payload@.subrange(0, 4) =~= be(base as nat, 4));
        assert(payload@.subrange(4, 36) =~= map@);
        assert(payload@.subrange(36, 38) =~= be(shown as nat, 2));
    }
    payload
}

/// The three parts of a bitmap message.
pub fn parse_bitmap(payload: &[u8]) -> (r: Result<(u32, [u8; 32], usize), Error>)
    ensures
        match r {
            Ok((base, bitmap, window)) => {
                &&& payload@.len() == 38
                &&& base == be_value(payload@.subrange(0, 4))
                &&& bitmap@ == payload@.subrange(4, 36)
                &&& window == be_value(payload@.subrange(36, 38))
                &&& window <= 65535
            },
            Err(e) => payload@.len() != 38 && e == Error::Bitmap,
        },
{
    let length: usize = payload.len();
    if length != 38 {
        return Err(Error::Bitmap);
    }
    proof {
        lemma_widths();
    }
    let base: u32 = read_be(payload, 0, 4) as u32;
    let mut bitmap: [u8; 32] = [0; 32];
    let mut i: usize = 0;
    while i < 32
        invariant
            payload@.len() == 38,
            i <= 32,
            forall|k: int| 0 <= k < i ==> #[trigger] bitmap@[k] == payload@[4 + k],
        decreases 32 - i,
    {
        bitmap[i] = payload[4 + i];
        i = i + 1;
    }
    assert(bitmap@ =~= payload@.subrange(4, 36));
    let window: usize = read_be(payload, 36, 2) as usize;
    Ok((base, bitmap, window))
}

/// Whether a bitmap marks `index`. Nothing beyond [`ACK_BITS`] is marked.
pub fn bitmap_contains(bitmap: &[u8; 32], index: usize) -> (r: bool)
    ensures
        r == (index < ACK_BITS && marks(bitmap@, index as int)),
{
    index < ACK_BITS && bitmap[index / 8] & (1u8 << (index % 8) as u8) != 0
}

/// Parsing a bitmap message gives back what was put in: the base, the marks and
/// the window as far as sixteen bits go.
pub proof fn law_bitmap_round_trip(payload: Seq<u8>, base: u32, bits: Seq<bool>, window: nat)
    requires
        is_bitmap(payload, base, bits, window),
    ensures
        payload.len() == 38,
        be_value(payload.subrange(0, 4)) == base,
        window <= 65535 ==> be_value(payload.subrange(36, 38)) == window,
        window > 65535 ==> be_value(payload.subrange(36, 38)) == 65535,
        forall|i: int|
            0 <= i < ACK_BITS ==> #[trigger] marks(payload.subrange(4, 36), i) == (i < bits.len() && bits[i]),
{
    lemma_widths();
    lemma_value_of_be(base as nat, 4);
    lemma_value_of_be(
        if window <= 65535 {
            window
        } else {
            65535
        },
        2,
    );
}

} // verus!
