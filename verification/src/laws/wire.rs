//! What goes over the wire.
use crate::address::SocketAddress;
use crate::bytes::{be, be_value, lemma_be_len, lemma_value_of_be, lemma_widths};
use crate::digest::{blake3_digest, hex_digit, hex_text};
use crate::error::Error;
use crate::ids::{hyphenated, Uuid};
use crate::memory::block::HandleView;
use crate::protocol::{frame, frame_size, framed, Wire};
use crate::transport::script;
use crate::transport::udp::{
    bit, handle_packet, is_bitmap, is_datagram, kind_code, marks, secret_view, tag, Kind, Packet, PacketView,
};
use crate::transport::udp_io::{as_batch, max_gso_segments, restore_datagrams, ReceivedBatch};
use vstd::prelude::*;

verus! {

/// Numbers are written with the most significant byte first: a byte more makes
/// 256 times the number and the byte.
pub proof fn law_most_significant_byte_first(s: Seq<u8>, b: u8)
    ensures
        be_value(Seq::<u8>::empty()) == 0,
        be_value(s.push(b)) == 256 * be_value(s) + b,
{
    assert(s.push(b).drop_last() =~= s);
}

/// The kinds of packets and their numbers.
pub proof fn law_numbers_of_the_kinds(kind: Kind)
    ensures
        kind_code(kind) == 1 <==> kind is Start,
        kind_code(kind) == 2 <==> kind is StartAck,
        kind_code(kind) == 3 <==> kind is Data,
        kind_code(kind) == 4 <==> kind is Ack,
        kind_code(kind) == 5 <==> kind is Nack,
        kind_code(kind) == 6 <==> kind is Fin,
        kind_code(kind) == 7 <==> kind is Complete,
        kind_code(kind) == 8 <==> kind is Abort,
        kind_code(kind) == 9 <==> kind is ReadRequest,
        kind_code(kind) == 10 <==> kind is Error,
{
}

/// Where the parts of a packet stand in its datagram: 166 bytes go before the
/// payload, and there are no more than 1400 in all.
pub proof fn law_layout_of_a_datagram(d: Seq<u8>, p: PacketView, secret: Option<Seq<char>>)
    requires
        is_datagram(d, p, secret),
    ensures
        166 <= d.len() <= 1400,
        d[0] == 'T' as u8 && d[1] == 'P' as u8 && d[2] == 'U' as u8 && d[3] == '1' as u8,
        d[4] == 1,
        d[5] == kind_code(p.kind),
        be_value(d.subrange(6, 8)) == p.flags,
        be_value(d.subrange(8, 24)) == p.transfer_id,
        be_value(d.subrange(24, 40)) == p.object_id,
        be_value(d.subrange(40, 56)) == p.block_id,
        be_value(d.subrange(56, 72)) == p.lease_token,
        be_value(d.subrange(72, 80)) == p.generation,
        be_value(d.subrange(80, 84)) == p.sequence_id,
        be_value(d.subrange(84, 92)) == p.offset,
        be_value(d.subrange(92, 100)) == p.total_size,
        be_value(d.subrange(100, 102)) == p.payload.len() == d.len() - 166,
        d.subrange(102, 134) == blake3_digest(d.subrange(166, d.len() as int)),
        d.subrange(166, d.len() as int) == p.payload,
        secret matches Some(s) ==> d.subrange(134, 166) == crate::digest::hmac_sha256_code(
            vstd::utf8::encode_utf8(s),
            d.subrange(0, 134) + p.payload,
        ),
        secret is None ==> forall|i: int| 134 <= i < 166 ==> d[i] == 0,
{
    lemma_widths();
    assert(d.subrange(0, 4)[0] == d[0] && d.subrange(0, 4)[1] == d[1] && d.subrange(0, 4)[2] == d[2] && d.subrange(
        0,
        4,
    )[3] == d[3]);
    lemma_value_of_be(p.flags as nat, 2);
    lemma_value_of_be(p.transfer_id as nat, 16);
    lemma_value_of_be(p.object_id as nat, 16);
    lemma_value_of_be(p.block_id as nat, 16);
    lemma_value_of_be(p.lease_token as nat, 16);
    lemma_value_of_be(p.generation as nat, 8);
    lemma_value_of_be(p.sequence_id as nat, 4);
    lemma_value_of_be(p.offset as nat, 8);
    lemma_value_of_be(p.total_size as nat, 8);
    lemma_value_of_be(p.payload.len(), 2);
    if secret is None {
        assert forall|i: int| 134 <= i < 166 implies d[i] == 0 by {
            assert(d.subrange(134, 166)[i - 134] == d[i]);
        }
    }
}

/// A packet goes out where its payload has no more than 1234 bytes.
pub proof fn law_which_packets_fit(p: Packet, secret: Option<&str>, r: Result<Vec<u8>, Error>)
    requires
        call_ensures(Packet::encode, (&p, secret), r),
    ensures
        r is Ok <==> p@.payload.len() <= 1234,
        r matches Ok(d) ==> d@.len() == 166 + p@.payload.len(),
{
}

/// A datagram is taken where nothing is wrong with it: its length, its first
/// bytes, its version, its kind, and the length, the digest and the code of what
/// it holds.
pub proof fn law_which_datagrams_are_taken(d: &[u8], secret: Option<&str>, r: Result<Packet, Error>)
    requires
        call_ensures(Packet::decode, (d, secret), r),
    ensures
        r is Ok <==> {
            &&& 166 <= d@.len() <= 1400
            &&& d@[0] == 84 && d@[1] == 80 && d@[2] == 85 && d@[3] == 49
            &&& d@[4] == 1
            &&& 1 <= d@[5] <= 10
            &&& be_value(d@.subrange(100, 102)) == d@.len() - 166
            &&& d@.subrange(102, 134) == blake3_digest(d@.subrange(166, d@.len() as int))
            &&& d@.subrange(134, 166) == tag(secret_view(secret), d@.subrange(0, 134) + d@.subrange(166, d@.len() as int))
        },
        r matches Ok(p) ==> p@.payload == d@.subrange(166, d@.len() as int),
{
    if d@.len() >= 166 {
        let m = d@.subrange(0, 4);
        assert(m[0] == d@[0] && m[1] == d@[1] && m[2] == d@[2] && m[3] == d@[3]);
        if d@[0] == 84 && d@[1] == 80 && d@[2] == 85 && d@[3] == 49 {
            assert(m =~= seq![84u8, 80u8, 85u8, 49u8]);
        }
    }
}

/// A packet about a block names its job, the block, its lease, its generation
/// and its size, and has nothing else in it.
pub proof fn law_packets_about_a_block(kind: Kind, h: HandleView, transfer_id: Uuid)
    ensures
        ({
            let p = handle_packet(kind, h, transfer_id);
            &&& p.kind == kind
            &&& p.transfer_id == transfer_id
            &&& p.object_id == h.job_id
            &&& p.block_id == h.id
            &&& p.lease_token == h.lease_token
            &&& p.generation == h.generation
            &&& p.total_size == h.size
            &&& p.flags == 0 && p.sequence_id == 0 && p.offset == 0
            &&& p.payload.len() == 0
        }),
{
}

/// The bits of a byte, from the least significant on.
pub proof fn law_bits_of_a_byte(b: u8)
    ensures
        bit(b, 0) <==> b % 2 == 1,
        bit(b, 1) <==> b / 2 % 2 == 1,
        bit(b, 2) <==> b / 4 % 2 == 1,
        bit(b, 3) <==> b / 8 % 2 == 1,
        bit(b, 4) <==> b / 16 % 2 == 1,
        bit(b, 5) <==> b / 32 % 2 == 1,
        bit(b, 6) <==> b / 64 % 2 == 1,
        bit(b, 7) <==> b / 128 % 2 == 1,
{
    assert(b & (1u8 << 0u8) != 0 <==> b % 2 == 1) by (bit_vector);
    assert(b & (1u8 << 1u8) != 0 <==> b / 2 % 2 == 1) by (bit_vector);
    assert(b & (1u8 << 2u8) != 0 <==> b / 4 % 2 == 1) by (bit_vector);
    assert(b & (1u8 << 3u8) != 0 <==> b / 8 % 2 == 1) by (bit_vector);
    assert(b & (1u8 << 4u8) != 0 <==> b / 16 % 2 == 1) by (bit_vector);
    assert(b & (1u8 << 5u8) != 0 <==> b / 32 % 2 == 1) by (bit_vector);
    assert(b & (1u8 << 6u8) != 0 <==> b / 64 % 2 == 1) by (bit_vector);
    assert(b & (1u8 << 7u8) != 0 <==> b / 128 % 2 == 1) by (bit_vector);
}

/// A bitmap has a bit for each of 256 packets, eight to a byte.
pub proof fn law_bitmap_has_eight_to_a_byte(bitmap: Seq<u8>, byte: int, k: int)
    requires
        0 <= byte < 32,
        0 <= k < 8,
    ensures
        marks(bitmap, 8 * byte + k) <==> bit(bitmap[byte], k as u8),
{
    assert((8 * byte + k) / 8 == byte && (8 * byte + k) % 8 == k);
}

/// A bitmap message names its first packet, marks 256 of them and names a
/// window, which two bytes hold.
pub proof fn law_bitmap_message(payload: Seq<u8>, base: u32, bits: Seq<bool>, window: nat, i: int)
    requires
        is_bitmap(payload, base, bits, window),
        0 <= i < 256,
    ensures
        payload.len() == 38,
        be_value(payload.subrange(0, 4)) == base,
        marks(payload.subrange(4, 36), i) <==> i < bits.len() && bits[i],
        window <= 65_535 ==> be_value(payload.subrange(36, 38)) == window,
        window > 65_535 ==> be_value(payload.subrange(36, 38)) == 65_535,
{
    lemma_widths();
    lemma_value_of_be(base as nat, 4);
    if window <= 65_535 {
        lemma_value_of_be(window, 2);
    } else {
        lemma_value_of_be(65_535, 2);
    }
}

/// Messages of up to eight mebibytes go out and are taken, and no longer ones.
pub proof fn law_longest_message(body: &[u8], sent: Result<Vec<u8>, Error>, header: &[u8], taken: Result<usize, Error>)
    requires
        call_ensures(frame, (body,), sent),
        call_ensures(frame_size, (header,), taken),
        header@.len() == 4,
    ensures
        sent is Ok <==> body@.len() <= 8 * 1024 * 1024,
        sent matches Ok(bytes) ==> {
            &&& bytes@.len() == 4 + body@.len()
            &&& be_value(bytes@.subrange(0, 4)) == body@.len()
            &&& bytes@.skip(4) == body@
        },
        taken is Ok <==> be_value(header@) <= 8 * 1024 * 1024,
        taken matches Ok(n) ==> n == be_value(header@),
{
    if body@.len() <= 8_388_608 {
        lemma_widths();
        lemma_be_len(body@.len(), 4);
        lemma_value_of_be(body@.len(), 4);
        assert(framed(body@).subrange(0, 4) =~= be(body@.len(), 4));
        assert(framed(body@).skip(4) =~= body@);
    }
}

/// Both ends speak the first version: a message of any other is not opened.
pub proof fn law_messages_of_another_version<T>(message: T, made: Wire<T>, came: Wire<T>, r: Result<T, Error>)
    requires
        call_ensures(Wire::<T>::new, (message,), made),
        call_ensures(Wire::<T>::open, (came,), r),
    ensures
        made.protocol_version == 1 && made.message == message,
        r is Ok <==> came.protocol_version == 1,
        r matches Ok(m) ==> m == came.message,
{
}

/// As many datagrams as fit go into a batch: at most 64, and at most 65535
/// bytes.
pub proof fn law_size_of_a_batch(size: usize, r: usize, length: usize, segments: usize, together: bool)
    requires
        size > 0,
        call_ensures(max_gso_segments, (size,), r),
        call_ensures(as_batch, (length, segments), together),
    ensures
        r <= 64,
        r * size <= 65_535,
        r < 64 ==> (r + 1) * size > 65_535,
        together <==> segments >= 2 && length <= 65_535,
{
}

/// What came in one buffer is taken where its datagrams are not empty and have
/// no more than 1400 bytes.
pub proof fn law_which_batches_are_taken(
    buffer: Vec<u8>,
    reported: Option<usize>,
    source: SocketAddress,
    r: Result<ReceivedBatch, Error>,
)
    requires
        call_ensures(restore_datagrams, (&buffer, reported, source), r),
    ensures
        reported matches Some(n) ==> (r is Ok <==> 0 < n <= 1400),
        reported is None ==> (r is Ok <==> 0 < buffer@.len() <= 1400),
        r matches Ok(batch) ==> batch.source == source,
{
}

/// What is signed at the beginning of a connection names the role, the two
/// challenges and the cluster, with bars between them.
pub proof fn law_what_is_signed(role: Seq<char>, server: Uuid, client: Uuid, cluster: Seq<char>)
    ensures
        ({
            let s = script(role, server, client, cluster);
            let n = role.len() as int;
            &&& s.len() == n + 75 + cluster.len()
            &&& s.take(n) == role
            &&& s[n] == '|' && s[n + 37] == '|' && s[n + 74] == '|'
            &&& s.subrange(n + 1, n + 37) == hyphenated(server)
            &&& s.subrange(n + 38, n + 74) == hyphenated(client)
            &&& s.skip(n + 75) == cluster
        }),
{
    let s = script(role, server, client, cluster);
    let n = role.len() as int;
    reveal_strlit("|");
    assert("|"@.len() == 1 && "|"@[0] == '|');
    assert(s.take(n) =~= role);
    assert(s.subrange(n + 1, n + 37) =~= hyphenated(server));
    assert(s.subrange(n + 38, n + 74) =~= hyphenated(client));
    assert(s.skip(n + 75) =~= cluster);
}

/// Bytes are shown as two digits each, the upper half first: ten digits and six
/// small letters.
pub proof fn law_bytes_as_digits(bytes: Seq<u8>, i: int)
    requires
        0 <= i < bytes.len(),
    ensures
        ({
            let t = hex_text(bytes);
            let high = t[2 * i] as u32;
            let low = t[2 * i + 1] as u32;
            &&& t.len() == 2 * bytes.len()
            &&& high == (if bytes[i] / 16 < 10 {
                48 + bytes[i] / 16
            } else {
                87 + bytes[i] / 16
            })
            &&& low == (if bytes[i] % 16 < 10 {
                48 + bytes[i] % 16
            } else {
                87 + bytes[i] % 16
            })
        }),
{
    assert((2 * i) / 2 == i && (2 * i + 1) / 2 == i);
}

proof fn lemma_digit(bytes: Seq<u8>, j: int)
    requires
        0 <= j < 2 * bytes.len(),
    ensures
        hex_text(bytes)[j] == hex_digit(((bytes[j / 2]) as nat / (if j % 2 == 0 { 16nat } else { 1nat })) % 16),
        hex_text(bytes)[j] != '-',
{
    let b = bytes[j / 2] as nat;
    assert(b < 256);
    if j % 2 == 0 {
        assert((b / 16) % 16 == b / 16);
    } else {
        assert(b / 1 == b);
    }
}

/// An identifier is shown as 32 digits in groups of eight, four, four, four and
/// twelve.
pub proof fn law_identifiers_in_groups(id: Uuid, i: int)
    requires
        0 <= i < 36,
    ensures
        hyphenated(id).len() == 36,
        hyphenated(id)[i] == '-' <==> i == 8 || i == 13 || i == 18 || i == 23,
        i < 8 ==> hyphenated(id)[i] == hex_text(be(id as nat, 16))[i],
        8 < i < 13 ==> hyphenated(id)[i] == hex_text(be(id as nat, 16))[i - 1],
        13 < i < 18 ==> hyphenated(id)[i] == hex_text(be(id as nat, 16))[i - 2],
        18 < i < 23 ==> hyphenated(id)[i] == hex_text(be(id as nat, 16))[i - 3],
        23 < i ==> hyphenated(id)[i] == hex_text(be(id as nat, 16))[i - 4],
{
    let b = be(id as nat, 16);
    lemma_be_len(id as nat, 16);
    if i < 8 {
        lemma_digit(b, i);
    } else if 8 < i < 13 {
        lemma_digit(b, i - 1);
    } else if 13 < i < 18 {
        lemma_digit(b, i - 2);
    } else if 18 < i < 23 {
        lemma_digit(b, i - 3);
    } else if 23 < i {
        lemma_digit(b, i - 4);
    }
}

} // verus!
