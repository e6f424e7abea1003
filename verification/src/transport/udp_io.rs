//! Batches of datagrams: many of one size in one buffer.
use crate::address::SocketAddress;
use crate::bytes::slice_of;
use crate::error::Error;
use crate::transport::udp::MAX_DATAGRAM;
use vstd::prelude::*;

verus! {

/// Datagrams in one batch at most.
pub const MAX_GSO_SEGMENTS: usize = 64;

/// Bytes in one batch at most.
pub const MAX_GSO_BYTES: usize = 65_535;

/// Datagrams that came together.
pub struct ReceivedBatch {
    pub datagrams: Vec<Vec<u8>>,
    pub source: SocketAddress,
}

/// How many datagrams of a size go into one batch.
pub fn max_gso_segments(segment_size: usize) -> (r: usize)
    requires
        segment_size > 0,
    ensures
        r <= MAX_GSO_SEGMENTS,
        r * segment_size <= MAX_GSO_BYTES,
        r == MAX_GSO_SEGMENTS || (r + 1) * segment_size > MAX_GSO_BYTES,
{
    let by_bytes: usize = MAX_GSO_BYTES / segment_size;
    proof {
        let size = segment_size as int;
        let n = by_bytes as int;
        assert(n * size <= 65_535 < (n + 1) * size) by (nonlinear_arith)
            requires
                n == 65_535int / size,
                size > 0,
        ;
        assert(n >= 64 ==> 64 * size <= n * size) by (nonlinear_arith)
            requires
                size > 0,
        ;
    }
    if by_bytes < MAX_GSO_SEGMENTS {
        by_bytes
    } else {
        MAX_GSO_SEGMENTS
    }
}

/// Whether a buffer of datagrams goes out as one batch; if not, or if that
/// fails, its datagrams go out one by one.
pub fn as_batch(length: usize, segments: usize) -> (r: bool)
    ensures
        r == (segments > 1 && length <= MAX_GSO_BYTES),
{
    segments > 1 && length <= MAX_GSO_BYTES
}

/// The pieces of a buffer of which all but the last have a size.
pub open spec fn chunks(buffer: Seq<u8>, size: nat) -> Seq<Seq<u8>>
    decreases buffer.len(),
{
    if buffer.len() == 0 || size == 0 {
        Seq::empty()
    } else if buffer.len() <= size {
        seq![buffer]
    } else {
        seq![buffer.take(size as int)] + chunks(buffer.skip(size as int), size)
    }
}

/// The models of byte strings.
pub open spec fn byte_views(v: Seq<Vec<u8>>) -> Seq<Seq<u8>> {
    v.map_values(|x: Vec<u8>| x@)
}

/// All pieces, one behind the other.
pub open spec fn joined(pieces: Seq<Seq<u8>>) -> Seq<u8>
    decreases pieces.len(),
{
    if pieces.len() == 0 {
        Seq::empty()
    } else {
        pieces[0] + joined(pieces.skip(1))
    }
}

/// Cuts a buffer into datagrams of a size; the last may be shorter.
pub fn split_datagrams(buffer: &Vec<u8>, size: usize) -> (r: Vec<Vec<u8>>)
    requires
        size > 0,
    ensures
        byte_views(r@) == chunks(buffer@, size as nat),
{
    let mut r: Vec<Vec<u8>> = Vec::new();
    let total: usize = buffer.len();
    let mut from: usize = 0;
    proof {
        assert(buffer@.skip(0) =~= buffer@);
        assert(byte_views(r@) + chunks(buffer@, size as nat) =~= chunks(buffer@, size as nat));
    }
    while from < total
        invariant
            size > 0,
            from <= total == buffer@.len(),
            byte_views(r@) + chunks(buffer@.skip(from as int), size as nat) == chunks(buffer@, size as nat),
        decreases total - from,
    {
        let ghost rest = buffer@.skip(from as int);
        let ghost before = byte_views(r@);
        let to: usize = if size < total - from {
            from + size
        } else {
            total
        };
        let part: Vec<u8> = slice_of(buffer.as_slice(), from, to);
        proof {
            assert(rest.skip(to - from) =~= buffer@.skip(to as int));
            if rest.len() > size {
                assert(part@ =~= rest.take(size as int));
            } else {
                assert(part@ =~= rest);
                assert(chunks(buffer@.skip(to as int), size as nat) =~= Seq::<Seq<u8>>::empty());
            }
            assert(chunks(rest, size as nat) =~= seq![part@] + chunks(buffer@.skip(to as int), size as nat));
        }
        r.push(part);
        proof {
            assert(byte_views(r@) =~= before.push(part@));
            assert(byte_views(r@) + chunks(buffer@.skip(to as int), size as nat) =~= before + (seq![part@] + chunks(
                buffer@.skip(to as int),
                size as nat,
            )));
        }
        from = to;
    }
    proof {
        assert(chunks(buffer@.skip(from as int), size as nat) =~= Seq::<Seq<u8>>::empty());
        assert(byte_views(r@) =~= chunks(buffer@, size as nat));
    }
    r
}

/// The datagrams of a buffer that was received: those of the size that the
/// system reports, or a single one.
pub fn restore_datagrams(buffer: &Vec<u8>, reported: Option<usize>, source: SocketAddress) -> (r: Result<
    ReceivedBatch,
    Error,
>)
    ensures
        ({
            let size = match reported {
                Some(n) => n as nat,
                None => buffer@.len(),
            };
            match r {
                Ok(batch) => {
                    &&& 0 < size <= MAX_DATAGRAM
                    &&& byte_views(batch.datagrams@) == chunks(buffer@, size)
                    &&& batch.source == source
                },
                Err(e) => !(0 < size <= MAX_DATAGRAM) && e == Error::SegmentSize,
            }
        }),
{
    let size: usize = match reported {
        Some(n) => n,
        None => buffer.len(),
    };
    if size == 0 || size > MAX_DATAGRAM {
        return Err(Error::SegmentSize);
    }
    Ok(ReceivedBatch { datagrams: split_datagrams(buffer, size), source })
}

/// Cutting a buffer loses nothing: the datagrams, one behind the other, are the
/// buffer, and none but the last is shorter than the others.
pub proof fn law_boundaries_are_restored(buffer: Seq<u8>, size: nat)
    requires
        size > 0,
    ensures
        joined(chunks(buffer, size)) == buffer,
        forall|i: int| 0 <= i < chunks(buffer, size).len() - 1 ==> (#[trigger] chunks(buffer, size)[i]).len() == size,
        chunks(buffer, size).len() > 0 ==> 0 < chunks(buffer, size).last().len() <= size,
    decreases buffer.len(),
{
    let c = chunks(buffer, size);
    if buffer.len() == 0 {
        assert(joined(c) =~= buffer);
    } else if buffer.len() <= size {
        assert(c.skip(1) =~= Seq::<Seq<u8>>::empty());
        assert(joined(c.skip(1)) =~= Seq::<u8>::empty());
        assert(joined(c) =~= buffer);
    } else {
        let rest = chunks(buffer.skip(size as int), size);
        law_boundaries_are_restored(buffer.skip(size as int), size);
        assert(c.skip(1) =~= rest);
        assert(joined(c) =~= buffer.take(size as int) + buffer.skip(size as int));
        assert(joined(c) =~= buffer);
        assert(rest.len() > 0);
        assert(c.last() == rest.last());
        assert forall|i: int| 0 <= i < c.len() - 1 implies (#[trigger] c[i]).len() == size by {
            if i > 0 {
                assert(c[i] == rest[i - 1]);
            }
        }
    }
}

} // verus!
