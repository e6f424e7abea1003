//! Chunks on their way to and from the RAM of other nodes.
use crate::config::text_view;
use crate::digest::{blake3_digest, blake3_hash, hex_encode, hex_text};
use crate::error::Error;
use crate::ids::Uuid;
use crate::memory::block::MemoryBlockHandle;
use crate::protocol::request::Request;
use crate::text::same_text;
use vstd::prelude::*;

verus! {

/// The digest of a chunk, in hexadecimal.
pub open spec fn chunk_sum(payload: Seq<u8>) -> Seq<char> {
    hex_text(blake3_digest(payload))
}

/// The digest of a chunk, in hexadecimal.
pub fn chunk_checksum(payload: &[u8]) -> (r: String)
    ensures
        r@ == chunk_sum(payload@),
{
    let digest: [u8; 32] = blake3_hash(payload);
    hex_encode(&digest)
}

/// What comes before the bytes of a chunk that was read.
pub struct ChunkMetadata {
    pub transfer_id: Uuid,
    pub object_id: Uuid,
    pub offset: u64,
    pub length: usize,
    pub total_size: u64,
    pub checksum: String,
}

impl ChunkMetadata {
    /// What comes before these bytes.
    pub fn new(transfer_id: Uuid, object_id: Uuid, offset: u64, payload: &[u8], total_size: u64) -> (r: Self)
        ensures
            r.transfer_id == transfer_id,
            r.object_id == object_id,
            r.offset == offset,
            r.length == payload@.len(),
            r.total_size == total_size,
            r.checksum@ == chunk_sum(payload@),
    {
        ChunkMetadata {
            transfer_id,
            object_id,
            offset,
            length: payload.len(),
            total_size,
            checksum: chunk_checksum(payload),
        }
    }
}

/// The request that announces a chunk to the owner of its block.
pub fn write_request(handle: &MemoryBlockHandle, transfer_id: Uuid, offset: u64, payload: &[u8]) -> (r: Request)
    ensures
        r matches Request::WriteChunk {
            handle: h,
            transfer_id: t,
            offset: o,
            length,
            total_size,
            checksum,
            direct,
        } && {
            &&& h@ == handle@
            &&& t == transfer_id
            &&& o == offset
            &&& length == payload@.len()
            &&& total_size == handle.size
            &&& checksum@ == chunk_sum(payload@)
            &&& direct
        },
{
    Request::WriteChunk {
        handle: handle.duplicate(),
        transfer_id,
        offset,
        length: payload.len(),
        total_size: handle.size,
        checksum: chunk_checksum(payload),
        direct: true,
    }
}

/// The request for a chunk to the owner of its block.
pub fn read_request(handle: &MemoryBlockHandle, transfer_id: Uuid, offset: u64, length: usize) -> (r: Request)
    ensures
        r matches Request::ReadChunk { handle: h, transfer_id: t, offset: o, length: l, direct } && {
            &&& h@ == handle@
            &&& t == transfer_id
            &&& o == offset
            &&& l == length
            &&& direct
        },
{
    Request::ReadChunk { handle: handle.duplicate(), transfer_id, offset, length, direct: true }
}

/// Lets through a chunk whose digest is the one that came before it.
pub fn check_chunk(payload: &[u8], named: &Option<String>) -> (r: Result<(), Error>)
    ensures
        r == if text_view(*named) == Some(chunk_sum(payload@)) {
            Ok(())
        } else {
            Err(Error::ChecksumMismatch)
        },
{
    match named {
        Some(text) => {
            let found: String = chunk_checksum(payload);
            if same_text(found.as_str(), text.as_str()) {
                Ok(())
            } else {
                Err(Error::ChecksumMismatch)
            }
        },
        None => Err(Error::ChecksumMismatch),
    }
}

} // verus!
