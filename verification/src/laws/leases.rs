//! How long a lease lasts, and what it opens.
use crate::address::SocketAddress;
use crate::cluster::election::Leadership;
use crate::error::Error;
use crate::ids::Uuid;
use crate::memory::block::{BlockState, HandleView, LocationView, MemoryBlockHandle};
use crate::memory::local_ram::{
    chunk_check, commit_check, expired, lease_check, publish_check, read_check, store_check, BlockView, LocalRam,
};
use crate::memory::migration::{begun, migration_check, Migration};
use crate::protocol::request::Request;
use crate::runtime::blocks::{renewed, resolve_check};
use crate::runtime::control::{promised, tensor_view, Allocation, ControlStep, Reply};
use crate::runtime::monitor::swept;
use crate::runtime::{MemorySample, Runtime};
use vstd::prelude::*;

verus! {

/// A block that a node is asked for gets a lease of the configured seconds from
/// now, and is to be filled: it is empty, of the first generation, and of the
/// job, size and tensor that were asked for.
pub proof fn law_granted_lease_lasts(
    a: Runtime,
    al: Allocation,
    id: Uuid,
    token: Uuid,
    now_ms: u64,
    r: Result<(SocketAddress, MemoryBlockHandle), Error>,
)
    requires
        a.wf(),
        call_ensures(Runtime::allocation_next, (&a, &al, id, token, now_ms), r),
        now_ms + a.config.lease_seconds * 1000 <= u64::MAX,
    ensures
        r is Ok <==> al.next < al.candidates@.len(),
        r matches Ok((address, h)) ==> {
            let c = al.candidates@[al.next as int];
            &&& h@.lease_expires_ms == now_ms + a.config.lease_seconds * 1000
            &&& address == c.address
            &&& h@.owner_node == c.node_id
            &&& h@.owner_incarnation == c.incarnation
            &&& h@.location_type == (LocationView::Ram { node_id: c.node_id })
            &&& h@.id == id
            &&& h@.lease_token == token
            &&& h@.job_id == al.job_id
            &&& h@.size == al.size
            &&& h@.tensor == tensor_view(al.tensor)
            &&& h@.state == BlockState::Writing
            &&& h@.checksum is None
            &&& h@.generation == 0
        },
        r matches Err(e) ==> e.text() == "TRAINPOOL_OUT_OF_CAPACITY: "@ + al.last_error@,
{
}

/// A block that moves gets a lease of the configured seconds from when the move
/// begins. Its place and its generation change, and it is to be written again;
/// what it is, whose it is and what opens it stay.
pub proof fn law_moved_block_keeps_its_holder(
    m: Migration,
    a: Runtime,
    h: HandleView,
    destination: Uuid,
    leadership: Leadership,
    now_ms: u64,
)
    requires
        a.wf(),
        a.ram@.contains_key(h.id),
        a.membership@.contains_key(destination),
        begun(m, a, h, destination, leadership, now_ms),
        now_ms + a.config.lease_seconds * 1000 <= u64::MAX,
    ensures
        ({
            let t = m.target@;
            let b = a.ram@[h.id].handle;
            let n = a.membership@[destination].capabilities;
            &&& t.lease_expires_ms == now_ms + a.config.lease_seconds * 1000
            &&& b.generation < u64::MAX ==> t.generation == b.generation + 1
            &&& t.owner_node == destination
            &&& t.owner_incarnation == n.incarnation
            &&& t.location_type == (LocationView::Ram { node_id: destination })
            &&& t.state == BlockState::Writing
            &&& t.checksum is None
            &&& t.id == h.id
            &&& t.job_id == b.job_id
            &&& t.size == b.size
            &&& t.lease_token == b.lease_token
            &&& t.tensor == b.tensor
            &&& m.handle@ == h
            &&& m.leadership == leadership
            &&& m.address == n.network.control_address
            &&& m.chunk <= a.config.chunk_bytes
            &&& m.chunk <= n.network.chunk_bytes
            &&& m.chunk == a.config.chunk_bytes || m.chunk == n.network.chunk_bytes
            &&& m.udp <==> a.config.data_transport@ == "udp"@ && n.network.data_transport == "udp"@
            &&& n.network.data_address is Some ==> m.data_address == n.network.data_address->0
            &&& n.network.data_address is None ==> m.data_address == n.network.control_address
            &&& m.sent == 0
        }),
{
    assert(a.ram.blocks@.contains_key(h.id));
    assert(a.ram@[h.id].handle.id == h.id);
}

/// A move may begin exactly where the block is here, committed, of the
/// generation that was named, under a lease that the token opens, and where the
/// destination is another node that is known.
pub proof fn law_what_may_move(a: Runtime, h: HandleView, destination: Uuid, now_ms: u64)
    ensures
        migration_check(a, h, destination, now_ms) is None <==> {
            let b = a.ram@[h.id].handle;
            &&& destination != a.node_id
            &&& a.ram@.contains_key(h.id)
            &&& h.lease_token == b.lease_token
            &&& now_ms < b.lease_expires_ms
            &&& b.generation == h.generation
            &&& b.state == BlockState::Ready
            &&& a.membership@.contains_key(destination)
        },
{
}

/// A renewal makes a lease last the configured seconds from now, here, in the
/// answer and in what the leader is told; so it does not cut short a lease that
/// was granted before. Nothing else changes. Only the holder of a lease that
/// has not ended can renew it.
pub proof fn law_renewed_lease_lasts(a: Runtime, z: Runtime, h: HandleView, now_ms: u64, earlier_ms: u64, r: Result<ControlStep, Error>)
    requires
        renewed(a, z, h, now_ms, r),
        now_ms + a.config.lease_seconds * 1000 <= u64::MAX,
        earlier_ms <= now_ms,
    ensures
        r is Ok <==> {
            &&& a.ram@.contains_key(h.id)
            &&& h.lease_token == a.ram@[h.id].handle.lease_token
            &&& now_ms < a.ram@[h.id].handle.lease_expires_ms
        },
        r is Err ==> z == a,
        r is Ok ==> {
            let after = z.ram@[h.id];
            let before = a.ram@[h.id];
            &&& after.handle.lease_expires_ms == now_ms + a.config.lease_seconds * 1000
            &&& after.handle.lease_expires_ms >= earlier_ms + a.config.lease_seconds * 1000
            &&& after == (BlockView {
                handle: HandleView { lease_expires_ms: after.handle.lease_expires_ms, ..before.handle },
                ..before
            })
            &&& z.ram@.dom() == a.ram@.dom().insert(h.id)
            &&& forall|k: Uuid| k != h.id && #[trigger] a.ram@.contains_key(k) ==> z.ram@[k] == a.ram@[k]
            &&& z.ram.accounting == a.ram.accounting
            &&& r matches Ok(
                ControlStep::Register {
                    request: Request::Register { handle: told, previous_generation, leadership },
                    reply: Reply::Handle { handle: shown },
                },
            ) && {
                &&& told@ == after.handle
                &&& shown@ == after.handle
                &&& previous_generation is None
                &&& leadership == a.led()
            }
        },
{
    if r is Ok {
        assert(z.ram@.dom() =~= a.ram@.dom().insert(h.id));
    }
}

/// RAM that is promised to an SDK is promised for the configured seconds from
/// now, just the bytes that were asked for, no more than one chunk, and within
/// the budget.
pub proof fn law_staging_is_promised_for_a_lease(
    a: Runtime,
    z: Runtime,
    bytes: u64,
    id: Uuid,
    sample: MemorySample,
    now_ms: u64,
    r: Result<Uuid, Error>,
)
    requires
        promised(a, z, bytes, id, sample, now_ms, r),
        !a.staging@.contains_key(id),
        now_ms + a.config.lease_seconds * 1000 <= u64::MAX,
    ensures
        bytes > a.config.chunk_bytes ==> r is Err && z == a,
        r is Ok ==> {
            &&& r == Ok::<Uuid, Error>(id)
            &&& bytes <= a.config.chunk_bytes
            &&& z.staging@.contains_key(id)
            &&& z.staging@[id].deadline_ms == now_ms + a.config.lease_seconds * 1000
            &&& z.staging@[id].reservation.entry().bytes == bytes
            &&& forall|k: Uuid| k != id && #[trigger] a.staging@.contains_key(k) ==> z.staging@[k] == a.staging@[k]
            &&& z.ram.accounting.owned == a.ram.accounting.owned + bytes
            &&& z.ram.accounting.owned <= z.ram.accounting.budget
            &&& z.ram.accounting.peak >= a.ram.accounting.peak
            &&& z.ram.accounting.peak >= z.ram.accounting.owned
            &&& z.ram.accounting.peak == a.ram.accounting.peak || z.ram.accounting.peak == z.ram.accounting.owned
            &&& z.ram@ == a.ram@
        },
        r is Err && bytes <= a.config.chunk_bytes ==> {
            &&& a.ram.accounting.owned + bytes > z.ram.accounting.budget
            &&& z.ram.accounting.owned == a.ram.accounting.owned
            &&& z.staging == a.staging
        },
{
}

/// A lease opens a block to the holder of its token until it ends, and to
/// nobody else. What is asked of the block decides the rest: bytes go only into
/// one that is being written, in order and within one transfer; only a whole
/// upload with the right digest is committed; only a committed one is published
/// or read, and within its bounds.
pub proof fn law_what_a_lease_opens(
    b: BlockView,
    h: HandleView,
    transfer_id: Uuid,
    offset: u64,
    length: nat,
    total_size: u64,
    checksum: Seq<char>,
    now_ms: u64,
)
    ensures
        lease_check(b.handle, h.lease_token, now_ms) is Ok <==> h.lease_token == b.handle.lease_token && now_ms
            < b.handle.lease_expires_ms,
        chunk_check(b, h, transfer_id, offset, total_size, now_ms) is Ok <==> {
            &&& h.lease_token == b.handle.lease_token
            &&& now_ms < b.handle.lease_expires_ms
            &&& b.handle.state == BlockState::Writing
            &&& b.handle.generation == h.generation
            &&& b.written == offset
            &&& b.handle.size == total_size
            &&& b.transfer_id is None || b.transfer_id == Some(transfer_id)
        },
        store_check(b, h, offset, now_ms) is Ok <==> {
            &&& h.lease_token == b.handle.lease_token
            &&& now_ms < b.handle.lease_expires_ms
            &&& b.handle.state == BlockState::Writing
            &&& b.handle.generation == h.generation
            &&& b.written == offset
        },
        read_check(b, h, offset, length, now_ms) is Ok <==> {
            &&& h.lease_token == b.handle.lease_token
            &&& now_ms < b.handle.lease_expires_ms
            &&& b.handle.state == BlockState::Ready
            &&& b.handle.generation == h.generation
            &&& offset + length <= b.bytes.len()
        },
        publish_check(b, h, now_ms) is Ok <==> {
            &&& h.lease_token == b.handle.lease_token
            &&& now_ms < b.handle.lease_expires_ms
            &&& b.handle.state == BlockState::Ready
            &&& b.handle.generation == h.generation
        },
        commit_check(b, h.lease_token, checksum, now_ms) is Ok <==> {
            &&& h.lease_token == b.handle.lease_token
            &&& now_ms < b.handle.lease_expires_ms
            &&& b.written == b.bytes.len()
            &&& checksum == crate::digest::hex_text(crate::digest::blake3_digest(b.bytes))
        },
{
}

/// The leader tells where a block is exactly while its lease lasts, to the
/// holder of its token, unless it is lost or its node is not known.
pub proof fn law_what_is_resolved(a: Runtime, id: Uuid, token: Uuid, now_ms: u64)
    ensures
        resolve_check(a, id, token, now_ms) is None <==> {
            let h = a.residency@[id];
            &&& a.residency@.contains_key(id)
            &&& h.lease_token == token
            &&& now_ms < h.lease_expires_ms
            &&& h.state != BlockState::Lost
            &&& a.membership@.contains_key(h.owner_node)
        },
{
}

/// The sweep takes exactly the blocks whose leases have ended, but for those
/// that something holds and those on the move, and exactly the promises that
/// are past their deadlines.
pub proof fn law_sweep_takes_what_has_ended(a: LocalRam, z: LocalRam, m: Runtime, n: Runtime, now_ms: u64, id: Uuid)
    requires
        expired(a, z, now_ms),
        swept(m, n, now_ms),
    ensures
        z@.contains_key(id) <==> a@.contains_key(id) && (a@[id].busy || a@[id].handle.lease_expires_ms > now_ms
            || a@[id].handle.state == BlockState::Migrating),
        z@.contains_key(id) ==> z@[id] == a@[id],
        z.accounting.budget == a.accounting.budget && z.accounting.peak == a.accounting.peak,
        n.ram.accounting.budget == m.ram.accounting.budget && n.ram.accounting.peak == m.ram.accounting.peak,
        n.staging@.contains_key(id) <==> m.staging@.contains_key(id) && m.staging@[id].deadline_ms > now_ms,
        n.ram@ == m.ram@,
{
}

} // verus!
