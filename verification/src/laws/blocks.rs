//! Blocks: where they may be made, what is reported of them, and their bytes.
use crate::cluster::election::Leadership;
use crate::digest::{blake3_digest, hex_text};
use crate::error::Error;
use crate::ids::Uuid;
use crate::memory::block::{
    element_width, tensor_check, BlockState, HandleView, LocationView, MemoryBlockHandle, TensorView,
};
use crate::memory::local_ram::{listed, returned, views, BlockView, LocalRam};
use crate::memory::migration::{migrated, next_piece, Migration, Outcome, Stage, Step};
use crate::double::Double;
use crate::memory::residency::{orphaned, registered};
use crate::protocol::request::Request;
use crate::runtime::blocks::{committed, given_back, local_check, register_check, settled};
use crate::runtime::control::{ControlStep, Reply};
use crate::runtime::data::{landed, path_of, relayed, DataPath, Relay};
use crate::runtime::dispatch::{answered, Moment};
use crate::runtime::{MemorySample, Runtime};
use vstd::prelude::*;

verus! {

/// An allocation here needs the leader's word, this node and this start of it
/// as the owner, RAM as the place, an upload that has not begun, and a tensor
/// that fits.
pub proof fn law_what_may_be_allocated(a: Runtime, h: HandleView, leadership: Leadership)
    ensures
        local_check(a, h, leadership) is None <==> {
            &&& a.led() == leadership
            &&& h.owner_node == a.node_id
            &&& h.owner_incarnation == a.me().incarnation
            &&& h.location_type == (LocationView::Ram { node_id: a.node_id })
            &&& h.state == BlockState::Writing
            &&& h.checksum is None
            &&& h.tensor is Some ==> tensor_check(h.tensor->0, h.size) is Ok
        },
{
}

/// A block that was made is all zeros, of the declared size, with nothing
/// written; it shows at once only if it did not come from elsewhere. It is paid
/// for, for the node and for its job, and 256 KiB of the budget stay free.
/// Every other block is as it was.
pub proof fn law_new_block(
    a: Runtime,
    z: Runtime,
    h: HandleView,
    leadership: Leadership,
    sample: MemorySample,
    r: Result<MemoryBlockHandle, Error>,
)
    requires
        a.wf(),
        z.wf(),
        settled(a, z, h, leadership, sample, r),
        r is Ok,
    ensures
        ({
            let b = z.ram@[h.id];
            &&& (r->Ok_0)@ == h
            &&& !a.ram@.contains_key(h.id)
            &&& z.ram@.contains_key(h.id)
            &&& b.handle == h
            &&& b.bytes.len() == h.size
            &&& forall|i: int| 0 <= i < b.bytes.len() ==> #[trigger] b.bytes[i] == 0
            &&& b.written == 0
            &&& b.transfer_id is None
            &&& b.published <==> h.generation == 0
            &&& !b.busy
            &&& b.pins == 0
        }),
        z.ram@.dom() == a.ram@.dom().insert(h.id),
        forall|k: Uuid| k != h.id && #[trigger] a.ram@.contains_key(k) ==> z.ram@[k] == a.ram@[k],
        z.ram.accounting.owned == a.ram.accounting.owned + h.size,
        z.ram.accounting.owned + 262_144 <= z.ram.accounting.budget,
        z.ram.accounting.job_owned(h.job_id) == a.ram.accounting.job_owned(h.job_id) + h.size,
        z.ram.accounting.peak >= z.ram.accounting.owned,
        z.ram.accounting.peak >= a.ram.accounting.peak,
        z.ram.accounting.peak == z.ram.accounting.owned || z.ram.accounting.peak == a.ram.accounting.peak,
        a.ram.blocks.keys().len() < 100_000,
        a.metrics@.contains_key(h.job_id) && a.metrics@[h.job_id].tensor_allocations < u64::MAX
            ==> z.metrics@[h.job_id].tensor_allocations == a.metrics@[h.job_id].tensor_allocations + 1,
{
    assert(z.ram@.dom() =~= a.ram@.dom().insert(h.id));
}

/// What is refused for want of room would have left less than 256 KiB of the
/// budget, or the store is full; a block that is there is not made again.
pub proof fn law_refused_block(
    a: Runtime,
    z: Runtime,
    h: HandleView,
    leadership: Leadership,
    sample: MemorySample,
    r: Result<MemoryBlockHandle, Error>,
)
    requires
        a.wf(),
        z.wf(),
        settled(a, z, h, leadership, sample, r),
        r is Err,
    ensures
        z.ram@ == a.ram@,
        z.ram.accounting.owned == a.ram.accounting.owned,
        r == Err::<MemoryBlockHandle, Error>(Error::Headroom) ==> a.ram.accounting.owned + h.size + 262_144
            > z.ram.accounting.budget,
        r == Err::<MemoryBlockHandle, Error>(Error::BlockExists) ==> a.ram@.contains_key(h.id),
        r == Err::<MemoryBlockHandle, Error>(Error::BlockLimit) ==> a.ram.blocks.keys().len() >= 100_000
            || a.ram.next_serial == u64::MAX,
        local_check(a, h, leadership) is None && !a.ram@.contains_key(h.id) && a.ram.blocks.keys().len() < 100_000
            && a.ram.next_serial < u64::MAX && a.ram.accounting.owned + h.size + 262_144 <= z.ram.accounting.budget
            && h.size <= usize::MAX ==> r == Err::<MemoryBlockHandle, Error>(Error::MemoryExhausted),
{
}

/// Bytes are promised exactly where the budget has room for them beside what is
/// owned already.
pub proof fn law_store_admits_within_its_budget(s: LocalRam, h: HandleView)
    ensures
        s.admission(h) is Ok <==> {
            &&& !s@.contains_key(h.id)
            &&& s.blocks.keys().len() < 100_000
            &&& s.next_serial < u64::MAX
            &&& h.size <= usize::MAX
            &&& s.accounting.owned + h.size <= s.accounting.budget
        },
{
}

/// A tensor has the bytes of its shape: those of one element, times every
/// dimension. It is contiguous, has at most 32 dimensions, and says its length
/// truly.
pub proof fn law_tensor_has_its_bytes(t: TensorView, size: u64, d: u64)
    ensures
        tensor_check(t, size) is Ok ==> {
            &&& t.layout == "contiguous"@
            &&& t.shape.len() <= 32
            &&& t.byte_length == size
            &&& t.shape.len() == 0 ==> element_width(t.dtype) == Some(size as nat)
        },
        tensor_check(t, size) is Ok && t.shape.len() < 32 && size * d <= u64::MAX ==> tensor_check(
            TensorView { shape: t.shape.push(d), byte_length: (size * d) as u64, ..t },
            (size * d) as u64,
        ) is Ok,
        tensor_check(t, size) is Ok ==> forall|other: u64| other != size ==> tensor_check(t, other) is Err,
{
    assert(t.shape.push(d).drop_last() =~= t.shape);
}

/// The widths of the elements.
pub proof fn law_element_widths()
    ensures
        element_width("uint8"@) == Some(1nat) && element_width("int8"@) == Some(1nat) && element_width("bool"@) == Some(
            1nat,
        ),
        element_width("float16"@) == Some(2nat) && element_width("bfloat16"@) == Some(2nat) && element_width("int16"@)
            == Some(2nat),
        element_width("float32"@) == Some(4nat) && element_width("int32"@) == Some(4nat),
        element_width("float64"@) == Some(8nat) && element_width("int64"@) == Some(8nat) && element_width("complex64"@)
            == Some(8nat),
        element_width("complex128"@) == Some(16nat),
{
    reveal_strlit("uint8");
    reveal_strlit("int8");
    reveal_strlit("bool");
    reveal_strlit("float16");
    reveal_strlit("bfloat16");
    reveal_strlit("int16");
    reveal_strlit("float32");
    reveal_strlit("int32");
    reveal_strlit("float64");
    reveal_strlit("int64");
    reveal_strlit("complex64");
    reveal_strlit("complex128");
    assert("uint8"@.len() == 5 && "int8"@.len() == 4 && "bool"@.len() == 4 && "float16"@.len() == 7);
    assert("bfloat16"@.len() == 8 && "int16"@.len() == 5 && "float32"@.len() == 7 && "int32"@.len() == 5);
    assert("float64"@.len() == 7 && "int64"@.len() == 5 && "complex64"@.len() == 9 && "complex128"@.len() == 10);
    assert("int16"@[3] == '1' && "int32"@[3] == '3' && "int64"@[3] == '6' && "uint8"@[3] == 't');
    assert("float16"@[5] == '1' && "float32"@[5] == '3' && "float64"@[5] == '6');
}

/// What was reported last of a live block is known, as far as it is news: a
/// block that was not known, and a later generation, are taken as they are; in
/// one generation the longer lease stays, and what is committed stays
/// committed.
pub proof fn law_reports_are_taken(m: Map<Uuid, HandleView>, h: HandleView)
    ensures
        registered(m, h).contains_key(h.id),
        !m.contains_key(h.id) ==> registered(m, h)[h.id] == h,
        m.contains_key(h.id) && m[h.id].lease_expires_ms != 0 && h.generation > m[h.id].generation ==> registered(
            m,
            h,
        )[h.id] == h,
        m.contains_key(h.id) && m[h.id].lease_expires_ms != 0 && h.generation == m[h.id].generation
            && h.lease_expires_ms == 0 ==> registered(m, h)[h.id] == h,
        m.contains_key(h.id) && m[h.id].lease_expires_ms != 0 && h.generation == m[h.id].generation
            && h.lease_expires_ms != 0 ==> {
            let known = m[h.id];
            let after = registered(m, h)[h.id];
            &&& after.lease_expires_ms >= known.lease_expires_ms
            &&& after.lease_expires_ms >= h.lease_expires_ms
            &&& after.lease_expires_ms == known.lease_expires_ms || after.lease_expires_ms == h.lease_expires_ms
            &&& known.state == BlockState::Ready && h.state == BlockState::Writing ==> after == (HandleView {
                lease_expires_ms: after.lease_expires_ms,
                ..known
            })
            &&& !(known.state == BlockState::Ready && h.state == BlockState::Writing) ==> after == (HandleView {
                lease_expires_ms: after.lease_expires_ms,
                ..h
            })
        },
        m.contains_key(h.id) && h.generation < m[h.id].generation ==> registered(m, h) == m,
        m.contains_key(h.id) && m[h.id].lease_expires_ms == 0 ==> registered(m, h) == m,
{
}

/// A block is lost with the node that has it, and only with that.
pub proof fn law_blocks_are_lost_with_their_node(h: HandleView, node: Uuid)
    ensures
        h.owner_node == node ==> orphaned(h, node) == (HandleView { state: BlockState::Lost, ..h }),
        h.owner_node != node ==> orphaned(h, node) == h,
{
}

/// The leader takes a report under its own leadership. One that moves a block
/// must name the generation that is known, carry the block's token, be the next
/// generation, and be committed.
pub proof fn law_what_the_leader_takes(a: Runtime, h: HandleView, previous: Option<u64>, leadership: Leadership)
    ensures
        previous is None ==> (register_check(a, h, previous, leadership) is None <==> a.led() == leadership),
        previous matches Some(g) && g < u64::MAX ==> (register_check(a, h, previous, leadership) is None <==> {
            &&& a.led() == leadership
            &&& a.residency@.contains_key(h.id)
            &&& a.residency@[h.id].generation == previous->0
            &&& a.residency@[h.id].lease_token == h.lease_token
            &&& h.generation == previous->0 + 1
            &&& h.state == BlockState::Ready
        }),
{
}

/// A commit needs every byte and the digest of them all. It makes the block
/// readable under that digest and changes nothing else. The leader hears of it
/// at once only where the block did not come from elsewhere.
pub proof fn law_commit(
    a: Runtime,
    z: Runtime,
    h: HandleView,
    checksum: Seq<char>,
    now_ms: u64,
    r: Result<ControlStep, Error>,
)
    requires
        committed(a, z, h, checksum, now_ms, r),
    ensures
        r is Ok <==> {
            let b = a.ram@[h.id];
            &&& a.ram@.contains_key(h.id)
            &&& h.lease_token == b.handle.lease_token
            &&& now_ms < b.handle.lease_expires_ms
            &&& b.written == b.bytes.len()
            &&& checksum == hex_text(blake3_digest(b.bytes))
        },
        r is Err ==> z == a,
        r is Ok ==> {
            let b = a.ram@[h.id];
            let after = z.ram@[h.id];
            &&& after.handle.state == BlockState::Ready
            &&& after.handle.checksum == Some(checksum)
            &&& after == (BlockView {
                handle: HandleView { state: BlockState::Ready, checksum: Some(checksum), ..b.handle },
                ..b
            })
            &&& forall|k: Uuid| k != h.id && #[trigger] a.ram@.contains_key(k) ==> z.ram@[k] == a.ram@[k]
            &&& z.residency == a.residency
            &&& b.handle.generation == 0 ==> (r matches Ok(
                ControlStep::Register {
                    request: Request::Register { handle: told, previous_generation, leadership },
                    reply: Reply::Handle { handle: shown },
                },
            ) && told@ == after.handle && shown@ == after.handle && previous_generation is None && leadership == a.led())
            &&& b.handle.generation != 0 ==> (r matches Ok(ControlStep::Reply { reply: Reply::Handle { handle: shown } })
                && shown@ == after.handle)
        },
{
}

/// Only the token gives a block back, ended lease or not. Then it is gone, and
/// its bytes are free unless readers have it.
pub proof fn law_block_is_given_back(a: Runtime, z: Runtime, id: Uuid, token: Uuid, r: Result<(), Error>)
    requires
        given_back(a, z, id, token, r),
    ensures
        r is Err <==> a.ram@.contains_key(id) && a.ram@[id].handle.lease_token != token,
        r is Ok ==> !z.ram@.contains_key(id),
        r is Err ==> z == a,
        !a.ram@.contains_key(id) ==> z == a,
        z.ram.accounting.budget == a.ram.accounting.budget,
        forall|k: Uuid| k != id && #[trigger] a.ram@.contains_key(k) ==> z.ram@.contains_key(k) && z.ram@[k] == a.ram@[k],
        r is Ok && a.ram@.contains_key(id) && a.ram@[id].pins == 0 ==> z.ram.accounting.owned + a.ram@[id].handle.size
            == a.ram.accounting.owned,
        r is Ok && a.ram@.contains_key(id) && a.ram@[id].pins > 0 ==> z.ram.accounting.owned == a.ram.accounting.owned,
        r is Ok && a.ram@.contains_key(id) && a.ram@[id].pins == 0 ==> {
            let h = a.ram@[id].handle;
            a.ram.accounting.jobs@[h.job_id].owned >= h.size ==> z.ram.accounting.jobs@[h.job_id].owned
                == a.ram.accounting.jobs@[h.job_id].owned - h.size && z.ram.accounting.jobs@[h.job_id].peak
                == a.ram.accounting.jobs@[h.job_id].peak
        },
{
}

/// Bytes that arrive go behind those that have arrived, and count as arrived;
/// what was there before and what is still to come stay as they were.
pub proof fn law_bytes_arrive_in_order(b: BlockView, transfer_id: Uuid, payload: Seq<u8>, i: int)
    requires
        b.written + payload.len() <= b.bytes.len(),
        0 <= i < b.bytes.len(),
    ensures
        ({
            let z = b.extended(transfer_id, payload);
            &&& z.bytes.len() == b.bytes.len()
            &&& z.written == b.written + payload.len()
            &&& z.transfer_id == Some(transfer_id)
            &&& z.handle == b.handle
            &&& z.bytes[i] == if i < b.written || i >= b.written + payload.len() {
                b.bytes[i]
            } else {
                payload[i - b.written]
            }
            &&& b.overlaid(payload) == (BlockView { bytes: z.bytes, ..b })
        }),
{
}

/// A chunk counts where its digest is the announced one: then it has arrived,
/// and its bytes are counted. Otherwise nothing has arrived. Either way the
/// block is free again, and no other block has changed.
pub proof fn law_chunk_counts_by_its_digest(
    a: Runtime,
    z: Runtime,
    id: Uuid,
    job: Uuid,
    transfer_id: Uuid,
    payload: Seq<u8>,
    checksum: Seq<char>,
    r: Result<(), Error>,
)
    requires
        landed(a, z, id, job, transfer_id, payload, checksum, r),
        a.ram@.contains_key(id),
        a.ram@[id].written + payload.len() <= a.ram@[id].bytes.len(),
        payload.len() <= u64::MAX,
    ensures
        r is Ok <==> checksum == hex_text(blake3_digest(payload)),
        z.ram@.contains_key(id) && !z.ram@[id].busy,
        r is Ok ==> {
            &&& z.ram@[id].written == a.ram@[id].written + payload.len()
            &&& z.ram@[id].bytes.subrange(a.ram@[id].written as int, (a.ram@[id].written + payload.len()) as int)
                == payload
            &&& z.metrics@.contains_key(job)
            &&& a.metrics@.contains_key(job) && a.metrics@[job].network_bytes + payload.len() <= u64::MAX
                ==> z.metrics@[job].network_bytes == a.metrics@[job].network_bytes + payload.len()
        },
        r is Err ==> z.ram@[id].written == a.ram@[id].written && z.ram@[id].transfer_id == a.ram@[id].transfer_id
            && z.metrics == a.metrics,
        z.ram@[id].handle == a.ram@[id].handle,
        z.ram@[id].bytes.take(a.ram@[id].written as int) == a.ram@[id].bytes.take(a.ram@[id].written as int),
        forall|k: Uuid| k != id && #[trigger] a.ram@.contains_key(k) ==> z.ram@[k] == a.ram@[k],
        z.ram.accounting == a.ram.accounting,
{
    let b = a.ram@[id];
    assert(z.ram@[id].bytes.take(b.written as int) =~= b.bytes.take(b.written as int));
    if r is Ok {
        assert(z.ram@[id].bytes.subrange(b.written as int, (b.written + payload.len()) as int) =~= payload);
    }
}

/// Bytes that pass through go to the block here, or on to the node that has it:
/// over UDP where both ends speak it, to the address for data where there is
/// one, and over TCP otherwise. Bytes with another digest go nowhere.
pub proof fn law_where_bytes_go_on(
    a: Runtime,
    z: Runtime,
    h: MemoryBlockHandle,
    transfer_id: Uuid,
    offset: u64,
    payload: Seq<u8>,
    checksum: Seq<char>,
    now_ms: u64,
    r: Result<Relay, Error>,
)
    requires
        relayed(a, z, h, transfer_id, offset, payload, checksum, now_ms, r),
    ensures
        checksum != hex_text(blake3_digest(payload)) ==> r == Err::<Relay, Error>(Error::ChecksumMismatch) && z == a,
        checksum == hex_text(blake3_digest(payload)) && h.owner_node != a.node_id ==> {
            let n = a.membership@[h.owner_node].capabilities.network;
            &&& z == a
            &&& !a.membership@.contains_key(h.owner_node) ==> r is Err
            &&& a.membership@.contains_key(h.owner_node) && a.config.data_transport@ == "udp"@ && n.data_transport
                == "udp"@ ==> (r matches Ok(Relay::Udp { address }) && (n.data_address is Some ==> address
                == n.data_address->0) && (n.data_address is None ==> address == n.control_address))
            &&& a.membership@.contains_key(h.owner_node) && !(a.config.data_transport@ == "udp"@ && n.data_transport
                == "udp"@) ==> (r matches Ok(Relay::Tcp { address }) && address == n.control_address)
        },
        checksum == hex_text(blake3_digest(payload)) && h.owner_node == a.node_id ==> (r is Ok <==> {
            let b = a.ram@[h.id];
            &&& a.ram@.contains_key(h.id)
            &&& h.lease_token == b.handle.lease_token
            &&& now_ms < b.handle.lease_expires_ms
            &&& b.handle.state == BlockState::Writing
            &&& b.handle.generation == h.generation
            &&& b.written == offset
        }),
        r matches Ok(Relay::Here) ==> {
            &&& h.owner_node == a.node_id
            &&& z.ram@[h.id].written == a.ram@[h.id].written + payload.len()
        },
{
}

/// Chunks have at least a byte, at most the bytes that were agreed on, and lie
/// within the block; a measurement has at most 64 MiB.
pub proof fn law_which_data_requests_are_served(request: Request, chunk_bytes: usize)
    ensures
        request matches Request::WriteChunk { handle, offset, length, total_size, direct, .. } ==> {
            &&& path_of(request, chunk_bytes) is Ok <==> 0 < length <= chunk_bytes && offset + length <= total_size
                && total_size == handle.size
            &&& path_of(request, chunk_bytes) is Ok && direct ==> path_of(request, chunk_bytes)->Ok_0 == DataPath::Write
            &&& path_of(request, chunk_bytes) is Ok && !direct ==> path_of(request, chunk_bytes)->Ok_0
                == DataPath::WriteThrough
        },
        request matches Request::ReadChunk { handle, offset, length, direct, .. } ==> {
            &&& path_of(request, chunk_bytes) is Ok <==> 0 < length <= chunk_bytes && offset + length <= handle.size
            &&& path_of(request, chunk_bytes) is Ok && direct ==> path_of(request, chunk_bytes)->Ok_0 == DataPath::Read
            &&& path_of(request, chunk_bytes) is Ok && !direct ==> path_of(request, chunk_bytes)->Ok_0
                == DataPath::ReadThrough
        },
        request matches Request::Probe { bytes } ==> (path_of(request, chunk_bytes) is Ok <==> bytes <= 67_108_864),
        !(request is WriteChunk || request is ReadChunk || request is Probe) ==> path_of(request, chunk_bytes) is Err,
{
}

/// A block shows in the inventory exactly where it is published and nothing
/// holds it.
pub proof fn law_inventory_shows_what_is_published(keys: Seq<Uuid>, m: Map<Uuid, BlockView>, i: int)
    requires
        0 <= i < keys.len(),
        m[keys[i]].published,
        !m[keys[i]].busy,
    ensures
        listed(keys, m).contains(m[keys[i]].handle),
    decreases keys.len(),
{
    let all = listed(keys, m);
    if i == keys.len() - 1 {
        assert(all.last() == m[keys[i]].handle);
    } else {
        let rest = listed(keys.drop_last(), m);
        law_inventory_shows_what_is_published(keys.drop_last(), m, i);
        let k = choose|k: int| 0 <= k < rest.len() && rest[k] == m[keys[i]].handle;
        assert(all[k] == m[keys[i]].handle);
    }
}

/// What shows in the inventory is published, and nothing holds it.
pub proof fn law_inventory_hides_the_rest(keys: Seq<Uuid>, m: Map<Uuid, BlockView>, k: int) -> (i: int)
    requires
        0 <= k < listed(keys, m).len(),
    ensures
        0 <= i < keys.len(),
        m[keys[i]].published && !m[keys[i]].busy,
        listed(keys, m)[k] == m[keys[i]].handle,
    decreases keys.len(),
{
    let rest = listed(keys.drop_last(), m);
    if k < rest.len() {
        law_inventory_hides_the_rest(keys.drop_last(), m, k)
    } else {
        keys.len() - 1
    }
}

/// The pages of the inventory hold 512 keys, follow one another, and begin
/// again behind the last: the key at place `i` is on page `i / 512`.
pub proof fn law_every_key_is_on_a_page(keys: Seq<Uuid>, i: int)
    requires
        0 <= i < keys.len() <= 100_000,
    ensures
        LocalRam::page_keys(keys, (i / 512) as u64).len() <= 512,
        i % 512 < LocalRam::page_keys(keys, (i / 512) as u64).len(),
        LocalRam::page_keys(keys, (i / 512) as u64)[i % 512] == keys[i],
{
    let pages: int = (keys.len() + 511) as int / 512;
    assert(i / 512 < pages);
    assert((i / 512) % pages == i / 512) by (nonlinear_arith)
        requires
            0 <= i / 512 < pages,
    ;
}

/// A migration sends the bytes that come next, at most a chunk of them, and at
/// least one while any are left.
pub proof fn law_pieces_follow_one_another(bytes: Seq<u8>, sent: int, chunk: int)
    requires
        0 <= sent <= bytes.len(),
        chunk > 0,
    ensures
        ({
            let p = next_piece(bytes, sent, chunk);
            &&& p.len() <= chunk
            &&& sent + p.len() <= bytes.len()
            &&& sent < bytes.len() ==> p.len() > 0
            &&& p.len() < chunk ==> sent + p.len() == bytes.len()
            &&& forall|i: int| 0 <= i < p.len() ==> #[trigger] p[i] == bytes[sent + i]
        }),
{
}

/// A block that has moved is counted once, with its bytes; one whose copy was
/// discarded counts as a failed transfer. A move that ends otherwise counts for
/// nothing.
pub proof fn law_moves_are_counted(
    a: Runtime,
    z: Runtime,
    m: Migration,
    n: Migration,
    o: Outcome,
    waited: Double,
    latency: Double,
    r: Step,
)
    requires
        migrated(a, z, m, n, o, waited, latency, r),
        a.metrics@.contains_key(m.handle.job_id),
    ensures
        ({
            let j = a.metrics@[m.handle.job_id];
            let k = z.metrics@[m.handle.job_id];
            &&& r is Moved ==> {
                &&& m.stage == Stage::Publish
                &&& o is Accepted
                &&& j.tensor_migrations < u64::MAX ==> k.tensor_migrations == j.tensor_migrations + 1
                &&& j.network_bytes + m.handle.size <= u64::MAX ==> k.network_bytes == j.network_bytes + m.handle.size
                &&& j.local_to_remote_bytes + m.handle.size <= u64::MAX ==> k.local_to_remote_bytes
                    == j.local_to_remote_bytes + m.handle.size
                &&& j.bytes_local_to_remote_ram + m.handle.size <= u64::MAX ==> k.bytes_local_to_remote_ram
                    == j.bytes_local_to_remote_ram + m.handle.size
                &&& k.network_wait_ms == waited
                &&& k.migration_latency_ms == latency
                &&& k.failed_transfers == j.failed_transfers
                &&& !z.ram@.contains_key(m.handle.id)
            }
            &&& r is Stayed && m.stage == Stage::Undo && j.failed_transfers < u64::MAX ==> k.failed_transfers
                == j.failed_transfers + 1 && k.tensor_migrations == j.tensor_migrations
            &&& r is Stayed && m.stage != Stage::Undo ==> z.metrics == a.metrics
            &&& r is Stayed ==> z.ram.accounting == a.ram.accounting && z.ram@[m.handle.id] == (BlockView {
                busy: false,
                ..a.ram@[m.handle.id]
            })
            &&& o matches Outcome::Refused { reason } ==> (r matches Step::Stayed { reason: told } ==> (m.stage != Stage::Undo
                ==> told@ == reason@))
            &&& m.stage == Stage::Undo ==> (r matches Step::Stayed { reason: told } && told@ == m.reason@)
            &&& n.udp == m.udp && n.chunk == m.chunk && n.address == m.address && n.data_address == m.data_address
            &&& n.handle == m.handle && n.target == m.target && n.leadership == m.leadership
            &&& !(r is Moved) && !(r is Stayed) ==> z == a
        }),
{
}

/// The stages of a move follow one another: room, bytes, commit, the leader's
/// note, publication; then the source gives up its copy.
pub proof fn law_stages_follow_one_another(
    a: Runtime,
    z: Runtime,
    m: Migration,
    n: Migration,
    o: Outcome,
    waited: Double,
    latency: Double,
    r: Step,
)
    requires
        a.wf(),
        a.migrates(m),
        migrated(a, z, m, n, o, waited, latency, r),
    ensures
        m.stage == Stage::Allocate && o is Accepted ==> n.stage == Stage::Copy || n.stage == Stage::Commit
            && a.ram@[m.handle.id].bytes.len() == m.sent,
        m.stage == Stage::Copy && o is Accepted ==> n.sent >= m.sent && (n.stage == Stage::Commit <==> n.sent
            == a.ram@[m.handle.id].bytes.len()),
        r matches Step::Ask { request: Request::Commit { handle, checksum, direct }, address } ==> {
            &&& checksum@ == hex_text(blake3_digest(a.ram@[m.handle.id].bytes))
            &&& handle@ == m.target@
            &&& direct
            &&& address == m.address
            &&& n.sent == a.ram@[m.handle.id].bytes.len()
        },
        r matches Step::Write { offset, payload, .. } ==> {
            &&& offset == n.sent
            &&& payload@.len() <= m.chunk
            &&& forall|i: int| 0 <= i < payload@.len() ==> #[trigger] payload@[i] == a.ram@[m.handle.id].bytes[offset + i]
        },
        r matches Step::Tell { request: Request::Register { handle, previous_generation, leadership } } ==> {
            &&& m.stage == Stage::Commit
            &&& o matches Outcome::Committed { handle: told } && handle@ == told@
            &&& previous_generation == Some(m.handle.generation)
            &&& leadership == m.leadership
        },
        r matches Step::Ask { request: Request::Publish { handle, leadership }, .. } ==> m.stage == Stage::Register
            && m.committed is Some && handle@ == (m.committed->0)@ && leadership == m.leadership,
        r matches Step::Moved { handle } ==> m.committed is Some && handle@ == (m.committed->0)@,
{
    assert(a.ram@[m.handle.id].intact());
}

/// The store gives a block back to its token alone; its bytes are free at once
/// unless readers have it.
pub proof fn law_store_gives_a_block_back(a: LocalRam, z: LocalRam, id: Uuid, token: Uuid, r: Result<(), Error>)
    requires
        returned(a, z, id, token, r),
    ensures
        r is Err <==> a@.contains_key(id) && a@[id].handle.lease_token != token,
        r is Err || !a@.contains_key(id) ==> z == a,
        r is Ok ==> !z@.contains_key(id),
        r is Ok && a@.contains_key(id) && a@[id].pins == 0 ==> z.accounting.owned + a@[id].handle.size == a.accounting.owned
            && z.lingering().len() == a.lingering().len(),
        r is Ok && a@.contains_key(id) && a@[id].pins > 0 ==> z.accounting == a.accounting && z.lingering().len()
            == a.lingering().len() + 1,
{
}

/// In an exchange a node takes in the other, and shows the page of its inventory
/// that the two seconds stand for; asked for a page, it shows that.
pub proof fn law_pages_that_are_shown(
    a: Runtime,
    z: Runtime,
    request: Request,
    now: Moment,
    costs: Seq<Double>,
    r: Result<ControlStep, Error>,
)
    requires
        answered(a, z, request, now, costs, r),
    ensures
        request is Exchange ==> (r matches Ok(ControlStep::Reply { reply: Reply::Exchange { node, inventory } }) ==> {
            &&& node@ == z.me()
            &&& views(inventory@) == listed(LocalRam::page_keys(z.ram.blocks.keys(), now.now_ms / 2000), z.ram@)
        }),
        request matches Request::Inventory { page } ==> (r matches Ok(
            ControlStep::Reply { reply: Reply::Handles { handles } },
        ) && views(handles@) == listed(LocalRam::page_keys(a.ram.blocks.keys(), page), a.ram@) && z == a),
        request is Ping ==> (r matches Ok(ControlStep::Reply { reply: Reply::Time { now_ms } }) && now_ms == now.now_ms),
{
}

} // verus!
