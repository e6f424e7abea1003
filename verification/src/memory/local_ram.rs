//! The blocks that this node holds in RAM.
use crate::bytes::slice_of;
use crate::digest::{
    absorbed, blake3_digest, blake3_hash, hasher_finalize, hasher_new, hasher_update, hex_encode, hex_text,
};
use crate::error::Error;
use crate::ids::Uuid;
use crate::map::IdMap;
use crate::memory::allocator::{
    risen, with_less, with_more, JobRamAccounting, LedgerEntry, RamAccounting, Reservation,
};
use crate::memory::block::{BlockState, HandleView, MemoryBlockHandle};
use crate::text::same_text;
use vstd::prelude::*;

verus! {

/// The most blocks that one node holds.
pub const BLOCK_LIMIT: usize = 100_000;

/// The most handles on one page of the inventory.
pub const PAGE: usize = 512;

/// A block with its bytes and the state of its upload.
pub struct RamBlock {
    pub handle: MemoryBlockHandle,
    pub bytes: Vec<u8>,
    /// Bytes that have arrived, in order from the start.
    pub written: usize,
    pub transfer_id: Option<Uuid>,
    /// Takes in the bytes as they arrive.
    pub hash: blake3::Hasher,
    pub published: bool,
    /// A transfer or a migration holds the block; every other user waits.
    pub busy: bool,
    /// Readers that keep the block alive, in the store or not.
    pub pins: u64,
    /// The number of the block, which no other block of the store has.
    pub serial: u64,
    pub reservation: Reservation,
}

/// The model of a [`RamBlock`].
pub struct BlockView {
    pub handle: HandleView,
    pub bytes: Seq<u8>,
    pub written: nat,
    pub transfer_id: Option<Uuid>,
    pub published: bool,
    pub busy: bool,
    pub pins: nat,
    pub serial: u64,
}

impl View for RamBlock {
    type V = BlockView;

    open spec fn view(&self) -> BlockView {
        BlockView {
            handle: self.handle@,
            bytes: self.bytes@,
            written: self.written as nat,
            transfer_id: self.transfer_id,
            published: self.published,
            busy: self.busy,
            pins: self.pins as nat,
            serial: self.serial,
        }
    }
}

/// Whether `token` opens the block at time `now_ms`.
pub open spec fn lease_check(handle: HandleView, token: Uuid, now_ms: u64) -> Result<(), Error> {
    if token != handle.lease_token {
        Err(Error::LeaseDenied)
    } else if handle.lease_expires_ms <= now_ms {
        Err(Error::LeaseExpired)
    } else {
        Ok(())
    }
}

impl BlockView {
    /// A committed block is complete and its checksum is that of its bytes.
    pub open spec fn intact(&self) -> bool {
        self.handle.state == BlockState::Ready ==> {
            &&& self.written == self.bytes.len()
            &&& self.handle.checksum == Some(hex_text(blake3_digest(self.bytes)))
        }
    }

    /// The block with `payload` in its buffer behind what has arrived.
    pub open spec fn overlaid(self, payload: Seq<u8>) -> BlockView {
        BlockView {
            bytes: self.bytes.take(self.written as int) + payload + self.bytes.skip(
                (self.written + payload.len()) as int,
            ),
            ..self
        }
    }

    /// The block after `payload` has arrived behind what is there.
    pub open spec fn extended(self, transfer_id: Uuid, payload: Seq<u8>) -> BlockView {
        BlockView {
            written: self.written + payload.len(),
            transfer_id: Some(transfer_id),
            ..self.overlaid(payload)
        }
    }
}

impl RamBlock {
    /// The buffer has the declared size, the hash has taken in just the bytes
    /// that arrived, and the reservation pays for the block.
    pub open spec fn wf(&self) -> bool {
        &&& self.bytes@.len() == self.handle.size
        &&& self.written <= self.bytes@.len()
        &&& absorbed(self.hash) == Some(self.bytes@.take(self.written as int))
        &&& self.reservation.entry().job == Some(self.handle.job_id)
        &&& self.reservation.entry().bytes == self.handle.size
    }

    /// Lets in the holder of an unexpired lease.
    pub fn authorize(&self, token: Uuid, now_ms: u64) -> (r: Result<(), Error>)
        ensures
            r == lease_check(self.handle@, token, now_ms),
    {
        if token != self.handle.lease_token {
            Err(Error::LeaseDenied)
        } else if self.handle.lease_expires_ms <= now_ms {
            Err(Error::LeaseExpired)
        } else {
            Ok(())
        }
    }

    /// Puts `payload` into the buffer behind what has arrived. It does not
    /// count as arrived.
    fn overlay(&mut self, payload: &[u8])
        requires
            old(self).wf(),
            old(self).written + payload@.len() <= old(self).bytes@.len(),
        ensures
            final(self).wf(),
            final(self)@ == old(self)@.overlaid(payload@),
            *final(self) == (RamBlock { bytes: final(self).bytes, ..*old(self) }),
    {
        let ghost before = *self;
        let begin: usize = self.written;
        let length: usize = payload.len();
        let total: usize = self.bytes.len();
        let mut i: usize = 0;
        while i < length
            invariant
                i <= length == payload@.len(),
                begin == before.written,
                begin + length <= before.bytes@.len() == total,
                self.bytes@.len() == before.bytes@.len(),
                forall|k: int|
                    0 <= k < self.bytes@.len() ==> #[trigger] self.bytes@[k] == if begin <= k < begin + i {
                        payload@[k - begin]
                    } else {
                        before.bytes@[k]
                    },
                *self == (RamBlock { bytes: self.bytes, ..before }),
            decreases length - i,
        {
            self.bytes.set(begin + i, payload[i]);
            i = i + 1;
        }
        proof {
            assert(self.bytes@ =~= before@.overlaid(payload@).bytes);
            assert(self.bytes@.take(begin as int) =~= before.bytes@.take(begin as int));
        }
    }

    /// Puts `payload` behind what has arrived.
    fn extend(&mut self, transfer_id: Uuid, payload: &[u8])
        requires
            old(self).wf(),
            old(self).written + payload@.len() <= old(self).bytes@.len(),
        ensures
            final(self).wf(),
            final(self)@ == old(self)@.extended(transfer_id, payload@),
            final(self).reservation == old(self).reservation,
            final(self).handle == old(self).handle,
            final(self).serial == old(self).serial,
    {
        let ghost before = *self;
        let total: usize = self.bytes.len();
        assert(self.written + payload@.len() <= total);
        self.overlay(payload);
        hasher_update(&mut self.hash, payload);
        self.transfer_id = Some(transfer_id);
        self.written = self.written + payload.len();
        proof {
            assert(self.bytes@.take(self.written as int) =~= before.bytes@.take(before.written as int) + payload@);
        }
    }
}

/// The local store.
pub struct LocalRam {
    pub accounting: RamAccounting,
    pub blocks: IdMap<RamBlock>,
    /// Blocks that left the store while readers still had them.
    pub detached: Vec<RamBlock>,
    /// The number of the next block.
    pub next_serial: u64,
}

/// A reader's hold on a block.
pub struct Pin {
    id: Uuid,
    serial: u64,
}

impl Pin {
    /// The id of the block.
    pub closed spec fn id(&self) -> Uuid {
        self.id
    }

    /// The number of the block.
    pub closed spec fn serial(&self) -> u64 {
        self.serial
    }
}

/// Two blocks of the same number and reservation.
spec fn apart_alike(a: RamBlock, b: RamBlock) -> bool {
    a.serial == b.serial && a.reservation == b.reservation
}

/// Two blocks that share neither number nor reservation.
pub open spec fn apart(a: RamBlock, b: RamBlock) -> bool {
    a.serial != b.serial && a.reservation.entry() != b.reservation.entry()
}

impl View for LocalRam {
    type V = Map<Uuid, BlockView>;

    open spec fn view(&self) -> Map<Uuid, BlockView> {
        self.blocks@.map_values(|b: RamBlock| b@)
    }
}

/// A zeroed buffer of `size` bytes, or nothing where the machine has no room.
/// An empty buffer takes no room, and no buffer is larger than `isize::MAX`;
/// in between the machine decides.
fn zeroed(size: usize) -> (r: Option<Vec<u8>>)
    ensures
        r matches Some(v) ==> v@ == Seq::new(size as nat, |i: int| 0u8),
        size == 0 ==> r is Some,
        size > isize::MAX ==> r is None,
{
    let mut v: Vec<u8> = Vec::new();
    if size == 0 {
        assert(v@ =~= Seq::new(size as nat, |i: int| 0u8));
        return Some(v);
    }
    if size > isize::MAX as usize {
        return None;
    }
    match v.try_reserve(size) {
        Ok(_) => {},
        Err(_) => {
            return None;
        },
    }
    v.resize(size, 0);
    proof {
        assert(v@ =~= Seq::new(size as nat, |i: int| 0u8));
    }
    Some(v)
}

impl LocalRam {
    /// Whether a block in the store holds this reservation.
    pub open spec fn stores(&self, e: LedgerEntry) -> bool {
        exists|id: Uuid| #[trigger] self.blocks@.contains_key(id) && self.blocks@[id].reservation.entry() == e
    }

    /// Whether a block that left the store holds this reservation.
    pub open spec fn keeps(&self, e: LedgerEntry) -> bool {
        exists|i: int| 0 <= i < self.detached@.len() && (#[trigger] self.detached@[i]).reservation.entry() == e
    }

    /// Whether a block holds this reservation.
    pub open spec fn owns(&self, e: LedgerEntry) -> bool {
        self.stores(e) || self.keeps(e)
    }

    /// The blocks that readers keep alive outside the store.
    pub open spec fn lingering(&self) -> Seq<BlockView> {
        self.detached@.map_values(|b: RamBlock| b@)
    }

    /// What holds of a single block: it is whole, numbered, and paid for.
    pub open spec fn sound(&self, b: RamBlock) -> bool {
        &&& b.wf()
        &&& b.serial < self.next_serial
        &&& self.accounting.holds(b.reservation.entry())
    }

    /// Every block stands under its own id and is paid for by a live
    /// reservation of its own.
    pub open spec fn wf(&self) -> bool {
        &&& self.accounting.wf()
        &&& self.blocks.wf()
        &&& self.blocks.keys().len() <= BLOCK_LIMIT
        &&& forall|id: Uuid| #[trigger]
            self.blocks@.contains_key(id) ==> self.sound(self.blocks@[id]) && self.blocks@[id].handle.id == id
        &&& forall|a: Uuid, b: Uuid| #[trigger]
            self.blocks@.contains_key(a) && #[trigger] self.blocks@.contains_key(b) && a != b ==> apart(
                self.blocks@[a],
                self.blocks@[b],
            )
        &&& forall|i: int|
            0 <= i < self.detached@.len() ==> self.sound(#[trigger] self.detached@[i]) && self.detached@[i].pins > 0
        &&& forall|i: int, j: int|
            0 <= i < j < self.detached@.len() ==> apart(#[trigger] self.detached@[i], #[trigger] self.detached@[j])
        &&& forall|a: Uuid, i: int| #[trigger]
            self.blocks@.contains_key(a) && 0 <= i < self.detached@.len() ==> apart(
                self.blocks@[a],
                #[trigger] self.detached@[i],
            )
    }

    /// Every committed block is intact.
    pub open spec fn intact(&self) -> bool {
        forall|id: Uuid| #[trigger] self@.contains_key(id) ==> self@[id].intact()
    }

    /// Whether a transfer or a migration holds the block.
    pub open spec fn held(&self, id: Uuid) -> bool {
        self@.contains_key(id) && self@[id].busy
    }

    /// An empty store without a budget.
    pub fn new() -> (r: Self)
        ensures
            r.wf(),
            r.intact(),
            r@ == Map::<Uuid, BlockView>::empty(),
            r.accounting.owned == 0,
            r.accounting.budget == 0,
            r.accounting.peak == 0,
            r.accounting.jobs@ == Map::<Uuid, JobRamAccounting>::empty(),
            r.accounting.ledger() == Seq::<LedgerEntry>::empty(),
            r.lingering() == Seq::<BlockView>::empty(),
            r.next_serial == 0,
    {
        let r = LocalRam {
            accounting: RamAccounting::new(),
            blocks: IdMap::new(),
            detached: Vec::new(),
            next_serial: 0,
        };
        proof {
            r.blocks.lemma_keys();
            assert(r@ =~= Map::<Uuid, BlockView>::empty());
            assert(r.lingering() =~= Seq::<BlockView>::empty());
        }
        r
    }

    /// What stands in the way of allocating `handle`, apart from the machine.
    pub open spec fn admission(&self, handle: HandleView) -> Result<(), Error> {
        if self@.contains_key(handle.id) {
            Err(Error::BlockExists)
        } else if self.blocks.keys().len() >= BLOCK_LIMIT || self.next_serial == u64::MAX {
            Err(Error::BlockLimit)
        } else if handle.size > usize::MAX {
            Err(Error::Range)
        } else if self.accounting.owned + handle.size > self.accounting.budget {
            Err(Error::OutOfCapacity { bytes: handle.size })
        } else {
            Ok(())
        }
    }

    /// The block that an allocation makes.
    pub open spec fn fresh(handle: HandleView, serial: u64) -> BlockView {
        BlockView {
            handle,
            bytes: Seq::new(handle.size as nat, |i: int| 0u8),
            written: 0,
            transfer_id: None,
            published: handle.generation == 0,
            busy: false,
            pins: 0,
            serial,
        }
    }

    /// Makes room for a block and pays for it. It is refused where its id is
    /// taken, where the store is full or has numbered as many blocks as it can,
    /// and where the budget has no room; a block with bytes can also fail where
    /// the machine has no memory, and does beyond `isize::MAX`. What was promised
    /// before such a failure still counts for the peaks.
    pub fn allocate(&mut self, handle: MemoryBlockHandle) -> (r: Result<(), Error>)
        requires
            old(self).wf(),
        ensures
            final(self).wf(),
            final(self).accounting.budget == old(self).accounting.budget,
            final(self).lingering() == old(self).lingering(),
            forall|e: LedgerEntry|
                e.job is None ==> final(self).accounting.holds(e) == old(self).accounting.holds(e),
            match old(self).admission(handle@) {
                Err(e) => r == Err::<(), Error>(e) && *final(self) == *old(self),
                Ok(_) => match r {
                    Ok(_) => {
                        &&& handle.size <= isize::MAX
                        &&& final(self)@ == old(self)@.insert(
                            handle.id,
                            Self::fresh(handle@, old(self).next_serial),
                        )
                        &&& final(self).accounting.owned == old(self).accounting.owned + handle.size
                        &&& final(self).accounting.job_owned(handle.job_id) == old(self).accounting.job_owned(
                            handle.job_id,
                        ) + handle.size
                        &&& final(self).accounting.peak == risen(
                            old(self).accounting.peak,
                            old(self).accounting.owned + handle.size,
                        )
                        &&& final(self).accounting.jobs@ == with_more(
                            old(self).accounting.jobs@,
                            handle.job_id,
                            handle.size,
                        )
                    },
                    Err(e) => {
                        &&& e == Error::MemoryExhausted
                        &&& handle.size > 0
                        &&& final(self)@ == old(self)@
                        &&& final(self).accounting.owned == old(self).accounting.owned
                        &&& final(self).accounting.peak == risen(
                            old(self).accounting.peak,
                            old(self).accounting.owned + handle.size,
                        )
                        &&& final(self).accounting.jobs@ == with_less(
                            with_more(old(self).accounting.jobs@, handle.job_id, handle.size),
                            handle.job_id,
                            handle.size,
                        )
                    },
                },
            },
            old(self).intact() && handle.state != BlockState::Ready ==> final(self).intact(),
    {
        if self.blocks.contains(handle.id) {
            return Err(Error::BlockExists);
        }
        if self.blocks.len() >= BLOCK_LIMIT || self.next_serial == u64::MAX {
            return Err(Error::BlockLimit);
        }
        if handle.size > usize::MAX as u64 {
            return Err(Error::Range);
        }
        let ghost before = *self;
        let held: Reservation = match self.accounting.reserve_payload(handle.job_id, handle.size) {
            Ok(held) => held,
            Err(e) => {
                return Err(e);
            },
        };
        proof {
            let e = held.entry();
            assert forall|id: Uuid| #[trigger] self.blocks@.contains_key(id) implies {
                &&& self.sound(self.blocks@[id])
                &&& self.blocks@[id].reservation.entry() != e
            } by {
                assert(before.sound(before.blocks@[id]));
            }
            assert forall|i: int| 0 <= i < self.detached@.len() implies {
                &&& self.sound(#[trigger] self.detached@[i])
                &&& self.detached@[i].reservation.entry() != e
            } by {
                assert(before.sound(before.detached@[i]));
            }
        }
        let buffer: Option<Vec<u8>> = zeroed(handle.size as usize);
        self.settle(handle, held, buffer)
    }

    /// Ends an allocation that is already paid for: with a buffer the block
    /// stands in the store, without one the reservation is handed back.
    pub fn settle(&mut self, handle: MemoryBlockHandle, held: Reservation, buffer: Option<Vec<u8>>) -> (r: Result<
        (),
        Error,
    >)
        requires
            old(self).wf(),
            !old(self)@.contains_key(handle.id),
            old(self).blocks.keys().len() < BLOCK_LIMIT,
            old(self).next_serial < u64::MAX,
            old(self).accounting.holds(held.entry()),
            !old(self).owns(held.entry()),
            held.entry().bytes == handle.size,
            held.entry().job == Some(handle.job_id),
            buffer matches Some(v) ==> v@ == Self::fresh(handle@, 0).bytes,
        ensures
            final(self).wf(),
            final(self).accounting.budget == old(self).accounting.budget,
            final(self).lingering() == old(self).lingering(),
            forall|e: LedgerEntry|
                e.job is None ==> final(self).accounting.holds(e) == old(self).accounting.holds(e),
            match buffer {
                Some(_) => {
                    &&& r == Ok::<(), Error>(())
                    &&& final(self)@ == old(self)@.insert(
                        handle.id,
                        Self::fresh(handle@, old(self).next_serial),
                    )
                    &&& final(self).accounting == old(self).accounting
                    &&& final(self).owns(held.entry())
                },
                None => {
                    &&& r == Err::<(), Error>(Error::MemoryExhausted)
                    &&& final(self)@ == old(self)@
                    &&& final(self).accounting.owned + handle.size == old(self).accounting.owned
                    &&& final(self).accounting.peak == old(self).accounting.peak
                    &&& final(self).accounting.jobs@ == with_less(
                        old(self).accounting.jobs@,
                        handle.job_id,
                        handle.size,
                    )
                    &&& !final(self).accounting.holds(held.entry())
                },
            },
            old(self).intact() && handle.state != BlockState::Ready ==> final(self).intact(),
    {
        let ghost before = *self;
        let bytes: Vec<u8> = match buffer {
            Some(v) => v,
            None => {
                self.accounting.release(held);
                return Err(Error::MemoryExhausted);
            },
        };
        let published: bool = handle.generation == 0;
        let id: Uuid = handle.id;
        let hash = hasher_new();
        let block = RamBlock {
            handle,
            bytes,
            written: 0,
            transfer_id: None,
            hash,
            published,
            busy: false,
            pins: 0,
            serial: self.next_serial,
            reservation: held,
        };
        proof {
            assert(block.bytes@.take(0) =~= Seq::<u8>::empty());
        }
        let _ = self.blocks.insert(id, block);
        self.next_serial = self.next_serial + 1;
        proof {
            assert(self@ =~= before@.insert(id, Self::fresh(block.handle@, before.next_serial)));
            assert(self.blocks@.contains_key(id));
            assert(self.stores(held.entry()));
            assert forall|k: Uuid| #[trigger] self.blocks@.contains_key(k) implies self.sound(self.blocks@[k])
                && self.blocks@[k].handle.id == k by {
                if k != id {
                    assert(before.sound(before.blocks@[k]));
                }
            }
            assert forall|a: Uuid, b: Uuid| #[trigger]
                self.blocks@.contains_key(a) && #[trigger] self.blocks@.contains_key(b) && a != b implies apart(
                self.blocks@[a],
                self.blocks@[b],
            ) by {
                assert(a != id ==> before.blocks@.contains_key(a));
                assert(b != id ==> before.blocks@.contains_key(b));
            }
            assert forall|i: int| 0 <= i < self.detached@.len() implies self.sound(#[trigger] self.detached@[i])
                && self.detached@[i].pins > 0 by {
                assert(before.sound(before.detached@[i]));
            }
        }
        Ok(())
    }

    /// The block of this id.
    pub fn get(&self, id: Uuid) -> (r: Result<&RamBlock, Error>)
        requires
            self.wf(),
        ensures
            match r {
                Ok(b) => {
                    &&& self@.contains_key(id)
                    &&& self.blocks@.contains_key(id)
                    &&& *b == self.blocks@[id]
                    &&& b@ == self@[id]
                    &&& b.wf()
                },
                Err(e) => !self@.contains_key(id) && e == (Error::BlockAbsent { id }),
            },
    {
        match self.blocks.get(id) {
            Some(b) => Ok(b),
            None => Err(Error::BlockAbsent { id }),
        }
    }
}

/// Whether an upload may go on: the lease is good, the block is still being
/// written in this generation, the chunk is the next one and of the same transfer.
pub open spec fn chunk_check(
    b: BlockView,
    handle: HandleView,
    transfer_id: Uuid,
    offset: u64,
    total_size: u64,
    now_ms: u64,
) -> Result<(), Error> {
    if lease_check(b.handle, handle.lease_token, now_ms) is Err {
        lease_check(b.handle, handle.lease_token, now_ms)
    } else if b.handle.state != BlockState::Writing || b.handle.generation != handle.generation {
        Err(Error::WriteStaleDirect)
    } else if b.written != offset || b.handle.size != total_size {
        Err(Error::WriteOrder)
    } else if b.transfer_id is Some && b.transfer_id != Some(transfer_id) {
        Err(Error::TransferMismatch)
    } else {
        Ok(())
    }
}

/// Whether bytes that already arrived on this node may go into the block.
pub open spec fn store_check(b: BlockView, handle: HandleView, offset: u64, now_ms: u64) -> Result<(), Error> {
    if lease_check(b.handle, handle.lease_token, now_ms) is Err {
        lease_check(b.handle, handle.lease_token, now_ms)
    } else if b.handle.state != BlockState::Writing || b.handle.generation != handle.generation || b.written
        != offset {
        Err(Error::WriteStale)
    } else {
        Ok(())
    }
}

/// Whether a range of a committed block may be read.
pub open spec fn read_check(b: BlockView, handle: HandleView, offset: u64, length: nat, now_ms: u64) -> Result<
    (),
    Error,
> {
    if lease_check(b.handle, handle.lease_token, now_ms) is Err {
        lease_check(b.handle, handle.lease_token, now_ms)
    } else if b.handle.state != BlockState::Ready || b.handle.generation != handle.generation {
        Err(Error::ReadStale)
    } else if offset + length > b.bytes.len() {
        Err(Error::ReadRange)
    } else {
        Ok(())
    }
}

/// Whether a migrated block may be published.
pub open spec fn publish_check(b: BlockView, handle: HandleView, now_ms: u64) -> Result<(), Error> {
    if lease_check(b.handle, handle.lease_token, now_ms) is Err {
        lease_check(b.handle, handle.lease_token, now_ms)
    } else if b.handle.generation != handle.generation || b.handle.state != BlockState::Ready {
        Err(Error::NotReady)
    } else {
        Ok(())
    }
}

/// Whether an upload may be committed under `checksum`.
pub open spec fn commit_check(b: BlockView, token: Uuid, checksum: Seq<char>, now_ms: u64) -> Result<(), Error> {
    if lease_check(b.handle, token, now_ms) is Err {
        lease_check(b.handle, token, now_ms)
    } else if b.written != b.bytes.len() {
        Err(Error::Incomplete)
    } else if hex_text(blake3_digest(b.bytes)) != checksum {
        Err(Error::ChecksumMismatch)
    } else {
        Ok(())
    }
}

/// Whether the lease has run out on a block that nothing holds in place.
pub open spec fn lapsed(b: BlockView, now_ms: u64) -> bool {
    !b.busy && b.handle.lease_expires_ms <= now_ms && b.handle.state != BlockState::Migrating
}

/// The bytes that are paid for no longer when these blocks leave.
pub open spec fn bytes_of(ids: Seq<Uuid>, m: Map<Uuid, BlockView>) -> nat
    decreases ids.len(),
{
    if ids.len() == 0 {
        0
    } else {
        bytes_of(ids.drop_last(), m) + (if m[ids.last()].pins == 0 {
            m[ids.last()].handle.size as nat
        } else {
            0
        })
    }
}

/// The accounts of the jobs when these blocks leave.
pub open spec fn accounts_without(
    jobs: Map<Uuid, JobRamAccounting>,
    ids: Seq<Uuid>,
    m: Map<Uuid, BlockView>,
) -> Map<Uuid, JobRamAccounting>
    decreases ids.len(),
{
    if ids.len() == 0 {
        jobs
    } else if m[ids.last()].pins == 0 {
        with_less(
            accounts_without(jobs, ids.drop_last(), m),
            m[ids.last()].handle.job_id,
            m[ids.last()].handle.size,
        )
    } else {
        accounts_without(jobs, ids.drop_last(), m)
    }
}

/// Those of these blocks that readers have.
pub open spec fn pinned_of(ids: Seq<Uuid>, m: Map<Uuid, BlockView>) -> Seq<BlockView>
    decreases ids.len(),
{
    if ids.len() == 0 {
        Seq::empty()
    } else if m[ids.last()].pins == 0 {
        pinned_of(ids.drop_last(), m)
    } else {
        pinned_of(ids.drop_last(), m).push(m[ids.last()])
    }
}

/// The ids among `keys` whose blocks' leases have run out.
pub open spec fn lapsed_ids(keys: Seq<Uuid>, m: Map<Uuid, BlockView>, now_ms: u64) -> Seq<Uuid>
    decreases keys.len(),
{
    if keys.len() == 0 {
        Seq::empty()
    } else if lapsed(m[keys.last()], now_ms) {
        lapsed_ids(keys.drop_last(), m, now_ms).push(keys.last())
    } else {
        lapsed_ids(keys.drop_last(), m, now_ms)
    }
}

/// The store after the blocks whose leases have run out are gone.
pub open spec fn expired(a: LocalRam, z: LocalRam, now_ms: u64) -> bool {
    let out = lapsed_ids(a.blocks.keys(), a@, now_ms);
    &&& z.accounting.budget == a.accounting.budget
    &&& z.accounting.peak == a.accounting.peak
    &&& forall|id: Uuid| #[trigger] z@.contains_key(id) <==> a@.contains_key(id) && !lapsed(a@[id], now_ms)
    &&& forall|id: Uuid| #[trigger] z@.contains_key(id) ==> z@[id] == a@[id]
    &&& z.accounting.owned + bytes_of(out, a@) == a.accounting.owned
    &&& z.accounting.jobs@ == accounts_without(a.accounting.jobs@, out, a@)
    &&& z.lingering() == a.lingering() + pinned_of(out, a@)
    &&& forall|e: LedgerEntry| !a.owns(e) ==> z.accounting.holds(e) == a.accounting.holds(e)
    &&& forall|e: LedgerEntry| z.owns(e) ==> a.owns(e)
    &&& a.intact() ==> z.intact()
}

/// What giving a block back leads to.
pub open spec fn returned(a: LocalRam, z: LocalRam, id: Uuid, token: Uuid, r: Result<(), Error>) -> bool {
    let b = a@[id];
    if !a@.contains_key(id) {
        r == Ok::<(), Error>(()) && z == a
    } else if b.handle.lease_token != token {
        r == Err::<(), Error>(Error::LeaseDenied) && z == a
    } else {
        &&& r == Ok::<(), Error>(())
        &&& z@ == a@.remove(id)
        &&& z.accounting.peak == a.accounting.peak
        &&& if b.pins == 0 {
            &&& z.detached == a.detached
            &&& z.accounting.owned + b.handle.size == a.accounting.owned
            &&& z.accounting.job_owned(b.handle.job_id) + b.handle.size == a.accounting.job_owned(b.handle.job_id)
            &&& z.accounting.jobs@ == with_less(a.accounting.jobs@, b.handle.job_id, b.handle.size)
        } else {
            &&& z.lingering() == a.lingering().push(b)
            &&& z.accounting == a.accounting
        }
    }
}

/// What the end of a reader's hold leads to.
pub open spec fn unpinned(a: LocalRam, z: LocalRam, pin: Pin) -> bool {
    &&& a.stored(pin) ==> {
        &&& z@ == a@.insert(pin.id(), (BlockView { pins: (a@[pin.id()].pins - 1) as nat, ..a@[pin.id()] }))
        &&& z.accounting == a.accounting
        &&& z.detached == a.detached
    }
    &&& !a.stored(pin) ==> z@ == a@
    &&& forall|i: int|
        !a.stored(pin) && #[trigger] a.lingers(pin, i) ==> {
            let b = a.lingering()[i];
            if b.pins > 1 {
                &&& z.accounting == a.accounting
                &&& z.lingering() == a.lingering().update(i, (BlockView { pins: (b.pins - 1) as nat, ..b }))
            } else {
                &&& z.accounting.owned + b.handle.size == a.accounting.owned
                &&& z.accounting.jobs@ == with_less(a.accounting.jobs@, b.handle.job_id, b.handle.size)
                &&& z.lingering() == a.lingering().remove(i)
            }
        }
}

/// The handles of the published blocks among `keys` that nothing holds.
pub open spec fn listed(keys: Seq<Uuid>, m: Map<Uuid, BlockView>) -> Seq<HandleView>
    decreases keys.len(),
{
    if keys.len() == 0 {
        Seq::empty()
    } else {
        let rest = listed(keys.drop_last(), m);
        let b = m[keys.last()];
        if b.published && !b.busy {
            rest.push(b.handle)
        } else {
            rest
        }
    }
}

/// The models of the handles.
pub open spec fn views(v: Seq<MemoryBlockHandle>) -> Seq<HandleView> {
    v.map_values(|h: MemoryBlockHandle| h@)
}

impl LocalRam {
    proof fn lemma_update(self, after: Self, id: Uuid)
        requires
            self.wf(),
            self.blocks@.contains_key(id),
            after.blocks.wf(),
            after.blocks@ == self.blocks@.insert(id, after.blocks@[id]),
            after.blocks.keys() == self.blocks.keys(),
            after.accounting == self.accounting,
            after.blocks@[id].wf(),
            after.blocks@[id].reservation == self.blocks@[id].reservation,
            after.blocks@[id].serial == self.blocks@[id].serial,
            after.blocks@[id].handle.id == id,
            after.detached == self.detached,
            after.next_serial == self.next_serial,
        ensures
            after.wf(),
            after@ == self@.insert(id, after.blocks@[id]@),
            forall|e: LedgerEntry| after.owns(e) == self.owns(e),
            self.intact() && after.blocks@[id]@.intact() ==> after.intact(),
    {
        assert(after@ =~= self@.insert(id, after.blocks@[id]@));
        assert forall|k: Uuid| #[trigger] after.blocks@.contains_key(k) implies after.sound(after.blocks@[k])
            && after.blocks@[k].handle.id == k by {
            assert(self.sound(self.blocks@[k]));
        }
        assert forall|i: int| 0 <= i < after.detached@.len() implies after.sound(#[trigger] after.detached@[i])
            && after.detached@[i].pins > 0 by {
            assert(self.sound(self.detached@[i]));
        }
        assert forall|e: LedgerEntry| after.stores(e) == self.stores(e) by {
            if self.stores(e) {
                let k = choose|k: Uuid|
                    #[trigger] self.blocks@.contains_key(k) && self.blocks@[k].reservation.entry() == e;
                assert(after.blocks@.contains_key(k));
            }
            if after.stores(e) {
                let k = choose|k: Uuid|
                    #[trigger] after.blocks@.contains_key(k) && after.blocks@[k].reservation.entry() == e;
                assert(self.blocks@.contains_key(k));
            }
        }
    }

    /// Begins a chunk of an upload: from here to its end the block is held.
    pub fn begin_write(
        &mut self,
        handle: &MemoryBlockHandle,
        transfer_id: Uuid,
        offset: u64,
        total_size: u64,
        now_ms: u64,
    ) -> (r: Result<(), Error>)
        requires
            old(self).wf(),
            !old(self).held(handle.id),
        ensures
            final(self).wf(),
            final(self).accounting == old(self).accounting,
            final(self).detached == old(self).detached,
            final(self).next_serial == old(self).next_serial,
            forall|e: LedgerEntry| final(self).owns(e) == old(self).owns(e),
            old(self).intact() ==> final(self).intact(),
            r == if !old(self)@.contains_key(handle.id) {
                Err(Error::BlockAbsent { id: handle.id })
            } else {
                chunk_check(old(self)@[handle.id], handle@, transfer_id, offset, total_size, now_ms)
            },
            r is Err ==> *final(self) == *old(self),
            r is Ok ==> final(self)@ == old(self)@.insert(
                handle.id,
                (BlockView { busy: true, ..old(self)@[handle.id] }),
            ),
    {
        let ghost before = *self;
        let b: &RamBlock = self.get(handle.id)?;
        b.authorize(handle.lease_token, now_ms)?;
        if b.handle.state != BlockState::Writing || b.handle.generation != handle.generation {
            return Err(Error::WriteStaleDirect);
        }
        if b.written as u64 != offset || b.handle.size != total_size {
            return Err(Error::WriteOrder);
        }
        match b.transfer_id {
            Some(id) => if id != transfer_id {
                return Err(Error::TransferMismatch);
            },
            None => {},
        }
        self.mark(handle.id, true);
        Ok(())
    }

    /// Sets or clears the mark that holds a block.
    fn mark(&mut self, id: Uuid, busy: bool)
        requires
            old(self).wf(),
            old(self)@.contains_key(id),
        ensures
            final(self).wf(),
            final(self).accounting == old(self).accounting,
            final(self).detached == old(self).detached,
            final(self).next_serial == old(self).next_serial,
            forall|e: LedgerEntry| final(self).owns(e) == old(self).owns(e),
            old(self).intact() ==> final(self).intact(),
            final(self)@ == old(self)@.insert(id, (BlockView { busy, ..old(self)@[id] })),
    {
        let ghost before = *self;
        match self.blocks.find(id) {
            Some(p) => {
                let b: &mut RamBlock = self.blocks.value_mut(p);
                b.busy = busy;
            },
            None => {
                assert(false);
            },
        }
        proof {
            assert(before@.contains_key(id) && before@[id] == before.blocks@[id]@);
            before.lemma_update(*self, id);
        }
    }
}

/// The block when nothing holds it any longer.
pub open spec fn let_go(b: BlockView) -> BlockView {
    BlockView { busy: false, ..b }
}

impl LocalRam {
    /// Ends a chunk of an upload with the bytes that came: they count if their
    /// checksum is the announced one. Either way they are in the buffer, and the
    /// block is free again.
    pub fn finish_write(&mut self, id: Uuid, transfer_id: Uuid, payload: &[u8], checksum: &str) -> (r: Result<
        (),
        Error,
    >)
        requires
            old(self).wf(),
            old(self).held(id),
            old(self)@[id].handle.state == BlockState::Writing,
            old(self)@[id].written + payload@.len() <= old(self)@[id].bytes.len(),
        ensures
            final(self).wf(),
            final(self).accounting == old(self).accounting,
            final(self).detached == old(self).detached,
            final(self).next_serial == old(self).next_serial,
            forall|e: LedgerEntry| final(self).owns(e) == old(self).owns(e),
            old(self).intact() ==> final(self).intact(),
            hex_text(blake3_digest(payload@)) == checksum@ ==> {
                &&& r == Ok::<(), Error>(())
                &&& final(self)@ == old(self)@.insert(id, let_go(old(self)@[id].extended(transfer_id, payload@)))
            },
            hex_text(blake3_digest(payload@)) != checksum@ ==> {
                &&& r == Err::<(), Error>(Error::ChecksumMismatch)
                &&& final(self)@ == old(self)@.insert(id, let_go(old(self)@[id].overlaid(payload@)))
            },
    {
        let ghost before = *self;
        let digest: [u8; 32] = blake3_hash(payload);
        let found: String = hex_encode(&digest);
        self.mark(id, false);
        if !same_text(found.as_str(), checksum) {
            let ghost free = *self;
            proof {
                assert(free@.contains_key(id));
                assert(free@[id] == free.blocks@[id]@);
                assert(before@[id] == before.blocks@[id]@);
            }
            match self.blocks.find(id) {
                Some(p) => {
                    let b: &mut RamBlock = self.blocks.value_mut(p);
                    b.overlay(payload);
                },
                None => {
                    assert(false);
                },
            }
            proof {
                free.lemma_update(*self, id);
                assert(self@ =~= before@.insert(id, let_go(before@[id].overlaid(payload@))));
            }
            return Err(Error::ChecksumMismatch);
        }
        self.append(id, transfer_id, payload);
        proof {
            assert(self@ =~= before@.insert(id, let_go(before@[id].extended(transfer_id, payload@))));
        }
        Ok(())
    }

    /// Holds a block in place.
    pub fn hold(&mut self, id: Uuid)
        requires
            old(self).wf(),
            old(self)@.contains_key(id),
            !old(self).held(id),
        ensures
            final(self).wf(),
            final(self).accounting == old(self).accounting,
            final(self).detached == old(self).detached,
            final(self).next_serial == old(self).next_serial,
            forall|e: LedgerEntry| final(self).owns(e) == old(self).owns(e),
            old(self).intact() ==> final(self).intact(),
            final(self)@ == old(self)@.insert(id, (BlockView { busy: true, ..old(self)@[id] })),
    {
        self.mark(id, true);
    }

    /// Lets go of a block whose transfer broke off or whose migration ended.
    pub fn abandon(&mut self, id: Uuid)
        requires
            old(self).wf(),
            old(self).held(id),
        ensures
            final(self).wf(),
            final(self).accounting == old(self).accounting,
            final(self).detached == old(self).detached,
            final(self).next_serial == old(self).next_serial,
            forall|e: LedgerEntry| final(self).owns(e) == old(self).owns(e),
            old(self).intact() ==> final(self).intact(),
            final(self)@ == old(self)@.insert(id, let_go(old(self)@[id])),
    {
        self.mark(id, false);
    }

    /// Puts a chunk that has arrived on this node into the block it is for.
    pub fn store(&mut self, handle: &MemoryBlockHandle, transfer_id: Uuid, offset: u64, payload: &[u8], now_ms: u64) -> (r:
        Result<(), Error>)
        requires
            old(self).wf(),
            !old(self).held(handle.id),
            old(self)@.contains_key(handle.id) && store_check(old(self)@[handle.id], handle@, offset, now_ms) is Ok
                ==> offset + payload@.len() <= old(self)@[handle.id].bytes.len(),
        ensures
            final(self).wf(),
            final(self).accounting == old(self).accounting,
            final(self).detached == old(self).detached,
            final(self).next_serial == old(self).next_serial,
            forall|e: LedgerEntry| final(self).owns(e) == old(self).owns(e),
            old(self).intact() ==> final(self).intact(),
            r == if !old(self)@.contains_key(handle.id) {
                Err(Error::BlockAbsent { id: handle.id })
            } else {
                store_check(old(self)@[handle.id], handle@, offset, now_ms)
            },
            r is Err ==> *final(self) == *old(self),
            r is Ok ==> final(self)@ == old(self)@.insert(
                handle.id,
                old(self)@[handle.id].extended(transfer_id, payload@),
            ),
    {
        let ghost before = *self;
        let b: &RamBlock = self.get(handle.id)?;
        b.authorize(handle.lease_token, now_ms)?;
        if b.handle.state != BlockState::Writing || b.handle.generation != handle.generation || b.written as u64
            != offset {
            return Err(Error::WriteStale);
        }
        self.append(handle.id, transfer_id, payload);
        Ok(())
    }

    /// Puts bytes behind those that a block already has.
    pub(crate) fn append(&mut self, id: Uuid, transfer_id: Uuid, payload: &[u8])
        requires
            old(self).wf(),
            old(self)@.contains_key(id),
            old(self)@[id].handle.state == BlockState::Writing,
            old(self)@[id].written + payload@.len() <= old(self)@[id].bytes.len(),
        ensures
            final(self).wf(),
            final(self).accounting == old(self).accounting,
            final(self).detached == old(self).detached,
            final(self).next_serial == old(self).next_serial,
            forall|e: LedgerEntry| final(self).owns(e) == old(self).owns(e),
            old(self).intact() ==> final(self).intact(),
            final(self)@ == old(self)@.insert(id, old(self)@[id].extended(transfer_id, payload@)),
    {
        let ghost before = *self;
        match self.blocks.find(id) {
            Some(p) => {
                let b: &mut RamBlock = self.blocks.value_mut(p);
                b.extend(transfer_id, payload);
            },
            None => {
                assert(false);
            },
        }
        proof {
            assert(before@[id] == before.blocks@[id]@);
            before.lemma_update(*self, id);
        }
    }

    /// The bytes of a range of a committed block.
    pub fn read(&self, handle: &MemoryBlockHandle, offset: u64, length: usize, now_ms: u64) -> (r: Result<
        Vec<u8>,
        Error,
    >)
        requires
            self.wf(),
            !self.held(handle.id),
        ensures
            match r {
                Ok(v) => {
                    &&& self@.contains_key(handle.id)
                    &&& read_check(self@[handle.id], handle@, offset, length as nat, now_ms) is Ok
                    &&& v@ == self@[handle.id].bytes.subrange(offset as int, offset + length)
                },
                Err(e) => if !self@.contains_key(handle.id) {
                    e == (Error::BlockAbsent { id: handle.id })
                } else {
                    read_check(self@[handle.id], handle@, offset, length as nat, now_ms) == Err::<(), Error>(e)
                },
            },
    {
        let b: &RamBlock = self.get(handle.id)?;
        b.authorize(handle.lease_token, now_ms)?;
        if b.handle.state != BlockState::Ready || b.handle.generation != handle.generation {
            return Err(Error::ReadStale);
        }
        let total: usize = b.bytes.len();
        if length > total || offset > (total - length) as u64 {
            return Err(Error::ReadRange);
        }
        let begin: usize = offset as usize;
        Ok(slice_of(b.bytes.as_slice(), begin, begin + length))
    }

    /// Lets the inventory show a migrated block.
    pub fn publish(&mut self, handle: &MemoryBlockHandle, now_ms: u64) -> (r: Result<(), Error>)
        requires
            old(self).wf(),
            !old(self).held(handle.id),
        ensures
            final(self).wf(),
            final(self).accounting == old(self).accounting,
            final(self).detached == old(self).detached,
            final(self).next_serial == old(self).next_serial,
            forall|e: LedgerEntry| final(self).owns(e) == old(self).owns(e),
            old(self).intact() ==> final(self).intact(),
            r == if !old(self)@.contains_key(handle.id) {
                Err(Error::BlockAbsent { id: handle.id })
            } else {
                publish_check(old(self)@[handle.id], handle@, now_ms)
            },
            r is Err ==> *final(self) == *old(self),
            r is Ok ==> final(self)@ == old(self)@.insert(
                handle.id,
                (BlockView { published: true, ..old(self)@[handle.id] }),
            ),
    {
        let ghost before = *self;
        let id: Uuid = handle.id;
        let b: &RamBlock = self.get(id)?;
        b.authorize(handle.lease_token, now_ms)?;
        if b.handle.generation != handle.generation || b.handle.state != BlockState::Ready {
            return Err(Error::NotReady);
        }
        match self.blocks.find(id) {
            Some(p) => {
                let b: &mut RamBlock = self.blocks.value_mut(p);
                b.published = true;
            },
            None => {
                assert(false);
            },
        }
        proof {
            assert(before@[id] == before.blocks@[id]@);
            before.lemma_update(*self, id);
        }
        Ok(())
    }

    /// Commits a complete upload whose bytes have the given checksum, and
    /// hands back the handle as it now is.
    pub fn commit(&mut self, id: Uuid, token: Uuid, checksum: &str, now_ms: u64) -> (r: Result<
        MemoryBlockHandle,
        Error,
    >)
        requires
            old(self).wf(),
            !old(self).held(id),
        ensures
            final(self).wf(),
            final(self).accounting == old(self).accounting,
            final(self).detached == old(self).detached,
            final(self).next_serial == old(self).next_serial,
            forall|e: LedgerEntry| final(self).owns(e) == old(self).owns(e),
            old(self).intact() ==> final(self).intact(),
            match r {
                Ok(h) => {
                    &&& old(self)@.contains_key(id)
                    &&& commit_check(old(self)@[id], token, checksum@, now_ms) is Ok
                    &&& h@ == (HandleView {
                        state: BlockState::Ready,
                        checksum: Some(checksum@),
                        ..old(self)@[id].handle
                    })
                    &&& final(self)@ == old(self)@.insert(id, (BlockView { handle: h@, ..old(self)@[id] }))
                },
                Err(e) => {
                    &&& *final(self) == *old(self)
                    &&& if !old(self)@.contains_key(id) {
                        e == (Error::BlockAbsent { id })
                    } else {
                        commit_check(old(self)@[id], token, checksum@, now_ms) == Err::<(), Error>(e)
                    }
                },
            },
    {
        let ghost before = *self;
        let b: &RamBlock = self.get(id)?;
        b.authorize(token, now_ms)?;
        if b.written != b.bytes.len() {
            return Err(Error::Incomplete);
        }
        let digest: [u8; 32] = hasher_finalize(&b.hash);
        let found: String = hex_encode(&digest);
        proof {
            assert(b.bytes@.take(b.written as int) =~= b.bytes@);
        }
        if !same_text(found.as_str(), checksum) {
            return Err(Error::ChecksumMismatch);
        }
        let mut committed: MemoryBlockHandle = b.handle.duplicate();
        committed.state = BlockState::Ready;
        committed.checksum = Some(checksum.to_owned());
        match self.blocks.find(id) {
            Some(p) => {
                let b: &mut RamBlock = self.blocks.value_mut(p);
                b.handle.state = BlockState::Ready;
                b.handle.checksum = Some(checksum.to_owned());
            },
            None => {
                assert(false);
            },
        }
        proof {
            assert(before@[id] == before.blocks@[id]@);
            before.lemma_update(*self, id);
        }
        Ok(committed)
    }

    /// Moves the end of a good lease, and hands back the handle as it now is.
    pub fn renew(&mut self, id: Uuid, token: Uuid, expires_ms: u64, now_ms: u64) -> (r: Result<
        MemoryBlockHandle,
        Error,
    >)
        requires
            old(self).wf(),
            !old(self).held(id),
        ensures
            final(self).wf(),
            final(self).accounting == old(self).accounting,
            final(self).detached == old(self).detached,
            final(self).next_serial == old(self).next_serial,
            forall|e: LedgerEntry| final(self).owns(e) == old(self).owns(e),
            old(self).intact() ==> final(self).intact(),
            match r {
                Ok(h) => {
                    &&& old(self)@.contains_key(id)
                    &&& lease_check(old(self)@[id].handle, token, now_ms) is Ok
                    &&& h@ == (HandleView { lease_expires_ms: expires_ms, ..old(self)@[id].handle })
                    &&& final(self)@ == old(self)@.insert(id, (BlockView { handle: h@, ..old(self)@[id] }))
                },
                Err(e) => {
                    &&& *final(self) == *old(self)
                    &&& if !old(self)@.contains_key(id) {
                        e == (Error::BlockAbsent { id })
                    } else {
                        lease_check(old(self)@[id].handle, token, now_ms) == Err::<(), Error>(e)
                    }
                },
            },
    {
        let ghost before = *self;
        let b: &RamBlock = self.get(id)?;
        b.authorize(token, now_ms)?;
        let mut renewed: MemoryBlockHandle = b.handle.duplicate();
        renewed.lease_expires_ms = expires_ms;
        match self.blocks.find(id) {
            Some(p) => {
                let b: &mut RamBlock = self.blocks.value_mut(p);
                b.handle.lease_expires_ms = expires_ms;
            },
            None => {
                assert(false);
            },
        }
        proof {
            assert(before@[id] == before.blocks@[id]@);
            before.lemma_update(*self, id);
        }
        Ok(renewed)
    }
}

impl LocalRam {
    /// Takes a block out. It is paid for no longer, unless readers have it.
    fn take_out(&mut self, id: Uuid)
        requires
            old(self).wf(),
            old(self)@.contains_key(id),
        ensures
            final(self).wf(),
            final(self)@ == old(self)@.remove(id),
            final(self).next_serial == old(self).next_serial,
            final(self).accounting.budget == old(self).accounting.budget,
            final(self).accounting.peak == old(self).accounting.peak,
            if old(self)@[id].pins == 0 {
                &&& final(self).detached == old(self).detached
                &&& final(self).accounting.owned + old(self)@[id].handle.size == old(self).accounting.owned
                &&& final(self).accounting.job_owned(old(self)@[id].handle.job_id) + old(self)@[id].handle.size
                    == old(self).accounting.job_owned(old(self)@[id].handle.job_id)
                &&& final(self).accounting.jobs@ == with_less(
                    old(self).accounting.jobs@,
                    old(self)@[id].handle.job_id,
                    old(self)@[id].handle.size,
                )
            } else {
                &&& final(self).lingering() == old(self).lingering().push(old(self)@[id])
                &&& final(self).accounting == old(self).accounting
            },
            forall|e: LedgerEntry|
                !old(self).owns(e) ==> final(self).accounting.holds(e) == old(self).accounting.holds(e),
            forall|e: LedgerEntry| final(self).owns(e) ==> old(self).owns(e),
            old(self).intact() ==> final(self).intact(),
    {
        let ghost before = *self;
        proof {
            assert(before@[id] == before.blocks@[id]@);
        }
        match self.blocks.remove(id) {
            Some(b) => {
                let ghost gone = b;
                proof {
                    assert(before.sound(gone));
                    assert(before.stores(gone.reservation.entry()));
                    assert forall|k: Uuid| #[trigger] self.blocks@.contains_key(k) implies before.sound(self.blocks@[k])
                        && apart(self.blocks@[k], gone) by {
                        assert(before.blocks@.contains_key(k));
                        assert(before.blocks@.contains_key(id));
                    }
                    assert forall|i: int| 0 <= i < self.detached@.len() implies before.sound(
                        #[trigger] self.detached@[i],
                    ) && apart(self.detached@[i], gone) by {
                        assert(apart(before.blocks@[id], before.detached@[i]));
                    }
                }
                if b.pins == 0 {
                    self.accounting.release(b.reservation);
                    proof {
                        assert(before.accounting.jobs@.contains_key(gone.handle.job_id));
                        assert(self.accounting.jobs@.contains_key(gone.handle.job_id));
                    }
                } else {
                    self.detached.push(b);
                    proof {
                        assert(self.lingering() =~= before.lingering().push(gone@));
                    }
                }
                proof {
                    assert(self@ =~= before@.remove(id));
                    assert forall|k: Uuid| #[trigger] self.blocks@.contains_key(k) implies self.sound(self.blocks@[k])
                        && self.blocks@[k].handle.id == k by {
                        assert(before.blocks@.contains_key(k));
                    }
                    assert forall|e: LedgerEntry| self.owns(e) implies before.owns(e) by {
                        if self.stores(e) {
                            let k = choose|k: Uuid|
                                #[trigger] self.blocks@.contains_key(k) && self.blocks@[k].reservation.entry() == e;
                            assert(before.blocks@.contains_key(k));
                        }
                        if self.keeps(e) {
                            let i = choose|i: int|
                                0 <= i < self.detached@.len() && (#[trigger] self.detached@[i]).reservation.entry() == e;
                            if i < before.detached@.len() {
                                assert(before.detached@[i] == self.detached@[i]);
                            }
                        }
                    }
                }
            },
            None => {
                assert(false);
            },
        }
    }

    /// Gives a block back. Only the lease's token opens it, expired or not; a
    /// block that is not there counts as given back. What readers have stays
    /// paid for until the last of them is done.
    pub fn free(&mut self, id: Uuid, token: Uuid) -> (r: Result<(), Error>)
        requires
            old(self).wf(),
            !old(self).held(id),
        ensures
            final(self).wf(),
            final(self).accounting.budget == old(self).accounting.budget,
            forall|e: LedgerEntry|
                !old(self).owns(e) ==> final(self).accounting.holds(e) == old(self).accounting.holds(e),
            forall|e: LedgerEntry| final(self).owns(e) ==> old(self).owns(e),
            old(self).intact() ==> final(self).intact(),
            returned(*old(self), *final(self), id, token, r),
    {
        match self.get(id) {
            Ok(b) => {
                if b.handle.lease_token != token {
                    return Err(Error::LeaseDenied);
                }
            },
            Err(_) => {
                return Ok(());
            },
        }
        self.take_out(id);
        Ok(())
    }

    /// A hold for a reader: the block and its bytes stay until [`LocalRam::unpin`].
    pub fn pin(&mut self, id: Uuid) -> (r: Result<Pin, Error>)
        requires
            old(self).wf(),
            old(self)@.contains_key(id) ==> old(self)@[id].pins < u64::MAX,
        ensures
            final(self).wf(),
            final(self).accounting == old(self).accounting,
            final(self).detached == old(self).detached,
            final(self).next_serial == old(self).next_serial,
            forall|e: LedgerEntry| final(self).owns(e) == old(self).owns(e),
            old(self).intact() ==> final(self).intact(),
            match r {
                Ok(pin) => {
                    &&& old(self)@.contains_key(id)
                    &&& pin.id() == id
                    &&& pin.serial() == old(self)@[id].serial
                    &&& final(self)@ == old(self)@.insert(
                        id,
                        (BlockView { pins: old(self)@[id].pins + 1, ..old(self)@[id] }),
                    )
                },
                Err(e) => {
                    &&& !old(self)@.contains_key(id)
                    &&& e == (Error::BlockAbsent { id })
                    &&& *final(self) == *old(self)
                },
            },
    {
        let ghost before = *self;
        let serial: u64 = self.get(id)?.serial;
        match self.blocks.find(id) {
            Some(p) => {
                let b: &mut RamBlock = self.blocks.value_mut(p);
                b.pins = b.pins + 1;
            },
            None => {
                assert(false);
            },
        }
        proof {
            assert(before@[id] == before.blocks@[id]@);
            before.lemma_update(*self, id);
        }
        Ok(Pin { id, serial })
    }

    /// Whether the block of `pin` is still in the store.
    pub open spec fn stored(&self, pin: Pin) -> bool {
        self@.contains_key(pin.id()) && self@[pin.id()].serial == pin.serial()
    }

    /// Whether the block of `pin` lingers at place `i` outside the store.
    pub open spec fn lingers(&self, pin: Pin, i: int) -> bool {
        0 <= i < self.detached@.len() && self.detached@[i].serial == pin.serial()
    }

    /// Ends a reader's hold. The last one gives up a block that left the store.
    pub fn unpin(&mut self, pin: Pin)
        requires
            old(self).wf(),
            old(self).stored(pin) && old(self)@[pin.id()].pins > 0 || exists|i: int| old(self).lingers(pin, i),
        ensures
            final(self).wf(),
            final(self).next_serial == old(self).next_serial,
            final(self).accounting.budget == old(self).accounting.budget,
            final(self).accounting.peak == old(self).accounting.peak,
            forall|e: LedgerEntry|
                !old(self).owns(e) ==> final(self).accounting.holds(e) == old(self).accounting.holds(e),
            forall|e: LedgerEntry| final(self).owns(e) ==> old(self).owns(e),
            old(self).intact() ==> final(self).intact(),
            unpinned(*old(self), *final(self), pin),
    {
        let ghost before = *self;
        let here: bool = match self.get(pin.id) {
            Ok(b) => b.serial == pin.serial,
            Err(_) => false,
        };
        if here {
            match self.blocks.find(pin.id) {
                Some(p) => {
                    let b: &mut RamBlock = self.blocks.value_mut(p);
                    b.pins = b.pins - 1;
                },
                None => {
                    assert(false);
                },
            }
            proof {
                assert(before@[pin.id] == before.blocks@[pin.id]@);
                before.lemma_update(*self, pin.id);
            }
            return;
        }
        let mut at: usize = 0;
        while at < self.detached.len() && self.detached[at].serial != pin.serial
            invariant
                *self == before,
                at <= before.detached@.len(),
                forall|i: int| 0 <= i < at ==> (#[trigger] before.detached@[i]).serial != pin.serial,
            decreases before.detached@.len() - at,
        {
            at = at + 1;
        }
        proof {
            let i = choose|i: int| before.lingers(pin, i);
            assert(before.lingers(pin, i));
            assert(at < before.detached@.len());
            assert(before.detached@[at as int].serial == pin.serial);
            assert forall|i: int| #[trigger] before.lingers(pin, i) implies i == at by {
                if i < at {
                    assert(apart(before.detached@[i], before.detached@[at as int]));
                }
                if at < i {
                    assert(apart(before.detached@[at as int], before.detached@[i]));
                }
            }
            assert(before.lingering()[at as int] == before.detached@[at as int]@);
            assert(before.sound(before.detached@[at as int]));
        }
        if self.detached[at].pins > 1 {
            let b: &mut RamBlock = &mut self.detached[at];
            b.pins = b.pins - 1;
            proof {
                assert(self.lingering() =~= before.lingering().update(at as int, self.detached@[at as int]@));
                assert forall|i: int| 0 <= i < self.detached@.len() implies self.sound(#[trigger] self.detached@[i])
                    && self.detached@[i].pins > 0 && apart_alike(self.detached@[i], before.detached@[i]) by {
                    assert(before.sound(before.detached@[i]));
                }
                assert forall|i: int, j: int| 0 <= i < j < self.detached@.len() implies apart(
                    #[trigger] self.detached@[i],
                    #[trigger] self.detached@[j],
                ) by {
                    assert(apart(before.detached@[i], before.detached@[j]));
                }
                assert forall|a: Uuid, i: int| #[trigger]
                    self.blocks@.contains_key(a) && 0 <= i < self.detached@.len() implies apart(
                    self.blocks@[a],
                    #[trigger] self.detached@[i],
                ) by {
                    assert(apart(before.blocks@[a], before.detached@[i]));
                }
                assert forall|k: Uuid| #[trigger] self.blocks@.contains_key(k) implies self.sound(self.blocks@[k])
                    && self.blocks@[k].handle.id == k by {
                    assert(before.sound(before.blocks@[k]));
                }
                assert forall|e: LedgerEntry| self.owns(e) implies before.owns(e) by {
                    if self.stores(e) {
                        assert(before.stores(e));
                    }
                    if self.keeps(e) {
                        let i = choose|i: int|
                            0 <= i < self.detached@.len() && (#[trigger] self.detached@[i]).reservation.entry() == e;
                        assert(before.detached@[i].reservation.entry() == e);
                    }
                }
                assert(self@ == before@);
            }
        } else {
            let b: RamBlock = self.detached.remove(at);
            let ghost gone = b;
            let ghost rest = self.detached@;
            proof {
                assert(rest =~= before.detached@.remove(at as int));
                assert(before.keeps(gone.reservation.entry()));
            }
            self.accounting.release(b.reservation);
            proof {
                assert(self.lingering() =~= before.lingering().remove(at as int));
                assert forall|i: int| 0 <= i < rest.len() implies #[trigger] rest[i] == before.detached@[if i < at {
                    i
                } else {
                    i + 1
                }] by {}
                assert forall|i: int| 0 <= i < rest.len() implies self.sound(#[trigger] rest[i]) && rest[i].pins > 0 by {
                    let k = if i < at {
                        i
                    } else {
                        i + 1
                    };
                    assert(before.sound(before.detached@[k]));
                    if k < at {
                        assert(apart(before.detached@[k], before.detached@[at as int]));
                    } else {
                        assert(apart(before.detached@[at as int], before.detached@[k]));
                    }
                }
                assert forall|i: int, j: int| 0 <= i < j < rest.len() implies apart(
                    #[trigger] rest[i],
                    #[trigger] rest[j],
                ) by {
                    let a = if i < at {
                        i
                    } else {
                        i + 1
                    };
                    let b = if j < at {
                        j
                    } else {
                        j + 1
                    };
                    assert(apart(before.detached@[a], before.detached@[b]));
                }
                assert forall|a: Uuid, i: int| #[trigger]
                    self.blocks@.contains_key(a) && 0 <= i < rest.len() implies apart(
                    self.blocks@[a],
                    #[trigger] rest[i],
                ) by {
                    let k = if i < at {
                        i
                    } else {
                        i + 1
                    };
                    assert(apart(before.blocks@[a], before.detached@[k]));
                }
                assert forall|k: Uuid| #[trigger] self.blocks@.contains_key(k) implies self.sound(self.blocks@[k])
                    && self.blocks@[k].handle.id == k by {
                    assert(before.sound(before.blocks@[k]));
                    assert(apart(before.blocks@[k], before.detached@[at as int]));
                }
                assert forall|e: LedgerEntry| self.owns(e) implies before.owns(e) by {
                    if self.stores(e) {
                        assert(before.stores(e));
                    }
                    if self.keeps(e) {
                        let i = choose|i: int| 0 <= i < rest.len() && (#[trigger] rest[i]).reservation.entry() == e;
                        let k = if i < at {
                            i
                        } else {
                            i + 1
                        };
                        assert(before.detached@[k].reservation.entry() == e);
                    }
                }
                assert(self@ == before@);
            }
        }
    }

    /// The handles at places `from..to` in key order, without those of blocks
    /// that are held or not published.
    fn list(&self, from: usize, to: usize) -> (r: Vec<MemoryBlockHandle>)
        requires
            self.wf(),
            from <= to <= self.blocks.keys().len(),
        ensures
            views(r@) == listed(self.blocks.keys().subrange(from as int, to as int), self@),
    {
        let mut r: Vec<MemoryBlockHandle> = Vec::new();
        let mut i: usize = from;
        let ghost keys = self.blocks.keys();
        proof {
            assert(views(r@) =~= Seq::<HandleView>::empty());
        }
        while i < to
            invariant
                self.wf(),
                keys == self.blocks.keys(),
                from <= i <= to <= keys.len(),
                views(r@) == listed(keys.subrange(from as int, i as int), self@),
            decreases to - i,
        {
            let b: &RamBlock = self.blocks.value_at(i);
            let ghost shown = r@;
            proof {
                assert(keys.subrange(from as int, i + 1).drop_last() =~= keys.subrange(from as int, i as int));
                assert(self@[keys[i as int]] == b@);
            }
            if b.published && !b.busy {
                r.push(b.handle.duplicate());
                proof {
                    assert(views(r@) =~= views(shown).push(b.handle@));
                }
            }
            i = i + 1;
        }
        r
    }

    /// The handles of all published blocks that nothing holds, by id.
    pub fn inventory(&self) -> (r: Vec<MemoryBlockHandle>)
        requires
            self.wf(),
        ensures
            views(r@) == listed(self.blocks.keys(), self@),
    {
        let n: usize = self.blocks.len();
        proof {
            assert(self.blocks.keys().subrange(0, n as int) =~= self.blocks.keys());
        }
        self.list(0, n)
    }

    /// The keys on a page: pages of [`PAGE`] keys follow one another and begin
    /// again behind the last.
    pub open spec fn page_keys(keys: Seq<Uuid>, page: u64) -> Seq<Uuid> {
        let pages: int = if keys.len() == 0 {
            1
        } else {
            (keys.len() + PAGE - 1) / PAGE as int
        };
        let start: int = (page as int % pages) * PAGE;
        let end: int = if start + PAGE < keys.len() {
            start + PAGE
        } else {
            keys.len() as int
        };
        keys.subrange(start, end)
    }

    /// One page of the inventory.
    pub fn inventory_page(&self, page: u64) -> (r: Vec<MemoryBlockHandle>)
        requires
            self.wf(),
        ensures
            views(r@) == listed(Self::page_keys(self.blocks.keys(), page), self@),
    {
        let n: usize = self.blocks.len();
        let pages: usize = if n == 0 {
            1
        } else {
            (n + PAGE - 1) / PAGE
        };
        let start: usize = (page % pages as u64) as usize * PAGE;
        let end: usize = if start + PAGE < n {
            start + PAGE
        } else {
            n
        };
        self.list(start, end)
    }

    /// Drops every block whose lease has run out, unless something holds it in
    /// place. What readers have stays paid for until the last of them is done.
    pub fn expire(&mut self, now_ms: u64)
        requires
            old(self).wf(),
        ensures
            final(self).wf(),
            expired(*old(self), *final(self), now_ms),
    {
        let mut gone: Vec<Uuid> = Vec::new();
        let ghost before = *self;
        let n: usize = self.blocks.len();
        let mut i: usize = 0;
        while i < n
            invariant
                *self == before,
                before.wf(),
                n == before.blocks.keys().len(),
                i <= n,
                gone@ == lapsed_ids(before.blocks.keys().take(i as int), before@, now_ms),
                forall|k: int|
                    0 <= k < i && lapsed(before@[#[trigger] before.blocks.keys()[k]], now_ms) ==> gone@.contains(
                        before.blocks.keys()[k],
                    ),
                forall|j: int|
                    0 <= j < gone@.len() ==> before@.contains_key(#[trigger] gone@[j]) && lapsed(
                        before@[gone@[j]],
                        now_ms,
                    ) && exists|k: int| 0 <= k < i && before.blocks.keys()[k] == gone@[j],
                forall|a: int, b: int| 0 <= a < b < gone@.len() ==> gone@[a] != gone@[b],
            decreases n - i,
        {
            let b: &RamBlock = self.blocks.value_at(i);
            let ghost key = before.blocks.keys()[i as int];
            proof {
                before.blocks.lemma_keys();
                assert(before@[key] == b@);
                assert(before.blocks.keys().take(i + 1).drop_last() =~= before.blocks.keys().take(i as int));
            }
            let ghost listed_before = gone@;
            if !b.busy && b.handle.lease_expires_ms <= now_ms && b.handle.state != BlockState::Migrating {
                let id: Uuid = self.blocks.key_at(i);
                gone.push(id);
                proof {
                    assert(gone@[gone@.len() - 1] == key);
                    assert forall|k: int|
                        0 <= k < i + 1 && lapsed(before@[#[trigger] before.blocks.keys()[k]], now_ms) implies gone@.contains(
                    before.blocks.keys()[k]) by {
                        if k < i {
                            assert(listed_before.contains(before.blocks.keys()[k]));
                            let j = choose|j: int| 0 <= j < listed_before.len() && listed_before[j] == before.blocks.keys()[k];
                            assert(gone@[j] == before.blocks.keys()[k]);
                        }
                    }
                }
            }
            i = i + 1;
        }
        proof {
            assert(before.blocks.keys().take(n as int) =~= before.blocks.keys());
            assert(self.lingering() =~= before.lingering() + pinned_of(gone@.take(0), before@));
            before.blocks.lemma_keys();
            assert forall|id: Uuid| before@.contains_key(id) && lapsed(before@[id], now_ms) implies gone@.contains(id) by {
                assert(before.blocks.keys().contains(id));
                let k = choose|k: int| 0 <= k < before.blocks.keys().len() && before.blocks.keys()[k] == id;
                assert(lapsed(before@[before.blocks.keys()[k]], now_ms));
            }
        }
        let mut j: usize = 0;
        while j < gone.len()
            invariant
                self.wf(),
                j <= gone@.len(),
                self.accounting.budget == before.accounting.budget,
                self.accounting.peak == before.accounting.peak,
                self.accounting.owned + bytes_of(gone@.take(j as int), before@) == before.accounting.owned,
                self.accounting.jobs@ == accounts_without(
                    before.accounting.jobs@,
                    gone@.take(j as int),
                    before@,
                ),
                self.lingering() == before.lingering() + pinned_of(gone@.take(j as int), before@),
                forall|id: Uuid| #[trigger]
                    self@.contains_key(id) <==> before@.contains_key(id) && !gone@.take(j as int).contains(id),
                forall|id: Uuid| #[trigger] self@.contains_key(id) ==> self@[id] == before@[id],
                forall|e: LedgerEntry| !before.owns(e) ==> self.accounting.holds(e) == before.accounting.holds(e),
                forall|e: LedgerEntry| self.owns(e) ==> before.owns(e),
                before.intact() ==> self.intact(),
                forall|k: int| 0 <= k < gone@.len() ==> before@.contains_key(#[trigger] gone@[k]),
                forall|a: int, b: int| 0 <= a < b < gone@.len() ==> gone@[a] != gone@[b],
            decreases gone@.len() - j,
        {
            let id: Uuid = gone[j];
            let ghost earlier = *self;
            proof {
                assert(!gone@.take(j as int).contains(id));
                assert(before@.contains_key(gone@[j as int]));
                assert(self@.contains_key(id));
                assert(self@[id] == before@[id]);
            }
            self.take_out(id);
            proof {
                assert(gone@.take(j + 1) =~= gone@.take(j as int).push(id));
                assert(gone@.take(j + 1).drop_last() =~= gone@.take(j as int));
                assert(self.lingering() =~= before.lingering() + pinned_of(gone@.take(j + 1), before@));
                assert forall|k: Uuid| #[trigger]
                    self@.contains_key(k) <==> before@.contains_key(k) && !gone@.take(j + 1).contains(k) by {
                    let part = gone@.take(j as int);
                    if part.push(id).contains(k) {
                        let x = choose|x: int| 0 <= x < part.push(id).len() && part.push(id)[x] == k;
                        if x < part.len() {
                            assert(part[x] == k);
                        }
                    }
                    if part.contains(k) {
                        let x = choose|x: int| 0 <= x < part.len() && part[x] == k;
                        assert(part.push(id)[x] == k);
                    }
                    assert(part.push(id)[part.len() as int] == id);
                    assert(self@.contains_key(k) <==> earlier@.contains_key(k) && k != id);
                }
                assert forall|k: Uuid| #[trigger] self@.contains_key(k) implies self@[k] == before@[k] by {
                    assert(earlier@.contains_key(k));
                }
            }
            j = j + 1;
        }
        proof {
            assert(gone@.take(gone@.len() as int) =~= gone@);
            assert forall|id: Uuid| gone@.contains(id) implies lapsed(before@[id], now_ms) by {
                let k = choose|k: int| 0 <= k < gone@.len() && gone@[k] == id;
            }
        }
    }
}

impl LocalRam {
    /// The blocks and all about them are the same.
    pub open spec fn same_blocks(&self, other: &LocalRam) -> bool {
        &&& self.blocks == other.blocks
        &&& self.detached == other.detached
        &&& self.next_serial == other.next_serial
    }

    proof fn lemma_same_blocks(self, after: Self)
        requires
            self.wf(),
            after.same_blocks(&self),
            after.accounting.wf(),
            forall|e: LedgerEntry| self.owns(e) ==> after.accounting.holds(e),
        ensures
            after.wf(),
            after@ == self@,
            after.lingering() == self.lingering(),
            forall|e: LedgerEntry| after.owns(e) == self.owns(e),
            self.intact() ==> after.intact(),
    {
        assert forall|k: Uuid| #[trigger] after.blocks@.contains_key(k) implies after.sound(after.blocks@[k])
            && after.blocks@[k].handle.id == k by {
            assert(self.sound(self.blocks@[k]));
            assert(self.stores(self.blocks@[k].reservation.entry()));
            assert(self.owns(self.blocks@[k].reservation.entry()));
        }
        assert forall|i: int| 0 <= i < after.detached@.len() implies after.sound(#[trigger] after.detached@[i])
            && after.detached@[i].pins > 0 by {
            assert(self.sound(self.detached@[i]));
            assert(self.keeps(self.detached@[i].reservation.entry()));
            assert(self.owns(self.detached@[i].reservation.entry()));
        }
        assert forall|e: LedgerEntry| after.owns(e) == self.owns(e) by {
            assert(after.stores(e) == self.stores(e));
            assert(after.keeps(e) == self.keeps(e));
        }
    }

    /// Promises bytes for something else than a block.
    pub fn reserve(&mut self, bytes: u64) -> (r: Result<Reservation, Error>)
        requires
            old(self).wf(),
        ensures
            final(self).wf(),
            final(self).same_blocks(old(self)),
            final(self)@ == old(self)@,
            old(self).intact() ==> final(self).intact(),
            forall|e: LedgerEntry| final(self).owns(e) == old(self).owns(e),
            final(self).accounting.budget == old(self).accounting.budget,
            match r {
                Ok(held) => {
                    &&& old(self).accounting.owned + bytes <= old(self).accounting.budget
                    &&& held.entry() == (LedgerEntry {
                        ticket: old(self).accounting.next_ticket(),
                        bytes,
                        job: None,
                    })
                    &&& !old(self).accounting.holds(held.entry())
                    &&& forall|e: LedgerEntry|
                        final(self).accounting.holds(e) == (old(self).accounting.holds(e) || e == held.entry())
                    &&& final(self).accounting.owned == old(self).accounting.owned + bytes
                    &&& final(self).accounting.peak == risen(
                        old(self).accounting.peak,
                        old(self).accounting.owned + bytes,
                    )
                    &&& final(self).accounting.jobs == old(self).accounting.jobs
                    &&& final(self).accounting.next_ticket() == old(self).accounting.next_ticket() + 1
                },
                Err(e) => {
                    &&& old(self).accounting.owned + bytes > old(self).accounting.budget
                    &&& e == (Error::OutOfCapacity { bytes })
                    &&& *final(self) == *old(self)
                },
            },
    {
        let ghost before = *self;
        let r: Result<Reservation, Error> = self.accounting.reserve(bytes);
        proof {
            if r is Ok {
                assert forall|e: LedgerEntry| before.owns(e) implies self.accounting.holds(e) by {
                    before.lemma_owned(e);
                }
                before.lemma_same_blocks(*self);
            }
        }
        r
    }

    /// What a block holds is live and promised to a job.
    pub proof fn lemma_owned(self, e: LedgerEntry)
        requires
            self.wf(),
            self.owns(e),
        ensures
            self.accounting.holds(e),
            e.job is Some,
    {
        if self.stores(e) {
            let k = choose|k: Uuid| #[trigger] self.blocks@.contains_key(k) && self.blocks@[k].reservation.entry() == e;
            assert(self.sound(self.blocks@[k]));
        } else {
            let i = choose|i: int|
                0 <= i < self.detached@.len() && (#[trigger] self.detached@[i]).reservation.entry() == e;
            assert(self.sound(self.detached@[i]));
        }
    }

    /// Ends a promise that was not for a block.
    pub fn release(&mut self, held: Reservation)
        requires
            old(self).wf(),
            old(self).accounting.holds(held.entry()),
            held.entry().job is None,
        ensures
            final(self).wf(),
            final(self).same_blocks(old(self)),
            final(self)@ == old(self)@,
            old(self).intact() ==> final(self).intact(),
            forall|e: LedgerEntry| final(self).owns(e) == old(self).owns(e),
            final(self).accounting.budget == old(self).accounting.budget,
            final(self).accounting.peak == old(self).accounting.peak,
            final(self).accounting.jobs == old(self).accounting.jobs,
            final(self).accounting.next_ticket() == old(self).accounting.next_ticket(),
            final(self).accounting.owned + held.entry().bytes == old(self).accounting.owned,
            forall|e: LedgerEntry|
                final(self).accounting.holds(e) == (old(self).accounting.holds(e) && e != held.entry()),
    {
        let ghost before = *self;
        self.accounting.release(held);
        proof {
            assert forall|e: LedgerEntry| before.owns(e) implies self.accounting.holds(e) by {
                before.lemma_owned(e);
            }
            before.lemma_same_blocks(*self);
        }
    }
}

impl LocalRam {
    /// Another budget changes nothing else.
    pub proof fn lemma_rebudget(self, after: Self)
        requires
            self.wf(),
            after == (LocalRam {
                accounting: RamAccounting { budget: after.accounting.budget, ..self.accounting },
                ..self
            }),
        ensures
            after.wf(),
            after@ == self@,
            after.lingering() == self.lingering(),
            self.intact() ==> after.intact(),
            forall|e: LedgerEntry| after.owns(e) == self.owns(e),
            forall|e: LedgerEntry| after.accounting.holds(e) == self.accounting.holds(e),
    {
        assert forall|e: LedgerEntry| after.accounting.holds(e) == self.accounting.holds(e) by {
            assert(after.accounting.ledger() == self.accounting.ledger());
        }
        assert forall|e: LedgerEntry| self.owns(e) implies after.accounting.holds(e) by {
            self.lemma_owned(e);
        }
        self.lemma_same_blocks(after);
    }
}

/// Whoever does not know the token of a block can neither write nor read it,
/// neither commit nor publish it, whatever else the handle says.
pub proof fn law_token_is_required(
    b: BlockView,
    handle: HandleView,
    transfer_id: Uuid,
    offset: u64,
    length: nat,
    total_size: u64,
    checksum: Seq<char>,
    now_ms: u64,
)
    requires
        handle.lease_token != b.handle.lease_token,
    ensures
        lease_check(b.handle, handle.lease_token, now_ms) == Err::<(), Error>(Error::LeaseDenied),
        chunk_check(b, handle, transfer_id, offset, total_size, now_ms) == Err::<(), Error>(Error::LeaseDenied),
        store_check(b, handle, offset, now_ms) == Err::<(), Error>(Error::LeaseDenied),
        read_check(b, handle, offset, length, now_ms) == Err::<(), Error>(Error::LeaseDenied),
        publish_check(b, handle, now_ms) == Err::<(), Error>(Error::LeaseDenied),
        commit_check(b, handle.lease_token, checksum, now_ms) == Err::<(), Error>(Error::LeaseDenied),
{
}

/// A lease that has run out is worth nothing, to its holder too; what was
/// refused for that reason stays refused.
pub proof fn law_lease_ends(
    b: BlockView,
    handle: HandleView,
    transfer_id: Uuid,
    offset: u64,
    length: nat,
    total_size: u64,
    checksum: Seq<char>,
    now_ms: u64,
    later_ms: u64,
)
    requires
        handle.lease_token == b.handle.lease_token,
        b.handle.lease_expires_ms <= now_ms <= later_ms,
    ensures
        lease_check(b.handle, handle.lease_token, later_ms) == Err::<(), Error>(Error::LeaseExpired),
        chunk_check(b, handle, transfer_id, offset, total_size, later_ms) == Err::<(), Error>(Error::LeaseExpired),
        store_check(b, handle, offset, later_ms) == Err::<(), Error>(Error::LeaseExpired),
        read_check(b, handle, offset, length, later_ms) == Err::<(), Error>(Error::LeaseExpired),
        publish_check(b, handle, later_ms) == Err::<(), Error>(Error::LeaseExpired),
        commit_check(b, handle.lease_token, checksum, later_ms) == Err::<(), Error>(Error::LeaseExpired),
{
}

/// A block that has been given back while readers have it is paid for until the
/// last of them is done: `states[i]` is the store when `i` of them are.
pub proof fn law_last_reader_gives_the_bytes_back(
    a: LocalRam,
    id: Uuid,
    token: Uuid,
    r: Result<(), Error>,
    states: Seq<LocalRam>,
    pins: Seq<Pin>,
)
    requires
        a.wf(),
        a@.contains_key(id),
        a@[id].handle.lease_token == token,
        pins.len() == a@[id].pins,
        states.len() == pins.len() + 1,
        returned(a, states[0], id, token, r),
        forall|i: int|
            0 <= i < pins.len() ==> (#[trigger] pins[i]).id() == id && pins[i].serial() == a@[id].serial && unpinned(
                states[i],
                states[i + 1],
                pins[i],
            ),
    ensures
        r == Ok::<(), Error>(()),
        forall|i: int| 0 <= i < states.len() ==> !(#[trigger] states[i])@.contains_key(id),
        forall|i: int| 0 <= i < pins.len() ==> (#[trigger] states[i]).accounting.owned == a.accounting.owned,
        states.last().accounting.owned + a@[id].handle.size == a.accounting.owned,
{
    let n = pins.len() as int;
    assert forall|i: int| 0 <= i < n implies (#[trigger] states[i]).accounting.owned == a.accounting.owned
        && !states[i]@.contains_key(id) by {
        lemma_reader_done(a, id, token, r, states, pins, i);
    }
    if n > 0 {
        lemma_reader_done(a, id, token, r, states, pins, n - 1);
        let before = states[n - 1];
        let at = a.lingering().len() as int;
        assert(before.lingering().len() == at + 1);
        assert(before.lingering()[at].serial == a@[id].serial);
        assert(before.lingering()[at] == before.detached@[at]@);
        assert(before.lingers(pins[n - 1], at));
        assert(unpinned(before, states[n], pins[n - 1]));
    }
}

proof fn lemma_reader_done(
    a: LocalRam,
    id: Uuid,
    token: Uuid,
    r: Result<(), Error>,
    states: Seq<LocalRam>,
    pins: Seq<Pin>,
    i: int,
)
    requires
        a@.contains_key(id),
        a@[id].handle.lease_token == token,
        pins.len() == a@[id].pins,
        states.len() == pins.len() + 1,
        returned(a, states[0], id, token, r),
        forall|i: int|
            0 <= i < pins.len() ==> (#[trigger] pins[i]).id() == id && pins[i].serial() == a@[id].serial && unpinned(
                states[i],
                states[i + 1],
                pins[i],
            ),
        0 <= i < pins.len(),
    ensures
        states[i]@ == a@.remove(id),
        states[i].accounting == a.accounting,
        states[i].lingering() == a.lingering().push(BlockView { pins: (pins.len() - i) as nat, ..a@[id] }),
    decreases i,
{
    if i > 0 {
        lemma_reader_done(a, id, token, r, states, pins, i - 1);
        let before = states[i - 1];
        let at = a.lingering().len() as int;
        assert(before.lingering().len() == at + 1);
        assert(before.lingering()[at].serial == a@[id].serial);
        assert(before.lingering()[at] == before.detached@[at]@);
        assert(before.lingers(pins[i - 1], at));
        assert(unpinned(before, states[i - 1 + 1], pins[i - 1]));
        assert(states[i].lingering() =~= a.lingering().push(BlockView { pins: (pins.len() - i) as nat, ..a@[id] }));
    }
}

} // verus!
