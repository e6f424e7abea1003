//! What a node does on its own: it hears of others and misses them, looks
//! after leases, and asks for relief when it has too much.
use crate::address::{ascending, put_in_order, SocketAddress};
use crate::cluster::election::{law_election_is_static, leader_of, same_frame, Leadership};
use crate::cluster::membership::{dead, gone, law_members_are_apart, Membership, Peer, PeerView};
use crate::error::Error;
use crate::ids::{hyphenated, uuid_text, Uuid};
use crate::jobs::{failed, without_node, JobView, Jobs};
use crate::memory::allocator::LedgerEntry;
use crate::memory::block::{HandleView, MemoryBlockHandle};
use crate::memory::local_ram::{expired, listed, views};
use crate::memory::residency::{jobs_on, orphaned, registered, ResidencyTable};
use crate::metrics::{job_of, plus, sum, JobMetrics};
use crate::node::capabilities::{NodeCapabilities, NodeView};
use crate::node::gpu::{gpu_capabilities_views, GpuCapabilities, GpuView};
use crate::node::memory::MemoryCapabilities;
use crate::protocol::request::Request;
use crate::runtime::blocks::resolve_check;
use crate::runtime::session::freed;
use crate::runtime::{MemorySample, Runtime, Staged};
use crate::text::{join, same_text};
use vstd::prelude::*;

verus! {

/// The jobs after several failed for one reason.
pub open spec fn all_failed(m: Map<Uuid, JobView>, ids: Seq<Uuid>, error: Seq<char>) -> Map<Uuid, JobView>
    decreases ids.len(),
{
    if ids.len() == 0 {
        m
    } else {
        failed(all_failed(m, ids.drop_last(), error), ids.last(), error)
    }
}

/// The blocks after a node is gone.
pub open spec fn bereft(m: Map<Uuid, HandleView>, node: Uuid) -> Map<Uuid, HandleView> {
    m.map_values(|h: HandleView| orphaned(h, node))
}

/// The jobs after a node is gone: those that computed there, and those whose
/// data it had.
pub open spec fn bereaved(
    jobs: Map<Uuid, JobView>,
    keys: Seq<Uuid>,
    blocks: Map<Uuid, HandleView>,
    node: Uuid,
    error: Seq<char>,
) -> Map<Uuid, JobView> {
    all_failed(jobs.map_values(|j: JobView| without_node(j, node)), jobs_on(keys, blocks, node), error)
}

/// The table after several reports.
pub open spec fn all_registered(m: Map<Uuid, HandleView>, handles: Seq<HandleView>) -> Map<Uuid, HandleView>
    decreases handles.len(),
{
    if handles.len() == 0 {
        m
    } else {
        registered(all_registered(m, handles.drop_last()), handles.last())
    }
}

/// Whether a reported block is of the node that reports it.
pub open spec fn own(h: HandleView, node: NodeView) -> bool {
    h.owner_node == node.node_id && h.owner_incarnation == node.incarnation
}

/// How many of the reported blocks come before one that is not the node's own.
pub open spec fn own_prefix(handles: Seq<HandleView>, node: NodeView) -> int
    decreases handles.len(),
{
    if handles.len() == 0 || !own(handles[0], node) {
        0
    } else {
        1 + own_prefix(handles.skip(1), node)
    }
}

/// What is said of data on a node that started again.
pub open spec fn restarted_text(node: Uuid) -> Seq<char> {
    "TRAINPOOL_DATA_LOST: node "@ + hyphenated(node) + " restarted"@
}

/// What is said of data on a node that is gone.
pub open spec fn exclusive_text(node: Uuid) -> Seq<char> {
    "TRAINPOOL_DATA_LOST: data stored exclusively on node "@ + hyphenated(node)
}

/// The membership after a change of leader: a node that comes to lead issues a
/// new token.
pub open spec fn rotated(a: Membership, z: Membership, before: Leadership, node_id: Uuid, token: Uuid) -> bool {
    let after = leader_of(a.all());
    if after.leader_id != before.leader_id && after.leader_id == Some(node_id) {
        &&& z.local_id == a.local_id
        &&& z.peers.keys() == a.peers.keys()
        &&& z@ == a@.insert(
            node_id,
            PeerView {
                capabilities: NodeView { leader_generation: token, ..a@[node_id].capabilities },
                ..a@[node_id]
            },
        )
    } else {
        z == a
    }
}

/// What stands in the way of a peer.
pub open spec fn peer_check(a: Runtime, node: NodeView, inventory: Seq<HandleView>) -> Option<Error> {
    if node.node_id == a.node_id {
        Some(Error::DuplicateNode)
    } else if !(4096 <= node.network.chunk_bytes <= 67_108_864) {
        Some(Error::PeerChunk)
    } else if inventory.len() > 100_000 {
        Some(Error::PeerInventory)
    } else {
        None
    }
}

/// Whether a known peer has started again.
pub open spec fn has_restarted(a: Runtime, node: NodeView) -> bool {
    a.membership@.contains_key(node.node_id) && a.membership@[node.node_id].capabilities.incarnation
        != node.incarnation
}

/// What the word of a peer leads to.
pub open spec fn accepted(
    a: Runtime,
    z: Runtime,
    node: NodeView,
    inventory: Seq<HandleView>,
    token: Uuid,
    now_ns: u64,
    r: Result<(), Error>,
) -> bool {
    let again = has_restarted(a, node);
    let jobs = if again {
        bereaved(a.jobs@, a.residency.blocks.keys(), a.residency@, node.node_id, restarted_text(node.node_id))
    } else {
        a.jobs@
    };
    let blocks = if again {
        bereft(a.residency@, node.node_id)
    } else {
        a.residency@
    };
    match peer_check(a, node, inventory) {
        Some(e) => r == Err::<(), Error>(e) && z == a,
        None => {
            let good = own_prefix(inventory, node);
            &&& z == (Runtime { membership: z.membership, residency: z.residency, jobs: z.jobs, ..a })
            &&& z.jobs@ == jobs
            &&& z.residency@ == all_registered(blocks, inventory.take(good))
            &&& if good < inventory.len() {
                &&& r == Err::<(), Error>(Error::InventoryOwner)
                &&& z.membership == a.membership
            } else {
                &&& r == Ok::<(), Error>(())
                &&& exists|mid: Membership|
                    {
                        &&& #[trigger] heard(a.membership, mid, node, now_ns)
                        &&& rotated(mid, z.membership, leader_of(a.membership.all()), a.node_id, token)
                    }
            }
        },
    }
}

/// The membership after a node was heard of.
pub open spec fn heard(a: Membership, z: Membership, node: NodeView, now_ns: u64) -> bool {
    &&& z.wf()
    &&& z.local_id == a.local_id
    &&& z@ == a@.insert(node.node_id, PeerView { capabilities: node, last_seen: now_ns })
}

fn fail_all(jobs: &mut Jobs, ids: &Vec<Uuid>, error: &str)
    requires
        old(jobs).wf(),
    ensures
        final(jobs).wf(),
        final(jobs)@ == all_failed(old(jobs)@, ids@, error@),
{
    let ghost before = jobs@;
    let mut i: usize = 0;
    proof {
        assert(ids@.take(0) =~= Seq::<Uuid>::empty());
    }
    while i < ids.len()
        invariant
            i <= ids@.len(),
            jobs.wf(),
            jobs@ == all_failed(before, ids@.take(i as int), error@),
        decreases ids@.len() - i,
    {
        proof {
            assert(ids@.take(i + 1).drop_last() =~= ids@.take(i as int));
        }
        jobs.fail(ids[i], error.to_owned());
        i = i + 1;
    }
    proof {
        assert(ids@.take(i as int) =~= ids@);
    }
}

fn lose(jobs: &mut Jobs, residency: &mut ResidencyTable, node: Uuid, error: &str)
    requires
        old(jobs).wf(),
        old(residency).wf(),
    ensures
        final(jobs).wf(),
        final(residency).wf(),
        final(residency)@ == bereft(old(residency)@, node),
        final(residency).blocks.keys() == old(residency).blocks.keys(),
        final(jobs)@ == bereaved(old(jobs)@, old(residency).blocks.keys(), old(residency)@, node, error@),
{
    let ghost before = *residency;
    jobs.lose_compute(node);
    let affected: Vec<Uuid> = residency.lose_node(node);
    fail_all(jobs, &affected, error);
}

impl Runtime {
    /// Takes in what a peer says of itself and of the blocks it has. A peer that
    /// started again has lost what it had.
    #[verifier::loop_isolation(false)]
    pub fn accept_peer(
        &mut self,
        node: NodeCapabilities,
        inventory: Vec<MemoryBlockHandle>,
        token: Uuid,
        now_ns: u64,
    ) -> (r: Result<(), Error>)
        requires
            old(self).wf(),
        ensures
            final(self).wf(),
            accepted(*old(self), *final(self), node@, views(inventory@), token, now_ns, r),
    {
        let ghost first = *self;
        let ghost told = views(inventory@);
        let ghost peer = node@;
        if node.node_id == self.node_id {
            return Err(Error::DuplicateNode);
        }
        if node.network.chunk_bytes < 4096 || node.network.chunk_bytes > 67_108_864 {
            return Err(Error::PeerChunk);
        }
        if inventory.len() > 100_000 {
            return Err(Error::PeerInventory);
        }
        let before: Leadership = self.leadership();
        let restarted: bool = match self.membership.peers.get(node.node_id) {
            Some(p) => {
                proof {
                    assert(first.membership@[node.node_id] == p@);
                }
                p.capabilities.incarnation != node.incarnation
            },
            None => false,
        };
        proof {
            assert(restarted == has_restarted(first, peer));
        }
        if restarted {
            let text: String = join("TRAINPOOL_DATA_LOST: node ", uuid_text(node.node_id).as_str());
            let text: String = join(text.as_str(), " restarted");
            lose(&mut self.jobs, &mut self.residency, node.node_id, text.as_str());
        }
        let ghost blocks = self.residency@;
        let count: usize = inventory.len();
        let mut i: usize = 0;
        proof {
            assert(told.skip(0) =~= told);
            assert(told.take(0) =~= Seq::<HandleView>::empty());
        }
        let ghost mid = *self;
        while i < count
            invariant
                mid.wf(),
                *self == (Runtime { residency: self.residency, ..mid }),
                self.residency.wf(),
                count == told.len(),
                i <= count,
                peer == node@,
                told == views(inventory@),
                own_prefix(told, peer) == i + own_prefix(told.skip(i as int), peer),
                self.residency@ == all_registered(blocks, told.take(i as int)),
            decreases count - i,
        {
            let h: &MemoryBlockHandle = &inventory[i];
            proof {
                assert(told.skip(i as int).skip(1) =~= told.skip(i + 1));
                assert(told.skip(i as int)[0] == told[i as int]);
                assert(h@ == told[i as int]);
            }
            if h.owner_node != node.node_id || h.owner_incarnation != node.incarnation {
                proof {
                    assert(own_prefix(told, peer) == i);
                }
                return Err(Error::InventoryOwner);
            }
            self.residency.register(h.duplicate());
            proof {
                assert(told.take(i + 1).drop_last() =~= told.take(i as int));
                assert(told.take(i + 1).last() == told[i as int]);
            }
            i = i + 1;
        }
        self.membership.update(node, now_ns);
        proof {
            assert(told.take(count as int) =~= told);
            assert(heard(first.membership, self.membership, peer, now_ns));
        }
        let ghost known = *self;
        self.rotate_leader(before, token);
        Ok(())
    }

    /// Issues a new token if this node has come to lead.
    fn rotate_leader(&mut self, before: Leadership, token: Uuid)
        requires
            old(self).wf(),
        ensures
            final(self).wf(),
            *final(self) == (Runtime { membership: final(self).membership, ..*old(self) }),
            rotated(old(self).membership, final(self).membership, before, old(self).node_id, token),
    {
        let ghost first = *self;
        let after: Leadership = self.leadership();
        if after.leader_id != before.leader_id && after.leader_id == Some(self.node_id) {
            let p: usize = self.my_place();
            let peer: &mut Peer = self.membership.peers.value_mut(p);
            peer.capabilities.leader_generation = token;
            proof {
                let id = first.node_id;
                assert(first.membership@[id] == first.membership.peers@[id]@);
                assert(self.membership@ =~= first.membership@.insert(
                    id,
                    PeerView {
                        capabilities: NodeView { leader_generation: token, ..first.membership@[id].capabilities },
                        ..first.membership@[id]
                    },
                ));
            }
        }
    }
}

/// The node after a promise to an SDK was ended.
pub open spec fn unstaged(a: Runtime, z: Runtime, id: Uuid) -> bool {
    if a.staging@.contains_key(id) {
        &&& z == (Runtime { staging: z.staging, ram: z.ram, ..a })
        &&& z.staging@ == a.staging@.remove(id)
        &&& freed(a.ram, z.ram, a.staging@[id].reservation.entry())
    } else {
        z == a
    }
}

/// Whether a promise that is past its deadline holds this reservation.
pub open spec fn overdue(a: Runtime, now_ms: u64, e: LedgerEntry) -> bool {
    exists|k: Uuid|
        #[trigger] a.staging@.contains_key(k) && a.staging@[k].deadline_ms <= now_ms
            && a.staging@[k].reservation.entry() == e
}

/// The promises under these keys that are past their deadlines.
pub open spec fn overdue_ids(keys: Seq<Uuid>, m: Map<Uuid, Staged>, now_ms: u64) -> Seq<Uuid>
    decreases keys.len(),
{
    if keys.len() == 0 {
        Seq::empty()
    } else if m[keys.last()].deadline_ms <= now_ms {
        overdue_ids(keys.drop_last(), m, now_ms).push(keys.last())
    } else {
        overdue_ids(keys.drop_last(), m, now_ms)
    }
}

/// The bytes of these promises together.
pub open spec fn staged_bytes(ids: Seq<Uuid>, m: Map<Uuid, Staged>) -> nat
    decreases ids.len(),
{
    if ids.len() == 0 {
        0
    } else {
        staged_bytes(ids.drop_last(), m) + m[ids.last()].reservation.entry().bytes as nat
    }
}

/// The node after the promises past their deadlines were ended.
pub open spec fn swept(a: Runtime, z: Runtime, now_ms: u64) -> bool {
    &&& z == (Runtime { staging: z.staging, ram: z.ram, ..a })
    &&& forall|k: Uuid| #[trigger]
        z.staging@.contains_key(k) <==> a.staging@.contains_key(k) && a.staging@[k].deadline_ms > now_ms
    &&& forall|k: Uuid| #[trigger] z.staging@.contains_key(k) ==> z.staging@[k] == a.staging@[k]
    &&& z.ram.same_blocks(&a.ram)
    &&& z.ram@ == a.ram@
    &&& z.ram.accounting.budget == a.ram.accounting.budget
    &&& z.ram.accounting.owned + staged_bytes(overdue_ids(a.staging.keys(), a.staging@, now_ms), a.staging@)
        == a.ram.accounting.owned
    &&& z.ram.accounting.peak == a.ram.accounting.peak
    &&& z.ram.accounting.jobs == a.ram.accounting.jobs
    &&& forall|e: LedgerEntry|
        z.ram.accounting.holds(e) == (a.ram.accounting.holds(e) && !overdue(a, now_ms, e))
}

/// What the loss of several nodes leads to, one after the other.
pub open spec fn mourned(
    jobs: Map<Uuid, JobView>,
    keys: Seq<Uuid>,
    blocks: Map<Uuid, HandleView>,
    nodes: Seq<Uuid>,
) -> (Map<Uuid, JobView>, Map<Uuid, HandleView>)
    decreases nodes.len(),
{
    if nodes.len() == 0 {
        (jobs, blocks)
    } else {
        let (j, b) = mourned(jobs, keys, blocks, nodes.drop_last());
        (bereaved(j, keys, b, nodes.last(), exclusive_text(nodes.last())), bereft(b, nodes.last()))
    }
}

/// The membership without the peers that are gone.
pub open spec fn missed(a: Membership, z: Membership, now_ns: u64) -> bool {
    &&& z.wf()
    &&& z.local_id == a.local_id
    &&& forall|k: Uuid| #[trigger]
        z@.contains_key(k) <==> a@.contains_key(k) && (k == a.local_id || !gone(a@[k], now_ns))
    &&& forall|k: Uuid| #[trigger] z@.contains_key(k) ==> z@[k] == a@[k]
}

/// The node after the silent peers are gone.
pub open spec fn parted(a: Runtime, z: Runtime, token: Uuid, now_ns: u64, r: Seq<Uuid>) -> bool {
    let (jobs, blocks) = mourned(a.jobs@, a.residency.blocks.keys(), a.residency@, r);
    &&& r == dead(a.membership.peers.keys(), a.membership@, a.node_id, now_ns)
    &&& z == (Runtime { membership: z.membership, residency: z.residency, jobs: z.jobs, ..a })
    &&& z.jobs@ == jobs
    &&& z.residency@ == blocks
    &&& exists|mid: Membership|
        {
            &&& #[trigger] missed(a.membership, mid, now_ns)
            &&& rotated(mid, z.membership, leader_of(a.membership.all()), a.node_id, token)
        }
}

impl Runtime {
    /// Ends a promise to an SDK, if there is one of this id.
    pub fn release_staging(&mut self, id: Uuid)
        requires
            old(self).wf(),
        ensures
            final(self).wf(),
            unstaged(*old(self), *final(self), id),
    {
        let ghost before = *self;
        match self.staging.find(id) {
            None => {},
            Some(_) => {
                match self.staging.remove(id) {
                    Some(staged) => {
                        let ghost e = staged.reservation.entry();
                        proof {
                            assert(before.staging@.contains_key(id));
                        }
                        self.ram.release(staged.reservation);
                        proof {
                            let after = *self;
                            assert forall|i: int|
                                0 <= i < after.udp_server.sessions().len() implies after.ram.accounting.holds(
                                (#[trigger] after.udp_server.sessions()[i]).1.entry,
                            ) by {
                                assert(before.ram.accounting.holds(before.udp_server.sessions()[i].1.entry));
                                assert(before.udp_server.owns(before.udp_server.sessions()[i].1.entry));
                            }
                            assert forall|k: Uuid| #[trigger]
                                after.staging@.contains_key(k) implies after.ram.accounting.holds(
                                after.staging@[k].reservation.entry(),
                            ) && after.staging@[k].reservation.entry().job is None && !after.udp_server.owns(
                                after.staging@[k].reservation.entry(),
                            ) by {
                                assert(before.staging@.contains_key(k));
                            }
                        }
                    },
                    None => {
                        assert(false);
                    },
                }
            },
        }
    }

    /// Ends the promises to SDKs that are past their deadlines.
    #[verifier::loop_isolation(false)]
    pub fn expire_staging(&mut self, now_ms: u64)
        requires
            old(self).wf(),
        ensures
            final(self).wf(),
            swept(*old(self), *final(self), now_ms),
    {
        let ghost first = *self;
        let ghost keys = self.staging.keys();
        proof {
            first.staging.lemma_keys();
        }
        let n: usize = self.staging.len();
        let mut late: Vec<Uuid> = Vec::new();
        let mut i: usize = 0;
        while i < n
            invariant
                *self == first,
                n == keys.len(),
                i <= n,
                late@ == overdue_ids(keys.take(i as int), first.staging@, now_ms),
                forall|j: int|
                    0 <= j < late@.len() ==> first.staging@.contains_key(#[trigger] late@[j])
                        && first.staging@[late@[j]].deadline_ms <= now_ms && exists|k: int|
                        0 <= k < i && keys[k] == late@[j],
                forall|a: int, b: int| 0 <= a < b < late@.len() ==> late@[a] != late@[b],
                forall|k: int|
                    0 <= k < i && first.staging@[#[trigger] keys[k]].deadline_ms <= now_ms ==> late@.contains(keys[k]),
            decreases n - i,
        {
            let id: Uuid = self.staging.key_at(i);
            let ghost listed = late@;
            proof {
                assert(keys.take(i + 1).drop_last() =~= keys.take(i as int));
                assert(keys[i as int] == id);
            }
            if self.staging.value_at(i).deadline_ms <= now_ms {
                late.push(id);
                proof {
                    assert(late@[late@.len() - 1] == id);
                    assert forall|k: int|
                        0 <= k < i + 1 && first.staging@[#[trigger] keys[k]].deadline_ms <= now_ms implies late@.contains(
                    keys[k]) by {
                        if k < i {
                            let j = choose|j: int| 0 <= j < listed.len() && listed[j] == keys[k];
                            assert(late@[j] == keys[k]);
                        }
                    }
                }
            }
            i = i + 1;
        }
        proof {
            assert(keys.take(n as int) =~= keys);
            assert forall|k: Uuid| first.staging@.contains_key(k) && first.staging@[k].deadline_ms
                <= now_ms implies late@.contains(k) by {
                assert(keys.contains(k));
                let j = choose|j: int| 0 <= j < keys.len() && keys[j] == k;
                assert(late@.contains(keys[j]));
            }
        }
        let mut j: usize = 0;
        proof {
            assert(late@.take(0) =~= Seq::<Uuid>::empty());
        }
        while j < late.len()
            invariant
                self.wf(),
                *self == (Runtime { staging: self.staging, ram: self.ram, ..first }),
                j <= late@.len(),
                forall|k: Uuid| #[trigger]
                    self.staging@.contains_key(k) <==> first.staging@.contains_key(k) && !late@.take(
                        j as int,
                    ).contains(k),
                forall|k: Uuid| #[trigger] self.staging@.contains_key(k) ==> self.staging@[k] == first.staging@[k],
                self.ram.same_blocks(&first.ram),
                self.ram@ == first.ram@,
                self.ram.accounting.budget == first.ram.accounting.budget,
                self.ram.accounting.owned + staged_bytes(late@.take(j as int), first.staging@)
                    == first.ram.accounting.owned,
                self.ram.accounting.peak == first.ram.accounting.peak,
                self.ram.accounting.jobs == first.ram.accounting.jobs,
                forall|e: LedgerEntry|
                    self.ram.accounting.holds(e) == (first.ram.accounting.holds(e) && !among(first, late@.take(j as int), e)),
            decreases late@.len() - j,
        {
            let ghost earlier = *self;
            let id: Uuid = late[j];
            let ghost part = late@.take(j as int);
            let ghost next = late@.take(j + 1);
            proof {
                assert(!part.contains(id)) by {
                    if part.contains(id) {
                        let x = choose|x: int| 0 <= x < part.len() && part[x] == id;
                        assert(late@[x] != late@[j as int]);
                    }
                }
                assert(earlier.staging@.contains_key(id));
            }
            self.release_staging(id);
            proof {
                assert(next.drop_last() =~= part);
                assert(next =~= part.push(id));
                assert(next[j as int] == id);
                assert forall|k: Uuid| next.contains(k) <==> part.contains(k) || k == id by {
                    if next.contains(k) {
                        let x = choose|x: int| 0 <= x < next.len() && next[x] == k;
                        if x < part.len() {
                            assert(part[x] == k);
                        }
                    }
                    if part.contains(k) {
                        let x = choose|x: int| 0 <= x < part.len() && part[x] == k;
                        assert(next[x] == k);
                    }
                }
                assert forall|k: Uuid| #[trigger]
                    self.staging@.contains_key(k) <==> first.staging@.contains_key(k) && !next.contains(k) by {
                    assert(self.staging@.contains_key(k) <==> earlier.staging@.contains_key(k) && k != id);
                }
                assert forall|k: Uuid| #[trigger] self.staging@.contains_key(k) implies self.staging@[k]
                    == first.staging@[k] by {
                    assert(earlier.staging@.contains_key(k));
                }
                assert(first.staging@.contains_key(id));
                let mine = first.staging@[id].reservation.entry();
                assert forall|e: LedgerEntry|
                    self.ram.accounting.holds(e) == (first.ram.accounting.holds(e) && !among(first, next, e)) by {
                    assert(among(first, next, e) == (among(first, part, e) || e == mine)) by {
                        if among(first, part, e) {
                            let k = choose|k: Uuid| #[trigger]
                                part.contains(k) && first.staging@.contains_key(k)
                                    && first.staging@[k].reservation.entry() == e;
                            assert(next.contains(k));
                        }
                        if among(first, next, e) {
                            let k = choose|k: Uuid| #[trigger]
                                next.contains(k) && first.staging@.contains_key(k)
                                    && first.staging@[k].reservation.entry() == e;
                            if k != id {
                                assert(part.contains(k));
                            }
                        }
                        assert(next.contains(id));
                    }
                }
            }
            j = j + 1;
        }
        proof {
            let all = late@.take(late@.len() as int);
            assert(all =~= late@);
            assert forall|e: LedgerEntry| among(first, all, e) == overdue(first, now_ms, e) by {
                if among(first, all, e) {
                    let k = choose|k: Uuid| #[trigger]
                        all.contains(k) && first.staging@.contains_key(k) && first.staging@[k].reservation.entry() == e;
                    let x = choose|x: int| 0 <= x < late@.len() && late@[x] == k;
                    assert(first.staging@[late@[x]].deadline_ms <= now_ms);
                }
                if overdue(first, now_ms, e) {
                    let k = choose|k: Uuid|
                        #[trigger] first.staging@.contains_key(k) && first.staging@[k].deadline_ms <= now_ms
                            && first.staging@[k].reservation.entry() == e;
                    assert(late@.contains(k));
                    assert(all.contains(k));
                }
            }
            assert forall|k: Uuid| #[trigger]
                self.staging@.contains_key(k) <==> first.staging@.contains_key(k) && first.staging@[k].deadline_ms
                    > now_ms by {
                if late@.contains(k) {
                    let x = choose|x: int| 0 <= x < late@.len() && late@[x] == k;
                    assert(first.staging@[late@[x]].deadline_ms <= now_ms);
                }
            }
        }
    }

    /// Drops the peers that have been silent for too long, with all that they
    /// had, and says which.
    #[verifier::loop_isolation(false)]
    pub fn expire_peers(&mut self, token: Uuid, now_ns: u64) -> (r: Vec<Uuid>)
        requires
            old(self).wf(),
        ensures
            final(self).wf(),
            parted(*old(self), *final(self), token, now_ns, r@),
    {
        let ghost first = *self;
        let before: Leadership = self.leadership();
        let r: Vec<Uuid> = self.membership.expire(now_ns);
        let ghost mid = *self;
        proof {
            assert(missed(first.membership, self.membership, now_ns));
        }
        let ghost keys = first.residency.blocks.keys();
        let mut i: usize = 0;
        proof {
            assert(r@.take(0) =~= Seq::<Uuid>::empty());
        }
        while i < r.len()
            invariant
                i <= r@.len(),
                self.wf(),
                *self == (Runtime { residency: self.residency, jobs: self.jobs, ..mid }),
                self.residency.blocks.keys() == keys,
                (self.jobs@, self.residency@) == mourned(
                    first.jobs@,
                    keys,
                    first.residency@,
                    r@.take(i as int),
                ),
            decreases r@.len() - i,
        {
            let id: Uuid = r[i];
            proof {
                assert(r@.take(i + 1).drop_last() =~= r@.take(i as int));
            }
            let text: String = join("TRAINPOOL_DATA_LOST: data stored exclusively on node ", uuid_text(id).as_str());
            lose(&mut self.jobs, &mut self.residency, id, text.as_str());
            i = i + 1;
        }
        proof {
            assert(r@.take(i as int) =~= r@);
        }
        self.rotate_leader(before, token);
        r
    }
}

/// Whether one of these promises holds this reservation.
spec fn among(a: Runtime, ids: Seq<Uuid>, e: LedgerEntry) -> bool {
    exists|k: Uuid| #[trigger]
        ids.contains(k) && a.staging@.contains_key(k) && a.staging@[k].reservation.entry() == e
}

/// Whether an address is one that a node keeps in touch with: a seed, or that
/// of a peer.
pub open spec fn contact(a: Runtime, x: SocketAddress) -> bool {
    ||| a.config@.seeds.contains(x)
    ||| exists|k: Uuid|
        #[trigger] a.membership@.contains_key(k) && k != a.node_id
            && a.membership@[k].capabilities.network.control_address == x
}

/// The most addresses that are contacted at once.
pub const CONTACTS: usize = 64;

/// Whether one of the listed blocks is of a job.
pub open spec fn concerns(handles: Seq<HandleView>, job: Uuid) -> bool {
    exists|i: int| 0 <= i < handles.len() && (#[trigger] handles[i]).job_id == job
}

/// The counters after memory pressure was felt by some jobs.
pub open spec fn pressed(a: Map<Uuid, JobMetrics>, z: Map<Uuid, JobMetrics>, handles: Seq<HandleView>) -> bool {
    &&& forall|j: Uuid| concerns(handles, j) ==> {
        &&& #[trigger] z.contains_key(j)
        &&& z[j] == (JobMetrics { ram_pressure_events: plus(job_of(a, j).ram_pressure_events, 1), ..job_of(a, j) })
    }
    &&& forall|j: Uuid| !concerns(handles, j) ==> {
        &&& #[trigger] z.contains_key(j) == a.contains_key(j)
        &&& a.contains_key(j) ==> z[j] == a[j]
    }
}

/// A card with what was found of it; what the pool has on it stays.
pub open spec fn merged(known: GpuView, found: Seq<GpuView>) -> GpuView
    decreases found.len(),
{
    if found.len() == 0 {
        known
    } else if found[0].uuid == known.uuid {
        GpuView { trainpool_allocated_vram: known.trainpool_allocated_vram, ..found[0] }
    } else {
        merged(known, found.skip(1))
    }
}

/// Pressure that is felt: every job that has blocks here counts it, and the
/// leader is told by how much the node is beyond its budget. Nothing happens
/// where it is within it.
pub open spec fn felt(a: Runtime, z: Runtime, r: Option<Request>) -> bool {
    let m = a.me().memory;
    &&& z == (Runtime { metrics: z.metrics, ..a })
    &&& m.trainpool_ram_used <= m.trainpool_ram_budget ==> r is None && z == a
    &&& m.trainpool_ram_used > m.trainpool_ram_budget ==> {
        &&& r == Some(
            Request::MemoryPressure {
                node_id: a.node_id,
                currently_owned: m.trainpool_ram_used,
                new_budget: m.trainpool_ram_budget,
                excess_bytes: (m.trainpool_ram_used - m.trainpool_ram_budget) as u64,
            },
        )
        &&& pressed(a.metrics@, z.metrics@, listed(a.ram.blocks.keys(), a.ram@))
    }
}

impl Runtime {
    /// The addresses to keep in touch with, in their order, up to [`CONTACTS`].
    #[verifier::loop_isolation(false)]
    pub fn contacts(&self) -> (r: Vec<SocketAddress>)
        requires
            self.wf(),
        ensures
            ascending(r@),
            r@.len() <= CONTACTS,
            forall|x: SocketAddress| #[trigger] r@.contains(x) ==> contact(*self, x),
            forall|x: SocketAddress| #[trigger]
                contact(*self, x) ==> r@.contains(x) || r@.len() == CONTACTS && r@[CONTACTS - 1].before(x),
    {
        let mut all: Vec<SocketAddress> = Vec::new();
        let mut i: usize = 0;
        while i < self.config.seeds.len()
            invariant
                i <= self.config.seeds@.len(),
                ascending(all@),
                forall|x: SocketAddress| #[trigger]
                    all@.contains(x) <==> exists|k: int| 0 <= k < i && self.config.seeds@[k] == x,
            decreases self.config.seeds@.len() - i,
        {
            let ghost before = all@;
            put_in_order(&mut all, self.config.seeds[i]);
            proof {
                assert forall|x: SocketAddress| #[trigger] all@.contains(x) <==> exists|k: int|
                    0 <= k < i + 1 && self.config.seeds@[k] == x by {
                    if before.contains(x) {
                        let k = choose|k: int| 0 <= k < i && self.config.seeds@[k] == x;
                        assert(0 <= k < i + 1 && self.config.seeds@[k] == x);
                    }
                    if x == self.config.seeds@[i as int] {
                        assert(0 <= i < i + 1 && self.config.seeds@[i as int] == x);
                    }
                    if exists|k: int| 0 <= k < i + 1 && self.config.seeds@[k] == x {
                        let k = choose|k: int| 0 <= k < i + 1 && self.config.seeds@[k] == x;
                        if k < i {
                            assert(before.contains(x));
                        }
                    }
                }
            }
            i = i + 1;
        }
        let ghost seeds = all@;
        let ghost keys = self.membership.peers.keys();
        let n: usize = self.membership.peers.len();
        let mut j: usize = 0;
        proof {
            self.membership.peers.lemma_keys();
        }
        while j < n
            invariant
                j <= n == keys.len(),
                ascending(all@),
                forall|x: SocketAddress| #[trigger]
                    all@.contains(x) <==> seeds.contains(x) || exists|k: int|
                        0 <= k < j && #[trigger] keys[k] != self.node_id
                            && self.membership@[keys[k]].capabilities.network.control_address == x,
            decreases n - j,
        {
            let ghost before = all@;
            let peer: &Peer = self.membership.peers.value_at(j);
            let id: Uuid = self.membership.peers.key_at(j);
            proof {
                assert(self.membership@[keys[j as int]] == peer@);
            }
            if id != self.node_id {
                put_in_order(&mut all, peer.capabilities.network.control_address);
            }
            proof {
                assert forall|x: SocketAddress| #[trigger] all@.contains(x) <==> seeds.contains(x) || exists|k: int|
                    0 <= k < j + 1 && #[trigger] keys[k] != self.node_id
                        && self.membership@[keys[k]].capabilities.network.control_address == x by {
                    if exists|k: int|
                        0 <= k < j + 1 && #[trigger] keys[k] != self.node_id
                            && self.membership@[keys[k]].capabilities.network.control_address == x {
                        let k = choose|k: int|
                            0 <= k < j + 1 && #[trigger] keys[k] != self.node_id
                                && self.membership@[keys[k]].capabilities.network.control_address == x;
                        if k < j {
                            assert(before.contains(x));
                        }
                    }
                    if before.contains(x) && !seeds.contains(x) {
                        let k = choose|k: int|
                            0 <= k < j && #[trigger] keys[k] != self.node_id
                                && self.membership@[keys[k]].capabilities.network.control_address == x;
                        assert(keys[k] != self.node_id);
                    }
                    if id != self.node_id && x == peer.capabilities.network.control_address {
                        assert(keys[j as int] != self.node_id);
                    }
                }
            }
            j = j + 1;
        }
        proof {
            assert forall|x: SocketAddress| #[trigger] all@.contains(x) <==> contact(*self, x) by {
                if all@.contains(x) && !seeds.contains(x) {
                    let k = choose|k: int|
                        0 <= k < n && #[trigger] keys[k] != self.node_id
                            && self.membership@[keys[k]].capabilities.network.control_address == x;
                    assert(self.membership.peers@.contains_key(keys[k]));
                    assert(self.membership@.contains_key(keys[k]));
                }
                if contact(*self, x) && !self.config@.seeds.contains(x) {
                    let id = choose|k: Uuid|
                        #[trigger] self.membership@.contains_key(k) && k != self.node_id
                            && self.membership@[k].capabilities.network.control_address == x;
                    assert(self.membership.peers@.contains_key(id));
                    assert(keys.contains(id));
                    let k = choose|k: int| 0 <= k < keys.len() && keys[k] == id;
                    assert(keys[k] != self.node_id);
                }
                if self.config@.seeds.contains(x) {
                    let k = choose|k: int| 0 <= k < self.config.seeds@.len() && self.config.seeds@[k] == x;
                    assert(seeds.contains(x));
                }
            }
        }
        let ghost full = all@;
        if all.len() > CONTACTS {
            all.truncate(CONTACTS);
            proof {
                assert(all@ =~= full.take(CONTACTS as int));
                assert forall|x: SocketAddress| #[trigger] contact(*self, x) implies all@.contains(x) || all@.len()
                    == CONTACTS && all@[CONTACTS - 1].before(x) by {
                    assert(full.contains(x));
                    let k = choose|k: int| 0 <= k < full.len() && full[k] == x;
                    if k < CONTACTS {
                        assert(all@[k] == x);
                    } else {
                        assert(full[CONTACTS - 1].before(full[k]));
                    }
                }
                assert forall|x: SocketAddress| #[trigger] all@.contains(x) implies contact(*self, x) by {
                    let k = choose|k: int| 0 <= k < all@.len() && all@[k] == x;
                    assert(full[k] == x);
                    assert(full.contains(x));
                }
            }
        }
        all
    }

    /// Notes memory pressure for every job that has blocks here, and says what
    /// the leader is to be told; nothing where the node is within its budget.
    #[verifier::loop_isolation(false)]
    pub fn feel_pressure(&mut self) -> (r: Option<Request>)
        requires
            old(self).wf(),
        ensures
            final(self).wf(),
            felt(*old(self), *final(self), r),
    {
        let ghost first = *self;
        let p: usize = self.my_place();
        let memory: MemoryCapabilities = self.membership.peers.value_at(p).capabilities.memory;
        proof {
            assert(first.membership@[first.node_id] == first.membership.peers@[first.node_id]@);
        }
        let excess: u64 = memory.excess();
        if excess == 0 {
            return None;
        }
        let here: Vec<MemoryBlockHandle> = self.ram.inventory();
        let ghost all = views(here@);
        let mut i: usize = 0;
        while i < here.len()
            invariant
                i <= here@.len(),
                all == views(here@),
                self.metrics.wf(),
                *self == (Runtime { metrics: self.metrics, ..first }),
                pressed(first.metrics@, self.metrics@, all.take(i as int)),
            decreases here@.len() - i,
        {
            let job: Uuid = here[i].job_id;
            let ghost part = all.take(i as int);
            let ghost next = all.take(i + 1);
            let ghost before = self.metrics@;
            let mut seen: bool = false;
            let mut j: usize = 0;
            while j < i && !seen
                invariant
                    j <= i,
                    seen <==> exists|k: int| 0 <= k < j && (#[trigger] part[k]).job_id == job,
                decreases i - j + (if seen {
                    0int
                } else {
                    1
                }),
            {
                proof {
                    assert(part[j as int] == here@[j as int]@);
                }
                if here[j].job_id == job {
                    seen = true;
                }
                j = j + 1;
            }
            proof {
                assert(seen == concerns(part, job)) by {
                    if concerns(part, job) && !seen {
                        let k = choose|k: int| 0 <= k < part.len() && (#[trigger] part[k]).job_id == job;
                        assert(false);
                    }
                }
                assert forall|x: Uuid| concerns(next, x) == (concerns(part, x) || x == job) by {
                    assert(next[i as int] == here@[i as int]@);
                    if concerns(part, x) {
                        let k = choose|k: int| 0 <= k < part.len() && (#[trigger] part[k]).job_id == x;
                        assert(next[k] == part[k]);
                    }
                    if concerns(next, x) {
                        let k = choose|k: int| 0 <= k < next.len() && (#[trigger] next[k]).job_id == x;
                        if k < i {
                            assert(part[k] == next[k]);
                        }
                    }
                }
            }
            if !seen {
                let m: &mut JobMetrics = self.metrics.job(job);
                m.ram_pressure_events = sum(m.ram_pressure_events, 1);
            }
            i = i + 1;
        }
        proof {
            assert(all.take(i as int) =~= all);
        }
        Some(
            Request::MemoryPressure {
                node_id: self.node_id,
                currently_owned: memory.trainpool_ram_used,
                new_budget: memory.trainpool_ram_budget,
                excess_bytes: excess,
            },
        )
    }

    /// Takes in what was found of the node's cards. A card that was not found
    /// stays as it was: what a node has does not change by a failed query.
    #[verifier::loop_isolation(false)]
    pub fn merge_gpus(&mut self, found: &Vec<GpuCapabilities>)
        requires
            old(self).wf(),
        ensures
            final(self).wf(),
            *final(self) == (Runtime { membership: final(self).membership, ..*old(self) }),
            final(self).membership.peers.keys() == old(self).membership.peers.keys(),
            final(self).membership@ == old(self).membership@.insert(
                old(self).node_id,
                (PeerView {
                    capabilities: (NodeView {
                        gpus: old(self).me().gpus.map_values(
                            |g: GpuView| merged(g, gpu_capabilities_views(found@)),
                        ),
                        ..old(self).me()
                    }),
                    ..old(self).membership@[old(self).node_id]
                }),
            ),
    {
        let ghost first = *self;
        let ghost all = gpu_capabilities_views(found@);
        let p: usize = self.my_place();
        let mut gpus: Vec<GpuCapabilities> = Vec::new();
        let ghost known = first.me().gpus;
        {
            let peer: &Peer = self.membership.peers.value_at(p);
            proof {
                assert(first.membership@[first.node_id] == peer@);
                assert(known == gpu_capabilities_views(peer.capabilities.gpus@));
            }
            let mut i: usize = 0;
            while i < peer.capabilities.gpus.len()
                invariant
                    i <= peer.capabilities.gpus@.len(),
                    known == gpu_capabilities_views(peer.capabilities.gpus@),
                    gpus@.len() == i,
                    forall|k: int| 0 <= k < i ==> (#[trigger] gpus@[k])@ == merged(known[k], all),
                decreases peer.capabilities.gpus@.len() - i,
            {
                let card: GpuCapabilities = merge_card(&peer.capabilities.gpus[i], found);
                proof {
                    assert(known[i as int] == peer.capabilities.gpus@[i as int]@);
                }
                gpus.push(card);
                i = i + 1;
            }
        }
        proof {
            assert(gpu_capabilities_views(gpus@) =~= known.map_values(|g: GpuView| merged(g, all)));
        }
        let peer: &mut Peer = self.membership.peers.value_mut(p);
        peer.capabilities.gpus = gpus;
        proof {
            assert(self.membership@ =~= first.membership@.insert(
                first.node_id,
                PeerView {
                    capabilities: NodeView {
                        gpus: known.map_values(|g: GpuView| merged(g, all)),
                        ..first.me()
                    },
                    ..first.membership@[first.node_id]
                },
            ));
        }
    }
}

fn merge_card(known: &GpuCapabilities, found: &Vec<GpuCapabilities>) -> (r: GpuCapabilities)
    ensures
        r@ == merged(known@, gpu_capabilities_views(found@)),
{
    let ghost all = gpu_capabilities_views(found@);
    let mut i: usize = 0;
    proof {
        assert(all.skip(0) =~= all);
    }
    while i < found.len()
        invariant
            i <= found@.len(),
            all == gpu_capabilities_views(found@),
            merged(known@, all) == merged(known@, all.skip(i as int)),
        decreases found@.len() - i,
    {
        proof {
            assert(all.skip(i as int)[0] == found@[i as int]@);
            assert(all.skip(i as int).skip(1) =~= all.skip(i + 1));
        }
        if same_text(found[i].uuid.as_str(), known.uuid.as_str()) {
            let mut r: GpuCapabilities = found[i].duplicate();
            r.trainpool_allocated_vram = known.trainpool_allocated_vram;
            return r;
        }
        i = i + 1;
    }
    known.duplicate()
}

/// What a node does at every beat: ends what is overdue, drops what has
/// lapsed, looks at its RAM, and misses the peers that are silent.
pub open spec fn beat(a: Runtime, z: Runtime, sample: MemorySample, token: Uuid, now_ms: u64, now_ns: u64, r: Seq<Uuid>) -> bool {
    exists|m: Runtime, n: Runtime, o: Runtime|
        {
            &&& #[trigger] swept(a, m, now_ms)
            &&& n == (Runtime { ram: n.ram, ..m })
            &&& #[trigger] expired(m.ram, n.ram, now_ms)
            &&& #[trigger] n.looked(o, sample)
            &&& parted(o, z, token, now_ns, r)
        }
}

impl Runtime {
    /// One beat.
    pub fn tick(&mut self, sample: MemorySample, token: Uuid, now_ms: u64, now_ns: u64) -> (r: Vec<Uuid>)
        requires
            old(self).wf(),
        ensures
            final(self).wf(),
            beat(*old(self), *final(self), sample, token, now_ms, now_ns, r@),
    {
        let ghost a = *self;
        self.expire_staging(now_ms);
        let ghost m = *self;
        self.ram.expire(now_ms);
        let ghost n = *self;
        proof {
            assert forall|e: LedgerEntry|
                e.job is None && m.ram.accounting.holds(e) implies n.ram.accounting.holds(e) by {
                if m.ram.owns(e) {
                    m.ram.lemma_owned(e);
                }
            }
            m.lemma_ram_changed(n);
        }
        self.refresh_memory(sample);
        let ghost o = *self;
        let r: Vec<Uuid> = self.expire_peers(token, now_ns);
        proof {
            assert(swept(a, m, now_ms));
            assert(expired(m.ram, n.ram, now_ms));
            assert(n.looked(o, sample));
            assert(parted(o, *self, token, now_ns, r@));
        }
        r
    }
}

proof fn lemma_all_failed(m: Map<Uuid, JobView>, ids: Seq<Uuid>, error: Seq<char>, job: Uuid)
    requires
        m.contains_key(job),
    ensures
        all_failed(m, ids, error).contains_key(job),
        m[job].error is Some || ids.contains(job) ==> all_failed(m, ids, error)[job].error is Some,
    decreases ids.len(),
{
    if ids.len() > 0 {
        lemma_all_failed(m, ids.drop_last(), error, job);
        if ids.contains(job) && ids.last() != job {
            let i = choose|i: int| 0 <= i < ids.len() && ids[i] == job;
            assert(ids.drop_last()[i] == job);
        }
    }
}

proof fn lemma_jobs_on(keys: Seq<Uuid>, m: Map<Uuid, HandleView>, node: Uuid, i: int)
    requires
        0 <= i < keys.len(),
        m[keys[i]].owner_node == node,
    ensures
        jobs_on(keys, m, node).contains(m[keys[i]].job_id),
    decreases keys.len(),
{
    let rest = jobs_on(keys.drop_last(), m, node);
    let job = m[keys[i]].job_id;
    if i == keys.len() - 1 {
        assert(rest.push(job).last() == job);
    } else {
        lemma_jobs_on(keys.drop_last(), m, node, i);
        let k = choose|k: int| 0 <= k < rest.len() && rest[k] == job;
        if m[keys.last()].owner_node == node {
            assert(rest.push(m[keys.last()].job_id)[k] == job);
        }
    }
}

/// What was on a lost node is lost, and that is said: its blocks cannot be
/// resolved any more, and every job that had data there has failed.
pub proof fn law_lost_data_fails_its_job(a: Runtime, z: Runtime, node: Uuid, error: Seq<char>, id: Uuid, token: Uuid, now_ms: u64)
    requires
        a.wf(),
        a.residency@.contains_key(id),
        a.residency@[id].owner_node == node,
        z.residency@ == bereft(a.residency@, node),
        z.jobs@ == bereaved(a.jobs@, a.residency.blocks.keys(), a.residency@, node, error),
    ensures
        resolve_check(z, id, token, now_ms) is Some,
        a.jobs@.contains_key(a.residency@[id].job_id) ==> {
            &&& z.jobs@.contains_key(a.residency@[id].job_id)
            &&& z.jobs@[a.residency@[id].job_id].error is Some
        },
{
    let keys = a.residency.blocks.keys();
    let job = a.residency@[id].job_id;
    a.residency.blocks.lemma_keys();
    assert(a.residency.blocks@.contains_key(id));
    assert(keys.contains(id));
    let i = choose|i: int| 0 <= i < keys.len() && keys[i] == id;
    lemma_jobs_on(keys, a.residency@, node, i);
    if a.jobs@.contains_key(job) {
        let left = a.jobs@.map_values(|j: JobView| without_node(j, node));
        lemma_all_failed(left, jobs_on(keys, a.residency@, node), error, job);
    }
}

/// A job that computes on a lost node has failed.
pub proof fn law_lost_card_fails_its_job(
    jobs: Map<Uuid, JobView>,
    keys: Seq<Uuid>,
    blocks: Map<Uuid, HandleView>,
    node: Uuid,
    error: Seq<char>,
    job: Uuid,
)
    requires
        jobs.contains_key(job),
        jobs[job].plan.compute_nodes.contains(node),
    ensures
        bereaved(jobs, keys, blocks, node, error).contains_key(job),
        bereaved(jobs, keys, blocks, node, error)[job].error is Some,
{
    lemma_all_failed(
        jobs.map_values(|j: JobView| without_node(j, node)),
        jobs_on(keys, blocks, node),
        error,
        job,
    );
}

/// A node that comes to lead does so under the new token, and the token alone
/// changes nothing about who leads.
pub proof fn law_new_leader_has_new_epoch(a: Membership, z: Membership, before: Leadership, node_id: Uuid, token: Uuid)
    requires
        a.wf(),
        z.wf(),
        a@.contains_key(node_id),
        rotated(a, z, before, node_id, token),
    ensures
        leader_of(z.all()).leader_id == leader_of(a.all()).leader_id,
        leader_of(a.all()).leader_id == Some(node_id) && before.leader_id != Some(node_id) ==> leader_of(
            z.all(),
        ).leader_epoch == token,
{
    let after = leader_of(a.all());
    if after.leader_id != before.leader_id && after.leader_id == Some(node_id) {
        a.peers.lemma_keys();
        let keys = a.peers.keys();
        assert(a.peers@.contains_key(node_id));
        assert(keys.contains(node_id));
        let at = choose|i: int| 0 <= i < keys.len() && keys[i] == node_id;
        assert forall|i: int| 0 <= i < a.all().len() implies same_frame(#[trigger] a.all()[i], z.all()[i]) by {}
        law_members_are_apart(z);
        law_election_is_static(a.all(), z.all());
        assert(z.all()[at].leader_generation == token);
        assert(z.all()[at].node_id == node_id) by {
            assert(a@[node_id].capabilities.node_id == node_id);
        }
    }
}

} // verus!
