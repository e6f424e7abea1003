//! The nodes that have been heard of lately.
use crate::cluster::election::{elect, ids_apart, leader_of, ref_views, Leadership};
use crate::ids::Uuid;
use crate::map::IdMap;
use crate::node::capabilities::{node_capabilities_views, NodeCapabilities, NodeView};
use vstd::prelude::*;

verus! {

/// Nanoseconds of silence after which a peer is gone.
pub const PEER_TIMEOUT: u64 = 7_000_000_000;

/// A node and when it was last heard of, in nanoseconds on the monotonic clock.
pub struct Peer {
    pub capabilities: NodeCapabilities,
    pub last_seen: u64,
}

/// The model of a [`Peer`].
pub struct PeerView {
    pub capabilities: NodeView,
    pub last_seen: u64,
}

impl View for Peer {
    type V = PeerView;

    open spec fn view(&self) -> PeerView {
        PeerView { capabilities: self.capabilities@, last_seen: self.last_seen }
    }
}

/// What a node knows of the others and of itself.
pub struct Membership {
    pub local_id: Uuid,
    pub peers: IdMap<Peer>,
}

impl View for Membership {
    type V = Map<Uuid, PeerView>;

    open spec fn view(&self) -> Map<Uuid, PeerView> {
        self.peers@.map_values(|p: Peer| p@)
    }
}

/// The nodes under these keys.
pub open spec fn roster(keys: Seq<Uuid>, m: Map<Uuid, PeerView>) -> Seq<NodeView> {
    keys.map_values(|k: Uuid| m[k].capabilities)
}

/// Whether a peer has been silent for too long.
pub open spec fn gone(p: PeerView, now_ns: u64) -> bool {
    now_ns > p.last_seen && now_ns - p.last_seen > PEER_TIMEOUT
}

/// The peers among `keys`, but for the node itself, that are gone.
pub open spec fn dead(keys: Seq<Uuid>, m: Map<Uuid, PeerView>, local_id: Uuid, now_ns: u64) -> Seq<Uuid>
    decreases keys.len(),
{
    if keys.len() == 0 {
        Seq::empty()
    } else {
        let rest = dead(keys.drop_last(), m, local_id, now_ns);
        if keys.last() != local_id && gone(m[keys.last()], now_ns) {
            rest.push(keys.last())
        } else {
            rest
        }
    }
}

proof fn lemma_dead(keys: Seq<Uuid>, m: Map<Uuid, PeerView>, local_id: Uuid, now_ns: u64)
    requires
        forall|i: int, j: int| 0 <= i < j < keys.len() ==> keys[i] < keys[j],
    ensures
        forall|k: Uuid|
            dead(keys, m, local_id, now_ns).contains(k) <==> keys.contains(k) && k != local_id && gone(m[k], now_ns),
        forall|i: int, j: int|
            0 <= i < j < dead(keys, m, local_id, now_ns).len() ==> dead(keys, m, local_id, now_ns)[i] < dead(
                keys,
                m,
                local_id,
                now_ns,
            )[j],
        forall|i: int|
            0 <= i < dead(keys, m, local_id, now_ns).len() ==> keys.contains(
                #[trigger] dead(keys, m, local_id, now_ns)[i],
            ),
    decreases keys.len(),
{
    let d = dead(keys, m, local_id, now_ns);
    if keys.len() > 0 {
        let front = keys.drop_last();
        let rest = dead(front, m, local_id, now_ns);
        lemma_dead(front, m, local_id, now_ns);
        let last = keys.last();
        assert forall|k: Uuid| keys.contains(k) <==> front.contains(k) || k == last by {
            if keys.contains(k) {
                let i = choose|i: int| 0 <= i < keys.len() && keys[i] == k;
                if i < front.len() {
                    assert(front[i] == k);
                }
            }
            if front.contains(k) {
                let i = choose|i: int| 0 <= i < front.len() && front[i] == k;
                assert(keys[i] == k);
            }
            assert(keys[keys.len() - 1] == last);
        }
        assert forall|k: Uuid| d.contains(k) <==> keys.contains(k) && k != local_id && gone(m[k], now_ns) by {
            if d.contains(k) {
                let i = choose|i: int| 0 <= i < d.len() && d[i] == k;
                if i < rest.len() {
                    assert(rest[i] == k);
                    assert(rest.contains(k));
                }
            }
            if rest.contains(k) {
                let i = choose|i: int| 0 <= i < rest.len() && rest[i] == k;
                assert(d[i] == k);
            }
            if k == last && k != local_id && gone(m[k], now_ns) {
                assert(d[d.len() - 1] == k);
            }
        }
        assert forall|i: int| 0 <= i < d.len() implies keys.contains(#[trigger] d[i]) by {
            assert(d.contains(d[i]));
        }
        assert forall|i: int, j: int| 0 <= i < j < d.len() implies d[i] < d[j] by {
            if j < rest.len() {
                assert(rest[i] < rest[j]);
            } else {
                assert(rest.contains(rest[i]));
                assert(front.contains(rest[i]));
                let a = choose|a: int| 0 <= a < front.len() && front[a] == rest[i];
                assert(keys[a] < keys[keys.len() - 1]);
            }
        }
    }
}

impl Membership {
    /// Every peer stands under its own id, and the node itself is there.
    pub open spec fn wf(&self) -> bool {
        &&& self.peers.wf()
        &&& self@.contains_key(self.local_id)
        &&& forall|k: Uuid| #[trigger] self@.contains_key(k) ==> self@[k].capabilities.node_id == k
    }

    /// The nodes by id.
    pub open spec fn all(&self) -> Seq<NodeView> {
        roster(self.peers.keys(), self@)
    }

    /// A node that knows only itself.
    pub fn new(local: NodeCapabilities, now_ns: u64) -> (r: Self)
        ensures
            r.wf(),
            r.local_id == local.node_id,
            r@ == Map::<Uuid, PeerView>::empty().insert(
                local.node_id,
                (PeerView { capabilities: local@, last_seen: now_ns }),
            ),
    {
        let local_id: Uuid = local.node_id;
        let mut peers: IdMap<Peer> = IdMap::new();
        let ghost shown = local@;
        let _ = peers.insert(local_id, Peer { capabilities: local, last_seen: now_ns });
        let r = Membership { local_id, peers };
        proof {
            assert(r@ =~= Map::<Uuid, PeerView>::empty().insert(
                local_id,
                PeerView { capabilities: shown, last_seen: now_ns },
            ));
        }
        r
    }

    /// Takes in what a node says of itself.
    pub fn update(&mut self, capabilities: NodeCapabilities, now_ns: u64)
        requires
            old(self).wf(),
        ensures
            final(self).wf(),
            final(self).local_id == old(self).local_id,
            final(self)@ == old(self)@.insert(
                capabilities.node_id,
                (PeerView { capabilities: capabilities@, last_seen: now_ns }),
            ),
    {
        let ghost before = *self;
        let id: Uuid = capabilities.node_id;
        let ghost shown = capabilities@;
        let _ = self.peers.insert(id, Peer { capabilities, last_seen: now_ns });
        proof {
            assert(self@ =~= before@.insert(id, PeerView { capabilities: shown, last_seen: now_ns }));
        }
    }

    /// Drops the peers that have been silent for too long, and says which.
    pub fn expire(&mut self, now_ns: u64) -> (r: Vec<Uuid>)
        requires
            old(self).wf(),
        ensures
            final(self).wf(),
            final(self).local_id == old(self).local_id,
            r@ == dead(old(self).peers.keys(), old(self)@, old(self).local_id, now_ns),
            forall|k: Uuid| #[trigger]
                final(self)@.contains_key(k) <==> old(self)@.contains_key(k) && (k == old(self).local_id || !gone(
                    old(self)@[k],
                    now_ns,
                )),
            forall|k: Uuid| #[trigger] final(self)@.contains_key(k) ==> final(self)@[k] == old(self)@[k],
    {
        let ghost before = *self;
        let ghost keys = self.peers.keys();
        let mut r: Vec<Uuid> = Vec::new();
        let n: usize = self.peers.len();
        let mut i: usize = 0;
        while i < n
            invariant
                *self == before,
                before.wf(),
                keys == before.peers.keys(),
                n == keys.len(),
                i <= n,
                r@ == dead(keys.take(i as int), before@, before.local_id, now_ns),
            decreases n - i,
        {
            let id: Uuid = self.peers.key_at(i);
            let p: &Peer = self.peers.value_at(i);
            proof {
                assert(keys.take(i + 1).drop_last() =~= keys.take(i as int));
                assert(before@[id] == p@);
            }
            if id != self.local_id && now_ns > p.last_seen && now_ns - p.last_seen > PEER_TIMEOUT {
                r.push(id);
            }
            i = i + 1;
        }
        proof {
            assert(keys.take(n as int) =~= keys);
            before.peers.lemma_keys();
            lemma_dead(keys, before@, before.local_id, now_ns);
        }
        let mut j: usize = 0;
        while j < r.len()
            invariant
                self.peers.wf(),
                self.local_id == before.local_id,
                j <= r@.len(),
                forall|k: Uuid| #[trigger]
                    self@.contains_key(k) <==> before@.contains_key(k) && !r@.take(j as int).contains(k),
                forall|k: Uuid| #[trigger] self@.contains_key(k) ==> self@[k] == before@[k],
            decreases r@.len() - j,
        {
            let ghost earlier = *self;
            let id: Uuid = r[j];
            let _ = self.peers.remove(id);
            proof {
                let part = r@.take(j as int);
                assert(r@.take(j + 1) =~= part.push(id));
                assert forall|k: Uuid| #[trigger]
                    self@.contains_key(k) <==> before@.contains_key(k) && !r@.take(j + 1).contains(k) by {
                    if part.push(id).contains(k) {
                        let x = choose|x: int| 0 <= x < part.push(id).len() && part.push(id)[x] == k;
                        if x < part.len() {
                            assert(part[x] == k);
                        }
                    }
                    if part.contains(k) {
                        let x = choose|x: int| 0 <= x < part.len() && part[x] == k;
                        assert(part.push(id)[x] == k);
                    }
                    assert(part.push(id)[part.len() as int] == id);
                    assert(self@.contains_key(k) <==> earlier@.contains_key(k) && k != id);
                }
                assert forall|k: Uuid| #[trigger] self@.contains_key(k) implies self@[k] == before@[k] by {
                    assert(earlier@.contains_key(k));
                }
            }
            j = j + 1;
        }
        proof {
            assert(r@.take(r@.len() as int) =~= r@);
            assert forall|k: Uuid| #[trigger]
                self@.contains_key(k) <==> before@.contains_key(k) && (k == before.local_id || !gone(
                    before@[k],
                    now_ns,
                )) by {
                assert(before@.contains_key(k) <==> before.peers@.contains_key(k));
                assert(before.peers@.contains_key(k) <==> keys.contains(k));
                assert(r@.contains(k) <==> keys.contains(k) && k != before.local_id && gone(before@[k], now_ns));
                assert(self@.contains_key(k) <==> before@.contains_key(k) && !r@.contains(k));
            }
            assert(self@.contains_key(self.local_id));
        }
        r
    }

    /// Who leads.
    pub fn leader(&self) -> (r: Leadership)
        requires
            self.wf(),
        ensures
            r == leader_of(self.all()),
    {
        let mut nodes: Vec<&NodeCapabilities> = Vec::new();
        let n: usize = self.peers.len();
        let ghost keys = self.peers.keys();
        let mut i: usize = 0;
        while i < n
            invariant
                self.wf(),
                keys == self.peers.keys(),
                n == keys.len(),
                i <= n,
                nodes@.len() == i,
                forall|k: int| 0 <= k < i ==> (#[trigger] nodes@[k])@ == self@[keys[k]].capabilities,
            decreases n - i,
        {
            let p: &Peer = self.peers.value_at(i);
            proof {
                assert(self@[keys[i as int]] == p@);
            }
            nodes.push(&p.capabilities);
            i = i + 1;
        }
        proof {
            assert(ref_views(nodes@) =~= self.all());
        }
        elect(nodes.as_slice())
    }

    /// The nodes by id.
    pub fn nodes(&self) -> (r: Vec<NodeCapabilities>)
        requires
            self.wf(),
        ensures
            node_capabilities_views(r@) == self.all(),
    {
        let mut r: Vec<NodeCapabilities> = Vec::new();
        let n: usize = self.peers.len();
        let ghost keys = self.peers.keys();
        let mut i: usize = 0;
        while i < n
            invariant
                self.wf(),
                keys == self.peers.keys(),
                n == keys.len(),
                i <= n,
                r@.len() == i,
                forall|k: int| 0 <= k < i ==> (#[trigger] r@[k])@ == self@[keys[k]].capabilities,
            decreases n - i,
        {
            let p: &Peer = self.peers.value_at(i);
            proof {
                assert(self@[keys[i as int]] == p@);
            }
            r.push(p.capabilities.duplicate());
            i = i + 1;
        }
        proof {
            assert(node_capabilities_views(r@) =~= self.all());
        }
        r
    }
}

/// The nodes of a membership have ids of their own.
pub proof fn law_members_are_apart(m: Membership)
    requires
        m.wf(),
    ensures
        ids_apart(m.all()),
{
    m.peers.lemma_keys();
    let keys = m.peers.keys();
    let all = m.all();
    assert forall|i: int, j: int| 0 <= i < j < all.len() implies (#[trigger] all[i]).node_id != (
    #[trigger] all[j]).node_id by {
        assert(keys[i] < keys[j]);
        assert(m.peers@.contains_key(keys[i]) && m.peers@.contains_key(keys[j]));
        assert(m@.contains_key(keys[i]) && m@.contains_key(keys[j]));
    }
}

} // verus!
