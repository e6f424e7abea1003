//! Where every block of the cluster is, as its leader knows.
use crate::ids::Uuid;
use crate::map::IdMap;
use crate::memory::block::{BlockState, HandleView, MemoryBlockHandle};
use vstd::prelude::*;

verus! {

/// The blocks of the cluster. An entry whose lease has ended for good, with
/// zero for its end, stays as a mark that the block was given back.
pub struct ResidencyTable {
    pub blocks: IdMap<MemoryBlockHandle>,
}

impl View for ResidencyTable {
    type V = Map<Uuid, HandleView>;

    open spec fn view(&self) -> Map<Uuid, HandleView> {
        self.blocks@.map_values(|h: MemoryBlockHandle| h@)
    }
}

/// The table after a handle was reported.
pub open spec fn registered(m: Map<Uuid, HandleView>, h: HandleView) -> Map<Uuid, HandleView> {
    if !m.contains_key(h.id) {
        m.insert(h.id, h)
    } else {
        let known = m[h.id];
        if known.lease_expires_ms == 0 {
            m
        } else if h.generation == known.generation && h.lease_expires_ms != 0 {
            let lease = if known.lease_expires_ms >= h.lease_expires_ms {
                known.lease_expires_ms
            } else {
                h.lease_expires_ms
            };
            if known.state == BlockState::Ready && h.state == BlockState::Writing {
                m.insert(h.id, HandleView { lease_expires_ms: lease, ..known })
            } else {
                m.insert(h.id, HandleView { lease_expires_ms: lease, ..h })
            }
        } else if h.generation >= known.generation {
            m.insert(h.id, h)
        } else {
            m
        }
    }
}

/// A handle when its node is gone.
pub open spec fn orphaned(h: HandleView, node: Uuid) -> HandleView {
    if h.owner_node == node {
        HandleView { state: BlockState::Lost, ..h }
    } else {
        h
    }
}

/// The jobs of the blocks under these keys that a node had.
pub open spec fn jobs_on(keys: Seq<Uuid>, m: Map<Uuid, HandleView>, node: Uuid) -> Seq<Uuid>
    decreases keys.len(),
{
    if keys.len() == 0 {
        Seq::empty()
    } else {
        let rest = jobs_on(keys.drop_last(), m, node);
        if m[keys.last()].owner_node == node {
            rest.push(m[keys.last()].job_id)
        } else {
            rest
        }
    }
}

impl ResidencyTable {
    /// Every block stands under its own id.
    pub open spec fn wf(&self) -> bool {
        &&& self.blocks.wf()
        &&& forall|k: Uuid| #[trigger] self@.contains_key(k) ==> self@[k].id == k
    }

    pub fn new() -> (r: Self)
        ensures
            r.wf(),
            r@ == Map::<Uuid, HandleView>::empty(),
    {
        let r = ResidencyTable { blocks: IdMap::new() };
        assert(r@ =~= Map::<Uuid, HandleView>::empty());
        r
    }

    /// The handle of a block.
    pub fn get(&self, id: Uuid) -> (r: Option<&MemoryBlockHandle>)
        requires
            self.wf(),
        ensures
            match r {
                Some(h) => self@.contains_key(id) && h@ == self@[id],
                None => !self@.contains_key(id),
            },
    {
        self.blocks.get(id)
    }

    /// Takes in what was reported of a block. A block that was given back stays
    /// so; within a generation a lease never ends earlier than was known, and a
    /// committed block does not become one that is being written.
    pub fn register(&mut self, handle: MemoryBlockHandle)
        requires
            old(self).wf(),
        ensures
            final(self).wf(),
            final(self)@ == registered(old(self)@, handle@),
    {
        let ghost before = *self;
        let ghost shown = handle@;
        let id: Uuid = handle.id;
        let mut handle = handle;
        match self.blocks.find(id) {
            None => {
                let _ = self.blocks.insert(id, handle);
            },
            Some(p) => {
                let known: &MemoryBlockHandle = self.blocks.value_at(p);
                proof {
                    assert(before@[id] == known@);
                }
                if known.lease_expires_ms == 0 {
                    return;
                }
                if handle.generation == known.generation && handle.lease_expires_ms != 0 {
                    let lease: u64 = if known.lease_expires_ms >= handle.lease_expires_ms {
                        known.lease_expires_ms
                    } else {
                        handle.lease_expires_ms
                    };
                    if known.state == BlockState::Ready && handle.state == BlockState::Writing {
                        let stays: &mut MemoryBlockHandle = self.blocks.value_mut(p);
                        stays.lease_expires_ms = lease;
                    } else {
                        handle.lease_expires_ms = lease;
                        let _ = self.blocks.insert(id, handle);
                    }
                } else if handle.generation >= known.generation {
                    let _ = self.blocks.insert(id, handle);
                } else {
                    return;
                }
            },
        }
        proof {
            assert(self@ =~= registered(before@, shown));
        }
    }

    /// Marks every block of a node as lost, and says whose they were.
    pub fn lose_node(&mut self, node: Uuid) -> (r: Vec<Uuid>)
        requires
            old(self).wf(),
        ensures
            final(self).wf(),
            final(self)@ == old(self)@.map_values(|h: HandleView| orphaned(h, node)),
            r@ == jobs_on(old(self).blocks.keys(), old(self)@, node),
            final(self).blocks.keys() == old(self).blocks.keys(),
    {
        let ghost before = *self;
        let ghost keys = self.blocks.keys();
        let mut r: Vec<Uuid> = Vec::new();
        let n: usize = self.blocks.len();
        let mut i: usize = 0;
        proof {
            before.blocks.lemma_keys();
        }
        while i < n
            invariant
                self.blocks.wf(),
                before.wf(),
                keys == before.blocks.keys(),
                self.blocks.keys() == keys,
                n == keys.len(),
                i <= n,
                forall|a: int, b: int| 0 <= a < b < keys.len() ==> keys[a] < keys[b],
                forall|k: Uuid| #[trigger] before@.contains_key(k) <==> keys.contains(k),
                self@.dom() == before@.dom(),
                forall|j: int| 0 <= j < i ==> self@[#[trigger] keys[j]] == orphaned(before@[keys[j]], node),
                forall|j: int| i <= j < n ==> self@[#[trigger] keys[j]] == before@[keys[j]],
                r@ == jobs_on(keys.take(i as int), before@, node),
            decreases n - i,
        {
            let ghost earlier = *self;
            proof {
                assert(keys.take(i + 1).drop_last() =~= keys.take(i as int));
                earlier.blocks.lemma_keys();
                assert(earlier@[keys[i as int]] == before@[keys[i as int]]);
            }
            let h: &mut MemoryBlockHandle = self.blocks.value_mut(i);
            if h.owner_node == node {
                h.state = BlockState::Lost;
                r.push(h.job_id);
            }
            proof {
                assert(earlier@[keys[i as int]] == earlier.blocks@[keys[i as int]]@);
                assert(self@ =~= earlier@.insert(keys[i as int], orphaned(before@[keys[i as int]], node)));
                assert forall|j: int| 0 <= j < i + 1 implies self@[#[trigger] keys[j]] == orphaned(before@[keys[j]], node) by {
                    if j < i {
                        assert(keys[j] < keys[i as int]);
                    }
                }
                assert forall|j: int| i + 1 <= j < n implies self@[#[trigger] keys[j]] == before@[keys[j]] by {
                    assert(keys[i as int] < keys[j]);
                }
                assert(self@.dom() =~= before@.dom());
            }
            i = i + 1;
        }
        proof {
            assert(keys.take(n as int) =~= keys);
            let lost = before@.map_values(|h: HandleView| orphaned(h, node));
            assert forall|k: Uuid| #[trigger] self@.contains_key(k) implies self@[k] == lost[k] by {
                assert(before@.contains_key(k));
                let j = choose|j: int| 0 <= j < keys.len() && keys[j] == k;
                assert(self@[keys[j]] == orphaned(before@[keys[j]], node));
            }
            assert(self@ =~= lost);
        }
        r
    }
}

/// A block that was given back is never there again, whatever is reported.
pub proof fn law_no_resurrection(m: Map<Uuid, HandleView>, id: Uuid, h: HandleView)
    requires
        m.contains_key(id),
        m[id].lease_expires_ms == 0,
    ensures
        registered(m, h).contains_key(id),
        registered(m, h)[id] == m[id],
{
}

/// Within a generation a report never shortens a lease, unless it gives the
/// block back.
pub proof fn law_lease_does_not_regress(m: Map<Uuid, HandleView>, h: HandleView)
    requires
        m.contains_key(h.id),
        h.generation == m[h.id].generation,
        h.lease_expires_ms != 0,
    ensures
        registered(m, h)[h.id].lease_expires_ms >= m[h.id].lease_expires_ms,
{
}

/// A report never takes a block back to an earlier generation, nor a committed
/// one to writing within its generation, unless it gives the block back.
pub proof fn law_generation_does_not_regress(m: Map<Uuid, HandleView>, h: HandleView)
    requires
        m.contains_key(h.id),
    ensures
        registered(m, h)[h.id].generation >= m[h.id].generation,
        h.generation == m[h.id].generation && h.lease_expires_ms != 0 && m[h.id].state == BlockState::Ready
            ==> registered(m, h)[h.id].state != BlockState::Writing,
{
}

/// A report changes nothing of other blocks.
pub proof fn law_report_is_local(m: Map<Uuid, HandleView>, h: HandleView, id: Uuid)
    requires
        id != h.id,
    ensures
        registered(m, h).contains_key(id) == m.contains_key(id),
        m.contains_key(id) ==> registered(m, h)[id] == m[id],
{
}

} // verus!
