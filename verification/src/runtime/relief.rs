//! Relief for a node that has more than its budget: the leader has its
//! smallest blocks moved elsewhere until the excess is gone.
use crate::address::SocketAddress;
use crate::cluster::election::Leadership;
use crate::double::Double;
use crate::error::Error;
use crate::ids::Uuid;
use crate::memory::block::{BlockState, HandleView, MemoryBlockHandle};
use crate::memory::local_ram::views;
use crate::metrics::{plus, sum};
use crate::node::capabilities::{node_capabilities_views, NodeCapabilities, NodeView};
use crate::protocol::request::Request;
use crate::runtime::Runtime;
use crate::scheduler::placement::{eligible, is_ranking, CapacityPlacement, PlacementPolicy};
use vstd::prelude::*;

verus! {

/// Whether a block of a node may be moved: it is committed and its lease is good.
pub open spec fn movable(h: HandleView, source: Uuid, now_ms: u64) -> bool {
    h.owner_node == source && h.state == BlockState::Ready && h.lease_expires_ms > now_ms
}

/// The order in which blocks are moved: the smallest first, then by id.
pub open spec fn sooner(a: HandleView, b: HandleView) -> bool {
    a.size < b.size || a.size == b.size && a.id < b.id
}

/// Whether `list` is all that may be moved of `m`, among these keys, in order.
pub open spec fn is_queue(
    list: Seq<HandleView>,
    keys: Seq<Uuid>,
    m: Map<Uuid, HandleView>,
    source: Uuid,
    now_ms: u64,
) -> bool {
    &&& forall|i: int|
        0 <= i < list.len() ==> keys.contains((#[trigger] list[i]).id) && list[i] == m[list[i].id] && movable(
            list[i],
            source,
            now_ms,
        )
    &&& forall|k: int|
        0 <= k < keys.len() && movable(m[#[trigger] keys[k]], source, now_ms) ==> exists|i: int|
            0 <= i < list.len() && (#[trigger] list[i]).id == keys[k]
    &&& forall|i: int, j: int| 0 <= i < j < list.len() ==> sooner(#[trigger] list[i], #[trigger] list[j])
}

/// What became of a block: the nodes that were there for it, at what cost, in
/// the order in which they were asked; those that refused it; and the one that
/// took it.
pub struct Fate {
    pub nodes: Seq<NodeView>,
    pub costs: Seq<Double>,
    pub ranked: Seq<Uuid>,
    pub refused: Seq<Uuid>,
    pub taker: Option<Uuid>,
}

/// What a relief waits for.
#[derive(Clone, Copy, Debug, PartialEq, Eq, Structural)]
pub enum Wait {
    /// To be begun.
    Start,
    /// What it costs to move the next block.
    Costs,
    /// The answer of the source.
    Answer,
    /// Nothing: it is over.
    Nothing,
}

/// A relief under way.
pub struct Relief {
    pub source: Uuid,
    pub excess: u64,
    pub moved: u64,
    pub leadership: Leadership,
    pub blocks: Vec<MemoryBlockHandle>,
    /// The block that is being moved.
    pub block: usize,
    /// The nodes that are asked to take it, best first.
    pub targets: Vec<Uuid>,
    pub target: usize,
    pub wait: Wait,
    /// The nodes that there are for the block, and what they cost.
    pub nodes: Ghost<Seq<NodeView>>,
    pub costs: Ghost<Seq<Double>>,
    /// What became of the blocks before this one.
    pub past: Ghost<Seq<Fate>>,
}

/// What happened to a relief.
pub enum ReliefEvent {
    Begun,
    /// The nodes were priced for the block; see [`Runtime::relief_nodes`].
    Priced { costs: Vec<Double> },
    /// The source answered; `moved` says whether the block is where it was to
    /// go.
    Answered { moved: bool },
}

/// What a relief asks for next.
pub enum ReliefStep {
    /// What it costs to move a block of this size to each of the nodes.
    Price { size: u64 },
    /// A request to the source.
    Ask { address: SocketAddress, request: Request },
    /// Nothing. So many bytes were moved.
    Over { moved: u64 },
}

/// The nodes but for one.
pub open spec fn others(nodes: Seq<NodeView>, source: Uuid) -> Seq<NodeView>
    decreases nodes.len(),
{
    if nodes.len() == 0 {
        Seq::empty()
    } else if nodes.last().node_id == source {
        others(nodes.drop_last(), source)
    } else {
        others(nodes.drop_last(), source).push(nodes.last())
    }
}

/// Whether `targets` are the nodes of a ranking.
pub open spec fn targets_of(
    targets: Seq<Uuid>,
    nodes: Seq<NodeView>,
    costs: Seq<Double>,
    source: Uuid,
    size: u64,
) -> bool {
    exists|ranked: Seq<usize>|
        {
            &&& #[trigger] is_ranking(ranked, nodes, costs, source, size, nodes.len() as int)
            &&& targets == ranked.map_values(|i: usize| nodes[i as int].node_id)
        }
}

/// The bytes of the blocks that were taken.
pub open spec fn moved_bytes(blocks: Seq<HandleView>, past: Seq<Fate>) -> nat
    decreases past.len(),
{
    if past.len() == 0 {
        0
    } else {
        moved_bytes(blocks, past.drop_last()) + (if past.last().taker is Some {
            blocks[past.len() - 1].size as nat
        } else {
            0
        })
    }
}

/// The bytes of the blocks that were taken, as 64 bits hold them.
pub open spec fn tally(blocks: Seq<HandleView>, past: Seq<Fate>) -> u64
    decreases past.len(),
{
    if past.len() == 0 {
        0
    } else if past.last().taker is Some {
        plus(tally(blocks, past.drop_last()), blocks[past.len() - 1].size)
    } else {
        tally(blocks, past.drop_last())
    }
}

/// Whether the nodes were asked in order, none of them the source, until one
/// took the block or all had refused it.
pub open spec fn told(f: Fate, source: Uuid, size: u64) -> bool {
    &&& forall|i: int| 0 <= i < f.nodes.len() ==> (#[trigger] f.nodes[i]).node_id != source
    &&& targets_of(f.ranked, f.nodes, f.costs, source, size)
    &&& f.refused.len() <= f.ranked.len()
    &&& f.refused == f.ranked.take(f.refused.len() as int)
    &&& match f.taker {
        Some(id) => f.refused.len() < f.ranked.len() && f.ranked[f.refused.len() as int] == id,
        None => f.refused == f.ranked,
    }
}

impl Relief {
    /// There is more to move, and a block to move.
    pub open spec fn goes_on(&self) -> bool {
        self.moved < self.excess && self.block < self.blocks@.len()
    }

    /// The blocks before this one have been dealt with, each of them while
    /// there was still something to move.
    pub open spec fn wf(&self) -> bool {
        let list = views(self.blocks@);
        let past = self.past@;
        &&& past.len() == self.block <= list.len()
        &&& self.moved == tally(list, past)
        &&& forall|k: int| 0 <= k < past.len() ==> told(#[trigger] past[k], self.source, list[k].size)
        &&& forall|k: int| 0 <= k < past.len() ==> tally(list, #[trigger] past.take(k)) < self.excess
        &&& self.wait == Wait::Costs || self.wait == Wait::Answer ==> self.goes_on()
        &&& self.wait == Wait::Answer ==> {
            &&& self.target < self.targets@.len()
            &&& self.ranked()
        }
    }

    /// The targets are a ranking of the nodes.
    pub open spec fn ranked(&self) -> bool {
        &&& forall|i: int| 0 <= i < self.nodes@.len() ==> (#[trigger] self.nodes@[i]).node_id != self.source
        &&& targets_of(
            self.targets@,
            self.nodes@,
            self.costs@,
            self.source,
            self.blocks@[self.block as int].size,
        )
    }

    /// Whether an event is what the relief waits for.
    pub open spec fn expects(&self, event: ReliefEvent, others: nat) -> bool {
        match event {
            ReliefEvent::Begun => self.wait == Wait::Start,
            ReliefEvent::Priced { costs } => self.wait == Wait::Costs && costs@.len() == others,
            ReliefEvent::Answered { .. } => self.wait == Wait::Answer,
        }
    }
}

/// The relief with one more block dealt with.
pub open spec fn dealt_with(f: Relief, g: Relief, fate: Fate, moved: u64) -> bool {
    &&& g == (Relief {
        moved,
        block: (f.block + 1) as usize,
        targets: g.targets,
        target: 0,
        wait: g.wait,
        nodes: g.nodes,
        costs: g.costs,
        past: g.past,
        ..f
    })
    &&& g.past@ == f.past@.push(fate)
    &&& g.targets@.len() == 0
}

/// What comes next between two blocks: the next one while there is something to
/// move, or the end.
pub open spec fn turned(g: Relief, r: Result<ReliefStep, Error>) -> bool {
    if g.goes_on() {
        &&& g.wait == Wait::Costs
        &&& r == Ok::<ReliefStep, Error>(ReliefStep::Price { size: g.blocks@[g.block as int].size })
    } else {
        &&& g.wait == Wait::Nothing
        &&& r == Ok::<ReliefStep, Error>(ReliefStep::Over { moved: g.moved })
    }
}

/// What comes next within a block, when `target` of the nodes in `ranked` have
/// refused it: the next one is asked, or the block stays where it is.
pub open spec fn asked(
    a: Runtime,
    f: Relief,
    g: Relief,
    nodes: Seq<NodeView>,
    costs: Seq<Double>,
    ranked: Seq<Uuid>,
    target: int,
    r: Result<ReliefStep, Error>,
) -> bool {
    if target < ranked.len() {
        &&& g == (Relief {
            targets: g.targets,
            target: target as usize,
            wait: g.wait,
            nodes: g.nodes,
            costs: g.costs,
            ..f
        })
        &&& g.targets@ == ranked
        &&& g.nodes@ == nodes
        &&& g.costs@ == costs
        &&& match a.reached(f.source) {
            None => {
                &&& g.wait == Wait::Nothing
                &&& r == Err::<ReliefStep, Error>(Error::NodeUnavailable { node: f.source })
            },
            Some(at) => {
                &&& g.wait == Wait::Answer
                &&& r matches Ok(
                    ReliefStep::Ask { address, request: Request::Migrate { handle, destination, leadership } },
                ) && {
                    &&& address == at
                    &&& handle@ == f.blocks@[f.block as int]@
                    &&& destination == ranked[target]
                    &&& leadership == f.leadership
                }
            },
        }
    } else {
        &&& dealt_with(f, g, Fate { nodes, costs, ranked, refused: ranked, taker: None }, f.moved)
        &&& turned(g, r)
    }
}

/// What an event leads to.
pub open spec fn eased(a: Runtime, f: Relief, g: Relief, event: ReliefEvent, r: Result<ReliefStep, Error>) -> bool {
    match event {
        ReliefEvent::Begun => g == (Relief { wait: g.wait, ..f }) && turned(g, r),
        ReliefEvent::Priced { costs } => {
            let nodes = others(a.membership.all(), f.source);
            exists|ranked: Seq<Uuid>|
                {
                    &&& #[trigger] targets_of(
                        ranked,
                        nodes,
                        costs@,
                        f.source,
                        f.blocks@[f.block as int].size,
                    )
                    &&& asked(a, f, g, nodes, costs@, ranked, 0, r)
                }
        },
        ReliefEvent::Answered { moved } => if moved {
            let fate = Fate {
                nodes: f.nodes@,
                costs: f.costs@,
                ranked: f.targets@,
                refused: f.targets@.take(f.target as int),
                taker: Some(f.targets@[f.target as int]),
            };
            &&& dealt_with(f, g, fate, plus(f.moved, f.blocks@[f.block as int].size))
            &&& turned(g, r)
        } else {
            asked(a, f, g, f.nodes@, f.costs@, f.targets@, f.target + 1, r)
        },
    }
}

proof fn lemma_others(nodes: Seq<NodeView>, source: Uuid)
    ensures
        forall|i: int| 0 <= i < others(nodes, source).len() ==> (#[trigger] others(nodes, source)[i]).node_id != source,
    decreases nodes.len(),
{
    if nodes.len() > 0 {
        lemma_others(nodes.drop_last(), source);
    }
}

proof fn lemma_tally(blocks: Seq<HandleView>, past: Seq<Fate>)
    ensures
        tally(blocks, past) == moved_bytes(blocks, past) % 0x1_0000_0000_0000_0000,
    decreases past.len(),
{
    if past.len() > 0 {
        lemma_tally(blocks, past.drop_last());
        vstd::arithmetic::div_mod::lemma_add_mod_noop(
            moved_bytes(blocks, past.drop_last()) as int,
            blocks[past.len() - 1].size as int,
            0x1_0000_0000_0000_0000,
        );
    }
}

/// One more fate leaves a relief whole.
proof fn lemma_dealt_with(f: Relief, g: Relief, fate: Fate, moved: u64)
    requires
        f.wf(),
        f.goes_on(),
        dealt_with(f, g, fate, moved),
        g.block == f.block + 1,
        g.wait != Wait::Answer,
        g.wait == Wait::Costs ==> g.goes_on(),
        told(fate, f.source, f.blocks@[f.block as int].size),
        moved == if fate.taker is Some {
            plus(f.moved, f.blocks@[f.block as int].size)
        } else {
            f.moved
        },
    ensures
        g.wf(),
{
    let list = views(f.blocks@);
    let past = f.past@;
    let next = g.past@;
    let at = f.block as int;
    assert(next.drop_last() =~= past);
    assert(list[at].size == f.blocks@[at].size);
    assert(next.last() == fate);
    assert forall|k: int| 0 <= k < next.len() implies told(#[trigger] next[k], f.source, list[k].size) by {
        if k < at {
            assert(next[k] == past[k]);
        }
    }
    assert forall|k: int| 0 <= k < next.len() implies tally(list, #[trigger] next.take(k)) < f.excess by {
        assert(next.take(k) =~= past.take(k));
        if k == at {
            assert(past.take(k) =~= past);
        }
    }
}

fn earlier(a: &MemoryBlockHandle, b: &MemoryBlockHandle) -> (r: bool)
    ensures
        r == sooner(a@, b@),
{
    a.size < b.size || a.size == b.size && a.id < b.id
}

/// Relief that begins, unless it is under way already: no block was dealt with,
/// and those of the node wait in their order.
pub open spec fn relief_begun(a: Runtime, z: Runtime, source: Uuid, excess: u64, now_ms: u64, r: Option<Relief>) -> bool {
    &&& z == (Runtime { relieving: true, ..a })
    &&& match r {
        None => a.relieving,
        Some(f) => {
            &&& !a.relieving
            &&& f.source == source
            &&& f.excess == excess
            &&& f.moved == 0
            &&& f.leadership == a.led()
            &&& f.block == 0
            &&& f.targets@.len() == 0
            &&& f.target == 0
            &&& f.wait == Wait::Start
            &&& f.past@.len() == 0
            &&& f.wf()
            &&& is_queue(views(f.blocks@), a.residency.blocks.keys(), a.residency@, source, now_ms)
        },
    }
}

impl Runtime {
    /// Begins to relieve a node, unless a relief is already under way.
    #[verifier::loop_isolation(false)]
    pub fn begin_relief(&mut self, source: Uuid, excess: u64, now_ms: u64) -> (r: Option<Relief>)
        requires
            old(self).wf(),
        ensures
            final(self).wf(),
            relief_begun(*old(self), *final(self), source, excess, now_ms, r),
    {
        let ghost first = *self;
        if self.relieving {
            return None;
        }
        let leadership: Leadership = self.leadership();
        let ghost keys = self.residency.blocks.keys();
        let ghost m = self.residency@;
        let n: usize = self.residency.blocks.len();
        let mut blocks: Vec<MemoryBlockHandle> = Vec::new();
        let mut k: usize = 0;
        proof {
            first.residency.blocks.lemma_keys();
            assert(views(blocks@) =~= Seq::<HandleView>::empty());
        }
        while k < n
            invariant
                n == keys.len(),
                k <= n,
                is_queue(views(blocks@), keys.take(k as int), m, source, now_ms),
            decreases n - k,
        {
            let h: &MemoryBlockHandle = self.residency.blocks.value_at(k);
            let ghost before = blocks@;
            let ghost list = views(before);
            let ghost part = keys.take(k as int);
            let ghost next = keys.take(k + 1);
            proof {
                assert(m[keys[k as int]] == h@);
                assert(self.residency@.contains_key(keys[k as int]));
                assert(h@.id == keys[k as int]);
                assert forall|id: Uuid| next.contains(id) <==> part.contains(id) || id == keys[k as int] by {
                    if next.contains(id) {
                        let x = choose|x: int| 0 <= x < next.len() && next[x] == id;
                        if x < k {
                            assert(part[x] == id);
                        }
                    }
                    if part.contains(id) {
                        let x = choose|x: int| 0 <= x < part.len() && part[x] == id;
                        assert(next[x] == id);
                    }
                    assert(next[k as int] == keys[k as int]);
                }
                assert forall|i: int| 0 <= i < list.len() implies (#[trigger] list[i]).id != h@.id by {
                    let x = choose|x: int| 0 <= x < part.len() && part[x] == list[i].id;
                    assert(keys[x] < keys[k as int]);
                }
            }
            if h.owner_node == source && h.state == BlockState::Ready && h.lease_expires_ms > now_ms {
                let mut at: usize = 0;
                while at < blocks.len() && earlier(&blocks[at], h)
                    invariant
                        blocks@ == before,
                        at <= blocks@.len(),
                        forall|i: int| 0 <= i < at ==> sooner(#[trigger] list[i], h@),
                    decreases blocks@.len() - at,
                {
                    proof {
                        assert(list[at as int] == blocks@[at as int]@);
                    }
                    at = at + 1;
                }
                let ghost shown = h@;
                let copy: MemoryBlockHandle = h.duplicate();
                blocks.insert(at, copy);
                proof {
                    let after = views(blocks@);
                    assert(after =~= list.insert(at as int, shown));
                    assert forall|i: int, j: int| 0 <= i < j < after.len() implies sooner(
                        #[trigger] after[i],
                        #[trigger] after[j],
                    ) by {
                        let x = if i < at {
                            i
                        } else {
                            i - 1
                        };
                        let y = if j < at {
                            j
                        } else {
                            j - 1
                        };
                        if i != at && j != at {
                            assert(sooner(list[x], list[y]));
                        } else if i == at {
                            assert(list[at as int] == before[at as int]@);
                            assert(!sooner(list[at as int], shown));
                            assert(list[at as int].id != shown.id);
                            if y > at {
                                assert(sooner(list[at as int], list[y]));
                            }
                        }
                    }
                    assert forall|i: int| 0 <= i < after.len() implies next.contains((#[trigger] after[i]).id)
                        && after[i] == m[after[i].id] && movable(after[i], source, now_ms) by {
                        if i < at {
                            assert(after[i] == list[i]);
                        } else if i > at {
                            assert(after[i] == list[i - 1]);
                        }
                    }
                    assert forall|x: int| 0 <= x < next.len() && movable(
                        m[#[trigger] next[x]],
                        source,
                        now_ms,
                    ) implies exists|i: int| 0 <= i < after.len() && (#[trigger] after[i]).id == next[x] by {
                        if x == k {
                            assert(after[at as int].id == next[x]);
                        } else {
                            assert(part[x] == next[x]);
                            let i = choose|i: int| 0 <= i < list.len() && (#[trigger] list[i]).id == part[x];
                            if i < at {
                                assert(after[i].id == next[x]);
                            } else {
                                assert(after[i + 1].id == next[x]);
                            }
                        }
                    }
                }
            } else {
                proof {
                    assert forall|x: int| 0 <= x < next.len() && movable(
                        m[#[trigger] next[x]],
                        source,
                        now_ms,
                    ) implies exists|i: int| 0 <= i < list.len() && (#[trigger] list[i]).id == next[x] by {
                        assert(x != k);
                        assert(part[x] == next[x]);
                    }
                }
            }
            k = k + 1;
        }
        proof {
            assert(keys.take(n as int) =~= keys);
        }
        self.relieving = true;
        Some(
            Relief {
                source,
                excess,
                moved: 0,
                leadership,
                blocks,
                block: 0,
                targets: Vec::new(),
                target: 0,
                wait: Wait::Start,
                nodes: Ghost(Seq::empty()),
                costs: Ghost(Seq::empty()),
                past: Ghost(Seq::empty()),
            },
        )
    }

    /// The nodes that could take a block from `source`.
    pub fn relief_nodes(&self, source: Uuid) -> (r: Vec<NodeCapabilities>)
        requires
            self.wf(),
        ensures
            node_capabilities_views(r@) == others(self.membership.all(), source),
    {
        let all: Vec<NodeCapabilities> = self.membership.nodes();
        let ghost nodes = node_capabilities_views(all@);
        let mut r: Vec<NodeCapabilities> = Vec::new();
        let mut i: usize = 0;
        proof {
            assert(node_capabilities_views(r@) =~= others(nodes.take(0), source));
        }
        while i < all.len()
            invariant
                i <= all@.len(),
                nodes == node_capabilities_views(all@),
                node_capabilities_views(r@) == others(nodes.take(i as int), source),
            decreases all@.len() - i,
        {
            let ghost before = r@;
            proof {
                assert(nodes.take(i + 1).drop_last() =~= nodes.take(i as int));
                assert(nodes.take(i + 1).last() == all@[i as int]@);
            }
            if all[i].node_id != source {
                r.push(all[i].duplicate());
                proof {
                    assert(node_capabilities_views(r@) =~= node_capabilities_views(before).push(all@[i as int]@));
                }
            }
            i = i + 1;
        }
        proof {
            assert(nodes.take(i as int) =~= nodes);
        }
        r
    }

    /// The nodes that can take the next block, in order. `costs[i]` is what it
    /// costs to move it to the node at `i` of [`Runtime::relief_nodes`].
    fn relief_targets(&self, f: &Relief, costs: &Vec<Double>) -> (r: Vec<Uuid>)
        requires
            self.wf(),
            f.block < f.blocks@.len(),
            costs@.len() == others(self.membership.all(), f.source).len(),
        ensures
            targets_of(
                r@,
                others(self.membership.all(), f.source),
                costs@,
                f.source,
                f.blocks@[f.block as int].size,
            ),
    {
        let nodes: Vec<NodeCapabilities> = self.relief_nodes(f.source);
        let size: u64 = f.blocks[f.block].size;
        let ghost all = node_capabilities_views(nodes@);
        let ranked: Vec<usize> = CapacityPlacement.rank_ram(&nodes, f.source, size, costs);
        let mut targets: Vec<Uuid> = Vec::new();
        let mut i: usize = 0;
        while i < ranked.len()
            invariant
                i <= ranked@.len(),
                all == node_capabilities_views(nodes@),
                forall|k: int| 0 <= k < ranked@.len() ==> (#[trigger] ranked@[k]) < nodes@.len(),
                targets@.len() == i,
                forall|k: int| 0 <= k < i ==> #[trigger] targets@[k] == all[ranked@[k] as int].node_id,
            decreases ranked@.len() - i,
        {
            proof {
                assert(ranked@[i as int] < nodes@.len());
                assert(all[ranked@[i as int] as int] == nodes@[ranked@[i as int] as int]@);
            }
            targets.push(nodes[ranked[i]].node_id);
            i = i + 1;
        }
        proof {
            assert(targets@ =~= ranked@.map_values(|i: usize| all[i as int].node_id));
            assert(is_ranking(ranked@, all, costs@, f.source, size, all.len() as int));
        }
        targets
    }

    /// Goes on within a block: the source is told to move it to the next node,
    /// or it stays where it is when all have refused it.
    fn relief_ask(&self, f: &mut Relief) -> (r: Result<ReliefStep, Error>)
        requires
            self.wf(),
            old(f).wf(),
            old(f).goes_on(),
            old(f).target <= old(f).targets@.len(),
            old(f).ranked(),
        ensures
            final(f).wf(),
            asked(
                *self,
                *old(f),
                *final(f),
                old(f).nodes@,
                old(f).costs@,
                old(f).targets@,
                old(f).target as int,
                r,
            ),
    {
        if f.target >= f.targets.len() {
            let ghost fate = Fate {
                nodes: f.nodes@,
                costs: f.costs@,
                ranked: f.targets@,
                refused: f.targets@,
                taker: None,
            };
            proof {
                assert(fate.ranked.take(fate.ranked.len() as int) =~= fate.ranked);
            }
            return Ok(f.next_block(false, Ghost(fate)));
        }
        match self.address(f.source) {
            Ok(address) => {
                f.wait = Wait::Answer;
                Ok(
                    ReliefStep::Ask {
                        address,
                        request: Request::Migrate {
                            handle: f.blocks[f.block].duplicate(),
                            destination: f.targets[f.target],
                            leadership: f.leadership,
                        },
                    },
                )
            },
            Err(e) => {
                f.wait = Wait::Nothing;
                Err(e)
            },
        }
    }

    /// Takes what happened to a relief and says what comes next. Blocks are
    /// moved, the smallest first, until the excess is gone or each of them was
    /// refused by every node that could have taken it.
    pub fn relief_step(&self, f: &mut Relief, event: ReliefEvent) -> (r: Result<ReliefStep, Error>)
        requires
            self.wf(),
            old(f).wf(),
            old(f).expects(event, others(self.membership.all(), old(f).source).len()),
        ensures
            final(f).wf(),
            eased(*self, *old(f), *final(f), event, r),
    {
        match event {
            ReliefEvent::Begun => Ok(f.turn()),
            ReliefEvent::Priced { costs } => {
                let ghost first = *f;
                let targets: Vec<Uuid> = self.relief_targets(f, &costs);
                let ghost ranked = targets@;
                let ghost nodes = others(self.membership.all(), f.source);
                f.targets = targets;
                f.target = 0;
                proof {
                    lemma_others(self.membership.all(), f.source);
                    f.nodes@ = nodes;
                    f.costs@ = costs@;
                }
                let ghost mid = *f;
                let r: Result<ReliefStep, Error> = self.relief_ask(f);
                proof {
                    assert(asked(*self, mid, *f, nodes, costs@, ranked, 0, r));
                    assert(asked(*self, first, *f, nodes, costs@, ranked, 0, r));
                }
                r
            },
            ReliefEvent::Answered { moved } => {
                let ghost first = *f;
                if moved {
                    let ghost fate = Fate {
                        nodes: f.nodes@,
                        costs: f.costs@,
                        ranked: f.targets@,
                        refused: f.targets@.take(f.target as int),
                        taker: Some(f.targets@[f.target as int]),
                    };
                    Ok(f.next_block(true, Ghost(fate)))
                } else {
                    let targets: usize = f.targets.len();
                    assert(f.target < targets);
                    f.target = f.target + 1;
                    f.wait = Wait::Costs;
                    let ghost mid = *f;
                    let r: Result<ReliefStep, Error> = self.relief_ask(f);
                    proof {
                        assert(asked(*self, mid, *f, mid.nodes@, mid.costs@, mid.targets@, mid.target as int, r));
                        assert(asked(*self, first, *f, first.nodes@, first.costs@, first.targets@, first.target + 1, r));
                    }
                    r
                }
            },
        }
    }

    /// Ends a relief.
    pub fn end_relief(&mut self)
        requires
            old(self).wf(),
        ensures
            final(self).wf(),
            *final(self) == (Runtime { relieving: false, ..*old(self) }),
    {
        self.relieving = false;
    }
}

impl Relief {
    /// Says what comes next between two blocks.
    fn turn(&mut self) -> (r: ReliefStep)
        requires
            old(self).wf(),
            old(self).wait == Wait::Start,
        ensures
            final(self).wf(),
            *final(self) == (Relief { wait: final(self).wait, ..*old(self) }),
            turned(*final(self), Ok(r)),
    {
        if self.moved < self.excess && self.block < self.blocks.len() {
            self.wait = Wait::Costs;
            ReliefStep::Price { size: self.blocks[self.block].size }
        } else {
            self.wait = Wait::Nothing;
            ReliefStep::Over { moved: self.moved }
        }
    }

    /// Leaves a block behind, moved or not.
    fn next_block(&mut self, moved: bool, fate: Ghost<Fate>) -> (r: ReliefStep)
        requires
            old(self).wf(),
            old(self).goes_on(),
            told(fate@, old(self).source, old(self).blocks@[old(self).block as int].size),
            moved == (fate@.taker is Some),
        ensures
            final(self).wf(),
            dealt_with(
                *old(self),
                *final(self),
                fate@,
                (if moved {
                    plus(old(self).moved, old(self).blocks@[old(self).block as int].size)
                } else {
                    old(self).moved
                }),
            ),
            turned(*final(self), Ok(r)),
    {
        let ghost first = *self;
        let blocks: usize = self.blocks.len();
        assert(self.block < blocks);
        if moved {
            self.moved = sum(self.moved, self.blocks[self.block].size);
        }
        self.block = self.block + 1;
        self.targets = Vec::new();
        self.target = 0;
        self.wait = Wait::Start;
        proof {
            self.past@ = self.past@.push(fate@);
            lemma_dealt_with(first, *self, fate@, self.moved);
        }
        self.turn()
    }
}

/// A relief does what it can and no more: when it is over, what it has moved is
/// the sum of the blocks that were taken; no block was touched once the excess
/// was gone; and if that is less than the excess, every block
/// that could have been moved was taken, or was refused by each of the other
/// nodes that had room for it.
pub proof fn law_relief_is_exhaustive(a: Runtime, f: Relief, g: Relief, event: ReliefEvent, moved: u64)
    requires
        f.wf(),
        g.wf(),
        eased(a, f, g, event, Ok(ReliefStep::Over { moved })),
    ensures
        moved == g.moved,
        moved == moved_bytes(views(g.blocks@), g.past@) % 0x1_0000_0000_0000_0000,
        forall|k: int|
            0 <= k < g.past@.len() ==> tally(views(g.blocks@), #[trigger] g.past@.take(k)) < g.excess,
        moved < g.excess ==> g.past@.len() == g.blocks@.len() && forall|k: int, i: int|
            0 <= k < g.blocks@.len() && (#[trigger] g.past@[k]).taker is None && 0 <= i < g.past@[k].nodes.len()
                && eligible(#[trigger] g.past@[k].nodes[i], g.blocks@[k].size)
                ==> g.past@[k].refused.contains(g.past@[k].nodes[i].node_id),
        forall|k: int, i: int|
            0 <= k < g.past@.len() && 0 <= i < (#[trigger] g.past@[k]).nodes.len() ==> (
            #[trigger] g.past@[k].nodes[i]).node_id != g.source,
{
    let list = views(g.blocks@);
    assert(moved == g.moved && !g.goes_on());
    lemma_tally(list, g.past@);
    if moved < g.excess {
        assert forall|k: int, i: int|
            0 <= k < g.blocks@.len() && (#[trigger] g.past@[k]).taker is None && 0 <= i < g.past@[k].nodes.len()
                && eligible(#[trigger] g.past@[k].nodes[i], g.blocks@[k].size) implies g.past@[k].refused.contains(
        g.past@[k].nodes[i].node_id) by {
            let fate = g.past@[k];
            assert(told(fate, g.source, list[k].size));
            let ranked = choose|ranked: Seq<usize>|
                {
                    &&& #[trigger] is_ranking(
                        ranked,
                        fate.nodes,
                        fate.costs,
                        g.source,
                        list[k].size,
                        fate.nodes.len() as int,
                    )
                    &&& fate.ranked == ranked.map_values(|i: usize| fate.nodes[i as int].node_id)
                };
            let at = choose|at: int| 0 <= at < ranked.len() && ranked[at] == i;
            assert(fate.ranked[at] == fate.nodes[i].node_id);
        }
    }
    assert forall|k: int, i: int|
        0 <= k < g.past@.len() && 0 <= i < (#[trigger] g.past@[k]).nodes.len() implies (
    #[trigger] g.past@[k].nodes[i]).node_id != g.source by {
        assert(told(g.past@[k], g.source, list[k].size));
    }
}

} // verus!
