//! Which node a block goes to.
use crate::double::Double;
use crate::ids::Uuid;
use crate::node::capabilities::{node_capabilities_views, NodeCapabilities, NodeView};
use vstd::prelude::*;

verus! {

/// Whether a node can take a block: it gives RAM, has room, and is not over
/// its budget.
pub open spec fn eligible(n: NodeView, size: u64) -> bool {
    &&& n.runtime.ram_provider
    &&& n.memory.trainpool_ram_available >= size
    &&& n.memory.trainpool_ram_used <= n.memory.trainpool_ram_budget
}

/// Whether the node at `i` is asked before the one at `j`: the computing node
/// itself first, then by cost, then the one with more room, then by id, then
/// in the order given.
pub open spec fn ranks_before(nodes: Seq<NodeView>, costs: Seq<Double>, compute: Uuid, i: int, j: int) -> bool {
    let a = nodes[i];
    let b = nodes[j];
    let here = a.node_id == compute;
    let there = b.node_id == compute;
    if here != there {
        here
    } else if here {
        i < j
    } else if costs[i].rank() != costs[j].rank() {
        costs[i].rank() < costs[j].rank()
    } else if a.memory.trainpool_ram_available != b.memory.trainpool_ram_available {
        a.memory.trainpool_ram_available > b.memory.trainpool_ram_available
    } else if a.node_id != b.node_id {
        a.node_id < b.node_id
    } else {
        i < j
    }
}

/// Whether `ranked` lists the places of all nodes that can take a block, in
/// the order in which they are asked.
pub open spec fn is_ranking(
    ranked: Seq<usize>,
    nodes: Seq<NodeView>,
    costs: Seq<Double>,
    compute: Uuid,
    size: u64,
    upto: int,
) -> bool {
    &&& forall|k: int|
        0 <= k < ranked.len() ==> (#[trigger] ranked[k]) < upto && eligible(nodes[ranked[k] as int], size)
    &&& forall|i: int|
        0 <= i < upto && eligible(#[trigger] nodes[i], size) ==> exists|k: int|
            0 <= k < ranked.len() && ranked[k] == i
    &&& forall|a: int, b: int|
        0 <= a < b < ranked.len() ==> ranks_before(
            nodes,
            costs,
            compute,
            (#[trigger] ranked[a]) as int,
            (#[trigger] ranked[b]) as int,
        )
}

/// How candidates for a block are put in order.
pub trait PlacementPolicy {
    /// The places of the nodes that can take `size` bytes for a job that
    /// computes on `compute`, best first. `costs[i]` is what it costs to move
    /// the bytes to node `i`.
    fn rank_ram(&self, nodes: &Vec<NodeCapabilities>, compute: Uuid, size: u64, costs: &Vec<Double>) -> (r: Vec<usize>)
        requires
            costs@.len() == nodes@.len(),
        ensures
            is_ranking(
                r@,
                node_capabilities_views(nodes@),
                costs@,
                compute,
                size,
                nodes@.len() as int,
            ),
    ;
}

/// Local RAM first, then the cheapest link.
pub struct CapacityPlacement;

/// Whether the node at `i` is asked before the one at `j`.
fn goes_before(nodes: &Vec<NodeCapabilities>, costs: &Vec<Double>, compute: Uuid, i: usize, j: usize) -> (r: bool)
    requires
        costs@.len() == nodes@.len(),
        i < nodes@.len(),
        j < nodes@.len(),
    ensures
        r == ranks_before(node_capabilities_views(nodes@), costs@, compute, i as int, j as int),
{
    let a: &NodeCapabilities = &nodes[i];
    let b: &NodeCapabilities = &nodes[j];
    proof {
        assert(node_capabilities_views(nodes@)[i as int] == a@);
        assert(node_capabilities_views(nodes@)[j as int] == b@);
    }
    let here: bool = a.node_id == compute;
    let there: bool = b.node_id == compute;
    if here != there {
        return here;
    }
    if here {
        return i < j;
    }
    if costs[i].precedes(costs[j]) {
        return true;
    }
    if costs[j].precedes(costs[i]) {
        return false;
    }
    if a.memory.trainpool_ram_available != b.memory.trainpool_ram_available {
        return a.memory.trainpool_ram_available > b.memory.trainpool_ram_available;
    }
    if a.node_id != b.node_id {
        return a.node_id < b.node_id;
    }
    i < j
}

proof fn lemma_rank_total(nodes: Seq<NodeView>, costs: Seq<Double>, compute: Uuid, i: int, j: int)
    requires
        i != j,
    ensures
        ranks_before(nodes, costs, compute, i, j) != ranks_before(nodes, costs, compute, j, i),
{
}

proof fn lemma_rank_transitive(nodes: Seq<NodeView>, costs: Seq<Double>, compute: Uuid, i: int, j: int, k: int)
    requires
        ranks_before(nodes, costs, compute, i, j),
        ranks_before(nodes, costs, compute, j, k),
    ensures
        ranks_before(nodes, costs, compute, i, k),
{
}

impl PlacementPolicy for CapacityPlacement {
    fn rank_ram(&self, nodes: &Vec<NodeCapabilities>, compute: Uuid, size: u64, costs: &Vec<Double>) -> (r: Vec<usize>) {
        let ghost all = node_capabilities_views(nodes@);
        let mut r: Vec<usize> = Vec::new();
        let mut i: usize = 0;
        while i < nodes.len()
            invariant
                costs@.len() == nodes@.len(),
                all == node_capabilities_views(nodes@),
                i <= nodes@.len(),
                is_ranking(r@, all, costs@, compute, size, i as int),
            decreases nodes@.len() - i,
        {
            let n: &NodeCapabilities = &nodes[i];
            proof {
                assert(all[i as int] == n@);
            }
            let ghost before = r@;
            if n.runtime.ram_provider && n.memory.trainpool_ram_available >= size && n.memory.excess() == 0 {
                let mut at: usize = 0;
                while at < r.len() && goes_before(nodes, costs, compute, r[at], i)
                    invariant
                        costs@.len() == nodes@.len(),
                        all == node_capabilities_views(nodes@),
                        i < nodes@.len(),
                        r@ == before,
                        at <= r@.len(),
                        forall|k: int| 0 <= k < r@.len() ==> (#[trigger] r@[k]) < i,
                        forall|k: int|
                            0 <= k < at ==> ranks_before(all, costs@, compute, (#[trigger] r@[k]) as int, i as int),
                    decreases r@.len() - at,
                {
                    at = at + 1;
                }
                r.insert(at, i);
                proof {
                    assert(r@ =~= before.insert(at as int, i));
                    assert forall|a: int, b: int| 0 <= a < b < r@.len() implies ranks_before(
                        all,
                        costs@,
                        compute,
                        (#[trigger] r@[a]) as int,
                        (#[trigger] r@[b]) as int,
                    ) by {
                        let x = if a < at {
                            a
                        } else {
                            a - 1
                        };
                        let y = if b < at {
                            b
                        } else {
                            b - 1
                        };
                        if a != at && b != at {
                            assert(r@[a] == before[x] && r@[b] == before[y]);
                        } else if b == at {
                            assert(r@[a] == before[a]);
                        } else {
                            assert(r@[b] == before[y]);
                            lemma_rank_total(all, costs@, compute, before[at as int] as int, i as int);
                            if at < y {
                                assert(ranks_before(
                                    all,
                                    costs@,
                                    compute,
                                    before[at as int] as int,
                                    before[y] as int,
                                ));
                                lemma_rank_transitive(
                                    all,
                                    costs@,
                                    compute,
                                    i as int,
                                    before[at as int] as int,
                                    before[y] as int,
                                );
                            }
                        }
                    }
                    assert forall|k: int| 0 <= k < r@.len() implies (#[trigger] r@[k]) < i + 1 && eligible(
                        all[r@[k] as int],
                        size,
                    ) by {
                        if k < at {
                            assert(r@[k] == before[k]);
                        } else if k > at {
                            assert(r@[k] == before[k - 1]);
                        }
                    }
                    assert forall|j: int| 0 <= j < i + 1 && eligible(#[trigger] all[j], size) implies exists|k: int|
                        0 <= k < r@.len() && r@[k] == j by {
                        if j == i {
                            assert(r@[at as int] == j);
                        } else {
                            let k = choose|k: int| 0 <= k < before.len() && before[k] == j;
                            if k < at {
                                assert(r@[k] == j);
                            } else {
                                assert(r@[k + 1] == j);
                            }
                        }
                    }
                }
            }
            i = i + 1;
        }
        r
    }
}

/// Local RAM is a tier of its own: where the computing node can take a block,
/// it is asked before any other, whatever the links cost.
pub proof fn law_local_ram_comes_first(
    ranked: Seq<usize>,
    nodes: Seq<NodeView>,
    costs: Seq<Double>,
    compute: Uuid,
    size: u64,
    i: int,
)
    requires
        is_ranking(ranked, nodes, costs, compute, size, nodes.len() as int),
        0 <= i < nodes.len(),
        nodes[i].node_id == compute,
        eligible(nodes[i], size),
    ensures
        ranked.len() > 0,
        nodes[ranked[0] as int].node_id == compute,
{
    let k = choose|k: int| 0 <= k < ranked.len() && ranked[k] == i;
    if k > 0 {
        assert(ranks_before(nodes, costs, compute, ranked[0] as int, ranked[k] as int));
    }
}

/// Only nodes with room for the block are asked.
pub proof fn law_only_eligible_nodes(
    ranked: Seq<usize>,
    nodes: Seq<NodeView>,
    costs: Seq<Double>,
    compute: Uuid,
    size: u64,
    k: int,
)
    requires
        is_ranking(ranked, nodes, costs, compute, size, nodes.len() as int),
        0 <= k < ranked.len(),
    ensures
        ranked[k] < nodes.len(),
        eligible(nodes[ranked[k] as int], size),
{
}

/// There is one order: two rankings of the same nodes are the same.
pub proof fn law_ranking_is_unique(
    a: Seq<usize>,
    b: Seq<usize>,
    nodes: Seq<NodeView>,
    costs: Seq<Double>,
    compute: Uuid,
    size: u64,
)
    requires
        is_ranking(a, nodes, costs, compute, size, nodes.len() as int),
        is_ranking(b, nodes, costs, compute, size, nodes.len() as int),
    ensures
        a == b,
{
    lemma_rank_prefix(a, b, nodes, costs, compute, size, a.len() as int);
    lemma_rank_prefix(b, a, nodes, costs, compute, size, b.len() as int);
    assert(a =~= b);
}

proof fn lemma_rank_prefix(
    a: Seq<usize>,
    b: Seq<usize>,
    nodes: Seq<NodeView>,
    costs: Seq<Double>,
    compute: Uuid,
    size: u64,
    n: int,
)
    requires
        is_ranking(a, nodes, costs, compute, size, nodes.len() as int),
        is_ranking(b, nodes, costs, compute, size, nodes.len() as int),
        0 <= n <= a.len(),
    ensures
        n <= b.len(),
        forall|k: int| 0 <= k < n ==> a[k] == b[k],
    decreases n,
{
    if n > 0 {
        let m = n - 1;
        lemma_rank_prefix(a, b, nodes, costs, compute, size, m);
        // The entry at `m` of `a` stands somewhere in `b`, not before `m`.
        let x = a[m];
        assert(eligible(nodes[x as int], size));
        let k = choose|k: int| 0 <= k < b.len() && b[k] == x;
        if k < m {
            assert(a[k] == b[k]);
            assert(ranks_before(nodes, costs, compute, a[k] as int, a[m] as int));
            assert(false);
        }
        if k > m {
            let y = b[m];
            assert(eligible(nodes[y as int], size));
            let j = choose|j: int| 0 <= j < a.len() && a[j] == y;
            assert(ranks_before(nodes, costs, compute, b[m] as int, b[k] as int));
            if j < m {
                assert(a[j] == b[j]);
                assert(ranks_before(nodes, costs, compute, b[j] as int, b[m] as int));
                assert(false);
            }
            if j > m {
                assert(ranks_before(nodes, costs, compute, a[m] as int, a[j] as int));
                lemma_rank_total(nodes, costs, compute, x as int, y as int);
                assert(false);
            }
            assert(y == x);
            assert(false);
        }
    }
}

} // verus!
