//! Which nodes are asked to take a block, and in what order.
use crate::double::Double;
use crate::error::Error;
use crate::ids::Uuid;
use crate::node::capabilities::NodeView;
use crate::memory::block::TensorView;
use crate::runtime::control::{candidates_of, searched, Allocation};
use crate::runtime::relief::targets_of;
use crate::runtime::{MemorySample, Runtime};
use crate::scheduler::placement::is_ranking;
use vstd::prelude::*;

verus! {

/// Whether a node can take a block: it gives RAM, has room for it, and has not
/// more in use than its budget.
pub open spec fn has_room(n: NodeView, size: u64) -> bool {
    n.runtime.ram_provider && n.memory.trainpool_ram_available >= size && n.memory.trainpool_ram_used
        <= n.memory.trainpool_ram_budget
}

/// The order of costs is that of numbers: bits order those that are not
/// negative, which come behind the negative ones.
pub proof fn law_costs_are_ordered_as_numbers(a: Double, b: Double)
    ensures
        a.bits < 0x8000_0000_0000_0000 && b.bits < 0x8000_0000_0000_0000 ==> (a.rank() < b.rank() <==> a.bits < b.bits),
        a.bits >= 0x8000_0000_0000_0000 && b.bits < 0x8000_0000_0000_0000 ==> a.rank() < b.rank(),
        a.bits >= 0x8000_0000_0000_0000 && b.bits >= 0x8000_0000_0000_0000 ==> (a.rank() < b.rank() <==> a.bits
            > b.bits),
        a.rank() == b.rank() <==> a.bits == b.bits,
{
}

/// Of two remote nodes the one with the cheaper link is asked first. Room and
/// ids decide only between equal costs: more room first, then the smaller id.
/// The computing node itself comes before all others.
pub proof fn law_cheaper_link_comes_first(
    ranked: Seq<usize>,
    nodes: Seq<NodeView>,
    costs: Seq<Double>,
    compute: Uuid,
    size: u64,
    a: int,
    b: int,
)
    requires
        is_ranking(ranked, nodes, costs, compute, size, nodes.len() as int),
        0 <= a < b < ranked.len(),
        forall|i: int| 0 <= i < costs.len() ==> (#[trigger] costs[i]).bits < 0x8000_0000_0000_0000,
        costs.len() == nodes.len(),
    ensures
        ({
            let m = nodes[ranked[a] as int];
            let n = nodes[ranked[b] as int];
            let p = costs[ranked[a] as int].bits;
            let q = costs[ranked[b] as int].bits;
            &&& n.node_id == compute ==> m.node_id == compute
            &&& m.node_id != compute ==> {
                &&& n.node_id != compute
                &&& p <= q
                &&& p == q ==> m.memory.trainpool_ram_available >= n.memory.trainpool_ram_available
                &&& p == q && m.memory.trainpool_ram_available == n.memory.trainpool_ram_available ==> m.node_id
                    <= n.node_id
            }
        }),
{
    assert(crate::scheduler::placement::ranks_before(nodes, costs, compute, ranked[a] as int, ranked[b] as int));
}

/// A cost that is higher in the order of numbers never comes first, whatever
/// its sign.
pub proof fn law_dearer_link_never_comes_first(
    ranked: Seq<usize>,
    nodes: Seq<NodeView>,
    costs: Seq<Double>,
    compute: Uuid,
    size: u64,
    a: int,
    b: int,
)
    requires
        is_ranking(ranked, nodes, costs, compute, size, nodes.len() as int),
        0 <= a < b < ranked.len(),
        nodes[ranked[a] as int].node_id != compute,
    ensures
        costs[ranked[a] as int].rank() <= costs[ranked[b] as int].rank(),
{
    assert(crate::scheduler::placement::ranks_before(nodes, costs, compute, ranked[a] as int, ranked[b] as int));
}

/// Just the nodes with room are asked, each of them once.
pub proof fn law_all_with_room_are_asked(
    ranked: Seq<usize>,
    nodes: Seq<NodeView>,
    costs: Seq<Double>,
    compute: Uuid,
    size: u64,
)
    requires
        is_ranking(ranked, nodes, costs, compute, size, nodes.len() as int),
    ensures
        forall|k: int| 0 <= k < ranked.len() ==> (#[trigger] ranked[k]) < nodes.len() && has_room(nodes[ranked[k] as int], size),
        forall|i: int|
            0 <= i < nodes.len() && has_room(#[trigger] nodes[i], size) ==> exists|k: int|
                0 <= k < ranked.len() && ranked[k] == i,
        forall|a: int, b: int| 0 <= a < b < ranked.len() ==> ranked[a] != ranked[b],
{
    assert forall|i: int| 0 <= i < nodes.len() && has_room(#[trigger] nodes[i], size) implies exists|k: int|
        0 <= k < ranked.len() && ranked[k] == i by {
        assert(crate::scheduler::placement::eligible(nodes[i], size));
    }
    assert forall|a: int, b: int| 0 <= a < b < ranked.len() implies ranked[a] != ranked[b] by {
        assert(crate::scheduler::placement::ranks_before(nodes, costs, compute, ranked[a] as int, ranked[b] as int));
    }
}

/// Without a preference the candidates are the ranked nodes, in their order;
/// with one, just the preferred node.
pub proof fn law_candidates_follow_the_ranking(ranked: Seq<usize>, nodes: Seq<NodeView>, preferred: Option<Uuid>)
    ensures
        preferred is None ==> candidates_of(ranked, nodes, preferred).len() == ranked.len() && forall|k: int|
            0 <= k < ranked.len() ==> {
                let n = nodes[ranked[k] as int];
                &&& (#[trigger] candidates_of(ranked, nodes, preferred)[k]).node_id == n.node_id
                &&& candidates_of(ranked, nodes, preferred)[k].incarnation == n.incarnation
                &&& candidates_of(ranked, nodes, preferred)[k].address == n.network.control_address
            },
        preferred matches Some(id) ==> {
            &&& forall|k: int|
                0 <= k < candidates_of(ranked, nodes, preferred).len() ==> (#[trigger] candidates_of(
                    ranked,
                    nodes,
                    preferred,
                )[k]).node_id == id
            &&& candidates_of(ranked, nodes, preferred).len() > 0 <==> exists|k: int|
                0 <= k < ranked.len() && nodes[(#[trigger] ranked[k]) as int].node_id == id
        },
    decreases ranked.len(),
{
    if ranked.len() > 0 {
        let rest = ranked.drop_last();
        law_candidates_follow_the_ranking(rest, nodes, preferred);
        let all = candidates_of(ranked, nodes, preferred);
        let last = ranked.len() - 1;
        match preferred {
            None => {
                assert forall|k: int| 0 <= k < ranked.len() implies {
                    let n = nodes[ranked[k] as int];
                    &&& (#[trigger] all[k]).node_id == n.node_id
                    &&& all[k].incarnation == n.incarnation
                    &&& all[k].address == n.network.control_address
                } by {
                    if k < last {
                        assert(candidates_of(rest, nodes, preferred)[k] == all[k]);
                        assert(rest[k] == ranked[k]);
                    }
                }
            },
            Some(id) => {
                assert forall|k: int| 0 <= k < all.len() implies (#[trigger] all[k]).node_id == id by {
                    if k < candidates_of(rest, nodes, preferred).len() {
                        assert(candidates_of(rest, nodes, preferred)[k] == all[k]);
                    }
                }
                if exists|k: int| 0 <= k < ranked.len() && nodes[(#[trigger] ranked[k]) as int].node_id == id {
                    let k = choose|k: int| 0 <= k < ranked.len() && nodes[(#[trigger] ranked[k]) as int].node_id == id;
                    if k < last {
                        assert(nodes[rest[k] as int].node_id == id);
                    }
                }
                if all.len() > 0 {
                    if candidates_of(rest, nodes, preferred).len() > 0 {
                        let k = choose|k: int| 0 <= k < rest.len() && nodes[(#[trigger] rest[k]) as int].node_id == id;
                        assert(nodes[ranked[k] as int].node_id == id);
                    } else {
                        assert(nodes[ranked[last] as int].node_id == id);
                    }
                }
            },
        }
    }
}

/// Those that are asked for a block have room for it; with a preference just the
/// preferred node is asked, and without one the node that computes comes first.
pub proof fn law_who_is_asked_for_a_block(
    a: Runtime,
    z: Runtime,
    size: u64,
    job: Uuid,
    compute: Uuid,
    preferred: Option<Uuid>,
    tensor: Option<TensorView>,
    costs: Seq<Double>,
    sample: MemorySample,
    r: Result<Allocation, Error>,
    k: int,
)
    requires
        searched(a, z, size, job, compute, preferred, tensor, costs, sample, r),
        r is Ok,
        0 <= k < (r->Ok_0).candidates@.len(),
    ensures
        preferred matches Some(id) ==> (r->Ok_0).candidates@[k].node_id == id,
        preferred is None && k > 0 && (r->Ok_0).candidates@[k].node_id == compute ==> (r->Ok_0).candidates@[k - 1].node_id
            == compute,
        preferred is None ==> exists|i: int|
            {
                &&& 0 <= i < z.membership.all().len()
                &&& has_room(#[trigger] z.membership.all()[i], size)
                &&& (r->Ok_0).candidates@[k].node_id == z.membership.all()[i].node_id
                &&& (r->Ok_0).candidates@[k].incarnation == z.membership.all()[i].incarnation
                &&& (r->Ok_0).candidates@[k].address == z.membership.all()[i].network.control_address
            },
{
    let nodes = z.membership.all();
    let al = r->Ok_0;
    let ranked = choose|ranked: Seq<usize>|
        {
            &&& #[trigger] is_ranking(ranked, nodes, costs, compute, size, nodes.len() as int)
            &&& al.candidates@ == candidates_of(ranked, nodes, preferred)
        };
    law_candidates_follow_the_ranking(ranked, nodes, preferred);
    law_all_with_room_are_asked(ranked, nodes, costs, compute, size);
    if preferred is None {
        assert(candidates_of(ranked, nodes, preferred)[k].node_id == nodes[ranked[k] as int].node_id);
        assert(has_room(nodes[ranked[k] as int], size));
        if k > 0 {
            assert(candidates_of(ranked, nodes, preferred)[k - 1].node_id == nodes[ranked[k - 1] as int].node_id);
            assert(crate::scheduler::placement::ranks_before(nodes, costs, compute, ranked[k - 1] as int, ranked[k] as int));
        }
    }
}

/// Blocks are moved to nodes with room for them, and to the cheaper link first.
pub proof fn law_targets_of_a_move(
    targets: Seq<Uuid>,
    nodes: Seq<NodeView>,
    costs: Seq<Double>,
    source: Uuid,
    size: u64,
    k: int,
)
    requires
        targets_of(targets, nodes, costs, source, size),
        0 <= k < targets.len(),
        costs.len() == nodes.len(),
        forall|i: int| 0 <= i < costs.len() ==> (#[trigger] costs[i]).bits < 0x8000_0000_0000_0000,
    ensures
        exists|i: int|
            {
                &&& 0 <= i < nodes.len()
                &&& has_room(#[trigger] nodes[i], size)
                &&& targets[k] == nodes[i].node_id
                &&& k > 0 && targets[k - 1] != source && targets[k] != source ==> exists|j: int|
                    0 <= j < nodes.len() && (#[trigger] nodes[j]).node_id == targets[k - 1] && costs[j].bits <= costs[i].bits
            },
{
    let ranked = choose|ranked: Seq<usize>|
        {
            &&& #[trigger] is_ranking(ranked, nodes, costs, source, size, nodes.len() as int)
            &&& targets == ranked.map_values(|i: usize| nodes[i as int].node_id)
        };
    law_all_with_room_are_asked(ranked, nodes, costs, source, size);
    let i = ranked[k] as int;
    assert(has_room(nodes[i], size) && targets[k] == nodes[i].node_id);
    if k > 0 {
        law_cheaper_link_comes_first(ranked, nodes, costs, source, size, k - 1, k);
        let j = ranked[k - 1] as int;
        assert(nodes[j].node_id == targets[k - 1]);
    }
}

} // verus!
