//! What a plan says of the nodes it was made of.
use crate::cluster::election::Leadership;
use crate::double::{Double, ONE};
use crate::error::Error;
use crate::ids::Uuid;
use crate::node::capabilities::NodeView;
use crate::scheduler::planner::{
    budgets, can_compute, comes_first, law_plan_takes_the_first_card, lemma_fits, plan_of, plan_refusal, primary, providers,
    text_before, GpuAssignmentView, StageSpecView,
};
use crate::scheduler::topology::LinkEstimate;
use vstd::prelude::*;

verus! {

/// Whether a node of this id gives RAM.
pub open spec fn gives_ram(nodes: Seq<NodeView>, id: Uuid) -> bool {
    exists|i: int| 0 <= i < nodes.len() && (#[trigger] nodes[i]).runtime.ram_provider && nodes[i].node_id == id
}

/// A plan has the budget of every node that gives RAM, and of no other: what
/// the pool may have there, not what the node has.
pub proof fn law_plan_has_the_budgets(
    nodes: Seq<NodeView>,
    leader: Leadership,
    topology: Seq<LinkEstimate>,
    stages: Seq<StageSpecView>,
    job_id: Uuid,
)
    ensures
        ({
            let p = plan_of(nodes, leader, topology, stages, job_id);
            &&& forall|id: Uuid| #[trigger]
                p.memory_budgets.contains_key(id) <==> gives_ram(nodes, id)
            &&& forall|id: Uuid| #[trigger]
                p.memory_nodes.contains(id) <==> gives_ram(nodes, id)
            &&& (forall|i: int, j: int| 0 <= i < j < nodes.len() ==> (#[trigger] nodes[i]).node_id != (
            #[trigger] nodes[j]).node_id) ==> forall|i: int|
                0 <= i < nodes.len() && (#[trigger] nodes[i]).runtime.ram_provider
                    ==> p.memory_budgets[nodes[i].node_id] == nodes[i].memory.trainpool_ram_budget
            &&& p.job_id == job_id
            &&& p.topology == topology
            &&& leader.leader_id matches Some(id) ==> p.leader_id == id
            &&& p.leader_epoch == leader.leader_epoch
        }),
{
    lemma_budgets(nodes);
}

proof fn lemma_budgets(nodes: Seq<NodeView>)
    ensures
        forall|id: Uuid| #[trigger]
            budgets(nodes).contains_key(id) <==> gives_ram(nodes, id),
        forall|id: Uuid| #[trigger]
            providers(nodes).contains(id) <==> gives_ram(nodes, id),
        (forall|i: int, j: int| 0 <= i < j < nodes.len() ==> (#[trigger] nodes[i]).node_id != (
        #[trigger] nodes[j]).node_id) ==> forall|i: int|
            0 <= i < nodes.len() && (#[trigger] nodes[i]).runtime.ram_provider ==> budgets(nodes)[nodes[i].node_id]
                == nodes[i].memory.trainpool_ram_budget,
    decreases nodes.len(),
{
    if nodes.len() > 0 {
        let rest = nodes.drop_last();
        let last = nodes.len() - 1;
        lemma_budgets(rest);
        assert forall|i: int| 0 <= i < last implies #[trigger] nodes[i] == rest[i] by {}
        assert forall|id: Uuid| #[trigger] gives_ram(nodes, id) <==> gives_ram(rest, id)
            || nodes[last].runtime.ram_provider && nodes[last].node_id == id by {
            if gives_ram(rest, id) {
                let i = choose|i: int|
                    0 <= i < rest.len() && (#[trigger] rest[i]).runtime.ram_provider && rest[i].node_id == id;
                assert(nodes[i].node_id == id);
            }
            if gives_ram(nodes, id) {
                let i = choose|i: int|
                    0 <= i < nodes.len() && (#[trigger] nodes[i]).runtime.ram_provider && nodes[i].node_id == id;
                if i < last {
                    assert(rest[i].node_id == id);
                }
            }
        }
        assert forall|id: Uuid| #[trigger] budgets(nodes).contains_key(id) <==> gives_ram(nodes, id) by {
            assert(budgets(rest).contains_key(id) <==> gives_ram(rest, id));
            assert(gives_ram(nodes, id) <==> gives_ram(rest, id) || nodes[last].runtime.ram_provider
                && nodes[last].node_id == id);
        }
        let before = providers(rest);
        let all = providers(nodes);
        assert forall|id: Uuid| #[trigger] all.contains(id) <==> before.contains(id) || nodes[last].runtime.ram_provider
            && nodes[last].node_id == id by {
            if before.contains(id) {
                let k = choose|k: int| 0 <= k < before.len() && before[k] == id;
                assert(all[k] == id);
            }
            if nodes[last].runtime.ram_provider {
                assert(all[before.len() as int] == nodes[last].node_id);
            }
            if all.contains(id) {
                let k = choose|k: int| 0 <= k < all.len() && all[k] == id;
                if k < before.len() {
                    assert(before[k] == id);
                }
            }
        }
        if forall|i: int, j: int| 0 <= i < j < nodes.len() ==> (#[trigger] nodes[i]).node_id != (
        #[trigger] nodes[j]).node_id {
            assert forall|i: int, j: int| 0 <= i < j < rest.len() implies (#[trigger] rest[i]).node_id != (
            #[trigger] rest[j]).node_id by {
                assert(nodes[i].node_id != nodes[j].node_id);
            }
            assert forall|i: int| 0 <= i < nodes.len() && (#[trigger] nodes[i]).runtime.ram_provider implies budgets(
                nodes,
            )[nodes[i].node_id] == nodes[i].memory.trainpool_ram_budget by {
                if i < last {
                    assert(rest[i].runtime.ram_provider);
                    assert(nodes[i].node_id != nodes[last].node_id);
                }
            }
        }
    }
}

/// There is a plan exactly where there is a leader, and a card wherever there
/// are stages, with room for the working set of each of them. Every stage runs
/// on that card, in the order given.
pub proof fn law_when_there_is_a_plan(
    nodes: Seq<NodeView>,
    leader: Leadership,
    topology: Seq<LinkEstimate>,
    stages: Seq<StageSpecView>,
    job_id: Uuid,
)
    ensures
        plan_refusal(nodes, leader, stages) is None <==> {
            &&& leader.leader_id is Some
            &&& stages.len() > 0 ==> (exists|i: int, j: int| can_compute(nodes, i, j)) && forall|k: int|
                0 <= k < stages.len() ==> (#[trigger] stages[k]).working_set_bytes <= plan_of(
                    nodes,
                    leader,
                    topology,
                    stages,
                    job_id,
                ).gpu_assignments[0].usable_bytes
        },
        stages.len() > 0 && !(exists|i: int, j: int| can_compute(nodes, i, j)) ==> plan_refusal(nodes, leader, stages)
            == Some(Error::NoCuda.text()),
        plan_refusal(nodes, leader, stages) is None ==> {
            let p = plan_of(nodes, leader, topology, stages, job_id);
            &&& p.stages.len() == stages.len()
            &&& forall|k: int|
                0 <= k < stages.len() ==> {
                    &&& (#[trigger] p.stages[k]).stage == stages[k].name
                    &&& p.stages[k].node_id == p.gpu_assignments[0].node_id
                    &&& p.stages[k].gpu_id == p.gpu_assignments[0].gpu_id
                }
        },
{
    let p = plan_of(nodes, leader, topology, stages, job_id);
    law_plan_takes_the_first_card(nodes, leader, topology, stages, job_id);
    assert(p.execution_supported <==> primary(nodes) is Some);
    if primary(nodes) is Some {
        assert(p.gpu_assignments[0].usable_bytes == primary(nodes)->0.usable_bytes);
        lemma_fits(stages, primary(nodes)->0.usable_bytes);
    }
}

/// Names go by their first difference, and a name before all that it begins.
pub proof fn law_order_of_names(a: Seq<char>, b: Seq<char>, k: int)
    requires
        0 <= k <= a.len(),
        k <= b.len(),
        forall|i: int| 0 <= i < k ==> a[i] == b[i],
    ensures
        k < a.len() && k < b.len() && a[k] != b[k] ==> (text_before(a, b) <==> a[k] < b[k]),
        k == a.len() && k < b.len() ==> text_before(a, b),
        k == b.len() ==> !text_before(a, b),
    decreases k,
{
    if k > 0 {
        assert(a[0] == b[0]);
        let x = a.skip(1);
        let y = b.skip(1);
        assert forall|i: int| 0 <= i < k - 1 implies x[i] == y[i] by {
            assert(a[i + 1] == b[i + 1]);
        }
        law_order_of_names(x, y, k - 1);
        if k < a.len() && k < b.len() {
            assert(x[k - 1] == a[k] && y[k - 1] == b[k]);
        }
    }
}

/// The card of a plan is a card with memory to use, of a node that computes; no
/// such card has more to use. It has all of the work.
pub proof fn law_card_of_a_plan(
    nodes: Seq<NodeView>,
    leader: Leadership,
    topology: Seq<LinkEstimate>,
    stages: Seq<StageSpecView>,
    job_id: Uuid,
    i: int,
    j: int,
)
    requires
        0 <= i < nodes.len(),
        nodes[i].runtime.gpu_compute,
        0 <= j < nodes[i].gpus.len(),
        nodes[i].gpus[j].usable_vram > 0,
    ensures
        ({
            let p = plan_of(nodes, leader, topology, stages, job_id);
            &&& p.execution_supported
            &&& p.gpu_assignments.len() == 1
            &&& p.compute_nodes == seq![p.gpu_assignments[0].node_id]
            &&& p.gpu_assignments[0].usable_bytes >= nodes[i].gpus[j].usable_vram
            &&& p.gpu_assignments[0].capacity_share.bits == 0x3ff0_0000_0000_0000
            &&& p.strategy == "SingleGpuDistributedMemory"@
            &&& p.tensor_placement_policy == "vram-then-local-ram-then-remote-cost"@
            &&& exists|k: int, l: int|
                0 <= k < nodes.len() && 0 <= l < nodes[k].gpus.len() && nodes[k].runtime.gpu_compute && (
                #[trigger] nodes[k].gpus[l]).usable_vram == p.gpu_assignments[0].usable_bytes && nodes[k].gpus[l].uuid
                    == p.gpu_assignments[0].gpu_id && nodes[k].node_id == p.gpu_assignments[0].node_id
        }),
{
    let p = plan_of(nodes, leader, topology, stages, job_id);
    law_plan_takes_the_first_card(nodes, leader, topology, stages, job_id);
    assert(can_compute(nodes, i, j));
    let (k, l) = choose|k: int, l: int|
        {
            &&& #[trigger] can_compute(nodes, k, l)
            &&& comes_first(nodes, k, l)
            &&& p.compute_nodes == seq![nodes[k].node_id]
            &&& p.gpu_assignments == seq![
                GpuAssignmentView {
                    node_id: nodes[k].node_id,
                    gpu_id: nodes[k].gpus[l].uuid,
                    usable_bytes: nodes[k].gpus[l].usable_vram,
                    capacity_share: Double { bits: ONE },
                },
            ]
        };
    assert(nodes[k].gpus[l].usable_vram == p.gpu_assignments[0].usable_bytes);
}

} // verus!
