//! The leader: the node with the most physical memory.
use crate::ids::Uuid;
use crate::node::capabilities::{card_total, NodeCapabilities, NodeView};
use crate::node::gpu::GpuView;
use vstd::prelude::*;

verus! {

/// Who leads, as a node sees it.
#[derive(Clone, Copy, Debug, PartialEq, Eq, Structural)]
pub struct Leadership {
    pub leader_id: Option<Uuid>,
    /// A token that the leader issued, not a term that all agreed on.
    pub leader_epoch: Uuid,
    pub election_score: u64,
}

impl Default for Leadership {
    fn default() -> (r: Self)
        ensures
            r == leaderless(),
    {
        Leadership { leader_id: None, leader_epoch: 0, election_score: 0 }
    }
}

/// Nobody leads.
pub open spec fn leaderless() -> Leadership {
    Leadership { leader_id: None, leader_epoch: 0, election_score: 0 }
}

/// Whether `a` goes before `b` in an election: by score, then by id.
pub open spec fn at_least(a: NodeView, b: NodeView) -> bool {
    a.score() > b.score() || a.score() == b.score() && a.node_id >= b.node_id
}

/// The place of the node that wins.
pub open spec fn winner(nodes: Seq<NodeView>) -> int
    decreases nodes.len(),
{
    if nodes.len() <= 1 {
        0
    } else {
        let w = winner(nodes.drop_last());
        if at_least(nodes.last(), nodes[w]) {
            nodes.len() - 1
        } else {
            w
        }
    }
}

/// Who leads a set of nodes.
pub open spec fn leader_of(nodes: Seq<NodeView>) -> Leadership {
    if nodes.len() == 0 {
        leaderless()
    } else {
        let n = nodes[winner(nodes)];
        Leadership {
            leader_id: Some(n.node_id),
            leader_epoch: n.leader_generation,
            election_score: n.score(),
        }
    }
}

/// The models of several nodes.
pub open spec fn ref_views(nodes: Seq<&NodeCapabilities>) -> Seq<NodeView> {
    nodes.map_values(|n: &NodeCapabilities| n@)
}

/// Who leads a set of nodes: the highest score wins, and among equals the
/// largest id.
pub fn elect(nodes: &[&NodeCapabilities]) -> (r: Leadership)
    ensures
        r == leader_of(ref_views(nodes@)),
{
    if nodes.len() == 0 {
        return Leadership::default();
    }
    let ghost all = ref_views(nodes@);
    let mut best: usize = 0;
    let mut score: u64 = nodes[0].election_score();
    let mut i: usize = 1;
    proof {
        assert(all[0] == nodes@[0]@);
    }
    while i < nodes.len()
        invariant
            all == ref_views(nodes@),
            1 <= i <= nodes@.len(),
            best < i,
            best == winner(all.take(i as int)),
            score == all[best as int].score(),
        decreases nodes@.len() - i,
    {
        let other: u64 = nodes[i].election_score();
        proof {
            assert(all.take(i + 1).drop_last() =~= all.take(i as int));
            assert(all[i as int] == nodes@[i as int]@);
            assert(all[best as int] == nodes@[best as int]@);
        }
        if other > score || other == score && nodes[i].node_id >= nodes[best].node_id {
            best = i;
            score = other;
        }
        i = i + 1;
    }
    proof {
        assert(all.take(i as int) =~= all);
        assert(all[best as int] == nodes@[best as int]@);
    }
    Leadership {
        leader_id: Some(nodes[best].node_id),
        leader_epoch: nodes[best].leader_generation,
        election_score: score,
    }
}

pub proof fn lemma_winner(nodes: Seq<NodeView>)
    requires
        nodes.len() > 0,
    ensures
        0 <= winner(nodes) < nodes.len(),
        forall|i: int| 0 <= i < nodes.len() ==> at_least(nodes[winner(nodes)], #[trigger] nodes[i]),
    decreases nodes.len(),
{
    if nodes.len() > 1 {
        let rest = nodes.drop_last();
        lemma_winner(rest);
        let w = winner(rest);
        assert forall|i: int| 0 <= i < nodes.len() implies at_least(nodes[winner(nodes)], #[trigger] nodes[i]) by {
            if i < rest.len() {
                assert(at_least(rest[w], rest[i]));
            }
        }
    }
}

/// No two nodes share an id.
pub open spec fn ids_apart(nodes: Seq<NodeView>) -> bool {
    forall|i: int, j: int| 0 <= i < j < nodes.len() ==> (#[trigger] nodes[i]).node_id != (#[trigger] nodes[j]).node_id
}

/// The leader has the highest score, and the largest id of those that have it.
pub proof fn law_leader_has_most(nodes: Seq<NodeView>, i: int)
    requires
        0 <= i < nodes.len(),
    ensures
        leader_of(nodes).leader_id is Some,
        leader_of(nodes).election_score >= nodes[i].score(),
        leader_of(nodes).election_score == nodes[i].score() ==> leader_of(nodes).leader_id->0 >= nodes[i].node_id,
{
    lemma_winner(nodes);
    assert(at_least(nodes[winner(nodes)], nodes[i]));
}

/// Nodes that know the same nodes agree on the leader, in whatever order they
/// know them.
pub proof fn law_election_is_agreed(a: Seq<NodeView>, b: Seq<NodeView>)
    requires
        ids_apart(a),
        ids_apart(b),
        forall|n: NodeView| a.contains(n) <==> b.contains(n),
    ensures
        leader_of(a) == leader_of(b),
{
    if a.len() == 0 {
        if b.len() > 0 {
            assert(b.contains(b[0]));
            assert(a.contains(b[0]));
        }
    } else {
        assert(a.contains(a[0]));
        assert(b.contains(a[0]));
        lemma_winner(a);
        lemma_winner(b);
        let x = a[winner(a)];
        let y = b[winner(b)];
        assert(a.contains(x) && b.contains(y));
        assert(b.contains(x) && a.contains(y));
        let i = choose|i: int| 0 <= i < b.len() && b[i] == x;
        let j = choose|j: int| 0 <= j < a.len() && a[j] == y;
        assert(at_least(b[winner(b)], b[i]));
        assert(at_least(a[winner(a)], a[j]));
        assert(x.node_id == y.node_id);
        if i < winner(b) {
            assert(b[i].node_id != b[winner(b)].node_id);
        }
        if winner(b) < i {
            assert(b[winner(b)].node_id != b[i].node_id);
        }
    }
}

proof fn lemma_same_winner(a: Seq<NodeView>, b: Seq<NodeView>)
    requires
        a.len() == b.len(),
        forall|i: int|
            0 <= i < a.len() ==> (#[trigger] a[i]).node_id == b[i].node_id && a[i].score() == b[i].score(),
    ensures
        winner(a) == winner(b),
        a.len() > 0 ==> 0 <= winner(a) < a.len(),
    decreases a.len(),
{
    if a.len() > 1 {
        assert forall|i: int| 0 <= i < a.drop_last().len() implies (#[trigger] a.drop_last()[i]).node_id
            == b.drop_last()[i].node_id && a.drop_last()[i].score() == b.drop_last()[i].score() by {
            assert(a[i].node_id == b[i].node_id);
        }
        lemma_same_winner(a.drop_last(), b.drop_last());
        let w = winner(a.drop_last());
        assert(a[w].node_id == b[w].node_id);
        assert(a.last().node_id == b.last().node_id);
    }
}

/// Whether two nodes have the same id and the same physical memory.
pub open spec fn same_frame(a: NodeView, b: NodeView) -> bool {
    &&& a.node_id == b.node_id
    &&& a.memory.physical_ram_total == b.memory.physical_ram_total
    &&& a.gpus.len() == b.gpus.len()
    &&& forall|i: int| 0 <= i < a.gpus.len() ==> (#[trigger] a.gpus[i]).vram_total == b.gpus[i].vram_total
}

/// What is in use does not sway an election: only what the nodes physically
/// have, and their ids. The epoch is the token of the node that leads.
pub proof fn law_election_is_static(a: Seq<NodeView>, b: Seq<NodeView>)
    requires
        a.len() == b.len(),
        forall|i: int| 0 <= i < a.len() ==> same_frame(#[trigger] a[i], b[i]),
    ensures
        leader_of(a).leader_id == leader_of(b).leader_id,
        leader_of(a).election_score == leader_of(b).election_score,
        forall|i: int|
            0 <= i < b.len() && leader_of(b).leader_id == Some((#[trigger] b[i]).node_id) && ids_apart(b)
                ==> leader_of(b).leader_epoch == b[i].leader_generation,
{
    assert forall|i: int| 0 <= i < a.len() implies (#[trigger] a[i]).node_id == b[i].node_id && a[i].score()
        == b[i].score() by {
        assert(same_frame(a[i], b[i]));
        lemma_same_cards(a[i].memory.physical_ram_total, a[i].gpus, b[i].gpus);
    }
    lemma_same_winner(a, b);
    if a.len() > 0 {
        let w = winner(b);
        assert(a[w].node_id == b[w].node_id);
        assert forall|i: int|
            0 <= i < b.len() && leader_of(b).leader_id == Some((#[trigger] b[i]).node_id) && ids_apart(b) implies leader_of(
        b).leader_epoch == b[i].leader_generation by {
            if i < w {
                assert(b[i].node_id != b[w].node_id);
            }
            if w < i {
                assert(b[w].node_id != b[i].node_id);
            }
        }
    }
}

proof fn lemma_same_cards(start: u64, a: Seq<GpuView>, b: Seq<GpuView>)
    requires
        a.len() == b.len(),
        forall|i: int| 0 <= i < a.len() ==> (#[trigger] a[i]).vram_total == b[i].vram_total,
    ensures
        card_total(start, a) == card_total(start, b),
    decreases a.len(),
{
    if a.len() > 0 {
        assert forall|i: int| 0 <= i < a.drop_last().len() implies (#[trigger] a.drop_last()[i]).vram_total
            == b.drop_last()[i].vram_total by {
            assert(a[i].vram_total == b[i].vram_total);
        }
        lemma_same_cards(start, a.drop_last(), b.drop_last());
    }
}

} // verus!
