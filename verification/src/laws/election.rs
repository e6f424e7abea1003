//! Who leads, and who is gone.
use crate::cluster::election::{leader_of, winner};
use crate::cluster::membership::{dead, PeerView};
use crate::ids::Uuid;
use crate::node::capabilities::{card_total, NodeCapabilities, NodeView};
use crate::node::gpu::{gpu_capabilities_views, GpuCapabilities, GpuView};
use vstd::prelude::*;

verus! {

/// A node without cards scores its physical RAM, and every card adds all its
/// memory, as far as 64 bits go. Nothing but these counts.
pub proof fn law_every_card_adds_to_the_score(n: NodeView, g: GpuView)
    ensures
        n.gpus.len() == 0 ==> n.score() == n.memory.physical_ram_total,
        ({
            let more = NodeView { gpus: n.gpus.push(g), ..n };
            &&& n.score() + g.vram_total <= u64::MAX ==> more.score() == n.score() + g.vram_total
            &&& n.score() + g.vram_total > u64::MAX ==> more.score() == u64::MAX
        }),
{
    assert(n.gpus.push(g).drop_last() =~= n.gpus);
}

/// The score is what the node counts.
pub proof fn law_score_is_what_is_counted(n: NodeCapabilities, r: u64)
    requires
        call_ensures(NodeCapabilities::election_score, (&n,), r),
    ensures
        r == n@.score(),
        n.gpus@.len() == 0 ==> r == n.memory.physical_ram_total,
        n.gpus@.len() == 1 ==> r == if n.memory.physical_ram_total + n.gpus@[0].vram_total > u64::MAX {
            u64::MAX as int
        } else {
            n.memory.physical_ram_total + n.gpus@[0].vram_total
        },
{
    if n.gpus@.len() == 1 {
        assert(n@.gpus.drop_last().len() == 0);
        assert(n@.gpus[0] == n.gpus@[0]@);
        reveal_with_fuel(card_total, 2);
    }
}

/// The memory of all cards.
pub open spec fn all_vram(gpus: Seq<GpuCapabilities>) -> nat
    decreases gpus.len(),
{
    if gpus.len() == 0 {
        0
    } else {
        gpus[0].vram_total as nat + all_vram(gpus.skip(1))
    }
}

/// The score is the physical RAM and the memory of all cards together, as far
/// as 64 bits go.
pub proof fn law_score_is_the_sum(n: NodeCapabilities, r: u64)
    requires
        call_ensures(NodeCapabilities::election_score, (&n,), r),
    ensures
        n.memory.physical_ram_total + all_vram(n.gpus@) <= u64::MAX ==> r == n.memory.physical_ram_total + all_vram(n.gpus@),
        n.memory.physical_ram_total + all_vram(n.gpus@) > u64::MAX ==> r == u64::MAX,
{
    lemma_card_total(n.memory.physical_ram_total, n.gpus@);
}

proof fn lemma_all_vram(gpus: Seq<GpuCapabilities>)
    requires
        gpus.len() > 0,
    ensures
        all_vram(gpus) == all_vram(gpus.drop_last()) + gpus.last().vram_total,
    decreases gpus.len(),
{
    if gpus.len() > 1 {
        lemma_all_vram(gpus.skip(1));
        assert(gpus.skip(1).drop_last() =~= gpus.drop_last().skip(1));
        assert(gpus.skip(1).last() == gpus.last());
        assert(gpus.drop_last()[0] == gpus[0]);
    } else {
        assert(gpus.skip(1).len() == 0);
        assert(gpus.drop_last().len() == 0);
        assert(all_vram(gpus.skip(1)) == 0);
        assert(all_vram(gpus.drop_last()) == 0);
    }
}

proof fn lemma_card_total(start: u64, gpus: Seq<GpuCapabilities>)
    ensures
        start + all_vram(gpus) <= u64::MAX ==> card_total(start, gpu_capabilities_views(gpus)) == start + all_vram(gpus),
        start + all_vram(gpus) > u64::MAX ==> card_total(start, gpu_capabilities_views(gpus)) == u64::MAX,
    decreases gpus.len(),
{
    let v = gpu_capabilities_views(gpus);
    if gpus.len() > 0 {
        lemma_all_vram(gpus);
        lemma_card_total(start, gpus.drop_last());
        assert(v.drop_last() =~= gpu_capabilities_views(gpus.drop_last()));
        assert(v.last() == gpus.last()@);
    }
}

/// The leader is one of the nodes, and its epoch is the token that it issued.
/// Every other node has a lower score, or the same and a smaller id.
pub proof fn law_leader_is_the_first_node(nodes: Seq<NodeView>)
    requires
        nodes.len() > 0,
    ensures
        exists|i: int|
            {
                &&& 0 <= i < nodes.len()
                &&& leader_of(nodes).leader_id == Some((#[trigger] nodes[i]).node_id)
                &&& leader_of(nodes).leader_epoch == nodes[i].leader_generation
                &&& leader_of(nodes).election_score == nodes[i].score()
                &&& forall|k: int|
                    0 <= k < nodes.len() ==> nodes[i].score() > (#[trigger] nodes[k]).score() || nodes[i].score()
                        == nodes[k].score() && nodes[i].node_id >= nodes[k].node_id
            },
{
    crate::cluster::election::lemma_winner(nodes);
    let i = winner(nodes);
    assert forall|k: int| 0 <= k < nodes.len() implies nodes[i].score() > (#[trigger] nodes[k]).score()
        || nodes[i].score() == nodes[k].score() && nodes[i].node_id >= nodes[k].node_id by {
        assert(crate::cluster::election::at_least(nodes[i], nodes[k]));
    }
}

/// A peer is gone when nothing was heard of it for more than seven seconds. A
/// node is never gone to itself.
pub proof fn law_silent_peers_are_gone(keys: Seq<Uuid>, m: Map<Uuid, PeerView>, local_id: Uuid, now_ns: u64, id: Uuid)
    ensures
        dead(keys, m, local_id, now_ns).contains(id) <==> keys.contains(id) && id != local_id && now_ns
            > m[id].last_seen + 7_000_000_000,
    decreases keys.len(),
{
    if keys.len() > 0 {
        let rest = keys.drop_last();
        law_silent_peers_are_gone(rest, m, local_id, now_ns, id);
        let all = dead(keys, m, local_id, now_ns);
        let before = dead(rest, m, local_id, now_ns);
        assert(keys.contains(id) <==> rest.contains(id) || keys.last() == id) by {
            if keys.contains(id) {
                let k = choose|k: int| 0 <= k < keys.len() && keys[k] == id;
                if k < rest.len() {
                    assert(rest[k] == id);
                }
            }
            if rest.contains(id) {
                let k = choose|k: int| 0 <= k < rest.len() && rest[k] == id;
                assert(keys[k] == id);
            }
            assert(keys[keys.len() - 1] == keys.last());
        }
        if before.contains(id) {
            let k = choose|k: int| 0 <= k < before.len() && before[k] == id;
            assert(all[k] == id);
        }
        if all.len() > before.len() {
            assert(all[before.len() as int] == keys.last());
        }
        if all.contains(id) {
            let k = choose|k: int| 0 <= k < all.len() && all[k] == id;
            if k < before.len() {
                assert(before[k] == id);
            }
        }
    }
}

} // verus!
