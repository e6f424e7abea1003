//! The cluster as the command line shows it, line by line.
use crate::cli::{bytes_text, format_bytes, format_sdk_metric, sdk_text, Query};
use crate::cluster::election::Leadership;
use crate::ids::{hyphenated, uuid_text, Uuid};
use crate::node::capabilities::{NodeCapabilities, NodeView};
use crate::node::gpu::{GpuCapabilities, GpuView};
use crate::node::memory::beyond;
use crate::protocol::memory::LogicalTrainingMemory;
use crate::protocol::request::ClusterStatus;
use crate::text::{decimal, decimal_text, join, pad_before, pad_behind, to_left, to_right};
use vstd::prelude::*;

verus! {

/// Letters to the label of a figure.
pub const LABEL: usize = 39;

/// The models of lines.
pub open spec fn line_views(v: Seq<String>) -> Seq<Seq<char>> {
    v.map_values(|s: String| s@)
}

fn line(out: &mut Vec<String>, text: String)
    ensures
        line_views(final(out)@) == line_views(old(out)@).push(text@),
{
    let ghost before = out@;
    out.push(text);
    proof {
        assert(line_views(out@) =~= line_views(before).push(text@));
    }
}

/// A figure with its label.
pub open spec fn row(label: Seq<char>, bytes: u64) -> Seq<char> {
    to_left(label, LABEL as nat) + " "@ + bytes_text(bytes)
}

fn push_row(out: &mut Vec<String>, label: &str, bytes: u64)
    ensures
        line_views(final(out)@) == line_views(old(out)@).push(row(label@, bytes)),
{
    line(out, join(join(pad_behind(label, LABEL).as_str(), " ").as_str(), format_bytes(bytes).as_str()));
}

/// A figure of the SDK with its label.
pub open spec fn sdk_row(label: Seq<char>, value: Option<u64>, age_ms: Option<u64>) -> Seq<char> {
    to_left(label, LABEL as nat) + " "@ + sdk_text(value, age_ms)
}

fn push_sdk_row(out: &mut Vec<String>, label: &str, value: Option<u64>, age_ms: Option<u64>)
    ensures
        line_views(final(out)@) == line_views(old(out)@).push(sdk_row(label@, value, age_ms)),
{
    line(
        out,
        join(join(pad_behind(label, LABEL).as_str(), " ").as_str(), format_sdk_metric(value, age_ms).as_str()),
    );
}

/// The figures of the pool.
pub open spec fn pool_rows(m: LogicalTrainingMemory) -> Seq<Seq<char>> {
    seq![
        row("Cluster physical VRAM (inventory)"@, m.cluster_physical_vram),
        row("GPU driver free (daemon snapshot)"@, m.free_vram),
        row("GPU driver used (daemon snapshot)"@, beyond(m.physical_vram as int, m.free_vram as int) as u64),
        row("Cluster usable VRAM (inventory)"@, m.cluster_usable_vram),
        row("Primary GPU physical VRAM"@, m.primary_gpu_physical_vram),
        row("Primary GPU usable ceiling"@, m.primary_gpu_usable_vram),
        row("Job backing capacity"@, m.current_job_backing_capacity),
        row("Physical system RAM"@, m.physical_ram),
        row("Pool RAM budget"@, m.pool_ram_budget),
        row("Allocated pool RAM"@, m.allocated_ram),
        row("Currently allocatable pool RAM"@, m.pool_ram_allocatable),
        row("Job remaining logical capacity"@, m.logical_training_capacity),
    ]
}

/// The figures of the node that computes.
pub open spec fn local_rows(m: LogicalTrainingMemory) -> Seq<Seq<char>> {
    seq![
        ""@,
        "LOCAL COMPUTE-NODE RAM"@,
        row("Physical RAM local"@, m.local_physical_ram),
        row("OS available RAM local"@, m.local_os_available_ram),
        row("TrainPool local RAM budget"@, m.local_pool_ram_budget),
        row("TrainPool local RAM used"@, m.local_pool_ram_used),
        row("Local RAM safety reserve"@, m.local_ram_safety_reserve),
        row("TrainPool local RAM allocatable now"@, m.local_pool_ram_allocatable),
        row("TrainPool remote RAM used"@, m.remote_pool_ram_used),
    ]
}

/// The figures that the SDK reported, with their age.
pub open spec fn sdk_rows(m: LogicalTrainingMemory) -> Seq<Seq<char>> {
    seq![
        ""@,
        "PYTORCH SDK CUDA SNAPSHOT"@,
        sdk_row("GPU physical VRAM"@, m.sdk_physical_vram_bytes, m.sdk_metrics_age_ms),
        sdk_row("GPU driver used"@, m.driver_used_vram_bytes, m.sdk_metrics_age_ms),
        sdk_row("GPU driver free"@, m.driver_free_vram_bytes, m.sdk_metrics_age_ms),
        sdk_row("PyTorch allocated"@, m.torch_allocated_bytes, m.sdk_metrics_age_ms),
        sdk_row("PyTorch reserved"@, m.torch_reserved_bytes, m.sdk_metrics_age_ms),
        sdk_row("PyTorch reclaimable"@, m.torch_reclaimable_bytes, m.sdk_metrics_age_ms),
        sdk_row("TrainPool resident handles"@, m.trainpool_resident_vram_bytes, m.sdk_metrics_age_ms),
        sdk_row("Safe VRAM allocatable now"@, m.safe_vram_allocatable_bytes, m.sdk_metrics_age_ms),
        sdk_row("Configured usable VRAM ceiling"@, m.configured_usable_vram_ceiling_bytes, m.sdk_metrics_age_ms),
        sdk_row("Configured VRAM safety reserve"@, m.configured_vram_safety_reserve_bytes, m.sdk_metrics_age_ms),
    ]
}

/// What is always said of the memory.
pub open spec fn remarks() -> Seq<Seq<char>> {
    seq![
        "Disk spill: DISABLED"@,
        "Logical capacity combines distinct RAM and VRAM tiers; it is not one CUDA allocation or VRAM-speed memory."@,
    ]
}

/// The memory of the cluster.
pub open spec fn memory_text(m: LogicalTrainingMemory) -> Seq<Seq<char>> {
    pool_rows(m) + local_rows(m) + sdk_rows(m) + remarks()
}

fn push_pool_rows(out: &mut Vec<String>, m: &LogicalTrainingMemory)
    ensures
        line_views(final(out)@) == line_views(old(out)@) + pool_rows(*m),
{
    let ghost before = line_views(out@);
    push_row(out, "Cluster physical VRAM (inventory)", m.cluster_physical_vram);
    push_row(out, "GPU driver free (daemon snapshot)", m.free_vram);
    push_row(out, "GPU driver used (daemon snapshot)", m.physical_vram.saturating_sub(m.free_vram));
    push_row(out, "Cluster usable VRAM (inventory)", m.cluster_usable_vram);
    push_row(out, "Primary GPU physical VRAM", m.primary_gpu_physical_vram);
    push_row(out, "Primary GPU usable ceiling", m.primary_gpu_usable_vram);
    push_row(out, "Job backing capacity", m.current_job_backing_capacity);
    push_row(out, "Physical system RAM", m.physical_ram);
    push_row(out, "Pool RAM budget", m.pool_ram_budget);
    push_row(out, "Allocated pool RAM", m.allocated_ram);
    push_row(out, "Currently allocatable pool RAM", m.pool_ram_allocatable);
    push_row(out, "Job remaining logical capacity", m.logical_training_capacity);
    proof {
        assert(line_views(out@) =~= before + pool_rows(*m));
    }
}

fn push_local_rows(out: &mut Vec<String>, m: &LogicalTrainingMemory)
    ensures
        line_views(final(out)@) == line_views(old(out)@) + local_rows(*m),
{
    let ghost before = line_views(out@);
    line(out, "".to_owned());
    line(out, "LOCAL COMPUTE-NODE RAM".to_owned());
    push_row(out, "Physical RAM local", m.local_physical_ram);
    push_row(out, "OS available RAM local", m.local_os_available_ram);
    push_row(out, "TrainPool local RAM budget", m.local_pool_ram_budget);
    push_row(out, "TrainPool local RAM used", m.local_pool_ram_used);
    push_row(out, "Local RAM safety reserve", m.local_ram_safety_reserve);
    push_row(out, "TrainPool local RAM allocatable now", m.local_pool_ram_allocatable);
    push_row(out, "TrainPool remote RAM used", m.remote_pool_ram_used);
    proof {
        assert(line_views(out@) =~= before + local_rows(*m));
    }
}

fn push_sdk_rows(out: &mut Vec<String>, m: &LogicalTrainingMemory)
    ensures
        line_views(final(out)@) == line_views(old(out)@) + sdk_rows(*m),
{
    let ghost before = line_views(out@);
    let age: Option<u64> = m.sdk_metrics_age_ms;
    line(out, "".to_owned());
    line(out, "PYTORCH SDK CUDA SNAPSHOT".to_owned());
    push_sdk_row(out, "GPU physical VRAM", m.sdk_physical_vram_bytes, age);
    push_sdk_row(out, "GPU driver used", m.driver_used_vram_bytes, age);
    push_sdk_row(out, "GPU driver free", m.driver_free_vram_bytes, age);
    push_sdk_row(out, "PyTorch allocated", m.torch_allocated_bytes, age);
    push_sdk_row(out, "PyTorch reserved", m.torch_reserved_bytes, age);
    push_sdk_row(out, "PyTorch reclaimable", m.torch_reclaimable_bytes, age);
    push_sdk_row(out, "TrainPool resident handles", m.trainpool_resident_vram_bytes, age);
    push_sdk_row(out, "Safe VRAM allocatable now", m.safe_vram_allocatable_bytes, age);
    push_sdk_row(out, "Configured usable VRAM ceiling", m.configured_usable_vram_ceiling_bytes, age);
    push_sdk_row(out, "Configured VRAM safety reserve", m.configured_vram_safety_reserve_bytes, age);
    proof {
        assert(line_views(out@) =~= before + sdk_rows(*m));
    }
}

/// Shows the memory of the cluster.
pub fn memory_report(m: &LogicalTrainingMemory) -> (r: Vec<String>)
    ensures
        line_views(r@) == memory_text(*m),
{
    let mut out: Vec<String> = Vec::new();
    proof {
        assert(line_views(out@) =~= Seq::<Seq<char>>::empty());
    }
    push_pool_rows(&mut out, m);
    push_local_rows(&mut out, m);
    push_sdk_rows(&mut out, m);
    line(&mut out, "Disk spill: DISABLED".to_owned());
    line(
        &mut out,
        "Logical capacity combines distinct RAM and VRAM tiers; it is not one CUDA allocation or VRAM-speed memory.".to_owned(),
    );
    proof {
        assert(line_views(out@) =~= memory_text(*m));
    }
    out
}

/// The leader and why it leads.
pub open spec fn leader_text(l: Leadership) -> Seq<Seq<char>> {
    seq![
        "Leader: "@ + match l.leader_id {
            Some(id) => hyphenated(id),
            None => "none"@,
        },
        "Election score: "@ + bytes_text(l.election_score),
        "Reason: highest total physical RAM + physical VRAM; largest UUID breaks ties"@,
        "Leader epoch: "@ + hyphenated(l.leader_epoch),
    ]
}

/// Shows the leader and why it leads.
pub fn leader_report(l: &Leadership) -> (r: Vec<String>)
    ensures
        line_views(r@) == leader_text(*l),
{
    let mut out: Vec<String> = Vec::new();
    proof {
        assert(line_views(out@) =~= Seq::<Seq<char>>::empty());
    }
    let name: String = match l.leader_id {
        Some(id) => uuid_text(id),
        None => "none".to_owned(),
    };
    line(&mut out, join("Leader: ", name.as_str()));
    line(&mut out, join("Election score: ", format_bytes(l.election_score).as_str()));
    line(
        &mut out,
        "Reason: highest total physical RAM + physical VRAM; largest UUID breaks ties".to_owned(),
    );
    line(&mut out, join("Leader epoch: ", uuid_text(l.leader_epoch).as_str()));
    proof {
        assert(line_views(out@) =~= leader_text(*l));
    }
    out
}

/// The first `n` cards of a node, separated by commas.
pub open spec fn cards_text(cards: Seq<GpuView>, n: int) -> Seq<char>
    decreases n,
{
    if n <= 0 {
        Seq::empty()
    } else {
        let card = cards[n - 1].model + " / "@ + bytes_text(cards[n - 1].vram_total);
        if n == 1 {
            card
        } else {
            cards_text(cards, n - 1) + ", "@ + card
        }
    }
}

/// The two lines of a node.
pub open spec fn node_text(n: NodeView, leader: Option<Uuid>, address: Seq<char>) -> Seq<Seq<char>> {
    seq![
        to_left(n.hostname, 16) + " "@ + to_left(
            if leader == Some(n.node_id) {
                "leader"@
            } else {
                "peer"@
            },
            7,
        ) + " "@ + to_right(decimal(n.cpu.logical_cores as nat), 3) + "c    "@ + to_left(
            bytes_text(n.memory.physical_ram_total),
            11,
        ) + " "@ + to_left(bytes_text(n.memory.trainpool_ram_available), 11) + " "@ + if n.gpus.len() == 0 {
            "none (RAM provider)"@
        } else {
            cards_text(n.gpus, n.gpus.len() as int)
        },
        "  "@ + hyphenated(n.node_id) + "  "@ + address,
    ]
}

/// The table of the first `k` nodes.
pub open spec fn nodes_text(nodes: Seq<NodeCapabilities>, leader: Option<Uuid>, addresses: Seq<String>, k: int) -> Seq<
    Seq<char>,
>
    decreases k,
{
    if k <= 0 {
        seq!["NODE             ROLE    CPU     RAM         POOL RAM    GPU / PHYSICAL VRAM"@]
    } else {
        nodes_text(nodes, leader, addresses, k - 1) + node_text(nodes[k - 1]@, leader, addresses[k - 1]@)
    }
}

fn cards_of(node: &NodeCapabilities) -> (r: String)
    ensures
        r@ == cards_text(node@.gpus, node@.gpus.len() as int),
{
    let mut r: String = String::new();
    let mut i: usize = 0;
    proof {
        assert(r@ =~= Seq::<char>::empty());
    }
    while i < node.gpus.len()
        invariant
            i <= node.gpus@.len() == node@.gpus.len(),
            r@ == cards_text(node@.gpus, i as int),
        decreases node.gpus@.len() - i,
    {
        let card: &GpuCapabilities = &node.gpus[i];
        assert(card@ == node@.gpus[i as int]);
        let text: String = join(join(card.model.as_str(), " / ").as_str(), format_bytes(card.vram_total).as_str());
        r =
        if i == 0 {
            text
        } else {
            join(join(r.as_str(), ", ").as_str(), text.as_str())
        };
        i = i + 1;
    }
    r
}

fn push_node(out: &mut Vec<String>, node: &NodeCapabilities, leader: Option<Uuid>, address: &str)
    ensures
        line_views(final(out)@) == line_views(old(out)@) + node_text(node@, leader, address@),
{
    let ghost before = line_views(out@);
    let role: &str = match leader {
        Some(id) => if id == node.node_id {
            "leader"
        } else {
            "peer"
        },
        None => "peer",
    };
    let cards: String = if node.gpus.len() == 0 {
        "none (RAM provider)".to_owned()
    } else {
        cards_of(node)
    };
    let mut text: String = pad_behind(node.hostname.as_str(), 16);
    text.append(" ");
    text.append(pad_behind(role, 7).as_str());
    text.append(" ");
    text.append(pad_before(decimal_text(node.cpu.logical_cores as u64).as_str(), 3).as_str());
    text.append("c    ");
    text.append(pad_behind(format_bytes(node.memory.physical_ram_total).as_str(), 11).as_str());
    text.append(" ");
    text.append(pad_behind(format_bytes(node.memory.trainpool_ram_available).as_str(), 11).as_str());
    text.append(" ");
    text.append(cards.as_str());
    line(out, text);
    line(out, join(join(join("  ", uuid_text(node.node_id).as_str()).as_str(), "  ").as_str(), address));
    proof {
        assert(line_views(out@) =~= before + node_text(node@, leader, address@));
    }
}

/// Shows the nodes, whose addresses have been written out.
pub fn nodes_report(nodes: &Vec<NodeCapabilities>, leader: Option<Uuid>, addresses: &Vec<String>) -> (r: Vec<String>)
    requires
        addresses@.len() == nodes@.len(),
    ensures
        line_views(r@) == nodes_text(nodes@, leader, addresses@, nodes@.len() as int),
{
    let mut out: Vec<String> = Vec::new();
    line(
        &mut out,
        "NODE             ROLE    CPU     RAM         POOL RAM    GPU / PHYSICAL VRAM".to_owned(),
    );
    proof {
        assert(line_views(out@) =~= nodes_text(nodes@, leader, addresses@, 0));
    }
    let mut i: usize = 0;
    while i < nodes.len()
        invariant
            i <= nodes@.len() == addresses@.len(),
            line_views(out@) == nodes_text(nodes@, leader, addresses@, i as int),
        decreases nodes@.len() - i,
    {
        push_node(&mut out, &nodes[i], leader, addresses[i].as_str());
        i = i + 1;
    }
    out
}

/// What a question shows of the cluster.
pub open spec fn report_text(query: Query, status: ClusterStatus, addresses: Seq<String>) -> Seq<Seq<char>> {
    let nodes = nodes_text(status.nodes@, status.leadership.leader_id, addresses, status.nodes@.len() as int);
    match query {
        Query::Nodes => nodes,
        Query::Leader => leader_text(status.leadership),
        Query::Memory => memory_text(status.logical_memory),
        Query::Status => nodes + leader_text(status.leadership) + memory_text(status.logical_memory),
        _ => Seq::empty(),
    }
}

fn push_lines(out: &mut Vec<String>, more: Vec<String>)
    ensures
        line_views(final(out)@) == line_views(old(out)@) + line_views(more@),
{
    let mut more: Vec<String> = more;
    let ghost before = out@;
    let ghost last = more@;
    out.append(&mut more);
    proof {
        assert(line_views(out@) =~= line_views(before) + line_views(last));
    }
}

/// Shows what a question asks of the cluster. The addresses of the nodes have
/// been written out.
pub fn report(query: Query, status: &ClusterStatus, addresses: &Vec<String>) -> (r: Vec<String>)
    requires
        addresses@.len() == status.nodes@.len(),
    ensures
        line_views(r@) == report_text(query, *status, addresses@),
{
    let mut out: Vec<String> = Vec::new();
    proof {
        assert(line_views(out@) =~= Seq::<Seq<char>>::empty());
    }
    match query {
        Query::Nodes => nodes_report(&status.nodes, status.leadership.leader_id, addresses),
        Query::Leader => leader_report(&status.leadership),
        Query::Memory => memory_report(&status.logical_memory),
        Query::Status => {
            push_lines(&mut out, nodes_report(&status.nodes, status.leadership.leader_id, addresses));
            push_lines(&mut out, leader_report(&status.leadership));
            push_lines(&mut out, memory_report(&status.logical_memory));
            proof {
                assert(line_views(out@) =~= report_text(query, *status, addresses@));
            }
            out
        },
        _ => out,
    }
}

} // verus!
