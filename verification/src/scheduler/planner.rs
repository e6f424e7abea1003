//! Plans: the one card that computes and the nodes that hold its data.
use crate::cluster::election::Leadership;
use crate::double::{Double, ONE};
use crate::error::Error;
use crate::ids::{fresh_uuid, Uuid};
use crate::map::IdMap;
use crate::node::capabilities::{node_capabilities_views, NodeCapabilities, NodeView};
use crate::node::gpu::GpuCapabilities;
use crate::scheduler::topology::{LinkEstimate, Topology};
use crate::text::{characters, same_text};
use vstd::prelude::*;

verus! {

/// A card that a job computes on.
#[derive(Clone, Debug)]
pub struct GpuAssignment {
    pub node_id: Uuid,
    pub gpu_id: String,
    pub usable_bytes: u64,
    /// The part of the job that this card takes.
    pub capacity_share: Double,
}

/// The model of [`GpuAssignment`].
pub struct GpuAssignmentView {
    pub node_id: Uuid,
    pub gpu_id: Seq<char>,
    pub usable_bytes: u64,
    pub capacity_share: Double,
}

impl View for GpuAssignment {
    type V = GpuAssignmentView;

    open spec fn view(&self) -> GpuAssignmentView {
        GpuAssignmentView {
            node_id: self.node_id,
            gpu_id: self.gpu_id@,
            usable_bytes: self.usable_bytes,
            capacity_share: self.capacity_share,
        }
    }
}

impl GpuAssignment {
    /// An equal copy.
    pub fn duplicate(&self) -> (r: Self)
        ensures
            r@ == self@,
    {
        GpuAssignment {
            node_id: self.node_id,
            gpu_id: self.gpu_id.clone(),
            usable_bytes: self.usable_bytes,
            capacity_share: self.capacity_share,
        }
    }
}

/// The models of several.
pub open spec fn gpu_assignment_views(s: Seq<GpuAssignment>) -> Seq<GpuAssignmentView> {
    s.map_values(|x: GpuAssignment| x@)
}

/// Equal copies of several.
pub fn copy_gpu_assignment(items: &Vec<GpuAssignment>) -> (r: Vec<GpuAssignment>)
    ensures
        gpu_assignment_views(r@) == gpu_assignment_views(items@),
{
    let mut r: Vec<GpuAssignment> = Vec::new();
    let mut i: usize = 0;
    while i < items.len()
        invariant
            i <= items@.len(),
            r@.len() == i,
            forall|k: int| 0 <= k < i ==> (#[trigger] r@[k])@ == items@[k]@,
        decreases items@.len() - i,
    {
        r.push(items[i].duplicate());
        i = i + 1;
    }
    assert(gpu_assignment_views(r@) =~= gpu_assignment_views(items@));
    r
}

/// A stage of a job and what it keeps on a card at once.
#[derive(Clone, Debug)]
pub struct StageSpec {
    pub name: String,
    pub working_set_bytes: u64,
}

/// The model of [`StageSpec`].
pub struct StageSpecView {
    pub name: Seq<char>,
    pub working_set_bytes: u64,
}

impl View for StageSpec {
    type V = StageSpecView;

    open spec fn view(&self) -> StageSpecView {
        StageSpecView {
            name: self.name@,
            working_set_bytes: self.working_set_bytes,
        }
    }
}

impl StageSpec {
    /// An equal copy.
    pub fn duplicate(&self) -> (r: Self)
        ensures
            r@ == self@,
    {
        StageSpec {
            name: self.name.clone(),
            working_set_bytes: self.working_set_bytes,
        }
    }
}

/// The models of several.
pub open spec fn stage_spec_views(s: Seq<StageSpec>) -> Seq<StageSpecView> {
    s.map_values(|x: StageSpec| x@)
}

/// A stage and the card that it runs on.
#[derive(Clone, Debug)]
pub struct StageAssignment {
    pub stage: String,
    pub node_id: Uuid,
    pub gpu_id: String,
}

/// The model of [`StageAssignment`].
pub struct StageAssignmentView {
    pub stage: Seq<char>,
    pub node_id: Uuid,
    pub gpu_id: Seq<char>,
}

impl View for StageAssignment {
    type V = StageAssignmentView;

    open spec fn view(&self) -> StageAssignmentView {
        StageAssignmentView {
            stage: self.stage@,
            node_id: self.node_id,
            gpu_id: self.gpu_id@,
        }
    }
}

impl StageAssignment {
    /// An equal copy.
    pub fn duplicate(&self) -> (r: Self)
        ensures
            r@ == self@,
    {
        StageAssignment {
            stage: self.stage.clone(),
            node_id: self.node_id,
            gpu_id: self.gpu_id.clone(),
        }
    }
}

/// The models of several.
pub open spec fn stage_assignment_views(s: Seq<StageAssignment>) -> Seq<StageAssignmentView> {
    s.map_values(|x: StageAssignment| x@)
}

/// Equal copies of several.
pub fn copy_stage_assignment(items: &Vec<StageAssignment>) -> (r: Vec<StageAssignment>)
    ensures
        stage_assignment_views(r@) == stage_assignment_views(items@),
{
    let mut r: Vec<StageAssignment> = Vec::new();
    let mut i: usize = 0;
    while i < items.len()
        invariant
            i <= items@.len(),
            r@.len() == i,
            forall|k: int| 0 <= k < i ==> (#[trigger] r@[k])@ == items@[k]@,
        decreases items@.len() - i,
    {
        r.push(items[i].duplicate());
        i = i + 1;
    }
    assert(stage_assignment_views(r@) =~= stage_assignment_views(items@));
    r
}

/// How a job is spread over the cluster.
pub struct TrainingPlan {
    pub job_id: Uuid,
    pub leader_id: Uuid,
    pub leader_epoch: Uuid,
    pub strategy: String,
    pub compute_nodes: Vec<Uuid>,
    pub gpu_assignments: Vec<GpuAssignment>,
    pub memory_nodes: Vec<Uuid>,
    pub tensor_placement_policy: String,
    pub topology: Topology,
    pub memory_budgets: IdMap<u64>,
    pub stages: Vec<StageAssignment>,
    pub execution_supported: bool,
}

/// The model of a [`TrainingPlan`].
pub struct TrainingPlanView {
    pub job_id: Uuid,
    pub leader_id: Uuid,
    pub leader_epoch: Uuid,
    pub strategy: Seq<char>,
    pub compute_nodes: Seq<Uuid>,
    pub gpu_assignments: Seq<GpuAssignmentView>,
    pub memory_nodes: Seq<Uuid>,
    pub tensor_placement_policy: Seq<char>,
    pub topology: Seq<LinkEstimate>,
    pub memory_budgets: Map<Uuid, u64>,
    pub stages: Seq<StageAssignmentView>,
    pub execution_supported: bool,
}

impl View for TrainingPlan {
    type V = TrainingPlanView;

    open spec fn view(&self) -> TrainingPlanView {
        TrainingPlanView {
            job_id: self.job_id,
            leader_id: self.leader_id,
            leader_epoch: self.leader_epoch,
            strategy: self.strategy@,
            compute_nodes: self.compute_nodes@,
            gpu_assignments: gpu_assignment_views(self.gpu_assignments@),
            memory_nodes: self.memory_nodes@,
            tensor_placement_policy: self.tensor_placement_policy@,
            topology: self.topology@,
            memory_budgets: self.memory_budgets@,
            stages: stage_assignment_views(self.stages@),
            execution_supported: self.execution_supported,
        }
    }
}

impl TrainingPlan {
    pub open spec fn wf(&self) -> bool {
        self.memory_budgets.wf()
    }

    /// An equal copy.
    pub fn duplicate(&self) -> (r: Self)
        requires
            self.wf(),
        ensures
            r.wf(),
            r@ == self@,
    {
        let compute_nodes: Vec<Uuid> = self.compute_nodes.clone();
        assert(compute_nodes@ =~= self.compute_nodes@);
        let memory_nodes: Vec<Uuid> = self.memory_nodes.clone();
        assert(memory_nodes@ =~= self.memory_nodes@);
        TrainingPlan {
            job_id: self.job_id,
            leader_id: self.leader_id,
            leader_epoch: self.leader_epoch,
            strategy: self.strategy.clone(),
            compute_nodes,
            gpu_assignments: copy_gpu_assignment(&self.gpu_assignments),
            memory_nodes,
            tensor_placement_policy: self.tensor_placement_policy.clone(),
            topology: self.topology.duplicate(),
            memory_budgets: self.memory_budgets.duplicate(),
            stages: copy_stage_assignment(&self.stages),
            execution_supported: self.execution_supported,
        }
    }
}

/// Whether one text comes before another: character by character, a shorter
/// one before what it begins.
pub open spec fn text_before(a: Seq<char>, b: Seq<char>) -> bool
    decreases a.len(),
{
    if b.len() == 0 {
        false
    } else if a.len() == 0 {
        true
    } else if a[0] != b[0] {
        a[0] < b[0]
    } else {
        text_before(a.skip(1), b.skip(1))
    }
}

fn comes_before(a: &Vec<char>, b: &Vec<char>) -> (r: bool)
    ensures
        r == text_before(a@, b@),
{
    let mut i: usize = 0;
    proof {
        assert(a@.skip(0) =~= a@);
        assert(b@.skip(0) =~= b@);
    }
    while i < a.len() && i < b.len()
        invariant
            i <= a@.len(),
            i <= b@.len(),
            text_before(a@, b@) == text_before(a@.skip(i as int), b@.skip(i as int)),
        decreases a@.len() - i,
    {
        proof {
            assert(a@.skip(i as int)[0] == a@[i as int]);
            assert(b@.skip(i as int)[0] == b@[i as int]);
            assert(a@.skip(i as int).skip(1) =~= a@.skip(i + 1));
            assert(b@.skip(i as int).skip(1) =~= b@.skip(i + 1));
        }
        if a[i] != b[i] {
            return a[i] < b[i];
        }
        i = i + 1;
    }
    i < b.len()
}

/// A card that a job could compute on.
#[derive(Clone, Debug)]
pub struct Card {
    pub node_id: Uuid,
    pub gpu_id: String,
    pub usable_bytes: u64,
    pub vram_total: u64,
}

/// The model of [`Card`].
pub struct CardView {
    pub node_id: Uuid,
    pub gpu_id: Seq<char>,
    pub usable_bytes: u64,
    pub vram_total: u64,
}

impl View for Card {
    type V = CardView;

    open spec fn view(&self) -> CardView {
        CardView {
            node_id: self.node_id,
            gpu_id: self.gpu_id@,
            usable_bytes: self.usable_bytes,
            vram_total: self.vram_total,
        }
    }
}

/// The whole of a job on a card.
pub open spec fn assigned(c: CardView) -> GpuAssignmentView {
    GpuAssignmentView {
        node_id: c.node_id,
        gpu_id: c.gpu_id,
        usable_bytes: c.usable_bytes,
        capacity_share: Double { bits: ONE },
    }
}

/// The cards of a node that a job could compute on.
pub open spec fn node_cards(n: NodeView, upto: int) -> Seq<CardView>
    decreases upto,
{
    if upto <= 0 {
        Seq::empty()
    } else {
        let g = n.gpus[upto - 1];
        let rest = node_cards(n, upto - 1);
        if g.usable_vram > 0 {
            rest.push(
                CardView {
                    node_id: n.node_id,
                    gpu_id: g.uuid,
                    usable_bytes: g.usable_vram,
                    vram_total: g.vram_total,
                },
            )
        } else {
            rest
        }
    }
}

/// The cards of all nodes that compute.
pub open spec fn cards(nodes: Seq<NodeView>) -> Seq<CardView>
    decreases nodes.len(),
{
    if nodes.len() == 0 {
        Seq::empty()
    } else if nodes.last().runtime.gpu_compute {
        cards(nodes.drop_last()) + node_cards(nodes.last(), nodes.last().gpus.len() as int)
    } else {
        cards(nodes.drop_last())
    }
}

/// Whether a card is chosen over another: the one with more to use, then the
/// one whose id comes first, then that of the node with the smaller id.
pub open spec fn chosen_over(a: CardView, b: CardView) -> bool {
    if a.usable_bytes != b.usable_bytes {
        a.usable_bytes > b.usable_bytes
    } else if a.gpu_id != b.gpu_id {
        text_before(a.gpu_id, b.gpu_id)
    } else {
        a.node_id < b.node_id
    }
}

/// The card that is chosen over the others; of equals the first.
pub open spec fn first_choice(cards: Seq<CardView>) -> Option<CardView>
    decreases cards.len(),
{
    if cards.len() == 0 {
        None
    } else {
        match first_choice(cards.drop_last()) {
            None => Some(cards.last()),
            Some(best) => if chosen_over(cards.last(), best) {
                Some(cards.last())
            } else {
                Some(best)
            },
        }
    }
}

/// The one card that a job computes on.
pub open spec fn primary(nodes: Seq<NodeView>) -> Option<CardView> {
    first_choice(cards(nodes))
}

/// The one card that a job computes on: the largest, and of equals the one
/// whose id comes first.
pub fn primary_gpu(nodes: &Vec<NodeCapabilities>) -> (r: Option<Card>)
    ensures
        match r {
            Some(g) => primary(node_capabilities_views(nodes@)) == Some(g@),
            None => primary(node_capabilities_views(nodes@)) is None,
        },
{
    let ghost all = node_capabilities_views(nodes@);
    let mut best: Option<Card> = None;
    let mut i: usize = 0;
    while i < nodes.len()
        invariant
            all == node_capabilities_views(nodes@),
            i <= nodes@.len(),
            match best {
                Some(g) => first_choice(cards(all.take(i as int))) == Some(g@),
                None => first_choice(cards(all.take(i as int))) is None,
            },
        decreases nodes@.len() - i,
    {
        let n: &NodeCapabilities = &nodes[i];
        let ghost before = cards(all.take(i as int));
        proof {
            assert(all.take(i + 1).drop_last() =~= all.take(i as int));
            assert(all.take(i + 1).last() == n@);
        }
        if n.runtime.gpu_compute {
            let mut j: usize = 0;
            proof {
                assert(before + node_cards(n@, 0) =~= before);
            }
            while j < n.gpus.len()
                invariant
                    n@.gpus.len() == n.gpus@.len(),
                    j <= n.gpus@.len(),
                    match best {
                        Some(g) => first_choice(before + node_cards(n@, j as int)) == Some(g@),
                        None => first_choice(before + node_cards(n@, j as int)) is None,
                    },
                decreases n.gpus@.len() - j,
            {
                let gpu: &GpuCapabilities = &n.gpus[j];
                proof {
                    assert(n@.gpus[j as int] == gpu@);
                }
                let ghost so_far = before + node_cards(n@, j as int);
                if gpu.usable_vram > 0 {
                    let candidate = Card {
                        node_id: n.node_id,
                        gpu_id: gpu.uuid.clone(),
                        usable_bytes: gpu.usable_vram,
                        vram_total: gpu.vram_total,
                    };
                    proof {
                        assert(before + node_cards(n@, j + 1) =~= so_far.push(candidate@));
                        assert(so_far.push(candidate@).drop_last() =~= so_far);
                    }
                    best =
                    match best {
                        None => Some(candidate),
                        Some(b) => if preferred(&candidate, &b) {
                            Some(candidate)
                        } else {
                            Some(b)
                        },
                    };
                } else {
                    proof {
                        assert(before + node_cards(n@, j + 1) =~= so_far);
                    }
                }
                j = j + 1;
            }
        }
        i = i + 1;
    }
    proof {
        assert(all.take(i as int) =~= all);
    }
    best
}

fn preferred(a: &Card, b: &Card) -> (r: bool)
    ensures
        r == chosen_over(a@, b@),
{
    if a.usable_bytes != b.usable_bytes {
        return a.usable_bytes > b.usable_bytes;
    }
    if !same_text(a.gpu_id.as_str(), b.gpu_id.as_str()) {
        return comes_before(&characters(a.gpu_id.as_str()), &characters(b.gpu_id.as_str()));
    }
    a.node_id < b.node_id
}

/// The first stage that does not fit on a card.
pub open spec fn too_large(stages: Seq<StageSpecView>, usable: u64) -> Option<Seq<char>>
    decreases stages.len(),
{
    if stages.len() == 0 {
        None
    } else {
        match too_large(stages.drop_last(), usable) {
            Some(name) => Some(name),
            None => if stages.last().working_set_bytes > usable {
                Some(stages.last().name)
            } else {
                None
            },
        }
    }
}

/// Why there is no plan.
pub open spec fn plan_refusal(nodes: Seq<NodeView>, leader: Leadership, stages: Seq<StageSpecView>) -> Option<Seq<char>> {
    let card = primary(nodes);
    if stages.len() > 0 && card is None {
        Some(Error::NoCuda.text())
    } else if card is Some && too_large(stages, card->0.usable_bytes) is Some {
        Some(
            "TRAINPOOL_UNSUPPORTED_WORKING_SET: "@ + too_large(stages, card->0.usable_bytes)->0
                + " exceeds primary GPU capacity"@,
        )
    } else if leader.leader_id is None {
        Some(Error::NoLeader.text())
    } else {
        None
    }
}

/// The nodes that give RAM.
pub open spec fn providers(nodes: Seq<NodeView>) -> Seq<Uuid>
    decreases nodes.len(),
{
    if nodes.len() == 0 {
        Seq::empty()
    } else if nodes.last().runtime.ram_provider {
        providers(nodes.drop_last()).push(nodes.last().node_id)
    } else {
        providers(nodes.drop_last())
    }
}

/// The budgets of the nodes that give RAM.
pub open spec fn budgets(nodes: Seq<NodeView>) -> Map<Uuid, u64>
    decreases nodes.len(),
{
    if nodes.len() == 0 {
        Map::empty()
    } else if nodes.last().runtime.ram_provider {
        budgets(nodes.drop_last()).insert(nodes.last().node_id, nodes.last().memory.trainpool_ram_budget)
    } else {
        budgets(nodes.drop_last())
    }
}

/// The plan of a job: one card computes, and every node that gives RAM holds data.
pub open spec fn plan_of(
    nodes: Seq<NodeView>,
    leader: Leadership,
    topology: Seq<LinkEstimate>,
    stages: Seq<StageSpecView>,
    job_id: Uuid,
) -> TrainingPlanView {
    let card = primary(nodes);
    TrainingPlanView {
        job_id,
        leader_id: leader.leader_id->0,
        leader_epoch: leader.leader_epoch,
        strategy: if card is None {
            "MemoryOnly"@
        } else {
            "SingleGpuDistributedMemory"@
        },
        compute_nodes: match card {
            Some(g) => seq![g.node_id],
            None => Seq::empty(),
        },
        gpu_assignments: match card {
            Some(g) => seq![assigned(g)],
            None => Seq::empty(),
        },
        memory_nodes: providers(nodes),
        tensor_placement_policy: "vram-then-local-ram-then-remote-cost"@,
        topology,
        memory_budgets: budgets(nodes),
        stages: stages.map_values(
            |s: StageSpecView|
                StageAssignmentView { stage: s.name, node_id: card->0.node_id, gpu_id: card->0.gpu_id },
        ),
        execution_supported: card is Some,
    }
}

/// How jobs are planned.
pub trait TrainingPlanner {
    /// The plan of a job under the given id, or why there is none.
    fn plan_as(
        &self,
        nodes: &Vec<NodeCapabilities>,
        leader: &Leadership,
        topology: &Topology,
        stages: &Vec<StageSpec>,
        job_id: Uuid,
    ) -> (r: Result<TrainingPlan, Error>)
        ensures
            match r {
                Ok(p) => {
                    &&& plan_refusal(node_capabilities_views(nodes@), *leader, stage_spec_views(stages@)) is None
                    &&& p.wf()
                    &&& p@ == plan_of(
                        node_capabilities_views(nodes@),
                        *leader,
                        topology@,
                        stage_spec_views(stages@),
                        job_id,
                    )
                },
                Err(e) => plan_refusal(node_capabilities_views(nodes@), *leader, stage_spec_views(stages@)) == Some(
                    e.text(),
                ),
            },
    ;
}

/// One card computes; everything else is memory.
pub struct CapacityPlanner;

impl CapacityPlanner {
    /// The plan of a new job. Its id is random.
    pub fn plan(
        &self,
        nodes: &Vec<NodeCapabilities>,
        leader: &Leadership,
        topology: &Topology,
        stages: &Vec<StageSpec>,
    ) -> (r: Result<TrainingPlan, Error>)
        ensures
            match r {
                Ok(p) => {
                    &&& plan_refusal(node_capabilities_views(nodes@), *leader, stage_spec_views(stages@)) is None
                    &&& p.wf()
                    &&& p@ == plan_of(
                        node_capabilities_views(nodes@),
                        *leader,
                        topology@,
                        stage_spec_views(stages@),
                        p@.job_id,
                    )
                },
                Err(e) => plan_refusal(node_capabilities_views(nodes@), *leader, stage_spec_views(stages@)) == Some(
                    e.text(),
                ),
            },
    {
        self.plan_as(nodes, leader, topology, stages, fresh_uuid())
    }
}

fn find_too_large(stages: &Vec<StageSpec>, usable: u64) -> (r: Option<usize>)
    ensures
        match r {
            Some(i) => i < stages@.len() && too_large(stage_spec_views(stages@), usable) == Some(
                stages@[i as int].name@,
            ),
            None => too_large(stage_spec_views(stages@), usable) is None,
        },
{
    let ghost all = stage_spec_views(stages@);
    let mut found: Option<usize> = None;
    let mut i: usize = 0;
    while i < stages.len()
        invariant
            all == stage_spec_views(stages@),
            i <= stages@.len(),
            match found {
                Some(k) => k < i && too_large(all.take(i as int), usable) == Some(stages@[k as int].name@),
                None => too_large(all.take(i as int), usable) is None,
            },
        decreases stages@.len() - i,
    {
        proof {
            assert(all.take(i + 1).drop_last() =~= all.take(i as int));
            assert(all.take(i + 1).last() == stages@[i as int]@);
        }
        if found.is_none() && stages[i].working_set_bytes > usable {
            found = Some(i);
        }
        i = i + 1;
    }
    proof {
        assert(all.take(i as int) =~= all);
    }
    found
}

impl TrainingPlanner for CapacityPlanner {
    fn plan_as(
        &self,
        nodes: &Vec<NodeCapabilities>,
        leader: &Leadership,
        topology: &Topology,
        stages: &Vec<StageSpec>,
        job_id: Uuid,
    ) -> (r: Result<TrainingPlan, Error>) {
        let ghost all = node_capabilities_views(nodes@);
        let ghost wanted = stage_spec_views(stages@);
        let card: Option<Card> = primary_gpu(nodes);
        let ghost picked = primary(all);
        if stages.len() > 0 && card.is_none() {
            return Err(Error::NoCuda);
        }
        let mut assignments: Vec<StageAssignment> = Vec::new();
        match &card {
            Some(g) => {
                match find_too_large(stages, g.usable_bytes) {
                    Some(i) => {
                        return Err(Error::WorkingSet { stage: stages[i].name.clone() });
                    },
                    None => {},
                }
                let mut i: usize = 0;
                while i < stages.len()
                    invariant
                        i <= stages@.len(),
                        assignments@.len() == i,
                        forall|k: int|
                            0 <= k < i ==> (#[trigger] assignments@[k])@ == (StageAssignmentView {
                                stage: stages@[k].name@,
                                node_id: g.node_id,
                                gpu_id: g.gpu_id@,
                            }),
                    decreases stages@.len() - i,
                {
                    assignments.push(
                        StageAssignment {
                            stage: stages[i].name.clone(),
                            node_id: g.node_id,
                            gpu_id: g.gpu_id.clone(),
                        },
                    );
                    i = i + 1;
                }
            },
            None => {},
        }
        let leader_id: Uuid = match leader.leader_id {
            Some(id) => id,
            None => {
                return Err(Error::NoLeader);
            },
        };
        proof {
            assert(stage_assignment_views(assignments@) =~= plan_of(all, *leader, topology@, wanted, job_id).stages);
        }
        let mut memory_nodes: Vec<Uuid> = Vec::new();
        let mut memory_budgets: IdMap<u64> = IdMap::new();
        let mut i: usize = 0;
        while i < nodes.len()
            invariant
                all == node_capabilities_views(nodes@),
                i <= nodes@.len(),
                memory_budgets.wf(),
                memory_nodes@ == providers(all.take(i as int)),
                memory_budgets@ == budgets(all.take(i as int)),
            decreases nodes@.len() - i,
        {
            let n: &NodeCapabilities = &nodes[i];
            proof {
                assert(all.take(i + 1).drop_last() =~= all.take(i as int));
                assert(all.take(i + 1).last() == n@);
            }
            if n.runtime.ram_provider {
                memory_nodes.push(n.node_id);
                let _ = memory_budgets.insert(n.node_id, n.memory.trainpool_ram_budget);
            }
            i = i + 1;
        }
        proof {
            assert(all.take(i as int) =~= all);
        }
        let execution_supported: bool = card.is_some();
        let strategy: String = if card.is_none() {
            "MemoryOnly".to_owned()
        } else {
            "SingleGpuDistributedMemory".to_owned()
        };
        let mut compute_nodes: Vec<Uuid> = Vec::new();
        let mut gpu_assignments: Vec<GpuAssignment> = Vec::new();
        match card {
            Some(g) => {
                compute_nodes.push(g.node_id);
                gpu_assignments.push(
                    GpuAssignment {
                        node_id: g.node_id,
                        gpu_id: g.gpu_id,
                        usable_bytes: g.usable_bytes,
                        capacity_share: Double { bits: ONE },
                    },
                );
            },
            None => {},
        }
        proof {
            let goal = plan_of(all, *leader, topology@, wanted, job_id);
            assert(compute_nodes@ =~= goal.compute_nodes);
            assert(gpu_assignment_views(gpu_assignments@) =~= goal.gpu_assignments);
        }
        Ok(
            TrainingPlan {
                job_id,
                leader_id,
                leader_epoch: leader.leader_epoch,
                strategy,
                compute_nodes,
                gpu_assignments,
                memory_nodes,
                tensor_placement_policy: "vram-then-local-ram-then-remote-cost".to_owned(),
                topology: topology.duplicate(),
                memory_budgets,
                stages: assignments,
                execution_supported,
            },
        )
    }
}

/// Whether a job computes on a node.
pub open spec fn computes_on(plan: TrainingPlanView, node: Uuid) -> bool {
    exists|i: int| 0 <= i < plan.gpu_assignments.len() && (#[trigger] plan.gpu_assignments[i]).node_id == node
}

/// Lets through the nodes that a job computes on.
pub fn require_cuda(plan: &TrainingPlan, node: Uuid) -> (r: Result<(), Error>)
    ensures
        r == if computes_on(plan@, node) {
            Ok(())
        } else {
            Err(Error::NoCudaNode { node })
        },
{
    let mut i: usize = 0;
    while i < plan.gpu_assignments.len()
        invariant
            i <= plan.gpu_assignments@.len(),
            forall|k: int| 0 <= k < i ==> (#[trigger] plan.gpu_assignments@[k]).node_id != node,
        decreases plan.gpu_assignments@.len() - i,
    {
        if plan.gpu_assignments[i].node_id == node {
            proof {
                assert(plan@.gpu_assignments[i as int].node_id == node);
            }
            return Ok(());
        }
        i = i + 1;
    }
    proof {
        if computes_on(plan@, node) {
            let k = choose|k: int|
                0 <= k < plan@.gpu_assignments.len() && (#[trigger] plan@.gpu_assignments[k]).node_id == node;
            assert(plan.gpu_assignments@[k].node_id == node);
        }
    }
    Err(Error::NoCudaNode { node })
}

proof fn lemma_first_choice(c: Seq<CardView>)
    ensures
        first_choice(c) is None <==> c.len() == 0,
        first_choice(c) is Some ==> c.contains(first_choice(c)->0),
        forall|i: int| 0 <= i < c.len() ==> !chosen_over(#[trigger] c[i], first_choice(c)->0),
    decreases c.len(),
{
    if c.len() > 0 {
        let rest = c.drop_last();
        lemma_first_choice(rest);
        let best = first_choice(c)->0;
        let last = c.last();
        assert(c[c.len() - 1] == last);
        lemma_text_irreflexive(last.gpu_id);
        if rest.len() > 0 {
            let was = first_choice(rest)->0;
            let k = choose|k: int| 0 <= k < rest.len() && rest[k] == was;
            assert(c[k] == was);
            assert forall|i: int| 0 <= i < c.len() implies !chosen_over(#[trigger] c[i], best) by {
                if i < rest.len() {
                    assert(rest[i] == c[i]);
                    assert(!chosen_over(rest[i], was));
                    if best == last && chosen_over(c[i], last) {
                        lemma_chosen_transitive(c[i], last, was);
                    }
                }
            }
        }
    }
}

proof fn lemma_text_irreflexive(a: Seq<char>)
    ensures
        !text_before(a, a),
    decreases a.len(),
{
    if a.len() > 0 {
        lemma_text_irreflexive(a.skip(1));
    }
}

proof fn lemma_text_transitive(a: Seq<char>, b: Seq<char>, c: Seq<char>)
    requires
        text_before(a, b),
        text_before(b, c),
    ensures
        text_before(a, c),
    decreases a.len(),
{
    if a.len() > 0 && a[0] == b[0] && b[0] == c[0] {
        lemma_text_transitive(a.skip(1), b.skip(1), c.skip(1));
    }
}

proof fn lemma_text_total(a: Seq<char>, b: Seq<char>)
    ensures
        a == b || text_before(a, b) || text_before(b, a),
    decreases a.len(),
{
    if a.len() == 0 {
        if b.len() == 0 {
            assert(a =~= b);
        }
    } else if b.len() > 0 && a[0] == b[0] {
        lemma_text_total(a.skip(1), b.skip(1));
        if a.skip(1) == b.skip(1) {
            assert forall|i: int| 0 <= i < a.len() implies a[i] == b[i] by {
                if i > 0 {
                    assert(a.skip(1)[i - 1] == b.skip(1)[i - 1]);
                }
            }
            assert(a.skip(1).len() == b.skip(1).len());
            assert(a =~= b);
        }
    }
}

proof fn lemma_chosen_transitive(a: CardView, b: CardView, c: CardView)
    requires
        chosen_over(a, b),
        chosen_over(b, c),
    ensures
        chosen_over(a, c),
{
    if a.usable_bytes == b.usable_bytes && b.usable_bytes == c.usable_bytes {
        if a.gpu_id != b.gpu_id && b.gpu_id != c.gpu_id {
            lemma_text_transitive(a.gpu_id, b.gpu_id, c.gpu_id);
            lemma_text_irreflexive(a.gpu_id);
        }
    }
}

/// No card has more to use than the one that a job computes on.
pub proof fn law_primary_is_largest(nodes: Seq<NodeView>, i: int)
    requires
        0 <= i < cards(nodes).len(),
    ensures
        primary(nodes) is Some,
        primary(nodes)->0.usable_bytes >= cards(nodes)[i].usable_bytes,
        cards(nodes).contains(primary(nodes)->0),
{
    lemma_first_choice(cards(nodes));
}

/// Whether node `i` offers a card.
spec fn offers(nodes: Seq<NodeView>, i: int, g: CardView) -> bool {
    &&& 0 <= i < nodes.len()
    &&& nodes[i].runtime.gpu_compute
    &&& node_cards(nodes[i], nodes[i].gpus.len() as int).contains(g)
}

proof fn lemma_card_owner(nodes: Seq<NodeView>, g: CardView)
    ensures
        cards(nodes).contains(g) <==> exists|i: int| #[trigger] offers(nodes, i, g),
    decreases nodes.len(),
{
    let all = cards(nodes);
    if nodes.len() > 0 {
        let front = nodes.drop_last();
        let rest = cards(front);
        lemma_card_owner(front, g);
        let last = nodes.len() - 1;
        let own = node_cards(nodes.last(), nodes.last().gpus.len() as int);
        if all.contains(g) {
            let k = choose|k: int| 0 <= k < all.len() && all[k] == g;
            if k < rest.len() {
                assert(rest[k] == g);
                assert(rest.contains(g));
                let i = choose|i: int| #[trigger] offers(front, i, g);
                assert(offers(nodes, i, g));
            } else {
                assert(own[k - rest.len()] == g);
                assert(offers(nodes, last, g));
            }
        }
        if exists|i: int| #[trigger] offers(nodes, i, g) {
            let i = choose|i: int| #[trigger] offers(nodes, i, g);
            if i < last {
                assert(offers(front, i, g));
                let k = choose|k: int| 0 <= k < rest.len() && rest[k] == g;
                assert(all[k] == g);
            } else {
                let k = choose|k: int| 0 <= k < own.len() && own[k] == g;
                assert(all[rest.len() + k] == g);
            }
        }
    }
}

/// The card that a job computes on does not depend on the order in which the
/// nodes are known.
pub proof fn law_primary_is_stable(a: Seq<NodeView>, b: Seq<NodeView>)
    requires
        forall|n: NodeView| a.contains(n) <==> b.contains(n),
    ensures
        primary(a) is Some <==> primary(b) is Some,
        primary(a) is Some ==> assigned(primary(a)->0) == assigned(primary(b)->0),
{
    let x = cards(a);
    let y = cards(b);
    assert forall|g: CardView| x.contains(g) <==> y.contains(g) by {
        lemma_card_owner(a, g);
        lemma_card_owner(b, g);
        if x.contains(g) {
            let i = choose|i: int| #[trigger] offers(a, i, g);
            assert(a.contains(a[i]));
            let j = choose|j: int| 0 <= j < b.len() && b[j] == a[i];
            assert(offers(b, j, g));
        }
        if y.contains(g) {
            let i = choose|i: int| #[trigger] offers(b, i, g);
            assert(b.contains(b[i]));
            let j = choose|j: int| 0 <= j < a.len() && a[j] == b[i];
            assert(offers(a, j, g));
        }
    }
    lemma_first_choice(x);
    lemma_first_choice(y);
    if x.len() == 0 {
        if y.len() > 0 {
            assert(y.contains(y[0]));
            assert(x.contains(y[0]));
        }
    } else {
        assert(x.contains(x[0]));
        assert(y.contains(x[0]));
        let p = primary(a)->0;
        let q = primary(b)->0;
        assert(y.contains(p) && x.contains(q));
        let i = choose|i: int| 0 <= i < y.len() && y[i] == p;
        let j = choose|j: int| 0 <= j < x.len() && x[j] == q;
        assert(!chosen_over(y[i], q));
        assert(!chosen_over(x[j], p));
        lemma_text_total(p.gpu_id, q.gpu_id);
    }
}

/// A plan computes on at most one card, and on none exactly where it has no
/// stages to run and there is no card.
pub proof fn law_plan_uses_one_card(
    nodes: Seq<NodeView>,
    leader: Leadership,
    topology: Seq<LinkEstimate>,
    stages: Seq<StageSpecView>,
    job_id: Uuid,
)
    requires
        plan_refusal(nodes, leader, stages) is None,
    ensures
        ({
            let p = plan_of(nodes, leader, topology, stages, job_id);
            &&& p.gpu_assignments.len() <= 1
            &&& p.execution_supported <==> p.gpu_assignments.len() == 1
            &&& stages.len() > 0 ==> p.execution_supported
            &&& p.stages.len() == stages.len()
            &&& forall|i: int|
                0 <= i < p.stages.len() ==> (#[trigger] p.stages[i]).node_id == p.gpu_assignments[0].node_id
                    && stages[i].working_set_bytes <= p.gpu_assignments[0].usable_bytes
        }),
{
    let p = plan_of(nodes, leader, topology, stages, job_id);
    if stages.len() > 0 {
        let usable = primary(nodes)->0.usable_bytes;
        assert forall|i: int| 0 <= i < p.stages.len() implies (#[trigger] p.stages[i]).node_id
            == p.gpu_assignments[0].node_id && stages[i].working_set_bytes <= p.gpu_assignments[0].usable_bytes by {
            lemma_all_fit(stages, usable, i);
        }
    }
}

/// No stage is too large exactly where each of them fits.
pub proof fn lemma_fits(stages: Seq<StageSpecView>, usable: u64)
    ensures
        too_large(stages, usable) is None <==> forall|k: int|
            0 <= k < stages.len() ==> (#[trigger] stages[k]).working_set_bytes <= usable,
    decreases stages.len(),
{
    if stages.len() > 0 {
        let rest = stages.drop_last();
        lemma_fits(rest, usable);
        assert forall|k: int| 0 <= k < rest.len() implies #[trigger] rest[k] == stages[k] by {}
        if forall|k: int| 0 <= k < rest.len() ==> (#[trigger] rest[k]).working_set_bytes <= usable {
            assert forall|k: int| 0 <= k < stages.len() - 1 implies (#[trigger] stages[k]).working_set_bytes <= usable by {
                assert(rest[k].working_set_bytes <= usable);
            }
        } else {
            let k = choose|k: int| 0 <= k < rest.len() && (#[trigger] rest[k]).working_set_bytes > usable;
            assert(stages[k].working_set_bytes > usable);
        }
    }
}

proof fn lemma_all_fit(stages: Seq<StageSpecView>, usable: u64, i: int)
    requires
        too_large(stages, usable) is None,
        0 <= i < stages.len(),
    ensures
        stages[i].working_set_bytes <= usable,
    decreases stages.len(),
{
    if i < stages.len() - 1 {
        lemma_all_fit(stages.drop_last(), usable, i);
    }
}

/// Whether card `j` of node `i` can compute for a job: the node computes, and
/// the card has something to use.
pub open spec fn can_compute(nodes: Seq<NodeView>, i: int, j: int) -> bool {
    &&& 0 <= i < nodes.len()
    &&& nodes[i].runtime.gpu_compute
    &&& 0 <= j < nodes[i].gpus.len()
    &&& nodes[i].gpus[j].usable_vram > 0
}

/// Whether no card comes before card `j` of node `i`: by what there is to use,
/// then by the id of the card, then by that of the node.
pub open spec fn comes_first(nodes: Seq<NodeView>, i: int, j: int) -> bool {
    let g = nodes[i].gpus[j];
    forall|k: int, l: int| #[trigger]
        can_compute(nodes, k, l) ==> {
            let h = nodes[k].gpus[l];
            ||| g.usable_vram > h.usable_vram
            ||| g.usable_vram == h.usable_vram && text_before(g.uuid, h.uuid)
            ||| g.usable_vram == h.usable_vram && g.uuid == h.uuid && nodes[i].node_id <= nodes[k].node_id
        }
}

/// Card `j` of a node.
spec fn card_at(n: NodeView, j: int) -> CardView {
    CardView {
        node_id: n.node_id,
        gpu_id: n.gpus[j].uuid,
        usable_bytes: n.gpus[j].usable_vram,
        vram_total: n.gpus[j].vram_total,
    }
}

proof fn lemma_node_card(n: NodeView, upto: int, j: int)
    requires
        0 <= j < upto <= n.gpus.len(),
        n.gpus[j].usable_vram > 0,
    ensures
        node_cards(n, upto).contains(card_at(n, j)),
    decreases upto,
{
    let all = node_cards(n, upto);
    if j == upto - 1 {
        assert(all.last() == card_at(n, j));
    } else {
        let rest = node_cards(n, upto - 1);
        lemma_node_card(n, upto - 1, j);
        let k = choose|k: int| 0 <= k < rest.len() && rest[k] == card_at(n, j);
        assert(all[k] == card_at(n, j));
    }
}

proof fn lemma_card_seat(n: NodeView, upto: int, g: CardView) -> (j: int)
    requires
        0 <= upto <= n.gpus.len(),
        node_cards(n, upto).contains(g),
    ensures
        0 <= j < upto,
        n.gpus[j].usable_vram > 0,
        g == card_at(n, j),
    decreases upto,
{
    let all = node_cards(n, upto);
    let k = choose|k: int| 0 <= k < all.len() && all[k] == g;
    let rest = node_cards(n, upto - 1);
    if k < rest.len() {
        assert(rest[k] == g);
        lemma_card_seat(n, upto - 1, g)
    } else {
        upto - 1
    }
}

/// A plan computes on the first of all the cards that can compute, alone, and
/// without any such card on none.
pub proof fn law_plan_takes_the_first_card(
    nodes: Seq<NodeView>,
    leader: Leadership,
    topology: Seq<LinkEstimate>,
    stages: Seq<StageSpecView>,
    job_id: Uuid,
)
    ensures
        ({
            let p = plan_of(nodes, leader, topology, stages, job_id);
            if exists|i: int, j: int| can_compute(nodes, i, j) {
                &&& p.strategy == "SingleGpuDistributedMemory"@
                &&& p.execution_supported
                &&& exists|i: int, j: int|
                    {
                        &&& #[trigger] can_compute(nodes, i, j)
                        &&& comes_first(nodes, i, j)
                        &&& p.compute_nodes == seq![nodes[i].node_id]
                        &&& p.gpu_assignments == seq![
                            GpuAssignmentView {
                                node_id: nodes[i].node_id,
                                gpu_id: nodes[i].gpus[j].uuid,
                                usable_bytes: nodes[i].gpus[j].usable_vram,
                                capacity_share: Double { bits: ONE },
                            },
                        ]
                    }
            } else {
                &&& p.strategy == "MemoryOnly"@
                &&& !p.execution_supported
                &&& p.compute_nodes == Seq::<Uuid>::empty()
                &&& p.gpu_assignments == Seq::<GpuAssignmentView>::empty()
            }
        }),
{
    let all = cards(nodes);
    lemma_first_choice(all);
    assert forall|k: int, l: int| #[trigger] can_compute(nodes, k, l) implies all.contains(card_at(nodes[k], l)) by {
        lemma_node_card(nodes[k], nodes[k].gpus.len() as int, l);
        assert(offers(nodes, k, card_at(nodes[k], l)));
        lemma_card_owner(nodes, card_at(nodes[k], l));
    }
    if all.len() > 0 {
        let best = primary(nodes)->0;
        lemma_card_owner(nodes, best);
        let i = choose|i: int| #[trigger] offers(nodes, i, best);
        let j = lemma_card_seat(nodes[i], nodes[i].gpus.len() as int, best);
        assert(can_compute(nodes, i, j));
        assert(comes_first(nodes, i, j)) by {
            assert forall|k: int, l: int| #[trigger] can_compute(nodes, k, l) implies {
                let g = nodes[i].gpus[j];
                let h = nodes[k].gpus[l];
                ||| g.usable_vram > h.usable_vram
                ||| g.usable_vram == h.usable_vram && text_before(g.uuid, h.uuid)
                ||| g.usable_vram == h.usable_vram && g.uuid == h.uuid && nodes[i].node_id <= nodes[k].node_id
            } by {
                let c = card_at(nodes[k], l);
                assert(all.contains(c));
                let x = choose|x: int| 0 <= x < all.len() && all[x] == c;
                assert(!chosen_over(all[x], best));
                lemma_text_total(best.gpu_id, c.gpu_id);
            }
        }
    } else if exists|i: int, j: int| can_compute(nodes, i, j) {
        let (i, j) = choose|i: int, j: int| can_compute(nodes, i, j);
        assert(all.contains(card_at(nodes[i], j)));
    }
}

/// A plan computes in the same place, in whatever order the nodes are known.
pub proof fn law_plan_is_stable(
    a: Seq<NodeView>,
    b: Seq<NodeView>,
    leader: Leadership,
    topology: Seq<LinkEstimate>,
    stages: Seq<StageSpecView>,
    job_id: Uuid,
)
    requires
        forall|n: NodeView| a.contains(n) <==> b.contains(n),
    ensures
        ({
            let p = plan_of(a, leader, topology, stages, job_id);
            let q = plan_of(b, leader, topology, stages, job_id);
            &&& p.gpu_assignments == q.gpu_assignments
            &&& p.compute_nodes == q.compute_nodes
            &&& p.strategy == q.strategy
            &&& p.execution_supported == q.execution_supported
            &&& p.stages == q.stages
        }),
{
    law_primary_is_stable(a, b);
    let p = plan_of(a, leader, topology, stages, job_id);
    let q = plan_of(b, leader, topology, stages, job_id);
    if primary(a) is Some {
        assert(assigned(primary(a)->0).node_id == assigned(primary(b)->0).node_id);
        assert(assigned(primary(a)->0).gpu_id == assigned(primary(b)->0).gpu_id);
        assert(p.stages =~= q.stages);
    }
}

} // verus!
