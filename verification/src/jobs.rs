//! The jobs that a leader has planned.
use crate::config::text_view;
use crate::ids::{hyphenated, uuid_text, Uuid};
use crate::map::IdMap;
use crate::scheduler::planner::{TrainingPlan, TrainingPlanView};
use crate::text::{copy_text, join};
use vstd::prelude::*;

verus! {

/// A plan, and why the job cannot go on.
pub struct Job {
    pub plan: TrainingPlan,
    pub error: Option<String>,
}

/// The model of a [`Job`].
pub struct JobView {
    pub plan: TrainingPlanView,
    pub error: Option<Seq<char>>,
}

impl View for Job {
    type V = JobView;

    open spec fn view(&self) -> JobView {
        JobView { plan: self.plan@, error: text_view(self.error) }
    }
}

impl Job {
    pub open spec fn wf(&self) -> bool {
        self.plan.wf()
    }

    /// An equal copy.
    pub fn duplicate(&self) -> (r: Self)
        requires
            self.wf(),
        ensures
            r.wf(),
            r@ == self@,
    {
        Job { plan: self.plan.duplicate(), error: copy_text(&self.error) }
    }
}

/// The jobs by id.
pub struct Jobs {
    pub entries: IdMap<Job>,
}

impl View for Jobs {
    type V = Map<Uuid, JobView>;

    open spec fn view(&self) -> Map<Uuid, JobView> {
        self.entries@.map_values(|j: Job| j@)
    }
}

/// What is said of a job whose computing node is gone.
pub open spec fn compute_lost(node: Uuid) -> Seq<char> {
    "TRAINPOOL_COMPUTE_LOST: GPU node "@ + hyphenated(node) + " disappeared"@
}

/// A job when a node is gone.
pub open spec fn without_node(j: JobView, node: Uuid) -> JobView {
    if j.plan.compute_nodes.contains(node) {
        JobView { error: Some(compute_lost(node)), ..j }
    } else {
        j
    }
}

/// The jobs after one failed.
pub open spec fn failed(m: Map<Uuid, JobView>, id: Uuid, error: Seq<char>) -> Map<Uuid, JobView> {
    if m.contains_key(id) {
        m.insert(id, JobView { error: Some(error), ..m[id] })
    } else {
        m
    }
}

fn lists(ids: &Vec<Uuid>, id: Uuid) -> (r: bool)
    ensures
        r == ids@.contains(id),
{
    let mut i: usize = 0;
    while i < ids.len()
        invariant
            i <= ids@.len(),
            forall|k: int| 0 <= k < i ==> ids@[k] != id,
        decreases ids@.len() - i,
    {
        if ids[i] == id {
            return true;
        }
        i = i + 1;
    }
    false
}

impl Jobs {
    pub open spec fn wf(&self) -> bool {
        &&& self.entries.wf()
        &&& forall|k: Uuid| #[trigger] self.entries@.contains_key(k) ==> self.entries@[k].wf()
    }

    pub fn new() -> (r: Self)
        ensures
            r.wf(),
            r@ == Map::<Uuid, JobView>::empty(),
    {
        let r = Jobs { entries: IdMap::new() };
        assert(r@ =~= Map::<Uuid, JobView>::empty());
        r
    }

    /// The job of this id.
    pub fn get(&self, id: Uuid) -> (r: Option<&Job>)
        requires
            self.wf(),
        ensures
            match r {
                Some(j) => self@.contains_key(id) && j@ == self@[id] && j.wf(),
                None => !self@.contains_key(id),
            },
    {
        self.entries.get(id)
    }

    /// Takes in a job.
    pub fn insert(&mut self, job: Job)
        requires
            old(self).wf(),
            job.wf(),
        ensures
            final(self).wf(),
            final(self)@ == old(self)@.insert(job.plan.job_id, job@),
    {
        let ghost before = *self;
        let ghost shown = job@;
        let id: Uuid = job.plan.job_id;
        let _ = self.entries.insert(id, job);
        proof {
            assert(self@ =~= before@.insert(id, shown));
        }
    }

    /// Fails every job that computes on a node.
    pub fn lose_compute(&mut self, node: Uuid)
        requires
            old(self).wf(),
        ensures
            final(self).wf(),
            final(self)@ == old(self)@.map_values(|j: JobView| without_node(j, node)),
    {
        let ghost before = *self;
        let ghost keys = self.entries.keys();
        let n: usize = self.entries.len();
        let mut i: usize = 0;
        proof {
            before.entries.lemma_keys();
        }
        while i < n
            invariant
                self.wf(),
                before.wf(),
                keys == before.entries.keys(),
                self.entries.keys() == keys,
                n == keys.len(),
                i <= n,
                forall|a: int, b: int| 0 <= a < b < keys.len() ==> keys[a] < keys[b],
                forall|k: Uuid| #[trigger] before@.contains_key(k) <==> keys.contains(k),
                self@.dom() == before@.dom(),
                forall|j: int| 0 <= j < i ==> self@[#[trigger] keys[j]] == without_node(before@[keys[j]], node),
                forall|j: int| i <= j < n ==> self@[#[trigger] keys[j]] == before@[keys[j]],
            decreases n - i,
        {
            let ghost earlier = *self;
            proof {
                earlier.entries.lemma_keys();
                assert(earlier@[keys[i as int]] == before@[keys[i as int]]);
                assert(earlier.entries@.contains_key(keys[i as int]));
            }
            let job: &mut Job = self.entries.value_mut(i);
            if lists(&job.plan.compute_nodes, node) {
                let told: String = join("TRAINPOOL_COMPUTE_LOST: GPU node ", uuid_text(node).as_str());
                job.error = Some(join(told.as_str(), " disappeared"));
            }
            proof {
                assert(earlier@[keys[i as int]] == earlier.entries@[keys[i as int]]@);
                assert(self@ =~= earlier@.insert(keys[i as int], without_node(before@[keys[i as int]], node)));
                assert forall|j: int| 0 <= j < i + 1 implies self@[#[trigger] keys[j]] == without_node(
                    before@[keys[j]],
                    node,
                ) by {
                    if j < i {
                        assert(keys[j] < keys[i as int]);
                    }
                }
                assert forall|j: int| i + 1 <= j < n implies self@[#[trigger] keys[j]] == before@[keys[j]] by {
                    assert(keys[i as int] < keys[j]);
                }
                assert(self@.dom() =~= before@.dom());
            }
            i = i + 1;
        }
        proof {
            let lost = before@.map_values(|j: JobView| without_node(j, node));
            assert forall|k: Uuid| #[trigger] self@.contains_key(k) implies self@[k] == lost[k] by {
                assert(before@.contains_key(k));
                let j = choose|j: int| 0 <= j < keys.len() && keys[j] == k;
                assert(self@[keys[j]] == without_node(before@[keys[j]], node));
            }
            assert(self@ =~= lost);
        }
    }

    /// Fails a job, if there is one of this id.
    pub fn fail(&mut self, id: Uuid, error: String)
        requires
            old(self).wf(),
        ensures
            final(self).wf(),
            final(self)@ == failed(old(self)@, id, error@),
    {
        let ghost before = *self;
        let ghost told = error@;
        match self.entries.find(id) {
            Some(p) => {
                proof {
                    assert(before.entries@.contains_key(id));
                }
                let job: &mut Job = self.entries.value_mut(p);
                job.error = Some(error);
            },
            None => {},
        }
        proof {
            assert(self@ =~= failed(before@, id, told));
        }
    }
}

/// A job stays failed when other nodes are lost or other jobs fail: nothing
/// takes an error away.
pub proof fn law_failure_stays(m: Map<Uuid, JobView>, id: Uuid, node: Uuid, other: Uuid, error: Seq<char>)
    requires
        m.contains_key(id),
        m[id].error is Some,
    ensures
        m.map_values(|j: JobView| without_node(j, node))[id].error is Some,
        failed(m, other, error)[id].error is Some,
{
}

} // verus!
