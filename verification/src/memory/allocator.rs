//! Accounting of the RAM that this node has promised.
use crate::error::Error;
use crate::ids::Uuid;
use crate::map::IdMap;
use vstd::prelude::*;

verus! {

/// What one job holds, and the most it has held.
pub struct JobRamAccounting {
    pub owned: u64,
    pub peak: u64,
}

/// One live reservation.
pub struct LedgerEntry {
    pub ticket: nat,
    pub bytes: u64,
    pub job: Option<Uuid>,
}

/// A promise of `bytes` that counts until it is handed back.
pub struct Reservation {
    ticket: Ghost<nat>,
    bytes: u64,
    job: Option<Uuid>,
}

impl Reservation {
    /// The line that this reservation has in the ledger.
    pub closed spec fn entry(&self) -> LedgerEntry {
        LedgerEntry { ticket: self.ticket@, bytes: self.bytes, job: self.job }
    }
}

/// The larger of a peak and what is held now.
pub open spec fn risen(peak: u64, owned: int) -> u64 {
    if peak >= owned {
        peak
    } else {
        owned as u64
    }
}

/// The account of a job: nothing if it never held anything.
pub open spec fn account_of(jobs: Map<Uuid, JobRamAccounting>, job: Uuid) -> JobRamAccounting {
    if jobs.contains_key(job) {
        jobs[job]
    } else {
        JobRamAccounting { owned: 0, peak: 0 }
    }
}

/// The accounts after a job was promised more.
pub open spec fn with_more(jobs: Map<Uuid, JobRamAccounting>, job: Uuid, bytes: u64) -> Map<Uuid, JobRamAccounting> {
    let k = account_of(jobs, job);
    jobs.insert(
        job,
        JobRamAccounting { owned: (k.owned + bytes) as u64, peak: risen(k.peak, k.owned + bytes) },
    )
}

/// The accounts after a promise to a job has ended. Its peak stays.
pub open spec fn with_less(jobs: Map<Uuid, JobRamAccounting>, job: Uuid, bytes: u64) -> Map<Uuid, JobRamAccounting> {
    jobs.insert(job, JobRamAccounting { owned: (jobs[job].owned - bytes) as u64, ..jobs[job] })
}

/// The bytes of all entries together.
pub open spec fn total(ledger: Seq<LedgerEntry>) -> nat
    decreases ledger.len(),
{
    if ledger.len() == 0 {
        0
    } else {
        total(ledger.drop_last()) + ledger.last().bytes as nat
    }
}

/// The bytes of the entries that belong to `job`.
pub open spec fn job_total(ledger: Seq<LedgerEntry>, job: Uuid) -> nat
    decreases ledger.len(),
{
    if ledger.len() == 0 {
        0
    } else {
        job_total(ledger.drop_last(), job) + (if ledger.last().job == Some(job) {
            ledger.last().bytes as nat
        } else {
            0
        })
    }
}

proof fn lemma_job_total_bounded(ledger: Seq<LedgerEntry>, job: Uuid)
    ensures
        job_total(ledger, job) <= total(ledger),
    decreases ledger.len(),
{
    if ledger.len() > 0 {
        lemma_job_total_bounded(ledger.drop_last(), job);
    }
}

proof fn lemma_push(ledger: Seq<LedgerEntry>, e: LedgerEntry, job: Uuid)
    ensures
        total(ledger.push(e)) == total(ledger) + e.bytes,
        job_total(ledger.push(e), job) == job_total(ledger, job) + (if e.job == Some(job) {
            e.bytes as nat
        } else {
            0
        }),
{
    assert(ledger.push(e).drop_last() =~= ledger);
}

proof fn lemma_remove(ledger: Seq<LedgerEntry>, i: int, job: Uuid)
    requires
        0 <= i < ledger.len(),
    ensures
        total(ledger.remove(i)) + ledger[i].bytes == total(ledger),
        job_total(ledger.remove(i), job) + (if ledger[i].job == Some(job) {
            ledger[i].bytes as nat
        } else {
            0
        }) == job_total(ledger, job),
    decreases ledger.len(),
{
    if i == ledger.len() - 1 {
        assert(ledger.remove(i) =~= ledger.drop_last());
    } else {
        lemma_remove(ledger.drop_last(), i, job);
        assert(ledger.remove(i).drop_last() =~= ledger.drop_last().remove(i));
        assert(ledger.remove(i).last() == ledger.last());
    }
}

proof fn lemma_job_free(ledger: Seq<LedgerEntry>, job: Uuid)
    requires
        forall|i: int| 0 <= i < ledger.len() ==> (#[trigger] ledger[i]).job != Some(job),
    ensures
        job_total(ledger, job) == 0,
    decreases ledger.len(),
{
    if ledger.len() > 0 {
        assert forall|i: int| 0 <= i < ledger.len() - 1 implies (#[trigger] ledger.drop_last()[i]).job != Some(job) by {
            assert(ledger.drop_last()[i] == ledger[i]);
        }
        lemma_job_free(ledger.drop_last(), job);
    }
}

proof fn lemma_push_holds(ledger: Seq<LedgerEntry>, e: LedgerEntry, x: LedgerEntry)
    ensures
        (exists|i: int| 0 <= i < ledger.push(e).len() && #[trigger] ledger.push(e)[i] == x) == (x == e || exists|i: int|
            0 <= i < ledger.len() && #[trigger] ledger[i] == x),
{
    assert(ledger.push(e)[ledger.len() as int] == e);
    if exists|i: int| 0 <= i < ledger.len() && #[trigger] ledger[i] == x {
        let i = choose|i: int| 0 <= i < ledger.len() && #[trigger] ledger[i] == x;
        assert(ledger.push(e)[i] == x);
    }
    if exists|i: int| 0 <= i < ledger.push(e).len() && #[trigger] ledger.push(e)[i] == x {
        let i = choose|i: int| 0 <= i < ledger.push(e).len() && #[trigger] ledger.push(e)[i] == x;
        if i < ledger.len() {
            assert(ledger[i] == x);
        }
    }
}

/// The RAM that the node has promised, against a budget.
pub struct RamAccounting {
    pub owned: u64,
    pub budget: u64,
    pub peak: u64,
    pub jobs: IdMap<JobRamAccounting>,
    pub ledger: Ghost<Seq<LedgerEntry>>,
    pub next: Ghost<nat>,
}

impl RamAccounting {
    /// The live reservations, oldest first.
    pub open spec fn ledger(&self) -> Seq<LedgerEntry> {
        self.ledger@
    }

    /// The ticket that the next reservation gets.
    pub open spec fn next_ticket(&self) -> nat {
        self.next@
    }

    /// `owned` is the sum of the live reservations, for the node and for every
    /// job, and no two of them share a ticket.
    pub open spec fn wf(&self) -> bool {
        &&& self.jobs.wf()
        &&& self.owned == total(self.ledger())
        &&& forall|j: Uuid| #[trigger] self.jobs@.contains_key(j) ==> self.jobs@[j].owned == job_total(self.ledger(), j)
        &&& forall|i: int|
            0 <= i < self.ledger().len() && (#[trigger] self.ledger()[i]).job is Some ==> self.jobs@.contains_key(
                self.ledger()[i].job->0,
            )
        &&& forall|i: int| 0 <= i < self.ledger().len() ==> (#[trigger] self.ledger()[i]).ticket < self.next_ticket()
        &&& forall|i: int, j: int|
            0 <= i < j < self.ledger().len() ==> (#[trigger] self.ledger()[i]).ticket < (
            #[trigger] self.ledger()[j]).ticket
    }

    /// Whether `r` is one of the live reservations.
    pub open spec fn holds(&self, r: LedgerEntry) -> bool {
        exists|i: int| 0 <= i < self.ledger().len() && #[trigger] self.ledger()[i] == r
    }

    /// What a job holds: nothing if it never held anything.
    pub open spec fn job_owned(&self, job: Uuid) -> nat {
        job_total(self.ledger(), job)
    }

    /// No budget and nothing owned.
    pub fn new() -> (r: Self)
        ensures
            r.wf(),
            r.owned == 0,
            r.budget == 0,
            r.peak == 0,
            r.jobs@ == Map::<Uuid, JobRamAccounting>::empty(),
            r.ledger() == Seq::<LedgerEntry>::empty(),
    {
        RamAccounting {
            owned: 0,
            budget: 0,
            peak: 0,
            jobs: IdMap::new(),
            ledger: Ghost(Seq::empty()),
            next: Ghost(0),
        }
    }

    /// Bytes that are promised now.
    pub fn used(&self) -> (r: u64)
        ensures
            r == self.owned,
    {
        self.owned
    }

    /// Promises `bytes` if the budget has room for them beside what is owned.
    pub fn reserve(&mut self, bytes: u64) -> (r: Result<Reservation, Error>)
        requires
            old(self).wf(),
        ensures
            final(self).wf(),
            final(self).budget == old(self).budget,
            final(self).jobs == old(self).jobs,
            match r {
                Ok(held) => {
                    &&& old(self).owned + bytes <= old(self).budget
                    &&& held.entry() == (LedgerEntry { ticket: old(self).next_ticket(), bytes, job: None })
                    &&& !old(self).holds(held.entry())
                    &&& forall|e: LedgerEntry|
                        final(self).holds(e) == (old(self).holds(e) || e == held.entry())
                    &&& final(self).ledger() == old(self).ledger().push(held.entry())
                    &&& final(self).next_ticket() == old(self).next_ticket() + 1
                    &&& final(self).owned == old(self).owned + bytes
                    &&& final(self).peak == risen(old(self).peak, old(self).owned + bytes)
                },
                Err(e) => {
                    &&& old(self).owned + bytes > old(self).budget
                    &&& e == (Error::OutOfCapacity { bytes })
                    &&& *final(self) == *old(self)
                },
            },
    {
        if self.owned > self.budget || bytes > self.budget - self.owned {
            return Err(Error::OutOfCapacity { bytes });
        }
        let ghost before = *self;
        let held = Reservation { ticket: Ghost(self.next@), bytes, job: None };
        self.owned = self.owned + bytes;
        if self.owned > self.peak {
            self.peak = self.owned;
        }
        proof {
            let e = held.entry();
            self.ledger@ = self.ledger@.push(e);
            self.next@ = self.next@ + 1;
            lemma_push(before.ledger(), e, 0);
            assert forall|x: LedgerEntry| self.holds(x) == (before.holds(x) || x == e) by {
                lemma_push_holds(before.ledger(), e, x);
            }
            assert forall|j: Uuid| #[trigger] self.jobs@.contains_key(j) implies self.jobs@[j].owned == job_total(
                self.ledger(),
                j,
            ) by {
                lemma_push(before.ledger(), e, j);
            }
            assert forall|i: int| 0 <= i < self.ledger().len() && (#[trigger] self.ledger()[i]).job is Some implies self.jobs@.contains_key(
            self.ledger()[i].job->0) by {
                assert(self.ledger()[i] == before.ledger()[i]);
            }
        }
        Ok(held)
    }

    /// Promises `bytes` on behalf of a job and counts them for it.
    pub fn reserve_payload(&mut self, job_id: Uuid, bytes: u64) -> (r: Result<Reservation, Error>)
        requires
            old(self).wf(),
        ensures
            final(self).wf(),
            final(self).budget == old(self).budget,
            match r {
                Ok(held) => {
                    &&& old(self).owned + bytes <= old(self).budget
                    &&& held.entry() == (LedgerEntry { ticket: old(self).next_ticket(), bytes, job: Some(job_id) })
                    &&& !old(self).holds(held.entry())
                    &&& forall|e: LedgerEntry|
                        final(self).holds(e) == (old(self).holds(e) || e == held.entry())
                    &&& final(self).ledger() == old(self).ledger().push(held.entry())
                    &&& final(self).next_ticket() == old(self).next_ticket() + 1
                    &&& final(self).owned == old(self).owned + bytes
                    &&& final(self).peak == risen(old(self).peak, old(self).owned + bytes)
                    &&& final(self).jobs@ == with_more(old(self).jobs@, job_id, bytes)
                    &&& account_of(old(self).jobs@, job_id).owned == old(self).job_owned(job_id)
                    &&& old(self).job_owned(job_id) + bytes <= u64::MAX
                },
                Err(e) => {
                    &&& old(self).owned + bytes > old(self).budget
                    &&& e == (Error::OutOfCapacity { bytes })
                    &&& *final(self) == *old(self)
                },
            },
    {
        let ghost before = *self;
        let plain: Reservation = match self.reserve(bytes) {
            Ok(held) => held,
            Err(e) => {
                return Err(e);
            },
        };
        let ghost plainly = *self;
        let mut owned: u64 = 0;
        let mut peak: u64 = 0;
        match self.jobs.get(job_id) {
            Some(job) => {
                owned = job.owned;
                peak = job.peak;
            },
            None => {},
        }
        proof {
            if !before.jobs@.contains_key(job_id) {
                assert forall|i: int| 0 <= i < before.ledger().len() implies (#[trigger] before.ledger()[i]).job
                    != Some(job_id) by {}
                lemma_job_free(before.ledger(), job_id);
            }
            lemma_job_total_bounded(before.ledger(), job_id);
            assert(owned == before.job_owned(job_id));
        }
        let now: u64 = owned + bytes;
        if now > peak {
            peak = now;
        }
        let _ = self.jobs.insert(job_id, JobRamAccounting { owned: now, peak });
        let held = Reservation { ticket: plain.ticket, bytes, job: Some(job_id) };
        proof {
            let e = held.entry();
            self.ledger@ = before.ledger().push(e);
            assert(self.ledger().drop_last() =~= before.ledger());
            lemma_push(before.ledger(), e, job_id);
            assert forall|x: LedgerEntry| self.holds(x) == (before.holds(x) || x == e) by {
                lemma_push_holds(before.ledger(), e, x);
            }
            assert forall|j: Uuid| #[trigger] self.jobs@.contains_key(j) implies self.jobs@[j].owned == job_total(
                self.ledger(),
                j,
            ) by {
                lemma_push(before.ledger(), e, j);
            }
            assert forall|i: int| 0 <= i < self.ledger().len() && (#[trigger] self.ledger()[i]).job is Some implies self.jobs@.contains_key(
            self.ledger()[i].job->0) by {
                if i < before.ledger().len() {
                    assert(self.ledger()[i] == before.ledger()[i]);
                }
            }
        }
        Ok(held)
    }

    /// Ends a live reservation: its bytes count no longer, for the node and
    /// for the job they were promised to.
    pub fn release(&mut self, held: Reservation)
        requires
            old(self).wf(),
            old(self).holds(held.entry()),
        ensures
            final(self).wf(),
            final(self).budget == old(self).budget,
            final(self).peak == old(self).peak,
            final(self).next_ticket() == old(self).next_ticket(),
            final(self).owned + held.entry().bytes == old(self).owned,
            !final(self).holds(held.entry()),
            forall|e: LedgerEntry| e != held.entry() ==> final(self).holds(e) == old(self).holds(e),
            held.entry().job is None ==> final(self).jobs == old(self).jobs,
            held.entry().job matches Some(job) ==> {
                &&& old(self).jobs@.contains_key(job)
                &&& old(self).jobs@[job].owned >= held.entry().bytes
                &&& final(self).jobs@ == with_less(old(self).jobs@, job, held.entry().bytes)
            },
    {
        let ghost before = *self;
        let ghost e = held.entry();
        let ghost at = choose|i: int| 0 <= i < self.ledger().len() && #[trigger] self.ledger()[i] == e;
        proof {
            lemma_remove(before.ledger(), at, 0);
        }
        self.owned = self.owned - held.bytes;
        match held.job {
            Some(job) => {
                proof {
                    lemma_remove(before.ledger(), at, job);
                    assert(before.ledger()[at].job is Some);
                }
                match self.jobs.find(job) {
                    Some(p) => {
                        let entry = self.jobs.value_mut(p);
                        entry.owned = entry.owned - held.bytes;
                    },
                    None => {
                        assert(false);
                    },
                }
            },
            None => {},
        }
        proof {
            self.ledger@ = before.ledger().remove(at);
            let after = self.ledger();
            assert forall|j: Uuid| #[trigger] self.jobs@.contains_key(j) implies self.jobs@[j].owned == job_total(
                after,
                j,
            ) by {
                lemma_remove(before.ledger(), at, j);
            }
            assert forall|i: int| 0 <= i < after.len() implies #[trigger] after[i] == before.ledger()[if i < at {
                i
            } else {
                i + 1
            }] by {}
            assert forall|i: int, j: int| 0 <= i < j < after.len() implies (#[trigger] after[i]).ticket < (
            #[trigger] after[j]).ticket by {}
            if self.holds(e) {
                let i = choose|i: int| 0 <= i < after.len() && #[trigger] after[i] == e;
                let k = if i < at {
                    i
                } else {
                    i + 1
                };
                assert(before.ledger()[k].ticket == before.ledger()[at].ticket);
                assert(false);
            }
            assert forall|x: LedgerEntry| x != e implies self.holds(x) == before.holds(x) by {
                if before.holds(x) {
                    let i = choose|i: int| 0 <= i < before.ledger().len() && #[trigger] before.ledger()[i] == x;
                    assert(i != at);
                    if i < at {
                        assert(after[i] == x);
                    } else {
                        assert(after[i - 1] == x);
                    }
                }
                if self.holds(x) {
                    let i = choose|i: int| 0 <= i < after.len() && #[trigger] after[i] == x;
                    if i < at {
                        assert(before.ledger()[i] == x);
                    } else {
                        assert(before.ledger()[i + 1] == x);
                    }
                }
            }
        }
    }
}

} // verus!
