//! The job store: the durable record of jobs, modelled in memory.
//!
//! The persistence engine behind the real system is an external collaborator;
//! what the rest of the system relies on is exactly the contract written
//! here: append-only creation with store-assigned, strictly increasing ids,
//! in-place status updates that keep `created_at` frozen, deletion by id, the
//! pending queue in FIFO order, and id-descending pagination.

use vstd::prelude::*;
use crate::model::{Job, TaskStatus, Timestamp, valid_transition};

verus! {

/// The error taxonomy of the whole subsystem.
///
/// `Validation` is bad caller input, `NotFound` an unknown job id, `Store` a
/// persistence failure (here: id space exhausted), `Execution` a failure to
/// spawn or introspect the external command runner.
#[derive(Copy, Clone, Debug, PartialEq, Eq, Structural)]
pub enum JobError {
    Validation,
    NotFound,
    Store,
    Execution,
}

/// Some job in the sequence has this id.
pub open spec fn contains_id(s: Seq<Job>, id: int) -> bool {
    exists|i: int| 0 <= i < s.len() && s[i].id == id
}

/// The index of the job with this id (well defined when ids are unique).
pub open spec fn idx_of(s: Seq<Job>, id: int) -> int {
    choose|i: int| 0 <= i < s.len() && s[i].id == id
}

/// Submission order: ascending creation time, ties broken by ascending id.
pub open spec fn fifo_le(a: Job, b: Job) -> bool {
    a.created_at.unix < b.created_at.unix || (a.created_at.unix == b.created_at.unix && a.id
        <= b.id)
}

/// Sorted in submission order.
pub open spec fn sorted_fifo(s: Seq<Job>) -> bool {
    forall|i: int, j: int| 0 <= i < j < s.len() ==> #[trigger] fifo_le(s[i], s[j])
}

/// The subsequence of pending jobs, in store order.
pub open spec fn pending_of(s: Seq<Job>) -> Seq<Job>
    decreases s.len(),
{
    if s.len() == 0 {
        Seq::empty()
    } else {
        let rest = pending_of(s.drop_last());
        if s.last().status == TaskStatus::Pending {
            rest.push(s.last())
        } else {
            rest
        }
    }
}

/// The later of two instants; an update never moves `updated_at` before
/// `created_at`, whatever the clock reported.
pub open spec fn stamp_max(now: Timestamp, floor: Timestamp) -> Timestamp {
    if now.unix >= floor.unix {
        now
    } else {
        floor
    }
}

/// The record as it stands after a status update at time `now`.
pub open spec fn with_status(j: Job, status: TaskStatus, now: Timestamp) -> Job {
    Job { status, updated_at: stamp_max(now, j.created_at), ..j }
}

/// Ids appear in strictly increasing order: insertion order is id order,
/// and no id is ever reused.
pub open spec fn ids_increasing(s: Seq<Job>) -> bool {
    forall|i: int, j: int| 0 <= i < j < s.len() ==> (#[trigger] s[i]).id < (#[trigger] s[j]).id
}

/// At most one job is `Running` at any instant.
pub open spec fn at_most_one_running(s: Seq<Job>) -> bool {
    forall|i: int, j: int|
        0 <= i < s.len() && 0 <= j < s.len() && (#[trigger] s[i]).status == TaskStatus::Running
            && (#[trigger] s[j]).status == TaskStatus::Running ==> i == j
}

/// The durable job store.
pub struct JobStore {
    pub jobs: Vec<Job>,
    pub next_id: i32,
}

impl JobStore {
    /// Store invariant: every record well formed, ids strictly increasing,
    /// all below the next free id, and at most one job running.
    pub open spec fn wf(self) -> bool {
        &&& 1 <= self.next_id
        &&& forall|i: int| 0 <= i < self.jobs.len() ==> (#[trigger] self.jobs[i]).wf()
        &&& forall|i: int|
            0 <= i < self.jobs.len() ==> 1 <= (#[trigger] self.jobs[i]).id < self.next_id
        &&& ids_increasing(self.jobs@)
        &&& at_most_one_running(self.jobs@)
    }

    /// An empty store; the first job will get id 1.
    pub fn new() -> (r: JobStore)
        ensures
            r.wf(),
            r.jobs@ =~= Seq::<Job>::empty(),
            r.next_id == 1,
    {
        JobStore { jobs: Vec::new(), next_id: 1 }
    }

    /// Append a new pending job. The store assigns the next id and stamps
    /// both timestamps with `now`; fails only when the id space is spent.
    pub fn create_task(
        &mut self,
        name: String,
        command: String,
        output: Option<String>,
        now: Timestamp,
    ) -> (r: Result<Job, JobError>)
        requires
            old(self).wf(),
            now.wf(),
        ensures
            final(self).wf(),
            old(self).next_id == i32::MAX ==> r == Err::<Job, JobError>(JobError::Store)
                && *final(self) == *old(self),
            old(self).next_id < i32::MAX ==> ({
                let job = (Job {
                    id: old(self).next_id,
                    name,
                    command,
                    output,
                    status: TaskStatus::Pending,
                    created_at: now,
                    updated_at: now,
                });
                &&& r == Ok::<Job, JobError>(job)
                &&& final(self).jobs@ == old(self).jobs@.push(job)
                &&& final(self).next_id == old(self).next_id + 1
            }),
    {
        if self.next_id == i32::MAX {
            return Err(JobError::Store);
        }
        let job = Job {
            id: self.next_id,
            name,
            command,
            output,
            status: TaskStatus::Pending,
            created_at: now,
            updated_at: now,
        };
        let handed_back = job.clone();
        self.jobs.push(job);
        self.next_id = self.next_id + 1;
        Ok(handed_back)
    }
}

/// With strictly increasing ids, an id determines its index: whoever finds a
/// match has found the one `idx_of` names.
pub proof fn lemma_idx_of_unique(s: Seq<Job>, id: int, i: int)
    requires
        ids_increasing(s),
        0 <= i < s.len(),
        s[i].id == id,
    ensures
        contains_id(s, id),
        idx_of(s, id) == i,
{
    assert(contains_id(s, id));
    let k = idx_of(s, id);
    assert(0 <= k < s.len() && s[k].id == id);
    if k < i {
        assert(s[k].id < s[i].id);
    } else if i < k {
        assert(s[i].id < s[k].id);
    }
}

impl JobStore {
    /// Look a job up by id.
    #[verifier::loop_isolation(false)]
    pub fn find_task(&self, id: i32) -> (r: Option<Job>)
        requires
            self.wf(),
        ensures
            match r {
                Some(job) => contains_id(self.jobs@, id as int) && job == self.jobs@[idx_of(
                    self.jobs@,
                    id as int,
                )],
                None => !contains_id(self.jobs@, id as int),
            },
    {
        let n = self.jobs.len();
        for i in 0..n
            invariant
                n == self.jobs.len(),
                self.wf(),
                forall|k: int| 0 <= k < i ==> (#[trigger] self.jobs@[k]).id != id,
        {
            if self.jobs[i].id == id {
                proof {
                    lemma_idx_of_unique(self.jobs@, id as int, i as int);
                }
                return Some(self.jobs[i].clone());
            }
        }
        None
    }

    /// Overwrite a job's status in place, stamping `updated_at` with `now`
    /// (never earlier than `created_at`). `created_at` and everything else
    /// stay frozen. Fails with `NotFound` when no such job exists.
    ///
    /// Callers only ever ask for transitions the state machine allows, and
    /// claim `Running` only while nothing else runs; both are preconditions.
    #[verifier::loop_isolation(false)]
    pub fn update_task(&mut self, id: i32, status: TaskStatus, now: Timestamp) -> (r: Result<
        Job,
        JobError,
    >)
        requires
            old(self).wf(),
            now.wf(),
            forall|i: int|
                0 <= i < old(self).jobs.len() && (#[trigger] old(self).jobs@[i]).id == id
                    ==> valid_transition(old(self).jobs@[i].status, status),
            status == TaskStatus::Running ==> forall|i: int|
                0 <= i < old(self).jobs.len() ==> (#[trigger] old(self).jobs@[i]).status
                    != TaskStatus::Running,
        ensures
            final(self).wf(),
            final(self).next_id == old(self).next_id,
            !contains_id(old(self).jobs@, id as int) ==> r == Err::<Job, JobError>(
                JobError::NotFound,
            ) && *final(self) == *old(self),
            contains_id(old(self).jobs@, id as int) ==> ({
                let i = idx_of(old(self).jobs@, id as int);
                let job = with_status(old(self).jobs@[i], status, now);
                &&& r == Ok::<Job, JobError>(job)
                &&& final(self).jobs@ == old(self).jobs@.update(i, job)
            }),
    {
        let n = self.jobs.len();
        for i in 0..n
            invariant
                n == self.jobs.len(),
                self.wf(),
                *self == *old(self),
                now.wf(),
                forall|k: int| 0 <= k < i ==> (#[trigger] self.jobs@[k]).id != id,
        {
            if self.jobs[i].id == id {
                proof {
                    lemma_idx_of_unique(self.jobs@, id as int, i as int);
                }
                let mut job = self.jobs[i].clone();
                job.status = status;
                job.updated_at = if now.unix >= job.created_at.unix {
                    now
                } else {
                    job.created_at
                };
                let handed_back = job.clone();
                self.jobs.set(i, job);
                proof {
                    assert(self.jobs@ =~= old(self).jobs@.update(
                        i as int,
                        with_status(old(self).jobs@[i as int], status, now),
                    ));
                    assert forall|p: int, q: int| 0 <= p < q < self.jobs.len() implies (
                    #[trigger] self.jobs@[p]).id < (#[trigger] self.jobs@[q]).id by {
                        assert(old(self).jobs@[p].id < old(self).jobs@[q].id);
                    }
                    assert(at_most_one_running(self.jobs@)) by {
                        if status == TaskStatus::Running {
                            assert forall|p: int, q: int|
                                0 <= p < self.jobs.len() && 0 <= q < self.jobs.len() && (
                                #[trigger] self.jobs@[p]).status == TaskStatus::Running && (
                                #[trigger] self.jobs@[q]).status == TaskStatus::Running implies p
                                == q by {
                                if p != i as int {
                                    assert(self.jobs@[p] == old(self).jobs@[p]);
                                    assert(old(self).jobs@[p].status == TaskStatus::Running);
                                }
                                if q != i as int {
                                    assert(self.jobs@[q] == old(self).jobs@[q]);
                                    assert(old(self).jobs@[q].status == TaskStatus::Running);
                                }
                                assert(p == i as int && q == i as int);
                            }
                        }
                        if status != TaskStatus::Running {
                            assert forall|p: int, q: int|
                                0 <= p < self.jobs.len() && 0 <= q < self.jobs.len() && (
                                #[trigger] self.jobs@[p]).status == TaskStatus::Running && (
                                #[trigger] self.jobs@[q]).status == TaskStatus::Running implies p
                                == q by {
                                assert(old(self).jobs@[p].status == TaskStatus::Running);
                                assert(old(self).jobs@[q].status == TaskStatus::Running);
                            }
                        }
                    }
                }
                return Ok(handed_back);
            }
        }
        Err(JobError::NotFound)
    }

    /// Delete a job's record outright, whatever its status; reports whether
    /// a record was removed.
    #[verifier::loop_isolation(false)]
    pub fn delete_task(&mut self, id: i32) -> (r: bool)
        requires
            old(self).wf(),
        ensures
            final(self).wf(),
            final(self).next_id == old(self).next_id,
            r == contains_id(old(self).jobs@, id as int),
            contains_id(old(self).jobs@, id as int) ==> final(self).jobs@ == old(
                self,
            ).jobs@.remove(idx_of(old(self).jobs@, id as int)),
            !contains_id(old(self).jobs@, id as int) ==> *final(self) == *old(self),
            !contains_id(final(self).jobs@, id as int),
    {
        let n = self.jobs.len();
        for i in 0..n
            invariant
                n == self.jobs.len(),
                self.wf(),
                *self == *old(self),
                forall|k: int| 0 <= k < i ==> (#[trigger] self.jobs@[k]).id != id,
        {
            if self.jobs[i].id == id {
                proof {
                    lemma_idx_of_unique(self.jobs@, id as int, i as int);
                }
                self.jobs.remove(i);
                proof {
                    assert forall|p: int, q: int| 0 <= p < q < self.jobs.len() implies (
                    #[trigger] self.jobs@[p]).id < (#[trigger] self.jobs@[q]).id by {
                        let p0 = if p < i { p } else { p + 1 };
                        let q0 = if q < i { q } else { q + 1 };
                        assert(old(self).jobs@[p0].id < old(self).jobs@[q0].id);
                    }
                    assert forall|p: int, q: int|
                        0 <= p < self.jobs.len() && 0 <= q < self.jobs.len() && (
                        #[trigger] self.jobs@[p]).status == TaskStatus::Running && (
                        #[trigger] self.jobs@[q]).status == TaskStatus::Running implies p == q by {
                        let p0 = if p < i { p } else { p + 1 };
                        let q0 = if q < i { q } else { q + 1 };
                        assert(old(self).jobs@[p0].status == TaskStatus::Running);
                        assert(old(self).jobs@[q0].status == TaskStatus::Running);
                    }
                    assert forall|k: int| 0 <= k < self.jobs.len() implies (
                    #[trigger] self.jobs@[k]).id != id by {
                        let k0 = if k < i { k } else { k + 1 };
                        assert(self.jobs@[k] == old(self).jobs@[k0]);
                    }
                }
                return true;
            }
        }
        false
    }
}

/// The record carrying this id (well defined when the id is present and
/// ids are unique).
pub open spec fn job_by_id(s: Seq<Job>, id: int) -> Job {
    s[idx_of(s, id)]
}

/// Appending a fresh record leaves every other lookup untouched.
pub proof fn lemma_lookup_push(s: Seq<Job>, x: Job, id: int)
    requires
        ids_increasing(s.push(x)),
        id != x.id,
    ensures
        contains_id(s.push(x), id) == contains_id(s, id),
        contains_id(s, id) ==> job_by_id(s.push(x), id) == job_by_id(s, id),
{
    let t = s.push(x);
    assert(ids_increasing(s)) by {
        assert forall|p: int, q: int| 0 <= p < q < s.len() implies (#[trigger] s[p]).id < (
        #[trigger] s[q]).id by {
            assert(t[p] == s[p] && t[q] == s[q]);
            assert(t[p].id < t[q].id);
        }
    }
    if contains_id(s, id) {
        let i = choose|i: int| 0 <= i < s.len() && s[i].id == id;
        assert(t[i].id == id);
        lemma_idx_of_unique(t, id, i);
        lemma_idx_of_unique(s, id, i);
    }
    if contains_id(t, id) {
        let i = choose|i: int| 0 <= i < t.len() && t[i].id == id;
        assert(i < s.len());
        assert(s[i].id == id);
        assert(contains_id(s, id));
    }
}

/// Updating one record (keeping its id) leaves every other lookup
/// untouched, and the updated id now looks up the new record.
pub proof fn lemma_lookup_update(s: Seq<Job>, k: int, x: Job, id: int)
    requires
        ids_increasing(s),
        0 <= k < s.len(),
        s[k].id == x.id,
    ensures
        ids_increasing(s.update(k, x)),
        contains_id(s.update(k, x), id) == contains_id(s, id),
        id == x.id && contains_id(s, id) ==> idx_of(s, id) == k && job_by_id(s.update(k, x), id)
            == x,
        id != x.id && contains_id(s, id) ==> job_by_id(s.update(k, x), id) == job_by_id(s, id)
            && idx_of(s.update(k, x), id) == idx_of(s, id),
{
    let t = s.update(k, x);
    assert forall|p: int, q: int| 0 <= p < q < t.len() implies (#[trigger] t[p]).id < (
    #[trigger] t[q]).id by {
        assert(t[p].id == s[p].id && t[q].id == s[q].id);
        assert(s[p].id < s[q].id);
    }
    if contains_id(s, id) {
        let i = choose|i: int| 0 <= i < s.len() && s[i].id == id;
        lemma_idx_of_unique(s, id, i);
        assert(t[i].id == id);
        lemma_idx_of_unique(t, id, i);
        if id == x.id {
            if i != k {
                assert(s[i].id == s[k].id);
            }
        }
    }
    if contains_id(t, id) {
        let i = choose|i: int| 0 <= i < t.len() && t[i].id == id;
        assert(s[i].id == id);
        assert(contains_id(s, id));
    }
}

/// Removing one record leaves every other lookup with the same answer.
pub proof fn lemma_lookup_remove(s: Seq<Job>, k: int, id: int)
    requires
        ids_increasing(s),
        0 <= k < s.len(),
        id != s[k].id,
    ensures
        ids_increasing(s.remove(k)),
        contains_id(s.remove(k), id) == contains_id(s, id),
        contains_id(s, id) ==> job_by_id(s.remove(k), id) == job_by_id(s, id),
{
    let t = s.remove(k);
    assert forall|p: int, q: int| 0 <= p < q < t.len() implies (#[trigger] t[p]).id < (
    #[trigger] t[q]).id by {
        let p0 = if p < k {
            p
        } else {
            p + 1
        };
        let q0 = if q < k {
            q
        } else {
            q + 1
        };
        assert(t[p] == s[p0] && t[q] == s[q0]);
        assert(s[p0].id < s[q0].id);
    }
    if contains_id(s, id) {
        let i = choose|i: int| 0 <= i < s.len() && s[i].id == id;
        lemma_idx_of_unique(s, id, i);
        let i1 = if i < k {
            i
        } else {
            i - 1
        };
        assert(t[i1] == s[i]);
        lemma_idx_of_unique(t, id, i1);
    }
    if contains_id(t, id) {
        let i = choose|i: int| 0 <= i < t.len() && t[i].id == id;
        let i0 = if i < k {
            i
        } else {
            i + 1
        };
        assert(t[i] == s[i0]);
        assert(contains_id(s, id));
    }
}

/// A record known to sit in the store is what its id looks up.
pub proof fn lemma_member_lookup(s: Seq<Job>, x: Job)
    requires
        ids_increasing(s),
        s.contains(x),
    ensures
        contains_id(s, x.id as int),
        job_by_id(s, x.id as int) == x,
{
    let i = choose|i: int| 0 <= i < s.len() && s[i] == x;
    lemma_idx_of_unique(s, x.id as int, i);
}

/// At most one job is `Running` at any observed instant: a well-formed
/// store never holds two distinct running records.
pub proof fn lemma_single_running(store: JobStore, i: int, j: int)
    requires
        store.wf(),
        0 <= i < store.jobs@.len(),
        0 <= j < store.jobs@.len(),
        store.jobs@[i].status == TaskStatus::Running,
        store.jobs@[j].status == TaskStatus::Running,
    ensures
        i == j,
{
}

/// A job is in the pending queue exactly when its record is pending and in
/// the store.
pub proof fn lemma_pending_of_contains(s: Seq<Job>, x: Job)
    ensures
        pending_of(s).contains(x) <==> ((exists|i: int| 0 <= i < s.len() && s[i] == x)
            && x.status == TaskStatus::Pending),
    decreases s.len(),
{
    if s.len() > 0 {
        lemma_pending_of_contains(s.drop_last(), x);
        if pending_of(s).contains(x) {
            if s.last().status == TaskStatus::Pending {
                let k = choose|k: int|
                    0 <= k < pending_of(s).len() && pending_of(s)[k] == x;
                if k < pending_of(s.drop_last()).len() {
                    assert(pending_of(s.drop_last()).contains(x));
                } else {
                    assert(x == s.last());
                    assert(s[s.len() - 1] == x);
                }
            }
        }
        if (exists|i: int| 0 <= i < s.len() && s[i] == x) && x.status == TaskStatus::Pending {
            let i = choose|i: int| 0 <= i < s.len() && s[i] == x;
            if i < s.len() - 1 {
                assert(s.drop_last()[i] == x);
                assert(pending_of(s.drop_last()).contains(x));
                if s.last().status == TaskStatus::Pending {
                    let k = choose|k: int|
                        0 <= k < pending_of(s.drop_last()).len() && pending_of(s.drop_last())[k]
                            == x;
                    assert(pending_of(s)[k] == x);
                } else {
                    assert(pending_of(s) == pending_of(s.drop_last()));
                }
            } else {
                assert(s.last() == x);
                assert(pending_of(s).last() == x);
            }
        }
    }
}

/// A cancelled job can never come back from the pending queue: once no
/// record carries its id, neither does any element of the queue.
pub proof fn lemma_cancelled_not_pending(s: Seq<Job>, id: int)
    requires
        !contains_id(s, id),
    ensures
        forall|k: int|
            0 <= k < pending_of(s).len() ==> (#[trigger] pending_of(s)[k]).id != id,
{
    assert forall|k: int|
        0 <= k < pending_of(s).len() implies (#[trigger] pending_of(s)[k]).id != id by {
        let x = pending_of(s)[k];
        assert(pending_of(s).contains(x));
        lemma_pending_of_contains(s, x);
        let i = choose|i: int| 0 <= i < s.len() && s[i] == x;
        assert(s[i].id == x.id);
    }
}

/// The pending queue inherits strictly increasing ids from the store.
pub proof fn lemma_pending_ids_increasing(s: Seq<Job>)
    requires
        ids_increasing(s),
    ensures
        ids_increasing(pending_of(s)),
    decreases s.len(),
{
    if s.len() > 0 {
        let rest = s.drop_last();
        assert(ids_increasing(rest)) by {
            assert forall|p: int, q: int| 0 <= p < q < rest.len() implies (#[trigger] rest[p]).id
                < (#[trigger] rest[q]).id by {
                assert(rest[p] == s[p] && rest[q] == s[q]);
            }
        }
        lemma_pending_ids_increasing(rest);
        if s.last().status == TaskStatus::Pending {
            let t = pending_of(rest).push(s.last());
            assert forall|p: int, q: int| 0 <= p < q < t.len() implies (#[trigger] t[p]).id < (
            #[trigger] t[q]).id by {
                if q < pending_of(rest).len() {
                    assert(t[p] == pending_of(rest)[p] && t[q] == pending_of(rest)[q]);
                } else {
                    assert(t[q] == s.last());
                    assert(t[p] == pending_of(rest)[p]);
                    assert(pending_of(rest).contains(pending_of(rest)[p]));
                    lemma_pending_of_contains(rest, pending_of(rest)[p]);
                    let i = choose|i: int| 0 <= i < rest.len() && rest[i] == t[p];
                    assert(rest[i] == s[i]);
                    assert(s[i].id < s[s.len() - 1].id);
                }
            }
        }
    }
}

/// Strictly increasing ids leave no room for duplicate records.
pub proof fn lemma_ids_increasing_no_dup(s: Seq<Job>)
    requires
        ids_increasing(s),
    ensures
        s.no_duplicates(),
{
    assert forall|i: int, j: int|
        0 <= i < s.len() && 0 <= j < s.len() && i != j implies s[i] != s[j] by {
        if i < j {
            assert(s[i].id < s[j].id);
        } else {
            assert(s[j].id < s[i].id);
        }
    }
}

/// The pending queue is empty exactly when no record is pending.
pub proof fn lemma_pending_empty(s: Seq<Job>)
    ensures
        (pending_of(s).len() == 0) <==> (forall|i: int|
            0 <= i < s.len() ==> (#[trigger] s[i]).status != TaskStatus::Pending),
    decreases s.len(),
{
    if s.len() > 0 {
        lemma_pending_empty(s.drop_last());
        if pending_of(s).len() == 0 {
            assert forall|i: int|
                0 <= i < s.len() implies (#[trigger] s[i]).status != TaskStatus::Pending by {
                if i < s.len() - 1 {
                    assert(s.drop_last()[i] == s[i]);
                }
            }
        }
        if forall|i: int| 0 <= i < s.len() ==> (#[trigger] s[i]).status != TaskStatus::Pending {
            assert forall|i: int|
                0 <= i < s.drop_last().len() implies (#[trigger] s.drop_last()[i]).status
                    != TaskStatus::Pending by {
                assert(s.drop_last()[i] == s[i]);
            }
        }
    }
}

/// Every record on a listing page is a record of the store: a deleted job
/// is gone from every page.
pub proof fn lemma_page_elements(s: Seq<Job>, size: nat, page: nat, k: int)
    requires
        0 <= k < page_slice(s, size, page).len(),
    ensures
        s.contains(page_slice(s, size, page)[k]),
{
    let x = page_slice(s, size, page)[k];
    if page * size < s.len() {
        let start = (page * size) as int;
        assert(x == s.reverse()[start + k]);
        assert(x == s[s.len() - 1 - (start + k)]);
    }
}

/// Submission-order comparison on two records.
fn fifo_before(a: &Job, b: &Job) -> (r: bool)
    ensures
        r == fifo_le(*a, *b),
{
    a.created_at.unix < b.created_at.unix || (a.created_at.unix == b.created_at.unix && a.id
        <= b.id)
}

impl JobStore {
    /// The pending queue: every pending job, oldest submission first
    /// (ascending `created_at`, ties broken by ascending id).
    #[verifier::loop_isolation(false)]
    pub fn pending_tasks(&self) -> (r: Vec<Job>)
        requires
            self.wf(),
        ensures
            sorted_fifo(r@),
            r@.to_multiset() == pending_of(self.jobs@).to_multiset(),
            forall|k: int|
                0 <= k < r@.len() ==> (#[trigger] r@[k]).status == TaskStatus::Pending,
            forall|k: int| 0 <= k < r@.len() ==> self.jobs@.contains(#[trigger] r@[k]),
            forall|t: int|
                0 <= t < self.jobs@.len() && (#[trigger] self.jobs@[t]).status
                    == TaskStatus::Pending ==> r@.contains(self.jobs@[t]),
    {
        broadcast use vstd::seq_lib::group_to_multiset_ensures;

        let mut r: Vec<Job> = Vec::new();
        let n = self.jobs.len();
        proof {
            assert(self.jobs@.take(0) =~= Seq::<Job>::empty());
        }
        for i in 0..n
            invariant
                r@.to_multiset() == pending_of(self.jobs@.take(i as int)).to_multiset(),
                sorted_fifo(r@),
                forall|k: int|
                    0 <= k < r@.len() ==> (#[trigger] r@[k]).status == TaskStatus::Pending,
                forall|k: int| 0 <= k < r@.len() ==> self.jobs@.contains(#[trigger] r@[k]),
                forall|t: int|
                    0 <= t < i && (#[trigger] self.jobs@[t]).status == TaskStatus::Pending
                        ==> r@.contains(self.jobs@[t]),
        {
            proof {
                assert(self.jobs@.take(i + 1).drop_last() =~= self.jobs@.take(i as int));
                assert(self.jobs@.take(i + 1).last() == self.jobs@[i as int]);
            }
            if self.jobs[i].status == TaskStatus::Pending {
                let job = self.jobs[i].clone();
                let ghost r_before = r@;
                let mut k: usize = 0;
                while k < r.len() && fifo_before(&r[k], &job)
                    invariant
                        k <= r.len(),
                        r@ == r_before,
                        forall|t: int| 0 <= t < k ==> fifo_le(#[trigger] r@[t], job),
                    decreases r.len() - k,
                {
                    k = k + 1;
                }
                r.insert(k, job);
                proof {
                    assert forall|p: int, q: int| 0 <= p < q < r@.len() implies #[trigger]
                    fifo_le(r@[p], r@[q]) by {
                        if p < k && q == k {
                            assert(r@[p] == r_before[p]);
                        } else if p == k && q > k {
                            assert(r@[q] == r_before[q - 1]);
                            assert(!fifo_le(r_before[k as int], job));
                            assert(fifo_le(r_before[k as int], r_before[q - 1]) || k == q - 1);
                        } else if p < k && q < k {
                            assert(r@[p] == r_before[p] && r@[q] == r_before[q]);
                        } else if p < k && q > k {
                            assert(r@[p] == r_before[p] && r@[q] == r_before[q - 1]);
                        } else {
                            assert(r@[p] == r_before[p - 1] && r@[q] == r_before[q - 1]);
                        }
                    }
                    assert(self.jobs@.contains(self.jobs@[i as int]));
                    assert forall|t: int|
                        0 <= t < i + 1 && (#[trigger] self.jobs@[t]).status
                            == TaskStatus::Pending implies r@.contains(self.jobs@[t]) by {
                        if t < i {
                            let w = choose|w: int|
                                0 <= w < r_before.len() && r_before[w] == self.jobs@[t];
                            if w < k {
                                assert(r@[w] == self.jobs@[t]);
                            } else {
                                assert(r@[w + 1] == self.jobs@[t]);
                            }
                        } else {
                            assert(r@[k as int] == self.jobs@[t]);
                        }
                    }
                    assert forall|t: int| 0 <= t < r@.len() implies self.jobs@.contains(
                        #[trigger] r@[t],
                    ) by {
                        if t != k {
                            let t0 = if t < k { t } else { t - 1 };
                            assert(r@[t] == r_before[t0]);
                        }
                    }
                }
            }
        }
        proof {
            assert(self.jobs@.take(n as int) =~= self.jobs@);
        }
        r
    }
}

/// How many pages a listing of `total` records has at `size` records a page.
pub open spec fn page_count(total: nat, size: nat) -> nat
    recommends
        size >= 1,
{
    total / size + if total % size != 0 {
        1nat
    } else {
        0nat
    }
}

/// The records of one 0-indexed page, most recent submission (highest id)
/// first.
pub open spec fn page_slice(s: Seq<Job>, size: nat, page: nat) -> Seq<Job> {
    if page * size >= s.len() {
        Seq::empty()
    } else if page * size + size <= s.len() {
        s.reverse().subrange((page * size) as int, (page * size + size) as int)
    } else {
        s.reverse().subrange((page * size) as int, s.len() as int)
    }
}

/// A page before the last one starts strictly inside the listing.
proof fn lemma_page_in_range(total: nat, size: nat, page: nat)
    requires
        size >= 1,
        page < page_count(total, size),
    ensures
        page * size < total,
{
    let q = total / size;
    let m = total % size;
    vstd::arithmetic::div_mod::lemma_fundamental_div_mod(total as int, size as int);
    if m != 0 {
        assert(page <= q);
        assert(page * size <= q * size) by (nonlinear_arith)
            requires
                page <= q,
                size >= 1,
        ;
        assert(total == q * size + m);
    } else {
        assert(page <= q - 1);
        assert(page * size <= (q - 1) * size) by (nonlinear_arith)
            requires
                page <= q - 1,
                size >= 1,
        ;
        assert((q - 1) * size == q * size - size) by (nonlinear_arith);
        assert(total == q * size);
    }
}

/// From the page count on, every page starts past the end of the listing.
proof fn lemma_page_out_of_range(total: nat, size: nat, page: nat)
    requires
        size >= 1,
        page >= page_count(total, size),
    ensures
        page * size >= total,
{
    let q = total / size;
    let m = total % size;
    vstd::arithmetic::div_mod::lemma_fundamental_div_mod(total as int, size as int);
    if m != 0 {
        assert(page >= q + 1);
        assert(page * size >= (q + 1) * size) by (nonlinear_arith)
            requires
                page >= q + 1,
                size >= 1,
        ;
        assert((q + 1) * size == q * size + size) by (nonlinear_arith);
        assert(total == q * size + m);
    } else {
        assert(page >= q);
        assert(page * size >= q * size) by (nonlinear_arith)
            requires
                page >= q,
                size >= 1,
        ;
        assert(total == q * size);
    }
}

impl JobStore {
    /// One page of the listing, most recent job first, together with the
    /// total number of pages. A page index past the end yields an empty
    /// page; the page count is the same whatever page was asked for.
    #[verifier::loop_isolation(false)]
    pub fn recent_tasks(&self, page_size: u64, page: u64) -> (r: (Vec<Job>, u64))
        requires
            self.wf(),
            1 <= page_size,
        ensures
            r.1 as nat == page_count(self.jobs@.len(), page_size as nat),
            r.0@ == page_slice(self.jobs@, page_size as nat, page as nat),
    {
        let total: u64 = self.jobs.len() as u64;
        let quot: u64 = total / page_size;
        let rem: u64 = total % page_size;
        let pages: u64 = if rem != 0 {
            proof {
                assert(page_size >= 2);
                vstd::arithmetic::div_mod::lemma_div_is_ordered_by_denominator(
                    total as int,
                    2,
                    page_size as int,
                );
                vstd::arithmetic::div_mod::lemma_div_is_ordered(
                    total as int,
                    u64::MAX as int,
                    2,
                );
            }
            quot + 1
        } else {
            quot
        };
        if page >= pages {
            proof {
                lemma_page_out_of_range(total as nat, page_size as nat, page as nat);
                assert(page_slice(self.jobs@, page_size as nat, page as nat)
                    =~= Seq::<Job>::empty());
            }
            return (Vec::new(), pages);
        }
        proof {
            lemma_page_in_range(total as nat, page_size as nat, page as nat);
        }
        let start: u64 = page * page_size;
        let remaining: u64 = total - start;
        let count: usize = if page_size < remaining {
            page_size as usize
        } else {
            remaining as usize
        };
        let start_us: usize = start as usize;
        let n = self.jobs.len();
        let mut r: Vec<Job> = Vec::new();
        for t in 0..count
            invariant
                r@.len() == t,
                forall|w: int|
                    0 <= w < t ==> r@[w] == self.jobs@[n - 1 - start_us - w],
        {
            let item = self.jobs[n - 1 - start_us - t].clone();
            r.push(item);
        }
        proof {
            assert(r@ =~= page_slice(self.jobs@, page_size as nat, page as nat));
        }
        (r, pages)
    }
}

} // verus!
