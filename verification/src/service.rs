//! The job service and the runner's scheduler.
//!
//! One structure owns what the whole subsystem shares: the store, the
//! notifier, the two flags ("keep running" and "has work"), and the runner's
//! place in its current batch. The service operations (`add_task`,
//! `cancel_task`, `reset_task`, `list_task`) mutate the store and raise the
//! has-work flag; the runner operations (`poll_tasks`, `claim_next`,
//! `finish_current`) drain the pending queue one job at a time in submission
//! order. The loop around them — spawn, wait, sleep — lives outside; every
//! decision lives here.

use vstd::prelude::*;
use crate::clock::clock_now;
use crate::model::{Job, TaskStatus, Timestamp, valid_transition};
use crate::runner::{ExecOutcome, verdict_status, verdict_message, run_verdict};
use crate::notify::{Notifier, StatusEvent, published};
use crate::store::{
    JobStore, JobError, contains_id, idx_of, job_by_id, pending_of, fifo_le, with_status,
    lemma_idx_of_unique, lemma_lookup_push, lemma_lookup_update, lemma_lookup_remove,
    lemma_member_lookup, lemma_pending_of_contains, lemma_pending_empty,
};

verus! {

/// How many jobs one listing page holds.
pub const PAGE_SIZE: u64 = 10;

/// Two instants on the same calendar day.
pub open spec fn same_day(a: Timestamp, b: Timestamp) -> bool {
    a.year == b.year && a.month == b.month && a.day == b.day
}

/// The reset guard: only a failed job may be reset, and only while its
/// creation date is still the current day — its log and artifact paths are
/// month- and day-partitioned, and a stale reset would write into paths no
/// longer considered current.
pub fn can_reset(job: &Job, today: &Timestamp) -> (r: bool)
    ensures
        r == (job.status == TaskStatus::Failed && same_day(job.created_at, *today)),
{
    job.status == TaskStatus::Failed && job.created_at.year == today.year
        && job.created_at.month == today.month && job.created_at.day == today.day
}

/// The shared state of the subsystem: store, notifier, flags, and the
/// runner's place in its batch.
pub struct Scheduler {
    pub store: JobStore,
    pub notifier: Notifier,
    pub keep_running: bool,
    pub has_work: bool,
    pub batch: Vec<i32>,
    pub pos: usize,
    pub current: Option<i32>,
}

impl Scheduler {
    /// The batch is a snapshot of the pending queue: distinct ids below the
    /// store's next id, in submission order, and everything not yet claimed
    /// is still pending (or gone).
    pub open spec fn batch_ok(self) -> bool {
        &&& self.pos <= self.batch@.len()
        &&& forall|i: int, j: int|
            0 <= i < j < self.batch@.len() ==> (#[trigger] self.batch@[i]) != (
            #[trigger] self.batch@[j])
        &&& forall|i: int|
            0 <= i < self.batch@.len() ==> (#[trigger] self.batch@[i]) < self.store.next_id
        &&& forall|i: int, j: int|
            0 <= i < j < self.batch@.len() && contains_id(
                self.store.jobs@,
                (#[trigger] self.batch@[i]) as int,
            ) && contains_id(self.store.jobs@, (#[trigger] self.batch@[j]) as int) ==> fifo_le(
                job_by_id(self.store.jobs@, self.batch@[i] as int),
                job_by_id(self.store.jobs@, self.batch@[j] as int),
            )
        &&& forall|i: int|
            self.pos <= i < self.batch@.len() && contains_id(
                self.store.jobs@,
                (#[trigger] self.batch@[i]) as int,
            ) ==> job_by_id(self.store.jobs@, self.batch@[i] as int).status == TaskStatus::Pending
    }

    /// Whatever runs is the claimed job: the runner claims the last batch
    /// entry before its cursor, and nothing runs while nothing is claimed.
    pub open spec fn current_ok(self) -> bool {
        &&& match self.current {
            Some(id) => {
                &&& 1 <= self.pos <= self.batch@.len()
                &&& self.batch@[self.pos - 1] == id
                &&& contains_id(self.store.jobs@, id as int) ==> job_by_id(
                    self.store.jobs@,
                    id as int,
                ).status == TaskStatus::Running
            },
            None => true,
        }
        &&& forall|i: int|
            0 <= i < self.store.jobs@.len() && (#[trigger] self.store.jobs@[i]).status
                == TaskStatus::Running ==> self.current == Some(self.store.jobs@[i].id)
    }

    /// The whole subsystem's invariant. The has-work flag may be raised
    /// with nothing to do, but is never down while something is pending —
    /// a pending job waits at most one poll.
    pub open spec fn wf(self) -> bool {
        &&& self.store.wf()
        &&& self.notifier.wf()
        &&& self.batch_ok()
        &&& self.current_ok()
        &&& !self.has_work ==> pending_of(self.store.jobs@).len() == 0
    }

    /// A fresh subsystem: empty store, no subscribers, both flags raised,
    /// nothing claimed.
    pub fn new(notify_cap: usize) -> (r: Scheduler)
        requires
            notify_cap >= 1,
        ensures
            r.wf(),
            r.store.jobs@.len() == 0,
            r.store.next_id == 1,
            r.notifier.cap == notify_cap,
            r.notifier.subs@.len() == 0,
            r.keep_running,
            r.has_work,
            r.batch@.len() == 0,
            r.pos == 0,
            r.current is None,
    {
        Scheduler {
            store: JobStore::new(),
            notifier: Notifier::new(notify_cap),
            keep_running: true,
            has_work: true,
            batch: Vec::new(),
            pos: 0,
            current: None,
        }
    }

    /// Stop the runner: the loop finishes its current iteration and exits.
    pub fn stop(&mut self)
        requires
            old(self).wf(),
        ensures
            final(self).wf(),
            *final(self) == (Scheduler { keep_running: false, ..*old(self) }),
    {
        self.keep_running = false;
    }

    /// Submit a job: validate, persist it as `Pending` with both timestamps
    /// set to now, and signal the runner that work may exist. Succeeds on
    /// exactly the submissions with a non-empty name and command, while ids
    /// remain.
    pub fn add_task(&mut self, name: String, command: String, output: Option<String>) -> (r:
        Result<Job, JobError>)
        requires
            old(self).wf(),
        ensures
            final(self).wf(),
            final(self).keep_running == old(self).keep_running,
            final(self).batch@ == old(self).batch@,
            final(self).pos == old(self).pos,
            final(self).current == old(self).current,
            final(self).notifier == old(self).notifier,
            (name@.len() == 0 || command@.len() == 0) ==> r == Err::<Job, JobError>(
                JobError::Validation,
            ) && *final(self) == *old(self),
            (name@.len() > 0 && command@.len() > 0 && old(self).store.next_id == i32::MAX) ==> r
                == Err::<Job, JobError>(JobError::Store) && *final(self) == *old(self),
            (name@.len() > 0 && command@.len() > 0 && old(self).store.next_id < i32::MAX) ==> (
            match r {
                Ok(job) => {
                    &&& job.id == old(self).store.next_id
                    &&& job.name == name
                    &&& job.command == command
                    &&& job.output == output
                    &&& job.status == TaskStatus::Pending
                    &&& job.created_at == job.updated_at
                    &&& job.created_at.wf()
                    &&& final(self).store.jobs@ == old(self).store.jobs@.push(job)
                    &&& final(self).store.next_id == old(self).store.next_id + 1
                    &&& final(self).has_work
                },
                Err(_) => false,
            }),
    {
        if name.as_str().is_empty() || command.as_str().is_empty() {
            return Err(JobError::Validation);
        }
        let now = clock_now();
        let created = self.store.create_task(name, command, output, now);
        match created {
            Ok(job) => {
                self.has_work = true;
                proof {
                    let olds = old(self).store.jobs@;
                    let news = self.store.jobs@;
                    assert forall|i: int|
                        0 <= i < self.batch@.len() && contains_id(
                            news,
                            (#[trigger] self.batch@[i]) as int,
                        ) implies contains_id(olds, self.batch@[i] as int) && job_by_id(
                        news,
                        self.batch@[i] as int,
                    ) == job_by_id(olds, self.batch@[i] as int) by {
                        lemma_lookup_push(olds, job, self.batch@[i] as int);
                    }
                    assert forall|i: int|
                        0 <= i < self.batch@.len() && contains_id(
                            olds,
                            (#[trigger] self.batch@[i]) as int,
                        ) implies contains_id(news, self.batch@[i] as int) by {
                        lemma_lookup_push(olds, job, self.batch@[i] as int);
                    }
                    assert forall|i: int|
                        0 <= i < news.len() && (#[trigger] news[i]).status == TaskStatus::Running
                            implies self.current == Some(news[i].id) by {
                        assert(news[i] == olds.push(job)[i]);
                        if i < olds.len() {
                            assert(olds[i].status == TaskStatus::Running);
                        }
                    }
                }
                Ok(job)
            },
            Err(e) => Err(e),
        }
    }

    /// Cancel a job: delete its record unconditionally if found, and report
    /// whether a record was removed. No status guard; the runner tolerates
    /// a job vanishing under it.
    pub fn cancel_task(&mut self, id: i32) -> (r: bool)
        requires
            old(self).wf(),
        ensures
            final(self).wf(),
            final(self).keep_running == old(self).keep_running,
            final(self).has_work == old(self).has_work,
            final(self).batch@ == old(self).batch@,
            final(self).pos == old(self).pos,
            final(self).current == old(self).current,
            final(self).notifier == old(self).notifier,
            final(self).store.next_id == old(self).store.next_id,
            r == contains_id(old(self).store.jobs@, id as int),
            !contains_id(final(self).store.jobs@, id as int),
            contains_id(old(self).store.jobs@, id as int) ==> final(self).store.jobs@ == old(
                self,
            ).store.jobs@.remove(idx_of(old(self).store.jobs@, id as int)),
            !contains_id(old(self).store.jobs@, id as int) ==> *final(self) == *old(self),
    {
        let olds = Ghost(self.store.jobs@);
        let r = self.store.delete_task(id);
        proof {
            if contains_id(olds@, id as int) {
                let k = idx_of(olds@, id as int);
                let news = self.store.jobs@;
                assert forall|i: int|
                    0 <= i < self.batch@.len() && contains_id(
                        news,
                        (#[trigger] self.batch@[i]) as int,
                    ) implies contains_id(olds@, self.batch@[i] as int) && job_by_id(
                    news,
                    self.batch@[i] as int,
                ) == job_by_id(olds@, self.batch@[i] as int) by {
                    if self.batch@[i] != id {
                        lemma_lookup_remove(olds@, k, self.batch@[i] as int);
                    }
                }
                assert forall|i: int|
                    0 <= i < news.len() && (#[trigger] news[i]).status == TaskStatus::Running
                        implies self.current == Some(news[i].id) by {
                    let i0 = if i < k {
                        i
                    } else {
                        i + 1
                    };
                    assert(news[i] == olds@[i0]);
                }
                if !self.has_work {
                    lemma_pending_empty(olds@);
                    lemma_pending_empty(news);
                    assert forall|i: int|
                        0 <= i < news.len() implies (#[trigger] news[i]).status
                            != TaskStatus::Pending by {
                        let i0 = if i < k {
                            i
                        } else {
                            i + 1
                        };
                        assert(news[i] == olds@[i0]);
                    }
                }
            }
        }
        r
    }

    /// Reset a failed job of the given day back to `Pending`: keep its
    /// creation time (and so its place in the queue), stamp `updated_at`
    /// with `today`, publish the change and signal the runner. Succeeds on
    /// exactly the found `Failed` jobs created on `today`'s calendar day;
    /// rejects unknown ids (`NotFound`) and everything else (`Validation`).
    pub fn reset_at(&mut self, id: i32, today: Timestamp) -> (r: Result<Job, JobError>)
        requires
            old(self).wf(),
            today.wf(),
        ensures
            final(self).wf(),
            final(self).keep_running == old(self).keep_running,
            final(self).batch@ == old(self).batch@,
            final(self).pos == old(self).pos,
            final(self).current == old(self).current,
            final(self).store.next_id == old(self).store.next_id,
            !contains_id(old(self).store.jobs@, id as int) ==> r == Err::<Job, JobError>(
                JobError::NotFound,
            ) && *final(self) == *old(self),
            contains_id(old(self).store.jobs@, id as int) && !(job_by_id(
                old(self).store.jobs@,
                id as int,
            ).status == TaskStatus::Failed && same_day(
                job_by_id(old(self).store.jobs@, id as int).created_at,
                today,
            )) ==> r == Err::<Job, JobError>(JobError::Validation) && *final(self) == *old(self),
            contains_id(old(self).store.jobs@, id as int) && job_by_id(
                old(self).store.jobs@,
                id as int,
            ).status == TaskStatus::Failed && same_day(
                job_by_id(old(self).store.jobs@, id as int).created_at,
                today,
            ) ==> ({
                let prev = job_by_id(old(self).store.jobs@, id as int);
                let job = with_status(prev, TaskStatus::Pending, today);
                &&& r == Ok::<Job, JobError>(job)
                &&& final(self).store.jobs@ == old(self).store.jobs@.update(
                    idx_of(old(self).store.jobs@, id as int),
                    job,
                )
                &&& final(self).has_work
                &&& published(
                    old(self).notifier,
                    final(self).notifier,
                    (StatusEvent { id, status: TaskStatus::Pending }),
                )
            }),
    {
        let found = self.store.find_task(id);
        match found {
            None => Err(JobError::NotFound),
            Some(job) => {
                if !can_reset(&job, &today) {
                    return Err(JobError::Validation);
                }
                proof {
                    assert forall|i: int|
                        0 <= i < self.store.jobs@.len() && (#[trigger] self.store.jobs@[i]).id
                            == id implies valid_transition(
                        self.store.jobs@[i].status,
                        TaskStatus::Pending,
                    ) by {
                        lemma_idx_of_unique(self.store.jobs@, id as int, i);
                    }
                }
                let updated = self.store.update_task(id, TaskStatus::Pending, today);
                match updated {
                    Ok(job2) => {
                        self.has_work = true;
                        self.notifier.publish(StatusEvent { id, status: TaskStatus::Pending });
                        proof {
                            let olds = old(self).store.jobs@;
                            let news = self.store.jobs@;
                            let k = idx_of(olds, id as int);
                            lemma_lookup_update(olds, k, job2, id as int);
                            assert forall|i: int|
                                0 <= i < self.batch@.len() && contains_id(
                                    news,
                                    (#[trigger] self.batch@[i]) as int,
                                ) implies contains_id(olds, self.batch@[i] as int) by {
                                lemma_lookup_update(olds, k, job2, self.batch@[i] as int);
                            }
                            assert forall|i: int, j: int|
                                0 <= i < j < self.batch@.len() && contains_id(
                                    news,
                                    (#[trigger] self.batch@[i]) as int,
                                ) && contains_id(news, (#[trigger] self.batch@[j]) as int)
                                implies fifo_le(
                                job_by_id(news, self.batch@[i] as int),
                                job_by_id(news, self.batch@[j] as int),
                            ) by {
                                lemma_lookup_update(olds, k, job2, self.batch@[i] as int);
                                lemma_lookup_update(olds, k, job2, self.batch@[j] as int);
                            }
                            assert forall|i: int|
                                self.pos <= i < self.batch@.len() && contains_id(
                                    news,
                                    (#[trigger] self.batch@[i]) as int,
                                ) implies job_by_id(news, self.batch@[i] as int).status
                                == TaskStatus::Pending by {
                                lemma_lookup_update(olds, k, job2, self.batch@[i] as int);
                            }
                            if old(self).current is Some {
                                let c = old(self).current->0;
                                if c != id {
                                    lemma_lookup_update(olds, k, job2, c as int);
                                }
                            }
                            assert forall|i: int|
                                0 <= i < news.len() && (#[trigger] news[i]).status
                                    == TaskStatus::Running implies self.current == Some(
                                news[i].id,
                            ) by {
                                assert(news == olds.update(k, job2));
                                if i != k {
                                    assert(news[i] == olds[i]);
                                }
                            }
                        }
                        Ok(job2)
                    },
                    Err(_) => {
                        proof {
                            assert(false);
                        }
                        Err(JobError::Store)
                    },
                }
            },
        }
    }

    /// Reset a failed job of the current day back to `Pending`. The clock
    /// decides whether the job still counts as today's; `reset_at` takes
    /// that reading as an argument and pins the outcome for every value of
    /// it, so this wrapper promises what holds of every reading: a found
    /// `Failed` job is either reset exactly as `reset_at` says or rejected
    /// as stale with `Validation`.
    pub fn reset_task(&mut self, id: i32) -> (r: Result<Job, JobError>)
        requires
            old(self).wf(),
        ensures
            final(self).wf(),
            final(self).keep_running == old(self).keep_running,
            final(self).batch@ == old(self).batch@,
            final(self).pos == old(self).pos,
            final(self).current == old(self).current,
            final(self).store.next_id == old(self).store.next_id,
            !contains_id(old(self).store.jobs@, id as int) ==> r == Err::<Job, JobError>(
                JobError::NotFound,
            ) && *final(self) == *old(self),
            contains_id(old(self).store.jobs@, id as int) && job_by_id(
                old(self).store.jobs@,
                id as int,
            ).status != TaskStatus::Failed ==> r == Err::<Job, JobError>(JobError::Validation)
                && *final(self) == *old(self),
            contains_id(old(self).store.jobs@, id as int) && job_by_id(
                old(self).store.jobs@,
                id as int,
            ).status == TaskStatus::Failed ==> (match r {
                Ok(job) => {
                    let prev = job_by_id(old(self).store.jobs@, id as int);
                    &&& (exists|today: Timestamp|
                        (#[trigger] today.wf()) && same_day(prev.created_at, today) && job
                            == with_status(prev, TaskStatus::Pending, today))
                    &&& final(self).store.jobs@ == old(self).store.jobs@.update(
                        idx_of(old(self).store.jobs@, id as int),
                        job,
                    )
                    &&& final(self).has_work
                    &&& published(
                        old(self).notifier,
                        final(self).notifier,
                        (StatusEvent { id, status: TaskStatus::Pending }),
                    )
                },
                Err(e) => e == JobError::Validation && *final(self) == *old(self),
            }),
    {
        let today = clock_now();
        let r = self.reset_at(id, today);
        proof {
            if contains_id(old(self).store.jobs@, id as int) {
                let prev = job_by_id(old(self).store.jobs@, id as int);
                if prev.status == TaskStatus::Failed && same_day(prev.created_at, today) {
                    assert((#[trigger] today.wf()) && same_day(prev.created_at, today)
                        && with_status(prev, TaskStatus::Pending, today) == with_status(
                        prev,
                        TaskStatus::Pending,
                        today,
                    ));
                }
            }
        }
        r
    }

    /// One page of the job listing, most recent first, 1-indexed, with the
    /// total page count. Page 0 is rejected.
    pub fn list_task(&self, page: u64) -> (r: Result<(Vec<Job>, u64), JobError>)
        requires
            self.wf(),
        ensures
            page == 0 ==> r == Err::<(Vec<Job>, u64), JobError>(JobError::Validation),
            page >= 1 ==> (match r {
                Ok(pair) => {
                    &&& pair.0@ == crate::store::page_slice(
                        self.store.jobs@,
                        PAGE_SIZE as nat,
                        (page - 1) as nat,
                    )
                    &&& pair.1 as nat == crate::store::page_count(
                        self.store.jobs@.len(),
                        PAGE_SIZE as nat,
                    )
                },
                Err(_) => false,
            }),
    {
        if page == 0 {
            return Err(JobError::Validation);
        }
        let (items, pages) = self.store.recent_tasks(PAGE_SIZE, page - 1);
        Ok((items, pages))
    }

    /// One poll: if work may exist, snapshot the pending queue as the next
    /// batch, oldest submission first; clear the has-work flag instead when
    /// the queue came back empty. Reports whether a batch was started. The
    /// snapshot is complete — every pending job is in it — so nothing is
    /// ever lost, only delayed by at most one poll.
    #[verifier::loop_isolation(false)]
    pub fn poll_tasks(&mut self) -> (r: bool)
        requires
            old(self).wf(),
            old(self).current is None,
            old(self).pos == old(self).batch@.len(),
        ensures
            final(self).wf(),
            final(self).store == old(self).store,
            final(self).notifier == old(self).notifier,
            final(self).keep_running == old(self).keep_running,
            final(self).current is None,
            r == (old(self).has_work && pending_of(old(self).store.jobs@).len() > 0),
            !old(self).has_work ==> *final(self) == *old(self),
            old(self).has_work && pending_of(old(self).store.jobs@).len() == 0
                ==> !final(self).has_work && final(self).pos == final(self).batch@.len(),
            r ==> ({
                &&& final(self).has_work
                &&& final(self).pos == 0
                &&& final(self).batch@.len() > 0
                &&& forall|k: int|
                    0 <= k < final(self).batch@.len() ==> contains_id(
                        old(self).store.jobs@,
                        (#[trigger] final(self).batch@[k]) as int,
                    )
                &&& forall|i: int|
                    0 <= i < old(self).store.jobs@.len()
                        && (#[trigger] old(self).store.jobs@[i]).status == TaskStatus::Pending
                        ==> final(self).batch@.contains(old(self).store.jobs@[i].id)
            }),
    {
        if !self.has_work {
            return false;
        }
        let pending = self.store.pending_tasks();
        if pending.len() == 0 {
            self.has_work = false;
            proof {
                broadcast use vstd::seq_lib::group_to_multiset_ensures;

                assert(pending@.to_multiset().len() == 0);
                assert(pending_of(self.store.jobs@).len() == pending_of(
                    self.store.jobs@,
                ).to_multiset().len());
            }
            return false;
        }
        let mut batch: Vec<i32> = Vec::new();
        let m = pending.len();
        for k in 0..m
            invariant
                batch@.len() == k,
                forall|w: int| 0 <= w < k ==> (#[trigger] batch@[w]) == pending@[w].id,
        {
            batch.push(pending[k].id);
        }
        self.batch = batch;
        self.pos = 0;
        proof {
            broadcast use vstd::seq_lib::group_to_multiset_ensures;

            let s = self.store.jobs@;
            let p = pending@;
            assert(pending_of(s).len() == pending_of(s).to_multiset().len());
            // every batch entry looks up the pending record it came from
            assert forall|w: int|
                0 <= w < p.len() implies contains_id(s, (#[trigger] self.batch@[w]) as int)
                    && job_by_id(s, self.batch@[w] as int) == p[w] by {
                assert(s.contains(p[w]));
                lemma_member_lookup(s, p[w]);
            }
            // the snapshot has no duplicate ids
            crate::store::lemma_pending_ids_increasing(s);
            crate::store::lemma_ids_increasing_no_dup(pending_of(s));
            pending_of(s).lemma_multiset_has_no_duplicates();
            p.lemma_multiset_has_no_duplicates_conv();
            assert forall|i: int, j: int|
                0 <= i < j < self.batch@.len() implies (#[trigger] self.batch@[i]) != (
            #[trigger] self.batch@[j]) by {
                if self.batch@[i] == self.batch@[j] {
                    assert(job_by_id(s, self.batch@[i] as int) == p[i]);
                    assert(job_by_id(s, self.batch@[j] as int) == p[j]);
                    assert(p[i] == p[j]);
                }
            }
            // order and pending-ness carry over from the snapshot
            assert forall|i: int, j: int|
                0 <= i < j < self.batch@.len() && contains_id(
                    s,
                    (#[trigger] self.batch@[i]) as int,
                ) && contains_id(s, (#[trigger] self.batch@[j]) as int) implies fifo_le(
                job_by_id(s, self.batch@[i] as int),
                job_by_id(s, self.batch@[j] as int),
            ) by {
                assert(fifo_le(p[i], p[j]));
            }
            // completeness: every pending record's id is in the batch
            assert forall|i: int|
                0 <= i < s.len() && (#[trigger] s[i]).status == TaskStatus::Pending implies self
                    .batch@.contains(s[i].id) by {
                lemma_pending_of_contains(s, s[i]);
                assert(pending_of(s).contains(s[i]));
                assert(pending_of(s).to_multiset().count(s[i]) > 0);
                assert(p.to_multiset().count(s[i]) > 0);
                assert(p.contains(s[i]));
                let w = choose|w: int| 0 <= w < p.len() && p[w] == s[i];
                assert(self.batch@[w] == s[i].id);
            }
        }
        true
    }
}

/// What one claim attempt yielded: a job now marked `Running` and owed an
/// execution, a batch entry that vanished before its turn (cancelled), or
/// nothing left to claim.
#[derive(Debug)]
pub enum ClaimOutcome {
    Claimed(Job),
    Skipped(i32),
    Idle,
}

impl Scheduler {
    /// Claim the next batch entry: mark it `Running`, stamp it, publish the
    /// change, and hand the record out for execution. Entries that were
    /// cancelled in the meantime are skipped without fuss. Only an idle
    /// runner may claim — one job at a time, in batch order.
    #[verifier::rlimit(60)]
    pub fn claim_next(&mut self) -> (r: ClaimOutcome)
        requires
            old(self).wf(),
            old(self).current is None,
        ensures
            final(self).wf(),
            final(self).keep_running == old(self).keep_running,
            final(self).has_work == old(self).has_work,
            final(self).batch@ == old(self).batch@,
            final(self).store.next_id == old(self).store.next_id,
            old(self).pos == old(self).batch@.len() ==> r is Idle && *final(self) == *old(self),
            old(self).pos < old(self).batch@.len() ==> ({
                let id = old(self).batch@[old(self).pos as int];
                &&& final(self).pos == old(self).pos + 1
                &&& (!contains_id(old(self).store.jobs@, id as int) ==> ({
                    &&& r == ClaimOutcome::Skipped(id)
                    &&& final(self).store == old(self).store
                    &&& final(self).notifier == old(self).notifier
                    &&& final(self).current is None
                }))
                &&& (contains_id(old(self).store.jobs@, id as int) ==> (match r {
                    ClaimOutcome::Claimed(job) => {
                        let prev = job_by_id(old(self).store.jobs@, id as int);
                        &&& job.id == id
                        &&& job.status == TaskStatus::Running
                        &&& job.name == prev.name
                        &&& job.command == prev.command
                        &&& job.output == prev.output
                        &&& job.created_at == prev.created_at
                        &&& job.updated_at.unix >= job.created_at.unix
                        &&& final(self).store.jobs@ == old(self).store.jobs@.update(
                            idx_of(old(self).store.jobs@, id as int),
                            job,
                        )
                        &&& final(self).current == Some(id)
                        &&& published(
                            old(self).notifier,
                            final(self).notifier,
                            (StatusEvent { id, status: TaskStatus::Running }),
                        )
                    },
                    _ => false,
                }))
            }),
    {
        if self.pos == self.batch.len() {
            return ClaimOutcome::Idle;
        }
        let id = self.batch[self.pos];
        self.pos = self.pos + 1;
        proof {
            let olds = old(self).store.jobs@;
            assert forall|i: int|
                0 <= i < olds.len() && (#[trigger] olds[i]).id == id implies valid_transition(
                olds[i].status,
                TaskStatus::Running,
            ) by {
                lemma_idx_of_unique(olds, id as int, i);
            }
            assert forall|i: int|
                0 <= i < olds.len() implies (#[trigger] olds[i]).status != TaskStatus::Running by {
                if olds[i].status == TaskStatus::Running {
                    assert(old(self).current == Some(olds[i].id));
                }
            }
        }
        let now = clock_now();
        let updated = self.store.update_task(id, TaskStatus::Running, now);
        match updated {
            Ok(job) => {
                self.current = Some(id);
                self.notifier.publish(StatusEvent { id, status: TaskStatus::Running });
                proof {
                    let olds = old(self).store.jobs@;
                    let news = self.store.jobs@;
                    let k = idx_of(olds, id as int);
                    lemma_lookup_update(olds, k, job, id as int);
                    assert forall|i: int, j: int|
                        0 <= i < j < self.batch@.len() && contains_id(
                            news,
                            (#[trigger] self.batch@[i]) as int,
                        ) && contains_id(news, (#[trigger] self.batch@[j]) as int) implies fifo_le(
                        job_by_id(news, self.batch@[i] as int),
                        job_by_id(news, self.batch@[j] as int),
                    ) by {
                        lemma_lookup_update(olds, k, job, self.batch@[i] as int);
                        lemma_lookup_update(olds, k, job, self.batch@[j] as int);
                    }
                    assert forall|i: int|
                        self.pos <= i < self.batch@.len() && contains_id(
                            news,
                            (#[trigger] self.batch@[i]) as int,
                        ) implies job_by_id(news, self.batch@[i] as int).status
                        == TaskStatus::Pending by {
                        assert(self.batch@[i] != id);
                        lemma_lookup_update(olds, k, job, self.batch@[i] as int);
                    }
                    assert forall|i: int|
                        0 <= i < news.len() && (#[trigger] news[i]).status == TaskStatus::Running
                            implies self.current == Some(news[i].id) by {
                        if i != k {
                            assert(news[i] == olds[i]);
                        }
                    }
                    if !self.has_work {
                        lemma_pending_empty(olds);
                        lemma_idx_of_unique(olds, id as int, k);
                        assert(olds[k].status == TaskStatus::Pending);
                    }
                }
                ClaimOutcome::Claimed(job)
            },
            Err(_) => {
                proof {
                    assert forall|i: int|
                        self.pos <= i < self.batch@.len() && contains_id(
                            self.store.jobs@,
                            (#[trigger] self.batch@[i]) as int,
                        ) implies job_by_id(self.store.jobs@, self.batch@[i] as int).status
                        == TaskStatus::Pending by {}
                }
                ClaimOutcome::Skipped(id)
            },
        }
    }

    /// Record the fate of the claimed job: judge the run, persist the
    /// terminal status, publish it, and go idle. A job cancelled while it
    /// ran simply has nothing left to update — that is not a fault.
    #[verifier::rlimit(60)]
    pub fn finish_current(&mut self, outcome: &ExecOutcome, artifact_exists: bool) -> (r: Option<
        (Job, Option<String>),
    >)
        requires
            old(self).wf(),
            old(self).current is Some,
        ensures
            final(self).wf(),
            final(self).current is None,
            final(self).keep_running == old(self).keep_running,
            final(self).has_work == old(self).has_work,
            final(self).batch@ == old(self).batch@,
            final(self).pos == old(self).pos,
            final(self).store.next_id == old(self).store.next_id,
            ({
                let id = old(self).current->0;
                &&& (!contains_id(old(self).store.jobs@, id as int) ==> ({
                    &&& r is None
                    &&& final(self).store == old(self).store
                    &&& final(self).notifier == old(self).notifier
                }))
                &&& (contains_id(old(self).store.jobs@, id as int) ==> (match r {
                    Some(pair) => {
                        let prev = job_by_id(old(self).store.jobs@, id as int);
                        let status = verdict_status(*outcome, prev.output is Some, artifact_exists);
                        &&& pair.0.id == id
                        &&& pair.0.status == status
                        &&& status.is_terminal()
                        &&& pair.0.name == prev.name
                        &&& pair.0.command == prev.command
                        &&& pair.0.output == prev.output
                        &&& pair.0.created_at == prev.created_at
                        &&& pair.0.updated_at.unix >= pair.0.created_at.unix
                        &&& final(self).store.jobs@ == old(self).store.jobs@.update(
                            idx_of(old(self).store.jobs@, id as int),
                            pair.0,
                        )
                        &&& (match pair.1 {
                            Some(m) => verdict_message(
                                *outcome,
                                prev.output.deep_view(),
                                artifact_exists,
                            ) == Some(m@),
                            None => verdict_message(
                                *outcome,
                                prev.output.deep_view(),
                                artifact_exists,
                            ) is None,
                        })
                        &&& published(
                            old(self).notifier,
                            final(self).notifier,
                            (StatusEvent { id, status }),
                        )
                    },
                    None => false,
                }))
            }),
    {
        let id = self.current.unwrap();
        let found = self.store.find_task(id);
        match found {
            None => {
                self.current = None;
                proof {
                    let news = self.store.jobs@;
                    assert forall|i: int|
                        0 <= i < news.len() implies (#[trigger] news[i]).status
                            != TaskStatus::Running by {
                        if news[i].status == TaskStatus::Running {
                            assert(old(self).current == Some(news[i].id));
                        }
                    }
                }
                None
            },
            Some(job) => {
                let verdict = run_verdict(outcome, &job.output, artifact_exists);
                let status = verdict.0;
                proof {
                    let olds = old(self).store.jobs@;
                    assert(job_by_id(olds, id as int).status == TaskStatus::Running);
                    assert(status == TaskStatus::Success || status == TaskStatus::Failed);
                    assert forall|i: int|
                        0 <= i < olds.len() && (#[trigger] olds[i]).id == id
                            implies valid_transition(olds[i].status, status) by {
                        lemma_idx_of_unique(olds, id as int, i);
                    }
                }
                let now = clock_now();
                let updated = self.store.update_task(id, status, now);
                match updated {
                    Ok(job2) => {
                        self.current = None;
                        self.notifier.publish(StatusEvent { id, status });
                        proof {
                            let olds = old(self).store.jobs@;
                            let news = self.store.jobs@;
                            let k = idx_of(olds, id as int);
                            lemma_lookup_update(olds, k, job2, id as int);
                            assert forall|i: int, j: int|
                                0 <= i < j < self.batch@.len() && contains_id(
                                    news,
                                    (#[trigger] self.batch@[i]) as int,
                                ) && contains_id(news, (#[trigger] self.batch@[j]) as int)
                                implies fifo_le(
                                job_by_id(news, self.batch@[i] as int),
                                job_by_id(news, self.batch@[j] as int),
                            ) by {
                                lemma_lookup_update(olds, k, job2, self.batch@[i] as int);
                                lemma_lookup_update(olds, k, job2, self.batch@[j] as int);
                            }
                            assert forall|i: int|
                                self.pos <= i < self.batch@.len() && contains_id(
                                    news,
                                    (#[trigger] self.batch@[i]) as int,
                                ) implies job_by_id(news, self.batch@[i] as int).status
                                == TaskStatus::Pending by {
                                assert(self.batch@[i] != id);
                                lemma_lookup_update(olds, k, job2, self.batch@[i] as int);
                            }
                            assert forall|i: int|
                                0 <= i < news.len() implies (#[trigger] news[i]).status
                                    != TaskStatus::Running by {
                                if news[i].status == TaskStatus::Running {
                                    if i != k {
                                        assert(news[i] == olds[i]);
                                        assert(old(self).current == Some(olds[i].id));
                                        lemma_idx_of_unique(olds, id as int, i);
                                    }
                                }
                            }
                            if !self.has_work {
                                lemma_pending_empty(olds);
                                lemma_pending_empty(news);
                                assert forall|i: int|
                                    0 <= i < news.len() implies (#[trigger] news[i]).status
                                        != TaskStatus::Pending by {
                                    if i != k {
                                        assert(news[i] == olds[i]);
                                    }
                                }
                            }
                        }
                        Some((job2, verdict.1))
                    },
                    Err(_) => {
                        proof {
                            assert(false);
                        }
                        None
                    },
                }
            },
        }
    }
}

/// Pending jobs are executed in submission order: of two batch entries
/// still present in the store, the earlier one was submitted no later —
/// ascending `created_at`, ties broken by ascending id. The runner claims
/// batch entries in index order (`claim_next` always takes the entry at its
/// cursor), so execution follows submission.
pub proof fn lemma_batch_in_submission_order(s: Scheduler, i: int, j: int)
    requires
        s.wf(),
        0 <= i < j < s.batch@.len(),
        contains_id(s.store.jobs@, s.batch@[i] as int),
        contains_id(s.store.jobs@, s.batch@[j] as int),
    ensures
        fifo_le(
            job_by_id(s.store.jobs@, s.batch@[i] as int),
            job_by_id(s.store.jobs@, s.batch@[j] as int),
        ),
{
}

/// A pending job is never stranded: while any job is pending, the has-work
/// flag is up, so the very next poll snapshots it into the batch.
pub proof fn lemma_pending_job_flags_work(s: Scheduler, id: int)
    requires
        s.wf(),
        contains_id(s.store.jobs@, id),
        job_by_id(s.store.jobs@, id).status == TaskStatus::Pending,
    ensures
        s.has_work,
{
    if !s.has_work {
        let k = idx_of(s.store.jobs@, id);
        lemma_pending_of_contains(s.store.jobs@, s.store.jobs@[k]);
        assert(pending_of(s.store.jobs@).contains(s.store.jobs@[k]));
    }
}

/// While one job runs, every other batch entry is out of the running:
/// entries claimed before it are finished or cancelled, later ones still
/// wait — none is `Running`. Together with `claim_next`'s precondition
/// (only an idle runner claims, in cursor order) and `finish_current`'s
/// postcondition (the claimed job is terminal or gone before the runner
/// goes idle), a job submitted first reaches its terminal status strictly
/// before the next one starts to run.
pub proof fn lemma_only_claimed_entry_runs(s: Scheduler, i: int)
    requires
        s.wf(),
        s.current is Some,
        0 <= i < s.batch@.len(),
        i != s.pos - 1,
    ensures
        contains_id(s.store.jobs@, s.batch@[i] as int) ==> job_by_id(
            s.store.jobs@,
            s.batch@[i] as int,
        ).status != TaskStatus::Running,
{
    let id = s.batch@[i];
    if contains_id(s.store.jobs@, id as int) {
        let k = idx_of(s.store.jobs@, id as int);
        assert(0 <= k < s.store.jobs@.len() && s.store.jobs@[k].id == id);
        if s.store.jobs@[k].status == TaskStatus::Running {
            assert(s.current == Some(s.store.jobs@[k].id));
            assert(s.batch@[s.pos - 1] == id);
        }
    }
}

/// An idle runner runs nothing: with no job claimed, no record anywhere in
/// the store is `Running` — the runner never leaves a job mid-flight.
pub proof fn lemma_idle_runner_nothing_running(s: Scheduler, i: int)
    requires
        s.wf(),
        s.current is None,
        0 <= i < s.store.jobs@.len(),
    ensures
        s.store.jobs@[i].status != TaskStatus::Running,
{
    if s.store.jobs@[i].status == TaskStatus::Running {
        assert(s.current == Some(s.store.jobs@[i].id));
    }
}

} // verus!
