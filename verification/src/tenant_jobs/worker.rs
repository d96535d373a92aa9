//! The table of a pool of workers: which jobs there are, what state each is
//! in, and which is due next.
//!
//! The table only decides. A worker asks it for the next step, runs the job
//! it is given outside of the table, and hands the result back. Instants
//! are nanoseconds on a monotonic clock.

use vstd::prelude::*;
use std::collections::HashMap;
use std::hash::Hash;
use vstd::std_specs::hash::obeys_key_model;

verus! {

/// A unit of work that can ask to be run again.
pub trait Job: Sized + Clone + Eq + Hash {
    type ErrorType;

    /// Runs the job. `Ok(Some(at))` asks for another run at `at`.
    fn run(&self) -> Result<Option<u64>, Self::ErrorType>;
}

/// Why a job is stuck.
pub enum JobError<J: Job> {
    /// The job panicked, with this message.
    Panic(String),
    Error(J::ErrorType),
}

/// The state of a job.
pub enum JobStatus<J: Job> {
    Ready { scheduled_for: u64 },
    Running { worker_name: String, started_at: u64 },
    Stuck(JobError<J>),
}

/// A job and the instant by which it is to start.
pub struct Deadline<J: Job> {
    pub start_by: u64,
    pub job: J,
}

pub struct JobStatusTable<J: Job> {
    /// Complete summary of current state
    pub status: HashMap<J, JobStatus<J>>,
    /// The runs that are scheduled. The one that is due first is found by
    /// `earliest`.
    pub queue: Vec<Deadline<J>>,
}

pub struct Pool<J: Job> {
    pub job_table: JobStatusTable<J>,
}

/// What a worker is to do next.
pub enum WorkerStep<J: Job> {
    /// Run this job, then call `Pool::job_finished`.
    Run(J),
    /// Nothing is due: wait this long, or until a job is queued.
    WaitFor(u64),
    /// Nothing is scheduled: wait until a job is queued.
    WaitForWork,
}

/// What the table relies on: jobs hash and compare as keys should, and a
/// clone of a job is equal to the job.
pub open spec fn job_identity<J: Job>() -> bool {
    &&& obeys_key_model::<J>()
    &&& forall|a: J, b: J| #[trigger] cloned(a, b) ==> a == b
}

/// The position of the run that is due first: the first one among those
/// with the least `start_by`.
pub open spec fn earliest<J: Job>(queue: Seq<Deadline<J>>) -> int
    decreases queue.len(),
{
    if queue.len() <= 1 {
        0
    } else {
        let before = earliest(queue.drop_last());
        if queue.last().start_by < queue[before].start_by {
            queue.len() - 1
        } else {
            before
        }
    }
}

/// The run that is due at `now`: the earliest one, if `now` is after its
/// `start_by`.
pub open spec fn due_run<J: Job>(queue: Seq<Deadline<J>>, now: u64) -> Option<Deadline<J>> {
    if queue.len() > 0 && now > queue[earliest(queue)].start_by {
        Some(queue[earliest(queue)])
    } else {
        None
    }
}

/// How long to wait at `now` for something that is due at `start_by`.
pub open spec fn wait_time(start_by: u64, now: u64) -> u64 {
    if start_by > now {
        (start_by - now) as u64
    } else {
        0
    }
}

/// `earliest` is a position in the queue, and no run is due before it.
pub proof fn lemma_earliest<J: Job>(queue: Seq<Deadline<J>>)
    requires
        queue.len() > 0,
    ensures
        0 <= earliest(queue) < queue.len(),
        forall|i: int|
            0 <= i < queue.len() ==> queue[earliest(queue)].start_by <= (#[trigger] queue[i]).start_by,
    decreases queue.len(),
{
    if queue.len() > 1 {
        let rest = queue.drop_last();
        lemma_earliest(rest);
        assert forall|i: int| 0 <= i < queue.len() implies queue[earliest(queue)].start_by <= (
        #[trigger] queue[i]).start_by by {
            if i < rest.len() {
                assert(rest[i] == queue[i]);
            }
        }
    }
}

impl<J: Job> JobStatusTable<J> {
    /// Whether every scheduled run belongs to a job that has a status.
    pub open spec fn runs_have_status(&self) -> bool {
        forall|i: int|
            0 <= i < self.queue@.len() ==> self.status@.dom().contains(
                (#[trigger] self.queue@[i]).job,
            )
    }

    /// Whether a run of `job` is scheduled.
    pub open spec fn is_scheduled(&self, job: J) -> bool {
        exists|i: int| 0 <= i < self.queue@.len() && (#[trigger] self.queue@[i]).job == job
    }

    /// Where the run that is due first stands.
    fn earliest_index(&self) -> (first: Option<usize>)
        ensures
            first is Some <==> self.queue@.len() > 0,
            first matches Some(i) ==> i == earliest(self.queue@) && i < self.queue@.len(),
    {
        let n = self.queue.len();
        if n == 0 {
            return None;
        }
        let mut first: usize = 0;
        let mut i: usize = 1;
        assert(self.queue@.take(1).len() == 1);
        while i < n
            invariant
                1 <= i <= n,
                n == self.queue@.len(),
                first < i,
                first == earliest(self.queue@.take(i as int)),
            decreases n - i,
        {
            proof {
                let upto = self.queue@.take(i + 1);
                assert(upto.drop_last() == self.queue@.take(i as int));
                assert(upto.last() == self.queue@[i as int]);
                assert(upto[first as int] == self.queue@[first as int]);
            }
            if self.queue[i].start_by < self.queue[first].start_by {
                first = i;
            }
            i = i + 1;
        }
        assert(self.queue@.take(n as int) == self.queue@);
        Some(first)
    }

    /// Whether `job` has a status.
    pub fn has_status(&self, job: &J) -> (known: bool)
        requires
            job_identity::<J>(),
        ensures
            known == self.status@.dom().contains(*job),
    {
        self.status.contains_key(job)
    }

    /// The run that is due at `now`, left where it is.
    pub fn peek_due(&self, now: u64) -> (due: Option<&Deadline<J>>)
        ensures
            match due {
                Some(run) => due_run(self.queue@, now) == Some(*run),
                None => due_run(self.queue@, now) is None,
            },
    {
        match self.earliest_index() {
            Some(first) => {
                if now > self.queue[first].start_by {
                    Some(&self.queue[first])
                } else {
                    None
                }
            },
            None => None,
        }
    }

    /// Takes the run that is due first out of the queue, if it is due:
    /// if `now` is after its `start_by`.
    pub fn pop_due(&mut self, now: u64) -> (due: Option<Deadline<J>>)
        ensures
            final(self).status@ == old(self).status@,
            due == due_run(old(self).queue@, now),
            final(self).queue@ == if due is Some {
                old(self).queue@.remove(earliest(old(self).queue@))
            } else {
                old(self).queue@
            },
    {
        match self.earliest_index() {
            Some(first) => {
                if now > self.queue[first].start_by {
                    Some(self.queue.remove(first))
                } else {
                    None
                }
            },
            None => None,
        }
    }

    /// Replaces the status of `job`, which has one.
    pub fn set_status(&mut self, job: &J, status: JobStatus<J>)
        requires
            job_identity::<J>(),
            old(self).status@.dom().contains(*job),
        ensures
            final(self).queue@ == old(self).queue@,
            final(self).status@ == old(self).status@.insert(*job, status),
    {
        let key = job.clone();
        assert(cloned(*job, key));
        self.status.insert(key, status);
    }
}

impl<J: Job> Pool<J> {
    /// A pool without jobs.
    pub fn new() -> (pool: Self)
        ensures
            pool.job_table.status@ == Map::<J, JobStatus<J>>::empty(),
            pool.job_table.queue@.len() == 0,
            pool.job_table.runs_have_status(),
    {
        Pool { job_table: JobStatusTable { status: HashMap::new(), queue: Vec::new() } }
    }

    /// Schedules `job` to run at once: its status is `Ready`, and a run is
    /// queued that is due at `now`. Idle workers have to be woken.
    pub fn queue_job(&mut self, job: J, now: u64)
        requires
            job_identity::<J>(),
        ensures
            final(self).job_table.status@ == old(self).job_table.status@.insert(
                job,
                JobStatus::Ready { scheduled_for: now },
            ),
            final(self).job_table.queue@ == old(self).job_table.queue@.push(
                Deadline { start_by: now, job },
            ),
            old(self).job_table.runs_have_status() ==> final(self).job_table.runs_have_status(),
    {
        let scheduled_for = now;
        let key = job.clone();
        assert(cloned(job, key));
        self.job_table.status.insert(key, JobStatus::Ready { scheduled_for });
        self.job_table.queue.push(Deadline { job, start_by: scheduled_for });
        proof {
            if old(self).job_table.runs_have_status() {
                assert forall|i: int|
                    0 <= i < self.job_table.queue@.len() implies self.job_table.status@.dom().contains(
                    (#[trigger] self.job_table.queue@[i]).job,
                ) by {
                    if i < old(self).job_table.queue@.len() {
                        assert(self.job_table.queue@[i] == old(self).job_table.queue@[i]);
                    }
                }
            }
        }
    }

    /// What the worker `worker_name` is to do at `now`.
    ///
    /// Where a run is due, it is taken out of the queue, its job is marked
    /// as running, and the worker is to run it. Otherwise the worker waits
    /// for the run that is due first, or for a job to be queued.
    ///
    /// The job of a run that is due has to have a status. A job loses its
    /// status when it is done, whatever runs of it are still scheduled.
    pub fn next_step(&mut self, worker_name: String, now: u64) -> (step: WorkerStep<J>)
        requires
            job_identity::<J>(),
            ({
                let table = old(self).job_table;
                due_run(table.queue@, now) matches Some(run) ==> table.status@.dom().contains(
                    run.job,
                )
            }),
        ensures
            ({
                let queue = old(self).job_table.queue@;
                let first = earliest(queue);
                if queue.len() == 0 {
                    &&& step is WaitForWork
                    &&& final(self).job_table.queue@ == queue
                    &&& final(self).job_table.status@ == old(self).job_table.status@
                } else if now > queue[first].start_by {
                    &&& step matches WorkerStep::Run(job)
                    &&& job == queue[first].job
                    &&& final(self).job_table.queue@ == queue.remove(first)
                    &&& final(self).job_table.status@ == old(self).job_table.status@.insert(
                        job,
                        JobStatus::Running { worker_name, started_at: now },
                    )
                } else {
                    &&& step matches WorkerStep::WaitFor(nanos)
                    &&& nanos == wait_time(queue[first].start_by, now)
                    &&& final(self).job_table.queue@ == queue
                    &&& final(self).job_table.status@ == old(self).job_table.status@
                }
            }),
            old(self).job_table.runs_have_status() ==> final(self).job_table.runs_have_status(),
    {
        let ghost queue = self.job_table.queue@;
        let ghost first = earliest(queue);
        proof {
            if queue.len() > 0 {
                lemma_earliest(queue);
            }
        }
        match self.job_table.pop_due(now) {
            Some(deadline) => {
                let Deadline { job, start_by: _ } = deadline;
                self.job_table.set_status(
                    &job,
                    JobStatus::Running { worker_name, started_at: now },
                );
                proof {
                    if old(self).job_table.runs_have_status() {
                        assert forall|i: int|
                            0 <= i
                                < self.job_table.queue@.len() implies self.job_table.status@.dom().contains(
                            (#[trigger] self.job_table.queue@[i]).job,
                        ) by {
                            let i0 = if i < first {
                                i
                            } else {
                                i + 1
                            };
                            assert(self.job_table.queue@[i] == queue[i0]);
                        }
                    }
                }
                WorkerStep::Run(job)
            },
            None => {
                match self.job_table.earliest_index() {
                    Some(first) => {
                        let at = self.job_table.queue[first].start_by;
                        WorkerStep::WaitFor(
                            if at > now {
                                at - now
                            } else {
                                0
                            },
                        )
                    },
                    None => WorkerStep::WaitForWork,
                }
            },
        }
    }

    /// Takes the result of a run of `job`.
    ///
    /// A job that asks for another run is `Ready` again, and the run is
    /// queued. A job that is done is forgotten, whatever runs of it are
    /// still scheduled. A job that failed or panicked is `Stuck`, and is
    /// not run again.
    pub fn job_finished(&mut self, job: &J, result: Result<Option<u64>, JobError<J>>)
        requires
            job_identity::<J>(),
            !(result is Ok && result->Ok_0 is None) ==> old(self).job_table.status@.dom().contains(
                *job,
            ),
        ensures
            match result {
                Ok(Some(reschedule_for)) => {
                    &&& final(self).job_table.status@ == old(self).job_table.status@.insert(
                        *job,
                        JobStatus::Ready { scheduled_for: reschedule_for },
                    )
                    &&& final(self).job_table.queue@ == old(self).job_table.queue@.push(
                        Deadline { start_by: reschedule_for, job: *job },
                    )
                },
                Ok(None) => {
                    &&& final(self).job_table.status@ == old(self).job_table.status@.remove(*job)
                    &&& final(self).job_table.queue@ == old(self).job_table.queue@
                },
                Err(e) => {
                    &&& final(self).job_table.status@ == old(self).job_table.status@.insert(
                        *job,
                        JobStatus::Stuck(e),
                    )
                    &&& final(self).job_table.queue@ == old(self).job_table.queue@
                },
            },
            ({
                let table = old(self).job_table;
                let forgets_a_scheduled_job = result is Ok && result->Ok_0 is None
                    && table.is_scheduled(*job);
                table.runs_have_status() && !forgets_a_scheduled_job ==> final(
                    self
                ).job_table.runs_have_status()
            }),
    {
        let ghost queue = self.job_table.queue@;
        match result {
            Ok(Some(reschedule_for)) => {
                self.job_table.set_status(job, JobStatus::Ready { scheduled_for: reschedule_for });
                let again = job.clone();
                assert(cloned(*job, again));
                self.job_table.queue.push(Deadline { job: again, start_by: reschedule_for });
            },
            Ok(None) => {
                self.job_table.status.remove(job);
            },
            Err(e) => {
                self.job_table.set_status(job, JobStatus::Stuck(e));
            },
        }
        proof {
            if old(self).job_table.runs_have_status() && !(result is Ok && result->Ok_0 is None
                && old(self).job_table.is_scheduled(*job)) {
                assert forall|i: int|
                    0 <= i < self.job_table.queue@.len() implies self.job_table.status@.dom().contains(
                    (#[trigger] self.job_table.queue@[i]).job,
                ) by {
                    if i < queue.len() {
                        assert(self.job_table.queue@[i] == queue[i]);
                        assert(old(self).job_table.status@.dom().contains(queue[i].job));
                    }
                }
            }
        }
    }
}

} // verus!
