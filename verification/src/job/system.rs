//! The job system: submitted jobs, their ready queues, and the rules by which
//! the next job to run is chosen.

use super::handle::{flag_of, JobHandle, FLAG_PENDING};
use super::priority::{JobPriority, PRIORITY_LEVELS};
use super::queue::{queue_len, queue_new, queue_pop, queue_push, queued};
use super::task::{BoxedJob, ClosureJob, Job, JobOutcome, JobState};
use crate::counting::{
    count_true, lemma_count_true_bound, lemma_count_true_push, lemma_count_true_update,
    lemma_count_true_zero,
};
use crossbeam::deque::Worker;
use std::sync::atomic::AtomicU8;
use std::sync::atomic::Ordering;
use std::sync::Arc;
use vstd::prelude::*;

verus! {

/// A submitted job with what the scheduler knows of it.
pub struct JobSlot {
    /// The job itself, until it has run.
    job: Option<BoxedJob>,
    /// Its priority.
    priority: JobPriority,
    /// The completion flag shared with the job's handles.
    completed: Arc<AtomicU8>,
    /// The identifiers of the jobs that must complete first.
    dependencies: Vec<u64>,
    /// How the job ended, once it has.
    outcome: Option<JobOutcome>,
}

impl JobSlot {
    /// Record the outcome and set the completion flag for all handles.
    fn finish(&mut self, outcome: JobOutcome)
        ensures
            final(self).outcome == Some(outcome),
            final(self).priority == old(self).priority,
            final(self).dependencies == old(self).dependencies,
            final(self).job == old(self).job,
    {
        self.outcome = Some(outcome);
        self.completed.store(flag_of(outcome), Ordering::Release);
    }

    /// Take the job out, to be run.
    fn take(&mut self) -> (job: Option<BoxedJob>)
        ensures
            job == old(self).job,
            final(self).job is None,
            final(self).outcome == old(self).outcome,
            final(self).priority == old(self).priority,
            final(self).dependencies == old(self).dependencies,
    {
        self.job.take()
    }
}

/// Job scheduler.
///
/// Holds every submitted job, and for each priority a first-in first-out
/// queue of the jobs that have not completed. Not synchronised: one caller
/// at a time submits and processes.
pub struct JobSystem {
    /// The submitted jobs, indexed by job identifier.
    jobs: Vec<JobSlot>,
    /// The jobs that have not completed, by priority rank, in submission
    /// order.
    queues: Vec<Worker<u64>>,
    /// Number of jobs that have not completed.
    outstanding: usize,
    /// Number of worker threads that the system was made for.
    num_workers: usize,
    /// The identifiers of the completed jobs, in the order of completion.
    log: Ghost<Seq<u64>>,
}

/// The identifiers of the handles that name a job below `bound`, in the
/// order of the handles.
pub open spec fn known_ids(handles: Seq<&JobHandle>, bound: nat) -> Seq<u64>
    decreases handles.len(),
{
    if handles.len() == 0 {
        Seq::empty()
    } else if handles.last().spec_id() < bound {
        known_ids(handles.drop_last(), bound).push(handles.last().spec_id())
    } else {
        known_ids(handles.drop_last(), bound)
    }
}

/// Every identifier among the known ones is below the bound.
pub proof fn lemma_known_ids_bound(handles: Seq<&JobHandle>, bound: nat)
    ensures
        forall|k: int|
            0 <= k < known_ids(handles, bound).len() ==> (#[trigger] known_ids(handles, bound)[k])
                < bound,
    decreases handles.len(),
{
    if handles.len() > 0 {
        let rest_ids = known_ids(handles.drop_last(), bound);
        lemma_known_ids_bound(handles.drop_last(), bound);
        assert forall|k: int| 0 <= k < known_ids(handles, bound).len() implies (
        #[trigger] known_ids(handles, bound)[k]) < bound by {
            if k < rest_ids.len() {
                assert(known_ids(handles, bound)[k] == rest_ids[k]);
            }
        }
    }
}

impl JobSystem {
    /// The number of jobs submitted so far; the identifiers are the numbers
    /// below it.
    pub closed spec fn job_count(&self) -> nat {
        self.jobs@.len()
    }

    /// How job `id` ended, `None` while it has not completed.
    pub closed spec fn outcome_of(&self, id: int) -> Option<JobOutcome> {
        self.jobs@[id].outcome
    }

    /// The priority of job `id`.
    pub closed spec fn priority_of(&self, id: int) -> JobPriority {
        self.jobs@[id].priority
    }

    /// The dependencies of job `id`.
    pub closed spec fn deps_of(&self, id: int) -> Seq<u64> {
        self.jobs@[id].dependencies@
    }

    /// Whether job `id` still holds its body, that is, has not run.
    pub closed spec fn has_body(&self, id: int) -> bool {
        self.jobs@[id].job is Some
    }

    /// The queue of rank `rank`: the identifiers that wait there, in order.
    pub closed spec fn tier(&self, rank: int) -> Seq<u64> {
        queued(self.queues@[rank])
    }

    /// The number of queues.
    pub closed spec fn tier_count(&self) -> nat {
        self.queues@.len()
    }

    /// The identifiers of the completed jobs, in the order of completion.
    pub closed spec fn completion_log(&self) -> Seq<u64> {
        self.log@
    }

    /// The number of jobs that have not completed, as the system counts it.
    pub closed spec fn outstanding_count(&self) -> nat {
        self.outstanding as nat
    }

    /// The number of workers.
    pub closed spec fn worker_count(&self) -> nat {
        self.num_workers as nat
    }

    /// Whether job `id` exists and has completed.
    pub open spec fn is_complete(&self, id: int) -> bool {
        0 <= id < self.job_count() && self.outcome_of(id) is Some
    }

    /// Whether all dependencies of job `id` have completed.
    pub open spec fn deps_done(&self, id: int) -> bool {
        forall|k: int|
            0 <= k < self.deps_of(id).len() ==> self.is_complete(#[trigger] self.deps_of(id)[k] as int)
    }

    /// Whether job `id` is pending: it has not completed and waits for a
    /// dependency.
    pub open spec fn pending(&self, id: int) -> bool {
        0 <= id < self.job_count() && self.outcome_of(id) is None && !self.deps_done(id)
    }

    /// Whether job `id` is ready: it has not completed nor been claimed, and
    /// all its dependencies have completed.
    pub open spec fn ready(&self, id: int) -> bool {
        0 <= id < self.job_count() && self.outcome_of(id) is None && self.has_body(id)
            && self.deps_done(id)
    }

    /// Whether job `id` is executing: a worker has claimed it, and it has
    /// not completed yet.
    pub open spec fn executing(&self, id: int) -> bool {
        0 <= id < self.job_count() && self.outcome_of(id) is None && !self.has_body(id)
    }

    /// Where job `id` stands: completed, executing, ready, or pending.
    pub open spec fn state_of(&self, id: int) -> JobState {
        if self.is_complete(id) {
            JobState::Completed
        } else if self.executing(id) {
            JobState::Executing
        } else if self.deps_done(id) {
            JobState::Ready
        } else {
            JobState::Pending
        }
    }

    /// Whether no job is executing.
    pub open spec fn idle(&self) -> bool {
        forall|id: int| !#[trigger] self.executing(id)
    }

    /// Whether no job is ready.
    pub open spec fn none_ready(&self) -> bool {
        forall|id: int| !#[trigger] self.ready(id)
    }

    /// Whether every submitted job has completed.
    pub open spec fn all_complete(&self) -> bool {
        forall|id: int| 0 <= id < self.job_count() ==> #[trigger] self.is_complete(id)
    }

    /// Whether job `a` goes before job `b` among ready jobs: it has the
    /// higher priority, or the same priority and was submitted no later.
    pub open spec fn goes_before(&self, a: int, b: int) -> bool {
        let ra = self.priority_of(a).spec_rank();
        let rb = self.priority_of(b).spec_rank();
        ra > rb || (ra == rb && a <= b)
    }

    /// Whether job `id` is the one to run next: it is ready and goes before
    /// every ready job.
    pub open spec fn is_next(&self, id: int) -> bool {
        self.ready(id) && forall|j: int| #[trigger] self.ready(j) ==> self.goes_before(id, j)
    }

    /// For each job, whether it has not completed.
    pub open spec fn open_flags(&self) -> Seq<bool> {
        Seq::new(self.job_count(), |i: int| self.outcome_of(i) is None)
    }

    /// The number of jobs that have not completed.
    pub open spec fn open_count(&self) -> nat {
        count_true(self.open_flags())
    }

    /// The position of `id` in the completion log.
    pub open spec fn completed_at(&self, id: int) -> int {
        self.completion_log().index_of(id as u64)
    }

    /// Every dependency of a job was submitted before the job, so the
    /// dependencies form no cycle.
    pub open spec fn dag_ok(&self) -> bool {
        forall|id: int, k: int|
            0 <= id < self.job_count() && 0 <= k < self.deps_of(id).len() ==> (
            #[trigger] self.deps_of(id)[k] as int) < id
    }

    /// The queues hold exactly the jobs that have neither completed nor been
    /// claimed, each in the queue of its priority, in submission order, with
    /// its body.
    pub open spec fn queues_ok(&self) -> bool {
        &&& self.tier_count() == PRIORITY_LEVELS
        &&& forall|t: int, p: int|
            0 <= t < PRIORITY_LEVELS && 0 <= p < self.tier(t).len() ==> {
                let id = #[trigger] self.tier(t)[p] as int;
                &&& id < self.job_count()
                &&& self.outcome_of(id) is None
                &&& self.priority_of(id).spec_rank() == t
                &&& self.has_body(id)
            }
        &&& forall|t: int, p: int, q: int|
            0 <= t < PRIORITY_LEVELS && 0 <= p < q < self.tier(t).len() ==> #[trigger] self.tier(
                t,
            )[p] < #[trigger] self.tier(t)[q]
        &&& forall|id: int|
            0 <= id < self.job_count() && self.outcome_of(id) is None && self.has_body(id)
                ==> #[trigger] self.tier(self.priority_of(id).spec_rank()).contains(id as u64)
    }

    /// The completion log lists exactly the completed jobs, each once, and
    /// every job after all its dependencies.
    pub open spec fn log_ok(&self) -> bool {
        &&& self.completion_log().no_duplicates()
        &&& forall|id: int|
            0 <= id < self.job_count() ==> (self.outcome_of(id) is Some
                <==> #[trigger] self.completion_log().contains(id as u64))
        &&& forall|p: int|
            0 <= p < self.completion_log().len() ==> (#[trigger] self.completion_log()[p] as int)
                < self.job_count()
        &&& forall|p: int, k: int|
            0 <= p < self.completion_log().len() && 0 <= k < self.deps_of(
                self.completion_log()[p] as int,
            ).len() ==> self.completion_log().subrange(0, p).contains(
                #[trigger] self.deps_of(self.completion_log()[p] as int)[k],
            )
    }

    /// The invariant of the job system.
    pub open spec fn wf(&self) -> bool {
        &&& self.worker_count() >= 1
        &&& self.job_count() <= u64::MAX
        &&& self.dag_ok()
        &&& self.queues_ok()
        &&& self.log_ok()
        &&& self.outstanding_count() == self.open_count()
        &&& forall|id: int| #[trigger] self.executing(id) ==> self.deps_done(id)
    }

    /// Whether this system has every job of `before`, unchanged but for
    /// jobs that have completed since.
    pub open spec fn extends(&self, before: &JobSystem) -> bool {
        &&& before.job_count() <= self.job_count()
        &&& self.worker_count() == before.worker_count()
        &&& forall|i: int|
            0 <= i < before.job_count() ==> #[trigger] self.priority_of(i) == before.priority_of(i)
        &&& forall|i: int|
            0 <= i < before.job_count() ==> #[trigger] self.deps_of(i) == before.deps_of(i)
        &&& forall|i: int|
            0 <= i < before.job_count() && before.outcome_of(i) is Some
                ==> #[trigger] self.outcome_of(i) == before.outcome_of(i)
    }

    /// Whether the same jobs hold their bodies as in `before`, but for job
    /// `but`.
    pub open spec fn same_bodies_but(&self, before: &JobSystem, but: int) -> bool {
        forall|i: int|
            0 <= i < before.job_count() && i != but ==> #[trigger] self.has_body(i)
                == before.has_body(i)
    }

    /// Whether this system and `other` hold the same jobs in the same state:
    /// the same priorities, dependencies, outcomes and bodies, the same
    /// completion log and the same counts.
    pub open spec fn same_jobs(&self, other: &JobSystem) -> bool {
        &&& self.job_count() == other.job_count()
        &&& self.worker_count() == other.worker_count()
        &&& self.tier_count() == other.tier_count()
        &&& self.completion_log() == other.completion_log()
        &&& self.outstanding_count() == other.outstanding_count()
        &&& forall|i: int|
            0 <= i < self.job_count() ==> #[trigger] self.priority_of(i) == other.priority_of(i)
        &&& forall|i: int| 0 <= i < self.job_count() ==> #[trigger] self.deps_of(i) == other.deps_of(i)
        &&& forall|i: int|
            0 <= i < self.job_count() ==> #[trigger] self.outcome_of(i) == other.outcome_of(i)
        &&& forall|i: int| 0 <= i < self.job_count() ==> #[trigger] self.has_body(i) == other.has_body(i)
    }

    /// Whether this system and `other` have the same queues, but for the one
    /// of rank `rank`.
    pub open spec fn same_tiers_but(&self, other: &JobSystem, rank: int) -> bool {
        forall|t: int|
            0 <= t < PRIORITY_LEVELS && t != rank ==> #[trigger] self.tier(t) == other.tier(t)
    }

    /// What a submission does: a new job is added under the next identifier
    /// with the given priority and dependencies, not completed; no other job
    /// changes and none completes.
    pub open spec fn submitted(
        before: &JobSystem,
        after: &JobSystem,
        id: u64,
        priority: JobPriority,
        deps: Seq<u64>,
    ) -> bool {
        &&& id == before.job_count()
        &&& after.job_count() == before.job_count() + 1
        &&& after.priority_of(id as int) == priority
        &&& after.deps_of(id as int) == deps
        &&& after.outcome_of(id as int) is None
        &&& after.has_body(id as int)
        &&& after.extends(before)
        &&& after.same_bodies_but(before, -1)
        &&& forall|i: int|
            0 <= i < before.job_count() ==> #[trigger] after.outcome_of(i) == before.outcome_of(i)
        &&& after.completion_log() == before.completion_log()
        &&& after.open_count() == before.open_count() + 1
    }

    /// What claiming a job does: job `id`, which was the one to run next, is
    /// executing; nothing else has changed, and nothing has completed.
    pub open spec fn began(before: &JobSystem, after: &JobSystem, id: u64) -> bool {
        &&& before.is_next(id as int)
        &&& after.executing(id as int)
        &&& after.job_count() == before.job_count()
        &&& after.extends(before)
        &&& after.same_bodies_but(before, id as int)
        &&& forall|i: int|
            0 <= i < before.job_count() ==> #[trigger] after.outcome_of(i) == before.outcome_of(i)
        &&& after.completion_log() == before.completion_log()
        &&& after.open_count() == before.open_count()
    }

    /// What finishing a job does: job `id`, which was executing, has
    /// completed with `outcome` and is the last entry of the completion log;
    /// no other job has changed.
    pub open spec fn finished(
        before: &JobSystem,
        after: &JobSystem,
        id: u64,
        outcome: JobOutcome,
    ) -> bool {
        &&& before.executing(id as int)
        &&& after.job_count() == before.job_count()
        &&& after.outcome_of(id as int) == Some(outcome)
        &&& forall|i: int|
            0 <= i < before.job_count() && i != id ==> #[trigger] after.outcome_of(i)
                == before.outcome_of(i)
        &&& after.extends(before)
        &&& after.same_bodies_but(before, -1)
        &&& after.completion_log() == before.completion_log().push(id)
        &&& after.open_count() + 1 == before.open_count()
    }

    /// What one step of the scheduler does: the job `id`, which was the one
    /// to run next, has run and is completed, and is the last entry of the
    /// completion log; no other job has changed.
    pub open spec fn stepped(before: &JobSystem, after: &JobSystem, id: u64) -> bool {
        &&& before.is_next(id as int)
        &&& after.job_count() == before.job_count()
        &&& after.outcome_of(id as int) is Some
        &&& forall|i: int|
            0 <= i < before.job_count() && i != id ==> #[trigger] after.outcome_of(i)
                == before.outcome_of(i)
        &&& after.extends(before)
        &&& after.same_bodies_but(before, id as int)
        &&& after.completion_log() == before.completion_log().push(id)
        &&& after.open_count() + 1 == before.open_count()
    }

    /// Whether `after` comes from `before` by a run of some number of steps;
    /// of no step unless `may_run` holds.
    pub open spec fn ran(before: &JobSystem, after: &JobSystem, may_run: bool) -> bool {
        exists|executed: nat|
            #[trigger] JobSystem::progressed(before, after, executed) && (may_run || executed == 0)
    }

    /// Whether all dependencies of job `id` had completed when the
    /// completion log had `len` entries.
    pub open spec fn deps_logged(&self, id: int, len: int) -> bool {
        forall|k: int|
            0 <= k < self.deps_of(id).len() ==> self.completion_log().subrange(0, len).contains(
                #[trigger] self.deps_of(id)[k],
            )
    }

    /// Whether job `j` could have run when the completion log had `len`
    /// entries, in a run that started from `before`: it was not executing
    /// when the run started, it had not completed, and all its dependencies
    /// had.
    pub open spec fn was_ready(&self, before: &JobSystem, len: int, j: int) -> bool {
        &&& 0 <= j < self.job_count()
        &&& !before.executing(j)
        &&& !self.completion_log().subrange(0, len).contains(j as u64)
        &&& self.deps_logged(j, len)
    }

    /// Whether the job that completed at position `p` of the completion log
    /// was rightly chosen before job `j`: if `j` could have run then, the job
    /// chosen went before it.
    pub open spec fn chose_well(&self, before: &JobSystem, p: int, j: int) -> bool {
        self.was_ready(before, p, j) ==> self.goes_before(self.completion_log()[p] as int, j)
    }

    /// What a run of `executed` steps does: that many jobs have completed,
    /// in the order in which they were appended to the completion log; no
    /// job was added, no job changed but by completing, and the same jobs are
    /// executing.
    pub open spec fn progressed(before: &JobSystem, after: &JobSystem, executed: nat) -> bool {
        &&& after.job_count() == before.job_count()
        &&& after.extends(before)
        &&& after.completion_log().len() == before.completion_log().len() + executed
        &&& after.completion_log().subrange(0, before.completion_log().len() as int)
            == before.completion_log()
        &&& after.open_count() + executed == before.open_count()
        &&& forall|i: int| #[trigger] after.executing(i) == before.executing(i)
        &&& forall|p: int, j: int|
            before.completion_log().len() <= p < after.completion_log().len()
                ==> #[trigger] after.chose_well(before, p, j)
    }

    /// Create a new job system for the given number of worker threads, at
    /// least one.
    pub fn new(num_workers: usize) -> (s: JobSystem)
        ensures
            s.wf(),
            s.job_count() == 0,
            s.worker_count() == (if num_workers == 0 {
                1
            } else {
                num_workers as int
            }),
            s.completion_log().len() == 0,
            s.open_count() == 0,
    {
        let num_workers = if num_workers == 0 {
            1
        } else {
            num_workers
        };
        let mut queues: Vec<Worker<u64>> = Vec::new();
        let mut t: usize = 0;
        while t < PRIORITY_LEVELS
            invariant
                t <= PRIORITY_LEVELS,
                queues@.len() == t,
                forall|i: int| 0 <= i < t ==> queued(#[trigger] queues@[i]).len() == 0,
            decreases PRIORITY_LEVELS - t,
        {
            queues.push(queue_new());
            t += 1;
        }
        let s = JobSystem {
            jobs: Vec::new(),
            queues,
            outstanding: 0,
            num_workers,
            log: Ghost(Seq::empty()),
        };
        assert(s.open_flags() =~= Seq::<bool>::empty());
        s
    }

    /// Get the number of worker threads.
    pub fn num_workers(&self) -> (n: usize)
        ensures
            n == self.worker_count(),
    {
        self.num_workers
    }

    /// Get the number of jobs that have not completed yet.
    pub fn pending_jobs(&self) -> (n: usize)
        requires
            self.wf(),
        ensures
            n == self.open_count(),
    {
        self.outstanding
    }

    /// Submit a job to the system. The job is ready at once; the call
    /// returns without running anything.
    pub fn submit<J: Job>(&mut self, job: J, priority: JobPriority) -> (handle: JobHandle)
        requires
            old(self).wf(),
        ensures
            final(self).wf(),
            JobSystem::submitted(
                old(self),
                final(self),
                handle.spec_id(),
                priority,
                Seq::<u64>::empty(),
            ),
            final(self).ready(handle.spec_id() as int),
    {
        let boxed: Box<dyn Job> = Box::new(job);
        self.submit_boxed(BoxedJob::new(boxed), priority, Vec::new())
    }

    /// Submit a closure as a job.
    pub fn submit_fn<F>(&mut self, name: &'static str, priority: JobPriority, func: F) -> (handle:
        JobHandle) where F: FnOnce() + Send + 'static
        requires
            old(self).wf(),
            call_requires(func, ()),
        ensures
            final(self).wf(),
            JobSystem::submitted(
                old(self),
                final(self),
                handle.spec_id(),
                priority,
                Seq::<u64>::empty(),
            ),
            final(self).ready(handle.spec_id() as int),
    {
        self.submit(ClosureJob::new(name, func), priority)
    }

    /// Submit a job with dependencies. The job becomes ready once every
    /// dependency has completed; a dependency that has completed already is
    /// satisfied at once. A handle that names no job of this system is not
    /// waited for.
    pub fn submit_with_deps<J: Job>(
        &mut self,
        job: J,
        priority: JobPriority,
        dependencies: &[&JobHandle],
    ) -> (handle: JobHandle)
        requires
            old(self).wf(),
        ensures
            final(self).wf(),
            JobSystem::submitted(
                old(self),
                final(self),
                handle.spec_id(),
                priority,
                known_ids(dependencies@, old(self).job_count()),
            ),
    {
        let boxed: Box<dyn Job> = Box::new(job);
        let deps = self.known_dependencies(dependencies);
        self.submit_boxed(BoxedJob::new(boxed), priority, deps)
    }

    /// Claim the job that is next in line, if there is one: a ready job of
    /// the highest priority among the ready jobs, and among those the one
    /// submitted first. The job is handed out to be run and is executing
    /// until it is finished with [`JobSystem::finish`]; it is not preempted.
    /// Returns `None`, changing nothing, when no job is ready.
    pub fn begin_next(&mut self) -> (claimed: Option<(u64, BoxedJob)>)
        requires
            old(self).wf(),
        ensures
            final(self).wf(),
            match claimed {
                Some((id, _)) => JobSystem::began(old(self), final(self), id),
                None => old(self).none_ready() && final(self).same_jobs(old(self)),
            },
    {
        let ghost before = *self;
        let mut rank: usize = PRIORITY_LEVELS;
        while rank > 0
            invariant
                rank <= PRIORITY_LEVELS,
                before == *old(self),
                before.wf(),
                self.wf(),
                self.same_jobs(&before),
                forall|t: int| 0 <= t < PRIORITY_LEVELS ==> #[trigger] self.tier(t) == before.tier(t),
                forall|t: int, p: int|
                    rank <= t < PRIORITY_LEVELS && 0 <= p < before.tier(t).len()
                        ==> !before.deps_done(#[trigger] before.tier(t)[p] as int),
            decreases rank,
        {
            rank -= 1;
            let ghost round = *self;
            let (found, Ghost(pos)) = self.take_first_ready(rank);
            proof {
                self.lemma_same_jobs_trans(&round, &before);
                assert forall|p: int| 0 <= p < before.tier(rank as int).len() implies (
                round.deps_done(#[trigger] before.tier(rank as int)[p] as int) == before.deps_done(
                    before.tier(rank as int)[p] as int,
                )) by {
                    before.lemma_deps_same(&round, before.tier(rank as int)[p] as int);
                }
            }
            match found {
                Some(id) => {
                    proof {
                        let tier0 = before.tier(rank as int);
                        before.lemma_deps_same(&round, id as int);
                        assert(before.ready(id as int));
                        assert forall|j: int| #[trigger] before.ready(j) implies before.goes_before(
                            id as int,
                            j,
                        ) by {
                            let t = before.priority_of(j).spec_rank();
                            assert(before.tier(t).contains(j as u64));
                            let q = before.tier(t).index_of(j as u64);
                            assert(before.tier(t)[q] == j as u64);
                            if t > rank {
                                assert(!before.deps_done(before.tier(t)[q] as int));
                            } else if t == rank {
                                if q < pos {
                                    assert(!before.deps_done(tier0[q] as int));
                                } else if q > pos {
                                    assert(tier0[pos] < tier0[q]);
                                }
                            }
                        }
                        assert forall|t: int| 0 <= t < PRIORITY_LEVELS implies #[trigger] self.tier(
                            t,
                        ) == (if t == rank {
                            tier0.remove(pos)
                        } else {
                            before.tier(t)
                        }) by {
                            if t != rank {
                                assert(self.tier(t) == round.tier(t));
                            }
                        }
                    }
                    let job = self.claim(id, Ghost(before), Ghost(pos));
                    return Some((id, job));
                },
                None => {
                    proof {
                        assert forall|t: int| 0 <= t < PRIORITY_LEVELS implies #[trigger] self.tier(
                            t,
                        ) == before.tier(t) by {
                            if t != rank {
                                assert(self.tier(t) == round.tier(t));
                            }
                        }
                        self.lemma_same_wf(&before);
                    }
                },
            }
        }
        proof {
            assert forall|j: int| !#[trigger] before.ready(j) by {
                if before.ready(j) {
                    let t = before.priority_of(j).spec_rank();
                    assert(before.tier(t).contains(j as u64));
                    let q = before.tier(t).index_of(j as u64);
                    assert(before.tier(t)[q] == j as u64);
                    assert(!before.deps_done(before.tier(t)[q] as int));
                }
            }
        }
        None
    }

    /// Record that job `id` has run, with the given outcome. Whatever the
    /// outcome, the job is completed: its completion flag is set and its
    /// dependents are unblocked. Returns `false`, changing nothing, when job
    /// `id` is not executing.
    pub fn finish(&mut self, id: u64, outcome: JobOutcome) -> (done: bool)
        requires
            old(self).wf(),
        ensures
            final(self).wf(),
            done == old(self).executing(id as int),
            done ==> JobSystem::finished(old(self), final(self), id, outcome),
            !done ==> *final(self) == *old(self),
    {
        let ghost before = *self;
        let count = self.jobs.len();
        if id >= count as u64 {
            return false;
        }
        let i = id as usize;
        if self.jobs[i].outcome.is_some() || self.jobs[i].job.is_some() {
            return false;
        }
        self.jobs[i].finish(outcome);
        proof {
            lemma_count_true_update(before.open_flags(), i as int, false);
            assert(before.open_flags()[i as int]);
        }
        self.outstanding = self.outstanding - 1;
        self.log = Ghost(self.log@.push(id));
        proof {
            assert forall|j: int| 0 <= j < self.job_count() implies (#[trigger] self.priority_of(j))
                == before.priority_of(j) by {}
            assert forall|j: int| 0 <= j < self.job_count() implies (#[trigger] self.deps_of(j))
                == before.deps_of(j) by {}
            assert forall|j: int| 0 <= j < self.job_count() && j != id implies (
            #[trigger] self.outcome_of(j)) == before.outcome_of(j) by {}
            assert forall|j: int| 0 <= j < self.job_count() implies (#[trigger] self.has_body(j))
                == before.has_body(j) by {}
            assert forall|t: int| 0 <= t < PRIORITY_LEVELS implies #[trigger] self.tier(t)
                == before.tier(t) by {}
            assert(self.open_flags() =~= before.open_flags().update(i as int, false)) by {
                assert forall|j: int| 0 <= j < self.job_count() implies self.open_flags()[j]
                    == before.open_flags().update(i as int, false)[j] by {
                    if j != id {
                        assert(self.outcome_of(j) == before.outcome_of(j));
                    }
                }
            }
            JobSystem::lemma_queues_after_finish(&before, self, id);
            JobSystem::lemma_log_after_finish(&before, self, id);
        }
        true
    }

    /// Run the job that is next in line, if there is one.
    ///
    /// The job run is a ready one of the highest priority among the ready
    /// jobs, and among those the one submitted first. A job that waits for a
    /// dependency is never run. Whatever the job's outcome, it is completed
    /// afterwards: its completion flag is set and its dependents are
    /// unblocked. Returns the identifier of the job that ran, or `None`,
    /// changing nothing, when no job is ready.
    pub fn run_next(&mut self) -> (step: Option<u64>)
        requires
            old(self).wf(),
        ensures
            final(self).wf(),
            match step {
                Some(id) => JobSystem::stepped(old(self), final(self), id),
                None => old(self).none_ready() && final(self).same_jobs(old(self)),
            },
    {
        let ghost before = *self;
        match self.begin_next() {
            Some((id, job)) => {
                let ghost mid = *self;
                let mut job = job;
                let outcome = job.try_execute();
                let done = self.finish(id, outcome);
                proof {
                    JobSystem::lemma_began_finished(&before, &mid, self, id, outcome);
                }
                Some(id)
            },
            None => None,
        }
    }

    /// Process jobs on the current thread.
    ///
    /// Runs up to `max_jobs` jobs, each time the one that is next in line: a
    /// ready job of the highest priority, the one submitted first among
    /// those. Jobs that wait for a dependency are left waiting. Returns the
    /// number of jobs run; it is below `max_jobs` only when no job was left
    /// to run.
    pub fn process_jobs(&mut self, max_jobs: usize) -> (executed: usize)
        requires
            old(self).wf(),
        ensures
            final(self).wf(),
            executed <= max_jobs,
            JobSystem::progressed(old(self), final(self), executed as nat),
            executed < max_jobs ==> final(self).none_ready(),
    {
        let ghost before = *self;
        let mut executed: usize = 0;
        proof {
            JobSystem::lemma_progressed_none(&before, self);
        }
        while executed < max_jobs
            invariant
                executed <= max_jobs,
                before == *old(self),
                self.wf(),
                JobSystem::progressed(&before, self, executed as nat),
            decreases max_jobs - executed,
        {
            let ghost round = *self;
            match self.run_next() {
                Some(id) => {
                    proof {
                        JobSystem::lemma_progressed_step(&before, &round, self, executed as nat, id);
                    }
                    executed += 1;
                },
                None => {
                    proof {
                        JobSystem::lemma_progressed_none(&round, self);
                        JobSystem::lemma_progressed_join(&before, &round, self, executed as nat, 0);
                    }
                    return executed;
                },
            }
        }
        executed
    }

    /// Wait for a job to complete.
    ///
    /// Runs ready jobs on the calling thread, one after the other, until the
    /// job of `handle` has completed, and no longer. While no job is
    /// executing elsewhere there is always a job to run, so the job of
    /// `handle` completes; else the call also ends when no job is ready. A
    /// handle that names no job of this system is not waited for.
    pub fn wait_for(&mut self, handle: &JobHandle)
        requires
            old(self).wf(),
        ensures
            final(self).wf(),
            JobSystem::ran(
                old(self),
                final(self),
                !old(self).is_complete(handle.spec_id() as int),
            ),
            (handle.spec_id() as int) < old(self).job_count() ==> final(self).is_complete(
                handle.spec_id() as int,
            ) || final(self).none_ready(),
            (handle.spec_id() as int) < old(self).job_count() && old(self).idle() ==> final(self).is_complete(handle.spec_id() as int),
    {
        let ghost before = *self;
        let mut executed: usize = 0;
        proof {
            JobSystem::lemma_progressed_none(&before, self);
            lemma_count_true_bound(before.open_flags());
        }
        let count = self.jobs.len();
        if handle.id() >= count as u64 {
            return ;
        }
        while !self.is_done(handle)
            invariant
                before == *old(self),
                self.wf(),
                (handle.spec_id() as int) < self.job_count(),
                JobSystem::progressed(&before, self, executed as nat),
                before.open_count() <= usize::MAX,
                before.is_complete(handle.spec_id() as int) ==> executed == 0,
            decreases self.open_count(),
        {
            let ghost round = *self;
            proof {
                if before.is_complete(handle.spec_id() as int) {
                    assert(round.outcome_of(handle.spec_id() as int) == before.outcome_of(
                        handle.spec_id() as int,
                    ));
                }
            }
            match self.run_next() {
                Some(id) => {
                    proof {
                        JobSystem::lemma_progressed_step(&before, &round, self, executed as nat, id);
                    }
                    executed += 1;
                },
                None => {
                    proof {
                        JobSystem::lemma_progressed_none(&round, self);
                        JobSystem::lemma_progressed_join(&before, &round, self, executed as nat, 0);
                        if before.idle() {
                            JobSystem::lemma_progressed_idle(&before, self, executed as nat);
                            self.lemma_idle_none_ready();
                        }
                    }
                    return ;
                },
            }
        }
    }

    /// Wait for all submitted jobs to complete.
    ///
    /// Runs jobs on the calling thread until no job is ready. While no job
    /// is executing elsewhere, that is when every job submitted before the
    /// call has completed.
    pub fn wait_all(&mut self)
        requires
            old(self).wf(),
        ensures
            final(self).wf(),
            final(self).none_ready(),
            old(self).idle() ==> final(self).all_complete() && final(self).open_count() == 0,
            JobSystem::ran(old(self), final(self), true),
    {
        let ghost before = *self;
        let mut executed: usize = 0;
        proof {
            JobSystem::lemma_progressed_none(&before, self);
            lemma_count_true_bound(before.open_flags());
        }
        let count = self.jobs.len();
        loop
            invariant_except_break
                before == *old(self),
                self.wf(),
                JobSystem::progressed(&before, self, executed as nat),
                before.open_count() <= usize::MAX,
            ensures
                self.wf(),
                self.none_ready(),
                JobSystem::progressed(old(self), self, executed as nat),
            decreases self.open_count(),
        {
            let ghost round = *self;
            match self.run_next() {
                Some(id) => {
                    proof {
                        JobSystem::lemma_progressed_step(&before, &round, self, executed as nat, id);
                    }
                    executed += 1;
                },
                None => {
                    proof {
                        JobSystem::lemma_progressed_none(&round, self);
                        JobSystem::lemma_progressed_join(&before, &round, self, executed as nat, 0);
                    }
                    break ;
                },
            }
        }
        proof {
            if old(self).idle() {
                JobSystem::lemma_progressed_idle(old(self), self, executed as nat);
                self.lemma_idle_none_ready();
                self.lemma_all_complete_count();
            }
            assert(JobSystem::progressed(old(self), self, executed as nat));
        }
    }

    /// Check if the job of a handle has completed. A handle that names no
    /// job of this system is not complete.
    pub fn is_done(&self, handle: &JobHandle) -> (b: bool)
        ensures
            b == self.is_complete(handle.spec_id() as int),
    {
        let id = handle.id();
        let count = self.jobs.len();
        if id < count as u64 {
            self.jobs[id as usize].outcome.is_some()
        } else {
            false
        }
    }

    /// Where the job of a handle stands: pending while it waits for a
    /// dependency, ready once all its dependencies have completed, executing
    /// from its being claimed to its being finished, completed afterwards.
    /// `None` for a handle that names no job of this system.
    pub fn state(&self, handle: &JobHandle) -> (state: Option<JobState>)
        requires
            self.wf(),
        ensures
            state is Some <==> (handle.spec_id() as int) < self.job_count(),
            state matches Some(s) ==> s == self.state_of(handle.spec_id() as int),
    {
        let id = handle.id();
        let count = self.jobs.len();
        if id >= count as u64 {
            return None;
        }
        if self.jobs[id as usize].outcome.is_some() {
            Some(JobState::Completed)
        } else if self.jobs[id as usize].job.is_none() {
            Some(JobState::Executing)
        } else if self.deps_complete(id as usize) {
            Some(JobState::Ready)
        } else {
            Some(JobState::Pending)
        }
    }

    /// How the job of a handle ended: `None` while it has not completed, or
    /// when the handle names no job of this system.
    pub fn outcome(&self, handle: &JobHandle) -> (o: Option<JobOutcome>)
        ensures
            o == (if self.is_complete(handle.spec_id() as int) {
                self.outcome_of(handle.spec_id() as int)
            } else {
                None
            }),
    {
        let id = handle.id();
        let count = self.jobs.len();
        if id < count as u64 {
            self.jobs[id as usize].outcome
        } else {
            None
        }
    }

    /// Enqueue a boxed job with its dependencies given as job identifiers,
    /// each of which names a job submitted before.
    pub(crate) fn submit_boxed(&mut self, job: BoxedJob, priority: JobPriority, deps: Vec<u64>) -> (handle:
        JobHandle)
        requires
            old(self).wf(),
            forall|k: int| 0 <= k < deps@.len() ==> (#[trigger] deps@[k] as int) < old(
                self,
            ).job_count(),
        ensures
            final(self).wf(),
            JobSystem::submitted(old(self), final(self), handle.spec_id(), priority, deps@),
    {
        let ghost before = *self;
        let id = self.jobs.len() as u64;
        let completed = Arc::new(AtomicU8::new(FLAG_PENDING));
        let handle = JobHandle::new(completed.clone(), id);
        let rank = priority.rank();
        self.jobs.push(
            JobSlot {
                job: Some(job),
                priority,
                completed,
                dependencies: deps,
                outcome: None,
            },
        );
        queue_push(&mut self.queues[rank], id);
        let n = self.jobs.len();
        proof {
            lemma_count_true_bound(before.open_flags());
        }
        self.outstanding = self.outstanding + 1;
        proof {
            lemma_count_true_push(before.open_flags(), true);
            assert(self.open_flags() =~= before.open_flags().push(true));
            assert forall|t: int| 0 <= t < PRIORITY_LEVELS && t != rank implies #[trigger] self.tier(
                t,
            ) == before.tier(t) by {}
            assert(self.tier(rank as int) == before.tier(rank as int).push(id));
            assert forall|t: int, p: int|
                0 <= t < PRIORITY_LEVELS && 0 <= p < self.tier(t).len() implies {
                let j = #[trigger] self.tier(t)[p] as int;
                &&& j < self.job_count()
                &&& self.outcome_of(j) is None
                &&& self.priority_of(j).spec_rank() == t
                &&& self.has_body(j)
            } by {
                if t == rank && p == before.tier(t).len() {
                } else {
                    let j = before.tier(t)[p] as int;
                    assert(self.tier(t)[p] == before.tier(t)[p]);
                    assert(j < before.job_count());
                }
            }
            assert forall|t: int, p: int, q: int|
                0 <= t < PRIORITY_LEVELS && 0 <= p < q < self.tier(
                    t,
                ).len() implies #[trigger] self.tier(t)[p] < #[trigger] self.tier(t)[q] by {
                assert(self.tier(t)[p] == before.tier(t)[p]);
                if t == rank && q == before.tier(t).len() {
                    assert((before.tier(t)[p] as int) < before.job_count());
                } else {
                    assert(self.tier(t)[q] == before.tier(t)[q]);
                }
            }
            assert forall|j: int|
                0 <= j < self.job_count() && self.outcome_of(j) is None && self.has_body(
                    j,
                ) implies #[trigger] self.tier(self.priority_of(j).spec_rank()).contains(
                j as u64,
            ) by {
                let t = self.priority_of(j).spec_rank();
                if j == id {
                    assert(self.tier(t)[before.tier(t).len() as int] == id);
                } else {
                    assert(before.has_body(j));
                    assert(before.tier(before.priority_of(j).spec_rank()).contains(j as u64));
                    let p = before.tier(t).index_of(j as u64);
                    assert(self.tier(t)[p] == j as u64);
                }
            }
            assert forall|j: int| #[trigger] self.executing(j) implies self.deps_done(j) by {
                assert(before.executing(j));
                assert(before.deps_done(j));
                assert forall|k: int| 0 <= k < self.deps_of(j).len() implies self.is_complete(
                    #[trigger] self.deps_of(j)[k] as int,
                ) by {
                    let d = before.deps_of(j)[k] as int;
                    assert(before.is_complete(d));
                }
            }
            assert forall|j: int| 0 <= j < self.job_count() implies (self.outcome_of(j) is Some
                <==> #[trigger] self.completion_log().contains(j as u64)) by {
                if j == id {
                    if before.completion_log().contains(id) {
                        let p = before.completion_log().index_of(id);
                        assert((before.completion_log()[p] as int) < before.job_count());
                    }
                }
            }
            assert forall|j: int, k: int|
                0 <= j < self.job_count() && 0 <= k < self.deps_of(j).len() implies (
            #[trigger] self.deps_of(j)[k] as int) < j by {
                if j < before.job_count() {
                    assert(self.deps_of(j) == before.deps_of(j));
                }
            }
            assert forall|p: int, k: int|
                0 <= p < self.completion_log().len() && 0 <= k < self.deps_of(
                    self.completion_log()[p] as int,
                ).len() implies self.completion_log().subrange(0, p).contains(
                #[trigger] self.deps_of(self.completion_log()[p] as int)[k],
            ) by {
                let j = before.completion_log()[p] as int;
                assert(j < before.job_count());
                assert(self.deps_of(j) == before.deps_of(j));
            }
            assert(self.queues_ok());
            assert(self.log_ok());
        }
        handle
    }

    /// The identifiers of the given handles that name a job of this system.
    fn known_dependencies(&self, dependencies: &[&JobHandle]) -> (deps: Vec<u64>)
        ensures
            deps@ == known_ids(dependencies@, self.job_count()),
            forall|k: int| 0 <= k < deps@.len() ==> (#[trigger] deps@[k] as int) < self.job_count(),
    {
        let count = self.jobs.len();
        let n = dependencies.len();
        let mut deps: Vec<u64> = Vec::new();
        let mut i: usize = 0;
        while i < n
            invariant
                i <= n,
                n == dependencies@.len(),
                count == self.job_count(),
                deps@ == known_ids(dependencies@.subrange(0, i as int), count as nat),
            decreases n - i,
        {
            let id = dependencies[i].id();
            proof {
                assert(dependencies@.subrange(0, i + 1).drop_last() == dependencies@.subrange(
                    0,
                    i as int,
                ));
            }
            if id < count as u64 {
                deps.push(id);
            }
            i += 1;
        }
        proof {
            assert(dependencies@.subrange(0, n as int) == dependencies@);
            lemma_known_ids_bound(dependencies@, count as nat);
        }
        deps
    }

    /// Check whether all dependencies of job `id` have completed.
    fn deps_complete(&self, id: usize) -> (b: bool)
        requires
            self.dag_ok(),
            id < self.job_count(),
        ensures
            b == self.deps_done(id as int),
    {
        let n = self.jobs[id].dependencies.len();
        let mut k: usize = 0;
        while k < n
            invariant
                k <= n,
                id < self.job_count(),
                self.dag_ok(),
                n == self.deps_of(id as int).len(),
                forall|i: int|
                    0 <= i < k ==> self.is_complete(#[trigger] self.deps_of(id as int)[i] as int),
            decreases n - k,
        {
            let d = self.jobs[id].dependencies[k];
            assert(d == self.deps_of(id as int)[k as int]);
            assert((d as int) < id);
            if self.jobs[d as usize].outcome.is_none() {
                assert(!self.is_complete(self.deps_of(id as int)[k as int] as int));
                return false;
            }
            k += 1;
        }
        true
    }

    /// Take the first ready job out of the queue of rank `rank`, leaving the
    /// order of the others as it was. Jobs that wait for a dependency are
    /// passed over: each is taken from the front and put back behind.
    fn take_first_ready(&mut self, rank: usize) -> (found: (Option<u64>, Ghost<int>))
        requires
            old(self).dag_ok(),
            old(self).tier_count() == PRIORITY_LEVELS,
            rank < PRIORITY_LEVELS,
            forall|p: int|
                0 <= p < old(self).tier(rank as int).len() ==> (#[trigger] old(self).tier(
                    rank as int,
                )[p] as int) < old(self).job_count(),
        ensures
            final(self).same_jobs(old(self)),
            final(self).same_tiers_but(old(self), rank as int),
            match found.0 {
                Some(id) => {
                    let pos = found.1@;
                    &&& 0 <= pos < old(self).tier(rank as int).len()
                    &&& old(self).tier(rank as int)[pos] == id
                    &&& old(self).deps_done(id as int)
                    &&& forall|p: int|
                        0 <= p < pos ==> !old(self).deps_done(
                            #[trigger] old(self).tier(rank as int)[p] as int,
                        )
                    &&& final(self).tier(rank as int) == old(self).tier(rank as int).remove(pos)
                },
                None => {
                    &&& forall|p: int|
                        0 <= p < old(self).tier(rank as int).len() ==> !old(self).deps_done(
                            #[trigger] old(self).tier(rank as int)[p] as int,
                        )
                    &&& final(self).tier(rank as int) == old(self).tier(rank as int)
                },
            },
    {
        let ghost before = *self;
        let ghost orig = self.tier(rank as int);
        let n = queue_len(&self.queues[rank]);
        let count = self.jobs.len();
        let mut found: Option<u64> = None;
        let ghost mut pos: int = -1;
        let mut k: usize = 0;
        assert(orig.subrange(0, n as int) + orig.subrange(0, 0) =~= orig);
        while k < n
            invariant
                k <= n,
                rank < PRIORITY_LEVELS,
                n == orig.len(),
                count == before.job_count(),
                orig == before.tier(rank as int),
                before.dag_ok(),
                before.tier_count() == PRIORITY_LEVELS,
                forall|p: int| 0 <= p < orig.len() ==> (#[trigger] orig[p] as int) < before.job_count(),
                self.same_jobs(&before),
                self.same_tiers_but(&before, rank as int),
                found is Some <==> pos >= 0,
                found is None ==> self.tier(rank as int) == orig.subrange(k as int, n as int)
                    + orig.subrange(0, k as int),
                found is None ==> forall|p: int|
                    0 <= p < k ==> !before.deps_done(#[trigger] orig[p] as int),
                found matches Some(id) ==> {
                    &&& 0 <= pos < k
                    &&& orig[pos] == id
                    &&& before.deps_done(id as int)
                    &&& forall|p: int| 0 <= p < pos ==> !before.deps_done(#[trigger] orig[p] as int)
                    &&& self.tier(rank as int) == orig.subrange(k as int, n as int) + orig.subrange(
                        0,
                        k as int,
                    ).remove(pos)
                },
            decreases n - k,
        {
            let ghost round = *self;
            let popped = queue_pop(&mut self.queues[rank]);
            let id = match popped {
                Some(v) => v,
                None => 0,
            };
            proof {
                assert(round.tier(rank as int)[0] == orig[k as int]);
                assert(id == orig[k as int]);
                assert(self.same_jobs(&round));
                self.lemma_same_jobs_trans(&round, &before);
                assert(self.dag_ok()) by {
                    assert forall|j: int, d: int|
                        0 <= j < self.job_count() && 0 <= d < self.deps_of(j).len() implies (
                    #[trigger] self.deps_of(j)[d] as int) < j by {
                        assert(self.deps_of(j) == before.deps_of(j));
                    }
                }
            }
            let ghost popped_state = *self;
            assert((id as int) < self.job_count());
            let mut take = false;
            if found.is_none() {
                take = self.deps_complete(id as usize);
            }
            proof {
                before.lemma_deps_same(&popped_state, id as int);
                assert(found is None ==> take == before.deps_done(orig[k as int] as int));
            }
            if take {
                found = Some(id);
                proof {
                    pos = k as int;
                    assert(self.tier(rank as int) =~= orig.subrange(k + 1, n as int)
                        + orig.subrange(0, k + 1).remove(pos));
                }
            } else {
                queue_push(&mut self.queues[rank], id);
                proof {
                    if found is None {
                        assert(self.tier(rank as int) =~= orig.subrange(k + 1, n as int)
                            + orig.subrange(0, k + 1));
                    } else {
                        assert(self.tier(rank as int) =~= orig.subrange(k + 1, n as int)
                            + orig.subrange(0, k + 1).remove(pos));
                    }
                }
            }
            proof {
                assert forall|t: int|
                    0 <= t < PRIORITY_LEVELS && t != rank implies #[trigger] self.tier(t)
                    == before.tier(t) by {
                    assert(round.tier(t) == before.tier(t));
                }
                assert(self.same_jobs(&round));
                self.lemma_same_jobs_trans(&round, &before);
            }
            k += 1;
        }
        proof {
            assert(orig.subrange(n as int, n as int) + orig.subrange(0, n as int) =~= orig);
            if found is Some {
                assert(orig.subrange(n as int, n as int) + orig.subrange(0, n as int).remove(pos)
                    =~= orig.remove(pos));
            }
        }
        (found, Ghost(pos))
    }

    /// Take the body of job `id`, which was taken out of its queue at
    /// position `pos`. `before` is the system as it was before the job was
    /// taken out.
    fn claim(&mut self, id: u64, Ghost(before): Ghost<JobSystem>, Ghost(pos): Ghost<int>) -> (job:
        BoxedJob)
        requires
            before.wf(),
            before.is_next(id as int),
            old(self).same_jobs(&before),
            0 <= pos < before.tier(before.priority_of(id as int).spec_rank()).len(),
            before.tier(before.priority_of(id as int).spec_rank())[pos] == id,
            forall|t: int|
                0 <= t < PRIORITY_LEVELS ==> #[trigger] old(self).tier(t) == (if t
                    == before.priority_of(id as int).spec_rank() {
                    before.tier(t).remove(pos)
                } else {
                    before.tier(t)
                }),
        ensures
            final(self).wf(),
            JobSystem::began(&before, final(self), id),
    {
        let ghost taken = *self;
        let count = self.jobs.len();
        let i = id as usize;
        assert(taken.has_body(id as int) == before.has_body(id as int));
        let body = self.jobs[i].take();
        proof {
            assert forall|j: int| 0 <= j < self.job_count() implies (#[trigger] self.priority_of(j))
                == before.priority_of(j) by {
                assert(taken.priority_of(j) == before.priority_of(j));
            }
            assert forall|j: int| 0 <= j < self.job_count() implies (#[trigger] self.deps_of(j))
                == before.deps_of(j) by {
                assert(taken.deps_of(j) == before.deps_of(j));
            }
            assert forall|j: int| 0 <= j < self.job_count() implies (#[trigger] self.outcome_of(j))
                == before.outcome_of(j) by {
                assert(taken.outcome_of(j) == before.outcome_of(j));
            }
            assert forall|j: int| 0 <= j < self.job_count() && j != id implies (
            #[trigger] self.has_body(j)) == before.has_body(j) by {
                assert(taken.has_body(j) == before.has_body(j));
            }
            assert forall|t: int| 0 <= t < PRIORITY_LEVELS implies #[trigger] self.tier(t)
                == taken.tier(t) by {}
            assert(self.open_flags() =~= before.open_flags());
            JobSystem::lemma_queues_after_claim(&before, self, id, pos);
            JobSystem::lemma_frame_after_claim(&before, self, id);
        }
        match body {
            Some(job) => job,
            None => BoxedJob::idle(),
        }
    }

    /// Progress: in a well-formed system in which no job is executing, while
    /// a job has not completed, some job is ready. The earliest job that has
    /// not completed is one: all its dependencies were submitted before it.
    pub proof fn lemma_progress(&self, bound: int)
        requires
            self.dag_ok(),
            self.idle(),
            0 <= bound <= self.job_count(),
        ensures
            (forall|i: int| 0 <= i < bound ==> #[trigger] self.is_complete(i)) || (exists|j: int|
                0 <= j < bound && #[trigger] self.ready(j)),
        decreases bound,
    {
        if bound > 0 {
            self.lemma_progress(bound - 1);
            if forall|i: int| 0 <= i < bound - 1 ==> #[trigger] self.is_complete(i) {
                let last = bound - 1;
                if self.outcome_of(last) is None {
                    assert forall|k: int| 0 <= k < self.deps_of(last).len() implies self.is_complete(
                        #[trigger] self.deps_of(last)[k] as int,
                    ) by {
                        let d = self.deps_of(last)[k] as int;
                        assert(d < last);
                    }
                    assert(!self.executing(last));
                    assert(self.ready(last));
                } else {
                    assert forall|i: int| 0 <= i < bound implies #[trigger] self.is_complete(i) by {
                        if i < bound - 1 {
                            assert(self.is_complete(i));
                        }
                    }
                }
            } else {
                let j = choose|j: int| 0 <= j < bound - 1 && #[trigger] self.ready(j);
                assert(self.ready(j));
            }
        }
    }

    /// When no job is executing and none is ready, every job has completed.
    pub proof fn lemma_idle_none_ready(&self)
        requires
            self.dag_ok(),
            self.idle(),
            self.none_ready(),
        ensures
            self.all_complete(),
    {
        self.lemma_progress(self.job_count() as int);
        if exists|j: int| 0 <= j < self.job_count() && #[trigger] self.ready(j) {
            let j = choose|j: int| 0 <= j < self.job_count() && #[trigger] self.ready(j);
            assert(self.ready(j));
        }
    }

    /// When every job has completed, none is counted as open.
    pub proof fn lemma_all_complete_count(&self)
        requires
            self.all_complete(),
        ensures
            self.open_count() == 0,
    {
        lemma_count_true_zero(self.open_flags());
        assert forall|i: int| 0 <= i < self.open_flags().len() implies !self.open_flags()[i] by {
            assert(self.is_complete(i));
        }
    }

    /// Holding the same jobs carries over a chain of two steps.
    pub proof fn lemma_same_jobs_trans(&self, mid: &JobSystem, base: &JobSystem)
        requires
            self.same_jobs(mid),
            mid.same_jobs(base),
        ensures
            self.same_jobs(base),
    {
        assert forall|i: int| 0 <= i < self.job_count() implies #[trigger] self.priority_of(i)
            == base.priority_of(i) by {
            assert(mid.priority_of(i) == base.priority_of(i));
        }
        assert forall|i: int| 0 <= i < self.job_count() implies #[trigger] self.deps_of(i)
            == base.deps_of(i) by {
            assert(mid.deps_of(i) == base.deps_of(i));
        }
        assert forall|i: int| 0 <= i < self.job_count() implies #[trigger] self.outcome_of(i)
            == base.outcome_of(i) by {
            assert(mid.outcome_of(i) == base.outcome_of(i));
        }
        assert forall|i: int| 0 <= i < self.job_count() implies #[trigger] self.has_body(i)
            == base.has_body(i) by {
            assert(mid.has_body(i) == base.has_body(i));
        }
    }

    /// Readiness depends on the jobs alone.
    pub proof fn lemma_same_ready(&self, other: &JobSystem, id: int)
        requires
            self.same_jobs(other),
        ensures
            self.ready(id) == other.ready(id),
            self.is_complete(id) == other.is_complete(id),
    {
        if 0 <= id < self.job_count() {
            assert(self.deps_of(id) == other.deps_of(id));
            assert(self.outcome_of(id) == other.outcome_of(id));
            assert(self.has_body(id) == other.has_body(id));
            if self.deps_done(id) {
                assert forall|k: int| 0 <= k < other.deps_of(id).len() implies other.is_complete(
                    #[trigger] other.deps_of(id)[k] as int,
                ) by {
                    let d = self.deps_of(id)[k] as int;
                    assert(self.is_complete(d));
                    assert(self.outcome_of(d) == other.outcome_of(d));
                }
            }
            if other.deps_done(id) {
                assert forall|k: int| 0 <= k < self.deps_of(id).len() implies self.is_complete(
                    #[trigger] self.deps_of(id)[k] as int,
                ) by {
                    let d = other.deps_of(id)[k] as int;
                    assert(other.is_complete(d));
                    assert(self.outcome_of(d) == other.outcome_of(d));
                }
            }
        }
    }

    /// Whether all dependencies are done depends on the jobs alone.
    proof fn lemma_deps_same(&self, other: &JobSystem, id: int)
        requires
            other.same_jobs(self),
            0 <= id < self.job_count(),
        ensures
            self.deps_done(id) == other.deps_done(id),
    {
        assert(self.deps_of(id) == other.deps_of(id));
        if self.deps_done(id) {
            assert forall|k: int| 0 <= k < other.deps_of(id).len() implies other.is_complete(
                #[trigger] other.deps_of(id)[k] as int,
            ) by {
                let d = self.deps_of(id)[k] as int;
                assert(self.is_complete(d));
                assert(self.outcome_of(d) == other.outcome_of(d));
            }
        }
        if other.deps_done(id) {
            assert forall|k: int| 0 <= k < self.deps_of(id).len() implies self.is_complete(
                #[trigger] self.deps_of(id)[k] as int,
            ) by {
                let d = other.deps_of(id)[k] as int;
                assert(other.is_complete(d));
                assert(self.outcome_of(d) == other.outcome_of(d));
            }
        }
    }

    /// A system that holds the same jobs and the same queues as a
    /// well-formed one is well-formed.
    proof fn lemma_same_wf(&self, other: &JobSystem)
        requires
            other.wf(),
            self.same_jobs(other),
            forall|t: int| 0 <= t < PRIORITY_LEVELS ==> #[trigger] self.tier(t) == other.tier(t),
        ensures
            self.wf(),
            self.open_count() == other.open_count(),
            forall|id: int| self.ready(id) == other.ready(id),
    {
        assert(self.open_flags() =~= other.open_flags());
        assert forall|id: int, k: int|
            0 <= id < self.job_count() && 0 <= k < self.deps_of(id).len() implies (
        #[trigger] self.deps_of(id)[k] as int) < id by {
            assert(self.deps_of(id) == other.deps_of(id));
        }
        assert forall|t: int, p: int|
            0 <= t < PRIORITY_LEVELS && 0 <= p < self.tier(t).len() implies {
            let id = #[trigger] self.tier(t)[p] as int;
            &&& id < self.job_count()
            &&& self.outcome_of(id) is None
            &&& self.priority_of(id).spec_rank() == t
            &&& self.has_body(id)
        } by {
            let id = other.tier(t)[p] as int;
            assert(self.tier(t) == other.tier(t));
            assert(id < other.job_count());
            assert(self.outcome_of(id) == other.outcome_of(id));
            assert(self.priority_of(id) == other.priority_of(id));
            assert(self.has_body(id) == other.has_body(id));
        }
        assert forall|t: int, p: int, q: int|
            0 <= t < PRIORITY_LEVELS && 0 <= p < q < self.tier(t).len() implies #[trigger] self.tier(
            t,
        )[p] < #[trigger] self.tier(t)[q] by {
            assert(self.tier(t) == other.tier(t));
            assert(other.tier(t)[p] < other.tier(t)[q]);
        }
        assert forall|id: int|
            0 <= id < self.job_count() && self.outcome_of(id) is None && self.has_body(
                id,
            ) implies #[trigger] self.tier(self.priority_of(id).spec_rank()).contains(
            id as u64,
        ) by {
            assert(self.outcome_of(id) == other.outcome_of(id));
            assert(self.priority_of(id) == other.priority_of(id));
            assert(self.has_body(id) == other.has_body(id));
            let t = other.priority_of(id).spec_rank();
            assert(other.tier(t).contains(id as u64));
            assert(self.tier(t) == other.tier(t));
        }
        assert forall|id: int| #[trigger] self.executing(id) implies self.deps_done(id) by {
            assert(self.outcome_of(id) == other.outcome_of(id));
            assert(self.has_body(id) == other.has_body(id));
            assert(other.executing(id));
            other.lemma_deps_same(self, id);
        }
        assert forall|id: int| 0 <= id < self.job_count() implies (self.outcome_of(id) is Some
            <==> #[trigger] self.completion_log().contains(id as u64)) by {
            assert(self.outcome_of(id) == other.outcome_of(id));
        }
        assert forall|p: int, k: int|
            0 <= p < self.completion_log().len() && 0 <= k < self.deps_of(
                self.completion_log()[p] as int,
            ).len() implies self.completion_log().subrange(0, p).contains(
            #[trigger] self.deps_of(self.completion_log()[p] as int)[k],
        ) by {
            let id = other.completion_log()[p] as int;
            assert(id < other.job_count());
            assert(self.deps_of(id) == other.deps_of(id));
        }
        assert forall|id: int| self.ready(id) == other.ready(id) by {
            self.lemma_same_ready(other, id);
        }
    }

    /// Completion depends on the jobs alone.
    pub proof fn lemma_same_complete(&self, other: &JobSystem)
        requires
            self.same_jobs(other),
            other.all_complete(),
        ensures
            self.all_complete(),
    {
        assert forall|id: int| 0 <= id < self.job_count() implies #[trigger] self.is_complete(
            id,
        ) by {
            assert(other.is_complete(id));
            assert(self.outcome_of(id) == other.outcome_of(id));
        }
    }

    /// The queues are in order after a job was claimed.
    proof fn lemma_queues_after_claim(before: &JobSystem, after: &JobSystem, id: u64, pos: int)
        requires
            before.wf(),
            before.ready(id as int),
            after.job_count() == before.job_count(),
            after.tier_count() == before.tier_count(),
            0 <= pos < before.tier(before.priority_of(id as int).spec_rank()).len(),
            before.tier(before.priority_of(id as int).spec_rank())[pos] == id,
            forall|t: int|
                0 <= t < PRIORITY_LEVELS ==> #[trigger] after.tier(t) == (if t
                    == before.priority_of(id as int).spec_rank() {
                    before.tier(t).remove(pos)
                } else {
                    before.tier(t)
                }),
            !after.has_body(id as int),
            forall|j: int|
                0 <= j < after.job_count() ==> #[trigger] after.priority_of(j) == before.priority_of(
                    j,
                ),
            forall|j: int|
                0 <= j < after.job_count() ==> #[trigger] after.outcome_of(j) == before.outcome_of(j),
            forall|j: int|
                0 <= j < after.job_count() && j != id ==> #[trigger] after.has_body(j)
                    == before.has_body(j),
        ensures
            after.queues_ok(),
    {
        let rank = before.priority_of(id as int).spec_rank();
        let tier0 = before.tier(rank);
        assert forall|t: int, p: int|
            0 <= t < PRIORITY_LEVELS && 0 <= p < after.tier(t).len() implies {
            let j = #[trigger] after.tier(t)[p] as int;
            &&& j < after.job_count()
            &&& after.outcome_of(j) is None
            &&& after.priority_of(j).spec_rank() == t
            &&& after.has_body(j)
        } by {
            let p_old = if t == rank && p >= pos {
                p + 1
            } else {
                p
            };
            assert(after.tier(t)[p] == before.tier(t)[p_old]);
            let j = before.tier(t)[p_old] as int;
            assert(j < before.job_count());
            if j == id {
                if t == rank {
                    if p_old < pos {
                        assert(tier0[p_old] < tier0[pos]);
                    } else {
                        assert(tier0[pos] < tier0[p_old]);
                    }
                }
            }
            assert(after.outcome_of(j) == before.outcome_of(j));
            assert(after.priority_of(j) == before.priority_of(j));
            assert(after.has_body(j) == before.has_body(j));
        }
        assert forall|t: int, p: int, q: int|
            0 <= t < PRIORITY_LEVELS && 0 <= p < q < after.tier(
                t,
            ).len() implies #[trigger] after.tier(t)[p] < #[trigger] after.tier(t)[q] by {
            let p_old = if t == rank && p >= pos {
                p + 1
            } else {
                p
            };
            let q_old = if t == rank && q >= pos {
                q + 1
            } else {
                q
            };
            assert(after.tier(t)[p] == before.tier(t)[p_old]);
            assert(after.tier(t)[q] == before.tier(t)[q_old]);
            assert(before.tier(t)[p_old] < before.tier(t)[q_old]);
        }
        assert forall|j: int|
            0 <= j < after.job_count() && after.outcome_of(j) is None && after.has_body(
                j,
            ) implies #[trigger] after.tier(after.priority_of(j).spec_rank()).contains(
            j as u64,
        ) by {
            assert(after.priority_of(j) == before.priority_of(j));
            assert(after.outcome_of(j) == before.outcome_of(j));
            assert(after.has_body(j) == before.has_body(j));
            let t = before.priority_of(j).spec_rank();
            assert(before.tier(t).contains(j as u64));
            let q = before.tier(t).index_of(j as u64);
            assert(before.tier(t)[q] == j as u64);
            let q_new = if t == rank && q > pos {
                q - 1
            } else {
                q
            };
            assert(after.tier(t)[q_new] == j as u64);
        }
    }

    /// What does not depend on the bodies is in order after a job was
    /// claimed.
    proof fn lemma_frame_after_claim(before: &JobSystem, after: &JobSystem, id: u64)
        requires
            before.wf(),
            before.ready(id as int),
            after.job_count() == before.job_count(),
            after.completion_log() == before.completion_log(),
            !after.has_body(id as int),
            forall|j: int| 0 <= j < after.job_count() ==> #[trigger] after.deps_of(j) == before.deps_of(j),
            forall|j: int|
                0 <= j < after.job_count() ==> #[trigger] after.outcome_of(j) == before.outcome_of(j),
            forall|j: int|
                0 <= j < after.job_count() && j != id ==> #[trigger] after.has_body(j)
                    == before.has_body(j),
        ensures
            after.log_ok(),
            after.dag_ok(),
            forall|j: int| #[trigger] after.executing(j) ==> after.deps_done(j),
    {
        assert forall|j: int| 0 <= j < after.job_count() implies (after.outcome_of(j) is Some
            <==> #[trigger] after.completion_log().contains(j as u64)) by {
            assert(after.outcome_of(j) == before.outcome_of(j));
        }
        assert forall|a: int, k: int|
            0 <= a < after.completion_log().len() && 0 <= k < after.deps_of(
                after.completion_log()[a] as int,
            ).len() implies after.completion_log().subrange(0, a).contains(
            #[trigger] after.deps_of(after.completion_log()[a] as int)[k],
        ) by {
            let j = before.completion_log()[a] as int;
            assert(j < before.job_count());
            assert(after.deps_of(j) == before.deps_of(j));
        }
        assert forall|j: int, k: int|
            0 <= j < after.job_count() && 0 <= k < after.deps_of(j).len() implies (
        #[trigger] after.deps_of(j)[k] as int) < j by {
            assert(after.deps_of(j) == before.deps_of(j));
        }
        assert forall|j: int| #[trigger] after.executing(j) implies after.deps_done(j) by {
            assert(after.deps_of(j) == before.deps_of(j));
            assert(after.outcome_of(j) == before.outcome_of(j));
            if j != id {
                assert(after.has_body(j) == before.has_body(j));
                assert(before.executing(j));
            }
            assert(before.deps_done(j));
            assert forall|k: int| 0 <= k < after.deps_of(j).len() implies after.is_complete(
                #[trigger] after.deps_of(j)[k] as int,
            ) by {
                let d = before.deps_of(j)[k] as int;
                assert(before.is_complete(d));
                assert(after.outcome_of(d) == before.outcome_of(d));
            }
        }
    }

    /// The queues are in order after a job was finished.
    proof fn lemma_queues_after_finish(before: &JobSystem, after: &JobSystem, id: u64)
        requires
            before.wf(),
            before.executing(id as int),
            after.job_count() == before.job_count(),
            after.tier_count() == before.tier_count(),
            forall|t: int| 0 <= t < PRIORITY_LEVELS ==> #[trigger] after.tier(t) == before.tier(t),
            forall|j: int|
                0 <= j < after.job_count() ==> #[trigger] after.priority_of(j) == before.priority_of(
                    j,
                ),
            forall|j: int|
                0 <= j < after.job_count() && j != id ==> #[trigger] after.outcome_of(j)
                    == before.outcome_of(j),
            forall|j: int| 0 <= j < after.job_count() ==> #[trigger] after.has_body(j) == before.has_body(j),
        ensures
            after.queues_ok(),
    {
        assert forall|t: int, p: int|
            0 <= t < PRIORITY_LEVELS && 0 <= p < after.tier(t).len() implies {
            let j = #[trigger] after.tier(t)[p] as int;
            &&& j < after.job_count()
            &&& after.outcome_of(j) is None
            &&& after.priority_of(j).spec_rank() == t
            &&& after.has_body(j)
        } by {
            assert(after.tier(t)[p] == before.tier(t)[p]);
            let j = before.tier(t)[p] as int;
            assert(j < before.job_count());
            assert(before.has_body(j));
            assert(after.outcome_of(j) == before.outcome_of(j));
            assert(after.priority_of(j) == before.priority_of(j));
            assert(after.has_body(j) == before.has_body(j));
        }
        assert forall|t: int, p: int, q: int|
            0 <= t < PRIORITY_LEVELS && 0 <= p < q < after.tier(
                t,
            ).len() implies #[trigger] after.tier(t)[p] < #[trigger] after.tier(t)[q] by {
            assert(after.tier(t) == before.tier(t));
            assert(before.tier(t)[p] < before.tier(t)[q]);
        }
        assert forall|j: int|
            0 <= j < after.job_count() && after.outcome_of(j) is None && after.has_body(
                j,
            ) implies #[trigger] after.tier(after.priority_of(j).spec_rank()).contains(
            j as u64,
        ) by {
            assert(after.priority_of(j) == before.priority_of(j));
            assert(after.has_body(j) == before.has_body(j));
            assert(after.outcome_of(j) == before.outcome_of(j));
            let t = before.priority_of(j).spec_rank();
            assert(before.tier(t).contains(j as u64));
            assert(after.tier(t) == before.tier(t));
        }
    }

    /// The completion log is in order after a job was finished.
    proof fn lemma_log_after_finish(before: &JobSystem, after: &JobSystem, id: u64)
        requires
            before.wf(),
            before.executing(id as int),
            after.job_count() == before.job_count(),
            after.completion_log() == before.completion_log().push(id),
            after.outcome_of(id as int) is Some,
            forall|j: int| 0 <= j < after.job_count() ==> #[trigger] after.deps_of(j) == before.deps_of(j),
            forall|j: int|
                0 <= j < after.job_count() && j != id ==> #[trigger] after.outcome_of(j)
                    == before.outcome_of(j),
            forall|j: int| 0 <= j < after.job_count() ==> #[trigger] after.has_body(j) == before.has_body(j),
        ensures
            after.log_ok(),
            after.dag_ok(),
            forall|j: int| #[trigger] after.executing(j) ==> after.deps_done(j),
    {
        let log0 = before.completion_log();
        let log1 = after.completion_log();
        assert(before.outcome_of(id as int) is None);
        assert(!log0.contains((id as int) as u64));
        assert(log1.no_duplicates()) by {
            assert forall|a: int, b: int|
                0 <= a < log1.len() && 0 <= b < log1.len() && a != b implies log1[a]
                != log1[b] by {
                if a < log0.len() {
                    assert(log0.contains(log0[a]));
                }
                if b < log0.len() {
                    assert(log0.contains(log0[b]));
                }
            }
        }
        assert forall|j: int| 0 <= j < after.job_count() implies (after.outcome_of(j) is Some
            <==> #[trigger] log1.contains(j as u64)) by {
            if j == id {
                assert(log1[log0.len() as int] == id);
            } else {
                assert(after.outcome_of(j) == before.outcome_of(j));
                if log0.contains(j as u64) {
                    let a = log0.index_of(j as u64);
                    assert(log1[a] == j as u64);
                }
                if log1.contains(j as u64) {
                    let a = log1.index_of(j as u64);
                    assert(log1[a] == j as u64);
                    assert(log0[a] == j as u64);
                }
            }
        }
        assert forall|p: int| 0 <= p < log1.len() implies (#[trigger] log1[p] as int)
            < after.job_count() by {
            if p < log0.len() {
                assert(log1[p] == log0[p]);
            }
        }
        assert(before.deps_done(id as int));
        assert forall|a: int, k: int|
            0 <= a < log1.len() && 0 <= k < after.deps_of(
                log1[a] as int,
            ).len() implies log1.subrange(0, a).contains(
            #[trigger] after.deps_of(log1[a] as int)[k],
        ) by {
            if a < log0.len() {
                let j = log0[a] as int;
                assert(log1[a] == log0[a]);
                assert(j < before.job_count());
                assert(after.deps_of(j) == before.deps_of(j));
                assert(log1.subrange(0, a) =~= log0.subrange(0, a));
            } else {
                assert(after.deps_of(id as int) == before.deps_of(id as int));
                let d = before.deps_of(id as int)[k];
                assert(before.is_complete(d as int));
                assert(log0.contains((d as int) as u64));
                assert(log1.subrange(0, a) =~= log0);
            }
        }
        assert forall|j: int, k: int|
            0 <= j < after.job_count() && 0 <= k < after.deps_of(j).len() implies (
        #[trigger] after.deps_of(j)[k] as int) < j by {
            assert(after.deps_of(j) == before.deps_of(j));
        }
        assert forall|j: int| #[trigger] after.executing(j) implies after.deps_done(j) by {
            assert(after.deps_of(j) == before.deps_of(j));
            assert(after.has_body(j) == before.has_body(j));
            assert(j != id);
            assert(after.outcome_of(j) == before.outcome_of(j));
            assert(before.executing(j));
            assert(before.deps_done(j));
            assert forall|k: int| 0 <= k < after.deps_of(j).len() implies after.is_complete(
                #[trigger] after.deps_of(j)[k] as int,
            ) by {
                let d = before.deps_of(j)[k] as int;
                assert(before.is_complete(d));
                if d != id {
                    assert(after.outcome_of(d) == before.outcome_of(d));
                }
            }
        }
    }

    /// Claiming a job and finishing it make one step.
    pub proof fn lemma_began_finished(
        before: &JobSystem,
        mid: &JobSystem,
        after: &JobSystem,
        id: u64,
        outcome: JobOutcome,
    )
        requires
            JobSystem::began(before, mid, id),
            JobSystem::finished(mid, after, id, outcome),
        ensures
            JobSystem::stepped(before, after, id),
    {
        assert forall|i: int| 0 <= i < before.job_count() implies #[trigger] after.priority_of(i)
            == before.priority_of(i) by {
            assert(mid.priority_of(i) == before.priority_of(i));
        }
        assert forall|i: int| 0 <= i < before.job_count() implies #[trigger] after.deps_of(i)
            == before.deps_of(i) by {
            assert(mid.deps_of(i) == before.deps_of(i));
        }
        assert forall|i: int|
            0 <= i < before.job_count() && i != id implies #[trigger] after.outcome_of(i)
            == before.outcome_of(i) by {
            assert(mid.outcome_of(i) == before.outcome_of(i));
        }
        assert forall|i: int|
            0 <= i < before.job_count() && i != id implies #[trigger] after.has_body(i)
            == before.has_body(i) by {
            assert(mid.has_body(i) == before.has_body(i));
        }
    }

    /// A system that holds the same jobs has made a run of no step.
    pub proof fn lemma_progressed_none(before: &JobSystem, after: &JobSystem)
        requires
            after.same_jobs(before),
        ensures
            JobSystem::progressed(before, after, 0),
            before.none_ready() ==> after.none_ready(),
            before.all_complete() ==> after.all_complete(),
    {
        assert(after.completion_log().subrange(0, before.completion_log().len() as int)
            =~= before.completion_log());
        assert(after.open_flags() =~= before.open_flags());
        assert forall|i: int| #[trigger] after.executing(i) == before.executing(i) by {
            if 0 <= i < before.job_count() {
                assert(after.outcome_of(i) == before.outcome_of(i));
                assert(after.has_body(i) == before.has_body(i));
            }
        }
        if before.none_ready() {
            assert forall|i: int| !#[trigger] after.ready(i) by {
                after.lemma_same_ready(before, i);
                assert(!before.ready(i));
            }
        }
        if before.all_complete() {
            after.lemma_same_complete(before);
        }
    }

    /// One more step makes a run longer by one.
    pub proof fn lemma_progressed_step(
        before: &JobSystem,
        mid: &JobSystem,
        after: &JobSystem,
        executed: nat,
        id: u64,
    )
        requires
            mid.wf(),
            JobSystem::progressed(before, mid, executed),
            JobSystem::stepped(mid, after, id),
        ensures
            JobSystem::progressed(before, after, executed + 1),
    {
        assert(after.completion_log().subrange(0, before.completion_log().len() as int)
            =~= mid.completion_log().subrange(0, before.completion_log().len() as int));
        assert forall|i: int| 0 <= i < before.job_count() implies #[trigger] after.priority_of(i)
            == before.priority_of(i) by {
            assert(mid.priority_of(i) == before.priority_of(i));
        }
        assert forall|i: int| 0 <= i < before.job_count() implies #[trigger] after.deps_of(i)
            == before.deps_of(i) by {
            assert(mid.deps_of(i) == before.deps_of(i));
        }
        assert forall|i: int|
            0 <= i < before.job_count() && before.outcome_of(i)
                is Some implies #[trigger] after.outcome_of(i) == before.outcome_of(i) by {
            assert(mid.outcome_of(i) == before.outcome_of(i));
        }
        assert forall|i: int| #[trigger] after.executing(i) == before.executing(i) by {
            assert(mid.executing(i) == before.executing(i));
            if 0 <= i < mid.job_count() && i != id {
                assert(after.outcome_of(i) == mid.outcome_of(i));
                assert(after.has_body(i) == mid.has_body(i));
            }
        }
        let log_mid = mid.completion_log();
        let log = after.completion_log();
        assert forall|p: int, j: int|
            before.completion_log().len() <= p < log.len() implies #[trigger] after.chose_well(
            before,
            p,
            j,
        ) by {
            if after.was_ready(before, p, j) {
                assert(after.deps_of(j) == mid.deps_of(j));
                assert(after.priority_of(j) == mid.priority_of(j));
                if p < log_mid.len() {
                    assert(log.subrange(0, p) =~= log_mid.subrange(0, p));
                    assert(log[p] == log_mid[p]);
                    assert((log_mid[p] as int) < mid.job_count());
                    assert(after.priority_of(log[p] as int) == mid.priority_of(log[p] as int));
                    assert(mid.was_ready(before, p, j));
                    assert(mid.chose_well(before, p, j));
                } else {
                    assert(log.subrange(0, p) =~= log_mid);
                    assert(log[p] == id);
                    assert(after.priority_of(id as int) == mid.priority_of(id as int));
                    assert(!log_mid.contains(j as u64));
                    assert(mid.outcome_of(j) is None);
                    assert(!mid.executing(j));
                    assert forall|k: int| 0 <= k < mid.deps_of(j).len() implies mid.is_complete(
                        #[trigger] mid.deps_of(j)[k] as int,
                    ) by {
                        let d = mid.deps_of(j)[k];
                        assert(log_mid.contains(d));
                        let a = log_mid.index_of(d);
                        assert(log_mid[a] == d);
                        assert((log_mid[a] as int) < mid.job_count());
                        assert(log_mid.contains((d as int) as u64));
                    }
                    assert(mid.ready(j));
                    assert(mid.goes_before(id as int, j));
                }
            }
        }
    }

    /// Two runs in a row make one run.
    pub proof fn lemma_progressed_join(
        before: &JobSystem,
        mid: &JobSystem,
        after: &JobSystem,
        first: nat,
        second: nat,
    )
        requires
            mid.wf(),
            JobSystem::progressed(before, mid, first),
            JobSystem::progressed(mid, after, second),
        ensures
            JobSystem::progressed(before, after, first + second),
    {
        assert(after.completion_log().subrange(0, before.completion_log().len() as int)
            =~= mid.completion_log().subrange(0, before.completion_log().len() as int));
        assert forall|i: int| 0 <= i < before.job_count() implies #[trigger] after.priority_of(i)
            == before.priority_of(i) by {
            assert(mid.priority_of(i) == before.priority_of(i));
        }
        assert forall|i: int| 0 <= i < before.job_count() implies #[trigger] after.deps_of(i)
            == before.deps_of(i) by {
            assert(mid.deps_of(i) == before.deps_of(i));
        }
        assert forall|i: int|
            0 <= i < before.job_count() && before.outcome_of(i)
                is Some implies #[trigger] after.outcome_of(i) == before.outcome_of(i) by {
            assert(mid.outcome_of(i) == before.outcome_of(i));
        }
        assert forall|i: int| #[trigger] after.executing(i) == before.executing(i) by {
            assert(mid.executing(i) == before.executing(i));
            assert(after.executing(i) == mid.executing(i));
        }
        let log_mid = mid.completion_log();
        let log = after.completion_log();
        assert(log.subrange(0, log_mid.len() as int) == log_mid);
        assert forall|p: int, j: int|
            before.completion_log().len() <= p < log.len() implies #[trigger] after.chose_well(
            before,
            p,
            j,
        ) by {
            if after.was_ready(before, p, j) {
                assert(mid.executing(j) == before.executing(j));
                if p < log_mid.len() {
                    assert(after.deps_of(j) == mid.deps_of(j));
                    assert(after.priority_of(j) == mid.priority_of(j));
                    assert(log.subrange(0, p) =~= log_mid.subrange(0, p));
                    assert(log[p] == log.subrange(0, log_mid.len() as int)[p]);
                    assert((log_mid[p] as int) < mid.job_count());
                    assert(mid.was_ready(before, p, j));
                    assert(mid.chose_well(before, p, j));
                    assert(after.priority_of(log[p] as int) == mid.priority_of(log[p] as int));
                } else {
                    assert(after.was_ready(mid, p, j));
                    assert(after.chose_well(mid, p, j));
                }
            }
        }
    }

    /// A run leaves a system in which no job was executing that way.
    pub proof fn lemma_progressed_idle(before: &JobSystem, after: &JobSystem, executed: nat)
        requires
            JobSystem::progressed(before, after, executed),
            before.idle(),
        ensures
            after.idle(),
    {
        assert forall|i: int| !#[trigger] after.executing(i) by {
            assert(!before.executing(i));
        }
    }
}

} // verus!
