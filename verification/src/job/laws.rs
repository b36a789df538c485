//! Laws of the job system: what holds across several operations, proved
//! from the operations' contracts and the system's invariant.

use super::graph::TaskGraphBuilder;
use super::priority::JobPriority;
use super::handle::JobHandle;
use super::system::{known_ids, lemma_known_ids_bound, JobSystem};
use vstd::prelude::*;

verus! {

/// Completion is final: a job that has completed stays completed, with the
/// same outcome, whatever is submitted or run afterwards.
pub proof fn law_completion_is_final(before: &JobSystem, after: &JobSystem, id: int)
    requires
        before.is_complete(id),
        after.extends(before),
    ensures
        after.is_complete(id),
        after.outcome_of(id) == before.outcome_of(id),
{
}

/// A job without dependencies is ready from its submission on, until it
/// completes; it never waits.
pub proof fn law_free_job_is_ready(before: &JobSystem, after: &JobSystem, id: u64, priority: JobPriority)
    requires
        JobSystem::submitted(before, after, id, priority, Seq::<u64>::empty()),
    ensures
        after.ready(id as int),
        !after.pending(id as int),
{
}

/// A dependency that has completed is satisfied at once: a job whose
/// dependencies have all completed when it is submitted is ready.
pub proof fn law_done_dependencies_satisfied(
    before: &JobSystem,
    after: &JobSystem,
    id: u64,
    priority: JobPriority,
    deps: Seq<u64>,
)
    requires
        JobSystem::submitted(before, after, id, priority, deps),
        forall|k: int| 0 <= k < deps.len() ==> before.is_complete(#[trigger] deps[k] as int),
    ensures
        after.ready(id as int),
{
    assert forall|k: int| 0 <= k < after.deps_of(id as int).len() implies after.is_complete(
        #[trigger] after.deps_of(id as int)[k] as int,
    ) by {
        let d = deps[k] as int;
        assert(before.is_complete(d));
        assert(after.outcome_of(d) == before.outcome_of(d));
    }
}

/// Dependency ordering: a job that has completed did so after each of its
/// dependencies, which have all completed.
pub proof fn law_dependency_order(system: &JobSystem, id: int, k: int)
    requires
        system.wf(),
        system.is_complete(id),
        0 <= k < system.deps_of(id).len(),
    ensures
        system.is_complete(system.deps_of(id)[k] as int),
        system.completed_at(system.deps_of(id)[k] as int) < system.completed_at(id),
{
    let log = system.completion_log();
    let d = system.deps_of(id)[k];
    assert(log.contains(id as u64));
    let p = log.index_of(id as u64);
    assert(log[p] == id as u64);
    assert((log[p] as int) < system.job_count());
    assert(log.subrange(0, p).contains(system.deps_of(log[p] as int)[k]));
    let q = log.subrange(0, p).index_of(d);
    assert(log.subrange(0, p)[q] == d);
    assert(log[q] == d);
    assert(log.contains(d));
    assert((d as int) < id);
    assert(log.contains((d as int) as u64));
    let q_two = log.index_of(d);
    assert(log[q_two] == d);
    assert(q_two == q);
}

/// A chain runs in order: when each of the jobs `first + 1` to
/// `first + length - 1` depends on the job before it and all have completed,
/// they completed in the order of the chain.
pub proof fn law_chain_in_order(system: &JobSystem, first: int, length: int, i: int, j: int)
    requires
        system.wf(),
        0 <= first,
        first + length <= system.job_count(),
        forall|m: int|
            first < m < first + length ==> system.deps_of(m).contains(#[trigger] ((m - 1) as u64)),
        forall|m: int| first <= m < first + length ==> #[trigger] system.is_complete(m),
        0 <= i < j < length,
    ensures
        system.completed_at(first + i) < system.completed_at(first + j),
    decreases j - i,
{
    let m = first + j;
    assert(system.is_complete(m));
    assert(system.deps_of(m).contains((m - 1) as u64));
    let k = system.deps_of(m).index_of((m - 1) as u64);
    assert(system.deps_of(m)[k] == (m - 1) as u64);
    law_dependency_order(system, m, k);
    if i < j - 1 {
        law_chain_in_order(system, first, length, i, j - 1);
    }
}

/// Every job runs once: the completion log lists each completed job, and
/// none twice.
pub proof fn law_each_job_runs_once(system: &JobSystem, id: int)
    requires
        system.wf(),
        0 <= id < system.job_count(),
    ensures
        system.completion_log().no_duplicates(),
        system.is_complete(id) <==> system.completion_log().contains(id as u64),
{
}

/// Priority before submission order: the job that a step runs is ready, no
/// ready job has a higher priority, and no ready job of the same priority
/// was submitted earlier.
pub proof fn law_step_respects_priority(before: &JobSystem, after: &JobSystem, id: u64, other: int)
    requires
        JobSystem::stepped(before, after, id),
        before.ready(other),
    ensures
        before.ready(id as int),
        before.priority_of(other).spec_rank() <= before.priority_of(id as int).spec_rank(),
        before.priority_of(other).spec_rank() == before.priority_of(id as int).spec_rank() ==> id
            <= other,
{
    assert(before.goes_before(id as int, other));
}

/// A run goes by priority: of two jobs that completed in one run, the
/// earlier one had the higher priority, or the same priority and the earlier
/// submission, unless the later one still waited for a dependency when the
/// earlier one was chosen.
pub proof fn law_run_in_priority_order(
    before: &JobSystem,
    after: &JobSystem,
    executed: nat,
    p: int,
    q: int,
)
    requires
        after.wf(),
        JobSystem::progressed(before, after, executed),
        before.completion_log().len() <= p < q < after.completion_log().len(),
        after.deps_logged(after.completion_log()[q] as int, p),
    ensures
        after.goes_before(after.completion_log()[p] as int, after.completion_log()[q] as int),
{
    let log = after.completion_log();
    let j = log[q] as int;
    assert(j < after.job_count());
    assert(log.contains(log[q]));
    assert(log.contains(j as u64));
    assert(after.outcome_of(j) is Some);
    assert(!after.executing(j));
    assert(after.executing(j) == before.executing(j));
    if log.subrange(0, p).contains(j as u64) {
        let a = log.subrange(0, p).index_of(j as u64);
        assert(log.subrange(0, p)[a] == j as u64);
        assert(log[a] == log[q]);
    }
    assert(after.chose_well(before, p, j));
}

/// No job runs before its dependencies: the job that a step runs has all
/// its dependencies completed.
pub proof fn law_step_waits_for_dependencies(before: &JobSystem, after: &JobSystem, id: u64, k: int)
    requires
        JobSystem::stepped(before, after, id),
        0 <= k < before.deps_of(id as int).len(),
    ensures
        before.is_complete(before.deps_of(id as int)[k] as int),
{
}

/// No deadlock: while a job has not completed and none is executing, some
/// job is ready.
pub proof fn law_no_deadlock(system: &JobSystem)
    requires
        system.wf(),
        system.idle(),
        !system.all_complete(),
    ensures
        exists|id: int| #[trigger] system.ready(id),
{
    if system.none_ready() {
        system.lemma_idle_none_ready();
    } else {
        let id = choose|id: int| #[trigger] system.ready(id);
        assert(system.ready(id));
    }
}

/// A job is in one state: pending, ready, executing or completed, and in no
/// two of them.
pub proof fn law_one_state(system: &JobSystem, id: int)
    requires
        0 <= id < system.job_count(),
    ensures
        system.pending(id) || system.ready(id) || system.executing(id) || system.is_complete(id),
        !(system.ready(id) && system.executing(id)),
        !(system.ready(id) && system.is_complete(id)),
        !(system.executing(id) && system.is_complete(id)),
        !(system.pending(id) && system.ready(id)),
        !(system.pending(id) && system.is_complete(id)),
{
}

/// An executing job has nothing left to wait for: all its dependencies have
/// completed.
pub proof fn law_executing_was_ready(system: &JobSystem, id: int)
    requires
        system.wf(),
        system.executing(id),
    ensures
        system.deps_done(id),
        !system.pending(id),
{
}

/// A claimed job is not preempted: whatever is claimed while a job is
/// executing is another job, and the job stays executing.
pub proof fn law_claimed_not_preempted(
    before: &JobSystem,
    after: &JobSystem,
    running: int,
    claimed: u64,
)
    requires
        before.executing(running),
        JobSystem::began(before, after, claimed),
    ensures
        claimed != running,
        after.executing(running),
{
}

/// Failure unblocks too: however a job has ended, a job that depended on it
/// alone, and was not claimed, is ready afterwards.
pub proof fn law_finish_unblocks(
    before: &JobSystem,
    after: &JobSystem,
    id: u64,
    outcome: super::task::JobOutcome,
    dependent: int,
)
    requires
        JobSystem::finished(before, after, id, outcome),
        0 <= dependent < before.job_count(),
        dependent != id,
        before.outcome_of(dependent) is None,
        before.has_body(dependent),
        forall|k: int|
            0 <= k < before.deps_of(dependent).len() ==> #[trigger] before.deps_of(dependent)[k]
                == id || before.is_complete(before.deps_of(dependent)[k] as int),
    ensures
        after.ready(dependent),
{
    assert(after.deps_of(dependent) == before.deps_of(dependent));
    assert(after.outcome_of(dependent) == before.outcome_of(dependent));
    assert(after.has_body(dependent) == before.has_body(dependent));
    assert forall|k: int| 0 <= k < after.deps_of(dependent).len() implies after.is_complete(
        #[trigger] after.deps_of(dependent)[k] as int,
    ) by {
        let d = before.deps_of(dependent)[k];
        if d != id {
            assert(before.is_complete(d as int));
            assert(after.outcome_of(d as int) == before.outcome_of(d as int));
        }
    }
}

/// A graph without dependencies has no cycle, so all its tasks are
/// submitted.
pub proof fn law_independent_tasks_submit(graph: &TaskGraphBuilder)
    requires
        forall|t: int| 0 <= t < graph.task_count() ==> (#[trigger] graph.deps_of(t)).len() == 0,
    ensures
        !graph.entangled(),
{
    if graph.entangled() {
        let knot = choose|knot: Set<int>| graph.is_knot(knot);
        let t = choose|t: int| knot.contains(t);
        assert(graph.waits_in(t, knot));
        assert(graph.deps_of(t).len() == 0);
    }
}

/// The submission order of a graph is fixed: of the orders in which every
/// task comes after the tasks it depends on, there is one that takes, at each
/// position, the task added earliest. So the identifiers that `execute` hands
/// out do not depend on chance.
pub proof fn law_submission_order_fixed(
    graph: &TaskGraphBuilder,
    before: &JobSystem,
    one: Seq<usize>,
    other: Seq<usize>,
    ids: Seq<u64>,
    t: int,
)
    requires
        graph.wf(),
        graph.submitted_in_order(before, one, ids),
        graph.is_order(other),
        graph.is_earliest(other),
        0 <= t < graph.task_count(),
    ensures
        one == other,
        ids[t] == before.job_count() + other.index_of(t as usize),
{
    graph.lemma_earliest_order_unique(one, other);
    assert(one.contains(t as usize));
    let q = one.index_of(t as usize);
    assert(one[q] == t as usize);
    assert(ids[one[q] as int] == before.job_count() + q);
}

/// Dependencies are submitted first: in a submitted graph the job of a
/// task has a later identifier than the jobs of the tasks it depends on, and
/// those are its dependencies.
pub proof fn law_graph_dependencies_first(
    graph: &TaskGraphBuilder,
    before: &JobSystem,
    after: &JobSystem,
    ids: Seq<u64>,
    t: int,
    k: int,
)
    requires
        after.wf(),
        graph.graph_submitted(before, after, ids),
        0 <= t < graph.task_count(),
        0 <= k < graph.deps_of(t).len(),
    ensures
        ids[graph.deps_of(t)[k] as int] < ids[t],
        after.deps_of(ids[t] as int)[k] == ids[graph.deps_of(t)[k] as int],
{
    assert(graph.task_submitted(after, ids, t, before.job_count()));
    let id = ids[t] as int;
    assert(after.deps_of(id)[k] == ids[graph.deps_of(t)[k] as int]);
    assert((after.deps_of(id)[k] as int) < id);
}

/// What a job waits for: an identifier is among the recorded dependencies
/// exactly when some handle carries it and it names a job submitted before.
pub proof fn law_known_dependencies(handles: Seq<&JobHandle>, bound: nat, id: u64)
    ensures
        known_ids(handles, bound).contains(id) <==> id < bound && exists|i: int|
            0 <= i < handles.len() && (#[trigger] handles[i]).spec_id() == id,
    decreases handles.len(),
{
    if handles.len() > 0 {
        let rest = handles.drop_last();
        law_known_dependencies(rest, bound, id);
        let ids = known_ids(handles, bound);
        let rest_ids = known_ids(rest, bound);
        if ids.contains(id) {
            let p = ids.index_of(id);
            assert(ids[p] == id);
            lemma_known_ids_bound(handles, bound);
            if p < rest_ids.len() {
                assert(rest_ids[p] == id);
                assert(rest_ids.contains(id));
                let i = choose|i: int| 0 <= i < rest.len() && (#[trigger] rest[i]).spec_id() == id;
                assert(handles[i].spec_id() == id);
            } else {
                assert(handles[handles.len() - 1].spec_id() == id);
            }
        }
        if id < bound && exists|i: int|
            0 <= i < handles.len() && (#[trigger] handles[i]).spec_id() == id {
            let i = choose|i: int| 0 <= i < handles.len() && (#[trigger] handles[i]).spec_id() == id;
            if i < rest.len() {
                assert(rest[i].spec_id() == id);
                assert(rest_ids.contains(id));
                let p = rest_ids.index_of(id);
                assert(rest_ids[p] == id);
                assert(ids[p] == id);
            } else {
                assert(ids[ids.len() - 1] == id);
            }
        }
    }
}

} // verus!
