//! Task graphs: jobs that are not submitted yet, with dependencies between
//! them, and their submission in an order that respects the dependencies.

use super::handle::JobHandle;
use super::priority::JobPriority;
use super::system::JobSystem;
use super::task::{BoxedJob, Job};
use crate::counting::{
    count_true, lemma_count_true_all, lemma_count_true_full, lemma_count_true_update,
    lemma_count_true_zero,
};
use vstd::prelude::*;

verus! {

/// One task of a graph: a job, its priority, and the tasks it depends on,
/// by their positions in the graph.
pub struct TaskEntry {
    job: Option<BoxedJob>,
    priority: JobPriority,
    deps: Vec<usize>,
}

/// Builder for creating task graphs with dependencies.
pub struct TaskGraphBuilder {
    tasks: Vec<TaskEntry>,
}

/// The job identifier of the handle in a slot.
pub open spec fn handle_id(slot: Option<JobHandle>) -> u64 {
    slot.unwrap().spec_id()
}

impl TaskGraphBuilder {
    /// The number of tasks added so far.
    pub closed spec fn task_count(&self) -> nat {
        self.tasks@.len()
    }

    /// The priority of task `t`.
    pub closed spec fn priority_of(&self, t: int) -> JobPriority {
        self.tasks@[t].priority
    }

    /// The tasks that task `t` depends on, in the order in which the
    /// dependencies were added.
    pub closed spec fn deps_of(&self, t: int) -> Seq<usize> {
        self.tasks@[t].deps@
    }

    /// Whether task `t` still holds its job.
    pub closed spec fn has_job(&self, t: int) -> bool {
        self.tasks@[t].job is Some
    }

    /// The invariant of the builder: every task holds its job, and every
    /// dependency names another task of the graph.
    pub open spec fn wf(&self) -> bool {
        &&& self.task_count() <= usize::MAX
        &&& forall|t: int| 0 <= t < self.task_count() ==> #[trigger] self.has_job(t)
        &&& forall|t: int, k: int|
            0 <= t < self.task_count() && 0 <= k < self.deps_of(t).len() ==> (
            #[trigger] self.deps_of(t)[k]) < self.task_count() && self.deps_of(t)[k] != t
    }

    /// Whether `order` is a submission order: it lists every task once, each
    /// after all the tasks it depends on.
    pub open spec fn is_order(&self, order: Seq<usize>) -> bool {
        &&& order.len() == self.task_count()
        &&& order.no_duplicates()
        &&& forall|p: int| 0 <= p < order.len() ==> (#[trigger] order[p]) < self.task_count()
        &&& forall|t: int| 0 <= t < self.task_count() ==> #[trigger] order.contains(t as usize)
        &&& forall|p: int, k: int|
            0 <= p < order.len() && 0 <= k < self.deps_of(order[p] as int).len()
                ==> order.subrange(0, p).contains(#[trigger] self.deps_of(order[p] as int)[k])
    }

    /// Whether task `u` could not come at position `p` of `order`: it comes
    /// earlier, or it depends on a task that does not.
    pub open spec fn not_free(&self, order: Seq<usize>, p: int, u: int) -> bool {
        order.subrange(0, p).contains(u as usize) || exists|k: int|
            0 <= k < self.deps_of(u).len() && !order.subrange(0, p).contains(
                #[trigger] self.deps_of(u)[k],
            )
    }

    /// Whether `order` takes, at each position, the earliest task that can
    /// come there: no task added before the one at a position could have come
    /// at that position.
    pub open spec fn is_earliest(&self, order: Seq<usize>) -> bool {
        forall|p: int, u: int|
            0 <= p < order.len() && 0 <= u < order[p] ==> #[trigger] self.not_free(order, p, u)
    }

    /// Whether `knot` is a set of tasks that block each other: it is not
    /// empty, and each of its tasks depends on one of its tasks.
    pub open spec fn is_knot(&self, knot: Set<int>) -> bool {
        &&& exists|t: int| knot.contains(t)
        &&& forall|t: int|
            knot.contains(t) ==> 0 <= t < self.task_count() && #[trigger] self.waits_in(t, knot)
    }

    /// Whether task `t` depends on a task of `among`.
    pub open spec fn waits_in(&self, t: int, among: Set<int>) -> bool {
        exists|k: int|
            0 <= k < self.deps_of(t).len() && among.contains(#[trigger] self.deps_of(t)[k] as int)
    }

    /// The tasks that `placed` does not mark.
    pub open spec fn unplaced(&self, placed: Seq<bool>) -> Set<int> {
        Set::new(|t: int| 0 <= t < self.task_count() && !placed[t])
    }

    /// Whether the dependencies hold a cycle: some tasks block each other.
    pub open spec fn entangled(&self) -> bool {
        exists|knot: Set<int>| self.is_knot(knot)
    }

    /// Create a new task graph builder.
    pub fn new() -> (b: TaskGraphBuilder)
        ensures
            b.wf(),
            b.task_count() == 0,
    {
        TaskGraphBuilder { tasks: Vec::new() }
    }

    /// Whether the builder holds the tasks of `before`, unchanged.
    pub open spec fn keeps(&self, before: &TaskGraphBuilder, but: int) -> bool {
        &&& before.task_count() <= self.task_count()
        &&& forall|t: int|
            0 <= t < before.task_count() ==> #[trigger] self.priority_of(t) == before.priority_of(t)
        &&& forall|t: int|
            0 <= t < before.task_count() && t != but ==> #[trigger] self.deps_of(t)
                == before.deps_of(t)
    }

    /// Add a task to the graph. Returns its position, which stays the same
    /// as the graph grows.
    pub fn add_task<J: Job>(&mut self, job: J, priority: JobPriority) -> (index: usize)
        requires
            old(self).wf(),
        ensures
            final(self).wf(),
            index == old(self).task_count(),
            final(self).task_count() == old(self).task_count() + 1,
            final(self).priority_of(index as int) == priority,
            final(self).deps_of(index as int).len() == 0,
            final(self).keeps(old(self), -1),
    {
        let ghost before = *self;
        let index = self.tasks.len();
        let boxed: Box<dyn Job> = Box::new(job);
        self.tasks.push(TaskEntry { job: Some(BoxedJob::new(boxed)), priority, deps: Vec::new() });
        let count = self.tasks.len();
        proof {
            assert forall|t: int| 0 <= t < self.task_count() implies #[trigger] self.has_job(
                t,
            ) by {
                if t < before.task_count() {
                    assert(before.has_job(t));
                }
            }
            assert forall|t: int, k: int|
                0 <= t < self.task_count() && 0 <= k < self.deps_of(t).len() implies (
            #[trigger] self.deps_of(t)[k]) < self.task_count() && self.deps_of(t)[k] != t by {
                if t < before.task_count() {
                    assert(self.deps_of(t) == before.deps_of(t));
                }
            }
        }
        index
    }

    /// Add a dependency between tasks: `task` is not to run before
    /// `depends_on` has completed.
    ///
    /// Both must be tasks of the graph, and different ones; otherwise the
    /// dependency is rejected, the graph stays as it was and `false` is
    /// returned.
    pub fn add_dependency(&mut self, task: usize, depends_on: usize) -> (ok: bool)
        requires
            old(self).wf(),
        ensures
            final(self).wf(),
            ok == (task < old(self).task_count() && depends_on < old(self).task_count() && task
                != depends_on),
            final(self).task_count() == old(self).task_count(),
            ok ==> final(self).deps_of(task as int) == old(self).deps_of(task as int).push(
                depends_on,
            ),
            ok ==> final(self).keeps(old(self), task as int),
            !ok ==> final(self).keeps(old(self), -1),
    {
        let ghost before = *self;
        let n = self.tasks.len();
        if task < n && depends_on < n && task != depends_on {
            self.tasks[task].deps.push(depends_on);
            proof {
                assert forall|t: int| 0 <= t < self.task_count() implies #[trigger] self.has_job(
                    t,
                ) by {
                    assert(before.has_job(t));
                }
                assert forall|t: int, k: int|
                    0 <= t < self.task_count() && 0 <= k < self.deps_of(t).len() implies (
                #[trigger] self.deps_of(t)[k]) < self.task_count() && self.deps_of(t)[k] != t by {
                    if t != task {
                        assert(self.deps_of(t) == before.deps_of(t));
                    } else if k < before.deps_of(t).len() {
                        assert(self.deps_of(t)[k] == before.deps_of(t)[k]);
                    }
                }
            }
            true
        } else {
            false
        }
    }

    /// Check whether every task that `task` depends on is marked in
    /// `placed`.
    fn deps_placed(&self, task: usize, placed: &Vec<bool>) -> (b: bool)
        requires
            self.wf(),
            task < self.task_count(),
            placed@.len() == self.task_count(),
        ensures
            b == forall|k: int|
                0 <= k < self.deps_of(task as int).len() ==> placed@[#[trigger] self.deps_of(
                    task as int,
                )[k] as int],
    {
        let n = self.tasks[task].deps.len();
        let mut k: usize = 0;
        while k < n
            invariant
                k <= n,
                self.wf(),
                task < self.task_count(),
                placed@.len() == self.task_count(),
                n == self.deps_of(task as int).len(),
                forall|i: int|
                    0 <= i < k ==> placed@[#[trigger] self.deps_of(task as int)[i] as int],
            decreases n - k,
        {
            let d = self.tasks[task].deps[k];
            assert(d == self.deps_of(task as int)[k as int]);
            if !placed[d] {
                return false;
            }
            k += 1;
        }
        true
    }

    /// Find the first task that is not marked in `placed` while all the
    /// tasks it depends on are.
    fn next_free(&self, placed: &Vec<bool>) -> (pick: Option<usize>)
        requires
            self.wf(),
            placed@.len() == self.task_count(),
        ensures
            match pick {
                Some(t) => t < self.task_count() && !placed@[t as int] && (forall|k: int|
                    0 <= k < self.deps_of(t as int).len() ==> placed@[#[trigger] self.deps_of(
                        t as int,
                    )[k] as int]) && (forall|u: int|
                    0 <= u < t && !placed@[u] ==> #[trigger] self.waits_in(
                        u,
                        self.unplaced(placed@),
                    )),
                None => forall|t: int|
                    0 <= t < self.task_count() && !placed@[t] ==> #[trigger] self.waits_in(
                        t,
                        self.unplaced(placed@),
                    ),
            },
    {
        let n = self.tasks.len();
        let mut t: usize = 0;
        while t < n
            invariant
                t <= n,
                n == self.task_count(),
                self.wf(),
                placed@.len() == self.task_count(),
                forall|u: int|
                    0 <= u < t && !placed@[u] ==> #[trigger] self.waits_in(
                        u,
                        self.unplaced(placed@),
                    ),
            decreases n - t,
        {
            if !placed[t] {
                if self.deps_placed(t, placed) {
                    return Some(t);
                }
                proof {
                    let k = choose|k: int|
                        0 <= k < self.deps_of(t as int).len() && !placed@[#[trigger] self.deps_of(
                            t as int,
                        )[k] as int];
                    assert(self.unplaced(placed@).contains(self.deps_of(t as int)[k] as int));
                }
            }
            t += 1;
        }
        None
    }

    /// Whether `order` lists tasks of the graph, none twice, each after all
    /// the tasks it depends on, and `placed` marks exactly the tasks listed.
    pub open spec fn partial_order(&self, order: Seq<usize>, placed: Seq<bool>) -> bool {
        &&& placed.len() == self.task_count()
        &&& order.no_duplicates()
        &&& forall|p: int| 0 <= p < order.len() ==> (#[trigger] order[p]) < self.task_count()
        &&& forall|t: int|
            0 <= t < self.task_count() ==> (placed[t] <==> #[trigger] order.contains(t as usize))
        &&& forall|p: int, k: int|
            0 <= p < order.len() && 0 <= k < self.deps_of(order[p] as int).len()
                ==> order.subrange(0, p).contains(#[trigger] self.deps_of(order[p] as int)[k])
    }

    /// A partial order stays one when a task that is not listed, and whose
    /// dependencies all are, is appended.
    proof fn lemma_order_extend(&self, order: Seq<usize>, placed: Seq<bool>, t: usize)
        requires
            self.wf(),
            self.partial_order(order, placed),
            t < self.task_count(),
            !placed[t as int],
            forall|k: int|
                0 <= k < self.deps_of(t as int).len() ==> placed[#[trigger] self.deps_of(
                    t as int,
                )[k] as int],
        ensures
            self.partial_order(order.push(t), placed.update(t as int, true)),
    {
        let grown = order.push(t);
        let marks = placed.update(t as int, true);
        assert(!order.contains((t as int) as usize));
        assert(grown.no_duplicates()) by {
            assert forall|a: int, b: int|
                0 <= a < grown.len() && 0 <= b < grown.len() && a != b implies grown[a]
                != grown[b] by {
                if a < order.len() {
                    assert(order.contains(order[a]));
                }
                if b < order.len() {
                    assert(order.contains(order[b]));
                }
            }
        }
        assert forall|u: int| 0 <= u < self.task_count() implies (marks[u]
            <==> #[trigger] grown.contains(u as usize)) by {
            if u == t {
                assert(grown[order.len() as int] == t);
            } else {
                if order.contains(u as usize) {
                    let p = order.index_of(u as usize);
                    assert(grown[p] == u as usize);
                }
                if grown.contains(u as usize) {
                    let p = grown.index_of(u as usize);
                    assert(grown[p] == u as usize);
                    assert(order[p] == u as usize);
                }
            }
        }
        assert forall|p: int, k: int|
            0 <= p < grown.len() && 0 <= k < self.deps_of(
                grown[p] as int,
            ).len() implies grown.subrange(0, p).contains(
            #[trigger] self.deps_of(grown[p] as int)[k],
        ) by {
            if p < order.len() {
                assert(grown[p] == order[p]);
                assert(grown.subrange(0, p) =~= order.subrange(0, p));
            } else {
                let d = self.deps_of(t as int)[k];
                assert(placed[d as int]);
                assert(order.contains((d as int) as usize));
                assert(grown.subrange(0, p) =~= order);
            }
        }
    }

    /// An order that takes the earliest task at each position still does
    /// when the earliest task that can come next is appended.
    proof fn lemma_earliest_extend(&self, order: Seq<usize>, placed: Seq<bool>, t: usize)
        requires
            self.wf(),
            self.partial_order(order, placed),
            self.is_earliest(order),
            t < self.task_count(),
            forall|u: int|
                0 <= u < t && !placed[u] ==> #[trigger] self.waits_in(u, self.unplaced(placed)),
        ensures
            self.is_earliest(order.push(t)),
    {
        let grown = order.push(t);
        assert forall|p: int, u: int|
            0 <= p < grown.len() && 0 <= u < grown[p] implies #[trigger] self.not_free(
            grown,
            p,
            u,
        ) by {
            if p < order.len() {
                assert(grown.subrange(0, p) =~= order.subrange(0, p));
                assert(grown[p] == order[p]);
                assert(self.not_free(order, p, u));
            } else {
                assert(grown.subrange(0, p) =~= order);
                if placed[u] {
                    assert(order.contains(u as usize));
                } else {
                    assert(self.waits_in(u, self.unplaced(placed)));
                    let k = choose|k: int|
                        0 <= k < self.deps_of(u).len() && self.unplaced(placed).contains(
                            #[trigger] self.deps_of(u)[k] as int,
                        );
                    let d = self.deps_of(u)[k];
                    assert(!placed[d as int]);
                    assert(!order.contains((d as int) as usize));
                }
            }
        }
    }

    /// When some task is not marked, and every task that is not marked
    /// depends on one that is not marked, the tasks that are not marked block
    /// each other.
    proof fn lemma_stuck_is_knot(&self, placed: Seq<bool>, free: int)
        requires
            placed.len() == self.task_count(),
            0 <= free < self.task_count(),
            !placed[free],
            forall|t: int|
                0 <= t < self.task_count() && !placed[t] ==> #[trigger] self.waits_in(
                    t,
                    self.unplaced(placed),
                ),
        ensures
            self.entangled(),
    {
        let knot = self.unplaced(placed);
        assert(knot.contains(free));
        assert(self.is_knot(knot));
    }

    /// Compute an order in which the tasks can be submitted: every task
    /// after all the tasks it depends on. Among the tasks that can come
    /// next, the one added first comes first. Returns `None` when there is no
    /// such order, which is when the dependencies hold a cycle.
    pub fn submission_order(&self) -> (found: Option<Vec<usize>>)
        requires
            self.wf(),
        ensures
            match found {
                Some(order) => self.is_order(order@) && self.is_earliest(order@),
                None => self.entangled(),
            },
            found is Some <==> !self.entangled(),
    {
        let n = self.tasks.len();
        let mut placed: Vec<bool> = Vec::new();
        let mut i: usize = 0;
        while i < n
            invariant
                i <= n,
                placed@.len() == i,
                forall|t: int| 0 <= t < i ==> !placed@[t],
            decreases n - i,
        {
            placed.push(false);
            i += 1;
        }
        proof {
            lemma_count_true_zero(placed@);
        }
        let mut order: Vec<usize> = Vec::new();
        while order.len() < n
            invariant
                n == self.task_count(),
                self.wf(),
                placed@.len() == n,
                order@.len() <= n,
                count_true(placed@) == order@.len(),
                self.partial_order(order@, placed@),
                self.is_earliest(order@),
            decreases n - order@.len(),
        {
            match self.next_free(&placed) {
                Some(t) => {
                    let ghost before = order@;
                    let ghost marks = placed@;
                    placed.set(t, true);
                    order.push(t);
                    proof {
                        lemma_count_true_update(marks, t as int, true);
                        self.lemma_order_extend(before, marks, t);
                        self.lemma_earliest_extend(before, marks, t);
                    }
                },
                None => {
                    proof {
                        if forall|t: int| 0 <= t < n ==> placed@[t] {
                            lemma_count_true_full(placed@);
                        }
                        let free = choose|t: int| 0 <= t < n && !placed@[t];
                        self.lemma_stuck_is_knot(placed@, free);
                    }
                    return None;
                },
            }
        }
        proof {
            lemma_count_true_all(placed@);
            assert(self.is_order(order@));
            self.lemma_order_excludes_cycle(order@);
        }
        Some(order)
    }

    /// In a submission order no task of a knot has a place: the task of the
    /// knot that comes first would have to come after another one.
    proof fn lemma_no_knot_at(&self, order: Seq<usize>, knot: Set<int>, p: int)
        requires
            self.is_order(order),
            self.is_knot(knot),
            0 <= p < order.len(),
        ensures
            !knot.contains(order[p] as int),
        decreases p,
    {
        let t = order[p] as int;
        if knot.contains(t) {
            assert(self.waits_in(t, knot));
            let k = choose|k: int|
                0 <= k < self.deps_of(t).len() && knot.contains(
                    #[trigger] self.deps_of(t)[k] as int,
                );
            let d = self.deps_of(t)[k];
            assert(order.subrange(0, p).contains(d));
            let q = order.subrange(0, p).index_of(d);
            assert(order.subrange(0, p)[q] == d);
            assert(order[q] == d);
            self.lemma_no_knot_at(order, knot, q);
        }
    }

    /// A cycle rules out every submission order, and a submission order
    /// rules out every cycle.
    pub proof fn lemma_order_excludes_cycle(&self, order: Seq<usize>)
        requires
            self.wf(),
            self.is_order(order),
        ensures
            !self.entangled(),
    {
        if self.entangled() {
            let knot = choose|knot: Set<int>| self.is_knot(knot);
            let t = choose|t: int| knot.contains(t);
            assert(self.waits_in(t, knot));
            assert(order.contains(t as usize));
            let p = order.index_of(t as usize);
            assert(order[p] == t as usize);
            self.lemma_no_knot_at(order, knot, p);
        }
    }

    /// Two orders that take the earliest task at each position agree up to
    /// any position.
    proof fn lemma_earliest_agree(&self, one: Seq<usize>, other: Seq<usize>, p: int)
        requires
            self.is_order(one),
            self.is_earliest(one),
            self.is_order(other),
            self.is_earliest(other),
            0 <= p <= one.len(),
        ensures
            one.subrange(0, p) == other.subrange(0, p),
        decreases p,
    {
        if p == 0 {
            assert(one.subrange(0, 0) =~= other.subrange(0, 0));
        } else {
            self.lemma_earliest_agree(one, other, p - 1);
            let at = p - 1;
            let a = one[at];
            let b = other[at];
            let head = one.subrange(0, at);
            assert(other.subrange(0, at) == head);
            if a < b {
                assert(self.not_free(other, at, a as int));
                self.lemma_comes_at(one, at);
            } else if b < a {
                assert(self.not_free(one, at, b as int));
                self.lemma_comes_at(other, at);
            }
            assert(one.subrange(0, p) =~= head.push(a));
            assert(other.subrange(0, p) =~= head.push(b));
        }
    }

    /// The task at a position of a submission order comes nowhere earlier,
    /// and all the tasks it depends on do.
    proof fn lemma_comes_at(&self, order: Seq<usize>, at: int)
        requires
            self.is_order(order),
            0 <= at < order.len(),
        ensures
            !self.not_free(order, at, order[at] as int),
    {
        let t = order[at];
        if order.subrange(0, at).contains(t) {
            let q = order.subrange(0, at).index_of(t);
            assert(order.subrange(0, at)[q] == t);
            assert(order[q] == order[at]);
        }
    }

    /// The submission order is fixed by the graph: there is one order that
    /// takes the earliest task at each position.
    pub proof fn lemma_earliest_order_unique(&self, one: Seq<usize>, other: Seq<usize>)
        requires
            self.is_order(one),
            self.is_earliest(one),
            self.is_order(other),
            self.is_earliest(other),
        ensures
            one == other,
    {
        self.lemma_earliest_agree(one, other, one.len() as int);
        assert(one.subrange(0, one.len() as int) =~= one);
        assert(other.subrange(0, other.len() as int) =~= other);
    }

    /// Whether task `t` stands in the job system as the job `ids[t]`: with
    /// the task's priority, not completed, and depending on the jobs of the
    /// tasks that the task depends on.
    pub open spec fn task_submitted(&self, system: &JobSystem, ids: Seq<u64>, t: int, base: nat) -> bool {
        let id = ids[t] as int;
        &&& base <= id < system.job_count()
        &&& system.priority_of(id) == self.priority_of(t)
        &&& system.outcome_of(id) is None
        &&& system.deps_of(id).len() == self.deps_of(t).len()
        &&& forall|k: int|
            0 <= k < self.deps_of(t).len() ==> #[trigger] system.deps_of(id)[k]
                == ids[self.deps_of(t)[k] as int]
    }

    /// What `execute` does for a graph without a cycle: every task has been
    /// submitted as a new job of its own, with the task's priority and with
    /// the jobs of the tasks it depends on as dependencies; `ids` holds the
    /// job identifier of task `t` at position `t`. No older job has changed.
    pub open spec fn graph_submitted(&self, before: &JobSystem, after: &JobSystem, ids: Seq<u64>) -> bool {
        &&& ids.len() == self.task_count()
        &&& after.job_count() == before.job_count() + self.task_count()
        &&& after.extends(before)
        &&& forall|i: int|
            0 <= i < before.job_count() ==> #[trigger] after.outcome_of(i) == before.outcome_of(i)
        &&& after.completion_log() == before.completion_log()
        &&& forall|t: int|
            0 <= t < self.task_count() ==> #[trigger] self.task_submitted(
                after,
                ids,
                t,
                before.job_count(),
            )
        &&& forall|t: int, u: int|
            0 <= t < self.task_count() && 0 <= u < self.task_count() && t != u ==> #[trigger] ids[t]
                != #[trigger] ids[u]
    }

    /// Whether the tasks were submitted in the order `order`, which takes
    /// the earliest task at each position: the task at position `q` as the
    /// job that follows the `q` jobs submitted before it.
    pub open spec fn submitted_in_order(&self, before: &JobSystem, order: Seq<usize>, ids: Seq<u64>) -> bool {
        &&& self.is_order(order)
        &&& self.is_earliest(order)
        &&& forall|q: int|
            0 <= q < order.len() ==> ids[#[trigger] order[q] as int] == before.job_count() + q
    }

    /// The job identifiers of a sequence of handles.
    pub open spec fn ids_of(handles: Seq<JobHandle>) -> Seq<u64> {
        handles.map_values(|h: JobHandle| h.spec_id())
    }

    /// Whether `tasks` holds the tasks of this builder, each with its job as
    /// far as it comes in `order` at position `p` or later.
    closed spec fn holds_tasks(&self, tasks: Seq<TaskEntry>, order: Seq<usize>, p: int) -> bool {
        &&& tasks.len() == self.task_count()
        &&& forall|t: int|
            0 <= t < tasks.len() ==> (#[trigger] tasks[t]).priority == self.priority_of(t)
                && tasks[t].deps@ == self.deps_of(t)
        &&& forall|q: int| p <= q < order.len() ==> (#[trigger] tasks[order[q] as int]).job is Some
    }

    /// Whether the first `p` tasks of `order` have been submitted: the task
    /// at position `q` as the job `base + q`, whose handle is in the task's
    /// slot.
    pub open spec fn partly_submitted(
        &self,
        before: &JobSystem,
        system: &JobSystem,
        slots: Seq<Option<JobHandle>>,
        ids: Seq<u64>,
        order: Seq<usize>,
        p: int,
    ) -> bool {
        &&& ids.len() == self.task_count()
        &&& slots.len() == self.task_count()
        &&& system.job_count() == before.job_count() + p
        &&& system.extends(before)
        &&& forall|i: int|
            0 <= i < before.job_count() ==> #[trigger] system.outcome_of(i) == before.outcome_of(i)
        &&& system.completion_log() == before.completion_log()
        &&& forall|q: int|
            0 <= q < p ==> {
                let t = #[trigger] order[q] as int;
                &&& slots[t] is Some
                &&& handle_id(slots[t]) == ids[t]
                &&& ids[t] == before.job_count() + q
                &&& self.task_submitted(system, ids, t, before.job_count())
            }
    }

    /// The job identifiers of the handles of the given tasks.
    fn dependency_ids(deps: &Vec<usize>, slots: &Vec<Option<JobHandle>>) -> (ids: Vec<u64>)
        requires
            forall|k: int|
                0 <= k < deps@.len() ==> (#[trigger] deps@[k]) < slots@.len() && slots@[deps@[k] as int]
                    is Some,
        ensures
            ids@.len() == deps@.len(),
            forall|k: int|
                0 <= k < deps@.len() ==> #[trigger] ids@[k] == handle_id(slots@[deps@[k] as int]),
    {
        let n = deps.len();
        let mut ids: Vec<u64> = Vec::new();
        let mut k: usize = 0;
        while k < n
            invariant
                k <= n,
                n == deps@.len(),
                ids@.len() == k,
                forall|i: int|
                    0 <= i < deps@.len() ==> (#[trigger] deps@[i]) < slots@.len()
                        && slots@[deps@[i] as int] is Some,
                forall|i: int| 0 <= i < k ==> #[trigger] ids@[i] == handle_id(slots@[deps@[i] as int]),
            decreases n - k,
        {
            let d = deps[k];
            assert(deps@[k as int] < slots@.len() && slots@[deps@[k as int] as int] is Some);
            if let Some(handle) = &slots[d] {
                ids.push(handle.id());
            }
            k += 1;
        }
        ids
    }

    /// Take the handles out of their slots, in order.
    fn collect(slots: Vec<Option<JobHandle>>) -> (handles: Vec<JobHandle>)
        requires
            forall|t: int| 0 <= t < slots@.len() ==> (#[trigger] slots@[t]) is Some,
        ensures
            handles@.len() == slots@.len(),
            forall|t: int|
                0 <= t < slots@.len() ==> (#[trigger] handles@[t]).spec_id() == handle_id(slots@[t]),
    {
        let ghost given = slots@;
        let mut slots = slots;
        let n = slots.len();
        let mut handles: Vec<JobHandle> = Vec::new();
        let mut t: usize = 0;
        while t < n
            invariant
                t <= n,
                n == given.len(),
                slots@.len() == n,
                handles@.len() == t,
                forall|i: int| 0 <= i < n ==> (#[trigger] given[i]) is Some,
                forall|i: int| t <= i < n ==> #[trigger] slots@[i] == given[i],
                forall|i: int| 0 <= i < t ==> (#[trigger] handles@[i]).spec_id() == handle_id(given[i]),
            decreases n - t,
        {
            assert(slots@[t as int] == given[t as int]);
            assert(given[t as int] is Some);
            let taken = slots[t].take();
            if let Some(handle) = taken {
                handles.push(handle);
            }
            t += 1;
        }
        handles
    }

    /// The tasks that the task at position `p` depends on have handles in
    /// their slots, of jobs that have been submitted.
    proof fn lemma_deps_have_handles(
        &self,
        before: &JobSystem,
        system: &JobSystem,
        slots: Seq<Option<JobHandle>>,
        ids: Seq<u64>,
        order: Seq<usize>,
        p: int,
    )
        requires
            self.wf(),
            self.is_order(order),
            0 <= p < order.len(),
            self.partly_submitted(before, system, slots, ids, order, p),
        ensures
            forall|k: int|
                0 <= k < self.deps_of(order[p] as int).len() ==> {
                    let d = #[trigger] self.deps_of(order[p] as int)[k] as int;
                    &&& d < slots.len()
                    &&& slots[d] is Some
                    &&& handle_id(slots[d]) == ids[d]
                    &&& ids[d] < system.job_count()
                },
    {
        let t = order[p] as int;
        assert forall|k: int| 0 <= k < self.deps_of(t).len() implies {
            let d = #[trigger] self.deps_of(t)[k] as int;
            &&& d < slots.len()
            &&& slots[d] is Some
            &&& handle_id(slots[d]) == ids[d]
            &&& ids[d] < system.job_count()
        } by {
            let d = self.deps_of(t)[k];
            assert(order.subrange(0, p).contains(d));
            let q = order.subrange(0, p).index_of(d);
            assert(order.subrange(0, p)[q] == d);
            assert(order[q] == d);
        }
    }

    /// After the task at position `p` has been submitted too, the first
    /// `p + 1` tasks have been submitted.
    proof fn lemma_one_more(
        &self,
        before: &JobSystem,
        round: &JobSystem,
        after: &JobSystem,
        slots0: Seq<Option<JobHandle>>,
        slots1: Seq<Option<JobHandle>>,
        ids0: Seq<u64>,
        order: Seq<usize>,
        p: int,
        id: u64,
        deps: Seq<u64>,
    )
        requires
            self.wf(),
            self.is_order(order),
            0 <= p < order.len(),
            self.partly_submitted(before, round, slots0, ids0, order, p),
            JobSystem::submitted(round, after, id, self.priority_of(order[p] as int), deps),
            deps.len() == self.deps_of(order[p] as int).len(),
            forall|k: int|
                0 <= k < deps.len() ==> #[trigger] deps[k] == ids0[self.deps_of(
                    order[p] as int,
                )[k] as int],
            slots1.len() == slots0.len(),
            slots1[order[p] as int] is Some,
            handle_id(slots1[order[p] as int]) == id,
            forall|t: int|
                0 <= t < slots0.len() && t != order[p] ==> #[trigger] slots1[t] == slots0[t],
        ensures
            self.partly_submitted(
                before,
                after,
                slots1,
                ids0.update(order[p] as int, id),
                order,
                p + 1,
            ),
    {
        let t = order[p] as int;
        let ids1 = ids0.update(t, id);
        let base = before.job_count();
        assert forall|i: int| 0 <= i < before.job_count() implies #[trigger] after.priority_of(i)
            == before.priority_of(i) by {
            assert(round.priority_of(i) == before.priority_of(i));
        }
        assert forall|i: int| 0 <= i < before.job_count() implies #[trigger] after.deps_of(i)
            == before.deps_of(i) by {
            assert(round.deps_of(i) == before.deps_of(i));
        }
        assert forall|i: int| 0 <= i < before.job_count() implies #[trigger] after.outcome_of(i)
            == before.outcome_of(i) by {
            assert(round.outcome_of(i) == before.outcome_of(i));
        }
        assert forall|q: int| 0 <= q < p + 1 implies {
            let u = #[trigger] order[q] as int;
            &&& slots1[u] is Some
            &&& handle_id(slots1[u]) == ids1[u]
            &&& ids1[u] == base + q
            &&& self.task_submitted(after, ids1, u, base)
        } by {
            let u = order[q] as int;
            if q < p {
                assert(u != t);
                assert(self.task_submitted(round, ids0, u, base));
                let j = ids0[u] as int;
                assert(after.priority_of(j) == round.priority_of(j));
                assert(after.deps_of(j) == round.deps_of(j));
                assert(after.outcome_of(j) == round.outcome_of(j));
                assert forall|k: int| 0 <= k < self.deps_of(u).len() implies #[trigger] after.deps_of(
                    j,
                )[k] == ids1[self.deps_of(u)[k] as int] by {
                    let d = self.deps_of(u)[k];
                    assert(order.subrange(0, q).contains(d));
                    let r = order.subrange(0, q).index_of(d);
                    assert(order.subrange(0, q)[r] == d);
                    assert(order[r] == d);
                    assert(d != order[p]);
                    assert(round.deps_of(j)[k] == ids0[d as int]);
                }
            } else {
                assert forall|k: int| 0 <= k < self.deps_of(t).len() implies #[trigger] after.deps_of(
                    id as int,
                )[k] == ids1[self.deps_of(t)[k] as int] by {
                    assert(deps[k] == ids0[self.deps_of(t)[k] as int]);
                }
            }
        }
    }

    /// When all positions of a submission order have been submitted, the
    /// graph has been.
    proof fn lemma_all_submitted(
        &self,
        before: &JobSystem,
        system: &JobSystem,
        slots: Seq<Option<JobHandle>>,
        ids: Seq<u64>,
        order: Seq<usize>,
    )
        requires
            self.wf(),
            self.is_order(order),
            self.partly_submitted(before, system, slots, ids, order, order.len() as int),
        ensures
            self.graph_submitted(before, system, ids),
            forall|t: int|
                0 <= t < self.task_count() ==> (#[trigger] slots[t]) is Some && handle_id(slots[t])
                    == ids[t],
    {
        assert forall|t: int| 0 <= t < self.task_count() implies (#[trigger] slots[t]) is Some
            && handle_id(slots[t]) == ids[t] by {
            assert(order.contains(t as usize));
            let q = order.index_of(t as usize);
            assert(order[q] == t as usize);
        }
        assert forall|t: int| 0 <= t < self.task_count() implies #[trigger] self.task_submitted(
            system,
            ids,
            t,
            before.job_count(),
        ) by {
            assert(order.contains(t as usize));
            let q = order.index_of(t as usize);
            assert(order[q] == t as usize);
        }
        assert forall|t: int, u: int|
            0 <= t < self.task_count() && 0 <= u < self.task_count() && t
                != u implies #[trigger] ids[t] != #[trigger] ids[u] by {
            assert(order.contains(t as usize));
            assert(order.contains(u as usize));
            let q = order.index_of(t as usize);
            let r = order.index_of(u as usize);
            assert(order[q] == t as usize);
            assert(order[r] == u as usize);
            assert(ids[t] == before.job_count() + q);
            assert(ids[u] == before.job_count() + r);
        }
    }

    /// Execute the task graph on the given job system.
    ///
    /// The tasks are submitted in an order in which every task comes after
    /// all the tasks it depends on, wherever in the graph those were added,
    /// so that the handle of a dependency exists before its dependent is
    /// submitted. The result holds the handle of task `t` at position `t`.
    /// When the dependencies hold a cycle there is no such order: nothing is
    /// submitted and the result is empty.
    pub fn execute(self, job_system: &mut JobSystem) -> (handles: Vec<JobHandle>)
        requires
            self.wf(),
            old(job_system).wf(),
        ensures
            final(job_system).wf(),
            self.entangled() ==> handles@.len() == 0 && *final(job_system) == *old(job_system),
            !self.entangled() ==> self.graph_submitted(
                old(job_system),
                final(job_system),
                TaskGraphBuilder::ids_of(handles@),
            ),
            !self.entangled() ==> exists|order: Seq<usize>| #[trigger]
                self.submitted_in_order(old(job_system), order, TaskGraphBuilder::ids_of(handles@)),
    {
        let order = match self.submission_order() {
            Some(order) => order,
            None => {
                return Vec::new();
            },
        };
        let ghost before = *job_system;
        let ghost base = before.job_count();
        let n = order.len();
        let ghost mut ids: Seq<u64> = Seq::new(n as nat, |t: int| 0u64);
        let ghost whole = self;
        let mut tasks = self.tasks;
        let mut slots: Vec<Option<JobHandle>> = Vec::new();
        let mut i: usize = 0;
        while i < n
            invariant
                i <= n,
                slots@.len() == i,
            decreases n - i,
        {
            slots.push(None);
            i += 1;
        }
        proof {
            assert forall|q: int| 0 <= q < order@.len() implies (
            #[trigger] tasks@[order@[q] as int]).job is Some by {
                assert(whole.has_job(order@[q] as int));
            }
            assert(ids.len() == n);
        }
        let mut p: usize = 0;
        while p < n
            invariant
                p <= n,
                n == whole.task_count(),
                n == order@.len(),
                before == *old(job_system),
                whole.wf(),
                before.wf(),
                whole.is_order(order@),
                tasks@.len() == n,
                slots@.len() == n,
                job_system.wf(),
                whole.holds_tasks(tasks@, order@, p as int),
                whole.partly_submitted(&before, job_system, slots@, ids, order@, p as int),
            decreases n - p,
        {
            let t = order[p];
            let ghost round = *job_system;
            let ghost slots0 = slots@;
            let ghost tasks0 = tasks@;
            proof {
                whole.lemma_deps_have_handles(&before, &round, slots0, ids, order@, p as int);
                assert(tasks0[t as int].deps@ == whole.deps_of(t as int));
                assert(tasks0[order@[p as int] as int].job is Some);
            }
            let deps = TaskGraphBuilder::dependency_ids(&tasks[t].deps, &slots);
            let priority = tasks[t].priority;
            let body = tasks[t].job.take();
            let ghost dep_ids = deps@;
            let ghost mut id = 0u64;
            if let Some(job) = body {
                let handle = job_system.submit_boxed(job, priority, deps);
                proof {
                    id = handle.spec_id();
                }
                slots.set(t, Some(handle));
            }
            proof {
                whole.lemma_one_more(
                    &before,
                    &round,
                    job_system,
                    slots0,
                    slots@,
                    ids,
                    order@,
                    p as int,
                    id,
                    dep_ids,
                );
                ids = ids.update(t as int, id);
                assert forall|q: int| p + 1 <= q < order@.len() implies (
                #[trigger] tasks@[order@[q] as int]).job is Some by {
                    assert(order@[q] != order@[p as int]);
                    assert(tasks0[order@[q] as int].job is Some);
                }
            }
            p += 1;
        }
        proof {
            whole.lemma_all_submitted(&before, job_system, slots@, ids, order@);
            whole.lemma_order_excludes_cycle(order@);
        }
        let handles = TaskGraphBuilder::collect(slots);
        proof {
            assert(TaskGraphBuilder::ids_of(handles@) =~= ids);
            assert(whole.submitted_in_order(&before, order@, ids));
        }
        handles
    }
}

impl Default for TaskGraphBuilder {
    /// The default builder is the empty one.
    fn default() -> (b: TaskGraphBuilder)
        ensures
            b.wf(),
            b.task_count() == 0,
    {
        TaskGraphBuilder::new()
    }
}

} // verus!
