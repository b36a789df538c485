use odeza::job::graph::TaskGraphBuilder;
use odeza::job::handle::{flag_is_set, flag_of, outcome_of};
use odeza::job::task::{BoxedJob, ClosureJob, IdleJob};
use odeza::job::{Job, JobHandle, JobOutcome, JobPriority, JobState, JobSystem};
use std::sync::atomic::{AtomicU32, Ordering};
use std::sync::{Arc, Mutex};

struct CounterJob {
    counter: Arc<AtomicU32>,
}

impl Job for CounterJob {
    fn execute(&mut self) {
        self.counter.fetch_add(1, Ordering::Relaxed);
    }

    fn name(&self) -> &str {
        "counter_job"
    }
}

struct LogJob {
    tag: u32,
    log: Arc<Mutex<Vec<u32>>>,
}

impl Job for LogJob {
    fn execute(&mut self) {
        self.log.lock().unwrap().push(self.tag);
    }
}

struct FailingJob;

impl Job for FailingJob {
    fn execute(&mut self) {}

    fn try_execute(&mut self) -> JobOutcome {
        JobOutcome::Failed
    }
}

fn log_job(tag: u32, log: &Arc<Mutex<Vec<u32>>>) -> LogJob {
    LogJob { tag, log: log.clone() }
}

#[test]
fn test_job_system_creation() {
    let job_system = JobSystem::new(4);
    assert_eq!(job_system.num_workers(), 4);
}

#[test]
fn test_job_submission_and_execution() {
    let mut job_system = JobSystem::new(2);
    let counter = Arc::new(AtomicU32::new(0));

    let handle = job_system.submit(CounterJob { counter: counter.clone() }, JobPriority::Normal);

    job_system.wait_for(&handle);
    assert!(handle.is_complete());
    assert_eq!(counter.load(Ordering::Relaxed), 1);
}

#[test]
fn test_closure_job() {
    let mut job_system = JobSystem::new(2);
    let counter = Arc::new(AtomicU32::new(0));
    let counter_clone = counter.clone();

    let handle = job_system.submit_fn("increment", JobPriority::Normal, move || {
        counter_clone.fetch_add(5, Ordering::Relaxed);
    });

    job_system.wait_for(&handle);
    assert_eq!(counter.load(Ordering::Relaxed), 5);
}

#[test]
fn test_job_dependencies() {
    let mut job_system = JobSystem::new(2);
    let value = Arc::new(AtomicU32::new(0));
    let value_clone = value.clone();

    // First job sets value to 10
    let handle1 = job_system.submit_fn("set", JobPriority::Normal, move || {
        value_clone.store(10, Ordering::Relaxed);
    });

    // Second job doubles the value (depends on first)
    let value_clone2 = value.clone();
    let handle2 = job_system.submit_with_deps(
        ClosureJob::new("double", move || {
            let v = value_clone2.load(Ordering::Relaxed);
            value_clone2.store(v * 2, Ordering::Relaxed);
        }),
        JobPriority::Normal,
        &[&handle1],
    );

    job_system.wait_for(&handle2);
    assert_eq!(value.load(Ordering::Relaxed), 20);
}

#[test]
fn test_task_graph() {
    let mut job_system = JobSystem::new(2);
    let counter = Arc::new(AtomicU32::new(0));

    let mut graph = TaskGraphBuilder::new();

    let task1 = graph.add_task(CounterJob { counter: counter.clone() }, JobPriority::Normal);
    let task2 = graph.add_task(CounterJob { counter: counter.clone() }, JobPriority::Normal);
    let task3 = graph.add_task(CounterJob { counter: counter.clone() }, JobPriority::Normal);

    graph.add_dependency(task2, task1);
    graph.add_dependency(task3, task2);

    let handles = graph.execute(&mut job_system);

    for handle in &handles {
        job_system.wait_for(handle);
    }

    assert_eq!(counter.load(Ordering::Relaxed), 3);
}

#[test]
fn at_least_one_worker() {
    assert_eq!(JobSystem::new(0).num_workers(), 1);
    assert_eq!(JobSystem::new(1).num_workers(), 1);
    assert_eq!(JobSystem::new(8).num_workers(), 8);
}

#[test]
fn priority_defaults_and_ranks() {
    assert_eq!(JobPriority::default(), JobPriority::Normal);
    assert_eq!(JobPriority::Low.rank(), 0);
    assert_eq!(JobPriority::Normal.rank(), 1);
    assert_eq!(JobPriority::High.rank(), 2);
    assert_eq!(JobPriority::Critical.rank(), 3);
    assert!(JobPriority::Low < JobPriority::Normal);
    assert!(JobPriority::High < JobPriority::Critical);
}

#[test]
fn submit_runs_nothing_and_hands_out_ids_in_order() {
    let mut js = JobSystem::new(2);
    let counter = Arc::new(AtomicU32::new(0));
    let a = js.submit(CounterJob { counter: counter.clone() }, JobPriority::Normal);
    let b = js.submit(CounterJob { counter: counter.clone() }, JobPriority::High);
    assert_eq!(a.id(), 0);
    assert_eq!(b.id(), 1);
    assert_eq!(counter.load(Ordering::Relaxed), 0);
    assert!(!a.is_complete());
    assert!(!js.is_done(&a));
    assert_eq!(a.outcome(), None);
    assert_eq!(js.outcome(&a), None);
    assert_eq!(js.pending_jobs(), 2);
}

#[test]
fn hundred_jobs_on_four_workers() {
    let mut js = JobSystem::new(4);
    let counter = Arc::new(AtomicU32::new(0));
    let mut handles = Vec::new();
    for _ in 0..100 {
        handles.push(js.submit(CounterJob { counter: counter.clone() }, JobPriority::Normal));
    }
    assert_eq!(js.pending_jobs(), 100);
    let open = js.pending_jobs();
    js.wait_all();
    assert_eq!(open - js.pending_jobs(), 100);
    assert_eq!(counter.load(Ordering::Relaxed), 100);
    assert_eq!(js.pending_jobs(), 0);
    for h in &handles {
        assert!(h.is_complete());
        assert_eq!(h.outcome(), Some(JobOutcome::Succeeded));
    }
    // Nothing is left to run.
    let open = js.pending_jobs();
    js.wait_all();
    assert_eq!(open - js.pending_jobs(), 0);
    assert_eq!(js.process_jobs(10), 0);
}

#[test]
fn completion_never_reverts() {
    let mut js = JobSystem::new(1);
    let counter = Arc::new(AtomicU32::new(0));
    let first = js.submit(CounterJob { counter: counter.clone() }, JobPriority::Normal);
    js.wait_for(&first);
    assert!(first.is_complete());
    for _ in 0..10 {
        js.submit(CounterJob { counter: counter.clone() }, JobPriority::Critical);
    }
    js.process_jobs(3);
    assert!(first.is_complete());
    assert!(js.is_done(&first));
    js.wait_all();
    assert!(first.is_complete());
    assert_eq!(js.outcome(&first), Some(JobOutcome::Succeeded));
    assert_eq!(counter.load(Ordering::Relaxed), 11);
}

#[test]
fn higher_priority_runs_first_and_equal_priority_in_submission_order() {
    let mut js = JobSystem::new(1);
    let log = Arc::new(Mutex::new(Vec::new()));
    js.submit(log_job(0, &log), JobPriority::Low);
    js.submit(log_job(1, &log), JobPriority::Normal);
    js.submit(log_job(2, &log), JobPriority::Critical);
    js.submit(log_job(3, &log), JobPriority::Normal);
    js.submit(log_job(4, &log), JobPriority::High);
    js.submit(log_job(5, &log), JobPriority::Critical);
    js.submit(log_job(6, &log), JobPriority::Low);
    assert_eq!(js.process_jobs(2), 2);
    assert_eq!(*log.lock().unwrap(), vec![2, 5]);
    let open = js.pending_jobs();
    js.wait_all();
    assert_eq!(open - js.pending_jobs(), 5);
    assert_eq!(*log.lock().unwrap(), vec![2, 5, 4, 1, 3, 0, 6]);
}

#[test]
fn pending_job_is_passed_over_not_run_early() {
    let mut js = JobSystem::new(1);
    let log = Arc::new(Mutex::new(Vec::new()));
    let slow = js.submit(log_job(0, &log), JobPriority::Low);
    // Critical, but waits for the low-priority job.
    let urgent = js.submit_with_deps(log_job(1, &log), JobPriority::Critical, &[&slow]);
    let other = js.submit(log_job(2, &log), JobPriority::Normal);
    let late = js.submit(log_job(3, &log), JobPriority::Normal);
    assert_eq!(js.process_jobs(1), 1);
    assert_eq!(*log.lock().unwrap(), vec![2]);
    assert!(!js.is_done(&urgent));
    assert!(js.is_done(&other));
    assert_eq!(js.process_jobs(1), 1);
    assert_eq!(*log.lock().unwrap(), vec![2, 3]);
    assert_eq!(js.process_jobs(1), 1);
    assert_eq!(*log.lock().unwrap(), vec![2, 3, 0]);
    assert_eq!(js.process_jobs(5), 1);
    assert_eq!(*log.lock().unwrap(), vec![2, 3, 0, 1]);
    assert!(late.is_complete());
    assert!(urgent.is_complete());
}

#[test]
fn passing_over_keeps_the_submission_order() {
    let mut js = JobSystem::new(1);
    let log = Arc::new(Mutex::new(Vec::new()));
    let blocker = js.submit(log_job(9, &log), JobPriority::Low);
    js.submit_with_deps(log_job(0, &log), JobPriority::Normal, &[&blocker]);
    js.submit(log_job(1, &log), JobPriority::Normal);
    js.submit_with_deps(log_job(2, &log), JobPriority::Normal, &[&blocker]);
    js.submit(log_job(3, &log), JobPriority::Normal);
    js.wait_all();
    // 1 and 3 are ready first; once the blocker has run, 0 comes before 2.
    assert_eq!(*log.lock().unwrap(), vec![1, 3, 9, 0, 2]);
}

#[test]
fn wait_for_runs_no_more_than_needed() {
    let mut js = JobSystem::new(1);
    let log = Arc::new(Mutex::new(Vec::new()));
    let a = js.submit(log_job(0, &log), JobPriority::Normal);
    let b = js.submit(log_job(1, &log), JobPriority::Normal);
    let c = js.submit(log_job(2, &log), JobPriority::Normal);
    let open = js.pending_jobs();
    js.wait_for(&b);
    assert_eq!(open - js.pending_jobs(), 2);
    assert!(a.is_complete());
    assert!(b.is_complete());
    assert!(!c.is_complete());
    let open = js.pending_jobs();
    js.wait_for(&b);
    assert_eq!(open - js.pending_jobs(), 0);
    assert_eq!(js.pending_jobs(), 1);
    let open = js.pending_jobs();
    js.wait_for(&c);
    assert_eq!(open - js.pending_jobs(), 1);
    assert_eq!(*log.lock().unwrap(), vec![0, 1, 2]);
}

#[test]
fn chain_runs_in_order_for_any_length() {
    for n in [1usize, 2, 3, 10, 50] {
        for workers in [1usize, 2, 4] {
            let mut js = JobSystem::new(workers);
            let log = Arc::new(Mutex::new(Vec::new()));
            let mut handles: Vec<JobHandle> = Vec::new();
            for i in 0..n {
                // Later links get the lower priority, so only the dependencies order them.
                let h = if i == 0 {
                    js.submit(log_job(i as u32, &log), JobPriority::Low)
                } else {
                    let h = js.submit_with_deps(
                        log_job(i as u32, &log),
                        JobPriority::Critical,
                        &[&handles[i - 1]],
                    );
                    h
                };
                handles.push(h);
            }
            for h in &handles {
                js.wait_for(h);
            }
            let expected: Vec<u32> = (0..n as u32).collect();
            assert_eq!(*log.lock().unwrap(), expected);
        }
    }
}

#[test]
fn dependency_that_completed_is_satisfied_at_once() {
    let mut js = JobSystem::new(1);
    let log = Arc::new(Mutex::new(Vec::new()));
    let a = js.submit(log_job(0, &log), JobPriority::Normal);
    js.wait_for(&a);
    let b = js.submit_with_deps(log_job(1, &log), JobPriority::Normal, &[&a, &a]);
    assert_eq!(js.process_jobs(1), 1);
    assert!(b.is_complete());
    assert_eq!(*log.lock().unwrap(), vec![0, 1]);
}

#[test]
fn failure_is_reported_and_unblocks_dependents() {
    let mut js = JobSystem::new(1);
    let counter = Arc::new(AtomicU32::new(0));
    let bad = js.submit(FailingJob, JobPriority::Normal);
    let after = js.submit_with_deps(
        CounterJob { counter: counter.clone() },
        JobPriority::Normal,
        &[&bad],
    );
    js.wait_for(&after);
    assert!(bad.is_complete());
    assert_eq!(bad.outcome(), Some(JobOutcome::Failed));
    assert_eq!(js.outcome(&bad), Some(JobOutcome::Failed));
    assert_eq!(after.outcome(), Some(JobOutcome::Succeeded));
    assert_eq!(counter.load(Ordering::Relaxed), 1);
    assert_eq!(js.pending_jobs(), 0);
}

#[test]
fn closure_job_runs_once_and_has_its_name() {
    let counter = Arc::new(AtomicU32::new(0));
    let c = counter.clone();
    let mut job = ClosureJob::new("once", move || {
        c.fetch_add(1, Ordering::Relaxed);
    });
    assert_eq!(job.name(), "once");
    job.execute();
    job.execute();
    assert_eq!(counter.load(Ordering::Relaxed), 1);
    assert_eq!(FailingJob.name(), "unnamed_job");
    assert_eq!(CounterJob { counter }.try_execute(), JobOutcome::Succeeded);
}

#[test]
fn handle_of_another_system_is_not_waited_for() {
    let mut a = JobSystem::new(1);
    let mut b = JobSystem::new(1);
    let counter = Arc::new(AtomicU32::new(0));
    a.submit(CounterJob { counter: counter.clone() }, JobPriority::Normal);
    let far = a.submit(CounterJob { counter: counter.clone() }, JobPriority::Normal);
    // `b` has no job with that identifier.
    let open = b.pending_jobs();
    b.wait_for(&far);
    assert_eq!(open - b.pending_jobs(), 0);
    assert!(!b.is_done(&far));
    let h = b.submit_with_deps(CounterJob { counter: counter.clone() }, JobPriority::Normal, &[&far]);
    let open = b.pending_jobs();
    b.wait_for(&h);
    assert_eq!(open - b.pending_jobs(), 1);
    assert_eq!(counter.load(Ordering::Relaxed), 1);
}

#[test]
fn fan_out_runs_every_task_once() {
    for k in [1usize, 10, 1000] {
        let mut js = JobSystem::new(4);
        let counter = Arc::new(AtomicU32::new(0));
        let mut graph = TaskGraphBuilder::new();
        for i in 0..k {
            assert_eq!(graph.add_task(CounterJob { counter: counter.clone() }, JobPriority::Normal), i);
        }
        let handles = graph.execute(&mut js);
        assert_eq!(handles.len(), k);
        for h in &handles {
            js.wait_for(h);
        }
        assert_eq!(counter.load(Ordering::Relaxed), k as u32);
    }
}

#[test]
fn linear_chain_of_three_counts_to_three() {
    for _ in 0..5 {
        let mut js = JobSystem::new(2);
        let counter = Arc::new(AtomicU32::new(0));
        let mut graph = TaskGraphBuilder::new();
        let a = graph.add_task(CounterJob { counter: counter.clone() }, JobPriority::Normal);
        let b = graph.add_task(CounterJob { counter: counter.clone() }, JobPriority::Normal);
        let c = graph.add_task(CounterJob { counter: counter.clone() }, JobPriority::Normal);
        assert!(graph.add_dependency(b, a));
        assert!(graph.add_dependency(c, b));
        let handles = graph.execute(&mut js);
        assert_eq!(handles.len(), 3);
        for h in &handles {
            js.wait_for(h);
        }
        assert_eq!(counter.load(Ordering::Relaxed), 3);
    }
}

#[test]
fn set_then_double_is_twenty_on_every_run() {
    for _ in 0..10 {
        let mut js = JobSystem::new(3);
        let value = Arc::new(AtomicU32::new(0));
        let v1 = value.clone();
        let a = js.submit_fn("set", JobPriority::Low, move || {
            v1.store(10, Ordering::Relaxed);
        });
        let v2 = value.clone();
        let b = js.submit_with_deps(
            ClosureJob::new("double", move || {
                let v = v2.load(Ordering::Relaxed);
                v2.store(v * 2, Ordering::Relaxed);
            }),
            JobPriority::Critical,
            &[&a],
        );
        js.wait_for(&b);
        assert_eq!(value.load(Ordering::Relaxed), 20);
    }
}

#[test]
fn graph_submits_dependencies_first_even_when_added_later() {
    let mut js = JobSystem::new(1);
    let log = Arc::new(Mutex::new(Vec::new()));
    let mut graph = TaskGraphBuilder::new();
    let first = graph.add_task(log_job(0, &log), JobPriority::Normal);
    let second = graph.add_task(log_job(1, &log), JobPriority::Normal);
    let third = graph.add_task(log_job(2, &log), JobPriority::Normal);
    // The task added first depends on the one added last.
    assert!(graph.add_dependency(first, third));
    assert!(graph.add_dependency(third, second));
    let handles = graph.execute(&mut js);
    assert_eq!(handles.len(), 3);
    // Handles are by task; identifiers are by submission.
    assert_eq!(handles[second].id(), 0);
    assert_eq!(handles[third].id(), 1);
    assert_eq!(handles[first].id(), 2);
    js.wait_all();
    assert_eq!(*log.lock().unwrap(), vec![1, 2, 0]);
}

#[test]
fn invalid_dependencies_are_rejected() {
    let mut graph = TaskGraphBuilder::default();
    let log = Arc::new(Mutex::new(Vec::new()));
    let a = graph.add_task(log_job(0, &log), JobPriority::Normal);
    // Forward reference to a task that is not there yet.
    assert!(!graph.add_dependency(a, 1));
    assert!(!graph.add_dependency(1, a));
    assert!(!graph.add_dependency(a, a));
    let b = graph.add_task(log_job(1, &log), JobPriority::Normal);
    assert!(graph.add_dependency(a, b));
    assert!(!graph.add_dependency(b, 7));
    let mut js = JobSystem::new(1);
    let handles = graph.execute(&mut js);
    assert_eq!(handles.len(), 2);
    js.wait_all();
    assert_eq!(*log.lock().unwrap(), vec![1, 0]);
}

#[test]
fn cycle_submits_nothing() {
    let mut js = JobSystem::new(1);
    let counter = Arc::new(AtomicU32::new(0));
    let before = js.submit(CounterJob { counter: counter.clone() }, JobPriority::Normal);
    let mut graph = TaskGraphBuilder::new();
    let a = graph.add_task(CounterJob { counter: counter.clone() }, JobPriority::Normal);
    let b = graph.add_task(CounterJob { counter: counter.clone() }, JobPriority::Normal);
    let c = graph.add_task(CounterJob { counter: counter.clone() }, JobPriority::Normal);
    assert!(graph.add_dependency(a, b));
    assert!(graph.add_dependency(b, a));
    assert!(graph.add_dependency(c, a));
    assert!(graph.submission_order().is_none());
    let handles = graph.execute(&mut js);
    assert!(handles.is_empty());
    assert_eq!(js.pending_jobs(), 1);
    let open = js.pending_jobs();
    js.wait_all();
    assert_eq!(open - js.pending_jobs(), 1);
    assert!(before.is_complete());
    assert_eq!(counter.load(Ordering::Relaxed), 1);
}

#[test]
fn submission_order_takes_the_earliest_free_task() {
    let log = Arc::new(Mutex::new(Vec::new()));
    let mut graph = TaskGraphBuilder::new();
    for i in 0..5 {
        graph.add_task(log_job(i, &log), JobPriority::Normal);
    }
    assert_eq!(graph.submission_order(), Some(vec![0, 1, 2, 3, 4]));
    assert!(graph.add_dependency(0, 4));
    assert!(graph.add_dependency(1, 3));
    assert!(graph.add_dependency(3, 4));
    assert_eq!(graph.submission_order(), Some(vec![2, 4, 0, 3, 1]));
}

#[test]
fn diamond_graph_respects_both_branches() {
    let mut js = JobSystem::new(4);
    let log = Arc::new(Mutex::new(Vec::new()));
    let mut graph = TaskGraphBuilder::new();
    let sink = graph.add_task(log_job(3, &log), JobPriority::Critical);
    let left = graph.add_task(log_job(1, &log), JobPriority::Low);
    let right = graph.add_task(log_job(2, &log), JobPriority::High);
    let source = graph.add_task(log_job(0, &log), JobPriority::Low);
    assert!(graph.add_dependency(left, source));
    assert!(graph.add_dependency(right, source));
    assert!(graph.add_dependency(sink, left));
    assert!(graph.add_dependency(sink, right));
    let handles = graph.execute(&mut js);
    js.wait_for(&handles[sink]);
    assert_eq!(*log.lock().unwrap(), vec![0, 2, 1, 3]);
    assert_eq!(js.pending_jobs(), 0);
}

#[test]
fn states_of_a_job() {
    let mut js = JobSystem::new(1);
    let counter = Arc::new(AtomicU32::new(0));
    let first = js.submit(CounterJob { counter: counter.clone() }, JobPriority::Normal);
    let second = js.submit_with_deps(
        CounterJob { counter: counter.clone() },
        JobPriority::Normal,
        &[&first],
    );
    assert_eq!(js.state(&first), Some(JobState::Ready));
    assert_eq!(js.state(&second), Some(JobState::Pending));

    let (id, mut job) = js.begin_next().unwrap();
    assert_eq!(id, first.id());
    assert_eq!(job.name(), "counter_job");
    assert_eq!(js.state(&first), Some(JobState::Executing));
    assert_eq!(js.state(&second), Some(JobState::Pending));
    assert!(!first.is_complete());
    assert_eq!(js.pending_jobs(), 2);
    // The only other job waits for the one that is executing.
    assert!(js.begin_next().is_none());
    let open = js.pending_jobs();
    js.wait_for(&second);
    assert_eq!(open - js.pending_jobs(), 0);
    let open = js.pending_jobs();
    js.wait_all();
    assert_eq!(open - js.pending_jobs(), 0);
    assert!(!js.is_done(&second));

    let outcome = job.try_execute();
    assert_eq!(outcome, JobOutcome::Succeeded);
    assert!(js.finish(id, outcome));
    assert_eq!(js.state(&first), Some(JobState::Completed));
    assert_eq!(js.state(&second), Some(JobState::Ready));
    assert!(first.is_complete());
    assert_eq!(js.pending_jobs(), 1);
    // A job is finished once.
    assert!(!js.finish(id, JobOutcome::Failed));
    assert_eq!(js.outcome(&first), Some(JobOutcome::Succeeded));
    // A job that was not claimed cannot be finished, nor one that is not there.
    assert!(!js.finish(second.id(), JobOutcome::Succeeded));
    assert!(!js.finish(99, JobOutcome::Succeeded));
    assert_eq!(js.state(&second), Some(JobState::Ready));

    let open = js.pending_jobs();
    js.wait_for(&second);
    assert_eq!(open - js.pending_jobs(), 1);
    assert_eq!(js.state(&second), Some(JobState::Completed));
    assert_eq!(counter.load(Ordering::Relaxed), 2);

    let other = JobSystem::new(1);
    assert_eq!(other.state(&first), None);
}

#[test]
fn claimed_jobs_are_not_preempted() {
    let mut js = JobSystem::new(2);
    let log = Arc::new(Mutex::new(Vec::new()));
    js.submit(log_job(0, &log), JobPriority::Low);
    let (low, mut low_job) = js.begin_next().unwrap();
    assert_eq!(low, 0);
    // A critical job arrives while the low one is executing.
    js.submit(log_job(1, &log), JobPriority::Critical);
    js.submit(log_job(2, &log), JobPriority::High);
    let (critical, mut critical_job) = js.begin_next().unwrap();
    assert_eq!(critical, 1);
    let (high, mut high_job) = js.begin_next().unwrap();
    assert_eq!(high, 2);
    assert!(js.begin_next().is_none());
    assert_eq!(js.pending_jobs(), 3);
    // Workers finish in any order.
    high_job.execute();
    assert!(js.finish(high, JobOutcome::Succeeded));
    low_job.execute();
    assert!(js.finish(low, JobOutcome::Succeeded));
    critical_job.execute();
    assert!(js.finish(critical, JobOutcome::Failed));
    assert_eq!(*log.lock().unwrap(), vec![2, 0, 1]);
    assert_eq!(js.pending_jobs(), 0);
    let open = js.pending_jobs();
    js.wait_all();
    assert_eq!(open - js.pending_jobs(), 0);
}

#[test]
fn idle_job_and_boxed_jobs() {
    let mut idle = BoxedJob::idle();
    assert_eq!(idle.name(), "idle");
    idle.execute();
    assert_eq!(idle.try_execute(), JobOutcome::Succeeded);
    assert_eq!(IdleJob.name(), "idle");

    let counter = Arc::new(AtomicU32::new(0));
    let mut boxed = BoxedJob::new(Box::new(CounterJob { counter: counter.clone() }));
    assert_eq!(boxed.name(), "counter_job");
    boxed.execute();
    assert_eq!(counter.load(Ordering::Relaxed), 1);
    assert_eq!(boxed.try_execute(), JobOutcome::Succeeded);
    assert_eq!(counter.load(Ordering::Relaxed), 2);
    // A boxed job fails as the job inside does.
    let mut failing = BoxedJob::new(Box::new(FailingJob));
    assert_eq!(failing.name(), "unnamed_job");
    assert_eq!(failing.try_execute(), JobOutcome::Failed);
}

#[test]
fn completion_flag_values() {
    assert!(!flag_is_set(0));
    assert!(flag_is_set(1));
    assert!(flag_is_set(2));
    assert!(flag_is_set(255));
    assert_eq!(outcome_of(0), None);
    assert_eq!(outcome_of(1), Some(JobOutcome::Succeeded));
    assert_eq!(outcome_of(2), Some(JobOutcome::Failed));
    assert_eq!(outcome_of(flag_of(JobOutcome::Succeeded)), Some(JobOutcome::Succeeded));
    assert_eq!(outcome_of(flag_of(JobOutcome::Failed)), Some(JobOutcome::Failed));
}
