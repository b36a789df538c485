//! The unit of work.

use vstd::prelude::*;

verus! {

/// How a job ended.
#[derive(Debug, Clone, Copy, PartialEq, Eq, Hash, Structural)]
pub enum JobOutcome {
    /// The job did its work.
    Succeeded,
    /// The job could not do its work. Its dependents are unblocked all the
    /// same.
    Failed,
}

/// Where a job stands.
#[derive(Debug, Clone, Copy, PartialEq, Eq, Hash, Structural)]
pub enum JobState {
    /// The job waits for a dependency.
    Pending,
    /// All dependencies of the job have completed; it can run.
    Ready,
    /// A worker has claimed the job and runs it.
    Executing,
    /// The job has run, with success or failure.
    Completed,
}

/// A job that can be executed by the job system.
pub trait Job: Send + 'static {
    /// Execute the job.
    fn execute(&mut self);

    /// Get the job name for debugging. A job that does not say otherwise is
    /// called `unnamed_job`.
    fn name(&self) -> (name: &str)
        default_ensures
            name@ == "unnamed_job"@,
    {
        "unnamed_job"
    }

    /// Execute the job and say how it ended. A job that can fail overrides
    /// this; by default a job that ran has succeeded, whatever `execute` did.
    fn try_execute(&mut self) -> (outcome: JobOutcome)
        default_ensures
            outcome == JobOutcome::Succeeded,
    {
        self.execute();
        JobOutcome::Succeeded
    }
}

/// A job made of a closure that is called once.
pub struct ClosureJob<F: FnOnce() + Send + 'static> {
    func: Option<F>,
    name: &'static str,
}

impl<F: FnOnce() + Send + 'static> ClosureJob<F> {
    /// The closure can be called.
    #[verifier::type_invariant]
    spec fn callable(self) -> bool {
        self.func matches Some(f) ==> call_requires(f, ())
    }

    /// The closure that waits to be called: `None` once it has been called.
    pub closed spec fn closure(&self) -> Option<F> {
        self.func
    }

    /// The name that the job was given.
    pub closed spec fn spec_name(&self) -> Seq<char> {
        self.name@
    }

    /// Wrap a closure into a job: the job has the given name and holds the
    /// closure, not called yet.
    pub fn new(name: &'static str, func: F) -> (job: ClosureJob<F>)
        requires
            call_requires(func, ()),
        ensures
            job.spec_name() == name@,
            job.closure() == Some(func),
    {
        ClosureJob { func: Some(func), name }
    }
}

impl<F: FnOnce() + Send + 'static> Job for ClosureJob<F> {
    /// Call the closure, the first time; later calls do nothing. Afterwards
    /// the job holds no closure, and keeps its name.
    fn execute(&mut self)
        ensures
            final(self).closure() is None,
            final(self).spec_name() == old(self).spec_name(),
            old(self).closure() matches Some(func) ==> call_ensures(func, (), ()),
    {
        let mut taken = ClosureJob { func: None, name: self.name };
        std::mem::swap(self, &mut taken);
        proof {
            use_type_invariant(&taken);
        }
        if let Some(func) = taken.func {
            func();
        }
    }

    /// The name that the job was given.
    fn name(&self) -> (name: &str)
        ensures
            name@ == self.spec_name(),
    {
        self.name
    }
}

/// A boxed job as a job of its own.
pub struct BoxedJob {
    /// The job inside.
    pub inner: Box<dyn Job>,
}

/// A job that does nothing.
pub struct IdleJob;

impl Job for IdleJob {
    fn execute(&mut self) {
    }

    /// The idle job is called `idle`.
    fn name(&self) -> (name: &str)
        ensures
            name@ == "idle"@,
    {
        "idle"
    }
}

impl BoxedJob {
    /// Wrap a boxed job: the job inside is the given one.
    pub fn new(inner: Box<dyn Job>) -> (job: BoxedJob)
        ensures
            job.inner === inner,
    {
        BoxedJob { inner }
    }

    /// A job that does nothing.
    pub fn idle() -> BoxedJob {
        let inner: Box<dyn Job> = Box::new(IdleJob);
        BoxedJob { inner }
    }
}

impl Job for BoxedJob {
    fn execute(&mut self) {
        self.inner.execute();
    }

    fn name(&self) -> &str {
        self.inner.name()
    }

    fn try_execute(&mut self) -> JobOutcome {
        self.inner.try_execute()
    }
}

} // verus!
