//! The dispatch policy: how many threads a run may use, the one-time sizing
//! of the process-wide worker pool, and the choice between the sequential
//! and the parallel factorization entry point.

use rayon::{ThreadPoolBuildError, ThreadPoolBuilder};
use vstd::prelude::*;

verus! {

/// `rayon::ThreadPoolBuildError`: why a worker pool could not be built. Its
/// kind is private to rayon, so it is carried, never looked into.
#[verifier::external_type_specification]
#[verifier::external_body]
pub struct ExThreadPoolBuildError(rayon::ThreadPoolBuildError);

/// `rayon::ThreadPoolBuilder::build_global` with `num_threads(threads)`:
/// initializes the process-wide worker pool with that many threads (with
/// rayon's default number for 0).
///
/// Nothing is claimed of the result: it is an error when the pool has been
/// initialized before, by an earlier call or by a first parallel invocation,
/// or when its threads cannot be started.
#[verifier::external_body]
fn size_global_pool(threads: usize) -> (r: Result<(), ThreadPoolBuildError>) {
    ThreadPoolBuilder::new().num_threads(threads).build_global()
}

/// `rayon::current_num_threads`: the number of threads of the process-wide
/// worker pool, which this call initializes with rayon's defaults if nothing
/// has done so before.
///
/// Nothing is claimed of the result: it depends on the machine and the
/// environment. Rayon panics here if it cannot start the pool's threads.
#[verifier::external_body]
fn global_pool_threads() -> (n: usize) {
    rayon::current_num_threads()
}

/// The factorization entry point to invoke for a sequence.
#[derive(Clone, Copy, Debug, PartialEq, Eq, Structural)]
pub enum EntryPoint {
    /// Factorize on the calling thread.
    Sequential,
    /// Factorize on the shared worker pool with this many workers.
    Parallel { workers: usize },
}

/// A thread budget could not be put into effect.
#[derive(Clone, Copy, Debug, PartialEq, Eq, Structural)]
pub enum ConfigError {
    /// The worker pool could not be sized as requested: it had been sized
    /// or used before, or its threads could not be started.
    PoolSizing,
}

/// How an attempt to size the worker pool ended.
#[derive(Clone, Copy, Debug, PartialEq, Eq, Structural)]
pub enum PoolOutcome {
    /// The pool has been sized by this attempt, for the first and only time.
    Sized,
    /// The pool was refused the size.
    Refused,
}

/// The entry point for a thread budget: parallel with `threads` workers when
/// the budget exceeds one, sequential otherwise.
pub open spec fn entry_point_for(threads: usize) -> EntryPoint {
    if threads > 1 {
        EntryPoint::Parallel { workers: threads }
    } else {
        EntryPoint::Sequential
    }
}

/// The dispatch policy of a run: its thread budget, fixed once.
#[derive(Clone, Copy, Debug, PartialEq, Eq, Structural)]
pub struct DispatchPolicy {
    threads: usize,
}

impl DispatchPolicy {
    /// The thread budget.
    pub closed spec fn budget(&self) -> usize {
        self.threads
    }

    /// The policy for an explicit budget, given how sizing the pool to it
    /// ended.
    pub fn with_explicit_budget(threads: usize, outcome: PoolOutcome) -> (r: Result<
        Self,
        ConfigError,
    >)
        ensures
            match r {
                Ok(p) => outcome == PoolOutcome::Sized && p.budget() == threads,
                Err(e) => outcome == PoolOutcome::Refused && e == ConfigError::PoolSizing,
            },
    {
        match outcome {
            PoolOutcome::Sized => Ok(DispatchPolicy { threads }),
            PoolOutcome::Refused => Err(ConfigError::PoolSizing),
        }
    }

    /// The policy where no budget was requested: all threads of the pool.
    pub fn with_default_budget(available: usize) -> (p: Self)
        ensures
            p.budget() == available,
    {
        DispatchPolicy { threads: available }
    }

    /// Puts a requested budget into effect. An explicit budget sizes the
    /// process-wide worker pool, which succeeds once only and before any
    /// parallel invocation: the policy then has that budget, and a refusal
    /// is an error. Without a request there is no error, and the budget is
    /// the size of the pool as it is.
    pub fn configure(requested: Option<usize>) -> (r: Result<Self, ConfigError>)
        ensures
            match r {
                Ok(p) => requested is Some ==> p.budget() == requested->Some_0,
                Err(e) => requested is Some && e == ConfigError::PoolSizing,
            },
    {
        match requested {
            Some(threads) => {
                let outcome = match size_global_pool(threads) {
                    Ok(()) => PoolOutcome::Sized,
                    Err(_) => PoolOutcome::Refused,
                };
                Self::with_explicit_budget(threads, outcome)
            },
            None => Ok(Self::with_default_budget(global_pool_threads())),
        }
    }

    /// The thread budget.
    pub fn threads(&self) -> (t: usize)
        ensures
            t == self.budget(),
    {
        self.threads
    }

    /// The entry point to invoke for every sequence of the run.
    pub fn entry_point(&self) -> (e: EntryPoint)
        ensures
            e == entry_point_for(self.budget()),
    {
        select_entry_point(self.threads)
    }
}

/// Selects the entry point for a thread budget.
pub fn select_entry_point(threads: usize) -> (e: EntryPoint)
    ensures
        e == entry_point_for(threads),
{
    if threads > 1 {
        EntryPoint::Parallel { workers: threads }
    } else {
        EntryPoint::Sequential
    }
}

} // verus!
