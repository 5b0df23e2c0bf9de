//! Configuration options and the scheduler's error taxonomy.

use vstd::prelude::*;

verus! {

/// The order in which a worker pops from its own local queue.
///
/// Under either discipline the owner pushes at the back.  With `Lifo` the
/// owner pops from the back while stealers take from the front; with `Fifo`
/// both the owner and stealers take from the front.
#[derive(Clone, Copy, Debug, PartialEq, Eq, Structural)]
pub enum QueueDiscipline {
    Lifo,
    Fifo,
}

/// Recognized scheduler options.
#[derive(Clone, Copy, Debug, PartialEq, Eq, Structural)]
pub struct Config {
    /// Microseconds a worker pauses when no work is found anywhere.
    pub backoff_micros: u64,
    /// Owner-end pop order of each local queue.
    pub discipline: QueueDiscipline,
    /// When set, the global queue refuses submissions beyond this many
    /// queued tasks instead of growing without bound.
    pub global_bound: Option<usize>,
}

impl Config {
    /// The stock configuration: a 100 microsecond backoff, FIFO local
    /// queues, and an unbounded global queue.
    pub fn standard() -> (c: Config)
        ensures
            c == (Config {
                backoff_micros: 100u64,
                discipline: QueueDiscipline::Fifo,
                global_bound: None::<usize>,
            }),
    {
        Config { backoff_micros: 100, discipline: QueueDiscipline::Fifo, global_bound: None }
    }
}

impl Default for Config {
    /// Same configuration as [`Config::standard`].
    fn default() -> (c: Config)
        ensures
            c == (Config {
                backoff_micros: 100u64,
                discipline: QueueDiscipline::Fifo,
                global_bound: None::<usize>,
            }),
    {
        Config::standard()
    }
}

/// Everything that can go wrong at the scheduler's boundary.
///
/// Failures of individual tasks are deliberately absent: they are swallowed
/// at the worker loop so that one failing task never takes down a worker.
#[derive(Clone, Copy, Debug, PartialEq, Eq, Structural)]
pub enum SchedulerError {
    /// The scheduler was asked for zero workers; nothing was built.
    ConfigurationError,
    /// A bounded global queue is at its bound; the caller may retry or drop
    /// the task.
    QueueFull,
}

impl SchedulerError {
    /// A human-readable description of the error.
    pub fn message(&self) -> (m: &'static str)
        ensures
            *self is ConfigurationError ==> m@ == "worker count must be positive"@,
            *self is QueueFull ==> m@ == "global queue is at its configured bound"@,
    {
        match self {
            SchedulerError::ConfigurationError => "worker count must be positive",
            SchedulerError::QueueFull => "global queue is at its configured bound",
        }
    }
}

} // verus!
