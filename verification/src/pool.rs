//! The worker-pool policy: which action the pool takes for each task,
//! and how long an idle worker waits before it exits.
//!
//! The threads themselves run outside the library; here stand the
//! verified decisions they follow, over the pool's counters.
use vstd::prelude::*;

verus! {

/// What the pool does with one submitted task.
#[derive(Debug, PartialEq, Eq, Structural)]
pub enum SpawnAction {
    /// Start a new worker thread for the task.
    StartThread,
    /// Queue the task for an existing worker.
    Enqueue,
}

/// Manages a collection of worker threads, by its counters.
///
/// A new thread is started whenever all the existing threads are busy
/// and the pool is under its thread count; an idle worker exits after a
/// wait whose length depends on how loaded the pool is.
pub struct TaskPool {
    /// The fixed number of threads the pool aims for.
    pub thread_count: usize,
    /// How many worker threads run.
    pub active_tasks: usize,
    /// How many worker threads sit idle.
    pub waiting_tasks: usize,
    /// How many tasks wait in the queue.
    pub todo: usize,
    /// The memory threshold under which no new thread starts, when one
    /// was configured.
    pub memory_threshold: Option<usize>,
}

impl TaskPool {
    /// A pool whose initial workers are all running.
    pub fn new(thread_count: usize) -> (r: TaskPool)
        ensures
            r.thread_count == thread_count,
            r.active_tasks == thread_count,
            r.waiting_tasks == 0,
            r.todo == 0,
            r.memory_threshold is None,
    {
        TaskPool {
            thread_count,
            active_tasks: thread_count,
            waiting_tasks: 0,
            todo: 0,
            memory_threshold: None,
        }
    }

    /// A pool that additionally remembers a memory threshold; whether
    /// the machine is below it is measured outside the library.
    pub fn new_limit_memory(thread_count: usize, memory_threshold: usize) -> (r: TaskPool)
        ensures
            r.thread_count == thread_count,
            r.active_tasks == thread_count,
            r.waiting_tasks == 0,
            r.todo == 0,
            r.memory_threshold == Some(memory_threshold),
    {
        TaskPool {
            thread_count,
            active_tasks: thread_count,
            waiting_tasks: 0,
            todo: 0,
            memory_threshold: Some(memory_threshold),
        }
    }

    /// Accepts one task: a new thread starts exactly when the pool is
    /// under its thread count and no worker sits idle; otherwise the
    /// task queues and one idle worker, if any, is woken.
    pub fn spawn(&mut self) -> (r: SpawnAction)
        requires
            old(self).active_tasks < usize::MAX,
            old(self).todo < usize::MAX,
        ensures
            final(self).thread_count == old(self).thread_count,
            final(self).memory_threshold == old(self).memory_threshold,
            r == (if old(self).active_tasks < old(self).thread_count && old(self).waiting_tasks
                == 0 {
                SpawnAction::StartThread
            } else {
                SpawnAction::Enqueue
            }),
            r is StartThread ==> final(self).active_tasks == old(self).active_tasks + 1
                && final(self).todo == old(self).todo,
            r is Enqueue ==> final(self).todo == old(self).todo + 1 && final(self).active_tasks
                == old(self).active_tasks,
    {
        if self.active_tasks < self.thread_count && self.waiting_tasks == 0 {
            self.active_tasks = self.active_tasks + 1;
            SpawnAction::StartThread
        } else {
            self.todo = self.todo + 1;
            SpawnAction::Enqueue
        }
    }
}

/// Whether an idle worker that has waited out its timeout may exit:
/// only while more than one worker is still active, so timeouts never
/// drain the pool below a single worker.
pub fn worker_exits_on_timeout(active_tasks: usize) -> (r: bool)
    ensures
        r == (active_tasks > 1),
{
    active_tasks > 1
}

/// How many milliseconds an idle worker waits for a task before it
/// considers exiting: half the base wait on a lightly loaded pool with
/// idle workers, twice the base wait on a saturated pool, and the base
/// wait of five seconds otherwise.
pub fn calculate_dynamic_wait_time(
    active_threads: usize,
    waiting_tasks: usize,
    thread_count: usize,
) -> (r: u64)
    ensures
        r == (if active_threads < thread_count / 2 && waiting_tasks > 0 {
            2500u64
        } else if active_threads >= thread_count {
            10000u64
        } else {
            5000u64
        }),
{
    if active_threads < thread_count / 2 && waiting_tasks > 0 {
        2500
    } else if active_threads >= thread_count {
        10000
    } else {
        5000
    }
}

} // verus!
