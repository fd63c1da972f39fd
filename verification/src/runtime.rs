//! The event loop that drives a plugin's futures to completion, and the
//! count of async tasks that the host still runs for the plugin.
//!
//! The host runs async work (Redis, database, HTTP) on its own goroutines.
//! A future asks the host for its task's outcome when polled; where the task
//! is still running the future is pending, and the loop waits until the
//! host finishes any task before it polls again. Waiting while no task runs
//! would block for ever, so the loop only waits while the count of pending
//! tasks is above zero, and it gives up after a fixed number of polls.

pub mod sys;

use vstd::prelude::*;

verus! {

/// Most polls that `block_on` makes before it gives up on a future.
pub const MAX_POLL_ITERATIONS: u32 = 10000;

/// The outcome of polling a future once.
#[derive(Debug)]
pub enum PollState<T> {
    Ready(T),
    Pending,
}

/// Count of async tasks that were submitted and have not completed yet.
#[derive(Debug)]
pub struct PendingTasks {
    count: u32,
}

impl View for PendingTasks {
    type V = u32;

    closed spec fn view(&self) -> u32 {
        self.count
    }
}

/// One more pending task, the count stopping at `u32::MAX`.
pub open spec fn saturating_inc(n: u32) -> u32 {
    if n < u32::MAX {
        (n + 1) as u32
    } else {
        n
    }
}

/// One less pending task, the count stopping at zero.
pub open spec fn saturating_dec(n: u32) -> u32 {
    if n > 0 {
        (n - 1) as u32
    } else {
        0
    }
}

impl PendingTasks {
    /// No task pending.
    pub fn new() -> (res: PendingTasks)
        ensures
            res@ == 0,
    {
        PendingTasks { count: 0 }
    }

    /// Number of async tasks submitted but not yet resolved.
    pub fn pending_count(&self) -> (n: u32)
        ensures
            n == self@,
    {
        self.count
    }

    /// Counts a task that the host accepted.
    pub fn inc_pending(&mut self)
        ensures
            final(self)@ == saturating_inc(old(self)@),
    {
        self.count = self.count.saturating_add(1);
    }

    /// Counts a task that completed.
    pub fn dec_pending(&mut self)
        ensures
            final(self)@ == saturating_dec(old(self)@),
    {
        self.count = self.count.saturating_sub(1);
    }
}

/// Why `block_on` gave up on a future.
#[derive(Debug, Clone, Copy, PartialEq, Eq)]
pub enum BlockOnError {
    /// The future was pending while no async task was in flight: nothing
    /// could ever wake it.
    Stalled,
    /// The future was still pending after `MAX_POLL_ITERATIONS` polls.
    Exceeded,
}

impl BlockOnError {
    /// The error's text.
    pub fn message(&self) -> (res: &'static str)
        ensures
            *self == BlockOnError::Stalled ==> res
                == "future stalled: returned Pending with no async tasks submitted",
            *self == BlockOnError::Exceeded ==> res
                == "future exceeded max poll iterations — probable infinite loop",
    {
        match self {
            BlockOnError::Stalled => {
                "future stalled: returned Pending with no async tasks submitted"
            },
            BlockOnError::Exceeded => {
                "future exceeded max poll iterations — probable infinite loop"
            },
        }
    }
}

/// What the event loop does after a poll.
#[derive(Debug)]
pub enum BlockOnAction<T> {
    /// Stop, with the future's output or the reason to give up.
    Finish(Result<T, BlockOnError>),
    /// Wait until the host completes any async task, then go on.
    WaitAny,
}

/// State of `block_on`: how many times the future was polled.
#[derive(Debug)]
pub struct BlockOn {
    polls: u32,
}

impl View for BlockOn {
    type V = u32;

    closed spec fn view(&self) -> u32 {
        self.polls
    }
}

/// What follows a poll that gave `polled` while `pending` tasks were
/// pending: the output of a ready future; for a pending one, giving up where
/// no task is pending, else a wait.
pub open spec fn next_action<T>(polled: PollState<T>, pending: u32) -> BlockOnAction<T> {
    match polled {
        PollState::Ready(v) => BlockOnAction::Finish(Ok(v)),
        PollState::Pending => if pending == 0 {
            BlockOnAction::Finish(Err(BlockOnError::Stalled))
        } else {
            BlockOnAction::WaitAny
        },
    }
}

/// The loop never waits on an empty task set: it asks for a wait exactly
/// after a poll that was pending while a task was pending.
pub proof fn lemma_wait_needs_tasks<T>(polled: PollState<T>, pending: u32)
    ensures
        next_action(polled, pending) is WaitAny <==> (polled is Pending && pending > 0),
{
}

/// What `after_wait` gives after `polls` polls.
pub open spec fn after_wait_result(polls: int) -> Option<BlockOnError> {
    if polls < MAX_POLL_ITERATIONS {
        None
    } else {
        Some(BlockOnError::Exceeded)
    }
}

/// Whether the loop, given in turn the outcome of each poll and the count
/// of pending tasks then, makes all these polls: after each but the last it
/// asked for a wait, and after the wait it was let poll again.
pub open spec fn loop_polls_all<T>(steps: Seq<(PollState<T>, u32)>) -> bool {
    forall|i: int|
        0 <= i < steps.len() - 1 ==> (next_action(#[trigger] steps[i].0, steps[i].1) is WaitAny
            && after_wait_result(i + 1) is None)
}

/// In every run of the loop, each wait follows a poll that was pending
/// while a task was pending, so the loop never waits on an empty task set,
/// and the loop polls at most `MAX_POLL_ITERATIONS` times.
pub proof fn lemma_loop_run<T>(steps: Seq<(PollState<T>, u32)>)
    requires
        loop_polls_all(steps),
    ensures
        steps.len() <= MAX_POLL_ITERATIONS,
        forall|i: int| 0 <= i < steps.len() - 1 ==> (#[trigger] steps[i].0 is Pending && steps[i].1 > 0),
{
    if steps.len() > 1 {
        let k: int = steps.len() - 2;
        assert(next_action(steps[k].0, steps[k].1) is WaitAny && after_wait_result(k + 1) is None);
    }
    assert forall|i: int| 0 <= i < steps.len() - 1 implies (#[trigger] steps[i].0 is Pending && steps[i].1 > 0) by {
        lemma_wait_needs_tasks(steps[i].0, steps[i].1);
    }
}

impl BlockOn {
    /// A loop that has not polled yet.
    pub fn new() -> (res: BlockOn)
        ensures
            res@ == 0,
    {
        BlockOn { polls: 0 }
    }

    /// Number of polls made so far.
    pub fn polls(&self) -> (n: u32)
        ensures
            n == self@,
    {
        self.polls
    }

    /// Decides what follows a poll of the future, given what the poll gave
    /// and how many async tasks are pending. A ready future ends the loop
    /// with its output; a pending one ends it where no task is pending, and
    /// otherwise asks for a wait.
    pub fn after_poll<T>(&mut self, polled: PollState<T>, pending: u32) -> (act: BlockOnAction<T>)
        requires
            old(self)@ < MAX_POLL_ITERATIONS,
        ensures
            final(self)@ == old(self)@ + 1,
            act == next_action(polled, pending),
    {
        self.polls = self.polls + 1;
        match polled {
            PollState::Ready(v) => BlockOnAction::Finish(Ok(v)),
            PollState::Pending => if pending == 0 {
                BlockOnAction::Finish(Err(BlockOnError::Stalled))
            } else {
                BlockOnAction::WaitAny
            },
        }
    }

    /// Decides what follows a wait: `None` to poll again, or the error to
    /// give up with once `MAX_POLL_ITERATIONS` polls were made.
    pub fn after_wait(&self) -> (stop: Option<BlockOnError>)
        ensures
            stop == after_wait_result(self@ as int),
    {
        if self.polls < MAX_POLL_ITERATIONS {
            None
        } else {
            Some(BlockOnError::Exceeded)
        }
    }
}

/// The count after a submit whose reply gave `task_id`: a task that the
/// host accepted (a nonzero id) is counted, a refused one (id 0) is not.
pub open spec fn submit_effect(n: u32, task_id: u64) -> u32 {
    if task_id != 0 {
        saturating_inc(n)
    } else {
        n
    }
}

/// The count after a resolve of `task_id` whose reply says whether the task
/// is `done`: a counted task (a nonzero id) that completed is no longer
/// counted; a task still running, or task 0 that was never counted, leaves
/// the count as it was.
pub open spec fn resolve_effect(n: u32, task_id: u64, done: bool) -> u32 {
    if done && task_id != 0 {
        saturating_dec(n)
    } else {
        n
    }
}

/// What the pending count sees of the host: a submit that gave a task id,
/// or a resolve of a task id with whether the reply said the task is done.
pub enum TaskEvent {
    Submitted(u64),
    Resolved(u64, bool),
}

/// The pending count after a run of submits and resolves, from a count of
/// zero.
pub open spec fn count_after(evs: Seq<TaskEvent>) -> u32
    decreases evs.len(),
{
    if evs.len() == 0 {
        0
    } else {
        let n = count_after(evs.drop_last());
        match evs.last() {
            TaskEvent::Submitted(id) => submit_effect(n, id),
            TaskEvent::Resolved(id, done) => resolve_effect(n, id, done),
        }
    }
}

/// The tasks that a run submitted and has not yet seen completed.
pub open spec fn outstanding(evs: Seq<TaskEvent>) -> Set<u64>
    decreases evs.len(),
{
    if evs.len() == 0 {
        Set::empty()
    } else {
        let s = outstanding(evs.drop_last());
        match evs.last() {
            TaskEvent::Submitted(id) => if id != 0 {
                s.insert(id)
            } else {
                s
            },
            TaskEvent::Resolved(id, done) => if done {
                s.remove(id)
            } else {
                s
            },
        }
    }
}

/// A run as the host gives it: each accepted task gets an id that is not
/// outstanding, fewer than `u32::MAX` tasks are outstanding at once, and a
/// task is reported done only while it is outstanding.
pub open spec fn run_ok(evs: Seq<TaskEvent>) -> bool
    decreases evs.len(),
{
    if evs.len() == 0 {
        true
    } else {
        let s = outstanding(evs.drop_last());
        run_ok(evs.drop_last()) && match evs.last() {
            TaskEvent::Submitted(id) => id != 0 ==> !s.contains(id) && s.len() + 1 < u32::MAX,
            TaskEvent::Resolved(id, done) => (done && id != 0) ==> s.contains(id),
        }
    }
}

/// In every run that starts from a count of zero, the pending count is the
/// number of tasks submitted and not yet resolved.
pub proof fn lemma_count_is_outstanding(evs: Seq<TaskEvent>)
    requires
        run_ok(evs),
    ensures
        outstanding(evs).finite(),
        count_after(evs) == outstanding(evs).len(),
    decreases evs.len(),
{
    if evs.len() > 0 {
        let prev = evs.drop_last();
        lemma_count_is_outstanding(prev);
        let s = outstanding(prev);
        match evs.last() {
            TaskEvent::Submitted(id) => {
                if id != 0 {
                    assert(s.insert(id).len() == s.len() + 1);
                }
            },
            TaskEvent::Resolved(id, done) => {
                if done {
                    if id != 0 {
                        assert(s.remove(id).len() == s.len() - 1);
                    } else {
                        assert(!s.contains(0)) by {
                            lemma_zero_never_outstanding(prev);
                        }
                        assert(s.remove(id) =~= s);
                    }
                }
            },
        }
    }
}

/// Task 0, the id of a refused submit, is never outstanding.
pub proof fn lemma_zero_never_outstanding(evs: Seq<TaskEvent>)
    ensures
        !outstanding(evs).contains(0),
    decreases evs.len(),
{
    if evs.len() > 0 {
        lemma_zero_never_outstanding(evs.drop_last());
    }
}

/// A task that the host accepted and that then completed leaves the count
/// where it was, unless the count was saturated.
pub proof fn lemma_submit_then_resolve(n: u32, task_id: u64)
    requires
        n < u32::MAX,
        task_id != 0,
    ensures
        resolve_effect(submit_effect(n, task_id), task_id, true) == n,
{
}

/// The count never goes below zero: completing a task when none is counted
/// leaves it at zero.
pub proof fn lemma_dec_floor()
    ensures
        saturating_dec(0) == 0,
{
}

} // verus!
