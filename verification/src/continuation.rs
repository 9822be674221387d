//! Continuations and the events they wait for.
//!
//! A continuation is a one-shot unit of work, resumed by delivering exactly
//! one event.  Its routine is a per-task state machine advanced one step per
//! delivered event: each step names the follow-up work to queue.

use vstd::prelude::*;

use crate::sched::Scheduler;
use crate::time::SysTime;

verus! {

/// Different kinds of events a continuation can wait for.
#[derive(Copy, Clone, PartialEq, Eq, Structural, Debug)]
pub enum EventKind {
    /// Wait for "now" to occur, i.e. don't wait for anything.
    Now,
    /// Wait for keyboard input.
    Keyboard,
    /// Wait for the system "clock" to have a given reading.
    Until(SysTime),
}

/// The events corresponding to `EventKind`.
#[derive(Copy, Clone, PartialEq, Eq, Structural, Debug)]
pub enum Event {
    /// Wow! It's now!
    Now,
    /// The given character has been typed.
    Keyboard(u8),
    /// A timer has expired.
    Timer,
}

/// The possible results of running a continuation.
pub enum ContResult {
    /// The continuation succeeded; the next continuations and their
    /// preconditions are given.
    Success(Vec<(EventKind, Continuation)>),
    /// The continuation failed, and here is the continuation to handle the
    /// error.
    Error(Continuation),
    /// The continuation succeeded and there is nothing left to be done.
    Done,
}

/// One step of a task's state machine: what a continuation does when the
/// event it waits for is delivered.
///
/// The set of steps is closed and each step's outcome is fixed when the
/// continuation is built: the delivered event decides *when* the step runs,
/// not what it does.  Every task this kernel builds is of that shape; a
/// task whose next step branches on the event's payload would need a new
/// variant here.
pub enum Routine {
    /// Halt the processor until the next interrupt, then re-enter the
    /// scheduler with nothing enqueued.
    Idle,
    /// Succeed and hand these follow-ups to the scheduler.
    Chain(Vec<(EventKind, Continuation)>),
    /// Fail; the given continuation handles the error.
    Fault(Box<Continuation>),
    /// Succeed with nothing left to be done.
    Finish,
}

/// Represents a single task in the system.
pub struct Continuation {
    pub routine: Routine,
}

/// What running a continuation appends to the scheduler's pending set:
/// successors as given, an error handler under `Now`, the idle continuation
/// under `Now` when the task is done, and nothing when the idle continuation
/// itself ran.
pub open spec fn run_enqueues(routine: Routine) -> Seq<(EventKind, Continuation)> {
    match routine {
        Routine::Idle => Seq::empty(),
        Routine::Chain(cont) => cont@,
        Routine::Fault(handler) => seq![(EventKind::Now, *handler)],
        Routine::Finish => seq![(EventKind::Now, Continuation { routine: Routine::Idle })],
    }
}

impl Continuation {
    /// Create a new task whose next step is `routine`.
    pub fn new(routine: Routine) -> (c: Continuation)
        ensures
            c == (Continuation { routine }),
    {
        Continuation { routine }
    }

    /// Execute this continuation: deliver `event`, interpret the result, and
    /// enqueue any resulting continuations in the scheduler.  The caller
    /// (the dispatch loop) then cedes control back to the scheduler.
    #[allow(unused_variables)]
    pub fn run(self, event: Event, scheduler: &mut Scheduler)
        ensures
            final(scheduler).pending@ == old(scheduler).pending@ + run_enqueues(self.routine),
            final(scheduler).current_stack == old(scheduler).current_stack,
            final(scheduler).clean_stack == old(scheduler).clean_stack,
    {
        match self.routine {
            // The idle task just waited out the halt; nothing to enqueue.
            Routine::Idle => {
                assert(scheduler.pending@ =~= scheduler.pending@ + Seq::<(
                    EventKind,
                    Continuation,
                )>::empty());
            },
            // Schedule the continuations.
            Routine::Chain(cont) => scheduler.enqueue(cont),
            // Schedule the error continuation under `Now`.
            Routine::Fault(handler) => {
                let mut list: Vec<(EventKind, Continuation)> = Vec::new();
                list.push((EventKind::Now, *handler));
                scheduler.enqueue(list);
            },
            // The task is done; the scheduler falls back to idle.
            Routine::Finish => scheduler.idle(),
        }
    }
}

} // verus!
