//! The scheduler.
//!
//! The scheduler owns the pending set of not-currently-running continuations
//! and the two fixed-size stacks the dispatch loop alternates between.
//! `next` performs one bounded scan of the pending set and hands back the
//! first continuation whose awaited event has arrived; the actual stack
//! switch and the run loop around it belong to the dispatch driver, which
//! Verus does not see into.

use vstd::prelude::*;

pub mod user;

use crate::continuation::{Continuation, Event, EventKind, Routine};
use crate::io::kbd::KbdBuffer;
use crate::time::SysTime;

verus! {

/// The size of a stack in 64-bit words (32KB).
pub const STACK_WORDS: usize = 4096;

/// Padding, in words, left below a fresh stack's starting pointer in case a
/// bug causes the stack to unwind too far.
pub const PADDING: usize = 400;

/// The sentinel written over a retired stack, to surface stale-pointer bugs.
pub const STACK_SENTINEL: u64 = 0xDEAD_BEEF_DEAD_BEEF;

/// A stack for execution of continuations.
pub struct Stack(pub Vec<u64>);

/// A stack whose every word is the recognizable sentinel pattern.
pub open spec fn stack_cleared(s: Stack) -> bool {
    &&& s.0@.len() == STACK_WORDS
    &&& forall|i: int| 0 <= i < s.0@.len() ==> s.0@[i] == STACK_SENTINEL
}

impl Stack {
    /// Returns a new, zeroed stack.
    pub fn new() -> (s: Self)
        ensures
            s.0@.len() == STACK_WORDS,
            forall|i: int| 0 <= i < s.0@.len() ==> s.0@[i] == 0,
    {
        Stack(vec![0u64; STACK_WORDS])
    }

    /// Returns the word offset from the stack's base at which execution on
    /// this stack starts.  The end of the array is the "bottom" (highest
    /// address) of the stack; a little padding is left below it.
    pub fn first_rsp(&self) -> (r: usize)
        ensures
            r == STACK_WORDS - PADDING,
    {
        STACK_WORDS - PADDING
    }

    /// Overwrite the contents of this stack with the sentinel pattern.
    pub fn clear(&mut self)
        requires
            old(self).0@.len() == STACK_WORDS,
        ensures
            stack_cleared(*final(self)),
    {
        let mut i: usize = 0;
        while i < STACK_WORDS
            invariant
                i <= STACK_WORDS,
                self.0@.len() == STACK_WORDS,
                forall|j: int| 0 <= j < i ==> self.0@[j] == STACK_SENTINEL,
            decreases STACK_WORDS - i,
        {
            self.0[i] = STACK_SENTINEL;
            i = i + 1;
        }
    }
}

/// Whether the event a pending entry waits for has arrived, given the
/// current clock reading and the buffered keyboard bytes.
pub open spec fn ready(kind: EventKind, now: SysTime, kbd: Seq<u8>) -> bool {
    match kind {
        EventKind::Now => true,
        EventKind::Until(t) => now@ >= t@,
        EventKind::Keyboard => kbd.len() > 0,
    }
}

/// The event delivered for a ready pending entry.
pub open spec fn event_for(kind: EventKind, kbd: Seq<u8>) -> Event {
    match kind {
        EventKind::Now => Event::Now,
        EventKind::Until(t) => Event::Timer,
        EventKind::Keyboard => Event::Keyboard(kbd[0]),
    }
}

/// How one successful call to `Scheduler::next` relates its outputs to its
/// inputs: the entry at position `k` of the old pending set is the first
/// ready one; it is dispatched with the event it waited for; the scan
/// rotates the entries examined before it to the back; and exactly when the
/// entry waited on the keyboard, the oldest buffered byte is consumed.
pub open spec fn next_dispatches(
    q0: Seq<(EventKind, Continuation)>,
    q1: Seq<(EventKind, Continuation)>,
    kbd0: Seq<u8>,
    kbd1: Seq<u8>,
    now: SysTime,
    ev: Event,
    c: Continuation,
    k: int,
) -> bool {
    &&& 0 <= k < q0.len()
    &&& ready(q0[k].0, now, kbd0)
    &&& forall|j: int| 0 <= j < k ==> !ready(#[trigger] q0[j].0, now, kbd0)
    &&& c == q0[k].1
    &&& ev == event_for(q0[k].0, kbd0)
    &&& q1 == q0.subrange(k + 1, q0.len() as int) + q0.subrange(0, k)
    &&& kbd1 == if q0[k].0 is Keyboard {
        kbd0.skip(1)
    } else {
        kbd0
    }
}

/// The kernel task scheduler.
pub struct Scheduler {
    /// The outstanding continuations that have yet to be scheduled, each
    /// with the event it is waiting on.
    pub pending: Vec<(EventKind, Continuation)>,
    /// The stack of the current task.
    pub current_stack: Stack,
    /// A clean stack for the next task.
    pub clean_stack: Stack,
}

impl Scheduler {
    /// Get the next continuation to run, along with the event it was waiting
    /// for.  If no continuation exists or none is ready, return `None`.
    ///
    /// The scan examines each pending entry at most once, front to back;
    /// entries that are not ready are put back at the back of the set.  A
    /// continuation waiting on `Until(t)` is never returned while the clock
    /// reads less than `t`; one waiting on the keyboard is returned exactly
    /// when a byte is buffered and no entry ahead of it is ready, and then
    /// consumes the oldest byte.
    pub fn next(&mut self, now: SysTime, kbd: &mut KbdBuffer) -> (r: Option<(Event, Continuation)>)
        ensures
            final(self).current_stack == old(self).current_stack,
            final(self).clean_stack == old(self).clean_stack,
            match r {
                Option::None => {
                    &&& final(self).pending@ == old(self).pending@
                    &&& final(kbd)@ == old(kbd)@
                    &&& forall|j: int|
                        0 <= j < old(self).pending@.len() ==> !ready(
                            #[trigger] old(self).pending@[j].0,
                            now,
                            old(kbd)@,
                        )
                },
                Option::Some((ev, c)) => exists|k: int|
                    next_dispatches(
                        old(self).pending@,
                        final(self).pending@,
                        old(kbd)@,
                        final(kbd)@,
                        now,
                        ev,
                        c,
                        k,
                    ),
            },
    {
        let ghost q0 = self.pending@;
        let ghost kbd0 = kbd@;
        let n = self.pending.len();
        let mut i: usize = 0;
        // Iterate through all current outstanding tasks.  Choose the first
        // one that is ready.
        while i < n
            invariant
                n == q0.len(),
                i <= n,
                self.pending@ == q0.subrange(i as int, n as int) + q0.subrange(0, i as int),
                kbd@ == kbd0,
                forall|j: int| 0 <= j < i ==> !ready(#[trigger] q0[j].0, now, kbd0),
                self.current_stack == old(self).current_stack,
                self.clean_stack == old(self).clean_stack,
                q0 == old(self).pending@,
                kbd0 == old(kbd)@,
            decreases n - i,
        {
            let (kind, cont) = self.pending.remove(0);
            proof {
                assert(q0.subrange(i as int, n as int).len() > 0);
                assert((q0.subrange(i as int, n as int) + q0.subrange(0, i as int))[0] == q0[i as int]);
            }
            match kind {
                // Not waiting?  Great!
                EventKind::Now => {
                    proof {
                        assert(self.pending@ =~= q0.subrange(i as int + 1, n as int) + q0.subrange(
                            0,
                            i as int,
                        ));
                        assert(next_dispatches(q0, self.pending@, kbd0, kbd@, now, Event::Now, cont, i as int));
                    }
                    return Option::Some((Event::Now, cont));
                },
                // Timer events?  Is the requested time here?
                EventKind::Until(time) => {
                    if time.reached(&now) {
                        proof {
                            assert(self.pending@ =~= q0.subrange(i as int + 1, n as int)
                                + q0.subrange(0, i as int));
                            assert(next_dispatches(q0, self.pending@, kbd0, kbd@, now, Event::Timer, cont, i as int));
                        }
                        return Option::Some((Event::Timer, cont));
                    } else {
                        // Not ready; put it back.
                        self.pending.push((EventKind::Until(time), cont));
                        proof {
                            assert(self.pending@ =~= q0.subrange(i as int + 1, n as int)
                                + q0.subrange(0, i as int + 1));
                        }
                    }
                },
                // Waiting for keyboard input?
                EventKind::Keyboard => {
                    match kbd.kbd_next() {
                        Option::Some(c) => {
                            proof {
                                assert(self.pending@ =~= q0.subrange(i as int + 1, n as int)
                                    + q0.subrange(0, i as int));
                                assert(kbd@ =~= kbd0.skip(1));
                                assert(next_dispatches(q0, self.pending@, kbd0, kbd@, now, Event::Keyboard(c), cont, i as int));
                            }
                            return Option::Some((Event::Keyboard(c), cont));
                        },
                        Option::None => {
                            // Not ready; put it back.
                            self.pending.push((EventKind::Keyboard, cont));
                            proof {
                                assert(self.pending@ =~= q0.subrange(i as int + 1, n as int)
                                    + q0.subrange(0, i as int + 1));
                            }
                        },
                    }
                },
            }
            i = i + 1;
        }
        // Didn't find anything (ready)...
        proof {
            assert(self.pending@ =~= q0);
        }
        Option::None
    }

    /// Set the next continuation to run, along with the event kind it is
    /// waiting for.  Only for a scheduler with nothing else outstanding.
    pub fn set_next(&mut self, eventkind: EventKind, cont: Continuation)
        requires
            old(self).pending@.len() == 0,
        ensures
            final(self).pending@ == seq![(eventkind, cont)],
            final(self).current_stack == old(self).current_stack,
            final(self).clean_stack == old(self).clean_stack,
    {
        self.pending.push((eventkind, cont));
        proof {
            assert(self.pending@ =~= seq![(eventkind, cont)]);
        }
    }

    /// Enqueue the given list of continuations.
    pub fn enqueue(&mut self, cont: Vec<(EventKind, Continuation)>)
        ensures
            final(self).pending@ == old(self).pending@ + cont@,
            final(self).current_stack == old(self).current_stack,
            final(self).clean_stack == old(self).clean_stack,
    {
        let mut cont = cont;
        self.pending.append(&mut cont);
    }

    /// Enqueue the idle continuation.  It just halts until the next
    /// interrupt, so that the scheduler gets another chance to find ready
    /// work.
    pub fn idle(&mut self)
        ensures
            final(self).pending@ == old(self).pending@.push(
                (EventKind::Now, Continuation { routine: Routine::Idle }),
            ),
            final(self).current_stack == old(self).current_stack,
            final(self).clean_stack == old(self).clean_stack,
    {
        let cont = make_idle_cont();
        self.pending.push((EventKind::Now, cont));
    }
}

/// Returns the idle continuation: it halts the CPU until the next interrupt
/// and immediately re-enters the scheduler.
pub fn make_idle_cont() -> (c: Continuation)
    ensures
        c == (Continuation { routine: Routine::Idle }),
{
    Continuation::new(Routine::Idle)
}

/// Initialize the scheduling subsystem with the initial continuation.
pub fn init(first: Continuation) -> (s: Scheduler)
    ensures
        s.pending@ == seq![(EventKind::Now, first)],
        s.current_stack.0@.len() == STACK_WORDS,
        s.clean_stack.0@.len() == STACK_WORDS,
{
    let mut pending: Vec<(EventKind, Continuation)> = Vec::new();
    pending.push((EventKind::Now, first));
    proof {
        assert(pending@ =~= seq![(EventKind::Now, first)]);
    }
    Scheduler { pending, current_stack: Stack::new(), clean_stack: Stack::new() }
}

/// Run the scheduler to choose a task, discarding the current task as
/// complete.  In three phases: swap the clean stack in as the current stack;
/// (the dispatch driver then physically loads the new stack pointer); on the
/// new stack, overwrite the old stack with the sentinel pattern and pop the
/// next ready continuation, synthesizing the idle continuation if nothing is
/// ready.  The caller runs the returned continuation.
pub fn sched(s: &mut Scheduler, now: SysTime, kbd: &mut KbdBuffer) -> (r: (Event, Continuation))
    requires
        old(s).current_stack.0@.len() == STACK_WORDS,
    ensures
        final(s).current_stack == old(s).clean_stack,
        stack_cleared(final(s).clean_stack),
        (exists|j: int|
            0 <= j < old(s).pending@.len() && ready(#[trigger] old(s).pending@[j].0, now, old(kbd)@))
            ==> exists|k: int|
            next_dispatches(
                old(s).pending@,
                final(s).pending@,
                old(kbd)@,
                final(kbd)@,
                now,
                r.0,
                r.1,
                k,
            ),
        (forall|j: int|
            0 <= j < old(s).pending@.len() ==> !ready(
                #[trigger] old(s).pending@[j].0,
                now,
                old(kbd)@,
            )) ==> {
            &&& final(s).pending@ == old(s).pending@
            &&& final(kbd)@ == old(kbd)@
            &&& r == (Event::Now, Continuation { routine: Routine::Idle })
        },
{
    // Phase one: make the clean stack the current stack.  The driver then
    // switches to it, carrying no state over from the old stack.
    core::mem::swap(&mut s.current_stack, &mut s.clean_stack);

    // Phase three, on the new stack: clean the old one, then get the next
    // task.
    s.clean_stack.clear();
    match s.next(now, kbd) {
        Option::Some(next) => next,
        Option::None => (Event::Now, make_idle_cont()),
    }
}

/// Start the first task: the dispatch driver's first entry into the
/// scheduler.
pub fn start(s: &mut Scheduler, now: SysTime, kbd: &mut KbdBuffer) -> (r: (Event, Continuation))
    requires
        old(s).current_stack.0@.len() == STACK_WORDS,
    ensures
        final(s).current_stack == old(s).clean_stack,
        stack_cleared(final(s).clean_stack),
        (exists|j: int|
            0 <= j < old(s).pending@.len() && ready(#[trigger] old(s).pending@[j].0, now, old(kbd)@))
            ==> exists|k: int|
            next_dispatches(
                old(s).pending@,
                final(s).pending@,
                old(kbd)@,
                final(kbd)@,
                now,
                r.0,
                r.1,
                k,
            ),
        (forall|j: int|
            0 <= j < old(s).pending@.len() ==> !ready(
                #[trigger] old(s).pending@[j].0,
                now,
                old(kbd)@,
            )) ==> {
            &&& final(s).pending@ == old(s).pending@
            &&& final(kbd)@ == old(kbd)@
            &&& r == (Event::Now, Continuation { routine: Routine::Idle })
        },
{
    sched(s, now, kbd)
}

/// Enqueue the given list of continuations in the scheduler.
pub fn enqueue(s: &mut Scheduler, cont: Vec<(EventKind, Continuation)>)
    ensures
        final(s).pending@ == old(s).pending@ + cont@,
        final(s).current_stack == old(s).current_stack,
        final(s).clean_stack == old(s).clean_stack,
{
    s.enqueue(cont);
}

/// Enqueue the idle continuation.
pub fn idle(s: &mut Scheduler)
    ensures
        final(s).pending@ == old(s).pending@.push(
            (EventKind::Now, Continuation { routine: Routine::Idle }),
        ),
        final(s).current_stack == old(s).current_stack,
        final(s).clean_stack == old(s).clean_stack,
{
    s.idle();
}

/// A continuation queued under `Until(t)` is never dispatched while the
/// clock reads less than `t`: whenever `Scheduler::next` returns the entry
/// at position `k` and that entry waited on `Until(t)`, the clock has
/// reached `t`.
pub proof fn lemma_timer_never_early(
    q0: Seq<(EventKind, Continuation)>,
    q1: Seq<(EventKind, Continuation)>,
    kbd0: Seq<u8>,
    kbd1: Seq<u8>,
    now: SysTime,
    ev: Event,
    c: Continuation,
    k: int,
)
    requires
        next_dispatches(q0, q1, kbd0, kbd1, now, ev, c, k),
    ensures
        forall|t: SysTime| q0[k].0 == EventKind::Until(t) ==> now@ >= t@,
{
}

/// A continuation queued under `Keyboard` is dispatched exactly in a call of
/// `Scheduler::next` that finds a byte buffered and no earlier entry ready;
/// it receives the oldest buffered byte, which that call consumes.
pub proof fn lemma_keyboard_dispatch(
    q0: Seq<(EventKind, Continuation)>,
    q1: Seq<(EventKind, Continuation)>,
    kbd0: Seq<u8>,
    kbd1: Seq<u8>,
    now: SysTime,
    ev: Event,
    c: Continuation,
    k: int,
)
    requires
        next_dispatches(q0, q1, kbd0, kbd1, now, ev, c, k),
        q0[k].0 is Keyboard,
    ensures
        kbd0.len() > 0,
        ev == Event::Keyboard(kbd0[0]),
        kbd1 == kbd0.skip(1),
        forall|j: int| 0 <= j < k ==> !ready(#[trigger] q0[j].0, now, kbd0),
{
}

} // verus!
