//! Scheduler, continuation and time behavior.

use kernel::continuation::{ContResult, Continuation, Event, EventKind, Routine};
use kernel::io::kbd;
use kernel::sched;
use kernel::sched::{Scheduler, Stack, PADDING, STACK_WORDS};
use kernel::SysTime;

fn empty_scheduler() -> Scheduler {
    let mut s = sched::init(Continuation::new(Routine::Finish));
    let kinds = drain(&mut s, SysTime::now(0), &mut kbd::init());
    assert_eq!(kinds.len(), 1);
    s
}

/// Pop everything ready; return the kinds of events delivered.
fn drain(s: &mut Scheduler, now: SysTime, kb: &mut kbd::KbdBuffer) -> Vec<Event> {
    let mut out = Vec::new();
    while let Some((ev, _cont)) = s.next(now, kb) {
        out.push(ev);
    }
    out
}

#[test]
fn after_computes_deadline() {
    // With a 1000 Hz tick, four seconds from tick 0 is timestamp 4000.
    let t0 = SysTime::now(0);
    assert_eq!(t0.after(4), SysTime::now(4000));
    assert_eq!(SysTime::now(25).after(3), SysTime::now(3025));
}

#[test]
fn timer_not_ready_before_deadline() {
    let mut s = empty_scheduler();
    let mut kb = kbd::init();
    let deadline = SysTime::now(0).after(4);
    s.enqueue(vec![(EventKind::Until(deadline), Continuation::new(Routine::Finish))]);

    assert!(s.next(SysTime::now(0), &mut kb).is_none());
    assert!(s.next(SysTime::now(3999), &mut kb).is_none());
    match s.next(SysTime::now(4000), &mut kb) {
        Some((Event::Timer, _)) => {}
        other => panic!("expected a timer dispatch, got {:?}", other.map(|(e, _)| e)),
    }
    assert_eq!(s.pending.len(), 0);
}

#[test]
fn now_entries_dispatch_immediately() {
    let mut s = empty_scheduler();
    let mut kb = kbd::init();
    s.enqueue(vec![(EventKind::Now, Continuation::new(Routine::Finish))]);
    match s.next(SysTime::now(0), &mut kb) {
        Some((Event::Now, c)) => assert!(matches!(c.routine, Routine::Finish)),
        other => panic!("expected an immediate dispatch, got {:?}", other.map(|(e, _)| e)),
    }
}

#[test]
fn keyboard_waiter_readiness() {
    let mut s = empty_scheduler();
    let mut kb = kbd::init();
    s.enqueue(vec![(EventKind::Keyboard, Continuation::new(Routine::Finish))]);

    // Nothing buffered: the waiter is not ready, and stays queued.
    assert!(s.next(SysTime::now(0), &mut kb).is_none());
    assert_eq!(s.pending.len(), 1);

    // The waiter becomes ready in exactly the call after a byte arrives,
    // and consumes it.
    kb.handler(Some(b'q'));
    match s.next(SysTime::now(0), &mut kb) {
        Some((Event::Keyboard(c), _)) => assert_eq!(c, b'q'),
        other => panic!("expected a keyboard dispatch, got {:?}", other.map(|(e, _)| e)),
    }
    assert!(kb.kbd_next().is_none());
}

#[test]
fn keyboard_waiters_fifo() {
    let mut s = empty_scheduler();
    let mut kb = kbd::init();
    // Two keyboard waiters; tag them by their routines.
    s.enqueue(vec![
        (EventKind::Keyboard, Continuation::new(Routine::Finish)),
        (EventKind::Keyboard, Continuation::new(Routine::Idle)),
    ]);
    kb.handler(Some(b'a'));
    kb.handler(Some(b'b'));

    // Buffered bytes go to the waiters in queue order.
    match s.next(SysTime::now(0), &mut kb) {
        Some((Event::Keyboard(c), cont)) => {
            assert_eq!(c, b'a');
            assert!(matches!(cont.routine, Routine::Finish));
        }
        _ => panic!("expected the first keyboard waiter"),
    }
    match s.next(SysTime::now(0), &mut kb) {
        Some((Event::Keyboard(c), cont)) => {
            assert_eq!(c, b'b');
            assert!(matches!(cont.routine, Routine::Idle));
        }
        _ => panic!("expected the second keyboard waiter"),
    }
}

#[test]
fn scan_requeues_not_ready_entries() {
    let mut s = empty_scheduler();
    let mut kb = kbd::init();
    // A sleeping timer ahead of a ready entry: the scan skips the timer,
    // dispatches the ready entry, and the timer stays queued.
    s.enqueue(vec![
        (EventKind::Until(SysTime::now(100)), Continuation::new(Routine::Finish)),
        (EventKind::Now, Continuation::new(Routine::Idle)),
    ]);
    match s.next(SysTime::now(0), &mut kb) {
        Some((Event::Now, c)) => assert!(matches!(c.routine, Routine::Idle)),
        _ => panic!("expected the ready entry"),
    }
    assert_eq!(s.pending.len(), 1);
    assert_eq!(s.pending[0].0, EventKind::Until(SysTime::now(100)));
}

#[test]
fn run_chain_enqueues_followups() {
    let mut s = empty_scheduler();
    let followups = vec![
        (EventKind::Now, Continuation::new(Routine::Finish)),
        (EventKind::Keyboard, Continuation::new(Routine::Finish)),
    ];
    let c = Continuation::new(Routine::Chain(followups));
    c.run(Event::Now, &mut s);
    assert_eq!(s.pending.len(), 2);
    assert_eq!(s.pending[0].0, EventKind::Now);
    assert_eq!(s.pending[1].0, EventKind::Keyboard);
}

#[test]
fn run_error_enqueues_handler_under_now() {
    let mut s = empty_scheduler();
    let handler = Continuation::new(Routine::Finish);
    let c = Continuation::new(Routine::Fault(Box::new(handler)));
    c.run(Event::Timer, &mut s);
    assert_eq!(s.pending.len(), 1);
    assert_eq!(s.pending[0].0, EventKind::Now);
    assert!(matches!(s.pending[0].1.routine, Routine::Finish));
}

#[test]
fn run_done_falls_back_to_idle() {
    let mut s = empty_scheduler();
    Continuation::new(Routine::Finish).run(Event::Now, &mut s);
    assert_eq!(s.pending.len(), 1);
    assert_eq!(s.pending[0].0, EventKind::Now);
    assert!(matches!(s.pending[0].1.routine, Routine::Idle));

    // Running the idle continuation enqueues nothing.
    let (_, idle_cont) = s.next(SysTime::now(0), &mut kbd::init()).unwrap();
    idle_cont.run(Event::Now, &mut s);
    assert_eq!(s.pending.len(), 0);
}

#[test]
fn sched_swaps_and_clears_stacks() {
    let mut s = sched::init(Continuation::new(Routine::Finish));
    let mut kb = kbd::init();
    // Scribble on the current stack, as a running task would.
    s.current_stack.0[7] = 42;
    let (ev, cont) = sched::sched(&mut s, SysTime::now(0), &mut kb);
    assert_eq!(ev, Event::Now);
    assert!(matches!(cont.routine, Routine::Finish));
    // The old stack was retired and overwritten with the sentinel.
    assert!(s.clean_stack.0.iter().all(|&w| w == 0xDEAD_BEEF_DEAD_BEEF));
    // The new current stack is the previously clean one.
    assert!(s.current_stack.0.iter().all(|&w| w == 0));
}

#[test]
fn sched_idles_when_nothing_is_ready() {
    let mut s = empty_scheduler();
    let mut kb = kbd::init();
    s.enqueue(vec![(EventKind::Keyboard, Continuation::new(Routine::Finish))]);
    let (ev, cont) = sched::start(&mut s, SysTime::now(0), &mut kb);
    assert_eq!(ev, Event::Now);
    assert!(matches!(cont.routine, Routine::Idle));
    // The waiter is still queued.
    assert_eq!(s.pending.len(), 1);
}

#[test]
fn set_next_takes_one_entry() {
    let mut s = empty_scheduler();
    let mut kb = kbd::init();
    s.set_next(EventKind::Now, Continuation::new(Routine::Finish));
    assert_eq!(s.pending.len(), 1);
    assert!(s.next(SysTime::now(0), &mut kb).is_some());
}

#[test]
fn stack_geometry() {
    let stack = Stack::new();
    assert_eq!(stack.0.len(), STACK_WORDS);
    assert_eq!(stack.first_rsp(), STACK_WORDS - PADDING);
    let mut stack = stack;
    stack.clear();
    assert!(stack.0.iter().all(|&w| w == 0xDEAD_BEEF_DEAD_BEEF));
}

#[test]
fn tick_advances_the_clock() {
    let mut ticks: u64 = 0;
    kernel::tick(&mut ticks);
    kernel::tick(&mut ticks);
    assert_eq!(ticks, 2);
    assert_eq!(SysTime::now(ticks), SysTime::now(2));
}

#[test]
fn cont_result_variants_cover_outcomes() {
    // `ContResult` is what a routine's step reports; `run` interprets it.
    let done = ContResult::Done;
    assert!(matches!(done, ContResult::Done));
    let success = ContResult::Success(vec![(EventKind::Now, Continuation::new(Routine::Finish))]);
    match success {
        ContResult::Success(list) => assert_eq!(list.len(), 1),
        _ => panic!("expected success"),
    }
    let error = ContResult::Error(Continuation::new(Routine::Finish));
    assert!(matches!(error, ContResult::Error(_)));
}
