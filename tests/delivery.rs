use svix_server::backoff::{apply_jitter, backoff_delay};
use svix_server::lifecycle::{join_outcome, plan, RunPlan, Subsystem};
use svix_server::queue::{DispatchTask, Dequeued, MemoryQueue, NackOutcome, QueueMessage};
use svix_server::worker::{complete_attempt, decide, LoopAction, Phase, RetryPolicy, TaskStatus, Verdict, WorkerLoop};

fn leased(d: Dequeued) -> QueueMessage {
    match d {
        Dequeued::Leased(m) => m,
        other => panic!("expected a leased message, got {:?}", other),
    }
}

fn task(n: u64) -> DispatchTask {
    DispatchTask { endpoint_id: n, payload_id: 100 + n }
}

#[test]
fn backoff_doubles_until_cap() {
    assert_eq!(backoff_delay(1000, 10000, 0), 1000);
    assert_eq!(backoff_delay(1000, 10000, 1), 2000);
    assert_eq!(backoff_delay(1000, 10000, 3), 8000);
    assert_eq!(backoff_delay(1000, 10000, 4), 10000);
    assert_eq!(backoff_delay(1000, 10000, 30), 10000);
    assert_eq!(backoff_delay(20000, 10000, 0), 10000);
    assert_eq!(backoff_delay(u64::MAX, u64::MAX, 5), u64::MAX);
}

#[test]
fn backoff_is_monotonic_and_capped() {
    let mut prev = 0u64;
    for a in 0..40u32 {
        let d = backoff_delay(300, 45000, a);
        assert!(d >= prev);
        assert!(d <= 45000);
        prev = d;
    }
}

#[test]
fn jitter_stays_in_window() {
    assert_eq!(apply_jitter(1000, 10000, 0), 1000);
    assert_eq!(apply_jitter(1000, 10000, 251), 1000);
    assert_eq!(apply_jitter(1000, 10000, 250), 750);
    assert_eq!(apply_jitter(1000, 10000, 7), 993);
    assert_eq!(apply_jitter(0, 10000, 12345), 0);
    // no jitter at the cap
    assert_eq!(apply_jitter(10000, 10000, 7), 10000);
    for r in 0..2000u64 {
        let j = apply_jitter(1000, 10000, r);
        assert!((750..=1000).contains(&j));
    }
}

#[test]
fn retry_delays_never_shrink() {
    let p = RetryPolicy { max_attempts: 20, base_delay: 1000, max_delay: 10000 };
    for r1 in [0u64, 1, 7, 249, 250, 1000, 2499, 2500] {
        for r2 in [0u64, 3, 250, 499, 500, 2500, 9999] {
            for a in 1..19u32 {
                let da = match decide(p, a, false, r1) {
                    Verdict::Retry { delay } => delay,
                    v => panic!("unexpected {:?}", v),
                };
                let db = match decide(p, a + 1, false, r2) {
                    Verdict::Retry { delay } => delay,
                    v => panic!("unexpected {:?}", v),
                };
                assert!(da <= db, "attempt {} gave {} then {}", a, da, db);
                assert!(db <= 10000);
            }
        }
    }
}

#[test]
fn dequeue_leases_message() {
    let mut q = MemoryQueue::new(5);
    assert_eq!(q.next_id, 0);
    let a = q.enqueue(task(1), 0, 0);
    let b = q.enqueue(task(2), 0, 50);
    assert_ne!(a, b);
    let m = leased(q.dequeue(10, 100));
    assert_eq!(m.id, a);
    assert_eq!(m.task, task(1));
    assert_eq!(m.visible_at, 110);
    assert_eq!(m.attempts, 1);
    // the leased message is not handed out again while the lease runs
    assert_eq!(q.dequeue(20, 100), Dequeued::Empty);
    let m2 = leased(q.dequeue(60, 100));
    assert_eq!(m2.id, b);
    assert_eq!(q.dequeue(109, 100), Dequeued::Empty);
}

#[test]
fn unacked_message_is_redelivered() {
    let mut q = MemoryQueue::new(5);
    let a = q.enqueue(task(1), 0, 0);
    let m = leased(q.dequeue(0, 30));
    assert_eq!((m.id, m.attempts), (a, 1));
    assert_eq!(q.dequeue(29, 30), Dequeued::Empty);
    let again = leased(q.dequeue(30, 30));
    assert_eq!((again.id, again.attempts), (a, 2));
}

#[test]
fn stalled_message_reaches_dead_letters() {
    let mut q = MemoryQueue::new(2);
    let a = q.enqueue(task(1), 0, 0);
    assert_eq!(leased(q.dequeue(0, 10)).attempts, 1);
    assert_eq!(leased(q.dequeue(10, 10)).attempts, 2);
    match q.dequeue(20, 10) {
        Dequeued::DeadLettered(m) => assert_eq!((m.id, m.attempts), (a, 2)),
        other => panic!("expected dead letter, got {:?}", other),
    }
    assert_eq!(q.messages.len(), 0);
    assert_eq!(q.dead_letters.len(), 1);
    assert_eq!(q.dequeue(100, 10), Dequeued::Empty);
}

#[test]
fn release_gives_lease_back_uncounted() {
    let mut q = MemoryQueue::new(5);
    let a = q.enqueue(task(1), 0, 0);
    let m = leased(q.dequeue(0, 1000));
    assert_eq!(m.attempts, 1);
    assert!(q.release(a, 5));
    let again = leased(q.dequeue(5, 1000));
    assert_eq!((again.id, again.attempts), (a, 1));
    assert!(!q.release(a + 1, 5));
}

#[test]
fn ack_is_idempotent() {
    let mut q = MemoryQueue::new(5);
    let a = q.enqueue(task(1), 0, 0);
    assert!(q.ack(a));
    assert!(!q.ack(a));
    assert_eq!(q.messages.len(), 0);
    assert_eq!(q.dequeue(1000, 10), Dequeued::Empty);
}

#[test]
fn nack_requeues_then_dead_letters() {
    let mut q = MemoryQueue::new(2);
    let a = q.enqueue(task(1), 0, 0);
    leased(q.dequeue(0, 10));
    assert_eq!(q.nack_or_delay(a, 0, 100), NackOutcome::Requeued);
    assert_eq!(q.messages[0].attempts, 1);
    assert_eq!(q.messages[0].visible_at, 100);
    assert_eq!(q.dequeue(99, 10), Dequeued::Empty);
    assert_eq!(leased(q.dequeue(100, 10)).attempts, 2);
    assert_eq!(q.nack_or_delay(a, 100, 100), NackOutcome::DeadLettered);
    assert_eq!(q.messages.len(), 0);
    assert_eq!(q.dead_letters.len(), 1);
    assert_eq!(q.dead_letters[0].id, a);
    assert_eq!(q.nack_or_delay(a, 300, 100), NackOutcome::Unknown);
}

#[test]
fn decide_follows_policy() {
    let p = RetryPolicy { max_attempts: 3, base_delay: 1000, max_delay: 10000 };
    assert_eq!(decide(p, 1, true, 0), Verdict::Delivered);
    assert_eq!(decide(p, 1, false, 0), Verdict::Retry { delay: 1000 });
    assert_eq!(decide(p, 2, false, 0), Verdict::Retry { delay: 2000 });
    assert_eq!(decide(p, 2, false, 1), Verdict::Retry { delay: 1999 });
    assert_eq!(decide(p, 3, false, 0), Verdict::Exhausted);
    let capped = RetryPolicy { max_attempts: 10, base_delay: 1000, max_delay: 3000 };
    assert_eq!(decide(capped, 3, false, 5), Verdict::Retry { delay: 3000 });
}

#[test]
fn delivery_succeeds_on_third_attempt() {
    let p = RetryPolicy { max_attempts: 3, base_delay: 1000, max_delay: 10000 };
    let mut q = MemoryQueue::new(10);
    let id = q.enqueue(task(7), 0, 0);
    let mut notifications = 0;
    let mut delays = Vec::new();
    let mut now = 0u64;
    let mut last = None;
    for outcome in [false, false, true] {
        let m = leased(q.dequeue(now, 30000));
        assert_eq!(m.id, id);
        let r = complete_attempt(&mut q, p, m, outcome, now, 123);
        if r.notify {
            notifications += 1;
        }
        if let Verdict::Retry { delay } = r.verdict {
            delays.push(delay);
            now += delay;
        }
        last = Some((r, m.attempts));
    }
    assert_eq!(delays.len(), 2);
    assert!((750..=1000).contains(&delays[0]));
    assert!((1500..=2000).contains(&delays[1]));
    assert!(delays[0] <= delays[1]);
    let (r, attempt) = last.unwrap();
    assert_eq!(r.status, TaskStatus::Delivered);
    assert_eq!(attempt, 3);
    assert_eq!(notifications, 0);
    assert_eq!(q.messages.len(), 0);
}

#[test]
fn exhausted_task_notifies_once() {
    let p = RetryPolicy { max_attempts: 4, base_delay: 10, max_delay: 1000 };
    let mut q = MemoryQueue::new(10);
    let id = q.enqueue(task(1), 0, 0);
    let mut notifications = 0;
    let mut now = 0u64;
    for _ in 0..4 {
        let m = leased(q.dequeue(now, 500));
        let r = complete_attempt(&mut q, p, m, false, now, 0);
        if r.notify {
            notifications += 1;
            assert_eq!(r.status, TaskStatus::Failed);
        }
        now += 2000;
    }
    assert_eq!(notifications, 1);
    assert_eq!(q.messages.len(), 0);
    assert_eq!(q.dequeue(now, 500), Dequeued::Empty);
    assert!(!q.ack(id));
}

#[test]
fn queue_ceiling_below_policy_still_notifies() {
    let p = RetryPolicy { max_attempts: 5, base_delay: 10, max_delay: 1000 };
    let mut q = MemoryQueue::new(1);
    q.enqueue(task(1), 0, 0);
    let m = leased(q.dequeue(0, 500));
    let r = complete_attempt(&mut q, p, m, false, 0, 0);
    assert_eq!(r.verdict, Verdict::Retry { delay: 10 });
    assert_eq!(r.status, TaskStatus::Failed);
    assert!(r.notify);
    assert_eq!(q.messages.len(), 0);
    assert_eq!(q.dead_letters.len(), 1);
}

#[test]
fn worker_loop_escalates_errors() {
    let p = RetryPolicy { max_attempts: 3, base_delay: 100, max_delay: 1000 };
    let mut w = WorkerLoop::new(3, p);
    assert_eq!(w.next_action(false), LoopAction::Dequeue);
    assert_eq!(w.backend_error(false), LoopAction::BackOff { delay: 100 });
    assert_eq!(w.backend_error(false), LoopAction::BackOff { delay: 200 });
    w.backend_ok();
    assert_eq!(w.consecutive_errors, 0);
    assert_eq!(w.backend_error(false), LoopAction::BackOff { delay: 100 });
    assert_eq!(w.backend_error(false), LoopAction::BackOff { delay: 200 });
    assert_eq!(w.backend_error(false), LoopAction::Fatal);
}

#[test]
fn worker_finishes_in_flight_task_on_shutdown() {
    let p = RetryPolicy { max_attempts: 3, base_delay: 100, max_delay: 1000 };
    let mut w = WorkerLoop::new(3, p);
    assert_eq!(w.next_action(false), LoopAction::Dequeue);
    assert_eq!(w.leased(42, false), LoopAction::Deliver);
    assert_eq!(w.phase, Phase::Executing { receipt: 42 });
    // shutdown while delivering: the task is finished first
    assert_eq!(w.next_action(true), LoopAction::Deliver);
    assert_eq!(w.backend_error(true), LoopAction::BackOff { delay: 100 });
    w.attempt_applied();
    assert_eq!(w.next_action(true), LoopAction::Stop);
    assert_eq!(w.next_action(false), LoopAction::Stop);
}

#[test]
fn worker_releases_task_leased_during_shutdown() {
    let p = RetryPolicy { max_attempts: 3, base_delay: 100, max_delay: 1000 };
    let mut w = WorkerLoop::new(3, p);
    assert_eq!(w.next_action(false), LoopAction::Dequeue);
    assert_eq!(w.leased(7, true), LoopAction::Release);
    assert_eq!(w.phase, Phase::Stopped);
    assert_eq!(w.next_action(false), LoopAction::Stop);
    let mut idle = WorkerLoop::new(3, p);
    assert_eq!(idle.backend_error(true), LoopAction::Stop);
    assert_eq!(idle.next_action(false), LoopAction::Stop);
}

#[test]
fn lifecycle_plan_and_join() {
    assert_eq!(plan(true, false), RunPlan { serve_api: true, run_worker: false, run_sweeper: false });
    assert_eq!(plan(false, true), RunPlan { serve_api: false, run_worker: true, run_sweeper: true });
    assert_eq!(join_outcome(true, true, true), Ok(()));
    assert_eq!(join_outcome(false, false, true), Err(Subsystem::Api));
    assert_eq!(join_outcome(true, false, false), Err(Subsystem::Worker));
    assert_eq!(join_outcome(true, true, false), Err(Subsystem::Sweeper));
}
