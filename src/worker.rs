//! The worker's decisions: what follows a delivery attempt, and when a run of
//! backend errors becomes fatal. The loop itself, which waits on the queue and
//! on the network, runs around these functions.
use vstd::prelude::*;
use crate::backoff::{apply_jitter, backoff_delay, jittered, lemma_backoff_ordered, nominal_delay};
use crate::queue::{acked, handed_back, has_id, MemoryQueue, NackOutcome, QueueMessage};

verus! {

/// How a task is retried: at most `max_attempts` deliveries, the first retry
/// after `base_delay`, each later one after twice the one before, none after
/// more than `max_delay`.
#[derive(Clone, Copy, PartialEq, Eq, Structural, Debug)]
pub struct RetryPolicy {
    pub max_attempts: u32,
    pub base_delay: u64,
    pub max_delay: u64,
}

/// What the worker does once a delivery attempt has returned.
#[derive(Clone, Copy, PartialEq, Eq, Structural, Debug)]
pub enum Verdict {
    /// Delivered: acknowledge, record "delivered".
    Delivered,
    /// Failed with attempts left: hand back, visible again after `delay`.
    Retry { delay: u64 },
    /// Failed on the last attempt: acknowledge, record "failed", notify.
    Exhausted,
}

/// The delay before the retry that follows failed attempt `attempt`
/// (counted from 1): the nominal backoff, lowered by the jitter drawn as
/// `random` while under the cap.
pub open spec fn retry_delay_spec(p: RetryPolicy, attempt: nat, random: u64) -> int {
    jittered(
        nominal_delay(p.base_delay as nat, p.max_delay as nat, (attempt - 1) as nat),
        p.max_delay as nat,
        random as nat,
    )
}

/// The verdict on attempt `attempt`: delivered on success; a retry while
/// attempts are left; exhausted once the last allowed attempt has failed.
pub open spec fn verdict_spec(p: RetryPolicy, attempt: nat, success: bool, random: u64) -> Verdict {
    if success {
        Verdict::Delivered
    } else if attempt < p.max_attempts {
        Verdict::Retry { delay: retry_delay_spec(p, attempt, random) as u64 }
    } else {
        Verdict::Exhausted
    }
}

/// No retry delay exceeds the cap.
pub proof fn lemma_retry_delay_capped(p: RetryPolicy, attempt: nat, random: u64)
    requires
        attempt >= 1,
    ensures
        0 <= retry_delay_spec(p, attempt, random) <= p.max_delay,
{
    let d = nominal_delay(p.base_delay as nat, p.max_delay as nat, (attempt - 1) as nat);
    lemma_backoff_ordered(p.base_delay as nat, p.max_delay as nat, (attempt - 1) as nat, (attempt - 1) as nat);
    assert(random as nat % (d / 4 + 1) <= d / 4) by (nonlinear_arith);
}

/// Retry delays of one task never shrink: whatever the jitter draws, the
/// delay after a later attempt is at least the delay after an earlier one,
/// and both are within the cap.
pub proof fn lemma_retry_delays_ordered(p: RetryPolicy, a: nat, b: nat, r1: u64, r2: u64)
    requires
        1 <= a < b,
    ensures
        retry_delay_spec(p, a, r1) <= retry_delay_spec(p, b, r2) <= p.max_delay,
{
    let base = p.base_delay as nat;
    let cap = p.max_delay as nat;
    let na = nominal_delay(base, cap, (a - 1) as nat);
    let nb1 = nominal_delay(base, cap, (b - 2) as nat);
    let nb = nominal_delay(base, cap, (b - 1) as nat);
    lemma_backoff_ordered(base, cap, (a - 1) as nat, (b - 2) as nat);
    lemma_retry_delay_capped(p, a, r1);
    lemma_retry_delay_capped(p, b, r2);
    assert(nb == if 2 * nb1 <= cap { 2 * nb1 } else { cap });
    assert(r1 as nat % (na / 4 + 1) >= 0) by (nonlinear_arith);
    if nb < cap {
        assert(r2 as nat % (nb / 4 + 1) <= nb / 4) by (nonlinear_arith);
    }
}

/// Decides what follows delivery attempt number `attempt` (from 1), given
/// whether it succeeded and a random draw for the jitter.
pub fn decide(p: RetryPolicy, attempt: u32, success: bool, random: u64) -> (r: Verdict)
    requires
        attempt >= 1,
    ensures
        r == verdict_spec(p, attempt as nat, success, random),
{
    if success {
        Verdict::Delivered
    } else if attempt < p.max_attempts {
        let d = backoff_delay(p.base_delay, p.max_delay, attempt - 1);
        let delay = apply_jitter(d, p.max_delay, random);
        Verdict::Retry { delay }
    } else {
        Verdict::Exhausted
    }
}

/// The status recorded for a task.
#[derive(Clone, Copy, PartialEq, Eq, Structural, Debug)]
pub enum TaskStatus {
    Delivered,
    Pending,
    Failed,
}

/// The outcome of one attempt: the verdict, the status to record, and
/// whether the operators are notified of a terminal failure.
#[derive(Clone, Copy, PartialEq, Eq, Structural, Debug)]
pub struct StepReport {
    pub verdict: Verdict,
    pub status: TaskStatus,
    pub notify: bool,
}

/// Applies the verdict on the delivery of `m`, as leased from `q` (its
/// `attempts` counts this attempt), to the queue: a delivered or exhausted
/// task is acknowledged, a failed one with attempts left is handed back. A
/// task that fails for good, exhausted here or dead-lettered by the queue's
/// own ceiling when handed back, is recorded as failed and notifies.
pub fn complete_attempt(
    q: &mut MemoryQueue,
    p: RetryPolicy,
    m: QueueMessage,
    success: bool,
    now: u64,
    random: u64,
) -> (r: StepReport)
    requires
        old(q).wf(),
        m.attempts >= 1,
        now + p.max_delay <= u64::MAX,
    ensures
        final(q).wf(),
        r.verdict == verdict_spec(p, m.attempts as nat, success, random),
        final(q).next_id == old(q).next_id,
        final(q).max_attempts == old(q).max_attempts,
        match r.verdict {
            Verdict::Delivered => r.status == TaskStatus::Delivered && !r.notify
                && acked(*old(q), *final(q), m.id) && !has_id(final(q).messages@, m.id),
            Verdict::Exhausted => r.status == TaskStatus::Failed && r.notify
                && acked(*old(q), *final(q), m.id) && !has_id(final(q).messages@, m.id),
            Verdict::Retry { delay } => exists|o: NackOutcome|
                handed_back(*old(q), *final(q), m.id, now, delay, o)
                && r.notify == (o == NackOutcome::DeadLettered)
                && r.status == (if o == NackOutcome::DeadLettered { TaskStatus::Failed } else { TaskStatus::Pending }),
        },
{
    let v = decide(p, m.attempts, success, random);
    match v {
        Verdict::Delivered => {
            q.ack(m.id);
            StepReport { verdict: v, status: TaskStatus::Delivered, notify: false }
        },
        Verdict::Retry { delay } => {
            proof {
                lemma_retry_delay_capped(p, m.attempts as nat, random);
            }
            let o = q.nack_or_delay(m.id, now, delay);
            if o == NackOutcome::DeadLettered {
                StepReport { verdict: v, status: TaskStatus::Failed, notify: true }
            } else {
                StepReport { verdict: v, status: TaskStatus::Pending, notify: false }
            }
        },
        Verdict::Exhausted => {
            q.ack(m.id);
            StepReport { verdict: v, status: TaskStatus::Failed, notify: true }
        },
    }
}

/// Notifications sent over failed attempts `1..=n` of one task.
pub open spec fn failure_notifications(p: RetryPolicy, n: nat, random: u64) -> nat
    decreases n,
{
    if n == 0 {
        0
    } else {
        failure_notifications(p, (n - 1) as nat, random)
            + if verdict_spec(p, n, false, random) == Verdict::Exhausted { 1nat } else { 0nat }
    }
}

/// A task whose every delivery fails is handed back after each attempt
/// before the last, and ends, with exactly one notification, on the last.
pub proof fn lemma_single_terminal_notification(p: RetryPolicy, random: u64)
    requires
        p.max_attempts >= 1,
    ensures
        forall|a: nat| 1 <= a < p.max_attempts ==> #[trigger] verdict_spec(p, a, false, random) is Retry,
        verdict_spec(p, p.max_attempts as nat, false, random) == Verdict::Exhausted,
        failure_notifications(p, p.max_attempts as nat, random) == 1,
{
    lemma_no_notification_before_last(p, (p.max_attempts - 1) as nat, random);
}

proof fn lemma_no_notification_before_last(p: RetryPolicy, n: nat, random: u64)
    requires
        n < p.max_attempts,
    ensures
        failure_notifications(p, n, random) == 0,
    decreases n,
{
    if n > 0 {
        lemma_no_notification_before_last(p, (n - 1) as nat, random);
    }
}

/// What the worker loop does next.
#[derive(Clone, Copy, PartialEq, Eq, Structural, Debug)]
pub enum LoopAction {
    /// Take the next message from the queue.
    Dequeue,
    /// Deliver the leased task and apply the outcome.
    Deliver,
    /// Shutdown came between dequeue and delivery: give the lease back
    /// undelivered, then stop.
    Release,
    /// Back off after a backend error and try again.
    BackOff { delay: u64 },
    /// Shutdown was requested and nothing is in flight: stop.
    Stop,
    /// Too many backend errors in a row: stop with an error.
    Fatal,
}

/// Where the worker loop stands.
#[derive(Clone, Copy, PartialEq, Eq, Structural, Debug)]
pub enum Phase {
    /// No task held.
    Idle,
    /// A task with this receipt is being delivered; it is finished, and its
    /// outcome applied, before the loop may stop.
    Executing { receipt: u64 },
    /// Shutdown was observed: no more work is taken.
    Stopped,
}

/// The worker loop's own state: where it stands, and how many backend
/// errors came in a row.
pub struct WorkerLoop {
    pub phase: Phase,
    pub consecutive_errors: u32,
    pub error_limit: u32,
    pub policy: RetryPolicy,
}

impl WorkerLoop {
    pub fn new(error_limit: u32, policy: RetryPolicy) -> (r: WorkerLoop)
        ensures
            r.phase == Phase::Idle,
            r.consecutive_errors == 0,
            r.error_limit == error_limit,
            r.policy == policy,
    {
        WorkerLoop { phase: Phase::Idle, consecutive_errors: 0, error_limit, policy }
    }

    /// At the top of an iteration. A task in flight is delivered whatever the
    /// flag says; with none, shutdown stops the loop for good, else the loop
    /// takes work.
    pub fn next_action(&mut self, shutting_down: bool) -> (r: LoopAction)
        ensures
            final(self).consecutive_errors == old(self).consecutive_errors,
            final(self).error_limit == old(self).error_limit,
            final(self).policy == old(self).policy,
            match old(self).phase {
                Phase::Executing { .. } => r == LoopAction::Deliver && final(self).phase == old(self).phase,
                Phase::Stopped => r == LoopAction::Stop && final(self).phase == Phase::Stopped,
                Phase::Idle => if shutting_down {
                    r == LoopAction::Stop && final(self).phase == Phase::Stopped
                } else {
                    r == LoopAction::Dequeue && final(self).phase == Phase::Idle
                },
            },
    {
        match self.phase {
            Phase::Executing { .. } => LoopAction::Deliver,
            Phase::Stopped => LoopAction::Stop,
            Phase::Idle => {
                if shutting_down {
                    self.phase = Phase::Stopped;
                    LoopAction::Stop
                } else {
                    LoopAction::Dequeue
                }
            },
        }
    }

    /// Between dequeue and delivery of the task with `receipt`: the flag is
    /// read again. Under shutdown the task is not begun (its lease is to be
    /// released) and the loop stops; otherwise the delivery begins.
    pub fn leased(&mut self, receipt: u64, shutting_down: bool) -> (r: LoopAction)
        requires
            old(self).phase == Phase::Idle,
        ensures
            final(self).consecutive_errors == old(self).consecutive_errors,
            final(self).error_limit == old(self).error_limit,
            final(self).policy == old(self).policy,
            shutting_down ==> r == LoopAction::Release && final(self).phase == Phase::Stopped,
            !shutting_down ==> r == LoopAction::Deliver
                && final(self).phase == (Phase::Executing { receipt }),
    {
        if shutting_down {
            self.phase = Phase::Stopped;
            LoopAction::Release
        } else {
            self.phase = Phase::Executing { receipt };
            LoopAction::Deliver
        }
    }

    /// The outcome of the task in flight has been applied: the loop is idle.
    pub fn attempt_applied(&mut self)
        requires
            old(self).phase is Executing,
        ensures
            final(self).phase == Phase::Idle,
            final(self).consecutive_errors == old(self).consecutive_errors,
            final(self).error_limit == old(self).error_limit,
            final(self).policy == old(self).policy,
    {
        self.phase = Phase::Idle;
    }

    /// A backend call succeeded: the run of errors is broken.
    pub fn backend_ok(&mut self)
        ensures
            final(self).consecutive_errors == 0,
            final(self).phase == old(self).phase,
            final(self).error_limit == old(self).error_limit,
            final(self).policy == old(self).policy,
    {
        self.consecutive_errors = 0;
    }

    /// A backend call failed. Once `error_limit` errors have come in a row the
    /// loop gives up; before that it backs off as a task retry would, or,
    /// under shutdown and with no task in flight, stops.
    pub fn backend_error(&mut self, shutting_down: bool) -> (r: LoopAction)
        ensures
            final(self).consecutive_errors == (if old(self).consecutive_errors < u32::MAX {
                old(self).consecutive_errors + 1
            } else {
                old(self).consecutive_errors as int
            }),
            final(self).error_limit == old(self).error_limit,
            final(self).policy == old(self).policy,
            r == (if final(self).consecutive_errors >= old(self).error_limit {
                LoopAction::Fatal
            } else if shutting_down && !(old(self).phase is Executing) {
                LoopAction::Stop
            } else {
                LoopAction::BackOff {
                    delay: nominal_delay(
                        old(self).policy.base_delay as nat,
                        old(self).policy.max_delay as nat,
                        (final(self).consecutive_errors - 1) as nat,
                    ) as u64,
                }
            }),
            final(self).phase == (if r == LoopAction::Stop { Phase::Stopped } else { old(self).phase }),
    {
        if self.consecutive_errors < u32::MAX {
            self.consecutive_errors = self.consecutive_errors + 1;
        }
        let executing = match self.phase {
            Phase::Executing { .. } => true,
            _ => false,
        };
        if self.consecutive_errors >= self.error_limit {
            LoopAction::Fatal
        } else if shutting_down && !executing {
            self.phase = Phase::Stopped;
            LoopAction::Stop
        } else {
            let d = backoff_delay(self.policy.base_delay, self.policy.max_delay, self.consecutive_errors - 1);
            LoopAction::BackOff { delay: d }
        }
    }
}

} // verus!
