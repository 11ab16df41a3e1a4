//! In-process leased queue: messages become visible at a time, a dequeue
//! leases a visible message until a deadline, and an acknowledged message
//! is gone for good. Times are milliseconds.
use vstd::prelude::*;

verus! {

/// What a delivery task carries: the endpoint to call and the payload to send.
#[derive(Clone, Copy, PartialEq, Eq, Structural, Debug)]
pub struct DispatchTask {
    pub endpoint_id: u64,
    pub payload_id: u64,
}

/// A queued message: its receipt `id`, the task, the time from which it may be
/// handed out, and how many delivery attempts it was leased for.
#[derive(Clone, Copy, PartialEq, Eq, Structural, Debug)]
pub struct QueueMessage {
    pub id: u64,
    pub task: DispatchTask,
    pub visible_at: u64,
    pub attempts: u32,
}

/// Outcome of handing a message back for a retry.
#[derive(Clone, Copy, PartialEq, Eq, Structural, Debug)]
pub enum NackOutcome {
    /// The message will be visible again after the delay.
    Requeued,
    /// The message passed the attempt ceiling and went to the dead letters.
    DeadLettered,
    /// No live message has that receipt.
    Unknown,
}

pub struct MemoryQueue {
    pub messages: Vec<QueueMessage>,
    pub dead_letters: Vec<QueueMessage>,
    pub next_id: u64,
    pub max_attempts: u32,
}

pub open spec fn unique_ids(s: Seq<QueueMessage>) -> bool {
    forall|i: int, j: int| 0 <= i < s.len() && 0 <= j < s.len() && i != j ==> s[i].id != s[j].id
}

pub open spec fn has_id(s: Seq<QueueMessage>, id: u64) -> bool {
    exists|i: int| 0 <= i < s.len() && s[i].id == id
}

/// Index `i` holds the first message that is visible at `now`.
pub open spec fn first_visible_at(s: Seq<QueueMessage>, now: u64, i: int) -> bool {
    &&& 0 <= i < s.len()
    &&& s[i].visible_at <= now
    &&& forall|j: int| 0 <= j < i ==> s[j].visible_at > now
}

pub open spec fn none_visible(s: Seq<QueueMessage>, now: u64) -> bool {
    forall|j: int| 0 <= j < s.len() ==> s[j].visible_at > now
}

/// The message `m` leased until `until`, with the delivery attempt that the
/// lease is for counted.
pub open spec fn leased(m: QueueMessage, until: u64) -> QueueMessage {
    QueueMessage { visible_at: until, attempts: (m.attempts + 1) as u32, ..m }
}

/// What a dequeue hands out.
#[derive(Clone, Copy, PartialEq, Eq, Structural, Debug)]
pub enum Dequeued {
    /// No message is visible.
    Empty,
    /// A message leased for one more delivery attempt.
    Leased(QueueMessage),
    /// The first visible message had used up its attempts (its last lease ran
    /// out unacknowledged): it moved to the dead letters instead.
    DeadLettered(QueueMessage),
}

/// `q1` is `q0` after acknowledging receipt `id`: the message is removed if
/// it is live, and nothing changes otherwise.
pub open spec fn acked(q0: MemoryQueue, q1: MemoryQueue, id: u64) -> bool {
    &&& !has_id(q0.messages@, id) ==> q1.messages@ == q0.messages@
    &&& has_id(q0.messages@, id) ==> exists|i: int|
        0 <= i < q0.messages@.len() && q0.messages@[i].id == id
        && q1.messages@ == q0.messages@.remove(i)
    &&& q1.dead_letters@ == q0.dead_letters@
}

/// `q1` is `q0` after handing receipt `id` back at `now` with `delay`, with
/// outcome `r`.
pub open spec fn handed_back(q0: MemoryQueue, q1: MemoryQueue, id: u64, now: u64, delay: u64, r: NackOutcome) -> bool {
    &&& (r == NackOutcome::Unknown) <==> !has_id(q0.messages@, id)
    &&& r == NackOutcome::Unknown ==> q1.messages@ == q0.messages@
        && q1.dead_letters@ == q0.dead_letters@
    &&& r != NackOutcome::Unknown ==> exists|i: int|
        0 <= i < q0.messages@.len() && q0.messages@[i].id == id && {
            let m = q0.messages@[i];
            if m.attempts >= q0.max_attempts {
                &&& r == NackOutcome::DeadLettered
                &&& q1.messages@ == q0.messages@.remove(i)
                &&& q1.dead_letters@ == q0.dead_letters@.push(m)
            } else {
                &&& r == NackOutcome::Requeued
                &&& q1.messages@ == q0.messages@.update(i, QueueMessage { visible_at: (now + delay) as u64, ..m })
                &&& q1.dead_letters@ == q0.dead_letters@
            }
        }
}

impl MemoryQueue {
    /// Receipts are unique and below the next one to be given out; no live
    /// message has passed the attempt ceiling.
    pub open spec fn wf(&self) -> bool {
        &&& unique_ids(self.messages@)
        &&& forall|i: int| 0 <= i < self.messages@.len() ==> self.messages@[i].id < self.next_id
        &&& forall|i: int|
            0 <= i < self.messages@.len() ==> self.messages@[i].attempts <= self.max_attempts
    }

    pub fn new(max_attempts: u32) -> (r: MemoryQueue)
        ensures
            r.wf(),
            r.messages@.len() == 0,
            r.dead_letters@.len() == 0,
            r.next_id == 0,
            r.max_attempts == max_attempts,
    {
        MemoryQueue { messages: Vec::new(), dead_letters: Vec::new(), next_id: 0, max_attempts }
    }

    /// Adds `task`, visible from `now + delay`; returns its receipt.
    pub fn enqueue(&mut self, task: DispatchTask, now: u64, delay: u64) -> (r: u64)
        requires
            old(self).wf(),
            old(self).next_id < u64::MAX,
            now + delay <= u64::MAX,
        ensures
            final(self).wf(),
            r == old(self).next_id,
            !has_id(old(self).messages@, r),
            final(self).next_id == old(self).next_id + 1,
            final(self).messages@ == old(self).messages@.push(
                QueueMessage { id: r, task, visible_at: (now + delay) as u64, attempts: 0 },
            ),
            final(self).dead_letters@ == old(self).dead_letters@,
            final(self).max_attempts == old(self).max_attempts,
    {
        let id = self.next_id;
        let m = QueueMessage { id, task, visible_at: now + delay, attempts: 0 };
        self.messages.push(m);
        self.next_id = id + 1;
        id
    }

    /// Position of the live message with receipt `id`, if any.
    fn position(&self, id: u64) -> (r: Option<usize>)
        requires
            self.wf(),
        ensures
            r is None <==> !has_id(self.messages@, id),
            r matches Some(i) ==> i < self.messages@.len() && self.messages@[i as int].id == id,
    {
        let mut i: usize = 0;
        while i < self.messages.len()
            invariant
                i <= self.messages@.len(),
                forall|j: int| 0 <= j < i ==> self.messages@[j].id != id,
            decreases self.messages@.len() - i,
        {
            if self.messages[i].id == id {
                return Some(i);
            }
            i = i + 1;
        }
        None
    }

    /// Takes the first message visible at `now`. If it has attempts left it
    /// is leased until `now + lease` for one more attempt and handed out;
    /// otherwise it moves to the dead letters. `Empty` when none is visible.
    pub fn dequeue(&mut self, now: u64, lease: u64) -> (r: Dequeued)
        requires
            old(self).wf(),
            now + lease <= u64::MAX,
        ensures
            final(self).wf(),
            r is Empty <==> none_visible(old(self).messages@, now),
            r is Empty ==> final(self).messages@ == old(self).messages@
                && final(self).dead_letters@ == old(self).dead_letters@,
            r matches Dequeued::Leased(m) ==> exists|i: int|
                first_visible_at(old(self).messages@, now, i)
                && old(self).messages@[i].attempts < old(self).max_attempts
                && m == leased(old(self).messages@[i], (now + lease) as u64)
                && final(self).messages@ == old(self).messages@.update(i, m)
                && final(self).dead_letters@ == old(self).dead_letters@,
            r matches Dequeued::DeadLettered(m) ==> exists|i: int|
                first_visible_at(old(self).messages@, now, i)
                && old(self).messages@[i].attempts >= old(self).max_attempts
                && m == old(self).messages@[i]
                && final(self).messages@ == old(self).messages@.remove(i)
                && final(self).dead_letters@ == old(self).dead_letters@.push(m),
            final(self).next_id == old(self).next_id,
            final(self).max_attempts == old(self).max_attempts,
    {
        let mut i: usize = 0;
        while i < self.messages.len()
            invariant
                self.wf(),
                *self == *old(self),
                now + lease <= u64::MAX,
                i <= self.messages@.len(),
                forall|j: int| 0 <= j < i ==> self.messages@[j].visible_at > now,
            decreases self.messages@.len() - i,
        {
            let m = self.messages[i];
            if m.visible_at <= now {
                assert(first_visible_at(old(self).messages@, now, i as int));
                if m.attempts >= self.max_attempts {
                    self.messages.remove(i);
                    assert(forall|k: int| 0 <= k < self.messages@.len() ==>
                        #[trigger] self.messages@[k] == old(self).messages@[if k < i { k } else { k + 1 }]);
                    self.dead_letters.push(m);
                    return Dequeued::DeadLettered(m);
                }
                let until: u64 = now + lease;
                let lm = QueueMessage { visible_at: until, attempts: m.attempts + 1, ..m };
                self.messages.set(i, lm);
                return Dequeued::Leased(lm);
            }
            i = i + 1;
        }
        Dequeued::Empty
    }

    /// Gives back, undelivered, the lease on receipt `id` (a worker that saw
    /// shutdown before it began the delivery): the message is visible again
    /// at `now` and the attempt the lease was for is not counted.
    pub fn release(&mut self, id: u64, now: u64) -> (r: bool)
        requires
            old(self).wf(),
        ensures
            final(self).wf(),
            r == has_id(old(self).messages@, id),
            !r ==> final(self).messages@ == old(self).messages@,
            r ==> exists|i: int|
                0 <= i < old(self).messages@.len() && old(self).messages@[i].id == id
                && final(self).messages@ == old(self).messages@.update(i, QueueMessage {
                    visible_at: now,
                    attempts: if old(self).messages@[i].attempts > 0 {
                        (old(self).messages@[i].attempts - 1) as u32
                    } else {
                        0
                    },
                    ..old(self).messages@[i]
                }),
            final(self).dead_letters@ == old(self).dead_letters@,
            final(self).next_id == old(self).next_id,
            final(self).max_attempts == old(self).max_attempts,
    {
        match self.position(id) {
            None => false,
            Some(i) => {
                let m = self.messages[i];
                let attempts: u32 = if m.attempts > 0 { m.attempts - 1 } else { 0 };
                self.messages.set(i, QueueMessage { visible_at: now, attempts, ..m });
                true
            },
        }
    }

    /// Removes the message with receipt `id` for good; a receipt that is not
    /// live (already acknowledged) leaves the queue as it was.
    pub fn ack(&mut self, id: u64) -> (r: bool)
        requires
            old(self).wf(),
        ensures
            final(self).wf(),
            r == has_id(old(self).messages@, id),
            acked(*old(self), *final(self), id),
            !has_id(final(self).messages@, id),
            final(self).dead_letters@ == old(self).dead_letters@,
            final(self).next_id == old(self).next_id,
            final(self).max_attempts == old(self).max_attempts,
    {
        match self.position(id) {
            None => false,
            Some(i) => {
                self.messages.remove(i);
                assert(forall|k: int| 0 <= k < self.messages@.len() ==>
                    #[trigger] self.messages@[k] == old(self).messages@[if k < i { k } else { k + 1 }]);
                true
            },
        }
    }

    /// Hands the message with receipt `id` back after a failed attempt: it is
    /// visible again from `now + delay`, unless it has used up its attempts,
    /// in which case it moves to the dead letters.
    pub fn nack_or_delay(&mut self, id: u64, now: u64, delay: u64) -> (r: NackOutcome)
        requires
            old(self).wf(),
            now + delay <= u64::MAX,
        ensures
            final(self).wf(),
            handed_back(*old(self), *final(self), id, now, delay, r),
            final(self).next_id == old(self).next_id,
            final(self).max_attempts == old(self).max_attempts,
    {
        match self.position(id) {
            None => NackOutcome::Unknown,
            Some(i) => {
                let m = self.messages[i];
                if m.attempts >= self.max_attempts {
                    self.messages.remove(i);
                    assert(forall|k: int| 0 <= k < self.messages@.len() ==>
                        #[trigger] self.messages@[k] == old(self).messages@[if k < i { k } else { k + 1 }]);
                    self.dead_letters.push(m);
                    NackOutcome::DeadLettered
                } else {
                    let until: u64 = now + delay;
                    self.messages.set(i, QueueMessage { visible_at: until, ..m });
                    NackOutcome::Requeued
                }
            },
        }
    }
}

/// A dequeue at `now` leases the message it hands out until `now + lease`,
/// and counts one more delivery attempt on it.
pub proof fn lemma_dequeue_leases(s: Seq<QueueMessage>, now: u64, lease: u64, i: int)
    requires
        first_visible_at(s, now, i),
        now + lease <= u64::MAX,
        s[i].attempts < u32::MAX,
    ensures
        s.update(i, leased(s[i], (now + lease) as u64))[i].visible_at == now + lease,
        s.update(i, leased(s[i], (now + lease) as u64))[i].attempts == s[i].attempts + 1,
        s.update(i, leased(s[i], (now + lease) as u64))[i].id == s[i].id,
{
}

/// While a message's lease runs (its `visible_at` is still ahead), a dequeue
/// does not hand it out and leaves it as it is, lease included; so across
/// any number of dequeues before the lease ends, no one else receives it.
pub proof fn lemma_lease_exclusive(s: Seq<QueueMessage>, i: int, t: u64, lease: u64, j: int)
    requires
        0 <= i < s.len(),
        t < s[i].visible_at,
        t + lease <= u64::MAX,
        first_visible_at(s, t, j),
    ensures
        j != i,
        s.update(j, leased(s[j], (t + lease) as u64))[i] == s[i],
{
}

/// A leased message that is never acknowledged stays in the queue and is
/// visible again once its lease has run out, so a dequeue from then on
/// hands out a message.
pub proof fn lemma_redelivered_after_lease(
    s: Seq<QueueMessage>,
    now: u64,
    lease: u64,
    i: int,
    t: u64,
)
    requires
        first_visible_at(s, now, i),
        now + lease <= u64::MAX,
        t >= now + lease,
    ensures
        has_id(s.update(i, leased(s[i], (now + lease) as u64)), s[i].id),
        s.update(i, leased(s[i], (now + lease) as u64))[i].visible_at <= t,
        !none_visible(s.update(i, leased(s[i], (now + lease) as u64)), t),
{
    let s2 = s.update(i, leased(s[i], (now + lease) as u64));
    assert(s2[i].id == s[i].id);
    assert(s2[i].visible_at <= t);
}

/// Acknowledging twice is acknowledging once: after an acknowledgment the
/// receipt is no longer live, so a second one changes nothing.
pub proof fn lemma_ack_idempotent(s: Seq<QueueMessage>, id: u64, i: int)
    requires
        unique_ids(s),
        0 <= i < s.len(),
        s[i].id == id,
    ensures
        !has_id(s.remove(i), id),
{
    assert forall|k: int| 0 <= k < s.remove(i).len() implies s.remove(i)[k].id != id by {
        if k < i {
            assert(s.remove(i)[k] == s[k]);
        } else {
            assert(s.remove(i)[k] == s[k + 1]);
        }
    }
}

} // verus!
