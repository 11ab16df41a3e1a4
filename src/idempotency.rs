//! The idempotency layer's cache protocol. A write that carries a token runs
//! at most once while the token's record lives: the first call takes an
//! in-flight marker and runs the operation, later calls wait while the marker
//! stands and then replay the stored response. A failed operation clears the
//! marker so that the caller may retry. Times are milliseconds.
use vstd::prelude::*;

verus! {

/// A finished response: status code and body.
pub struct Response {
    pub status: u16,
    pub body: Vec<u8>,
}

/// What is stored under a token: the in-flight marker, or the response.
pub enum Slot {
    InFlight,
    Done(Response),
}

pub struct CacheEntry {
    pub key: Vec<u8>,
    pub slot: Slot,
    pub expires_at: u64,
}

/// A record as the contracts see it: the response, `None` while in flight.
pub struct RecordView {
    pub response: Option<(u16, Seq<u8>)>,
    pub expires_at: u64,
}

/// What the caller of a write does next.
pub enum Decision {
    /// Run the operation (and, with a token, report its outcome to `finish`).
    Execute,
    /// Another call with the same token is running: poll again later.
    Wait,
    /// The operation already ran: answer with its response.
    Replay(Response),
}

/// A decision as the contracts see it.
pub enum Answer {
    Execute,
    Wait,
    Replay(u16, Seq<u8>),
}

pub open spec fn answer_of(d: Decision) -> Answer {
    match d {
        Decision::Execute => Answer::Execute,
        Decision::Wait => Answer::Wait,
        Decision::Replay(r) => Answer::Replay(r.status, r.body@),
    }
}

pub open spec fn token_of(key: Option<&Vec<u8>>) -> Option<Seq<u8>> {
    match key {
        Some(k) => Some(k@),
        None => None,
    }
}

/// The records after a call that carries `key` arrives at `now`, and the
/// answer to it.
pub open spec fn begin_spec(
    m: Map<Seq<u8>, RecordView>,
    key: Option<Seq<u8>>,
    now: u64,
    ttl: u64,
) -> (Map<Seq<u8>, RecordView>, Answer) {
    match key {
        None => (m, Answer::Execute),
        Some(k) => match live(m, k, now) {
            None => (
                m.insert(k, RecordView { response: None, expires_at: (now + ttl) as u64 }),
                Answer::Execute,
            ),
            Some(rec) => match rec.response {
                None => (m, Answer::Wait),
                Some(resp) => (m, Answer::Replay(resp.0, resp.1)),
            },
        },
    }
}

/// The answers to calls arriving at `times`, all carrying `key`, with no
/// write finishing in between.
pub open spec fn answers(
    m: Map<Seq<u8>, RecordView>,
    key: Option<Seq<u8>>,
    times: Seq<u64>,
    ttl: u64,
) -> Seq<Answer>
    decreases times.len(),
{
    if times.len() == 0 {
        Seq::empty()
    } else {
        let (m1, a) = begin_spec(m, key, times[0], ttl);
        seq![a] + answers(m1, key, times.drop_first(), ttl)
    }
}

/// How many of `ans` let the operation run.
pub open spec fn executions(ans: Seq<Answer>) -> nat
    decreases ans.len(),
{
    if ans.len() == 0 {
        0
    } else {
        (if ans[0] is Execute { 1nat } else { 0nat }) + executions(ans.drop_first())
    }
}

pub open spec fn slot_view(s: Slot) -> Option<(u16, Seq<u8>)> {
    match s {
        Slot::InFlight => None,
        Slot::Done(r) => Some((r.status, r.body@)),
    }
}

pub open spec fn entry_view(e: CacheEntry) -> RecordView {
    RecordView { response: slot_view(e.slot), expires_at: e.expires_at }
}

pub open spec fn keys_unique(s: Seq<CacheEntry>) -> bool {
    forall|i: int, j: int| 0 <= i < s.len() && 0 <= j < s.len() && i != j ==> s[i].key@ != s[j].key@
}

pub open spec fn entries_map(s: Seq<CacheEntry>) -> Map<Seq<u8>, RecordView> {
    Map::new(
        |k: Seq<u8>| exists|i: int| 0 <= i < s.len() && s[i].key@ == k,
        |k: Seq<u8>| entry_view(s[choose|i: int| 0 <= i < s.len() && s[i].key@ == k]),
    )
}

/// The record under `k` that is still alive at `now`.
pub open spec fn live(m: Map<Seq<u8>, RecordView>, k: Seq<u8>, now: u64) -> Option<RecordView> {
    if m.contains_key(k) && m[k].expires_at > now { Some(m[k]) } else { None }
}

proof fn lemma_map_at(s: Seq<CacheEntry>, i: int)
    requires
        keys_unique(s),
        0 <= i < s.len(),
    ensures
        entries_map(s).contains_key(s[i].key@),
        entries_map(s)[s[i].key@] == entry_view(s[i]),
{
    let k = s[i].key@;
    assert(exists|j: int| 0 <= j < s.len() && s[j].key@ == k);
    let c = choose|j: int| 0 <= j < s.len() && s[j].key@ == k;
    assert(c == i);
}

proof fn lemma_map_update(s: Seq<CacheEntry>, i: int, e: CacheEntry)
    requires
        keys_unique(s),
        0 <= i < s.len(),
        e.key@ == s[i].key@,
    ensures
        keys_unique(s.update(i, e)),
        entries_map(s.update(i, e)) == entries_map(s).insert(e.key@, entry_view(e)),
{
    let t = s.update(i, e);
    assert(keys_unique(t)) by {
        assert forall|a: int, b: int| 0 <= a < t.len() && 0 <= b < t.len() && a != b implies t[a].key@ != t[b].key@ by {
            assert(t[a].key@ == s[a].key@);
            assert(t[b].key@ == s[b].key@);
        }
    }
    assert forall|k: Seq<u8>| #![auto] entries_map(t).contains_key(k) == entries_map(s).insert(e.key@, entry_view(e)).contains_key(k) by {
        if exists|j: int| 0 <= j < s.len() && s[j].key@ == k {
            let j = choose|j: int| 0 <= j < s.len() && s[j].key@ == k;
            assert(t[j].key@ == k);
        }
        if exists|j: int| 0 <= j < t.len() && t[j].key@ == k {
            let j = choose|j: int| 0 <= j < t.len() && t[j].key@ == k;
            assert(s[j].key@ == k);
        }
    }
    assert forall|k: Seq<u8>| #[trigger] entries_map(t).contains_key(k) implies entries_map(t)[k] == entries_map(s).insert(e.key@, entry_view(e))[k] by {
        let j = choose|j: int| 0 <= j < t.len() && t[j].key@ == k;
        lemma_map_at(t, j);
        if j != i {
            lemma_map_at(s, j);
        }
    }
    assert(entries_map(t) =~= entries_map(s).insert(e.key@, entry_view(e)));
}

proof fn lemma_map_push(s: Seq<CacheEntry>, e: CacheEntry)
    requires
        keys_unique(s),
        !entries_map(s).contains_key(e.key@),
    ensures
        keys_unique(s.push(e)),
        entries_map(s.push(e)) == entries_map(s).insert(e.key@, entry_view(e)),
{
    let t = s.push(e);
    assert(keys_unique(t)) by {
        assert forall|a: int, b: int| 0 <= a < t.len() && 0 <= b < t.len() && a != b implies t[a].key@ != t[b].key@ by {
            if a < s.len() && b < s.len() {
                assert(t[a] == s[a] && t[b] == s[b]);
            } else if a < s.len() {
                assert(t[a] == s[a]);
            } else {
                assert(t[b] == s[b]);
            }
        }
    }
    assert forall|k: Seq<u8>| #![auto] entries_map(t).contains_key(k) == entries_map(s).insert(e.key@, entry_view(e)).contains_key(k) by {
        if exists|j: int| 0 <= j < s.len() && s[j].key@ == k {
            let j = choose|j: int| 0 <= j < s.len() && s[j].key@ == k;
            assert(t[j].key@ == k);
        }
        if k == e.key@ {
            assert(t[s.len() as int].key@ == k);
        }
        if exists|j: int| 0 <= j < t.len() && t[j].key@ == k {
            let j = choose|j: int| 0 <= j < t.len() && t[j].key@ == k;
            if j < s.len() {
                assert(s[j].key@ == k);
            }
        }
    }
    assert forall|k: Seq<u8>| #[trigger] entries_map(t).contains_key(k) implies entries_map(t)[k] == entries_map(s).insert(e.key@, entry_view(e))[k] by {
        let j = choose|j: int| 0 <= j < t.len() && t[j].key@ == k;
        lemma_map_at(t, j);
        if j < s.len() {
            assert(t[j] == s[j]);
            lemma_map_at(s, j);
        }
    }
    assert(entries_map(t) =~= entries_map(s).insert(e.key@, entry_view(e)));
}

proof fn lemma_map_remove(s: Seq<CacheEntry>, i: int)
    requires
        keys_unique(s),
        0 <= i < s.len(),
    ensures
        keys_unique(s.remove(i)),
        entries_map(s.remove(i)) == entries_map(s).remove(s[i].key@),
{
    let t = s.remove(i);
    assert forall|a: int| 0 <= a < t.len() implies #[trigger] t[a] == s[if a < i { a } else { a + 1 }] by {}
    assert(keys_unique(t)) by {
        assert forall|a: int, b: int| 0 <= a < t.len() && 0 <= b < t.len() && a != b implies t[a].key@ != t[b].key@ by {
            assert(t[a] == s[if a < i { a } else { a + 1 }]);
            assert(t[b] == s[if b < i { b } else { b + 1 }]);
        }
    }
    let k0 = s[i].key@;
    assert forall|k: Seq<u8>| #![auto] entries_map(t).contains_key(k) == entries_map(s).remove(k0).contains_key(k) by {
        if exists|j: int| 0 <= j < s.len() && s[j].key@ == k {
            let j = choose|j: int| 0 <= j < s.len() && s[j].key@ == k;
            if j < i {
                assert(t[j] == s[j]);
            } else if j > i {
                assert(t[j - 1] == s[j]);
            }
        }
        if exists|j: int| 0 <= j < t.len() && t[j].key@ == k {
            let j = choose|j: int| 0 <= j < t.len() && t[j].key@ == k;
            let js = if j < i { j } else { j + 1 };
            assert(s[js].key@ == k);
        }
    }
    assert forall|k: Seq<u8>| #[trigger] entries_map(t).contains_key(k) implies entries_map(t)[k] == entries_map(s).remove(k0)[k] by {
        let j = choose|j: int| 0 <= j < t.len() && t[j].key@ == k;
        lemma_map_at(t, j);
        let js = if j < i { j } else { j + 1 };
        assert(t[j] == s[js]);
        lemma_map_at(s, js);
    }
    assert(entries_map(t) =~= entries_map(s).remove(k0));
}

fn bytes_eq(a: &Vec<u8>, b: &Vec<u8>) -> (r: bool)
    ensures
        r == (a@ == b@),
{
    if a.len() != b.len() {
        return false;
    }
    let mut i: usize = 0;
    while i < a.len()
        invariant
            a@.len() == b@.len(),
            i <= a@.len(),
            forall|j: int| 0 <= j < i ==> a@[j] == b@[j],
        decreases a@.len() - i,
    {
        if a[i] != b[i] {
            return false;
        }
        i = i + 1;
    }
    assert(a@ =~= b@);
    true
}

fn copy_bytes(b: &Vec<u8>) -> (r: Vec<u8>)
    ensures
        r@ == b@,
{
    let mut r: Vec<u8> = Vec::new();
    let mut i: usize = 0;
    while i < b.len()
        invariant
            i <= b@.len(),
            r@ == b@.subrange(0, i as int),
        decreases b@.len() - i,
    {
        r.push(b[i]);
        i = i + 1;
        assert(r@ =~= b@.subrange(0, i as int));
    }
    assert(r@ =~= b@);
    r
}

/// The records of one idempotency window, one per token. With the cache
/// backend set to none (`enabled` false) nothing is recorded and every call
/// runs.
pub struct IdempotencyCache {
    pub enabled: bool,
    pub entries: Vec<CacheEntry>,
}

/// The token that deduplication goes by: none when it is switched off.
pub open spec fn effective_token(enabled: bool, key: Option<Seq<u8>>) -> Option<Seq<u8>> {
    if enabled { key } else { None }
}

impl IdempotencyCache {
    pub open spec fn wf(&self) -> bool {
        keys_unique(self.entries@)
    }

    pub open spec fn view(&self) -> Map<Seq<u8>, RecordView> {
        entries_map(self.entries@)
    }

    /// An empty cache that deduplicates.
    pub fn new() -> (r: IdempotencyCache)
        ensures
            r.wf(),
            r.enabled,
            r.view() == Map::<Seq<u8>, RecordView>::empty(),
    {
        let r = IdempotencyCache { enabled: true, entries: Vec::new() };
        assert(r.view() =~= Map::<Seq<u8>, RecordView>::empty());
        r
    }

    /// The cache of the "none" backend: deduplication is off.
    pub fn disabled() -> (r: IdempotencyCache)
        ensures
            r.wf(),
            !r.enabled,
            r.view() == Map::<Seq<u8>, RecordView>::empty(),
    {
        let r = IdempotencyCache { enabled: false, entries: Vec::new() };
        assert(r.view() =~= Map::<Seq<u8>, RecordView>::empty());
        r
    }

    fn find(&self, key: &Vec<u8>) -> (r: Option<usize>)
        requires
            self.wf(),
        ensures
            r is None <==> !self.view().contains_key(key@),
            r matches Some(i) ==> i < self.entries@.len() && self.entries@[i as int].key@ == key@,
    {
        let mut i: usize = 0;
        while i < self.entries.len()
            invariant
                i <= self.entries@.len(),
                forall|j: int| 0 <= j < i ==> self.entries@[j].key@ != key@,
            decreases self.entries@.len() - i,
        {
            if bytes_eq(&self.entries[i].key, key) {
                return Some(i);
            }
            i = i + 1;
        }
        None
    }

    /// Stores `e` under its key, replacing whatever was there.
    fn put(&mut self, e: CacheEntry)
        requires
            old(self).wf(),
        ensures
            final(self).wf(),
            final(self).enabled == old(self).enabled,
            final(self).view() == old(self).view().insert(e.key@, entry_view(e)),
    {
        match self.find(&e.key) {
            Some(i) => {
                proof {
                    lemma_map_update(self.entries@, i as int, e);
                }
                self.entries.set(i, e);
            },
            None => {
                proof {
                    lemma_map_push(self.entries@, e);
                }
                self.entries.push(e);
            },
        }
    }

    /// Called before a write runs. Without a token, or with deduplication
    /// off, the write always runs and nothing is recorded. With one: if no record of it is alive at `now`,
    /// an in-flight marker that lives `in_flight_ttl` is taken and the write
    /// runs; a live marker means wait; a live response is replayed.
    pub fn begin(&mut self, key: Option<&Vec<u8>>, now: u64, in_flight_ttl: u64) -> (r: Decision)
        requires
            old(self).wf(),
            effective_token(old(self).enabled, token_of(key)) is Some ==> now + in_flight_ttl <= u64::MAX,
        ensures
            final(self).wf(),
            final(self).enabled == old(self).enabled,
            (final(self).view(), answer_of(r)) == begin_spec(
                old(self).view(),
                effective_token(old(self).enabled, token_of(key)),
                now,
                in_flight_ttl,
            ),
    {
        if !self.enabled {
            return Decision::Execute;
        }
        match key {
            None => Decision::Execute,
            Some(k) => {
                match self.find(k) {
                    Some(i) => {
                        proof {
                            lemma_map_at(self.entries@, i as int);
                        }
                        if self.entries[i].expires_at > now {
                            match &self.entries[i].slot {
                                Slot::InFlight => Decision::Wait,
                                Slot::Done(resp) => Decision::Replay(
                                    Response { status: resp.status, body: copy_bytes(&resp.body) },
                                ),
                            }
                        } else {
                            let until: u64 = now + in_flight_ttl;
                            self.put(CacheEntry { key: copy_bytes(k), slot: Slot::InFlight, expires_at: until });
                            Decision::Execute
                        }
                    },
                    None => {
                        let until: u64 = now + in_flight_ttl;
                        self.put(CacheEntry { key: copy_bytes(k), slot: Slot::InFlight, expires_at: until });
                        Decision::Execute
                    },
                }
            },
        }
    }

    /// Called when the write that took the marker for `key` has ended. A
    /// response is stored, alive for `ttl`; a failure (`None`) clears the
    /// marker so that a retry may run. With deduplication off nothing changes.
    pub fn finish(&mut self, key: &Vec<u8>, outcome: Option<Response>, now: u64, ttl: u64)
        requires
            old(self).wf(),
            old(self).enabled ==> now + ttl <= u64::MAX,
        ensures
            final(self).wf(),
            final(self).enabled == old(self).enabled,
            !old(self).enabled ==> final(self).view() == old(self).view(),
            old(self).enabled ==> match outcome {
                Some(resp) => final(self).view() == old(self).view().insert(
                    key@,
                    RecordView { response: Some((resp.status, resp.body@)), expires_at: (now + ttl) as u64 },
                ),
                None => final(self).view() == old(self).view().remove(key@),
            },
    {
        if !self.enabled {
            return;
        }
        match outcome {
            Some(resp) => {
                let until: u64 = now + ttl;
                self.put(CacheEntry { key: copy_bytes(key), slot: Slot::Done(resp), expires_at: until });
            },
            None => {
                match self.find(key) {
                    Some(i) => {
                        proof {
                            lemma_map_remove(self.entries@, i as int);
                        }
                        self.entries.remove(i);
                    },
                    None => {
                        assert(old(self).view().remove(key@) =~= old(self).view());
                    },
                }
            },
        }
    }
}

/// Whether a call that started waiting at `started` on another call's marker
/// gives up at `now`: once `timeout` has passed. A clock that went back
/// counts as no time passed.
pub fn wait_timed_out(started: u64, now: u64, timeout: u64) -> (r: bool)
    ensures
        r == (now >= started && now - started >= timeout),
{
    now >= started && now - started >= timeout
}

/// With a token, of any number of calls that arrive while the first one's
/// marker lives (its time first, the others before the marker expires) and
/// before it finishes, exactly the first runs the operation; all others wait.
pub proof fn lemma_single_execution(
    m: Map<Seq<u8>, RecordView>,
    k: Seq<u8>,
    times: Seq<u64>,
    ttl: u64,
)
    requires
        times.len() >= 1,
        times[0] + ttl <= u64::MAX,
        live(m, k, times[0]) is None,
        forall|i: int| 0 < i < times.len() ==> #[trigger] times[i] < times[0] + ttl,
    ensures
        executions(answers(m, Some(k), times, ttl)) == 1,
        answers(m, Some(k), times, ttl)[0] is Execute,
        forall|i: int| 0 < i < times.len() ==> answers(m, Some(k), times, ttl)[i] is Wait,
{
    let m1 = m.insert(k, RecordView { response: None, expires_at: (times[0] + ttl) as u64 });
    lemma_waiting(m1, k, times.drop_first(), (times[0] + ttl) as u64, ttl);
    let rest = answers(m1, Some(k), times.drop_first(), ttl);
    assert(answers(m, Some(k), times, ttl) == seq![Answer::Execute] + rest);
    assert(executions(seq![Answer::Execute] + rest) == 1 + executions(rest)) by {
        assert((seq![Answer::Execute] + rest).drop_first() =~= rest);
    }
}

proof fn lemma_waiting(m: Map<Seq<u8>, RecordView>, k: Seq<u8>, times: Seq<u64>, until: u64, ttl: u64)
    requires
        m.contains_key(k),
        m[k] == (RecordView { response: None, expires_at: until }),
        forall|i: int| 0 <= i < times.len() ==> times[i] < until,
    ensures
        executions(answers(m, Some(k), times, ttl)) == 0,
        answers(m, Some(k), times, ttl).len() == times.len(),
        forall|i: int| 0 <= i < times.len() ==> answers(m, Some(k), times, ttl)[i] is Wait,
    decreases times.len(),
{
    if times.len() > 0 {
        lemma_waiting(m, k, times.drop_first(), until, ttl);
        let rest = answers(m, Some(k), times.drop_first(), ttl);
        assert((seq![Answer::Wait] + rest).drop_first() =~= rest);
        assert forall|i: int| 0 < i < times.len() implies (seq![Answer::Wait] + rest)[i] == rest[i - 1] by {}
    }
}

/// Once the first call has finished with a response, every call with the
/// same token that arrives while the response lives is answered with that
/// response, and none runs the operation.
pub proof fn lemma_replay_identical(
    m: Map<Seq<u8>, RecordView>,
    k: Seq<u8>,
    status: u16,
    body: Seq<u8>,
    done_at: u64,
    ttl: u64,
    times: Seq<u64>,
    in_flight_ttl: u64,
)
    requires
        done_at + ttl <= u64::MAX,
        forall|i: int| 0 <= i < times.len() ==> times[i] < done_at + ttl,
    ensures
        ({
            let m1 = m.insert(k, RecordView { response: Some((status, body)), expires_at: (done_at + ttl) as u64 });
            &&& executions(answers(m1, Some(k), times, in_flight_ttl)) == 0
            &&& answers(m1, Some(k), times, in_flight_ttl).len() == times.len()
            &&& forall|i: int| 0 <= i < times.len() ==> answers(m1, Some(k), times, in_flight_ttl)[i] == Answer::Replay(status, body)
        }),
    decreases times.len(),
{
    let m1 = m.insert(k, RecordView { response: Some((status, body)), expires_at: (done_at + ttl) as u64 });
    if times.len() > 0 {
        lemma_replay_identical(m, k, status, body, done_at, ttl, times.drop_first(), in_flight_ttl);
        let rest = answers(m1, Some(k), times.drop_first(), in_flight_ttl);
        assert((seq![Answer::Replay(status, body)] + rest).drop_first() =~= rest);
        assert forall|i: int| 0 < i < times.len() implies (seq![Answer::Replay(status, body)] + rest)[i] == rest[i - 1] by {}
    }
}

/// Calls without a token all run the operation and record nothing, however
/// alike they are.
pub proof fn lemma_no_token_always_executes(m: Map<Seq<u8>, RecordView>, times: Seq<u64>, ttl: u64)
    ensures
        executions(answers(m, None, times, ttl)) == times.len(),
        answers(m, None, times, ttl).len() == times.len(),
        forall|i: int| 0 <= i < times.len() ==> answers(m, None, times, ttl)[i] is Execute,
    decreases times.len(),
{
    if times.len() > 0 {
        lemma_no_token_always_executes(m, times.drop_first(), ttl);
        let rest = answers(m, None, times.drop_first(), ttl);
        assert((seq![Answer::Execute] + rest).drop_first() =~= rest);
        assert forall|i: int| 0 < i < times.len() implies (seq![Answer::Execute] + rest)[i] == rest[i - 1] by {}
    }
}

} // verus!
