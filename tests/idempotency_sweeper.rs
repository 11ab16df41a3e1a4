use svix_server::idempotency::{wait_timed_out, Decision, IdempotencyCache, Response};
use svix_server::sweeper::{after_batch, sweep_batch, ExpirableRecord, SweepAction};

fn token(s: &str) -> Vec<u8> {
    s.as_bytes().to_vec()
}

#[test]
fn same_token_runs_once_and_replays() {
    let mut c = IdempotencyCache::new();
    let k = token("abc");
    let mut executed = 0;
    // first call at 0 ms, second 10 ms later while the first runs for 200 ms
    match c.begin(Some(&k), 0, 30000) {
        Decision::Execute => executed += 1,
        _ => panic!("first call must run"),
    }
    assert!(matches!(c.begin(Some(&k), 10, 30000), Decision::Wait));
    c.finish(&k, Some(Response { status: 201, body: token("{\"id\":1}") }), 200, 3600000);
    match c.begin(Some(&k), 210, 30000) {
        Decision::Replay(r) => {
            assert_eq!(r.status, 201);
            assert_eq!(r.body, token("{\"id\":1}"));
        }
        _ => panic!("the waiting call must see the stored response"),
    }
    assert_eq!(executed, 1);
}

#[test]
fn many_duplicates_never_execute() {
    let mut c = IdempotencyCache::new();
    let k = token("dup");
    assert!(matches!(c.begin(Some(&k), 0, 1000), Decision::Execute));
    for t in 1..1000u64 {
        assert!(matches!(c.begin(Some(&k), t, 1000), Decision::Wait));
    }
    c.finish(&k, Some(Response { status: 200, body: token("ok") }), 999, 5000);
    for t in 1000..1100u64 {
        match c.begin(Some(&k), t, 1000) {
            Decision::Replay(r) => assert_eq!((r.status, r.body), (200, token("ok"))),
            _ => panic!("expected replay"),
        }
    }
}

#[test]
fn no_token_always_executes() {
    let mut c = IdempotencyCache::new();
    for t in 0..5u64 {
        assert!(matches!(c.begin(None, t, 1000), Decision::Execute));
    }
    assert_eq!(c.entries.len(), 0);
}

#[test]
fn disabled_cache_never_deduplicates() {
    let mut c = IdempotencyCache::disabled();
    let k = token("abc");
    for t in 0..3u64 {
        assert!(matches!(c.begin(Some(&k), t, 1000), Decision::Execute));
    }
    c.finish(&k, Some(Response { status: 201, body: token("x") }), 3, 1000);
    assert!(matches!(c.begin(Some(&k), 4, u64::MAX), Decision::Execute));
    assert_eq!(c.entries.len(), 0);
}

#[test]
fn failure_clears_marker() {
    let mut c = IdempotencyCache::new();
    let k = token("retry-me");
    assert!(matches!(c.begin(Some(&k), 0, 1000), Decision::Execute));
    c.finish(&k, None, 5, 1000);
    assert_eq!(c.entries.len(), 0);
    assert!(matches!(c.begin(Some(&k), 6, 1000), Decision::Execute));
}

#[test]
fn expired_marker_lets_next_call_run() {
    let mut c = IdempotencyCache::new();
    let k = token("stale");
    let other = token("other");
    assert!(matches!(c.begin(Some(&k), 0, 100), Decision::Execute));
    assert!(matches!(c.begin(Some(&other), 0, 100), Decision::Execute));
    assert!(matches!(c.begin(Some(&k), 99, 100), Decision::Wait));
    assert!(matches!(c.begin(Some(&k), 100, 100), Decision::Execute));
    assert_eq!(c.entries.len(), 2);
    c.finish(&k, Some(Response { status: 200, body: Vec::new() }), 150, 10);
    assert!(matches!(c.begin(Some(&k), 160, 100), Decision::Execute));
}

fn rec(id: u64, expires_at: u64) -> ExpirableRecord {
    ExpirableRecord { id, expires_at }
}

#[test]
fn sweep_deletes_expired_in_batches() {
    let mut v = vec![rec(1, 5), rec(2, 50), rec(3, 7), rec(4, 9), rec(5, 10)];
    assert_eq!(sweep_batch(&mut v, 10, 2), 2);
    assert_eq!(v, vec![rec(2, 50), rec(4, 9), rec(5, 10)]);
    assert_eq!(after_batch(2, 2, false), SweepAction::NextBatch);
    assert_eq!(sweep_batch(&mut v, 10, 2), 1);
    assert_eq!(v, vec![rec(2, 50), rec(5, 10)]);
    assert_eq!(after_batch(1, 2, false), SweepAction::Sleep);
    assert_eq!(after_batch(2, 2, true), SweepAction::Stop);
}

#[test]
fn sweep_twice_is_noop() {
    let mut v = vec![rec(1, 1), rec(2, 100), rec(3, 2)];
    assert_eq!(sweep_batch(&mut v, 50, 10), 2);
    let after = v.clone();
    assert_eq!(sweep_batch(&mut v, 50, 10), 0);
    assert_eq!(v, after);
    // later, with nothing expired in between
    assert_eq!(sweep_batch(&mut v, 99, 10), 0);
    assert_eq!(v, after);
    assert_eq!(v, vec![rec(2, 100)]);
}

#[test]
fn sweep_empty_and_zero_limit() {
    let mut v: Vec<ExpirableRecord> = Vec::new();
    assert_eq!(sweep_batch(&mut v, 50, 10), 0);
    let mut w = vec![rec(1, 1)];
    assert_eq!(sweep_batch(&mut w, 50, 0), 0);
    assert_eq!(w.len(), 1);
}

#[test]
fn waiting_gives_up_after_timeout() {
    assert!(!wait_timed_out(100, 150, 100));
    assert!(wait_timed_out(100, 200, 100));
    assert!(wait_timed_out(100, 500, 100));
    assert!(!wait_timed_out(100, 50, 10));
}
