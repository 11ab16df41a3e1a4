//! The expired-record sweeper: deletes records whose expiry time has passed,
//! a bounded batch at a time, and decides between batches whether to go on,
//! sleep, or stop for shutdown.
use vstd::prelude::*;

verus! {

/// A stored record that may be deleted once `expires_at` has passed.
#[derive(Clone, Copy, PartialEq, Eq, Structural, Debug)]
pub struct ExpirableRecord {
    pub id: u64,
    pub expires_at: u64,
}

pub open spec fn expired(r: ExpirableRecord, now: u64) -> bool {
    r.expires_at < now
}

/// `s` with its first `limit` expired records removed, the rest in order.
pub open spec fn swept(s: Seq<ExpirableRecord>, now: u64, limit: nat) -> Seq<ExpirableRecord>
    decreases s.len(),
{
    if s.len() == 0 {
        s
    } else if expired(s[0], now) && limit > 0 {
        swept(s.drop_first(), now, (limit - 1) as nat)
    } else {
        seq![s[0]] + swept(s.drop_first(), now, limit)
    }
}

proof fn lemma_swept_len(s: Seq<ExpirableRecord>, now: u64, limit: nat)
    ensures
        swept(s, now, limit).len() <= s.len(),
        s.len() - swept(s, now, limit).len() <= limit,
    decreases s.len(),
{
    if s.len() > 0 {
        lemma_swept_len(s.drop_first(), now, if expired(s[0], now) && limit > 0 { (limit - 1) as nat } else { limit });
    }
}

/// Deletes, in one batch, the first `limit` records that expired before
/// `now`; returns how many it deleted.
pub fn sweep_batch(records: &mut Vec<ExpirableRecord>, now: u64, limit: usize) -> (r: usize)
    ensures
        final(records)@ == swept(old(records)@, now, limit as nat),
        r == old(records)@.len() - final(records)@.len(),
        r <= limit,
{
    let mut out: Vec<ExpirableRecord> = Vec::new();
    let mut removed: usize = 0;
    let mut i: usize = 0;
    let ghost s = records@;
    proof {
        assert(s.subrange(0, s.len() as int) =~= s);
    }
    while i < records.len()
        invariant
            records@ == s,
            i <= s.len(),
            removed <= limit,
            removed + out@.len() == i,
            swept(s, now, limit as nat) == out@ + swept(s.subrange(i as int, s.len() as int), now, (limit - removed) as nat),
        decreases s.len() - i,
    {
        let rec = records[i];
        let ghost rest = s.subrange(i as int, s.len() as int);
        proof {
            assert(rest[0] == rec);
            assert(rest.drop_first() =~= s.subrange(i + 1, s.len() as int));
        }
        if rec.expires_at < now && removed < limit {
            removed = removed + 1;
        } else {
            out.push(rec);
            assert(swept(s, now, limit as nat) == out@ + swept(s.subrange(i + 1, s.len() as int), now, (limit - removed) as nat)) by {
                assert(out@ =~= out@.drop_last() + seq![rec]);
                assert(out@.drop_last() + (seq![rec] + swept(s.subrange(i + 1, s.len() as int), now, (limit - removed) as nat))
                    =~= out@ + swept(s.subrange(i + 1, s.len() as int), now, (limit - removed) as nat));
            }
        }
        i = i + 1;
    }
    proof {
        assert(s.subrange(i as int, s.len() as int) =~= Seq::<ExpirableRecord>::empty());
        assert(out@ + Seq::<ExpirableRecord>::empty() =~= out@);
        lemma_swept_len(s, now, limit as nat);
    }
    *records = out;
    removed
}

/// Records that have not expired are never deleted: each one is still
/// there after a batch.
pub proof fn lemma_sweep_keeps_unexpired(s: Seq<ExpirableRecord>, now: u64, limit: nat, i: int)
    requires
        0 <= i < s.len(),
        !expired(s[i], now),
    ensures
        swept(s, now, limit).contains(s[i]),
    decreases s.len(),
{
    if i == 0 {
        assert((seq![s[0]] + swept(s.drop_first(), now, limit))[0] == s[0]);
    } else {
        let l2 = if expired(s[0], now) && limit > 0 { (limit - 1) as nat } else { limit };
        lemma_sweep_keeps_unexpired(s.drop_first(), now, l2, i - 1);
        let t = swept(s.drop_first(), now, l2);
        let j = choose|j: int| 0 <= j < t.len() && t[j] == s[i];
        if !(expired(s[0], now) && limit > 0) {
            assert((seq![s[0]] + t)[j + 1] == s[i]);
        }
    }
}

/// A batch that deleted fewer than its limit left nothing expired behind.
proof fn lemma_short_batch_clears(s: Seq<ExpirableRecord>, now: u64, limit: nat)
    requires
        s.len() - swept(s, now, limit).len() < limit,
    ensures
        forall|j: int| 0 <= j < swept(s, now, limit).len() ==> !expired(#[trigger] swept(s, now, limit)[j], now),
    decreases s.len(),
{
    if s.len() > 0 {
        let l2 = if expired(s[0], now) && limit > 0 { (limit - 1) as nat } else { limit };
        lemma_swept_len(s, now, limit);
        lemma_short_batch_clears(s.drop_first(), now, l2);
        let t = swept(s.drop_first(), now, l2);
        if !(expired(s[0], now) && limit > 0) {
            assert forall|j: int| 0 <= j < (seq![s[0]] + t).len() implies !expired(#[trigger] (seq![s[0]] + t)[j], now) by {
                if j > 0 {
                    assert((seq![s[0]] + t)[j] == t[j - 1]);
                } else {
                    assert((seq![s[0]] + t)[0] == s[0]);
                }
            }
        }
    }
}

proof fn lemma_sweep_nothing_expired(s: Seq<ExpirableRecord>, now: u64, limit: nat)
    requires
        forall|j: int| 0 <= j < s.len() ==> !expired(#[trigger] s[j], now),
    ensures
        swept(s, now, limit) == s,
    decreases s.len(),
{
    if s.len() > 0 {
        lemma_sweep_nothing_expired(s.drop_first(), now, limit);
        assert(seq![s[0]] + s.drop_first() =~= s);
    }
}

proof fn lemma_swept_from(s: Seq<ExpirableRecord>, now: u64, limit: nat, j: int)
    requires
        0 <= j < swept(s, now, limit).len(),
    ensures
        s.contains(swept(s, now, limit)[j]),
    decreases s.len(),
{
    if s.len() > 0 {
        let l2 = if expired(s[0], now) && limit > 0 { (limit - 1) as nat } else { limit };
        let t = swept(s.drop_first(), now, l2);
        if expired(s[0], now) && limit > 0 {
            lemma_swept_from(s.drop_first(), now, l2, j);
            let k = choose|k: int| 0 <= k < s.drop_first().len() && s.drop_first()[k] == t[j];
            assert(s[k + 1] == t[j]);
        } else if j == 0 {
            assert((seq![s[0]] + t)[0] == s[0]);
        } else {
            lemma_swept_from(s.drop_first(), now, l2, j - 1);
            assert((seq![s[0]] + t)[j] == t[j - 1]);
            let k = choose|k: int| 0 <= k < s.drop_first().len() && s.drop_first()[k] == t[j - 1];
            assert(s[k + 1] == t[j - 1]);
        }
    }
}

/// Sweeping again when nothing new has expired deletes nothing: after a
/// batch at `now` that came back short of its limit, a batch at any `later`
/// time leaves the records as they are, as long as no record expired
/// between the two.
pub proof fn lemma_sweep_twice_noop(s: Seq<ExpirableRecord>, now: u64, limit: nat, later: u64, limit2: nat)
    requires
        s.len() - swept(s, now, limit).len() < limit,
        now <= later,
        forall|i: int| 0 <= i < s.len() ==> #[trigger] s[i].expires_at < now || s[i].expires_at >= later,
    ensures
        swept(swept(s, now, limit), later, limit2) == swept(s, now, limit),
{
    let t = swept(s, now, limit);
    lemma_short_batch_clears(s, now, limit);
    assert forall|j: int| 0 <= j < t.len() implies !expired(#[trigger] t[j], later) by {
        lemma_swept_from(s, now, limit, j);
        let k = choose|k: int| 0 <= k < s.len() && s[k] == t[j];
        assert(s[k].expires_at < now || s[k].expires_at >= later);
    }
    lemma_sweep_nothing_expired(t, later, limit2);
}

/// What the sweeper does after a batch.
#[derive(Clone, Copy, PartialEq, Eq, Structural, Debug)]
pub enum SweepAction {
    /// The batch was full: more may be left, run another now.
    NextBatch,
    /// Everything expired is gone: sleep until the next round.
    Sleep,
    /// Shutdown was requested.
    Stop,
}

/// Decides what follows a batch that deleted `removed` records of at most
/// `limit`.
pub fn after_batch(removed: usize, limit: usize, shutting_down: bool) -> (r: SweepAction)
    ensures
        r == (if shutting_down {
            SweepAction::Stop
        } else if removed >= limit {
            SweepAction::NextBatch
        } else {
            SweepAction::Sleep
        }),
{
    if shutting_down {
        SweepAction::Stop
    } else if removed >= limit {
        SweepAction::NextBatch
    } else {
        SweepAction::Sleep
    }
}

} // verus!
