//! Exponential retry backoff, capped, with a bounded downward jitter.
use vstd::prelude::*;

verus! {

/// The nominal delay before the retry that follows failed attempt
/// number `attempt + 1`: `base` doubled `attempt` times, never above `cap`.
pub open spec fn nominal_delay(base: nat, cap: nat, attempt: nat) -> nat
    decreases attempt,
{
    if attempt == 0 {
        if base <= cap { base } else { cap }
    } else {
        let prev = nominal_delay(base, cap, (attempt - 1) as nat);
        if 2 * prev <= cap { 2 * prev } else { cap }
    }
}

/// Nominal delay after `attempt` doublings of `base`, capped at `cap`.
pub fn backoff_delay(base: u64, cap: u64, attempt: u32) -> (r: u64)
    ensures
        r == nominal_delay(base as nat, cap as nat, attempt as nat),
{
    let mut d: u64 = if base <= cap { base } else { cap };
    let mut i: u32 = 0;
    while i < attempt
        invariant
            i <= attempt,
            d <= cap,
            d == nominal_delay(base as nat, cap as nat, i as nat),
        decreases attempt - i,
    {
        d = if d <= cap - d { 2 * d } else { cap };
        i = i + 1;
    }
    d
}

/// `delay` lowered by `random` reduced modulo a window of a quarter of it,
/// so that retries of many tasks spread out; a delay at the cap is kept as
/// it is, so that no retry waits less than one before it.
pub open spec fn jittered(delay: nat, cap: nat, random: nat) -> int {
    if delay >= cap { delay as int } else { delay - (random % (delay / 4 + 1)) as int }
}

/// The delay actually used for a nominal `delay` under `cap`.
pub fn apply_jitter(delay: u64, cap: u64, random: u64) -> (r: u64)
    ensures
        r as int == jittered(delay as nat, cap as nat, random as nat),
        delay - delay / 4 <= r <= delay,
{
    if delay >= cap {
        delay
    } else {
        let window: u64 = delay / 4;
        delay - random % (window + 1)
    }
}

/// Delays grow with the attempt number and never pass the cap.
pub proof fn lemma_backoff_monotonic(base: nat, cap: nat, attempt: nat)
    ensures
        nominal_delay(base, cap, attempt) <= nominal_delay(base, cap, attempt + 1),
        nominal_delay(base, cap, attempt) <= cap,
{
    reveal_with_fuel(nominal_delay, 2);
}

/// Delays grow with the attempt number: between any two attempts the later
/// one waits at least as long, and neither waits longer than the cap.
pub proof fn lemma_backoff_ordered(base: nat, cap: nat, a: nat, b: nat)
    requires
        a <= b,
    ensures
        nominal_delay(base, cap, a) <= nominal_delay(base, cap, b) <= cap,
    decreases b - a,
{
    lemma_backoff_monotonic(base, cap, b);
    if a < b {
        lemma_backoff_ordered(base, cap, a, (b - 1) as nat);
        lemma_backoff_monotonic(base, cap, (b - 1) as nat);
    }
}

} // verus!
