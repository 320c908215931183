//! Reconnect backoff policy: exponential growth from a base delay up to a
//! cap. The scheduler is a pure function of the attempt counter; it never
//! starts a connection itself. The host starts a one-shot timer for the
//! returned delay and feeds the session a timer-fired event when it elapses.

use vstd::prelude::*;

verus! {

/// Delay before the first reconnect attempt, in milliseconds.
pub const BASE_DELAY_MS: u64 = 250;

/// Upper bound on the reconnect delay, in milliseconds.
pub const MAX_DELAY_MS: u64 = 30000;

pub open spec fn pow2(n: nat) -> nat
    decreases n,
{
    if n == 0 {
        1
    } else {
        2 * pow2((n - 1) as nat)
    }
}

/// The delay before reconnect attempt number `attempt`:
/// `BASE_DELAY_MS * 2^attempt`, capped at `MAX_DELAY_MS`.
pub open spec fn delay_spec(attempt: nat) -> nat {
    if (BASE_DELAY_MS as nat) * pow2(attempt) >= MAX_DELAY_MS {
        MAX_DELAY_MS as nat
    } else {
        (BASE_DELAY_MS as nat) * pow2(attempt)
    }
}

proof fn lemma_pow2_mono(a: nat, b: nat)
    requires
        a <= b,
    ensures
        pow2(a) <= pow2(b),
    decreases b,
{
    if a < b {
        lemma_pow2_mono(a, (b - 1) as nat);
    }
}

proof fn lemma_pow2_pos(a: nat)
    ensures
        pow2(a) >= 1,
    decreases a,
{
    if a > 0 {
        lemma_pow2_pos((a - 1) as nat);
    }
}

/// The backoff delay sequence is non-decreasing in the attempt number,
/// never exceeds the cap, and starts at the base delay.
pub proof fn lemma_delay_monotone(a: nat, b: nat)
    requires
        a <= b,
    ensures
        delay_spec(a) <= delay_spec(b),
        delay_spec(a) <= MAX_DELAY_MS,
        delay_spec(0) == BASE_DELAY_MS,
{
    lemma_pow2_mono(a, b);
    lemma_pow2_pos(a);
    assert(delay_spec(0) == BASE_DELAY_MS);
}

/// Compute the reconnect delay for the given attempt number.
pub fn next_delay(attempt: u64) -> (d: u64)
    ensures
        d == delay_spec(attempt as nat),
{
    if attempt >= 7 {
        proof {
            reveal_with_fuel(pow2, 8);
            lemma_pow2_mono(7, attempt as nat);
            assert((BASE_DELAY_MS as nat) * pow2(attempt as nat) >= 250 * 128);
        }
        MAX_DELAY_MS
    } else {
        let mut d: u64 = BASE_DELAY_MS;
        let mut k: u64 = 0;
        while k < attempt
            invariant
                k <= attempt < 7,
                d == (BASE_DELAY_MS as nat) * pow2(k as nat),
                d <= 16000,
            decreases attempt - k,
        {
            proof {
                reveal_with_fuel(pow2, 8);
                lemma_pow2_mono(k as nat, 6);
            }
            d = d * 2;
            k = k + 1;
        }
        proof {
            reveal_with_fuel(pow2, 8);
            lemma_pow2_mono(attempt as nat, 6);
        }
        d
    }
}

/// Compute the reconnect delay with jitter: the base delay for the attempt
/// plus at most a quarter of it, drawn from caller-supplied entropy.
pub fn next_delay_jittered(attempt: u64, entropy: u64) -> (d: u64)
    ensures
        delay_spec(attempt as nat) <= d <= delay_spec(attempt as nat) + delay_spec(
            attempt as nat,
        ) / 4,
{
    let base = next_delay(attempt);
    proof {
        lemma_delay_monotone(attempt as nat, attempt as nat);
    }
    base + entropy % (base / 4 + 1)
}

} // verus!
