//! How long a failed chunk waits before its next attempt.
//!
//! The wait grows with the square of the number of retries already made, has
//! a random jitter of up to half a second added so that chunks that failed
//! together do not come back together, and is capped.
use vstd::prelude::*;

verus! {

/// Base wait before a retry, in milliseconds.
pub const BASE_WAIT_TIME: usize = 300;

/// Longest wait before a retry, in milliseconds.
pub const MAX_WAIT_TIME: usize = 10_000;

/// Largest random jitter added to a wait, in milliseconds.
pub const MAX_JITTER: usize = 500;

/// `min(base + n * n + jitter, max)`, computed over the integers.
pub open spec fn backoff_spec(base: nat, n: nat, max: nat, jitter: nat) -> nat {
    if base + n * n + jitter <= max {
        base + n * n + jitter
    } else {
        max
    }
}

/// The wait before retry number `n + 1`: `base + n * n + jitter`, capped at
/// `max`. The cap also applies where the sum would not fit a `usize`.
pub fn backoff_delay(base: usize, n: usize, max: usize, jitter: usize) -> (r: usize)
    ensures
        r == backoff_spec(base as nat, n as nat, max as nat, jitter as nat),
{
    // Each operand is below 2^64, so the sum fits in 128 bits.
    let m: u128 = 0xffff_ffff_ffff_ffff;
    assert(n <= m && base <= m && jitter <= m);
    assert((n as u128) * (n as u128) + base + jitter <= m * m + m + m) by (nonlinear_arith)
        requires
            n <= m,
            base <= m,
            jitter <= m,
    ;
    let square: u128 = (n as u128) * (n as u128);
    let sum: u128 = (base as u128) + square + (jitter as u128);
    if sum <= max as u128 {
        sum as usize
    } else {
        max
    }
}

/// Relies on rand's `thread_rng().gen_range(0..=max)`: a value of the
/// inclusive range `0..=max`, which is never empty, drawn at random.
#[verifier::external_body]
pub(crate) fn random_at_most(max: usize) -> (r: usize)
    ensures
        r <= max,
{
    rand::Rng::gen_range(&mut rand::thread_rng(), 0..=max)
}

/// The wait before retry number `n + 1`, with a random jitter of at most
/// half a second: `min(base_wait_time + n * n + j, max)` for some `j` in
/// `0..=500`.
pub fn exponential_backoff(base_wait_time: usize, n: usize, max: usize) -> (r: usize)
    ensures
        exists|j: nat|
            j <= MAX_JITTER && r == backoff_spec(base_wait_time as nat, n as nat, max as nat, j),
{
    let j = random_at_most(MAX_JITTER);
    backoff_delay(base_wait_time, n, max, j)
}

} // verus!
