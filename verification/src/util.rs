//! The backoff calculator: exponential growth from 100ms, a random jitter
//! of up to half the exponential part, and a hard 5000ms ceiling.

use vstd::prelude::*;

use rand::Rng;

verus! {

/// The exponential part of the delay: 100ms doubled per attempt, clamped
/// to the 5000ms ceiling.
pub open spec fn spec_backoff_exp(attempt: int) -> int
    decreases attempt,
{
    if attempt <= 0 {
        100
    } else if 2 * spec_backoff_exp(attempt - 1) > 5000 {
        5000
    } else {
        2 * spec_backoff_exp(attempt - 1)
    }
}

proof fn lemma_backoff_exp_bounds(attempt: int)
    ensures
        100 <= spec_backoff_exp(attempt) <= 5000,
    decreases attempt,
{
    if attempt > 0 {
        lemma_backoff_exp_bounds(attempt - 1);
    }
}

/// The exponential part never shrinks as the attempt count grows, up to
/// the ceiling; with the jitter a random amount, the delay grows with the
/// attempt count in expectation.
pub proof fn lemma_backoff_exp_monotone(a: int, b: int)
    requires
        a <= b,
    ensures
        spec_backoff_exp(a) <= spec_backoff_exp(b),
    decreases b - a,
{
    if a < b {
        lemma_backoff_exp_monotone(a, b - 1);
        lemma_backoff_exp_bounds(b - 1);
    }
}

/// Relies on rand's `Rng::gen_range` over `0..=hi`: the sample lies in the
/// inclusive range, and the range is never empty.
#[verifier::external_body]
fn sample_up_to(hi: u64) -> (r: u64)
    ensures
        r <= hi,
{
    rand::thread_rng().gen_range(0..=hi)
}

/// The exponential part of the delay for a given attempt.
fn backoff_exp(attempt: u32) -> (e: u64)
    ensures
        e == spec_backoff_exp(attempt as int),
        100 <= e <= 5000,
{
    proof {
        lemma_backoff_exp_bounds(attempt as int);
    }
    let mut exp: u64 = 100;
    let mut k: u32 = 0;
    while k < attempt
        invariant
            0 <= k <= attempt,
            exp == spec_backoff_exp(k as int),
            100 <= exp <= 5000,
        decreases attempt - k,
    {
        proof {
            lemma_backoff_exp_bounds(k as int);
        }
        exp = if 2 * exp > 5000 {
            5000
        } else {
            2 * exp
        };
        k += 1;
    }
    exp
}

/// The delay for a given attempt and jitter: the exponential part plus the
/// jitter, clamped to the ceiling.
pub fn backoff_delay_with_jitter(attempt: u32, jitter: u64) -> (ms: u64)
    requires
        jitter <= spec_backoff_exp(attempt as int) / 2,
    ensures
        ms == if spec_backoff_exp(attempt as int) + jitter > 5000 {
            5000
        } else {
            spec_backoff_exp(attempt as int) + jitter
        },
        100 <= ms <= 5000,
{
    let exp = backoff_exp(attempt);
    let total = exp + jitter;
    if total > 5000 {
        5000
    } else {
        total
    }
}

/// One admissible outcome of the backoff draw: the exponential part plus
/// some jitter of at most half of it, clamped to the ceiling.
pub open spec fn spec_backoff_outcome(attempt: int, j: int, ms: int) -> bool {
    &&& 0 <= j <= spec_backoff_exp(attempt) / 2
    &&& ms == if spec_backoff_exp(attempt) + j > 5000 {
        5000
    } else {
        spec_backoff_exp(attempt) + j
    }
}

/// The delay before the given retry attempt: at least the exponential part
/// for that attempt, at most half as much again, never above the 5000ms
/// ceiling — some admissible outcome of the jitter draw.
pub fn backoff_delay(attempt: u32) -> (ms: u64)
    ensures
        100 <= ms <= 5000,
        spec_backoff_exp(attempt as int) <= ms,
        ms <= spec_backoff_exp(attempt as int) + spec_backoff_exp(attempt as int) / 2,
        exists|j: int| spec_backoff_outcome(attempt as int, j, ms as int),
{
    let exp = backoff_exp(attempt);
    let jitter = sample_up_to(exp / 2);
    let ms = backoff_delay_with_jitter(attempt, jitter);
    proof {
        lemma_backoff_exp_bounds(attempt as int);
        assert(spec_backoff_outcome(attempt as int, jitter as int, ms as int));
    }
    ms
}

} // verus!
