//! Bounded retry with backoff for reads of the placement backend.
//!
//! Only a retryable routing failure is retried; a definitive answer is returned at
//! once. Delays are in nanoseconds.

use vstd::arithmetic::power2::{lemma_pow2_pos, lemma_pow2_strictly_increases, pow2};
use vstd::prelude::*;

verus! {

/// The longest delay: that of `u64::MAX` seconds and 999999999 nanoseconds.
pub const MAX_DELAY: u128 = 18446744073709551615999999999;

/// A delay times a factor, up to the longest delay.
pub open spec fn scaled(delay: u128, factor: int) -> int {
    if delay * factor <= MAX_DELAY {
        delay * factor
    } else {
        MAX_DELAY as int
    }
}

/// Multiplies a delay, stopping at the longest one.
pub(crate) fn saturating_mul(delay: u128, factor: u32) -> (r: u128)
    ensures
        r == scaled(delay, factor as int),
{
    if factor == 0 {
        assert(delay * 0 == 0) by (nonlinear_arith);
        return 0;
    }
    let f = factor as u128;
    if delay > MAX_DELAY / f {
        proof {
            assert(delay * f > MAX_DELAY) by (nonlinear_arith)
                requires
                    f > 0,
                    delay > MAX_DELAY / f,
            ;
        }
        MAX_DELAY
    } else {
        proof {
            assert(delay * f <= MAX_DELAY) by (nonlinear_arith)
                requires
                    f > 0,
                    delay <= MAX_DELAY / f,
            ;
        }
        delay * f
    }
}

/// How a transiently unavailable placement backend is retried.
#[derive(Clone, Copy, Debug, PartialEq, Eq, Structural)]
pub struct RetryPolicy {
    /// Attempts in all, the first included.
    pub max_attempts: u32,
    /// The first delay; each further one doubles it.
    pub base_backoff: u128,
    /// The longest single delay.
    pub max_backoff: u128,
}

/// The factor before the retry that follows attempt `n`: 2 to the `n`, as far as it
/// fits in 32 bits.
pub open spec fn doublings(n: u32) -> int {
    if n < 32 {
        pow2(n as nat) as int
    } else {
        u32::MAX as int
    }
}

/// What to do after a failed attempt.
#[derive(Clone, Copy, Debug, PartialEq, Eq, Structural)]
pub enum Retry {
    /// Return the failure.
    GiveUp,
    /// Wait this long and try again.
    After(u128),
}

impl Default for RetryPolicy {
    fn default() -> (r: Self)
        ensures
            r.max_attempts == 3,
            r.base_backoff == 50_000_000,
            r.max_backoff == 1_000_000_000,
    {
        RetryPolicy { max_attempts: 3, base_backoff: 50_000_000, max_backoff: 1_000_000_000 }
    }
}

impl RetryPolicy {
    /// The delay before the retry that follows attempt `attempt`, counted from 0.
    pub open spec fn delay(self, attempt: u32) -> int {
        let grown = scaled(self.base_backoff, doublings(attempt));
        if grown <= self.max_backoff {
            grown
        } else {
            self.max_backoff as int
        }
    }

    /// The delay before the retry that follows `attempt`: the base times 2 to the
    /// `attempt`, capped.
    pub fn backoff(self, attempt: u32) -> (r: u128)
        ensures
            r == self.delay(attempt),
    {
        let factor: u32 = if attempt < 32 {
            proof {
                vstd::arithmetic::power2::lemma2_to64();
                if attempt < 31 {
                    lemma_pow2_strictly_increases(attempt as nat, 31);
                }
                vstd::bits::lemma_u32_shl_is_mul(1, attempt);
            }
            1u32 << attempt
        } else {
            u32::MAX
        };
        let grown = saturating_mul(self.base_backoff, factor);
        if grown <= self.max_backoff {
            grown
        } else {
            self.max_backoff
        }
    }

    /// What follows attempt `attempt` when it failed.
    pub open spec fn verdict(self, attempt: u32, retryable: bool) -> Retry {
        if retryable && attempt + 1 < self.max_attempts {
            Retry::After(self.delay(attempt) as u128)
        } else {
            Retry::GiveUp
        }
    }

    /// Decides what follows attempt `attempt`, counted from 0, when it failed.
    pub fn after_failure(self, attempt: u32, retryable: bool) -> (r: Retry)
        ensures
            r == self.verdict(attempt, retryable),
    {
        if retryable && attempt < self.max_attempts && self.max_attempts - attempt > 1 {
            Retry::After(self.backoff(attempt))
        } else {
            Retry::GiveUp
        }
    }

    /// The attempt whose outcome is returned, starting from attempt `n`.
    /// `failures[i]` tells of the `i`-th attempt: `None` that it succeeded, else
    /// whether its failure is retryable.
    pub open spec fn final_attempt(self, failures: Seq<Option<bool>>, n: nat) -> nat
        decreases failures.len() - n,
    {
        if n + 1 >= failures.len() || n >= u32::MAX {
            n
        } else {
            match failures[n as int] {
                None => n,
                Some(retryable) => if self.verdict(n as u32, retryable) is After {
                    self.final_attempt(failures, n + 1)
                } else {
                    n
                },
            }
        }
    }
}

/// At most `max_attempts` attempts are made, and always at least one.
pub proof fn law_attempts_are_bounded(
    policy: RetryPolicy,
    failures: Seq<Option<bool>>,
    n: nat,
)
    requires
        n == 0 || n < policy.max_attempts,
    ensures
        policy.final_attempt(failures, n) == 0 || policy.final_attempt(failures, n)
            < policy.max_attempts,
        policy.final_attempt(failures, n) >= n,
    decreases failures.len() - n,
{
    if n + 1 < failures.len() && n < u32::MAX {
        if let Some(retryable) = failures[n as int] {
            if policy.verdict(n as u32, retryable) is After {
                law_attempts_are_bounded(policy, failures, n + 1);
            }
        }
    }
}

/// Only retryable failures are ever followed by another attempt: a success or a
/// definitive failure is returned as it comes.
pub proof fn law_only_retryable_failures_are_retried(
    policy: RetryPolicy,
    failures: Seq<Option<bool>>,
    n: nat,
    i: int,
)
    requires
        n <= i < policy.final_attempt(failures, n),
    ensures
        failures[i] == Some(true),
    decreases failures.len() - n,
{
    if n + 1 < failures.len() && n < u32::MAX && i > n {
        law_only_retryable_failures_are_retried(policy, failures, n + 1, i);
    }
}

/// Delays never shrink from one retry to the next and never pass the cap.
pub proof fn law_delays_grow_up_to_the_cap(policy: RetryPolicy, a: u32, b: u32)
    requires
        a <= b,
    ensures
        policy.delay(a) <= policy.delay(b) <= policy.max_backoff,
{
    vstd::arithmetic::power2::lemma2_to64();
    lemma_pow2_pos(a as nat);
    if a < b && b < 32 {
        lemma_pow2_strictly_increases(a as nat, b as nat);
    }
    if a < 31 {
        lemma_pow2_strictly_increases(a as nat, 31);
    }
    let x = doublings(a);
    let y = doublings(b);
    assert(x <= y);
    assert(policy.base_backoff * x <= policy.base_backoff * y) by (nonlinear_arith)
        requires
            x <= y,
            policy.base_backoff >= 0,
    ;
}

} // verus!
