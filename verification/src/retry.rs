//! Bounded retries with exponential backoff and jitter. The delay
//! between attempts is provably within the configured jitter envelope
//! around the exponential base delay.

use vstd::prelude::*;
use vstd::arithmetic::div_mod::lemma_div_is_ordered;
use vstd::arithmetic::mul::lemma_mul_inequality;
use crate::types::{BackoffStrategy, RetryCondition};

verus! {

/// The exponential base delay before the jitter is applied, for the
/// given attempt index (zero-based), saturating at `u64::MAX`: one
/// hundred milliseconds doubled (or multiplied by the configured base)
/// per prior attempt.
pub open spec fn capped_backoff(base: nat, k: nat) -> nat
    decreases k,
{
    if k == 0 {
        100
    } else {
        let p = capped_backoff(base, (k - 1) as nat);
        if p * base > u64::MAX {
            u64::MAX as nat
        } else {
            p * base
        }
    }
}

/// A delay scaled by a per-mille factor.
pub open spec fn scaled(base: nat, factor_permille: nat) -> nat {
    (base * factor_permille) / 1000
}

/// `scaled` saturated at `u64::MAX`.
pub open spec fn scaled_capped(base: nat, factor_permille: nat) -> nat {
    if scaled(base, factor_permille) > u64::MAX {
        u64::MAX as nat
    } else {
        scaled(base, factor_permille)
    }
}

/// `scaled` is monotone in the factor.
pub proof fn lemma_scaled_monotone(base: nat, f1: nat, f2: nat)
    requires
        f1 <= f2,
    ensures
        scaled(base, f1) <= scaled(base, f2),
        scaled_capped(base, f1) <= scaled_capped(base, f2),
{
    lemma_mul_inequality(f1 as int, f2 as int, base as int);
    lemma_div_is_ordered((base * f1) as int, (base * f2) as int, 1000);
}

/// Retry bookkeeping for one task: attempt counter, budget, and the
/// jittered backoff schedule.
#[derive(Debug, Clone, PartialEq)]
pub struct RetryInfo {
    pub attempt: u32,
    pub max_attempts: u32,
    pub last_attempt_at_ms: u64,
    pub next_retry_at_ms: u64,
    pub backoff_ms: u64,
    pub total_backoff_ms: u64,
    pub exponential_base: u32,
    pub jitter_permille: u32,
}

impl RetryInfo {
    /// Structural validity: the jitter factor is at most one.
    pub open spec fn wf(self) -> bool {
        self.jitter_permille <= 1000 && self.exponential_base >= 1
    }

    /// Creates retry bookkeeping starting at the given instant, with
    /// doubling backoff and a ten percent jitter.
    pub fn new_at(max_attempts: u32, now_ms: u64) -> (r: RetryInfo)
        ensures
            r.wf(),
            r.attempt == 0,
            r.max_attempts == max_attempts,
            r.last_attempt_at_ms == now_ms,
            r.next_retry_at_ms == now_ms,
            r.backoff_ms == 100,
            r.total_backoff_ms == 0,
            r.exponential_base == 2,
            r.jitter_permille == 100,
    {
        RetryInfo {
            attempt: 0,
            max_attempts,
            last_attempt_at_ms: now_ms,
            next_retry_at_ms: now_ms,
            backoff_ms: 100,
            total_backoff_ms: 0,
            exponential_base: 2,
            jitter_permille: 100,
        }
    }

    /// Creates retry bookkeeping starting now.
    pub fn new(max_attempts: u32) -> (r: RetryInfo)
        ensures
            r.wf(),
            r.attempt == 0,
            r.max_attempts == max_attempts,
            r.next_retry_at_ms == r.last_attempt_at_ms,
            r.backoff_ms == 100,
            r.total_backoff_ms == 0,
            r.exponential_base == 2,
            r.jitter_permille == 100,
    {
        let now = crate::trusted::now_millis();
        Self::new_at(max_attempts, now)
    }

    /// Whether another attempt may be taken at the given instant: the
    /// budget is not exhausted and the backoff delay has elapsed.
    pub fn should_retry(&self, now_ms: u64) -> (r: bool)
        ensures
            r == (self.attempt < self.max_attempts && now_ms >= self.next_retry_at_ms),
    {
        self.attempt < self.max_attempts && now_ms >= self.next_retry_at_ms
    }

    /// Records one attempt at the given instant. The new backoff delay
    /// lies within the jitter envelope around the exponential base
    /// delay: between `base·(1 - jitter/2)` and `base·(1 + jitter/2)`,
    /// both saturated at `u64::MAX`; the next eligible instant is the
    /// current instant plus that delay, and the total accumulates the
    /// unjittered base delay.
    pub fn record_attempt(&mut self, now_ms: u64) -> (r: ())
        requires
            old(self).wf(),
            old(self).attempt < u32::MAX,
        ensures
            final(self).wf(),
            final(self).attempt == old(self).attempt + 1,
            final(self).max_attempts == old(self).max_attempts,
            final(self).exponential_base == old(self).exponential_base,
            final(self).jitter_permille == old(self).jitter_permille,
            final(self).last_attempt_at_ms == now_ms,
            ({
                let base = capped_backoff(
                    old(self).exponential_base as nat,
                    old(self).attempt as nat,
                );
                let lo = (1000 - old(self).jitter_permille / 2) as nat;
                let hi = (1000 + old(self).jitter_permille / 2) as nat;
                &&& scaled_capped(base, lo) <= final(self).backoff_ms <= scaled_capped(base, hi)
                &&& final(self).next_retry_at_ms == (
                if now_ms + final(self).backoff_ms > u64::MAX {
                    u64::MAX as int
                } else {
                    now_ms + final(self).backoff_ms
                })
                &&& final(self).total_backoff_ms == (
                if old(self).total_backoff_ms + base > u64::MAX {
                    u64::MAX as int
                } else {
                    old(self).total_backoff_ms + base
                })
            }),
    {
        let exponent = self.attempt;
        self.attempt = self.attempt + 1;
        self.last_attempt_at_ms = now_ms;
        // Exponential base delay, saturating.
        let mut base: u64 = 100;
        let mut k: u32 = 0;
        while k < exponent
            invariant
                self.exponential_base >= 1,
                k <= exponent,
                base == capped_backoff(self.exponential_base as nat, k as nat),
            decreases exponent - k,
        {
            let b = self.exponential_base as u64;
            let q = u64::MAX / b;
            proof {
                vstd::arithmetic::div_mod::lemma_fundamental_div_mod(u64::MAX as int, b as int);
            }
            if base > q {
                // base * b would exceed u64::MAX: the spec saturates.
                proof {
                    assert((base as int) * (b as int) > u64::MAX) by (nonlinear_arith)
                        requires
                            base as int > q as int,
                            b as int >= 1,
                            u64::MAX as int == (b as int) * (q as int) + u64::MAX as int % (
                            b as int),
                            0 <= u64::MAX as int % (b as int) < b as int,
                    ;
                }
                base = u64::MAX;
            } else {
                proof {
                    assert((base as int) * (b as int) <= u64::MAX) by (nonlinear_arith)
                        requires
                            base as int <= q as int,
                            b as int >= 1,
                            u64::MAX as int == (b as int) * (q as int) + u64::MAX as int % (
                            b as int),
                            0 <= u64::MAX as int % (b as int),
                    ;
                }
                base = base * b;
            }
            k = k + 1;
        }
        // Random jitter within [-jitter/2, +jitter/2] per-mille.
        let half = (self.jitter_permille as u64) / 2;
        let j = crate::trusted::random_in_range(0, 2 * half);
        let factor: u64 = 1000 - half + j;
        proof {
            vstd::arithmetic::mul::lemma_mul_upper_bound(
                base as int,
                u64::MAX as int,
                factor as int,
                1500,
            );
        }
        let scaled_wide: u128 = (base as u128) * (factor as u128) / 1000;
        let delay: u64 = if scaled_wide > u64::MAX as u128 {
            u64::MAX
        } else {
            scaled_wide as u64
        };
        proof {
            let b = base as nat;
            let lo = (1000 - old(self).jitter_permille / 2) as nat;
            let hi = (1000 + old(self).jitter_permille / 2) as nat;
            let f = factor as nat;
            assert(lo <= f <= hi);
            assert(scaled_wide == scaled(b, f));
            lemma_scaled_monotone(b, lo, f);
            lemma_scaled_monotone(b, f, hi);
            assert(scaled_capped(b, lo) <= delay as nat <= scaled_capped(b, hi));
        }
        self.backoff_ms = delay;
        self.next_retry_at_ms = if now_ms > u64::MAX - delay {
            u64::MAX
        } else {
            now_ms + delay
        };
        // The total accumulates the unjittered base delays.
        self.total_backoff_ms = if self.total_backoff_ms > u64::MAX - base {
            u64::MAX
        } else {
            self.total_backoff_ms + base
        };
    }
}

/// A reusable retry policy: budget, backoff strategy and the conditions
/// under which a retry is taken.
#[derive(Debug, Clone, PartialEq)]
pub struct RetryPolicy {
    pub max_attempts: u32,
    pub backoff_strategy: BackoffStrategy,
    pub retry_conditions: Vec<RetryCondition>,
}

/// The delay that a backoff strategy prescribes before the attempt with
/// the given one-based index, saturating at `u64::MAX`.
pub open spec fn spec_strategy_delay(s: BackoffStrategy, attempt: nat) -> nat {
    match s {
        BackoffStrategy::Fixed { delay_ms } => delay_ms as nat,
        BackoffStrategy::Linear { initial_delay_ms, increment_ms, max_delay_ms } => {
            let raw = initial_delay_ms as nat + increment_ms as nat * (if attempt >= 1 {
                (attempt - 1) as nat
            } else {
                0
            });
            if raw > max_delay_ms {
                max_delay_ms as nat
            } else {
                raw
            }
        },
        BackoffStrategy::Exponential { initial_delay_ms, max_delay_ms, multiplier } => {
            let raw = initial_delay_ms as nat * pow_nat(
                multiplier as nat,
                (if attempt >= 1 {
                    (attempt - 1) as nat
                } else {
                    0
                }),
            );
            if raw > max_delay_ms {
                max_delay_ms as nat
            } else {
                raw
            }
        },
    }
}

/// Natural-number exponentiation.
pub open spec fn pow_nat(b: nat, e: nat) -> nat
    decreases e,
{
    if e == 0 {
        1
    } else {
        b * pow_nat(b, (e - 1) as nat)
    }
}

impl RetryPolicy {
    /// The standard policy: three attempts with doubling backoff from
    /// one second, capped at five minutes, retrying on failing exit
    /// codes, timeouts and unavailable resources.
    pub fn standard() -> (r: RetryPolicy)
        ensures
            r.max_attempts == 3,
            r.backoff_strategy == (BackoffStrategy::Exponential {
                initial_delay_ms: 1000u64,
                max_delay_ms: 300_000u64,
                multiplier: 2u32,
            }),
            r.retry_conditions@.len() == 3,
            r.retry_conditions@[1] == RetryCondition::Timeout,
            r.retry_conditions@[2] == RetryCondition::ResourceUnavailable,
    {
        let mut conditions: Vec<RetryCondition> = Vec::new();
        let mut codes: Vec<i32> = Vec::new();
        codes.push(1);
        codes.push(2);
        conditions.push(RetryCondition::ExitCode(codes));
        conditions.push(RetryCondition::Timeout);
        conditions.push(RetryCondition::ResourceUnavailable);
        RetryPolicy {
            max_attempts: 3,
            backoff_strategy: BackoffStrategy::Exponential {
                initial_delay_ms: 1000,
                max_delay_ms: 300_000,
                multiplier: 2,
            },
            retry_conditions: conditions,
        }
    }

    /// The delay before the attempt with the given one-based index.
    pub fn delay_for_attempt(&self, attempt: u32) -> (r: u64)
        requires
            attempt >= 1,
        ensures
            r as nat == (if spec_strategy_delay(self.backoff_strategy, attempt as nat)
                > u64::MAX {
                u64::MAX as nat
            } else {
                spec_strategy_delay(self.backoff_strategy, attempt as nat)
            }),
    {
        match &self.backoff_strategy {
            BackoffStrategy::Fixed { delay_ms } => *delay_ms,
            BackoffStrategy::Linear { initial_delay_ms, increment_ms, max_delay_ms } => {
                let steps = (attempt - 1) as u64;
                proof {
                    vstd::arithmetic::mul::lemma_mul_upper_bound(
                        *increment_ms as int,
                        u64::MAX as int,
                        steps as int,
                        u32::MAX as int,
                    );
                }
                let raw_wide = (*initial_delay_ms as u128) + (*increment_ms as u128) * (
                steps as u128);
                let capped = if raw_wide > *max_delay_ms as u128 {
                    *max_delay_ms
                } else {
                    raw_wide as u64
                };
                capped
            },
            BackoffStrategy::Exponential { initial_delay_ms, max_delay_ms, multiplier } => {
                let initial = *initial_delay_ms;
                let cap: u128 = *max_delay_ms as u128;
                let m: u128 = *multiplier as u128;
                let ghost mspec = *multiplier as nat;
                let mut raw: u128 = initial as u128;
                let mut k: u32 = 0;
                proof {
                    assert(pow_nat(mspec, 0) == 1);
                    assert((initial as nat) * 1 == initial as nat);
                }
                while k < attempt - 1
                    invariant
                        k <= attempt - 1,
                        cap <= u64::MAX,
                        m <= u32::MAX,
                        mspec == m as nat,
                        raw <= cap + 1 || raw == initial as u128,
                        (initial as nat) * pow_nat(mspec, k as nat) <= cap ==> raw as nat == (
                        initial as nat) * pow_nat(mspec, k as nat),
                        (initial as nat) * pow_nat(mspec, k as nat) > cap ==> raw > cap,
                    decreases attempt - 1 - k,
                {
                    let ghost v_k = (initial as nat) * pow_nat(mspec, k as nat);
                    let ghost v_k1 = (initial as nat) * pow_nat(mspec, (k + 1) as nat);
                    proof {
                        assert(pow_nat(mspec, (k + 1) as nat) == mspec * pow_nat(mspec, k as nat));
                        assert(v_k1 == v_k * mspec) by (nonlinear_arith)
                            requires
                                v_k == (initial as nat) * pow_nat(mspec, k as nat),
                                v_k1 == (initial as nat) * (mspec * pow_nat(mspec, k as nat)),
                        ;
                    }
                    if m == 0 {
                        proof {
                            assert(v_k * 0 == 0) by (nonlinear_arith);
                        }
                        raw = 0;
                    } else if raw > cap {
                        // Saturated: the mathematical value only grows.
                        proof {
                            assert(v_k * mspec >= v_k) by (nonlinear_arith)
                                requires
                                    mspec >= 1,
                                    v_k >= 0,
                            ;
                        }
                        raw = cap + 1;
                    } else {
                        proof {
                            lemma_mul_inequality(raw as int, cap as int, m as int);
                            assert(cap * m <= u64::MAX as int * u32::MAX as int) by {
                                vstd::arithmetic::mul::lemma_mul_upper_bound(
                                    cap as int,
                                    u64::MAX as int,
                                    m as int,
                                    u32::MAX as int,
                                );
                            }
                        }
                        let next = raw * m;
                        if next > cap {
                            raw = cap + 1;
                        } else {
                            raw = next;
                        }
                    }
                    k = k + 1;
                }
                if raw > cap {
                    *max_delay_ms
                } else {
                    raw as u64
                }
            },
        }
    }
}

} // verus!
