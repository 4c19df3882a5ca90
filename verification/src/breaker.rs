//! Per-backend circuit breakers: while a breaker is open no call is
//! admitted through it, and a half-open breaker admits exactly one
//! in-flight probe.

use vstd::prelude::*;

verus! {

/// The state of one circuit breaker.
#[derive(Debug, Clone, PartialEq)]
pub enum CircuitBreakerState {
    /// Calls pass through; consecutive failures are counted.
    Closed,
    /// Calls are rejected until the open timeout elapses.
    Open { opened_at_ms: u64, failure_count: u32 },
    /// One probe call is admitted; `test_in_flight` guards the rest.
    HalfOpen { opened_at_ms: u64, test_in_flight: bool },
}

/// Counters exposed by a breaker.
#[derive(Debug, Clone, PartialEq)]
pub struct BreakerMetrics {
    pub total_calls: u64,
    pub successful_calls: u64,
    pub failed_calls: u64,
    pub circuit_opens: u64,
    pub circuit_closes: u64,
    pub total_open_time_ms: u64,
}

impl BreakerMetrics {
    /// Fresh counters.
    pub fn zero() -> (r: BreakerMetrics)
        ensures
            r.total_calls == 0 && r.successful_calls == 0 && r.failed_calls == 0
                && r.circuit_opens == 0 && r.circuit_closes == 0 && r.total_open_time_ms == 0,
    {
        BreakerMetrics {
            total_calls: 0,
            successful_calls: 0,
            failed_calls: 0,
            circuit_opens: 0,
            circuit_closes: 0,
            total_open_time_ms: 0,
        }
    }
}

/// Saturating increment.
fn inc(v: u64) -> (r: u64)
    ensures
        r == if v == u64::MAX {
            v as int
        } else {
            v + 1
        },
{
    if v == u64::MAX {
        v
    } else {
        v + 1
    }
}

/// A circuit breaker guarding one named dependency.
#[derive(Debug, Clone, PartialEq)]
pub struct CircuitBreaker {
    pub name: String,
    pub state: CircuitBreakerState,
    pub failure_threshold: u32,
    pub open_timeout_ms: u64,
    pub consecutive_failures: u32,
    pub metrics: BreakerMetrics,
}

/// Whether an open breaker has outlived its timeout at the given
/// instant.
pub open spec fn open_expired(opened_at_ms: u64, open_timeout_ms: u64, now_ms: u64) -> bool {
    now_ms >= opened_at_ms && now_ms - opened_at_ms > open_timeout_ms
}

impl CircuitBreaker {
    /// Creates a closed breaker.
    pub fn new(name: String, failure_threshold: u32, open_timeout_ms: u64) -> (r: CircuitBreaker)
        ensures
            r.name == name,
            r.state == CircuitBreakerState::Closed,
            r.failure_threshold == failure_threshold,
            r.open_timeout_ms == open_timeout_ms,
            r.consecutive_failures == 0,
            r.metrics == (BreakerMetrics {
                total_calls: 0u64,
                successful_calls: 0u64,
                failed_calls: 0u64,
                circuit_opens: 0u64,
                circuit_closes: 0u64,
                total_open_time_ms: 0u64,
            }),
    {
        CircuitBreaker {
            name,
            state: CircuitBreakerState::Closed,
            failure_threshold,
            open_timeout_ms,
            consecutive_failures: 0,
            metrics: BreakerMetrics::zero(),
        }
    }

    /// Asks the breaker to admit one call at the given instant.
    ///
    /// A closed breaker admits. An open breaker rejects until its
    /// timeout elapses; the first call after that becomes the half-open
    /// probe and is admitted. A half-open breaker with a probe in
    /// flight rejects; without one it admits the call as the probe.
    pub fn try_acquire(&mut self, now_ms: u64) -> (admitted: bool)
        ensures
            final(self).name == old(self).name,
            final(self).failure_threshold == old(self).failure_threshold,
            final(self).open_timeout_ms == old(self).open_timeout_ms,
            final(self).consecutive_failures == old(self).consecutive_failures,
            match old(self).state {
                CircuitBreakerState::Closed => admitted && final(self).state
                    == CircuitBreakerState::Closed,
                CircuitBreakerState::Open { opened_at_ms, failure_count } => {
                    if open_expired(opened_at_ms, old(self).open_timeout_ms, now_ms) {
                        admitted && final(self).state == (CircuitBreakerState::HalfOpen {
                            opened_at_ms,
                            test_in_flight: true,
                        })
                    } else {
                        !admitted && final(self).state == old(self).state
                    }
                },
                CircuitBreakerState::HalfOpen { opened_at_ms, test_in_flight } => {
                    if test_in_flight {
                        !admitted && final(self).state == old(self).state
                    } else {
                        admitted && final(self).state == (CircuitBreakerState::HalfOpen {
                            opened_at_ms,
                            test_in_flight: true,
                        })
                    }
                },
            },
            admitted ==> final(self).metrics == (BreakerMetrics {
                total_calls: if old(self).metrics.total_calls == u64::MAX {
                    u64::MAX
                } else {
                    (old(self).metrics.total_calls + 1) as u64
                },
                ..old(self).metrics
            }),
            !admitted ==> final(self).metrics == old(self).metrics,
    {
        let admitted: bool;
        match &self.state {
            CircuitBreakerState::Closed => {
                admitted = true;
            },
            CircuitBreakerState::Open { opened_at_ms, failure_count: _ } => {
                let opened = *opened_at_ms;
                if now_ms >= opened && now_ms - opened > self.open_timeout_ms {
                    self.state = CircuitBreakerState::HalfOpen {
                        opened_at_ms: opened,
                        test_in_flight: true,
                    };
                    admitted = true;
                } else {
                    admitted = false;
                }
            },
            CircuitBreakerState::HalfOpen { opened_at_ms, test_in_flight } => {
                let opened = *opened_at_ms;
                if *test_in_flight {
                    admitted = false;
                } else {
                    self.state = CircuitBreakerState::HalfOpen {
                        opened_at_ms: opened,
                        test_in_flight: true,
                    };
                    admitted = true;
                }
            },
        }
        if admitted {
            self.metrics.total_calls = inc(self.metrics.total_calls);
        }
        admitted
    }

    /// Records a successful call: the failure streak resets, and a
    /// half-open breaker closes, accounting its time spent open.
    pub fn record_success(&mut self, now_ms: u64)
        ensures
            *final(self) == spec_record_success(*old(self), now_ms),
            final(self).name == old(self).name,
            final(self).failure_threshold == old(self).failure_threshold,
            final(self).open_timeout_ms == old(self).open_timeout_ms,
            final(self).consecutive_failures == 0,
            final(self).metrics.successful_calls == (if old(self).metrics.successful_calls
                == u64::MAX {
                u64::MAX as int
            } else {
                old(self).metrics.successful_calls + 1
            }),
            match old(self).state {
                CircuitBreakerState::HalfOpen { opened_at_ms, .. } => {
                    &&& final(self).state == CircuitBreakerState::Closed
                    &&& final(self).metrics.circuit_closes == (if old(self).metrics.circuit_closes == u64::MAX {
                        u64::MAX as int
                    } else {
                        old(self).metrics.circuit_closes + 1
                    })
                },
                _ => final(self).state == old(self).state && final(self).metrics.circuit_closes
                    == old(self).metrics.circuit_closes,
            },
    {
        self.metrics.successful_calls = inc(self.metrics.successful_calls);
        self.consecutive_failures = 0;
        let half_open_since: Option<u64> = match &self.state {
            CircuitBreakerState::HalfOpen { opened_at_ms, .. } => Some(*opened_at_ms),
            _ => None,
        };
        if let Some(opened) = half_open_since {
            self.state = CircuitBreakerState::Closed;
            self.metrics.circuit_closes = inc(self.metrics.circuit_closes);
            let open_time = if now_ms >= opened {
                now_ms - opened
            } else {
                0
            };
            self.metrics.total_open_time_ms = if self.metrics.total_open_time_ms > u64::MAX
                - open_time {
                u64::MAX
            } else {
                self.metrics.total_open_time_ms + open_time
            };
        }
    }

    /// Records a failed call. A closed breaker opens once the streak of
    /// consecutive failures reaches the threshold; a half-open probe
    /// failure reopens the breaker with an incremented count.
    pub fn record_failure(&mut self, now_ms: u64)
        ensures
            *final(self) == spec_record_failure(*old(self), now_ms),
            final(self).name == old(self).name,
            final(self).failure_threshold == old(self).failure_threshold,
            final(self).open_timeout_ms == old(self).open_timeout_ms,
            final(self).metrics.failed_calls == (if old(self).metrics.failed_calls == u64::MAX {
                u64::MAX as int
            } else {
                old(self).metrics.failed_calls + 1
            }),
            match old(self).state {
                CircuitBreakerState::Closed => {
                    let streak = if old(self).consecutive_failures == u32::MAX {
                        u32::MAX as int
                    } else {
                        old(self).consecutive_failures + 1
                    };
                    if streak >= old(self).failure_threshold {
                        final(self).state == (CircuitBreakerState::Open {
                            opened_at_ms: now_ms,
                            failure_count: streak as u32,
                        }) && final(self).consecutive_failures == streak
                    } else {
                        final(self).state == CircuitBreakerState::Closed && final(self).consecutive_failures == streak
                    }
                },
                CircuitBreakerState::HalfOpen { .. } => {
                    let streak = if old(self).consecutive_failures == u32::MAX {
                        u32::MAX as int
                    } else {
                        old(self).consecutive_failures + 1
                    };
                    final(self).state == (CircuitBreakerState::Open {
                        opened_at_ms: now_ms,
                        failure_count: streak as u32,
                    }) && final(self).consecutive_failures == streak
                },
                CircuitBreakerState::Open { .. } => final(self).state == old(self).state && final(self).consecutive_failures == old(self).consecutive_failures,
            },
    {
        self.metrics.failed_calls = inc(self.metrics.failed_calls);
        let streak = if self.consecutive_failures == u32::MAX {
            u32::MAX
        } else {
            self.consecutive_failures + 1
        };
        match &self.state {
            CircuitBreakerState::Closed => {
                self.consecutive_failures = streak;
                if streak >= self.failure_threshold {
                    self.state = CircuitBreakerState::Open {
                        opened_at_ms: now_ms,
                        failure_count: streak,
                    };
                    self.metrics.circuit_opens = inc(self.metrics.circuit_opens);
                }
            },
            CircuitBreakerState::HalfOpen { .. } => {
                self.consecutive_failures = streak;
                self.state = CircuitBreakerState::Open {
                    opened_at_ms: now_ms,
                    failure_count: streak,
                };
            },
            CircuitBreakerState::Open { .. } => {},
        }
    }

    /// Returns the current state.
    pub fn get_state(&self) -> (r: &CircuitBreakerState)
        ensures
            *r == self.state,
    {
        &self.state
    }
}

/// An open breaker within its timeout never admits a call, and a
/// half-open breaker with its probe in flight never admits another:
/// the admission rule of the breaker state machine, stated over
/// `try_acquire`'s transition relation.
pub proof fn lemma_breaker_admission(b: CircuitBreaker, now_ms: u64)
    ensures
        (b.state matches CircuitBreakerState::Open { opened_at_ms, .. } && !open_expired(
            opened_at_ms,
            b.open_timeout_ms,
            now_ms,
        )) ==> !breaker_admits(b, now_ms),
        (b.state matches CircuitBreakerState::HalfOpen { test_in_flight: true, .. })
            ==> !breaker_admits(b, now_ms),
        (b.state matches CircuitBreakerState::HalfOpen { test_in_flight: false, .. })
            ==> breaker_admits(b, now_ms),
{
}

/// The breaker after a successful call is recorded: the failure streak
/// resets, a half-open breaker closes and accounts its open time.
pub open spec fn spec_record_success(b: CircuitBreaker, now_ms: u64) -> CircuitBreaker {
    let bumped = BreakerMetrics {
        successful_calls: if b.metrics.successful_calls == u64::MAX {
            u64::MAX
        } else {
            (b.metrics.successful_calls + 1) as u64
        },
        ..b.metrics
    };
    match b.state {
        CircuitBreakerState::HalfOpen { opened_at_ms, .. } => {
            let open_time: u64 = if now_ms >= opened_at_ms {
                (now_ms - opened_at_ms) as u64
            } else {
                0
            };
            CircuitBreaker {
                state: CircuitBreakerState::Closed,
                consecutive_failures: 0,
                metrics: BreakerMetrics {
                    circuit_closes: if bumped.circuit_closes == u64::MAX {
                        u64::MAX
                    } else {
                        (bumped.circuit_closes + 1) as u64
                    },
                    total_open_time_ms: if bumped.total_open_time_ms > u64::MAX - open_time {
                        u64::MAX
                    } else {
                        (bumped.total_open_time_ms + open_time) as u64
                    },
                    ..bumped
                },
                ..b
            }
        },
        _ => CircuitBreaker { consecutive_failures: 0, metrics: bumped, ..b },
    }
}

/// The breaker after a failed call is recorded: the streak grows, a
/// closed breaker opens at the threshold, a half-open probe failure
/// reopens.
pub open spec fn spec_record_failure(b: CircuitBreaker, now_ms: u64) -> CircuitBreaker {
    let bumped = BreakerMetrics {
        failed_calls: if b.metrics.failed_calls == u64::MAX {
            u64::MAX
        } else {
            (b.metrics.failed_calls + 1) as u64
        },
        ..b.metrics
    };
    let streak: u32 = if b.consecutive_failures == u32::MAX {
        u32::MAX
    } else {
        (b.consecutive_failures + 1) as u32
    };
    match b.state {
        CircuitBreakerState::Closed => {
            if streak >= b.failure_threshold {
                CircuitBreaker {
                    state: CircuitBreakerState::Open {
                        opened_at_ms: now_ms,
                        failure_count: streak,
                    },
                    consecutive_failures: streak,
                    metrics: BreakerMetrics {
                        circuit_opens: if bumped.circuit_opens == u64::MAX {
                            u64::MAX
                        } else {
                            (bumped.circuit_opens + 1) as u64
                        },
                        ..bumped
                    },
                    ..b
                }
            } else {
                CircuitBreaker { consecutive_failures: streak, metrics: bumped, ..b }
            }
        },
        CircuitBreakerState::HalfOpen { .. } => CircuitBreaker {
            state: CircuitBreakerState::Open { opened_at_ms: now_ms, failure_count: streak },
            consecutive_failures: streak,
            metrics: bumped,
            ..b
        },
        CircuitBreakerState::Open { .. } => CircuitBreaker { metrics: bumped, ..b },
    }
}

/// Whether `try_acquire` admits a call in the given state at the given
/// instant.
pub open spec fn breaker_admits(b: CircuitBreaker, now_ms: u64) -> bool {
    match b.state {
        CircuitBreakerState::Closed => true,
        CircuitBreakerState::Open { opened_at_ms, .. } => open_expired(
            opened_at_ms,
            b.open_timeout_ms,
            now_ms,
        ),
        CircuitBreakerState::HalfOpen { test_in_flight, .. } => !test_in_flight,
    }
}

} // verus!
