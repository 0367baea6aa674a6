//! Repeated delivery attempts with growing pauses.

use std::time::Duration;

use vstd::arithmetic::power2::*;
use vstd::prelude::*;

use crate::duration;
use crate::sink::SinkError;

verus! {

/// By how much the pause before a retry is longer than the base pause: it
/// doubles with each retry after the first, up to the largest `u32`.
pub open spec fn backoff_factor(attempt: nat) -> nat
    recommends
        attempt > 0,
{
    if attempt <= 32 {
        pow2((attempt - 1) as nat)
    } else {
        u32::MAX as nat
    }
}

/// The pause before a retry, in nanoseconds.
pub open spec fn pause(backoff: nat, attempt: nat) -> nat {
    backoff * backoff_factor(attempt)
}

fn factor(attempt: u32) -> (k: u32)
    requires
        attempt > 0,
    ensures
        k == backoff_factor(attempt as nat),
{
    if attempt > 32 {
        return u32::MAX;
    }
    let mut k: u32 = 1;
    let mut i: u32 = 1;
    proof {
        lemma2_to64();
    }
    while i < attempt
        invariant
            1 <= i <= attempt <= 32,
            k == pow2((i - 1) as nat),
        decreases attempt - i,
    {
        proof {
            lemma_pow2_unfold(i as nat);
            lemma2_to64();
            if i < 31 {
                lemma_pow2_strictly_increases(i as nat, 31);
            }
        }
        k = k * 2;
        i += 1;
    }
    k
}

/// The pause before a retry, unless it is longer than the longest span.
pub fn delay_before(backoff: Duration, attempt: u32) -> (r: Option<Duration>)
    requires
        attempt > 0,
    ensures
        match r {
            Some(d) => duration::duration_nanos(d) == pause(
                duration::duration_nanos(backoff),
                attempt as nat,
            ) && duration::duration_nanos(d) <= duration::max_nanos(),
            None => pause(duration::duration_nanos(backoff), attempt as nat)
                > duration::max_nanos(),
        },
{
    backoff.checked_mul(factor(attempt))
}

/// Each pause is twice the one before it, as long as the factor stays below the
/// largest `u32`, and from there on the pauses stay the same.
pub proof fn law_pauses_double(backoff: nat, attempt: nat)
    requires
        attempt > 0,
    ensures
        pause(backoff, 1) == backoff,
        attempt < 32 ==> pause(backoff, attempt + 1) == 2 * pause(backoff, attempt),
        attempt > 32 ==> pause(backoff, attempt + 1) == pause(backoff, attempt),
        pause(backoff, attempt) <= pause(backoff, attempt + 1),
{
    lemma2_to64();
    assert(backoff * 1 == backoff);
    if attempt < 32 {
        lemma_pow2_unfold(attempt);
        let p = pow2((attempt - 1) as nat);
        assert(backoff * (2 * p) == 2 * (backoff * p)) by (nonlinear_arith);
    } else if attempt == 32 {
        assert(backoff * pow2(31) <= backoff * u32::MAX as nat) by (nonlinear_arith)
            requires
                pow2(31) <= u32::MAX,
        ;
    }
}

/// The attempts to deliver one batch.
pub struct Delivery {
    limit: u32,
    backoff: Duration,
    attempt: u32,
}

/// What a delivery does next.
pub enum Action {
    /// Try to deliver at once.
    Try,
    /// Try again after a pause.
    Retry { attempt: u32, delay: Duration },
    /// The pause before the next try would be longer than the longest span.
    PauseTooLong,
    /// The batch is delivered.
    Done,
    /// There are no more tries: the last error stands.
    Failed(SinkError),
}

impl Delivery {
    /// How many retries there are.
    pub closed spec fn retries(&self) -> u32 {
        self.limit
    }

    /// The pause before the first retry, in nanoseconds.
    pub closed spec fn base(&self) -> nat {
        duration::duration_nanos(self.backoff)
    }

    /// How many tries have failed.
    pub closed spec fn failures(&self) -> nat {
        self.attempt as nat
    }

    /// There is a try left.
    pub open spec fn wf(&self) -> bool {
        self.failures() <= self.retries()
    }

    /// Begins the delivery of a batch of so many records; without records there
    /// is nothing to deliver.
    pub fn begin(records: usize, retry_attempts: u32, retry_backoff: Duration) -> (r: (
        Self,
        Action,
    ))
        ensures
            r.0.wf(),
            r.0.retries() == retry_attempts,
            r.0.base() == duration::duration_nanos(retry_backoff),
            r.0.failures() == 0,
            if records == 0 {
                r.1 is Done
            } else {
                r.1 is Try
            },
    {
        let d: Delivery = Delivery { limit: retry_attempts, backoff: retry_backoff, attempt: 0 };
        if records == 0 {
            (d, Action::Done)
        } else {
            (d, Action::Try)
        }
    }

    /// Takes the outcome of a try. A failed one is repeated, after a pause that
    /// doubles each time, as often as there are retries; after the last one its
    /// error stands.
    pub fn report(&mut self, outcome: Result<(), SinkError>) -> (r: Action)
        requires
            old(self).wf(),
        ensures
            final(self).retries() == old(self).retries(),
            final(self).base() == old(self).base(),
            match outcome {
                Ok(_) => r is Done && final(self).failures() == old(self).failures(),
                Err(e) => if old(self).failures() < old(self).retries() {
                    let next = old(self).failures() + 1;
                    let nanos = pause(old(self).base(), next);
                    &&& final(self).wf()
                    &&& final(self).failures() == next
                    &&& if nanos <= duration::max_nanos() {
                        r matches Action::Retry { attempt, delay } && attempt == next
                            && duration::duration_nanos(delay) == nanos
                    } else {
                        r is PauseTooLong
                    }
                } else {
                    &&& r == Action::Failed(e)
                    &&& final(self).failures() == old(self).failures()
                },
            },
    {
        match outcome {
            Ok(()) => Action::Done,
            Err(e) => {
                if self.attempt >= self.limit {
                    return Action::Failed(e);
                }
                self.attempt = self.attempt + 1;
                match delay_before(self.backoff, self.attempt) {
                    Some(delay) => Action::Retry { attempt: self.attempt, delay },
                    None => Action::PauseTooLong,
                }
            },
        }
    }
}

} // verus!
