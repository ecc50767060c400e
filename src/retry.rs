//! The retry state machine: a bounded number of attempts with exponential
//! backoff between failures. The caller performs each attempt and each
//! wait; this type decides what comes next.

use vstd::prelude::*;
use crate::transfer::TransferError;

verus! {

/// `2` to the power `n`.
pub open spec fn two_to(n: nat) -> nat
    decreases n,
{
    if n == 0 {
        1
    } else {
        2 * two_to((n - 1) as nat)
    }
}

/// Wait after a failed attempt `n` (from 1): `base * 2^(n-1)` milliseconds,
/// saturating at `u64::MAX`. No further ceiling is applied.
pub open spec fn backoff_delay(base: u64, n: nat) -> u64 {
    if base * two_to((n - 1) as nat) <= u64::MAX {
        (base * two_to((n - 1) as nat)) as u64
    } else {
        u64::MAX
    }
}

/// The wait that follows failed attempt `attempt`.
pub fn backoff_ms(base: u64, attempt: u32) -> (r: u64)
    requires
        attempt >= 1,
    ensures
        r == backoff_delay(base, attempt as nat),
{
    let mut d: u64 = base;
    let mut k: u32 = 1;
    assert(two_to(0) == 1);
    assert(base * two_to(0) == base);
    while k < attempt
        invariant
            1 <= k <= attempt,
            d == backoff_delay(base, k as nat),
        decreases attempt - k,
    {
        proof {
            let p = two_to((k - 1) as nat);
            assert(two_to(k as nat) == 2 * p);
            assert(base * two_to(k as nat) == 2 * (base * p)) by (nonlinear_arith)
                requires
                    two_to(k as nat) == 2 * p,
            ;
        }
        d = if d <= u64::MAX / 2 { d * 2 } else { u64::MAX };
        k = k + 1;
    }
    d
}

/// What the caller does after reporting an attempt's result.
#[derive(Clone, Debug, PartialEq, Eq)]
pub enum RetryAction {
    /// The attempt succeeded; the download is done.
    Succeeded,
    /// Wait `delay_ms` milliseconds, then make the next attempt.
    Retry { delay_ms: u64 },
    /// The last attempt failed; the download failed with this error.
    Exhausted(TransferError),
}

/// Retry state of one download: which attempt runs, and the error of the
/// last one that failed.
pub struct RetryController {
    /// Attempts allowed, at least one.
    pub max_attempts: u32,
    /// Wait after the first failure, in milliseconds.
    pub base_backoff_ms: u64,
    /// The attempt in progress, from 1.
    pub attempt: u32,
    /// The error of the last failed attempt that was followed by a retry;
    /// the final failure is handed out in `RetryAction::Exhausted`.
    pub last_error: Option<TransferError>,
    /// A success or the exhaustion of attempts has been decided.
    pub finished: bool,
}

impl RetryController {
    pub open spec fn wf(&self) -> bool {
        1 <= self.attempt <= self.max_attempts
    }

    /// A controller about to make its first attempt. A request for zero
    /// attempts still makes one.
    pub fn new(max_attempts: u32, base_backoff_ms: u64) -> (r: RetryController)
        ensures
            r.wf(),
            r.max_attempts == if max_attempts == 0 { 1 } else { max_attempts },
            r.base_backoff_ms == base_backoff_ms,
            r.attempt == 1,
            r.last_error is None,
            !r.finished,
    {
        let max_attempts = if max_attempts == 0 { 1 } else { max_attempts };
        RetryController { max_attempts, base_backoff_ms, attempt: 1, last_error: None, finished: false }
    }

    /// Reports the result of the attempt in progress and returns what to
    /// do next: done on success; after a failure, wait
    /// `base * 2^(n-1)` ms and attempt again while attempts remain, else
    /// give up with that failure's error.
    pub fn on_outcome(&mut self, result: Result<(), TransferError>) -> (r: RetryAction)
        requires
            old(self).wf(),
            !old(self).finished,
        ensures
            final(self).wf(),
            final(self).max_attempts == old(self).max_attempts,
            final(self).base_backoff_ms == old(self).base_backoff_ms,
            result is Ok ==> r == RetryAction::Succeeded && final(self).finished
                && final(self).attempt == old(self).attempt
                && final(self).last_error == old(self).last_error,
            old(self).attempt < old(self).max_attempts ==> (result matches Err(e) ==> r == (
            RetryAction::Retry {
                delay_ms: backoff_delay(old(self).base_backoff_ms, old(self).attempt as nat),
            }) && final(self).attempt == old(self).attempt + 1 && !final(self).finished
                && final(self).last_error == Some(e)),
            old(self).attempt == old(self).max_attempts ==> (result matches Err(e) ==> r
                == RetryAction::Exhausted(e) && final(self).finished && final(self).attempt
                == old(self).attempt && final(self).last_error == old(self).last_error),
    {
        match result {
            Ok(()) => {
                self.finished = true;
                RetryAction::Succeeded
            },
            Err(e) => {
                if self.attempt < self.max_attempts {
                    let delay_ms = backoff_ms(self.base_backoff_ms, self.attempt);
                    self.last_error = Some(e);
                    self.attempt = self.attempt + 1;
                    RetryAction::Retry { delay_ms }
                } else {
                    self.finished = true;
                    RetryAction::Exhausted(e)
                }
            },
        }
    }
}

} // verus!
