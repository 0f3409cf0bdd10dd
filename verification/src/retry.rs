//! How often a request is tried again.
//!
//! A request that can be retried `retries` times is attempted at most
//! `retries + 1` times. The caller waits the configured delay before each
//! attempt but the first, and not after the last.

use vstd::prelude::*;

verus! {

/// Counts the attempts that are left.
#[derive(Debug, Clone, Copy, PartialEq, Eq, Structural)]
pub struct Retry {
    /// How many more attempts may follow a failed one.
    pub left: usize,
}

/// What follows an attempt.
#[derive(Debug, Clone, Copy, PartialEq, Eq, Structural)]
pub enum Verdict {
    /// The attempt succeeded.
    Accept,
    /// The attempt failed; wait, then try again.
    Again,
    /// The attempt failed and was the last.
    GiveUp,
}

/// What follows an attempt when `left` more may follow a failed one.
pub open spec fn verdict(left: nat, succeeded: bool) -> Verdict {
    if succeeded {
        Verdict::Accept
    } else if left > 0 {
        Verdict::Again
    } else {
        Verdict::GiveUp
    }
}

/// How many attempts may follow a failed one, after an attempt.
pub open spec fn left_after(left: nat, succeeded: bool) -> nat {
    if !succeeded && left > 0 {
        (left - 1) as nat
    } else {
        left
    }
}

/// How many attempts may still follow a failed one after `failures` attempts
/// in a row have failed, `retries` being allowed at the start.
pub open spec fn left_after_failures(retries: nat, failures: nat) -> nat
    decreases failures,
{
    if failures == 0 {
        retries
    } else {
        left_after(left_after_failures(retries, (failures - 1) as nat), false)
    }
}

impl Retry {
    /// Allows `retries` attempts after the first.
    pub fn new(retries: usize) -> (r: Self)
        ensures
            r.left == retries,
    {
        Retry { left: retries }
    }

    /// Records an attempt and says what follows it.
    pub fn record(&mut self, succeeded: bool) -> (v: Verdict)
        ensures
            v == verdict(old(self).left as nat, succeeded),
            final(self).left == left_after(old(self).left as nat, succeeded),
    {
        if succeeded {
            Verdict::Accept
        } else if self.left > 0 {
            self.left = self.left - 1;
            Verdict::Again
        } else {
            Verdict::GiveUp
        }
    }
}

/// While attempts fail in a row, each failure uses up one retry.
pub proof fn lemma_left_after_failures(retries: nat, failures: nat)
    requires
        failures <= retries,
    ensures
        left_after_failures(retries, failures) == retries - failures,
    decreases failures,
{
    if failures > 0 {
        lemma_left_after_failures(retries, (failures - 1) as nat);
    }
}

/// When every attempt fails, exactly `retries + 1` attempts are made: each of
/// the first `retries` failures is followed by another attempt, and the
/// failure after them ends the run.
pub proof fn law_failures_end_after_all_attempts(retries: nat, attempt: nat)
    requires
        attempt <= retries,
    ensures
        verdict(left_after_failures(retries, attempt), false) == if attempt < retries {
            Verdict::Again
        } else {
            Verdict::GiveUp
        },
{
    lemma_left_after_failures(retries, attempt);
}

} // verus!
