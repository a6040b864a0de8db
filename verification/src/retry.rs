//! The retry policy of a batch whose writer meets contention: exponential
//! backoff over a bounded number of attempts.
use vstd::prelude::*;
use crate::store_model::StoreError;

verus! {

/// Most attempts made at one batch.
pub const MAX_ATTEMPTS: u32 = 5;

/// Pause after the first contended attempt, in milliseconds.
pub const INITIAL_DELAY_MS: u64 = 100;

/// Longest pause between two attempts, in milliseconds.
pub const MAX_DELAY_MS: u64 = 1600;

/// How one attempt at a batch ended.
#[derive(Debug, Clone, Copy, PartialEq, Eq, Structural)]
pub enum AttemptOutcome {
    /// The batch was committed.
    Committed,
    /// Another writer held the store.
    Contended,
    /// The attempt failed for a reason that no retry mends.
    Failed(StoreError),
}

/// What to do after an attempt.
#[derive(Debug, Clone, Copy, PartialEq, Eq, Structural)]
pub enum RetryAction {
    /// The batch is applied.
    Done,
    /// Wait this many milliseconds, then try again.
    RetryAfter(u64),
    /// Stop and report the error.
    GiveUp(StoreError),
}

/// Where a batch stands in its sequence of attempts.
#[derive(Debug, Clone, Copy, PartialEq, Eq, Structural)]
pub struct RetryState {
    /// Attempts that ended in contention so far.
    pub attempts: u32,
    /// Pause before the next attempt, in milliseconds.
    pub delay_ms: u64,
}

/// The pause that follows a pause of `delay_ms`: twice as long, up to the
/// cap.
pub open spec fn next_delay(delay_ms: u64) -> u64 {
    if delay_ms >= MAX_DELAY_MS / 2 {
        MAX_DELAY_MS
    } else {
        (delay_ms * 2) as u64
    }
}

impl RetryState {
    /// The state before the first attempt.
    pub open spec fn initial() -> RetryState {
        RetryState { attempts: 0, delay_ms: INITIAL_DELAY_MS }
    }

    /// What follows an attempt that ended in `outcome`, and the state for
    /// the attempt after it. Contention is met with a retry until
    /// `MAX_ATTEMPTS` attempts are made; then the batch fails as busy.
    pub open spec fn step(self, outcome: AttemptOutcome) -> (RetryState, RetryAction) {
        match outcome {
            AttemptOutcome::Committed => (self, RetryAction::Done),
            AttemptOutcome::Failed(e) => (self, RetryAction::GiveUp(e)),
            AttemptOutcome::Contended => {
                if self.attempts + 1 < MAX_ATTEMPTS {
                    (
                        RetryState {
                            attempts: (self.attempts + 1) as u32,
                            delay_ms: next_delay(self.delay_ms),
                        },
                        RetryAction::RetryAfter(self.delay_ms),
                    )
                } else {
                    (self, RetryAction::GiveUp(StoreError::BusyError))
                }
            },
        }
    }

    pub fn new() -> (state: RetryState)
        ensures
            state == RetryState::initial(),
    {
        RetryState { attempts: 0, delay_ms: INITIAL_DELAY_MS }
    }

    /// Takes note of how an attempt ended and says what to do next.
    pub fn next(&mut self, outcome: AttemptOutcome) -> (action: RetryAction)
        ensures
            (*final(self), action) == old(self).step(outcome),
    {
        match outcome {
            AttemptOutcome::Committed => RetryAction::Done,
            AttemptOutcome::Failed(e) => RetryAction::GiveUp(e),
            AttemptOutcome::Contended => {
                if self.attempts < MAX_ATTEMPTS - 1 {
                    let pause = self.delay_ms;
                    self.attempts = self.attempts + 1;
                    self.delay_ms = if pause >= MAX_DELAY_MS / 2 {
                        MAX_DELAY_MS
                    } else {
                        pause * 2
                    };
                    RetryAction::RetryAfter(pause)
                } else {
                    RetryAction::GiveUp(StoreError::BusyError)
                }
            },
        }
    }
}

/// The state after `n` contended attempts in a row.
pub open spec fn after_contention(n: nat) -> RetryState
    decreases n,
{
    if n == 0 {
        RetryState::initial()
    } else {
        after_contention((n - 1) as nat).step(AttemptOutcome::Contended).0
    }
}

/// Under sustained contention the first four attempts are followed by
/// pauses of 100, 200, 400 and 800 milliseconds, and the fifth attempt ends
/// the batch as busy. No pause exceeds the cap.
pub proof fn lemma_backoff_schedule()
    ensures
        after_contention(0).step(AttemptOutcome::Contended).1 == RetryAction::RetryAfter(100),
        after_contention(1).step(AttemptOutcome::Contended).1 == RetryAction::RetryAfter(200),
        after_contention(2).step(AttemptOutcome::Contended).1 == RetryAction::RetryAfter(400),
        after_contention(3).step(AttemptOutcome::Contended).1 == RetryAction::RetryAfter(800),
        after_contention(4).step(AttemptOutcome::Contended).1 == RetryAction::GiveUp(
            StoreError::BusyError,
        ),
        forall|d: u64| next_delay(d) <= MAX_DELAY_MS,
{
    reveal_with_fuel(after_contention, 6);
}

} // verus!
