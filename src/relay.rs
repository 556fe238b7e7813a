//! The retry policy of constraint submissions to the relay.
use vstd::prelude::*;

verus! {

/// Attempts made at most for one submission.
pub const MAX_ATTEMPTS: u32 = 5;

/// Milliseconds to wait before trying again.
pub const RETRY_INTERVAL_MS: u64 = 100;

/// How one submission attempt ended.
#[derive(Debug, Clone, Copy, PartialEq, Eq, Structural)]
pub enum SubmitOutcome {
    /// The request did not reach the relay or no response came back.
    TransportError,
    /// The relay answered with this HTTP status.
    Status(u16),
}

/// What to do after an attempt.
#[derive(Debug, Clone, Copy, PartialEq, Eq, Structural)]
pub enum RelayAction {
    /// The relay accepted the constraints.
    Done,
    /// Try again after this many milliseconds.
    RetryAfter(u64),
    /// Stop and report the failure.
    GiveUp,
}

/// What follows an attempt that ended with `outcome`, when `attempts` attempts had
/// been made before it.
pub open spec fn next_action(attempts: nat, outcome: SubmitOutcome) -> RelayAction {
    match outcome {
        SubmitOutcome::Status(code) if 200 <= code < 300 => RelayAction::Done,
        SubmitOutcome::Status(code) if !(500 <= code < 600) => RelayAction::GiveUp,
        _ => if attempts + 1 < MAX_ATTEMPTS {
            RelayAction::RetryAfter(RETRY_INTERVAL_MS)
        } else {
            RelayAction::GiveUp
        },
    }
}

/// The progress of one submission of constraints to the relay.
#[derive(Debug, Clone, Copy, PartialEq, Eq, Structural)]
pub struct RelaySubmission {
    /// Attempts made so far.
    pub attempts: u32,
}

impl RelaySubmission {
    /// A submission with no attempt made yet.
    pub fn new() -> (r: Self)
        ensures
            r.attempts == 0,
    {
        RelaySubmission { attempts: 0 }
    }

    /// Records the outcome of an attempt and says what to do next: success (2xx) and any
    /// answer other than a server error end the submission; transport and server (5xx)
    /// errors are retried until `MAX_ATTEMPTS` attempts were made.
    pub fn on_outcome(&mut self, outcome: SubmitOutcome) -> (r: RelayAction)
        ensures
            r == next_action(old(self).attempts as nat, outcome),
            final(self).attempts == if old(self).attempts < MAX_ATTEMPTS {
                old(self).attempts + 1
            } else {
                old(self).attempts as int
            },
    {
        if self.attempts < MAX_ATTEMPTS {
            self.attempts = self.attempts + 1;
        }
        match outcome {
            SubmitOutcome::Status(code) => {
                if 200 <= code && code < 300 {
                    return RelayAction::Done;
                }
                if !(500 <= code && code < 600) {
                    return RelayAction::GiveUp;
                }
            },
            SubmitOutcome::TransportError => {},
        }
        if self.attempts < MAX_ATTEMPTS {
            RelayAction::RetryAfter(RETRY_INTERVAL_MS)
        } else {
            RelayAction::GiveUp
        }
    }
}

/// A relay that fails every attempt with a transport or server error is tried exactly
/// `MAX_ATTEMPTS` times, `RETRY_INTERVAL_MS` apart, and then given up on.
pub proof fn lemma_retries_exhausted(outcome: SubmitOutcome)
    requires
        match outcome {
            SubmitOutcome::TransportError => true,
            SubmitOutcome::Status(code) => 500 <= code < 600,
        },
    ensures
        forall|k: nat| k + 1 < MAX_ATTEMPTS ==> #[trigger] next_action(k, outcome) == RelayAction::RetryAfter(
            RETRY_INTERVAL_MS,
        ),
        next_action((MAX_ATTEMPTS - 1) as nat, outcome) == RelayAction::GiveUp,
{
}

} // verus!
