//! The policy of a poll: what one attempt may end in, when to try again and
//! when to give up, and the snapshot that a poll's outcome is published as.
//!
//! The caller owns the socket and the clock. It makes an attempt, reports
//! what the attempt ended in, and does what it is told next.

use crate::domain::Data;
use crate::failure::{Failure, FailureKind};
use vstd::prelude::*;

verus! {

/// What one attempt at a poll ended in.
#[derive(Clone, Copy, Debug, PartialEq, Eq, Structural)]
pub enum AttemptOutcome {
    /// The identity file gave no port and cookie.
    IdentityMissing,
    /// The connection to the daemon was refused.
    Refused,
    /// One of the three dumps broke off or never saw its end.
    DumpFailed,
    /// All three dumps came through; `purged` says whether the purge that
    /// follows them did too.
    Dumped { purged: bool },
}

/// What the caller is to do next.
#[derive(Clone, Copy, Debug, PartialEq, Eq, Structural)]
pub enum PollAction {
    /// Make another attempt.
    Attempt,
    /// Wait for so many milliseconds, then report the time that has passed
    /// since the poll began.
    Sleep { millis: u64 },
    /// Hand the graph of this attempt out.
    Deliver,
    /// End the poll with this failure.
    GiveUp { kind: FailureKind },
}

/// How long to wait between attempts, and for how long to keep trying.
#[derive(Clone, Copy, Debug, PartialEq, Eq, Structural)]
pub struct RetryPolicy {
    pub delay_ms: u64,
    pub budget_ms: u64,
}

impl RetryPolicy {
    /// What follows an attempt. A missing identity and a refused connection
    /// end the poll at once; a failed dump is tried again after the delay;
    /// a complete dump is delivered, whether or not the purge went through.
    pub open spec fn action_after_attempt(self, outcome: AttemptOutcome) -> PollAction {
        match outcome {
            AttemptOutcome::IdentityMissing => PollAction::GiveUp {
                kind: FailureKind::IdentityNotFound,
            },
            AttemptOutcome::Refused => PollAction::GiveUp { kind: FailureKind::ConnectionRefused },
            AttemptOutcome::DumpFailed => PollAction::Sleep { millis: self.delay_ms },
            AttemptOutcome::Dumped { purged } => PollAction::Deliver,
        }
    }

    /// What follows a wait, `elapsed_ms` milliseconds into the poll: the
    /// next attempt, unless more time has passed than the budget allows.
    pub open spec fn action_after_sleep(self, elapsed_ms: u64) -> PollAction {
        if elapsed_ms > self.budget_ms {
            PollAction::GiveUp { kind: FailureKind::Timeout }
        } else {
            PollAction::Attempt
        }
    }

    /// One second between attempts, five seconds in all.
    pub fn recommended() -> (policy: RetryPolicy)
        ensures
            policy.delay_ms == 1000,
            policy.budget_ms == 5000,
    {
        RetryPolicy { delay_ms: 1000, budget_ms: 5000 }
    }

    /// Decides what follows an attempt.
    pub fn after_attempt(&self, outcome: AttemptOutcome) -> (action: PollAction)
        ensures
            action == self.action_after_attempt(outcome),
    {
        match outcome {
            AttemptOutcome::IdentityMissing => PollAction::GiveUp {
                kind: FailureKind::IdentityNotFound,
            },
            AttemptOutcome::Refused => PollAction::GiveUp { kind: FailureKind::ConnectionRefused },
            AttemptOutcome::DumpFailed => PollAction::Sleep { millis: self.delay_ms },
            AttemptOutcome::Dumped { purged: _ } => PollAction::Deliver,
        }
    }

    /// Decides what follows a wait, `elapsed_ms` milliseconds into the poll.
    pub fn after_sleep(&self, elapsed_ms: u64) -> (action: PollAction)
        ensures
            action == self.action_after_sleep(elapsed_ms),
    {
        if elapsed_ms > self.budget_ms {
            PollAction::GiveUp { kind: FailureKind::Timeout }
        } else {
            PollAction::Attempt
        }
    }
}

/// A poll ends in failure only with a failure that ends polls, and with a
/// timeout only once the budget is spent; a failed purge never ends it.
pub proof fn lemma_poll_gives_up_only_on_terminal_failures(
    policy: RetryPolicy,
    outcome: AttemptOutcome,
    elapsed_ms: u64,
)
    ensures
        policy.action_after_attempt(outcome) matches PollAction::GiveUp { kind }
            ==> kind.is_terminal() && kind != FailureKind::Timeout,
        policy.action_after_sleep(elapsed_ms) matches PollAction::GiveUp { kind } ==> kind
            == FailureKind::Timeout && elapsed_ms > policy.budget_ms,
        elapsed_ms <= policy.budget_ms ==> policy.action_after_sleep(elapsed_ms)
            == PollAction::Attempt,
        outcome is Dumped ==> policy.action_after_attempt(outcome) == PollAction::Deliver,
{
}

/// The status of a snapshot that holds a graph.
pub const STATUS_OK: u32 = 200;

/// The status of a snapshot that holds a failure.
pub const STATUS_UNAVAILABLE: u32 = 503;

/// What is published after a poll: the graph, or the failure in words, and
/// a status that tells the two apart.
#[derive(Clone, Debug)]
pub struct Snapshot {
    pub data: Option<Data>,
    pub err: Option<String>,
    pub code: u32,
}

impl Snapshot {
    /// The snapshot of a poll's outcome.
    pub fn new(outcome: Result<Data, Failure>) -> (snapshot: Snapshot)
        ensures
            match outcome {
                Ok(data) => {
                    &&& snapshot.code == STATUS_OK
                    &&& snapshot.data == Some(data)
                    &&& snapshot.err is None
                },
                Err(failure) => {
                    &&& snapshot.code == STATUS_UNAVAILABLE
                    &&& snapshot.data is None
                    &&& snapshot.err is Some
                    &&& snapshot.err->0@ == failure.message()
                },
            },
    {
        match outcome {
            Ok(data) => Snapshot { data: Some(data), err: None, code: STATUS_OK },
            Err(failure) => {
                let text = match failure.cause {
                    Some(text) => text,
                    None => String::new(),
                };
                Snapshot { data: None, err: Some(text), code: STATUS_UNAVAILABLE }
            },
        }
    }
}

} // verus!
