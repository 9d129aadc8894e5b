//! The failures of a poll, by kind.

use vstd::prelude::*;

verus! {

/// The ways in which polling the daemon goes wrong.
#[derive(Clone, Copy, Debug, PartialEq, Eq, Structural)]
pub enum FailureKind {
    /// The identity file is absent or cannot be read as one.
    IdentityNotFound,
    /// The daemon is not listening.
    ConnectionRefused,
    /// No attempt succeeded within the time allowed.
    Timeout,
    /// One line of a dump has too few fields.
    MalformedRecord,
    /// The daemon did not take the purge command.
    PurgeFailed,
}

impl FailureKind {
    /// The failures that end a poll. The others are passed over: a malformed
    /// line is skipped, a failed purge is forgotten.
    pub open spec fn is_terminal(self) -> bool {
        self is IdentityNotFound || self is ConnectionRefused || self is Timeout
    }

    /// Whether this failure ends a poll.
    pub fn ends_poll(&self) -> (r: bool)
        ensures
            r == self.is_terminal(),
    {
        match self {
            FailureKind::IdentityNotFound => true,
            FailureKind::ConnectionRefused => true,
            FailureKind::Timeout => true,
            FailureKind::MalformedRecord => false,
            FailureKind::PurgeFailed => false,
        }
    }
}

/// A failure and, where one is known, its cause in words.
#[derive(Clone, Debug)]
pub struct Failure {
    pub kind: FailureKind,
    pub cause: Option<String>,
}

impl Failure {
    /// The text that is published for the failure: its cause, or nothing.
    pub open spec fn message(self) -> Seq<char> {
        match self.cause {
            Some(text) => text@,
            None => Seq::empty(),
        }
    }
}

} // verus!
