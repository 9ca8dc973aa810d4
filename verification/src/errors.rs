//! The error type shared by every stage of the pipeline.

use vstd::prelude::*;
use vstd::string::StringExecFns;

verus! {

/// The five kinds of failure.
#[derive(Clone, Copy, Debug, PartialEq, Eq, Structural)]
pub enum ErrorKind {
    ProfileUncompressFailed,
    DecodeFieldFailed,
    ValidationFailed,
    IoError,
    Unknown,
}

/// A failure of the pipeline, with the reason in words.
#[derive(Debug, PartialEq, Eq)]
pub enum RockError {
    /// The gzip envelope could not be inflated.
    ProfileUncompressFailed { reason: String },
    /// The wire stream is malformed.
    DecodeFieldFailed { reason: String },
    /// The profile breaks a structural rule.
    ValidationFailed { reason: String },
    /// The input could not be read.
    IoError { reason: String },
    /// Anything else.
    Unknown { reason: String },
}

/// The words that introduce the reason in the message of each kind.
pub open spec fn message_prefix(kind: ErrorKind) -> Seq<char> {
    match kind {
        ErrorKind::ProfileUncompressFailed => "Failed to read compressed data. Error: "@,
        ErrorKind::DecodeFieldFailed => "Failed to decode field, reason: "@,
        ErrorKind::ValidationFailed => "Profile validation failed, reason: "@,
        ErrorKind::IoError => "Failed to read input, reason: "@,
        ErrorKind::Unknown => "Unknown error, reason: "@,
    }
}

impl RockError {
    /// Which of the five kinds this error is.
    pub open spec fn kind_of(&self) -> ErrorKind {
        match self {
            RockError::ProfileUncompressFailed { .. } => ErrorKind::ProfileUncompressFailed,
            RockError::DecodeFieldFailed { .. } => ErrorKind::DecodeFieldFailed,
            RockError::ValidationFailed { .. } => ErrorKind::ValidationFailed,
            RockError::IoError { .. } => ErrorKind::IoError,
            RockError::Unknown { .. } => ErrorKind::Unknown,
        }
    }

    /// The reason as a sequence of characters.
    pub open spec fn reason_text(&self) -> Seq<char> {
        match self {
            RockError::ProfileUncompressFailed { reason } => reason@,
            RockError::DecodeFieldFailed { reason } => reason@,
            RockError::ValidationFailed { reason } => reason@,
            RockError::IoError { reason } => reason@,
            RockError::Unknown { reason } => reason@,
        }
    }

    /// Builds the error of a given kind.
    pub fn new(kind: ErrorKind, reason: &str) -> (e: RockError)
        ensures
            e.kind_of() == kind,
            e.reason_text() == reason@,
    {
        let reason = String::from_str(reason);
        match kind {
            ErrorKind::ProfileUncompressFailed => RockError::ProfileUncompressFailed { reason },
            ErrorKind::DecodeFieldFailed => RockError::DecodeFieldFailed { reason },
            ErrorKind::ValidationFailed => RockError::ValidationFailed { reason },
            ErrorKind::IoError => RockError::IoError { reason },
            ErrorKind::Unknown => RockError::Unknown { reason },
        }
    }

    /// Which of the five kinds this error is.
    pub fn kind(&self) -> (k: ErrorKind)
        ensures
            k == self.kind_of(),
    {
        match self {
            RockError::ProfileUncompressFailed { .. } => ErrorKind::ProfileUncompressFailed,
            RockError::DecodeFieldFailed { .. } => ErrorKind::DecodeFieldFailed,
            RockError::ValidationFailed { .. } => ErrorKind::ValidationFailed,
            RockError::IoError { .. } => ErrorKind::IoError,
            RockError::Unknown { .. } => ErrorKind::Unknown,
        }
    }

    /// The reason, borrowed.
    pub fn reason(&self) -> (r: &str)
        ensures
            r@ == self.reason_text(),
    {
        match self {
            RockError::ProfileUncompressFailed { reason } => reason.as_str(),
            RockError::DecodeFieldFailed { reason } => reason.as_str(),
            RockError::ValidationFailed { reason } => reason.as_str(),
            RockError::IoError { reason } => reason.as_str(),
            RockError::Unknown { reason } => reason.as_str(),
        }
    }

    /// The message shown to a user: the words of the kind, then the reason.
    pub fn message(&self) -> (s: String)
        ensures
            s@ == message_prefix(self.kind_of()) + self.reason_text(),
    {
        let mut s = match self {
            RockError::ProfileUncompressFailed { .. } => String::from_str(
                "Failed to read compressed data. Error: ",
            ),
            RockError::DecodeFieldFailed { .. } => String::from_str(
                "Failed to decode field, reason: ",
            ),
            RockError::ValidationFailed { .. } => String::from_str(
                "Profile validation failed, reason: ",
            ),
            RockError::IoError { .. } => String::from_str("Failed to read input, reason: "),
            RockError::Unknown { .. } => String::from_str("Unknown error, reason: "),
        };
        s.append(self.reason());
        s
    }
}

} // verus!
