//! The failure codes that the log's entry points can report.

use vstd::prelude::*;

verus! {

/// Every way an invocation against the log can fail. Each failure is
/// detected before any mutating step completes, so a caller that sees
/// one of these observes no state change at all.
#[derive(Clone, Copy, Debug, PartialEq, Eq, Structural)]
pub enum ContributionError {
    /// The supplied code hash was empty.
    EmptyCodeHash,
    /// The supplied code hash was longer than the allowed maximum.
    CodeHashTooLong,
    /// The signer is not the stored authority.
    AuthorityMismatch,
    /// The slot already holds data; the log was created earlier.
    AlreadyInitialized,
    /// The funding principal cannot cover the cost of the capacity growth.
    InsufficientFunds,
    /// The slot's bytes do not form a well-laid-out log.
    CorruptLayout,
}

impl ContributionError {
    /// The human-readable message attached to each failure code.
    pub open spec fn spec_message(self) -> Seq<char> {
        match self {
            ContributionError::EmptyCodeHash => "The provided code hash cannot be empty."@,
            ContributionError::CodeHashTooLong => "The provided code hash is too long. Max 64 characters."@,
            ContributionError::AuthorityMismatch => "Only the stored authority may append to the log."@,
            ContributionError::AlreadyInitialized => "The log slot has already been initialized."@,
            ContributionError::InsufficientFunds => "The funding principal cannot cover the capacity growth."@,
            ContributionError::CorruptLayout => "The slot does not hold a well-formed log."@,
        }
    }

    /// A human-readable description of the failure.
    pub fn message(&self) -> (r: &'static str)
        ensures
            r@ == self.spec_message(),
    {
        match self {
            ContributionError::EmptyCodeHash => "The provided code hash cannot be empty.",
            ContributionError::CodeHashTooLong => "The provided code hash is too long. Max 64 characters.",
            ContributionError::AuthorityMismatch => "Only the stored authority may append to the log.",
            ContributionError::AlreadyInitialized => "The log slot has already been initialized.",
            ContributionError::InsufficientFunds => "The funding principal cannot cover the capacity growth.",
            ContributionError::CorruptLayout => "The slot does not hold a well-formed log.",
        }
    }
}

} // verus!
