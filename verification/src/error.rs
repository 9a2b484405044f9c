//! Failure kinds of the snapshot pipeline.

use vstd::prelude::*;

verus! {

/// Every failure aborts the enclosing operation immediately: there is no
/// partial snapshot and no automatic retry.  Transport and decoding
/// failures carry the originating cause as text.
#[derive(Debug, Clone)]
pub enum Error {
    /// A repository reference was not exactly two non-empty segments.
    MalformedReference,
    /// The transport layer failed; the cause is kept for diagnostics.
    NetworkFailure(String),
    /// A response body could not be decoded; the cause is kept.
    DecodeFailure(String),
    /// A board number was absent from its repository's board list after
    /// full pagination.
    ProjectNotFound,
    /// Drill-down was invoked on a project whose identifier was never
    /// resolved: an internal precondition violation.
    MissingProjectId,
}

impl Error {
    /// The reason text of this failure: the wrapped cause where one was
    /// recorded, a fixed description otherwise.
    pub fn message(&self) -> (r: String)
        ensures
            r@ == self.spec_message(),
    {
        match self {
            Error::MalformedReference => "malformed reference".to_owned(),
            Error::NetworkFailure(cause) => cause.clone(),
            Error::DecodeFailure(cause) => cause.clone(),
            Error::ProjectNotFound => "project not found".to_owned(),
            Error::MissingProjectId => "project id is none".to_owned(),
        }
    }

    pub open spec fn spec_message(&self) -> Seq<char> {
        match self {
            Error::MalformedReference => "malformed reference"@,
            Error::NetworkFailure(cause) => cause@,
            Error::DecodeFailure(cause) => cause@,
            Error::ProjectNotFound => "project not found"@,
            Error::MissingProjectId => "project id is none"@,
        }
    }
}

} // verus!
