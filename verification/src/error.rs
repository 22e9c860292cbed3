//! Errors surfaced by the conflict-resolving client, and the per-document
//! write statuses the store reports.

use vstd::prelude::*;

verus! {

/// Outcome the store reports for one written document.
#[derive(Debug, Clone)]
pub enum WriteStatus {
    /// The write was applied.
    Applied,
    /// The write lost a race: its base revision is stale.
    VersionConflict,
    /// The target document or revision no longer exists; carries the
    /// store's detail message.
    NotFound(String),
    /// Any other failure; carries the store's detail message.
    Other(String),
}

/// An error of the conflict-resolving client.  Callers get both a detailed
/// internal cause (for logging) and a short, non-sensitive, user-facing
/// message.
#[derive(Debug)]
pub enum HackClientError {
    /// The store failed in a way resolution cannot absorb; carries the
    /// store's detailed error message.
    InternalDBError(String),
    /// The bounded retry budget was used up by version conflicts while
    /// concurrent writers kept racing the resolution.
    ResolutionExhausted,
}

impl HackClientError {
    /// A short message safe to show to an end user.
    pub fn end_user_error_message(&self) -> (r: String)
        ensures
            self is InternalDBError ==> r@ == "there has been an internal database error"@,
            self is ResolutionExhausted ==> r@
                == "the database is too contended, please retry later"@,
    {
        match self {
            Self::InternalDBError(_) => "there has been an internal database error".to_owned(),
            Self::ResolutionExhausted => "the database is too contended, please retry later"
                .to_owned(),
        }
    }

    /// The detailed internal cause, for logging.
    pub fn detail(&self) -> (r: &str)
        ensures
            self is InternalDBError ==> r@ == self->InternalDBError_0@,
            self is ResolutionExhausted ==> r@ == "resolution attempts exhausted"@,
    {
        match self {
            Self::InternalDBError(d) => d.as_str(),
            Self::ResolutionExhausted => "resolution attempts exhausted",
        }
    }
}

} // verus!
