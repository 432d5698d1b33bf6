//! Error taxonomy shared by every component: each failure is scoped to one
//! unit of work and carries a human-readable message.

use vstd::prelude::*;

verus! {

/// The error classes of the system. Per-file and per-item failures are
/// caught and counted by the callers; none is fatal to a whole batch.
#[derive(Debug, Clone, PartialEq, Eq)]
pub enum AppError {
    /// A failure of the relational store.
    Database(String),
    /// An authentication or authorization failure.
    Auth(String),
    /// An invariant violation inside the system itself.
    Internal(String),
    /// A referenced entity does not exist.
    NotFound(String),
    /// An invalid request, including a structural-operation conflict
    /// and an invalid scan root.
    BadRequest(String),
    /// A filesystem failure.
    Io(String),
    /// A tag-parse or metadata-provider failure.
    Metadata(String),
}

/// The wire shape in which an error is reported to clients.
#[derive(Debug, Clone, PartialEq, Eq)]
pub struct ErrorResponse {
    pub error: String,
}

impl AppError {
    /// The message carried by the error, whatever its class.
    pub fn message(&self) -> (r: &String)
        ensures
            r@ == self.spec_message(),
    {
        match self {
            AppError::Database(m) => m,
            AppError::Auth(m) => m,
            AppError::Internal(m) => m,
            AppError::NotFound(m) => m,
            AppError::BadRequest(m) => m,
            AppError::Io(m) => m,
            AppError::Metadata(m) => m,
        }
    }

    /// What `message` returns, as a mathematical value.
    pub open spec fn spec_message(&self) -> Seq<char> {
        match self {
            AppError::Database(m) => m@,
            AppError::Auth(m) => m@,
            AppError::Internal(m) => m@,
            AppError::NotFound(m) => m@,
            AppError::BadRequest(m) => m@,
            AppError::Io(m) => m@,
            AppError::Metadata(m) => m@,
        }
    }

    /// Packages the error for a client response.
    pub fn to_response(&self) -> (r: ErrorResponse)
        ensures
            r.error@ == self.spec_message(),
    {
        ErrorResponse { error: self.message().clone() }
    }
}

} // verus!
