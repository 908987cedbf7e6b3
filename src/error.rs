//! Errors of the search engine.
use vstd::prelude::*;

verus! {

/// The error type of the `pgp` crate.
#[verifier::external_type_specification]
#[verifier::external_body]
pub struct ExPgpError(pgp::errors::Error);

/// What can stop a search with an error.
#[derive(Debug)]
pub enum ApgpkError {
    /// Key synthesis or export failed inside the cryptography library.
    PgpLibError(pgp::errors::Error),
    /// No key can be made with this creation instant.
    InstantOutOfRange(i64),
    /// The maximum backshift reaches before the earliest instant, from this epoch.
    BackshiftOutOfRange(i64),
    /// The system clock reads before 1970, or past what an `i64` holds.
    ClockOutOfRange,
    /// Anything else, with a description.
    Other(String),
}

/// An error that key synthesis can give.
pub open spec fn is_synthesis_error(e: ApgpkError) -> bool {
    e is PgpLibError || e is InstantOutOfRange || e is Other
}

} // verus!
