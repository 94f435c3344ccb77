use vstd::prelude::*;

verus! {

/// The error kinds the credential store and the token manager report.
///
/// A wrong password on `Safe::verify` is a normal `Ok(false)`, never an
/// error: only structural problems are errors.
#[derive(Debug)]
pub enum SafeBoxError {
    /// A credential lookup found no row for the given username.
    UserNotExist(String),
    /// `create` was attempted against a username that already has a row.
    UserAlreadyExist(String),
    /// The store invariant is violated: more than one row for one username.
    /// Carries the username whose rows are duplicated.
    InvalidData(String),
    /// The stored hash string is malformed, or the hashing backend failed.
    /// Deliberately carries no detail, so that a caller cannot tell a
    /// malformed record from a backend failure.
    Crypto,
}

} // verus!
