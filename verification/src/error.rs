use vstd::prelude::*;

verus! {

/// Top-level application error, reported by the binary when any command fails.
#[derive(Debug, Clone, Copy, PartialEq, Eq, Structural)]
pub struct AppError;

/// A suggestion to help the user fix the error.
#[derive(Debug, Clone, Copy)]
pub struct Suggestion(pub &'static str);

/// A numeric code identifying an error condition.
#[derive(Debug, Clone, Copy, PartialEq, Eq, Structural)]
pub struct ErrorCode(u16);

} // verus!
