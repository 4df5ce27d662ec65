//! Errors reported to the user interface.
use vstd::prelude::*;

verus! {

/// An error of a command, with the text shown to the user.
#[derive(Debug)]
pub enum AppError {
    /// A message for the user.
    Custom(String),
    /// A configuration change failed.
    Config(String),
    /// An internal failure.
    Internal(String),
    /// The video platform refused a request.
    Biliup(String),
    /// No logged-in user with this id.
    UserNotFound(u64),
}

} // verus!
