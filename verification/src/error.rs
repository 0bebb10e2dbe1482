//! The ways in which generating a password can fail.

use vstd::prelude::*;

verus! {

/// Why no password was produced.
#[derive(Clone, Copy, Debug, PartialEq, Eq, Structural)]
pub enum PasswordError {
    /// The candidate set has fewer than two elements.
    InvalidCharset,
    /// Some element occurs more than once in the candidate set.
    DuplicateElements,
    /// The random source could not be had.
    RandomSourceUnavailable,
}

impl PasswordError {
    /// The text shown to a user for this error.
    pub fn message(&self) -> (text: &'static str)
        ensures
            text@ == match *self {
                PasswordError::InvalidCharset => "The character set is too small (only 0 or 1 elements) to generate distinct passwords!"@,
                PasswordError::DuplicateElements => "The character set contained duplicate elements!"@,
                PasswordError::RandomSourceUnavailable => "Random number generator failure."@,
            },
    {
        match self {
            PasswordError::InvalidCharset => "The character set is too small (only 0 or 1 elements) to generate distinct passwords!",
            PasswordError::DuplicateElements => "The character set contained duplicate elements!",
            PasswordError::RandomSourceUnavailable => "Random number generator failure.",
        }
    }
}

} // verus!
