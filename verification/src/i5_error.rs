//! Failure values surfaced while preparing an Interface5 request.

use vstd::prelude::*;

verus! {

/// Failures that can arise when an Interface5 payload is validated or
/// rendered to its wire format. Transport-level failures stay with the
/// transport layer and never reach this core.
#[derive(Debug, Clone, Copy, PartialEq, Eq, Structural)]
pub enum I5RequestError {
    /// The payload failed its structural validation.
    ValidationError,
    /// Rendering a validated payload into the JSON wire text failed.
    SerializeError,
}

impl I5RequestError {
    /// The text `message` returns for each failure.
    pub open spec fn spec_message(self) -> Seq<char> {
        match self {
            I5RequestError::ValidationError => "I5Request not valid!"@,
            I5RequestError::SerializeError => "Failed to convert Object to String"@,
        }
    }

    /// A human-readable description of the failure.
    pub fn message(&self) -> (s: &'static str)
        ensures
            s@ == self.spec_message(),
    {
        match self {
            I5RequestError::ValidationError => "I5Request not valid!",
            I5RequestError::SerializeError => "Failed to convert Object to String",
        }
    }
}

} // verus!
