//! The errors of a generation context.

use vstd::prelude::*;

verus! {

/// Why the context refused a request.
#[derive(Clone, Copy, Debug, PartialEq, Eq, Structural)]
pub enum ContextError {
    /// A configuration error: additional derives were given a second time.
    DerivesAlreadyIngested,
}

impl ContextError {
    /// The text of the error.
    pub fn message(&self) -> (text: String)
        ensures
            text@ == "derives may only be ingested once"@,
    {
        match self {
            ContextError::DerivesAlreadyIngested => "derives may only be ingested once".to_owned(),
        }
    }
}

} // verus!
