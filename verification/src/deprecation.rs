//! How generation treats schema fields that are marked as deprecated.

use vstd::prelude::*;

verus! {

/// What to do with a deprecated field that a query selects.
#[derive(Clone, Copy, Debug, PartialEq, Eq, Structural)]
pub enum DeprecationStrategy {
    /// Generate the field like any other.
    Allow,
    /// Refuse the query.
    Deny,
    /// Generate the field and warn about it.
    Warn,
}

} // verus!
