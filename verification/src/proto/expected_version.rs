//! The variants of the expected-version check.

use vstd::prelude::*;

use super::Empty;

verus! {

/// Which expected-version check an append asks for.
#[derive(Debug, Clone, Copy, PartialEq, Eq)]
pub enum Kind {
    /// No check.
    Any(Empty),
    /// The stream must not exist.
    NoStream(Empty),
    /// The stream must be at exactly this version.
    Exact(u64),
}

} // verus!
