//! Errors of the metrics recorder.

use vstd::prelude::*;
use vstd::string::*;

verus! {

/// Failure to install the metrics recorder.
#[derive(Debug, Clone, Copy, PartialEq, Eq, Structural)]
pub enum MetricsError {
    /// A recorder is already installed in this process.
    AlreadyInstalled,
}

impl MetricsError {
    /// The human-readable message of the error.
    pub fn message(&self) -> (r: String)
        ensures
            r@ == "metrics recorder already installed"@,
    {
        match self {
            MetricsError::AlreadyInstalled => String::from_str("metrics recorder already installed"),
        }
    }
}

} // verus!
