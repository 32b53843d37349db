//! The contents of a subscription message.

use vstd::prelude::*;

use super::{Empty, RecordedEvent};

verus! {

/// What a subscription message carries.
#[derive(Debug, Clone, PartialEq, Eq)]
pub enum Content {
    /// A recorded event.
    Event(RecordedEvent),
    /// The catch-up phase is over.
    CaughtUp(Empty),
}

} // verus!
