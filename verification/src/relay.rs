//! The relay that carries finished spans to the backend, one at a time and
//! in the order in which they finished.
//!
//! The relay works apart from the actor, so that a slow backend never holds
//! up the handling of commands. This module holds what the relay decides;
//! the delivery itself is the caller's.

use vstd::prelude::*;

verus! {

/// What became of the attempt to deliver one finished span.
#[derive(Clone, Copy, Debug, PartialEq, Eq, Structural)]
pub enum Delivery {
    Delivered,
    Failed,
}

/// What the relay does after an attempt.
#[derive(Clone, Copy, Debug, PartialEq, Eq, Structural)]
pub enum RelayAction {
    /// Take the next finished span.
    Continue,
    /// Give up for good: a relay that went on after a failure would drop
    /// spans without a word.
    Abort,
}

/// The relay's policy: it goes on after a delivery and gives up after a
/// failure.
pub open spec fn policy(delivery: Delivery) -> RelayAction {
    match delivery {
        Delivery::Delivered => RelayAction::Continue,
        Delivery::Failed => RelayAction::Abort,
    }
}

/// Decides what the relay does after an attempt to deliver a span.
pub fn after_delivery(delivery: Delivery) -> (action: RelayAction)
    ensures
        action == policy(delivery),
{
    match delivery {
        Delivery::Delivered => RelayAction::Continue,
        Delivery::Failed => RelayAction::Abort,
    }
}

} // verus!
