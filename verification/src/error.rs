//! The closed set of failures that a watcher can meet.

use vstd::prelude::*;

verus! {

/// What can go wrong while watching a feed.
#[derive(Debug)]
pub enum PollError {
    /// The feed could not be retrieved: the request could not be formed, the
    /// network failed or the time limit passed. The cycle is tried again at
    /// the next interval.
    Fetch { cause: String },
    /// The retrieved document is not a well-formed feed. Treated as `Fetch`.
    Parse { cause: String },
    /// A cache that may hold no identity at all was asked for.
    InvalidCapacity,
    /// One posting could not be delivered. Never stops the others.
    Notify { cause: String },
}

impl PollError {
    /// Whether the next cycle may simply try again: true of every failure
    /// that belongs to one cycle or one delivery, false of a failure at
    /// construction.
    pub fn is_transient(&self) -> (r: bool)
        ensures
            r == !(*self is InvalidCapacity),
    {
        match self {
            PollError::InvalidCapacity => false,
            _ => true,
        }
    }
}

} // verus!
