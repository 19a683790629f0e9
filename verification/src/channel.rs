//! What became of a message that was handed to a channel.
use vstd::prelude::*;

verus! {

/// What became of a message that was handed to a channel.
#[derive(Clone, Copy, Debug, PartialEq, Eq, Structural)]
pub enum SendOutcome {
    Sent,
    /// The channel had no room, and the message was dropped.
    Full,
    /// Nobody receives from the channel any more.
    Closed,
}

} // verus!
