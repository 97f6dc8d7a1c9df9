use vstd::prelude::*;

use crate::message::RoutingMessage;

verus! {

/// A request from the application to the routing core.
pub enum Action {
    /// Sign the message and send it on across the network.
    SendMessage(RoutingMessage),
    /// Take no new actions; handle the events already queued, then stop.
    Terminate,
}

/// Discards a result whose outcome the caller does not act on.
pub fn ignore<R, E>(_r: Result<R, E>) {
}

} // verus!
