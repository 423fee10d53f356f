//! Events delivered over a session's push channel, and the decision taken
//! for each of them by the loop that drains the channel.
use vstd::prelude::*;

verus! {

/// An event pushed to the subscriber of a session.
#[derive(Debug, Clone, Copy, PartialEq, Eq, Structural)]
pub enum McpSocketUpdateEvent {
    Shutdown,
}

impl McpSocketUpdateEvent {
    /// Whether the event asks the subscriber's stream to end.
    pub fn is_shutdown(&self) -> (r: bool)
        ensures
            r <==> *self == McpSocketUpdateEvent::Shutdown,
    {
        match self {
            McpSocketUpdateEvent::Shutdown => true,
        }
    }
}

/// What the stream loop does after waiting on the channel once.
#[derive(Debug, Clone, Copy, PartialEq, Eq, Structural)]
pub enum StreamStep {
    /// Keep waiting for the next event.
    Continue,
    /// End the stream.
    Stop,
}

/// Decides the next step of the push-stream loop from what the channel gave:
/// `None` is a closed channel. The loop ends on a closed channel or on
/// `Shutdown`, and goes on otherwise.
pub fn stream_step(received: Option<McpSocketUpdateEvent>) -> (r: StreamStep)
    ensures
        r == StreamStep::Stop <==> (received is None || received == Some(
            McpSocketUpdateEvent::Shutdown,
        )),
{
    match received {
        None => StreamStep::Stop,
        Some(event) => {
            if event.is_shutdown() {
                StreamStep::Stop
            } else {
                StreamStep::Continue
            }
        },
    }
}

} // verus!
