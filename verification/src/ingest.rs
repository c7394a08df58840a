//! The ingest actor's state machine.
//!
//! The actor alternates between waiting for a peer notification, requesting a
//! batch of messages over the tunnel that the notification announced, and
//! ingesting what arrived. The decisions — which event each state waits for,
//! which request it issues, and which state comes next — are verified here;
//! the loop that owns the channels and the tunnel runs outside the library and
//! feeds events in.

use vstd::prelude::*;

verus! {

/// Where the actor stands.
#[derive(Debug, Clone, Copy, PartialEq, Eq, Structural)]
pub enum State {
    WaitingForNotification,
    ExecutingMessagesRequest,
    Ingesting,
}

/// An event handed to the actor. A notification announces a tunnel to a peer;
/// the tunnel itself stays with the loop that owns the I/O.
#[derive(Debug, Clone, Copy, PartialEq, Eq, Structural)]
pub enum Event {
    Notification,
    Messages(u8),
}

/// A request the actor asks the loop to perform over the announced tunnel.
#[derive(Debug, Clone, Copy, PartialEq, Eq, Structural)]
pub enum Request {
    Messages(u8),
}

/// The transition table: each state waits for one event shape and ignores the
/// rest; ingesting completes by itself.
pub open spec fn step_spec(state: State, event: Event) -> (State, Option<Request>) {
    match state {
        State::WaitingForNotification => match event {
            Event::Notification => (State::ExecutingMessagesRequest, Some(Request::Messages(69))),
            _ => (state, None),
        },
        State::ExecutingMessagesRequest => match event {
            Event::Messages(_) => (State::Ingesting, None),
            _ => (state, None),
        },
        State::Ingesting => (State::WaitingForNotification, None),
    }
}

/// Advance the actor by one event: the next state, and the request the loop
/// should perform, when there is one.
pub fn step(state: State, event: Event) -> (r: (State, Option<Request>))
    ensures
        r == step_spec(state, event),
{
    match state {
        State::WaitingForNotification => match event {
            Event::Notification => (
                State::ExecutingMessagesRequest,
                Some(Request::Messages(69)),
            ),
            _ => (state, None),
        },
        State::ExecutingMessagesRequest => match event {
            Event::Messages(_) => (State::Ingesting, None),
            _ => (state, None),
        },
        State::Ingesting => (State::WaitingForNotification, None),
    }
}

} // verus!
