//! The lifecycle of one connection.
//!
//! A connection is accepted, delivers messages, and ends. The application sees
//! this as envelopes in a fixed order: one `Connect`, then any number of
//! `Message`, then one `Disconnect`. What happens on the socket and on the
//! channel to the application arrives here as events; each event moves the
//! connection on and may yield the envelope to emit.

use crate::net::ClientMessage;
use vstd::prelude::*;

verus! {

/// How far one connection has come.
#[derive(Debug, Clone, Copy, PartialEq, Eq, Structural)]
pub enum ConnectionState {
    /// Accepted, not yet announced to the application.
    Connecting,
    /// Announced; messages are delivered.
    Connected,
    /// Its end was announced; its slot in the registry awaits release.
    Disconnecting,
    /// Over. Nothing follows.
    Disconnected,
}

/// What happened to one connection.
pub enum ConnectionEvent<T> {
    /// The connection was registered under its identifier.
    Accepted,
    /// A payload was decoded from its inbound bytes.
    Received(T),
    /// Its inbound stream ended.
    StreamEnded,
    /// Its inbound bytes could not be read or decoded.
    StreamFailed,
    /// The application kicked it.
    Kicked,
    /// Its outbound bytes could not be written.
    WriteFailed,
    /// Its slot in the registry was released.
    Released,
    /// The application no longer listens.
    ConsumerGone,
}

impl<T> ConnectionEvent<T> {
    /// Whether this event ends a connection that is up.
    pub open spec fn ends_connection(self) -> bool {
        self is StreamEnded || self is StreamFailed || self is Kicked || self is WriteFailed
    }
}

/// The state after `event` arrives in `state`.
pub open spec fn next_state<T>(state: ConnectionState, event: ConnectionEvent<T>) -> ConnectionState {
    match state {
        ConnectionState::Connecting => {
            if event is Accepted {
                ConnectionState::Connected
            } else if event.ends_connection() || event is ConsumerGone {
                ConnectionState::Disconnected
            } else {
                ConnectionState::Connecting
            }
        },
        ConnectionState::Connected => {
            if event.ends_connection() {
                ConnectionState::Disconnecting
            } else if event is ConsumerGone {
                ConnectionState::Disconnected
            } else {
                ConnectionState::Connected
            }
        },
        ConnectionState::Disconnecting => {
            if event is Released || event is ConsumerGone {
                ConnectionState::Disconnected
            } else {
                ConnectionState::Disconnecting
            }
        },
        ConnectionState::Disconnected => ConnectionState::Disconnected,
    }
}

/// The envelope to emit when `event` arrives in `state`, if there is one.
pub open spec fn emitted<T>(state: ConnectionState, event: ConnectionEvent<T>) -> Option<
    ClientMessage<T>,
> {
    match state {
        ConnectionState::Connecting => {
            if event is Accepted {
                Some(ClientMessage::Connect)
            } else {
                None
            }
        },
        ConnectionState::Connected => {
            match event {
                ConnectionEvent::Received(payload) => Some(ClientMessage::Message(payload)),
                _ => if event.ends_connection() {
                    Some(ClientMessage::Disconnect)
                } else {
                    None
                },
            }
        },
        _ => None,
    }
}

/// The state that a connection reaches from `state` through `events`.
pub open spec fn state_after<T>(state: ConnectionState, events: Seq<ConnectionEvent<T>>) -> ConnectionState
    decreases events.len(),
{
    if events.len() == 0 {
        state
    } else {
        next_state(state_after(state, events.drop_last()), events.last())
    }
}

/// The envelopes that a connection emits from `state` through `events`, in
/// order.
pub open spec fn envelopes<T>(state: ConnectionState, events: Seq<ConnectionEvent<T>>) -> Seq<
    ClientMessage<T>,
>
    decreases events.len(),
{
    if events.len() == 0 {
        Seq::empty()
    } else {
        let before = envelopes(state, events.drop_last());
        match emitted(state_after(state, events.drop_last()), events.last()) {
            Some(envelope) => before.push(envelope),
            None => before,
        }
    }
}

/// Whether `trace` is a beginning of a lifecycle: `Connect` stands first and
/// nowhere else, and `Disconnect` stands nowhere but last, after the `Connect`.
pub open spec fn in_lifecycle_order<T>(trace: Seq<ClientMessage<T>>) -> bool {
    &&& forall|i: int| 0 <= i < trace.len() ==> ((#[trigger] trace[i]) is Connect <==> i == 0)
    &&& forall|i: int|
        0 <= i < trace.len() && (#[trigger] trace[i]) is Disconnect ==> i == trace.len() - 1
}

/// Whether `trace` is a whole lifecycle: one `Connect`, then messages only,
/// then one `Disconnect`.
pub open spec fn is_whole_lifecycle<T>(trace: Seq<ClientMessage<T>>) -> bool {
    &&& trace.len() >= 2
    &&& trace.first() is Connect
    &&& trace.last() is Disconnect
    &&& forall|i: int| 0 < i < trace.len() - 1 ==> (#[trigger] trace[i]) is Message
}

/// One connection as the server follows it.
pub struct Connection {
    state: ConnectionState,
}

impl Connection {
    /// The state of this connection.
    pub closed spec fn spec_state(&self) -> ConnectionState {
        self.state
    }

    /// A connection that was just accepted.
    pub fn new() -> (connection: Self)
        ensures
            connection.spec_state() == ConnectionState::Connecting,
    {
        Connection { state: ConnectionState::Connecting }
    }

    /// The state of this connection.
    pub fn state(&self) -> (state: ConnectionState)
        ensures
            state == self.spec_state(),
    {
        self.state
    }

    /// Takes note of `event` and returns the envelope to emit for it, if any.
    pub fn handle<T>(&mut self, event: ConnectionEvent<T>) -> (envelope: Option<ClientMessage<T>>)
        ensures
            final(self).spec_state() == next_state(old(self).spec_state(), event),
            envelope == emitted(old(self).spec_state(), event),
    {
        match self.state {
            ConnectionState::Connecting => match event {
                ConnectionEvent::Accepted => {
                    self.state = ConnectionState::Connected;
                    Some(ClientMessage::Connect)
                },
                ConnectionEvent::Received(_) | ConnectionEvent::Released => None,
                _ => {
                    self.state = ConnectionState::Disconnected;
                    None
                },
            },
            ConnectionState::Connected => match event {
                ConnectionEvent::Received(payload) => Some(ClientMessage::Message(payload)),
                ConnectionEvent::Accepted | ConnectionEvent::Released => None,
                ConnectionEvent::ConsumerGone => {
                    self.state = ConnectionState::Disconnected;
                    None
                },
                _ => {
                    self.state = ConnectionState::Disconnecting;
                    Some(ClientMessage::Disconnect)
                },
            },
            ConnectionState::Disconnecting => match event {
                ConnectionEvent::Released | ConnectionEvent::ConsumerGone => {
                    self.state = ConnectionState::Disconnected;
                    None
                },
                _ => None,
            },
            ConnectionState::Disconnected => None,
        }
    }
}

/// Whether `trace` is a lifecycle that has begun and not ended: one
/// `Connect`, then messages only.
pub open spec fn is_open_lifecycle<T>(trace: Seq<ClientMessage<T>>) -> bool {
    &&& trace.len() >= 1
    &&& trace.first() is Connect
    &&& forall|i: int| 0 < i < trace.len() ==> (#[trigger] trace[i]) is Message
}

/// What a connection in `state` can have emitted so far.
pub open spec fn trace_fits<T>(state: ConnectionState, trace: Seq<ClientMessage<T>>) -> bool {
    match state {
        ConnectionState::Connecting => trace.len() == 0,
        ConnectionState::Connected => is_open_lifecycle(trace),
        ConnectionState::Disconnecting => is_whole_lifecycle(trace),
        ConnectionState::Disconnected => trace.len() == 0 || is_open_lifecycle(trace)
            || is_whole_lifecycle(trace),
    }
}

/// Whatever happens to a connection, what it has emitted fits the state it is
/// in.
pub proof fn lemma_trace_fits_state<T>(events: Seq<ConnectionEvent<T>>)
    ensures
        trace_fits(
            state_after(ConnectionState::Connecting, events),
            envelopes(ConnectionState::Connecting, events),
        ),
    decreases events.len(),
{
    if events.len() > 0 {
        lemma_trace_fits_state(events.drop_last());
    }
}

/// Whatever happens to a connection, its envelopes come in lifecycle order:
/// `Connect` first and only first, `Disconnect` last and only last.
pub proof fn lemma_lifecycle_order<T>(events: Seq<ConnectionEvent<T>>)
    ensures
        in_lifecycle_order(envelopes(ConnectionState::Connecting, events)),
{
    lemma_trace_fits_state(events);
}

/// A connection that was announced and came to its end while the application
/// kept listening has emitted a whole lifecycle: one `Connect`, then messages
/// only, then one `Disconnect`.
pub proof fn lemma_whole_lifecycle<T>(events: Seq<ConnectionEvent<T>>)
    requires
        events.len() > 0,
        events.first() is Accepted,
        forall|i: int| 0 <= i < events.len() ==> !((#[trigger] events[i]) is ConsumerGone),
    ensures
        ({
            let state = state_after(ConnectionState::Connecting, events);
            let trace = envelopes(ConnectionState::Connecting, events);
            &&& state != ConnectionState::Connecting
            &&& state == ConnectionState::Connected ==> is_open_lifecycle(trace)
            &&& state == ConnectionState::Disconnecting || state == ConnectionState::Disconnected
                ==> is_whole_lifecycle(trace)
        }),
    decreases events.len(),
{
    let earlier = events.drop_last();
    if earlier.len() > 0 {
        assert(earlier.first() == events.first());
        assert forall|i: int| 0 <= i < earlier.len() implies !((#[trigger] earlier[i])
            is ConsumerGone) by {
            assert(earlier[i] == events[i]);
        }
        lemma_whole_lifecycle(earlier);
        assert(!(events.last() is ConsumerGone));
    } else {
        assert(events.last() == events.first());
        assert(state_after(ConnectionState::Connecting, earlier) == ConnectionState::Connecting);
        assert(envelopes(ConnectionState::Connecting, earlier).len() == 0);
    }
}

/// A connection that is over emits nothing more and stays over, whatever
/// happens.
pub proof fn lemma_silent_once_disconnected<T>(
    events: Seq<ConnectionEvent<T>>,
    later: Seq<ConnectionEvent<T>>,
)
    requires
        state_after(ConnectionState::Connecting, events) == ConnectionState::Disconnected,
    ensures
        state_after(ConnectionState::Connecting, events + later) == ConnectionState::Disconnected,
        envelopes(ConnectionState::Connecting, events + later) == envelopes(
            ConnectionState::Connecting,
            events,
        ),
    decreases later.len(),
{
    if later.len() == 0 {
        assert(events + later =~= events);
    } else {
        assert((events + later).drop_last() =~= events + later.drop_last());
        lemma_silent_once_disconnected(events, later.drop_last());
    }
}

} // verus!
