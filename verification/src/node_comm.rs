use vstd::prelude::*;

use crate::protocol::{NodeID, ProtocolEvent};

verus! {

/// Correlates a response with the request it answers.
pub type CorrelationID = u64;

/// The kind of a message on a connection between nodes.
#[derive(Debug, Clone, Copy, PartialEq, Eq, Structural)]
pub enum MessageType {
    Hello,
    Request,
    Response,
    Error,
}

/// A message on a connection between nodes: who sends it, the request it answers or
/// awaits an answer for, and its body.
#[derive(Debug)]
pub struct InterNodeMessage<T> {
    pub from: NodeID,
    pub correlation_id: Option<CorrelationID>,
    pub message_type: MessageType,
    pub body: Option<T>,
}

/// The greeting that a node sends first on a new connection.
pub fn hello<T>(me: NodeID) -> (m: InterNodeMessage<T>)
    ensures
        m.from == me,
        m.correlation_id is None,
        m.message_type == MessageType::Hello,
        m.body is None,
{
    InterNodeMessage { from: me, correlation_id: None, message_type: MessageType::Hello, body: None }
}

/// A request from node `me`; with a correlation id when an answer is awaited.
pub fn request<T>(me: NodeID, correlation_id: Option<CorrelationID>, body: T) -> (m: InterNodeMessage<T>)
    ensures
        m.from == me,
        m.correlation_id == correlation_id,
        m.message_type == MessageType::Request,
        m.body == Some(body),
{
    InterNodeMessage { from: me, correlation_id, message_type: MessageType::Request, body: Some(body) }
}

/// What a node does with a message that it received.
#[derive(Debug, Clone, Copy, PartialEq, Eq, Structural)]
pub enum Route {
    /// Hand the body to the local actor.
    Dispatch,
    /// Hand the body to whoever awaits the answer with this correlation id.
    Deliver(CorrelationID),
    /// An answer that nobody can await: report it and drop it.
    Orphan,
    /// The sender introduced itself.
    Greeting,
}

/// Routes a received message by its kind and correlation id.
pub fn route(message_type: MessageType, correlation_id: Option<CorrelationID>) -> (r: Route)
    ensures
        r == match message_type {
            MessageType::Request => Route::Dispatch,
            MessageType::Hello => Route::Greeting,
            _ => match correlation_id {
                Some(c) => Route::Deliver(c),
                None => Route::Orphan,
            },
        },
{
    match message_type {
        MessageType::Request => Route::Dispatch,
        MessageType::Hello => Route::Greeting,
        MessageType::Response | MessageType::Error => match correlation_id {
            Some(c) => Route::Deliver(c),
            None => Route::Orphan,
        },
    }
}

/// What a connection does after the local actor handled a request.
#[derive(Debug)]
pub enum PeerAction<T> {
    /// Register the connection as the one to this node.
    Register(NodeID),
    /// Send this answer back.
    Respond(InterNodeMessage<T>),
    /// Close the connection.
    Stop,
    /// Nothing.
    Nothing,
}

/// The connection's next state (whether it is registered as the one to its peer) and what
/// it does, after a greeting from `from`: it registers once, on the first greeting.
pub fn after_greeting<T>(registered: bool, from: NodeID) -> (r: (bool, PeerAction<T>))
    ensures
        r.0,
        registered ==> r.1 is Nothing,
        !registered ==> (r.1 matches PeerAction::Register(id) && id == from),
{
    if registered {
        (true, PeerAction::Nothing)
    } else {
        (true, PeerAction::Register(from))
    }
}

/// The connection's next state and what it does after the local actor handled a request
/// from `from`: a possibly new peer is registered once; an answer goes back with the
/// request's correlation id; a teardown closes the connection.
pub fn after_event<T>(
    me: NodeID,
    from: NodeID,
    correlation_id: Option<CorrelationID>,
    registered: bool,
    event: ProtocolEvent<T>,
) -> (r: (bool, PeerAction<T>))
    ensures
        match event {
            ProtocolEvent::MaybeNew => r.0 && (if registered {
                r.1 is Nothing
            } else {
                (r.1 matches PeerAction::Register(id) && id == from)
            }),
            ProtocolEvent::Response(body) => r.0 == registered && (r.1 matches PeerAction::Respond(m)
                && m.from == me && m.correlation_id == correlation_id && m.message_type
                == MessageType::Response && m.body == Some(body)),
            ProtocolEvent::Teardown => r.0 == registered && r.1 is Stop,
            ProtocolEvent::Nothing => r.0 == registered && r.1 is Nothing,
        },
{
    match event {
        ProtocolEvent::MaybeNew => after_greeting(registered, from),
        ProtocolEvent::Response(body) => (
            registered,
            PeerAction::Respond(
                InterNodeMessage {
                    from: me,
                    correlation_id,
                    message_type: MessageType::Response,
                    body: Some(body),
                },
            ),
        ),
        ProtocolEvent::Teardown => (registered, PeerAction::Stop),
        ProtocolEvent::Nothing => (registered, PeerAction::Nothing),
    }
}

/// The error answer of node `me` when its actor failed to handle a request.
pub fn error_message(me: NodeID, text: String) -> (m: InterNodeMessage<String>)
    ensures
        m.from == me,
        m.correlation_id is None,
        m.message_type == MessageType::Error,
        m.body == Some(text),
{
    InterNodeMessage { from: me, correlation_id: None, message_type: MessageType::Error, body: Some(text) }
}

} // verus!
