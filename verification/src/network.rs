use vstd::prelude::*;

use crate::messages::{MessageType, RequestID, StoreMessage};
use crate::order::Order;
use crate::protocol::RequestState;
use crate::purchase_state::PurchaseState;
use crate::store::{Transaction, TransactionState};

verus! {

/// Orders to a listener or a connection.
#[derive(Debug, Clone, Copy, PartialEq, Eq, Structural)]
pub enum ListenerState {
    /// Start listening.
    Start,
    /// Stop listening for now.
    Down,
    /// Stop listening for good.
    Shutdown,
}

/// Whether a listener is listening.
#[derive(Debug, Clone, Copy, PartialEq, Eq, Structural)]
pub enum ListenerPhase {
    Listening,
    Waiting,
}

/// What a listener does on an order.
#[derive(Debug, Clone, Copy, PartialEq, Eq, Structural)]
pub enum ListenerAction {
    /// Start a new listening, with a new cancellation token.
    StartListening,
    /// Cancel the current listening; it returns to waiting once it has finished.
    CancelListening,
    /// Nothing.
    Nothing,
}

/// The life cycle of a listener: `Start` while waiting starts a listening; `Down` or
/// `Shutdown` while listening cancels it, and the listener stays listening until the
/// listening has finished; any other pair does nothing.
pub open spec fn listener_step_spec(phase: ListenerPhase, msg: ListenerState) -> (ListenerPhase, ListenerAction) {
    match (msg, phase) {
        (ListenerState::Start, ListenerPhase::Waiting) => (ListenerPhase::Listening, ListenerAction::StartListening),
        (ListenerState::Down, ListenerPhase::Listening) => (ListenerPhase::Listening, ListenerAction::CancelListening),
        (ListenerState::Shutdown, ListenerPhase::Listening) => (ListenerPhase::Listening, ListenerAction::CancelListening),
        _ => (phase, ListenerAction::Nothing),
    }
}

/// The next phase of a listener and what it does on an order.
pub fn listener_step(phase: ListenerPhase, msg: ListenerState) -> (r: (ListenerPhase, ListenerAction))
    ensures
        r == listener_step_spec(phase, msg),
{
    match (msg, phase) {
        (ListenerState::Start, ListenerPhase::Waiting) => (ListenerPhase::Listening, ListenerAction::StartListening),
        (ListenerState::Down, ListenerPhase::Listening) => (ListenerPhase::Listening, ListenerAction::CancelListening),
        (ListenerState::Shutdown, ListenerPhase::Listening) => (ListenerPhase::Listening, ListenerAction::CancelListening),
        _ => (phase, ListenerAction::Nothing),
    }
}

/// The phase of a listener once its listening has finished.
pub fn listening_finished() -> (p: ListenerPhase)
    ensures
        p == ListenerPhase::Waiting,
{
    ListenerPhase::Waiting
}

/// A listener runs at most one listening: an order while listening never starts another,
/// and stopping a waiting listener does nothing.
pub proof fn lemma_listener_single_listening(phase: ListenerPhase, msg: ListenerState)
    ensures
        phase == ListenerPhase::Listening ==> listener_step_spec(phase, msg).1 != ListenerAction::StartListening,
        phase == ListenerPhase::Waiting && msg != ListenerState::Start ==> listener_step_spec(phase, msg) == (phase, ListenerAction::Nothing),
        listener_step_spec(phase, msg).1 == ListenerAction::StartListening ==> listener_step_spec(
            listener_step_spec(phase, msg).0,
            ListenerState::Start,
        ).1 == ListenerAction::Nothing,
{
}

/// Whether a connection with an e-commerce closes on an order: on `Down` and `Shutdown`.
pub fn connection_closes(msg: ListenerState) -> (r: bool)
    ensures
        r == (msg != ListenerState::Start),
{
    match msg {
        ListenerState::Down | ListenerState::Shutdown => true,
        ListenerState::Start => false,
    }
}

/// A store message that carries nothing but its type.
pub fn control_message(message_type: MessageType) -> (m: StoreMessage)
    ensures
        m@.message_type == message_type,
        m@.new_stock is None,
        m@.transactions is None,
        m@.orders is None,
{
    StoreMessage { message_type, new_stock: None, transactions: None, orders: None }
}

/// The message that asks the store to reserve an order from an e-commerce.
pub fn order_request_message(order: Order) -> (m: StoreMessage)
    ensures
        m@.message_type == MessageType::Request,
        m@.orders == Some(seq![order]),
        m@.new_stock is None,
        m@.transactions is None,
{
    let mut v: Vec<Order> = Vec::new();
    v.push(order);
    proof {
        assert(v@ =~= seq![order]);
    }
    StoreMessage { message_type: MessageType::Request, transactions: None, new_stock: None, orders: Some(v) }
}

/// The answer to the e-commerce when the store's transaction came back cancelled.
pub fn cancelled_reply(t: &Transaction) -> (r: Option<PurchaseState>)
    ensures
        r == (if t.state == TransactionState::Cancelled {
            Some(PurchaseState::Cancel(t.id))
        } else {
            None::<PurchaseState>
        }),
{
    match t.state {
        TransactionState::Cancelled => Some(PurchaseState::Cancel(t.id)),
        _ => None,
    }
}

/// How a purchase ends once every other store answered: what the store is told, the step
/// the other stores are told, and the answer to the e-commerce.
pub struct Conclusion {
    pub to_store: StoreMessage,
    pub to_nodes: RequestState,
    pub to_ecommerce: PurchaseState,
}

/// Ends a purchase: when some store could not reserve its part, it is cancelled everywhere;
/// otherwise it is confirmed everywhere.
pub fn purchase_conclusion(id: RequestID, cancelled: bool) -> (c: Conclusion)
    ensures
        c.to_store@.message_type == (if cancelled {
            MessageType::Cancel(id)
        } else {
            MessageType::Confirm(id)
        }),
        c.to_store@.new_stock is None && c.to_store@.transactions is None && c.to_store@.orders is None,
        c.to_nodes == (if cancelled {
            RequestState::Cancel
        } else {
            RequestState::Confirm
        }),
        c.to_ecommerce == (if cancelled {
            PurchaseState::Cancel(id)
        } else {
            PurchaseState::Confirm(id)
        }),
{
    if cancelled {
        Conclusion {
            to_store: control_message(MessageType::Cancel(id)),
            to_nodes: RequestState::Cancel,
            to_ecommerce: PurchaseState::Cancel(id),
        }
    } else {
        Conclusion {
            to_store: control_message(MessageType::Confirm(id)),
            to_nodes: RequestState::Confirm,
            to_ecommerce: PurchaseState::Confirm(id),
        }
    }
}

/// What the store does when the e-commerce commits or cancels a purchase: the same
/// conclusion, told to the store, to the other stores and back to the e-commerce. A
/// confirmation from the e-commerce asks nothing.
pub fn ecommerce_decision(p: PurchaseState) -> (c: Option<Conclusion>)
    ensures
        match p {
            PurchaseState::Confirm(_) => c is None,
            PurchaseState::Commit(id) => c matches Some(x) && x.to_store@.message_type == MessageType::Commit(id)
                && x.to_store@.new_stock is None && x.to_store@.transactions is None
                && x.to_store@.orders is None && x.to_nodes == RequestState::Commit && x.to_ecommerce
                == PurchaseState::Commit(id),
            PurchaseState::Cancel(id) => c matches Some(x) && x.to_store@.message_type == MessageType::Cancel(id)
                && x.to_store@.new_stock is None && x.to_store@.transactions is None
                && x.to_store@.orders is None && x.to_nodes == RequestState::Cancel && x.to_ecommerce
                == PurchaseState::Cancel(id),
        },
{
    match p {
        PurchaseState::Confirm(_) => None,
        PurchaseState::Commit(id) => Some(
            Conclusion {
                to_store: control_message(MessageType::Commit(id)),
                to_nodes: RequestState::Commit,
                to_ecommerce: PurchaseState::Commit(id),
            },
        ),
        PurchaseState::Cancel(id) => Some(
            Conclusion {
                to_store: control_message(MessageType::Cancel(id)),
                to_nodes: RequestState::Cancel,
                to_ecommerce: PurchaseState::Cancel(id),
            },
        ),
    }
}

} // verus!
