use std::collections::HashMap;

use tp::command::{add_stock_message, local_request_message};
use tp::messages::{MessageType, StoreMessage, StoreState};
use tp::order::Order;
use tp::store::{StoreInformation, TransactionState};
use tp::store_actor::StoreActor;

fn stock(pairs: &[(u64, u64)]) -> HashMap<u64, u64> {
    pairs.iter().copied().collect()
}

fn message(message_type: MessageType) -> StoreMessage {
    StoreMessage { message_type, new_stock: None, transactions: None, orders: None }
}

fn own_info(actor: &mut StoreActor) -> StoreInformation {
    actor.handle_state(StoreState::CurrentState).expect("own state").1
}

fn update(actor: &mut StoreActor, id: u64, s: HashMap<u64, u64>) {
    let r = actor.handle_message(
        StoreMessage { message_type: MessageType::Update(id), new_stock: Some(s), transactions: None, orders: None },
        0,
    );
    assert!(r.is_none());
}

#[test]
fn new_actor_knows_only_itself() {
    let mut actor = StoreActor::new(7);
    assert_eq!(actor.self_id(), 7);
    let (id, info) = actor.handle_state(StoreState::CurrentState).unwrap();
    assert_eq!(id, 7);
    assert!(info.stock.is_empty());
    assert!(info.transactions.is_empty());
    assert!(info.is_online);
}

#[test]
fn add_stock_adds_to_own_stock() {
    let mut actor = StoreActor::new(1);
    assert!(actor.handle_message(add_stock_message(Order::new(5, 3)), 0).is_none());
    assert!(actor.handle_message(add_stock_message(Order::new(5, 4)), 0).is_none());
    assert!(actor.handle_message(add_stock_message(Order::new(6, 1)), 0).is_none());
    assert_eq!(own_info(&mut actor).stock, stock(&[(5, 7), (6, 1)]));
    assert!(actor.handle_message(message(MessageType::AddStock), 0).is_none());
    assert_eq!(own_info(&mut actor).stock, stock(&[(5, 7), (6, 1)]));
}

#[test]
fn local_request_is_all_or_nothing() {
    let mut actor = StoreActor::new(1);
    update(&mut actor, 1, stock(&[(1, 5), (2, 2)]));
    let refused = actor.handle_message(local_request_message(vec![Order::new(1, 2), Order::new(2, 3)]), 0);
    assert!(refused.is_none());
    assert_eq!(own_info(&mut actor).stock, stock(&[(1, 5), (2, 2)]));

    let t = actor
        .handle_message(local_request_message(vec![Order::new(1, 2), Order::new(2, 2)]), 0)
        .expect("sold");
    assert_eq!(t.id, 0);
    assert_eq!(t.state, TransactionState::Finalized);
    assert_eq!(t.involved_stock.get(&1), Some(&stock(&[(1, 2), (2, 2)])));
    assert_eq!(own_info(&mut actor).stock, stock(&[(1, 3), (2, 0)]));
    assert!(actor.handle_message(message(MessageType::LocalRequest), 0).is_none());
}

#[test]
fn request_reserves_locally_then_remotely() {
    let mut actor = StoreActor::new(1);
    update(&mut actor, 1, stock(&[(10, 4)]));
    update(&mut actor, 2, stock(&[(10, 9), (20, 5)]));
    update(&mut actor, 3, stock(&[(20, 1)]));
    let orders = vec![Order::new(10, 3), Order::new(20, 2)];
    let msg = StoreMessage { message_type: MessageType::Request, new_stock: None, transactions: None, orders: Some(orders) };
    let t = actor.handle_message(msg, 99).expect("a transaction");
    assert_eq!(t.id, 0);
    assert_eq!(t.state, TransactionState::AwaitingConfirmation);
    assert_eq!(t.involved_stock.get(&1), Some(&stock(&[(10, 3)])));
    assert_eq!(t.involved_stock.get(&2), Some(&stock(&[(20, 2)])));
    assert_eq!(t.involved_stock.get(&3), Some(&stock(&[])));
    let me = own_info(&mut actor);
    assert_eq!(me.stock, stock(&[(10, 1)]));
    assert_eq!(me.transactions.get(&99).map(|t| t.state), Some(TransactionState::AwaitingConfirmation));

    // Cancelling gives the other stores their stock back; the own store keeps its reduced stock.
    let c = actor.handle_message(message(MessageType::Cancel(99)), 0).expect("cancelled");
    assert_eq!(c.state, TransactionState::Cancelled);
    let me = own_info(&mut actor);
    assert_eq!(me.stock, stock(&[(10, 1)]));
    assert_eq!(me.transactions.get(&99).map(|t| t.state), Some(TransactionState::Cancelled));
    // A second request sees store 2 with its stock back.
    let msg = StoreMessage {
        message_type: MessageType::Request,
        new_stock: None,
        transactions: None,
        orders: Some(vec![Order::new(20, 5)]),
    };
    let t = actor.handle_message(msg, 100).expect("a transaction");
    assert_eq!(t.id, 1);
    assert_eq!(t.involved_stock.get(&2), Some(&stock(&[(20, 5)])));
    assert_eq!(t.involved_stock.get(&1), Some(&stock(&[])));
}

#[test]
fn request_without_orders_does_nothing() {
    let mut actor = StoreActor::new(4);
    assert!(actor.handle_message(message(MessageType::Request), 5).is_none());
    assert!(own_info(&mut actor).transactions.is_empty());
}

#[test]
fn random_request_key_is_where_the_transaction_is_kept() {
    let mut actor = StoreActor::new(1);
    update(&mut actor, 1, stock(&[(3, 3)]));
    let msg = StoreMessage {
        message_type: MessageType::Request,
        new_stock: None,
        transactions: None,
        orders: Some(vec![Order::new(3, 1)]),
    };
    let t = actor.handle(msg).expect("a transaction");
    assert_eq!(t.id, 0);
    let me = own_info(&mut actor);
    assert_eq!(me.transactions.len(), 1);
    assert_eq!(me.stock, stock(&[(3, 2)]));
}

#[test]
fn commit_marks_the_transaction_confirmed() {
    let mut actor = StoreActor::new(1);
    update(&mut actor, 1, stock(&[(1, 1)]));
    assert!(actor.handle_message(message(MessageType::Commit(8)), 0).is_none());
    let msg = StoreMessage {
        message_type: MessageType::Request,
        new_stock: None,
        transactions: None,
        orders: Some(vec![Order::new(1, 1)]),
    };
    actor.handle_message(msg, 8).unwrap();
    let t = actor.handle_message(message(MessageType::Commit(8)), 0).expect("committed");
    assert_eq!(t.state, TransactionState::NodeConfirmed);
    assert_eq!(own_info(&mut actor).stock, stock(&[(1, 0)]));
    assert!(actor.handle_message(message(MessageType::Confirm(8)), 0).is_none());
    assert!(actor.handle_message(message(MessageType::Cancel(12)), 0).is_none());
}

#[test]
fn ask_takes_all_or_nothing() {
    let mut actor = StoreActor::new(2);
    update(&mut actor, 2, stock(&[(1, 4), (2, 1)]));
    let too_much = StoreMessage {
        message_type: MessageType::Ask(5),
        new_stock: Some(stock(&[(1, 1), (2, 2)])),
        transactions: None,
        orders: None,
    };
    assert!(actor.handle_message(too_much, 0).is_none());
    assert_eq!(own_info(&mut actor).stock, stock(&[(1, 4), (2, 1)]));
    let ok = StoreMessage {
        message_type: MessageType::Ask(5),
        new_stock: Some(stock(&[(1, 1), (2, 1)])),
        transactions: None,
        orders: None,
    };
    let t = actor.handle_message(ok, 0).expect("asked");
    assert_eq!(t.id, 5);
    assert_eq!(t.state, TransactionState::AwaitingConfirmation);
    assert!(t.involved_stock.is_empty());
    assert_eq!(own_info(&mut actor).stock, stock(&[(1, 3), (2, 0)]));
    assert!(actor.handle_message(message(MessageType::Ask(6)), 0).is_none());
}

#[test]
fn update_replaces_what_is_known_of_a_store() {
    let mut actor = StoreActor::new(1);
    update(&mut actor, 3, stock(&[(9, 9)]));
    let r = actor.handle_message(message(MessageType::Update(3)), 0);
    assert!(r.is_none());
    // A request sees store 3's stock.
    let msg = StoreMessage {
        message_type: MessageType::Request,
        new_stock: None,
        transactions: None,
        orders: Some(vec![Order::new(9, 2)]),
    };
    let t = actor.handle_message(msg, 1).unwrap();
    assert_eq!(t.involved_stock.get(&3), Some(&stock(&[(9, 2)])));
    // The own information is untouched by the update of another store.
    assert!(own_info(&mut actor).stock.is_empty());
}

#[test]
fn shutdown_marks_a_store_unreachable() {
    let mut actor = StoreActor::new(1);
    assert!(actor.handle_state(StoreState::Shutdown(1)).is_none());
    assert!(!own_info(&mut actor).is_online);
    assert!(actor.handle_state(StoreState::Shutdown(42)).is_none());
}
