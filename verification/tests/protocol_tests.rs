use std::collections::HashMap;

use tp::client::{
    commit_or_cancel, determine_commit_or_cancel, final_answer, first_answer, get_closest_store,
    remove_port, PurchaseStep,
};
use tp::framing::{frame_message, read_message, unframe, BUFSIZE};
use tp::messages::MessageType as StoreMessageType;
use tp::network::{
    cancelled_reply, connection_closes, ecommerce_decision, listener_step, order_request_message,
    purchase_conclusion, ListenerAction, ListenerPhase, ListenerState,
};
use tp::node_comm::{after_event, route, MessageType as PeerType, PeerAction, Route};
use tp::order::Order;
use tp::protocol::{
    ask_response, check_request_fits, get_node_modifications_for, get_node_request_with,
    get_transaction_type, glue_action, notifications, purchase_cancelled, transform_info,
    transform_request, transform_update, AbsoluteStateUpdate, GlueAction, MessageType,
    NodeModification, ProtocolEvent, ProtocolMessage, ProtocolStoreMessage, Request, RequestState,
};
use tp::purchase_state::PurchaseState;
use tp::store::{StoreInformation, Transaction, TransactionState};

fn stock(pairs: &[(u64, u64)]) -> HashMap<u64, u64> {
    pairs.iter().copied().collect()
}

fn request_message(from: u64, state: RequestState, mods: Vec<NodeModification<HashMap<u64, u64>>>) -> ProtocolStoreMessage {
    ProtocolMessage {
        from,
        message_type: MessageType::Request,
        request_information: Some(Request { request_id: 31, requester: from, request_state: state, information: Some(mods) }),
        update_information: None,
    }
}

#[test]
fn frames_read_back() {
    let buf = frame_message("Commit 12");
    assert_eq!(buf.len(), BUFSIZE);
    assert_eq!(&buf[..9], b"Commit 12");
    assert!(buf[9..].iter().all(|b| *b == 0));
    assert_eq!(read_message(&buf), "Commit 12");
    let long = "x".repeat(600);
    let buf = frame_message(&long);
    assert_eq!(buf.len(), BUFSIZE);
    assert_eq!(read_message(&buf), "x".repeat(BUFSIZE));
    assert_eq!(unframe(&[1, 2, 0, 3]), vec![1, 2]);
    assert_eq!(read_message(&[0xff, b'a', 0]), "\u{fffd}a");
    assert_eq!(read_message("né".as_bytes()), "né");
}

#[test]
fn transaction_types() {
    assert_eq!(get_transaction_type(4, RequestState::Ask), StoreMessageType::Ask(4));
    assert_eq!(get_transaction_type(4, RequestState::Confirm), StoreMessageType::Confirm(4));
    assert_eq!(get_transaction_type(4, RequestState::Commit), StoreMessageType::Commit(4));
    assert_eq!(get_transaction_type(4, RequestState::Cancel), StoreMessageType::Cancel(4));
}

#[test]
fn requests_sum_the_stock_asked_of_a_node() {
    let mods = vec![
        NodeModification { affected: 2, modifications: vec![stock(&[(1, 3)]), stock(&[(1, 4), (5, 1)])] },
        NodeModification { affected: 3, modifications: vec![stock(&[(1, 100)])] },
        NodeModification { affected: 2, modifications: vec![stock(&[(5, 2)])] },
    ];
    let msg = request_message(9, RequestState::Ask, mods);
    assert!(check_request_fits(2, &msg));
    let (id, m) = transform_request(2, msg).expect("something for node 2");
    assert_eq!(id, 31);
    assert_eq!(m.message_type, StoreMessageType::Ask(31));
    let mut orders: Vec<(u64, u64)> = m.orders.unwrap().iter().map(|o| (o.get_product(), o.get_qty())).collect();
    orders.sort();
    assert_eq!(orders, vec![(1, 7), (5, 3)]);

    let nothing = request_message(9, RequestState::Commit, vec![NodeModification { affected: 3, modifications: vec![] }]);
    assert!(transform_request(2, nothing).is_none());
    let overflow = request_message(
        9,
        RequestState::Ask,
        vec![NodeModification { affected: 2, modifications: vec![stock(&[(1, u64::MAX)]), stock(&[(1, 1)])] }],
    );
    assert!(!check_request_fits(2, &overflow));
}

#[test]
fn glue_decides_by_message_type() {
    let bye: ProtocolStoreMessage = ProtocolMessage { from: 1, message_type: MessageType::Goodbye, request_information: None, update_information: None };
    assert!(matches!(glue_action(2, bye), GlueAction::Teardown));

    let mut t = HashMap::new();
    t.insert(5u128, Transaction { id: 5, state: TransactionState::Finalized, involved_stock: HashMap::new() });
    let update: ProtocolStoreMessage = ProtocolMessage {
        from: 1,
        message_type: MessageType::Update,
        request_information: None,
        update_information: Some(AbsoluteStateUpdate {
            stock_update: Some(stock(&[(1, 1)])),
            transaction_update: Some(vec![Transaction { id: 5, state: TransactionState::Cancelled, involved_stock: HashMap::new() }]),
        }),
    };
    match glue_action(2, update) {
        GlueAction::Update(Some(m)) => {
            assert_eq!(m.message_type, StoreMessageType::Update(1));
            assert_eq!(m.new_stock, Some(stock(&[(1, 1)])));
            assert_eq!(m.transactions.unwrap().get(&5).unwrap().state, TransactionState::Cancelled);
        },
        other => panic!("unexpected {:?}", other),
    }
    let empty_update: ProtocolStoreMessage = ProtocolMessage { from: 1, message_type: MessageType::Update, request_information: None, update_information: None };
    assert!(transform_update(1, empty_update).is_none());

    let ask = request_message(9, RequestState::Ask, vec![NodeModification { affected: 2, modifications: vec![stock(&[(1, 1)])] }]);
    assert!(matches!(glue_action(2, ask), GlueAction::Ask(31, _)));
    let commit = request_message(9, RequestState::Commit, vec![NodeModification { affected: 2, modifications: vec![stock(&[(1, 1)])] }]);
    assert!(matches!(glue_action(2, commit), GlueAction::Forward(_)));
    let elsewhere = request_message(9, RequestState::Commit, vec![NodeModification { affected: 3, modifications: vec![stock(&[(1, 1)])] }]);
    assert!(matches!(glue_action(2, elsewhere), GlueAction::Invalid));
}

#[test]
fn answers_and_notifications() {
    let yes = ask_response(2, 9, 31, true);
    assert_eq!(yes.request_information.as_ref().unwrap().request_state, RequestState::Confirm);
    let no = ask_response(2, 9, 31, false);
    assert_eq!(no.request_information.as_ref().unwrap().request_state, RequestState::Cancel);
    assert!(purchase_cancelled(&vec![yes, no]));
    assert!(!purchase_cancelled(&vec![ask_response(2, 9, 31, true)]));

    let mut involved = HashMap::new();
    involved.insert(1u64, stock(&[(1, 1)]));
    involved.insert(2u64, stock(&[(2, 2)]));
    involved.insert(3u64, stock(&[]));
    let mods = get_node_modifications_for(&involved);
    assert_eq!(mods.len(), 3);
    for m in &mods {
        assert_eq!(m.modifications, vec![involved[&m.affected].clone()]);
    }
    let req = get_node_request_with(Some(mods), 8, RequestState::Ask, 1);
    assert_eq!(req.from, 1);
    assert_eq!(req.request_information.as_ref().unwrap().request_id, 8);

    let t = Transaction { id: 8, state: TransactionState::AwaitingConfirmation, involved_stock: involved };
    let mut targets: Vec<u64> = notifications(RequestState::Commit, &t, 1).iter().map(|(s, _)| *s).collect();
    targets.sort();
    assert_eq!(targets, vec![2, 3]);
}

#[test]
fn state_updates_carry_everything() {
    let mut info = StoreInformation::random();
    info.stock.insert(4, 4);
    info.transactions.insert(10, Transaction { id: 1, state: TransactionState::Finalized, involved_stock: HashMap::new() });
    info.transactions.insert(11, Transaction { id: 2, state: TransactionState::Cancelled, involved_stock: HashMap::new() });
    let m = transform_info(6, info);
    assert_eq!(m.from, 6);
    assert_eq!(m.message_type, MessageType::Update);
    let u = m.update_information.unwrap();
    assert_eq!(u.stock_update, Some(stock(&[(4, 4)])));
    let mut ids: Vec<u128> = u.transaction_update.unwrap().iter().map(|t| t.id).collect();
    ids.sort();
    assert_eq!(ids, vec![1, 2]);
}

#[test]
fn listener_table() {
    assert_eq!(listener_step(ListenerPhase::Waiting, ListenerState::Start), (ListenerPhase::Listening, ListenerAction::StartListening));
    assert_eq!(listener_step(ListenerPhase::Listening, ListenerState::Start), (ListenerPhase::Listening, ListenerAction::Nothing));
    assert_eq!(listener_step(ListenerPhase::Listening, ListenerState::Down), (ListenerPhase::Listening, ListenerAction::CancelListening));
    assert_eq!(listener_step(ListenerPhase::Listening, ListenerState::Shutdown), (ListenerPhase::Listening, ListenerAction::CancelListening));
    assert_eq!(listener_step(ListenerPhase::Waiting, ListenerState::Shutdown), (ListenerPhase::Waiting, ListenerAction::Nothing));
    assert!(connection_closes(ListenerState::Down));
    assert!(!connection_closes(ListenerState::Start));
}

#[test]
fn purchase_flow_at_the_store() {
    let m = order_request_message(Order::new(1, 2));
    assert_eq!(m.message_type, StoreMessageType::Request);
    assert_eq!(m.orders, Some(vec![Order::new(1, 2)]));
    let t = Transaction { id: 3, state: TransactionState::Cancelled, involved_stock: HashMap::new() };
    assert_eq!(cancelled_reply(&t), Some(PurchaseState::Cancel(3)));
    let c = purchase_conclusion(3, true);
    assert_eq!(c.to_store.message_type, StoreMessageType::Cancel(3));
    assert_eq!(c.to_nodes, RequestState::Cancel);
    assert_eq!(c.to_ecommerce, PurchaseState::Cancel(3));
    let c = purchase_conclusion(3, false);
    assert_eq!(c.to_ecommerce, PurchaseState::Confirm(3));
    assert!(ecommerce_decision(PurchaseState::Confirm(3)).is_none());
    let c = ecommerce_decision(PurchaseState::Commit(3)).unwrap();
    assert_eq!(c.to_store.message_type, StoreMessageType::Commit(3));
    assert_eq!(c.to_nodes, RequestState::Commit);
}

#[test]
fn purchase_flow_at_the_ecommerce() {
    assert_eq!(first_answer(PurchaseState::Confirm(5)), PurchaseStep::Decide(5));
    assert_eq!(first_answer(PurchaseState::Cancel(5)), PurchaseStep::Done(PurchaseState::Cancel(5)));
    assert_eq!(final_answer(5, PurchaseState::Commit(6)), PurchaseState::Commit(6));
    assert_eq!(final_answer(5, PurchaseState::Confirm(6)), PurchaseState::Cancel(5));
    assert_eq!(commit_or_cancel(5, 0), PurchaseState::Cancel(5));
    assert_eq!(commit_or_cancel(5, 9), PurchaseState::Commit(5));
    for _ in 0..20 {
        let s = determine_commit_or_cancel(77);
        assert!(s == "Commit 77" || s == "Cancel 77");
    }
    assert_eq!(get_closest_store(&vec![]), None);
    for _ in 0..20 {
        let p = get_closest_store(&vec![10, 20, 30]).unwrap();
        assert!([10, 20, 30].contains(&p));
    }
    let mut ports = vec![1, 2, 3, 2];
    remove_port(&mut ports, 2);
    assert_eq!(ports, vec![1, 3, 2]);
}

#[test]
fn peer_routing() {
    assert_eq!(route(PeerType::Request, None), Route::Dispatch);
    assert_eq!(route(PeerType::Hello, Some(1)), Route::Greeting);
    assert_eq!(route(PeerType::Response, Some(4)), Route::Deliver(4));
    assert_eq!(route(PeerType::Error, None), Route::Orphan);
    let (reg, a) = after_event::<u8>(1, 2, Some(3), false, ProtocolEvent::MaybeNew);
    assert!(reg);
    assert!(matches!(a, PeerAction::Register(2)));
    let (reg, a) = after_event::<u8>(1, 2, Some(3), true, ProtocolEvent::MaybeNew);
    assert!(reg);
    assert!(matches!(a, PeerAction::Nothing));
    let (_, a) = after_event(1, 2, Some(3), true, ProtocolEvent::Response(9u8));
    match a {
        PeerAction::Respond(m) => {
            assert_eq!(m.correlation_id, Some(3));
            assert_eq!(m.body, Some(9));
            assert_eq!(m.from, 1);
        },
        _ => panic!("expected a response"),
    }
    let (_, a) = after_event::<u8>(1, 2, None, true, ProtocolEvent::Teardown);
    assert!(matches!(a, PeerAction::Stop));
}
