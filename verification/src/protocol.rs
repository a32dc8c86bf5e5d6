use std::collections::HashMap;
use vstd::prelude::*;

use crate::messages::{self, MessageType as StoreMessageType, RequestID, StoreID, StoreMessage};
use crate::order::Order;
use crate::stock::{self, key_list, Stock};
use crate::store::{self, StoreInformation, Transaction, TransactionState, TransactionView};
use crate::store_actor;

verus! {

broadcast use vstd::std_specs::hash::group_hash_axioms;

/// Identifies a node (a store) in the inter-node protocol.
pub type NodeID = u64;

/// The kind of a message between nodes.
#[derive(Debug, Clone, Copy, PartialEq, Eq, Structural)]
pub enum MessageType {
    /// The sender leaves.
    Goodbye,
    /// The sender's current state.
    Update,
    /// A step of a purchase request.
    Request,
}

/// The step of a purchase request that a message carries.
#[derive(Debug, Clone, Copy, PartialEq, Eq, Structural)]
pub enum RequestState {
    /// Reserve the stock of the request.
    Ask,
    /// The stock is reserved; or, to the other nodes, all of them reserved it.
    Confirm,
    /// The purchase is completed.
    Commit,
    /// The purchase is cancelled; or, as an answer, the stock could not be reserved.
    Cancel,
}

/// What one node changes in another: the stock it wants from it.
#[derive(Debug)]
pub struct NodeModification<M> {
    pub affected: NodeID,
    pub modifications: Vec<M>,
}

/// A step of a purchase request, with the stock that each node is asked for.
#[derive(Debug)]
pub struct Request<M> {
    pub request_id: RequestID,
    pub requester: NodeID,
    pub request_state: RequestState,
    pub information: Option<Vec<NodeModification<M>>>,
}

/// A message between nodes.
#[derive(Debug)]
pub struct ProtocolMessage<M, S> {
    pub from: NodeID,
    pub message_type: MessageType,
    pub request_information: Option<Request<M>>,
    pub update_information: Option<S>,
}

/// The whole state of a node, as it tells the others.
#[derive(Debug)]
pub struct AbsoluteStateUpdate {
    pub stock_update: Option<Stock>,
    pub transaction_update: Option<Vec<Transaction>>,
}

/// The messages that stores exchange.
pub type ProtocolStoreMessage = ProtocolMessage<Stock, AbsoluteStateUpdate>;

/// What handling a message from another node leads to.
#[derive(Debug)]
pub enum ProtocolEvent<T> {
    /// Nothing to answer.
    Nothing,
    /// The sender may be a node not seen before.
    MaybeNew,
    /// This answer goes back to the sender.
    Response(T),
    /// The connection ends.
    Teardown,
}

/// The lifetime of the connection with a node.
#[derive(Debug, Clone, Copy, PartialEq, Eq, Structural)]
pub enum ActorLifetime {
    /// The connection with this node went down.
    Shutdown(NodeID),
}

/// The stocks of a sequence of modifications, each by its view.
pub open spec fn stocks_view(v: Seq<Stock>) -> Seq<Map<u64, u64>> {
    v.map_values(|s: Stock| s@)
}

/// A node modification as values: the node, and the stocks asked of it.
pub open spec fn modification_view(m: NodeModification<Stock>) -> (NodeID, Seq<Map<u64, u64>>) {
    (m.affected, stocks_view(m.modifications@))
}

/// The stocks asked of node `me`, in order: those of every modification that affects it.
pub open spec fn stocks_for(mods: Seq<(NodeID, Seq<Map<u64, u64>>)>, me: NodeID) -> Seq<Map<u64, u64>>
    decreases mods.len(),
{
    if mods.len() == 0 {
        Seq::empty()
    } else {
        stocks_for(mods.drop_last(), me) + if mods.last().0 == me {
            mods.last().1
        } else {
            Seq::empty()
        }
    }
}

/// The sum of stocks, product by product.
pub open spec fn stock_sum(stocks: Seq<Map<u64, u64>>) -> Map<u64, u64>
    decreases stocks.len(),
{
    if stocks.len() == 0 {
        Map::empty()
    } else {
        stock::stock_plus(stock_sum(stocks.drop_last()), stocks.last())
    }
}

/// Adding the stocks up in turn keeps every quantity within `u64`.
pub open spec fn stock_sum_fits(stocks: Seq<Map<u64, u64>>) -> bool
    decreases stocks.len(),
{
    stocks.len() > 0 ==> stock_sum_fits(stocks.drop_last()) && stock::fits_plus(
        stock_sum(stocks.drop_last()),
        stocks.last(),
    )
}

/// The modifications of a request message, if it has any, as values.
pub open spec fn request_modifications(msg: ProtocolStoreMessage) -> Option<Seq<(NodeID, Seq<Map<u64, u64>>)>> {
    match msg.request_information {
        Some(r) => match r.information {
            Some(v) => Some(v@.map_values(|m: NodeModification<Stock>| modification_view(m))),
            None => None,
        },
        None => None,
    }
}

/// The store message type that each step of a request becomes.
pub open spec fn transaction_type(request: RequestID, action: RequestState) -> StoreMessageType {
    match action {
        RequestState::Ask => StoreMessageType::Ask(request),
        RequestState::Confirm => StoreMessageType::Confirm(request),
        RequestState::Commit => StoreMessageType::Commit(request),
        RequestState::Cancel => StoreMessageType::Cancel(request),
    }
}

/// The store message type of a step of a request.
pub fn get_transaction_type(request: RequestID, action: RequestState) -> (t: StoreMessageType)
    ensures
        t == transaction_type(request, action),
{
    match action {
        RequestState::Ask => StoreMessageType::Ask(request),
        RequestState::Confirm => StoreMessageType::Confirm(request),
        RequestState::Commit => StoreMessageType::Commit(request),
        RequestState::Cancel => StoreMessageType::Cancel(request),
    }
}

/// The transactions, keyed by their ids: a later transaction with an id replaces an earlier one.
pub open spec fn transactions_by_id(ts: Seq<TransactionView>) -> Map<RequestID, TransactionView>
    decreases ts.len(),
{
    if ts.len() == 0 {
        Map::empty()
    } else {
        transactions_by_id(ts.drop_last()).insert(ts.last().id, ts.last())
    }
}

/// Keys transactions by their ids.
fn transactions_map(ts: Vec<Transaction>) -> (m: HashMap<RequestID, Transaction>)
    ensures
        messages::transactions_view(m) == transactions_by_id(ts@.map_values(|t: Transaction| t@)),
{
    let ghost views = ts@.map_values(|t: Transaction| t@);
    let mut m: HashMap<RequestID, Transaction> = HashMap::new();
    let mut i: usize = 0;
    while i < ts.len()
        invariant
            i <= ts@.len(),
            views == ts@.map_values(|t: Transaction| t@),
            messages::transactions_view(m) == transactions_by_id(views.take(i as int)),
        decreases ts@.len() - i,
    {
        let t = ts[i].clone();
        let ghost before = messages::transactions_view(m);
        m.insert(t.id, t);
        proof {
            assert(views.take(i + 1).drop_last() =~= views.take(i as int));
            assert(views.take(i + 1).last() == views[i as int]);
            assert(messages::transactions_view(m) =~= before.insert(views[i as int].id, views[i as int]));
        }
        i = i + 1;
    }
    proof {
        assert(views.take(ts@.len() as int) =~= views);
    }
    m
}

/// The store message that an update from node `from` becomes: its stock and its
/// transactions, keyed by id, replace what is known of `from`. A message with no update
/// gives none.
pub fn transform_update(from: NodeID, message: ProtocolStoreMessage) -> (r: Option<StoreMessage>)
    ensures
        match message.update_information {
            None => r is None,
            Some(u) => r matches Some(m) && m@.message_type == StoreMessageType::Update(from)
                && m@.new_stock == messages::opt_stock_view(u.stock_update) && m@.transactions
                == match u.transaction_update {
                Some(ts) => Some(transactions_by_id(ts@.map_values(|t: Transaction| t@))),
                None => None,
            } && m@.orders is None,
        },
{
    let u = match message.update_information {
        Some(u) => u,
        None => {
            return None;
        },
    };
    let ghost tu = u.transaction_update;
    let transactions = match u.transaction_update {
        Some(ts) => Some(transactions_map(ts)),
        None => None,
    };
    Some(
        StoreMessage {
            message_type: StoreMessageType::Update(from),
            new_stock: u.stock_update,
            transactions,
            orders: None,
        },
    )
}

/// One order per product of a stock, with its quantity.
fn stock_orders(s: &Stock) -> (v: Vec<Order>)
    ensures
        store_actor::orders_map(v@) == s@,
        forall|i: int, j: int| 0 <= i < j < v@.len() ==> v@[i].product() != v@[j].product(),
{
    let e = stock::entries(s);
    let mut v: Vec<Order> = Vec::new();
    let mut i: usize = 0;
    while i < e.len()
        invariant
            i <= e@.len(),
            v@.len() == i,
            forall|j: int| 0 <= j < i ==> (#[trigger] v@[j]).product() == e@[j].0 && v@[j].quantity() == e@[j].1,
        decreases e@.len() - i,
    {
        v.push(Order::new(e[i].0, e[i].1));
        i = i + 1;
    }
    proof {
        lemma_orders_map_entries(v@, e@, s@);
    }
    v
}

proof fn lemma_orders_map_prefix(v: Seq<Order>, e: Seq<(u64, u64)>, n: int)
    requires
        0 <= n <= v.len(),
        v.len() == e.len(),
        forall|j: int| 0 <= j < v.len() ==> (#[trigger] v[j]).product() == e[j].0 && v[j].quantity() == e[j].1,
        forall|a: int, b: int| 0 <= a < b < e.len() ==> e[a].0 != e[b].0,
    ensures
        forall|p: u64|
            #[trigger] store_actor::orders_map(v.take(n)).contains_key(p) <==> exists|j: int|
                0 <= j < n && e[j].0 == p,
        forall|j: int| 0 <= j < n ==> store_actor::orders_map(v.take(n))[#[trigger] e[j].0] == e[j].1,
    decreases n,
{
    if n > 0 {
        lemma_orders_map_prefix(v, e, n - 1);
        assert(v.take(n).drop_last() =~= v.take(n - 1));
        assert(v.take(n).last() == v[n - 1]);
        let m = store_actor::orders_map(v.take(n));
        assert forall|p: u64| #[trigger] m.contains_key(p) <==> exists|j: int| 0 <= j < n && e[j].0 == p by {
            if m.contains_key(p) && p != e[n - 1].0 {
                assert(store_actor::orders_map(v.take(n - 1)).contains_key(p));
                let j = choose|j: int| 0 <= j < n - 1 && e[j].0 == p;
                assert(0 <= j < n && e[j].0 == p);
            }
            if exists|j: int| 0 <= j < n && e[j].0 == p {
                let j = choose|j: int| 0 <= j < n && e[j].0 == p;
                if j < n - 1 {
                    assert(store_actor::orders_map(v.take(n - 1)).contains_key(e[j].0));
                }
            }
        }
        assert forall|j: int| 0 <= j < n implies m[#[trigger] e[j].0] == e[j].1 by {
            if j < n - 1 {
                assert(e[j].0 != e[n - 1].0);
            }
        }
    }
}

proof fn lemma_orders_map_entries(v: Seq<Order>, e: Seq<(u64, u64)>, s: Map<u64, u64>)
    requires
        v.len() == e.len(),
        e.len() == s.dom().len(),
        forall|j: int| 0 <= j < v.len() ==> (#[trigger] v[j]).product() == e[j].0 && v[j].quantity() == e[j].1,
        forall|i: int| 0 <= i < e.len() ==> s.contains_key(#[trigger] e[i].0) && s[e[i].0] == e[i].1,
        forall|k: u64| #[trigger] s.contains_key(k) ==> exists|i: int| 0 <= i < e.len() && e[i].0 == k,
        forall|a: int, b: int| 0 <= a < b < e.len() ==> e[a].0 != e[b].0,
    ensures
        store_actor::orders_map(v) == s,
        forall|i: int, j: int| 0 <= i < j < v.len() ==> v[i].product() != v[j].product(),
{
    lemma_orders_map_prefix(v, e, v.len() as int);
    assert(v.take(v.len() as int) =~= v);
    let m = store_actor::orders_map(v);
    assert forall|p: u64| m.contains_key(p) <==> s.contains_key(p) by {
        if s.contains_key(p) {
            let i = choose|i: int| 0 <= i < e.len() && e[i].0 == p;
        }
    }
    assert forall|p: u64| m.contains_key(p) implies m[p] == s[p] by {
        let j = choose|j: int| 0 <= j < v.len() && e[j].0 == p;
        assert(m[e[j].0] == e[j].1);
    }
    assert(m =~= s);
    assert forall|i: int, j: int| 0 <= i < j < v.len() implies v[i].product() != v[j].product() by {
        assert(e[i].0 != e[j].0);
    }
}

/// The summed stock that a request asks of node `me`, if some modification affects it;
/// `Err` when the sum does not fit in `u64`.
fn sum_for(me: NodeID, mods: &Vec<NodeModification<Stock>>) -> (r: Result<Option<Stock>, ()>)
    ensures
        ({
            let stocks = stocks_for(mods@.map_values(|m: NodeModification<Stock>| modification_view(m)), me);
            match r {
                Err(_) => !stock_sum_fits(stocks),
                Ok(None) => stock_sum_fits(stocks) && stocks.len() == 0,
                Ok(Some(s)) => stock_sum_fits(stocks) && stocks.len() > 0 && s@ == stock_sum(stocks),
            }
        }),
{
    let ghost views = mods@.map_values(|m: NodeModification<Stock>| modification_view(m));
    let mut acc: Option<Stock> = None;
    let mut i: usize = 0;
    while i < mods.len()
        invariant
            i <= mods@.len(),
            views == mods@.map_values(|m: NodeModification<Stock>| modification_view(m)),
            stock_sum_fits(stocks_for(views.take(i as int), me)),
            match acc {
                None => stocks_for(views.take(i as int), me).len() == 0,
                Some(s) => stocks_for(views.take(i as int), me).len() > 0 && s@ == stock_sum(
                    stocks_for(views.take(i as int), me),
                ),
            },
        decreases mods@.len() - i,
    {
        let ghost done = stocks_for(views.take(i as int), me);
        proof {
            assert(views.take(i + 1).drop_last() =~= views.take(i as int));
            assert(views.take(i + 1).last() == views[i as int]);
        }
        if mods[i].affected == me {
            let list = &mods[i].modifications;
            proof {
                assert(views[i as int] == modification_view(mods@[i as int]));
                assert(views[i as int].1 == stocks_view(list@));
                assert(stocks_for(views.take(i + 1), me) == done + stocks_view(list@));
                assert(done + stocks_view(list@).take(0) =~= done);
            }
            let mut k: usize = 0;
            while k < list.len()
                invariant
                    k <= list@.len(),
                    stock_sum_fits(done + stocks_view(list@).take(k as int)),
                    done == stocks_for(views.take(i as int), me),
                    i < mods@.len(),
                    views == mods@.map_values(|m: NodeModification<Stock>| modification_view(m)),
                    stocks_for(views.take(i + 1), me) == done + stocks_view(list@),
                    match acc {
                        None => (done + stocks_view(list@).take(k as int)).len() == 0,
                        Some(s) => (done + stocks_view(list@).take(k as int)).len() > 0 && s@
                            == stock_sum(done + stocks_view(list@).take(k as int)),
                    },
                decreases list@.len() - k,
            {
                let ghost before = done + stocks_view(list@).take(k as int);
                let ghost after = done + stocks_view(list@).take(k + 1);
                proof {
                    assert(after.drop_last() =~= before);
                    assert(after.last() == list@[k as int]@);
                }
                let next = match acc {
                    None => {
                        proof {
                            assert(before.len() == 0);
                            assert(stock::stock_plus(Map::empty(), list@[k as int]@) =~= list@[k as int]@);
                        }
                        list[k].clone()
                    },
                    Some(mut s) => {
                        if !stock::fits_plus_check(&s, &list[k]) {
                            proof {
                                assert(!stock_sum_fits(after));
                                assert((done + stocks_view(list@)).take(after.len() as int) =~= after);
                                lemma_not_fits_extends(views, me, i + 1, after.len() as int);
                            }
                            return Err(());
                        }
                        stock::add_stock_to(&mut s, &list[k]);
                        s
                    },
                };
                acc = Some(next);
                proof {
                    assert(after.len() > 0);
                    assert(stock_sum_fits(after));
                    assert(next@ == stock_sum(after));
                }
                k = k + 1;
            }
            proof {
                assert(stocks_view(list@).take(list@.len() as int) =~= stocks_view(list@));
                assert(views[i as int].1 == stocks_view(list@));
            }
        } else {
            proof {
                assert(done + Seq::<Map<u64, u64>>::empty() =~= done);
            }
        }
        i = i + 1;
    }
    proof {
        assert(views.take(mods@.len() as int) =~= views);
    }
    Ok(acc)
}

proof fn lemma_not_fits_extends(
    views: Seq<(NodeID, Seq<Map<u64, u64>>)>,
    me: NodeID,
    n: int,
    k: int,
)
    requires
        0 <= n <= views.len(),
        0 <= k <= stocks_for(views.take(n), me).len(),
        !stock_sum_fits(stocks_for(views.take(n), me).take(k)),
    ensures
        !stock_sum_fits(stocks_for(views, me)),
{
    assert(views.take(views.len() as int) =~= views);
    if stock_sum_fits(stocks_for(views, me)) {
        lemma_stocks_for_prefix(views, me, n);
        let part = stocks_for(views.take(n), me);
        lemma_sum_fits_prefix(part, k);
    }
}

proof fn lemma_sum_fits_prefix(stocks: Seq<Map<u64, u64>>, n: int)
    requires
        0 <= n <= stocks.len(),
        stock_sum_fits(stocks),
    ensures
        stock_sum_fits(stocks.take(n)),
    decreases stocks.len() - n,
{
    if n < stocks.len() {
        assert(stocks.drop_last().take(n) =~= stocks.take(n));
        lemma_sum_fits_prefix(stocks.drop_last(), n);
    } else {
        assert(stocks.take(n) =~= stocks);
    }
}

proof fn lemma_stocks_for_prefix(views: Seq<(NodeID, Seq<Map<u64, u64>>)>, me: NodeID, n: int)
    requires
        0 <= n <= views.len(),
        stock_sum_fits(stocks_for(views, me)),
    ensures
        stock_sum_fits(stocks_for(views.take(n), me)),
        stocks_for(views.take(n), me).len() <= stocks_for(views, me).len(),
        stocks_for(views.take(n), me) == stocks_for(views, me).take(stocks_for(views.take(n), me).len() as int),
    decreases views.len() - n,
{
    if n < views.len() {
        assert(views.drop_last().take(n) =~= views.take(n));
        let all = stocks_for(views, me);
        let init = stocks_for(views.drop_last(), me);
        assert(all == init + if views.last().0 == me {
            views.last().1
        } else {
            Seq::empty()
        });
        assert(all.take(init.len() as int) =~= init);
        lemma_sum_fits_prefix(all, init.len() as int);
        lemma_stocks_for_prefix(views.drop_last(), me, n);
        let part = stocks_for(views.take(n), me);
        assert(all.take(part.len() as int) =~= init.take(part.len() as int));
    } else {
        assert(views.take(n) =~= views);
        assert(stocks_for(views, me).take(stocks_for(views, me).len() as int) =~= stocks_for(views, me));
    }
}

/// Summing the stock that a request asks of node `me` keeps within `u64`.
pub open spec fn request_fits(message: ProtocolStoreMessage, me: NodeID) -> bool {
    match request_modifications(message) {
        Some(mods) => stock_sum_fits(stocks_for(mods, me)),
        None => true,
    }
}

/// Whether the stock that a request asks of node `me` can be summed within `u64`.
pub fn check_request_fits(me: NodeID, message: &ProtocolStoreMessage) -> (r: bool)
    ensures
        r == request_fits(*message, me),
{
    match &message.request_information {
        Some(req) => match &req.information {
            Some(mods) => sum_for(me, mods).is_ok(),
            None => true,
        },
        None => true,
    }
}

/// The orders hold the summed stock: one order per product, with the summed quantity.
pub open spec fn orders_for_stock(orders: Seq<Order>, s: Map<u64, u64>) -> bool {
    &&& store_actor::orders_map(orders) == s
    &&& forall|i: int, j: int| 0 <= i < j < orders.len() ==> orders[i].product() != orders[j].product()
}

/// The store message that a request step for node `me` becomes.
pub open spec fn request_message_ok(
    message: ProtocolStoreMessage,
    me: NodeID,
    id: RequestID,
    m: messages::StoreMessageView,
) -> bool {
    &&& message.request_information matches Some(req)
    &&& id == req.request_id
    &&& m.message_type == transaction_type(req.request_id, req.request_state)
    &&& m.new_stock is None
    &&& m.transactions is None
    &&& m.orders matches Some(o)
    &&& orders_for_stock(o, stock_sum(stocks_for(request_modifications(message)->Some_0, me)))
}

/// A request step becomes a store message when it carries modifications of which at least
/// one stock is meant for node `me`.
pub open spec fn request_applies(message: ProtocolStoreMessage, me: NodeID) -> bool {
    &&& request_modifications(message) is Some
    &&& stocks_for(request_modifications(message)->Some_0, me).len() > 0
}

/// The store message that a request step becomes at node `me`: the store message type of
/// the step, and one order per product of the summed stock that the step asks of `me`.
pub fn transform_request(me: NodeID, message: ProtocolStoreMessage) -> (r: Option<(RequestID, StoreMessage)>)
    requires
        request_fits(message, me),
    ensures
        match r {
            None => !request_applies(message, me),
            Some((id, m)) => request_applies(message, me) && request_message_ok(message, me, id, m@),
        },
{
    let ghost msg = message;
    let req = match message.request_information {
        Some(r) => r,
        None => {
            return None;
        },
    };
    let mods = match req.information {
        Some(m) => m,
        None => {
            return None;
        },
    };
    let sum = match sum_for(me, &mods) {
        Ok(Some(s)) => s,
        _ => {
            return None;
        },
    };
    let orders = stock_orders(&sum);
    let message_type = get_transaction_type(req.request_id, req.request_state);
    Some(
        (
            req.request_id,
            StoreMessage { message_type, new_stock: None, transactions: None, orders: Some(orders) },
        ),
    )
}

/// What a store does with a message from another node.
#[derive(Debug)]
pub enum GlueAction {
    /// The other node leaves: end the connection.
    Teardown,
    /// Pass the other node's state to the store, if there is one, and note that the node may be new.
    Update(Option<StoreMessage>),
    /// Ask the store to reserve stock for the request, and answer with what it says.
    Ask(RequestID, StoreMessage),
    /// Pass the request step to the store; nothing to answer.
    Forward(StoreMessage),
    /// The request carries nothing for this store.
    Invalid,
}

/// Decides what to do with a message from another node, at node `me`.
pub fn glue_action(me: NodeID, message: ProtocolStoreMessage) -> (a: GlueAction)
    requires
        message.message_type == MessageType::Request ==> request_fits(message, me),
    ensures
        match message.message_type {
            MessageType::Goodbye => a is Teardown,
            MessageType::Update => match message.update_information {
                None => a matches GlueAction::Update(None),
                Some(u) => a matches GlueAction::Update(Some(m)) && m@.message_type
                    == StoreMessageType::Update(message.from) && m@.new_stock
                    == messages::opt_stock_view(u.stock_update) && m@.transactions
                    == match u.transaction_update {
                    Some(ts) => Some(transactions_by_id(ts@.map_values(|t: Transaction| t@))),
                    None => None,
                } && m@.orders is None,
            },
            MessageType::Request => if request_applies(message, me) {
                match a {
                    GlueAction::Ask(id, m) => request_message_ok(message, me, id, m@)
                        && message.request_information->Some_0.request_state == RequestState::Ask,
                    GlueAction::Forward(m) => request_message_ok(
                        message,
                        me,
                        message.request_information->Some_0.request_id,
                        m@,
                    ) && message.request_information->Some_0.request_state != RequestState::Ask,
                    _ => false,
                }
            } else {
                a is Invalid
            },
        },
{
    match message.message_type {
        MessageType::Goodbye => GlueAction::Teardown,
        MessageType::Update => {
            let from = message.from;
            GlueAction::Update(transform_update(from, message))
        },
        MessageType::Request => match transform_request(me, message) {
            Some((id, m)) => {
                match m.message_type {
                    StoreMessageType::Ask(_) => GlueAction::Ask(id, m),
                    _ => GlueAction::Forward(m),
                }
            },
            None => GlueAction::Invalid,
        },
    }
}

/// The answer of node `me` to an ask of `requester` for request `request_id`: confirm when
/// the store reserved the stock, cancel otherwise.
pub fn ask_response(me: NodeID, requester: NodeID, request_id: RequestID, reserved: bool) -> (m: ProtocolStoreMessage)
    ensures
        m.from == me,
        m.message_type == MessageType::Request,
        m.update_information is None,
        m.request_information matches Some(r) && r.request_id == request_id && r.requester
            == requester && r.request_state == (if reserved {
            RequestState::Confirm
        } else {
            RequestState::Cancel
        }) && r.information is None,
{
    ProtocolMessage {
        from: me,
        message_type: MessageType::Request,
        request_information: Some(
            Request {
                request_id,
                requester,
                request_state: if reserved {
                    RequestState::Confirm
                } else {
                    RequestState::Cancel
                },
                information: None,
            },
        ),
        update_information: None,
    }
}

/// A request step from node `me` for request `request_id`, with the given modifications.
pub fn get_node_request_with(
    node_modifications: Option<Vec<NodeModification<Stock>>>,
    request_id: RequestID,
    action: RequestState,
    me: NodeID,
) -> (m: ProtocolStoreMessage)
    ensures
        m.from == me,
        m.message_type == MessageType::Request,
        m.update_information is None,
        m.request_information matches Some(r) && r.request_id == request_id && r.requester == me
            && r.request_state == action && r.information == node_modifications,
{
    ProtocolMessage {
        from: me,
        message_type: MessageType::Request,
        request_information: Some(
            Request { request_id, requester: me, request_state: action, information: node_modifications },
        ),
        update_information: None,
    }
}

/// The modifications hold, once each, every store of `involved` with its stock as the one
/// modification.
pub open spec fn modifications_of(mods: Seq<NodeModification<Stock>>, involved: Map<StoreID, Map<u64, u64>>) -> bool {
    &&& mods.len() == involved.dom().len()
    &&& forall|i: int|
        0 <= i < mods.len() ==> involved.contains_key(#[trigger] mods[i].affected)
            && stocks_view(mods[i].modifications@) == seq![involved[mods[i].affected]]
    &&& forall|s: StoreID| #[trigger] involved.contains_key(s) ==> exists|i: int|
        0 <= i < mods.len() && mods[i].affected == s
    &&& forall|i: int, j: int| 0 <= i < j < mods.len() ==> mods[i].affected != mods[j].affected
}

/// One modification per involved store: the store, and its stock as the one modification.
pub fn get_node_modifications_for(involved_stock: &HashMap<StoreID, Stock>) -> (v: Vec<NodeModification<Stock>>)
    ensures
        modifications_of(v@, store::involved_view(*involved_stock)),
{
    let ids = key_list(involved_stock);
    let mut v: Vec<NodeModification<Stock>> = Vec::new();
    let mut i: usize = 0;
    while i < ids.len()
        invariant
            i <= ids@.len(),
            ids@.no_duplicates(),
            forall|k: StoreID| #[trigger] involved_stock@.contains_key(k) <==> ids@.contains(k),
            v@.len() == i,
            forall|j: int| 0 <= j < i ==> (#[trigger] v@[j]).affected == ids@[j] && stocks_view(v@[j].modifications@)
                == seq![involved_stock@[ids@[j]]@],
        decreases ids@.len() - i,
    {
        let id = ids[i];
        proof {
            assert(ids@.contains(id));
        }
        let stock = involved_stock.get(&id).unwrap().clone();
        let mut mods: Vec<Stock> = Vec::new();
        mods.push(stock);
        proof {
            assert(stocks_view(mods@) =~= seq![involved_stock@[id]@]);
        }
        v.push(NodeModification { affected: id, modifications: mods });
        i = i + 1;
    }
    proof {
        let inv = store::involved_view(*involved_stock);
        assert(ids@.to_set() =~= involved_stock@.dom());
        ids@.unique_seq_to_set();
        assert(inv.dom() =~= involved_stock@.dom());
        assert forall|s: StoreID| #[trigger] inv.contains_key(s) implies exists|i: int|
            0 <= i < v@.len() && v@[i].affected == s by {
            assert(ids@.contains(s));
            let j = choose|j: int| 0 <= j < ids@.len() && ids@[j] == s;
            assert(v@[j].affected == s);
        }
        assert forall|a: int, b: int| 0 <= a < b < v@.len() implies v@[a].affected != v@[b].affected by {
            assert(ids@[a] != ids@[b]);
        }
    }
    v
}

/// A request step from `me` for request `id` and step `action`, whose modifications give
/// each store of `involved` its stock.
pub open spec fn notification_ok(
    m: ProtocolStoreMessage,
    me: NodeID,
    id: RequestID,
    action: RequestState,
    involved: Map<StoreID, Map<u64, u64>>,
) -> bool {
    &&& m.from == me
    &&& m.message_type == MessageType::Request
    &&& m.update_information is None
    &&& m.request_information is Some
    &&& m.request_information->Some_0.request_id == id
    &&& m.request_information->Some_0.requester == me
    &&& m.request_information->Some_0.request_state == action
    &&& m.request_information->Some_0.information is Some
    &&& modifications_of(m.request_information->Some_0.information->Some_0@, involved)
}

/// The messages that tell the other stores of a transaction about step `action` of it:
/// one for each store that the transaction involves, but `me`, each asking for the whole
/// set of modifications.
pub fn notifications(action: RequestState, transaction: &Transaction, me: NodeID) -> (v: Vec<(StoreID, ProtocolStoreMessage)>)
    ensures
        forall|s: StoreID| #[trigger] transaction@.involved.contains_key(s) && s != me <==> exists|i: int|
            0 <= i < v@.len() && v@[i].0 == s,
        forall|i: int, j: int| 0 <= i < j < v@.len() ==> v@[i].0 != v@[j].0,
        forall|i: int|
            0 <= i < v@.len() ==> notification_ok((#[trigger] v@[i]).1, me, transaction.id, action, transaction@.involved),
{
    let ids = key_list(&transaction.involved_stock);
    let mut v: Vec<(StoreID, ProtocolStoreMessage)> = Vec::new();
    let ghost picked: Seq<int> = Seq::empty();
    let mut i: usize = 0;
    while i < ids.len()
        invariant
            i <= ids@.len(),
            ids@.no_duplicates(),
            forall|k: StoreID| #[trigger] transaction.involved_stock@.contains_key(k) <==> ids@.contains(k),
            picked.len() == v@.len(),
            forall|j: int| 0 <= j < v@.len() ==> 0 <= #[trigger] picked[j] < i && v@[j].0 == ids@[picked[j]],
            forall|a: int, b: int| 0 <= a < b < v@.len() ==> picked[a] < picked[b],
            forall|j: int| 0 <= j < i && ids@[j] != me ==> exists|k: int| 0 <= k < v@.len() && picked[k] == j,
            forall|j: int| 0 <= j < v@.len() ==> (#[trigger] v@[j]).0 != me,
            forall|j: int|
                0 <= j < v@.len() ==> notification_ok((#[trigger] v@[j]).1, me, transaction.id, action, transaction@.involved),
        decreases ids@.len() - i,
    {
        let id = ids[i];
        let ghost old_picked = picked;
        let ghost old_len = v@.len();
        if id != me {
            let mods = get_node_modifications_for(&transaction.involved_stock);
            let m = get_node_request_with(Some(mods), transaction.id, action, me);
            v.push((id, m));
            proof {
                picked = picked.push(i as int);
            }
        }
        proof {
            assert forall|j: int| 0 <= j < i + 1 && ids@[j] != me implies exists|k: int|
                0 <= k < v@.len() && picked[k] == j by {
                if j < i {
                    let k = choose|k: int| 0 <= k < old_len && old_picked[k] == j;
                    assert(picked[k] == j);
                } else {
                    assert(picked[old_len as int] == j);
                }
            }
        }
        i = i + 1;
    }
    proof {
        assert forall|s: StoreID| #[trigger] transaction@.involved.contains_key(s) && s != me implies exists|i: int|
            0 <= i < v@.len() && v@[i].0 == s by {
            assert(transaction.involved_stock@.contains_key(s));
            assert(ids@.contains(s));
            let j = choose|j: int| 0 <= j < ids@.len() && ids@[j] == s;
            let k = choose|k: int| 0 <= k < v@.len() && picked[k] == j;
        }
        assert forall|i: int, j: int| 0 <= i < j < v@.len() implies v@[i].0 != v@[j].0 by {
            assert(picked[i] < picked[j]);
        }
        assert forall|s: StoreID| (exists|i: int| 0 <= i < v@.len() && v@[i].0 == s) implies #[trigger] transaction@.involved.contains_key(s) && s != me by {
            let i = choose|i: int| 0 <= i < v@.len() && v@[i].0 == s;
            assert(ids@.contains(ids@[picked[i]]));
        }
    }
    v
}

/// An answer to an ask says that the stock could not be reserved.
pub open spec fn cancels(response: ProtocolStoreMessage) -> bool {
    response.request_information matches Some(r) && r.request_state == RequestState::Cancel
}

/// Whether an answer to an ask says that the stock could not be reserved.
pub fn response_cancels(response: &ProtocolStoreMessage) -> (r: bool)
    ensures
        r == cancels(*response),
{
    match &response.request_information {
        Some(r) => match r.request_state {
            RequestState::Cancel => true,
            _ => false,
        },
        None => false,
    }
}

/// Whether any of the answers to the asks of a purchase cancels it.
pub fn purchase_cancelled(responses: &Vec<ProtocolStoreMessage>) -> (r: bool)
    ensures
        r == exists|i: int| 0 <= i < responses@.len() && cancels(#[trigger] responses@[i]),
{
    let mut i: usize = 0;
    while i < responses.len()
        invariant
            i <= responses@.len(),
            forall|j: int| 0 <= j < i ==> !cancels(#[trigger] responses@[j]),
        decreases responses@.len() - i,
    {
        if response_cancels(&responses[i]) {
            return true;
        }
        i = i + 1;
    }
    false
}

/// The values of a map, in the order the map hands them out: each key's value once.
pub open spec fn values_of(vals: Seq<TransactionView>, m: Map<RequestID, TransactionView>) -> bool {
    exists|ks: Seq<RequestID>|
        #![trigger ks.len()]
        ks.len() == vals.len() && ks.no_duplicates() && (forall|k: RequestID| #[trigger] m.contains_key(k) <==> ks.contains(k))
            && (forall|i: int| 0 <= i < vals.len() ==> vals[i] == #[trigger] m[ks[i]])
}

/// The update that tells the other stores the state of store `id`: its stock and all its
/// transactions.
pub fn transform_info(id: NodeID, info: StoreInformation) -> (m: ProtocolStoreMessage)
    ensures
        m.from == id,
        m.message_type == MessageType::Update,
        m.request_information is None,
        m.update_information is Some,
        messages::opt_stock_view(m.update_information->Some_0.stock_update) == Some(info@.stock),
        m.update_information->Some_0.transaction_update is Some,
        values_of(
            m.update_information->Some_0.transaction_update->Some_0@.map_values(|t: Transaction| t@),
            info@.transactions,
        ),
{
    let keys = stock::key_list_u128(&info.transactions);
    let mut vals: Vec<Transaction> = Vec::new();
    let mut i: usize = 0;
    while i < keys.len()
        invariant
            i <= keys@.len(),
            keys@.no_duplicates(),
            forall|k: RequestID| #[trigger] info.transactions@.contains_key(k) <==> keys@.contains(k),
            vals@.len() == i,
            forall|j: int| 0 <= j < i ==> (#[trigger] vals@[j])@ == info.transactions@[keys@[j]]@,
        decreases keys@.len() - i,
    {
        proof {
            assert(keys@.contains(keys@[i as int]));
        }
        vals.push(info.transactions.get(&keys[i]).unwrap().clone());
        i = i + 1;
    }
    proof {
        let views = vals@.map_values(|t: Transaction| t@);
        assert(keys@.len() == views.len());
        assert forall|j: int| 0 <= j < views.len() implies views[j] == #[trigger] info@.transactions[keys@[j]] by {
            assert(keys@.contains(keys@[j]));
        }
    }
    ProtocolMessage {
        from: id,
        message_type: MessageType::Update,
        request_information: None,
        update_information: Some(
            AbsoluteStateUpdate { stock_update: Some(info.stock), transaction_update: Some(vals) },
        ),
    }
}

} // verus!