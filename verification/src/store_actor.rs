use std::collections::HashMap;
use vstd::prelude::*;

use crate::messages::{self, MessageType, RequestID, StoreID, StoreMessage, StoreMessageView, StoreState};
use crate::order::Order;
use crate::stock::{self, add_stock_to, has_stock, key_list, reserve_from, take_stock_from, Stock};
use crate::store::{self, StoreInfoView, StoreInformation, Transaction, TransactionState, TransactionView};

verus! {

broadcast use vstd::std_specs::hash::group_hash_axioms;

/// A store's view of the whole system: what it knows of each store, itself included.
pub struct StoreActor {
    stores: HashMap<StoreID, StoreInformation>,
    self_id: StoreID,
}

/// A store actor as values.
pub struct ActorView {
    pub self_id: StoreID,
    pub stores: Map<StoreID, StoreInfoView>,
}

/// The information of each store, each by its view.
pub open spec fn stores_view(m: HashMap<StoreID, StoreInformation>) -> Map<StoreID, StoreInfoView> {
    m@.map_values(|i: StoreInformation| i@)
}

impl View for StoreActor {
    type V = ActorView;

    closed spec fn view(&self) -> ActorView {
        ActorView { self_id: self.self_id, stores: stores_view(self.stores) }
    }
}

/// The actor knows its own store.
pub open spec fn actor_wf(a: ActorView) -> bool {
    a.stores.contains_key(a.self_id)
}

/// What the actor knows of its own store.
pub open spec fn own(a: ActorView) -> StoreInfoView {
    a.stores[a.self_id]
}

/// A transaction, by its view.
pub open spec fn opt_view(t: Option<Transaction>) -> Option<TransactionView> {
    match t {
        Some(t) => Some(t@),
        None => None,
    }
}

/// After an update on store `id`: its stock and transactions are replaced by those given;
/// a store not known before is added, reachable.
pub open spec fn update_spec(
    a: ActorView,
    id: StoreID,
    stock: Option<Map<u64, u64>>,
    transactions: Option<Map<RequestID, TransactionView>>,
) -> ActorView {
    let base = if a.stores.contains_key(id) {
        a.stores[id]
    } else {
        store::fresh_info()
    };
    let info = StoreInfoView {
        stock: match stock {
            Some(s) => s,
            None => base.stock,
        },
        transactions: match transactions {
            Some(t) => t,
            None => base.transactions,
        },
        is_online: base.is_online,
    };
    ActorView { self_id: a.self_id, stores: a.stores.insert(id, info) }
}

/// The state of the own stock while a request goes through its orders.
pub struct LocalPass {
    /// The own stock, less what was reserved.
    pub stock: Map<u64, u64>,
    /// Reserved here: the quantity of the last order of each product that could be served here.
    pub local: Map<u64, u64>,
    /// To be asked of the other stores: the quantity of the last order of each product that
    /// could not be served here.
    pub remote: Map<u64, u64>,
}

/// Goes through the orders in turn: an order whose product the stock holds in at least its
/// quantity is reserved here, any other goes to the remote part.
pub open spec fn local_pass(stock: Map<u64, u64>, orders: Seq<Order>) -> LocalPass
    decreases orders.len(),
{
    if orders.len() == 0 {
        LocalPass { stock, local: Map::empty(), remote: Map::empty() }
    } else {
        let prev = local_pass(stock, orders.drop_last());
        let p = orders.last().product();
        let q = orders.last().quantity();
        if prev.stock.contains_key(p) && prev.stock[p] >= q {
            LocalPass {
                stock: prev.stock.insert(p, (prev.stock[p] - q) as u64),
                local: prev.local.insert(p, q),
                remote: prev.remote,
            }
        } else {
            LocalPass { stock: prev.stock, local: prev.local, remote: prev.remote.insert(p, q) }
        }
    }
}

/// What a request reserves in each store: the local part here, and in each other store
/// the products of the remote part that it holds in at least the wanted quantity.
pub open spec fn request_involved(a: ActorView, pass: LocalPass) -> Map<StoreID, Map<u64, u64>> {
    Map::new(
        |s: StoreID| a.stores.contains_key(s),
        |s: StoreID|
            if s == a.self_id {
                pass.local
            } else {
                stock::reservable(a.stores[s].stock, pass.remote)
            },
    )
}

/// The transaction of a request: numbered by how many transactions the store had, awaiting
/// confirmation, with what it reserved in each store.
pub open spec fn request_transaction(a: ActorView, orders: Seq<Order>) -> TransactionView {
    TransactionView {
        id: own(a).transactions.len() as u128,
        state: TransactionState::AwaitingConfirmation,
        involved: request_involved(a, local_pass(own(a).stock, orders)),
    }
}

/// Another store after a request took from it what it could give of `remote`.
pub open spec fn after_remote_reserve(info: StoreInfoView, remote: Map<u64, u64>) -> StoreInfoView {
    StoreInfoView {
        stock: stock::stock_minus(info.stock, stock::reservable(info.stock, remote)),
        transactions: info.transactions,
        is_online: info.is_online,
    }
}

/// The actor after a request for `orders`, whose transaction is kept under `key`.
pub open spec fn request_spec(a: ActorView, orders: Seq<Order>, key: RequestID) -> ActorView {
    let pass = local_pass(own(a).stock, orders);
    ActorView {
        self_id: a.self_id,
        stores: Map::new(
            |s: StoreID| a.stores.contains_key(s),
            |s: StoreID|
                if s == a.self_id {
                    StoreInfoView {
                        stock: pass.stock,
                        transactions: own(a).transactions.insert(
                            key,
                            request_transaction(a, orders),
                        ),
                        is_online: own(a).is_online,
                    }
                } else {
                    after_remote_reserve(a.stores[s], pass.remote)
                },
        ),
    }
}

/// The actor with its own store's information replaced by `info`.
pub open spec fn with_own(a: ActorView, info: StoreInfoView) -> ActorView {
    ActorView { self_id: a.self_id, stores: a.stores.insert(a.self_id, info) }
}

/// A commit marks the own transaction `rid` as confirmed and gives it back; without such
/// a transaction nothing changes.
pub open spec fn commit_spec(a: ActorView, rid: RequestID) -> (ActorView, Option<TransactionView>) {
    if own(a).transactions.contains_key(rid) {
        let t = TransactionView {
            id: own(a).transactions[rid].id,
            state: TransactionState::NodeConfirmed,
            involved: own(a).transactions[rid].involved,
        };
        (
            with_own(
                a,
                StoreInfoView {
                    stock: own(a).stock,
                    transactions: own(a).transactions.insert(rid, t),
                    is_online: own(a).is_online,
                },
            ),
            Some(t),
        )
    } else {
        (a, None)
    }
}

/// The transaction, cancelled.
pub open spec fn cancelled(t: TransactionView) -> TransactionView {
    TransactionView { id: t.id, state: TransactionState::Cancelled, involved: t.involved }
}

/// Giving back the stock of the own transaction `rid` finds each of its products in the
/// store it came from, and keeps every quantity within `u64`.
pub open spec fn cancel_safe(a: ActorView, rid: RequestID) -> bool {
    own(a).transactions.contains_key(rid) ==> {
        let t = own(a).transactions[rid];
        forall|s: StoreID|
            #![trigger t.involved.contains_key(s), a.stores.contains_key(s)]
            t.involved.contains_key(s) && a.stores.contains_key(s) ==> {
                &&& t.involved[s].dom().subset_of(a.stores[s].stock.dom())
                &&& stock::fits_plus(a.stores[s].stock, t.involved[s])
            }
    }
}

/// A cancellation of the own transaction `rid`: every other known store that the transaction
/// holds stock in gets that stock back; the own store keeps its stock and records the
/// transaction as cancelled, which is given back. Without such a transaction nothing changes.
pub open spec fn cancel_spec(a: ActorView, rid: RequestID) -> (ActorView, Option<TransactionView>) {
    if own(a).transactions.contains_key(rid) {
        let t = own(a).transactions[rid];
        let stores = Map::new(
            |s: StoreID| a.stores.contains_key(s),
            |s: StoreID|
                if s == a.self_id {
                    StoreInfoView {
                        stock: own(a).stock,
                        transactions: own(a).transactions.insert(rid, cancelled(t)),
                        is_online: own(a).is_online,
                    }
                } else if t.involved.contains_key(s) {
                    StoreInfoView {
                        stock: stock::stock_plus(a.stores[s].stock, t.involved[s]),
                        transactions: a.stores[s].transactions,
                        is_online: a.stores[s].is_online,
                    }
                } else {
                    a.stores[s]
                },
        );
        (ActorView { self_id: a.self_id, stores }, Some(cancelled(t)))
    } else {
        (a, None)
    }
}

/// Each order's product is in `stock` in at least the ordered quantity.
pub open spec fn orders_available(stock: Map<u64, u64>, orders: Seq<Order>) -> bool {
    forall|i: int|
        0 <= i < orders.len() ==> stock.contains_key(#[trigger] orders[i].product())
            && orders[i].quantity() <= stock[orders[i].product()]
}

/// The quantity of the last order of each product.
pub open spec fn orders_map(orders: Seq<Order>) -> Map<u64, u64>
    decreases orders.len(),
{
    if orders.len() == 0 {
        Map::empty()
    } else {
        orders_map(orders.drop_last()).insert(orders.last().product(), orders.last().quantity())
    }
}

/// A local sale: when the own stock holds every ordered product in the ordered quantity,
/// the quantity of the last order of each product is taken from it and a finalized
/// transaction with id 0 records it; otherwise, or without orders, nothing changes.
pub open spec fn local_request_spec(a: ActorView, orders: Option<Seq<Order>>) -> (
    ActorView,
    Option<TransactionView>,
) {
    match orders {
        None => (a, None),
        Some(o) => if orders_available(own(a).stock, o) {
            let taken = orders_map(o);
            (
                with_own(
                    a,
                    StoreInfoView {
                        stock: stock::stock_minus(own(a).stock, taken),
                        transactions: own(a).transactions,
                        is_online: own(a).is_online,
                    },
                ),
                Some(
                    TransactionView {
                        id: 0,
                        state: TransactionState::Finalized,
                        involved: map![a.self_id => taken],
                    },
                ),
            )
        } else {
            (a, None)
        },
    }
}

/// New stock is added to the own stock.
pub open spec fn add_stock_spec(a: ActorView, add: Option<Map<u64, u64>>) -> ActorView {
    match add {
        None => a,
        Some(m) => with_own(
            a,
            StoreInfoView {
                stock: stock::stock_plus(own(a).stock, m),
                transactions: own(a).transactions,
                is_online: own(a).is_online,
            },
        ),
    }
}

/// Another store asks for `need`: when the own stock covers it, it is taken and a
/// transaction `rid` awaiting confirmation, with no stock recorded, is kept and given back;
/// otherwise, or without stock asked, nothing changes.
pub open spec fn ask_spec(a: ActorView, rid: RequestID, need: Option<Map<u64, u64>>) -> (
    ActorView,
    Option<TransactionView>,
) {
    match need {
        None => (a, None),
        Some(n) => if stock::covers(own(a).stock, n) {
            let t = TransactionView {
                id: rid,
                state: TransactionState::AwaitingConfirmation,
                involved: Map::empty(),
            };
            (
                with_own(
                    a,
                    StoreInfoView {
                        stock: stock::stock_minus(own(a).stock, n),
                        transactions: own(a).transactions.insert(rid, t),
                        is_online: own(a).is_online,
                    },
                ),
                Some(t),
            )
        } else {
            (a, None)
        },
    }
}

/// A message can be handled without a panic: a cancellation finds its stock, and added
/// stock fits in `u64`.
pub open spec fn step_safe(a: ActorView, m: StoreMessageView) -> bool {
    match m.message_type {
        MessageType::Cancel(rid) => cancel_safe(a, rid),
        MessageType::AddStock => match m.new_stock {
            Some(s) => stock::fits_plus(own(a).stock, s),
            None => true,
        },
        _ => true,
    }
}

/// What a store message does to the actor and what it answers; `key` is where a request
/// keeps its transaction.
pub open spec fn store_step(a: ActorView, m: StoreMessageView, key: RequestID) -> (
    ActorView,
    Option<TransactionView>,
) {
    match m.message_type {
        MessageType::Update(id) => (update_spec(a, id, m.new_stock, m.transactions), None),
        MessageType::Request => match m.orders {
            None => (a, None),
            Some(o) => (request_spec(a, o, key), Some(request_transaction(a, o))),
        },
        MessageType::Ask(rid) => ask_spec(a, rid, m.new_stock),
        MessageType::Confirm(_) => (a, None),
        MessageType::Commit(rid) => commit_spec(a, rid),
        MessageType::Cancel(rid) => cancel_spec(a, rid),
        MessageType::LocalRequest => local_request_spec(a, m.orders),
        MessageType::AddStock => (add_stock_spec(a, m.new_stock), None),
    }
}

/// The known store `id` is marked unreachable; an unknown one changes nothing.
pub open spec fn shutdown_spec(a: ActorView, id: StoreID) -> ActorView {
    if a.stores.contains_key(id) {
        ActorView {
            self_id: a.self_id,
            stores: a.stores.insert(
                id,
                StoreInfoView {
                    stock: a.stores[id].stock,
                    transactions: a.stores[id].transactions,
                    is_online: false,
                },
            ),
        }
    } else {
        a
    }
}

proof fn lemma_orders_map_covered(stock: Map<u64, u64>, orders: Seq<Order>)
    requires
        orders_available(stock, orders),
    ensures
        stock::covers(stock, orders_map(orders)),
    decreases orders.len(),
{
    if orders.len() > 0 {
        let init = orders.drop_last();
        assert forall|i: int| 0 <= i < init.len() implies stock.contains_key(
            #[trigger] init[i].product(),
        ) && init[i].quantity() <= stock[init[i].product()] by {
            assert(init[i] == orders[i]);
        }
        lemma_orders_map_covered(stock, init);
        assert(orders.last() == orders[orders.len() - 1]);
    }
}

/// A random id for a request's transaction, as `rand::thread_rng().gen::<u128>()` draws it.
/// Every `u128` can come back, so the contract states nothing of the result.
#[verifier::external_body]
fn random_request_id() -> RequestID {
    rand::Rng::gen::<u128>(&mut rand::thread_rng())
}

proof fn lemma_local_pass(stock: Map<u64, u64>, orders: Seq<Order>)
    ensures
        ({
            let pass = local_pass(stock, orders);
            &&& pass.stock.dom() == stock.dom()
            &&& forall|p: u64| #[trigger] pass.stock.contains_key(p) ==> pass.stock[p] <= stock[p]
            &&& forall|p: u64|
                #[trigger] pass.local.contains_key(p) ==> pass.stock.contains_key(p)
                    && pass.stock[p] + pass.local[p] <= stock[p]
        }),
    decreases orders.len(),
{
    if orders.len() > 0 {
        lemma_local_pass(stock, orders.drop_last());
        let prev = local_pass(stock, orders.drop_last());
        let pass = local_pass(stock, orders);
        assert(pass.stock.dom() =~= stock.dom());
    }
}

/// Taking what `stock` can give of `wanted` and adding it back gives `stock` again.
pub proof fn lemma_reserve_then_return(stock: Map<u64, u64>, wanted: Map<u64, u64>)
    ensures
        ({
            let r = stock::reservable(stock, wanted);
            &&& r.dom().subset_of(stock::stock_minus(stock, r).dom())
            &&& stock::fits_plus(stock::stock_minus(stock, r), r)
            &&& stock::stock_plus(stock::stock_minus(stock, r), r) == stock
        }),
{
    let r = stock::reservable(stock, wanted);
    assert(stock::stock_plus(stock::stock_minus(stock, r), r) =~= stock);
}

/// What a request takes from every other known store is exactly the stock that its
/// transaction records for that store.
pub proof fn lemma_request_records_what_it_takes(a: ActorView, orders: Seq<Order>, key: RequestID)
    requires
        actor_wf(a),
    ensures
        forall|s: StoreID|
            #[trigger] a.stores.contains_key(s) && s != a.self_id ==> stock::stock_plus(
                request_spec(a, orders, key).stores[s].stock,
                request_transaction(a, orders).involved[s],
            ) == a.stores[s].stock,
{
    let pass = local_pass(own(a).stock, orders);
    assert forall|s: StoreID| #[trigger] a.stores.contains_key(s) && s != a.self_id implies stock::stock_plus(
        request_spec(a, orders, key).stores[s].stock,
        request_transaction(a, orders).involved[s],
    ) == a.stores[s].stock by {
        lemma_reserve_then_return(a.stores[s].stock, pass.remote);
    }
}

/// Cancelling the transaction that a request just recorded is possible without a panic,
/// gives back that transaction, cancelled, and gives every other known store the stock it
/// had before the request.
pub proof fn lemma_cancel_undoes_request(a: ActorView, orders: Seq<Order>, key: RequestID)
    requires
        actor_wf(a),
    ensures
        cancel_safe(request_spec(a, orders, key), key),
        cancel_spec(request_spec(a, orders, key), key).1 == Some(
            cancelled(request_transaction(a, orders)),
        ),
        forall|s: StoreID|
            #[trigger] a.stores.contains_key(s) && s != a.self_id ==> cancel_spec(
                request_spec(a, orders, key),
                key,
            ).0.stores[s] == a.stores[s],
{
    let b = request_spec(a, orders, key);
    let pass = local_pass(own(a).stock, orders);
    let t = request_transaction(a, orders);
    lemma_local_pass(own(a).stock, orders);
    assert(own(b).transactions[key] == t);
    assert forall|s: StoreID|
        #![trigger t.involved.contains_key(s), b.stores.contains_key(s)]
        t.involved.contains_key(s) && b.stores.contains_key(s) implies {
            &&& t.involved[s].dom().subset_of(b.stores[s].stock.dom())
            &&& stock::fits_plus(b.stores[s].stock, t.involved[s])
        } by {
        if s == a.self_id {
            assert(t.involved[s] == pass.local);
        } else {
            lemma_reserve_then_return(a.stores[s].stock, pass.remote);
        }
    }
    assert forall|s: StoreID| #[trigger] a.stores.contains_key(s) && s != a.self_id implies cancel_spec(
        b,
        key,
    ).0.stores[s] == a.stores[s] by {
        lemma_reserve_then_return(a.stores[s].stock, pass.remote);
    }
}

/// Order `i` is the last order of its product.
pub open spec fn last_of_product(orders: Seq<Order>, i: int) -> bool {
    &&& 0 <= i < orders.len()
    &&& forall|j: int| i < j < orders.len() ==> #[trigger] orders[j].product() != orders[i].product()
}

/// Order `i` is the only order of its product.
pub open spec fn only_of_product(orders: Seq<Order>, i: int) -> bool {
    &&& 0 <= i < orders.len()
    &&& forall|j: int|
        0 <= j < orders.len() && j != i ==> #[trigger] orders[j].product() != orders[i].product()
}

/// Every order is placed: the last order of each product is either reserved here or asked
/// of the other stores, in its quantity; it is asked of the other stores whenever the own
/// stock does not hold its product in that quantity; and the only order of a product that
/// the own stock holds in that quantity is reserved here, and taken from the own stock.
pub proof fn lemma_local_pass_places_orders(stock: Map<u64, u64>, orders: Seq<Order>, i: int)
    requires
        last_of_product(orders, i),
    ensures
        ({
            let pass = local_pass(stock, orders);
            let p = orders[i].product();
            let q = orders[i].quantity();
            &&& (pass.local.contains_key(p) && pass.local[p] == q) || (pass.remote.contains_key(p)
                && pass.remote[p] == q)
            &&& !(stock.contains_key(p) && stock[p] >= q) ==> pass.remote.contains_key(p)
                && pass.remote[p] == q
            &&& only_of_product(orders, i) && stock.contains_key(p) && stock[p] >= q ==> {
                &&& pass.local.contains_key(p) && pass.local[p] == q
                &&& !pass.remote.contains_key(p)
                &&& pass.stock[p] == stock[p] - q
            }
        }),
    decreases orders.len(),
{
    let n = orders.len() - 1;
    let init = orders.drop_last();
    let p = orders[i].product();
    if i == n {
        lemma_local_pass(stock, init);
        let prev = local_pass(stock, init);
        assert(orders.last() == orders[i]);
        if only_of_product(orders, i) {
            lemma_pass_untouched(stock, init, p);
        }
    } else {
        assert(last_of_product(init, i)) by {
            assert forall|j: int| i < j < init.len() implies #[trigger] init[j].product()
                != init[i].product() by {
                assert(init[j] == orders[j]);
            }
        }
        assert(orders.last() == orders[n]);
        assert(orders[n].product() != p);
        assert(init[i] == orders[i]);
        lemma_local_pass_places_orders(stock, init, i);
        if only_of_product(orders, i) {
            assert(only_of_product(init, i)) by {
                assert forall|j: int| 0 <= j < init.len() && j != i implies #[trigger] init[j].product()
                    != init[i].product() by {
                    assert(init[j] == orders[j]);
                }
            }
        }
    }
}

/// A product that no order names keeps its stock and is neither reserved nor asked for.
proof fn lemma_pass_untouched(stock: Map<u64, u64>, orders: Seq<Order>, p: u64)
    requires
        forall|j: int| 0 <= j < orders.len() ==> #[trigger] orders[j].product() != p,
    ensures
        ({
            let pass = local_pass(stock, orders);
            &&& !pass.local.contains_key(p)
            &&& !pass.remote.contains_key(p)
            &&& pass.stock.contains_key(p) == stock.contains_key(p)
            &&& stock.contains_key(p) ==> pass.stock[p] == stock[p]
        }),
    decreases orders.len(),
{
    if orders.len() > 0 {
        let init = orders.drop_last();
        assert forall|j: int| 0 <= j < init.len() implies #[trigger] init[j].product() != p by {
            assert(init[j] == orders[j]);
        }
        lemma_pass_untouched(stock, init, p);
        assert(orders.last() == orders[orders.len() - 1]);
    }
}

/// A request reserves what it can of each order here and asks the other stores for the rest:
/// the transaction, awaiting confirmation and numbered by how many transactions the store
/// had, is kept under `key` and given back; the last order of a product that the own stock
/// does not hold in its quantity is reserved in full at every other known store that holds
/// it so, and taken from that store's stock; the only order of a product that the own stock
/// holds in its quantity is reserved here, taken from the own stock, and asked of no other store.
pub proof fn lemma_request_places_orders(
    a: ActorView,
    m: StoreMessageView,
    key: RequestID,
    i: int,
    s: StoreID,
)
    requires
        actor_wf(a),
        m.message_type is Request,
        m.orders is Some,
        last_of_product(m.orders->Some_0, i),
        a.stores.contains_key(s),
    ensures
        ({
            let orders = m.orders->Some_0;
            let (b, r) = store_step(a, m, key);
            let p = orders[i].product();
            let q = orders[i].quantity();
            let t = r->Some_0;
            &&& r is Some
            &&& t.state == TransactionState::AwaitingConfirmation
            &&& t.id == own(a).transactions.len() as u128
            &&& own(b).transactions.contains_key(key) && own(b).transactions[key] == t
            &&& own(b).transactions.remove(key) == own(a).transactions.remove(key)
            &&& b.stores.dom() == a.stores.dom()
            &&& t.involved.dom() == a.stores.dom()
            &&& s != a.self_id ==> b.stores[s].transactions == a.stores[s].transactions
            &&& s != a.self_id && !(own(a).stock.contains_key(p) && own(a).stock[p] >= q)
                && a.stores[s].stock.contains_key(p) && a.stores[s].stock[p] >= q ==> {
                &&& t.involved.contains_key(s)
                &&& t.involved[s].contains_key(p) && t.involved[s][p] == q
                &&& b.stores[s].stock.contains_key(p)
                &&& b.stores[s].stock[p] == a.stores[s].stock[p] - q
            }
            &&& only_of_product(orders, i) && own(a).stock.contains_key(p) && own(a).stock[p] >= q
                ==> {
                &&& t.involved.contains_key(a.self_id)
                &&& t.involved[a.self_id].contains_key(p) && t.involved[a.self_id][p] == q
                &&& own(b).stock.contains_key(p) && own(b).stock[p] == own(a).stock[p] - q
                &&& s != a.self_id ==> !t.involved[s].contains_key(p) && b.stores[s].stock.contains_key(p)
                    == a.stores[s].stock.contains_key(p) && (a.stores[s].stock.contains_key(p)
                    ==> b.stores[s].stock[p] == a.stores[s].stock[p])
            }
        }),
{
    let orders = m.orders->Some_0;
    let pass = local_pass(own(a).stock, orders);
    let p = orders[i].product();
    lemma_local_pass_places_orders(own(a).stock, orders, i);
    lemma_local_pass(own(a).stock, orders);
    let b = request_spec(a, orders, key);
    let t = request_transaction(a, orders);
    let q = orders[i].quantity();
    assert(b.stores.dom() =~= a.stores.dom());
    assert(t.involved.dom() =~= a.stores.dom());
    assert(own(b).transactions.remove(key) =~= own(a).transactions.remove(key));
    assert(store_step(a, m, key) == (b, Some(t)));
    assert(own(b).transactions.contains_key(key));
    assert(own(b).transactions[key] == t);
    if s != a.self_id && !(own(a).stock.contains_key(p) && own(a).stock[p] >= q)
        && a.stores[s].stock.contains_key(p) && a.stores[s].stock[p] >= q {
        assert(pass.remote.contains_key(p) && pass.remote[p] == q);
        assert(t.involved[s] == stock::reservable(a.stores[s].stock, pass.remote));
        assert(t.involved[s].contains_key(p));
        assert(b.stores[s] == after_remote_reserve(a.stores[s], pass.remote));
    }
    if only_of_product(orders, i) && own(a).stock.contains_key(p) && own(a).stock[p] >= q {
        assert(t.involved[a.self_id] == pass.local);
        assert(own(b).stock == pass.stock);
        if s != a.self_id {
            assert(t.involved[s] == stock::reservable(a.stores[s].stock, pass.remote));
            assert(b.stores[s] == after_remote_reserve(a.stores[s], pass.remote));
        }
    }
}

/// An update carrying a stock or transactions for store `id` makes them what is known of
/// `id`, whatever was known before; what it does not carry stays as known (nothing, for a
/// store not known before); every other store stays as it was, and nothing is answered.
pub proof fn lemma_update_replaces(a: ActorView, m: StoreMessageView, key: RequestID, id: StoreID, s: StoreID)
    requires
        m.message_type == MessageType::Update(id),
    ensures
        ({
            let (b, r) = store_step(a, m, key);
            &&& r is None
            &&& b.self_id == a.self_id
            &&& b.stores.dom() == a.stores.dom().insert(id)
            &&& b.stores[id].stock == match m.new_stock {
                Some(st) => st,
                None => if a.stores.contains_key(id) {
                    a.stores[id].stock
                } else {
                    Map::empty()
                },
            }
            &&& b.stores[id].transactions == match m.transactions {
                Some(ts) => ts,
                None => if a.stores.contains_key(id) {
                    a.stores[id].transactions
                } else {
                    Map::empty()
                },
            }
            &&& b.stores[id].is_online == (a.stores.contains_key(id) ==> a.stores[id].is_online)
            &&& s != id && a.stores.contains_key(s) ==> b.stores[s] == a.stores[s]
        }),
{
    let b = store_step(a, m, key).0;
    assert(b.stores.dom() =~= a.stores.dom().insert(id));
}

/// Applying the same update twice leaves what applying it once does.
pub proof fn lemma_update_idempotent(a: ActorView, m: StoreMessageView, k1: RequestID, k2: RequestID)
    requires
        m.message_type is Update,
    ensures
        store_step(store_step(a, m, k1).0, m, k2).0 == store_step(a, m, k1).0,
{
    let b = store_step(a, m, k1).0;
    let c = store_step(b, m, k2).0;
    assert(c.stores =~= b.stores);
}

/// An ask for stock succeeds exactly when the own stock holds every asked product in at
/// least the asked quantity. Then that quantity is taken from the own stock, and the
/// transaction given back (id `rid`, awaiting confirmation, no stock recorded) is kept
/// under `rid`, the other transactions staying; otherwise nothing changes.
pub proof fn lemma_ask_reserves_and_records(a: ActorView, m: StoreMessageView, key: RequestID, rid: RequestID)
    requires
        actor_wf(a),
        m.message_type == MessageType::Ask(rid),
        m.new_stock is Some,
    ensures
        ({
            let need = m.new_stock->Some_0;
            let (b, r) = store_step(a, m, key);
            &&& r is Some <==> forall|p: u64|
                #[trigger] need.contains_key(p) ==> own(a).stock.contains_key(p) && need[p]
                    <= own(a).stock[p]
            &&& r is None ==> b == a
            &&& r matches Some(t) ==> {
                &&& t.id == rid
                &&& t.state == TransactionState::AwaitingConfirmation
                &&& t.involved == Map::<StoreID, Map<u64, u64>>::empty()
                &&& own(b).transactions.contains_key(rid) && own(b).transactions[rid] == t
                &&& forall|x: RequestID|
                    x != rid ==> (#[trigger] own(b).transactions.contains_key(x)
                        == own(a).transactions.contains_key(x)) && (own(a).transactions.contains_key(
                        x,
                    ) ==> own(b).transactions[x] == own(a).transactions[x])
                &&& own(b).stock.dom() == own(a).stock.dom()
                &&& forall|p: u64|
                    #[trigger] own(b).stock.contains_key(p) ==> own(b).stock[p] == if need.contains_key(p) {
                        own(a).stock[p] - need[p]
                    } else {
                        own(a).stock[p] as int
                    }
                &&& forall|s: StoreID| s != a.self_id ==> #[trigger] b.stores[s] == a.stores[s]
                &&& b.stores.dom() == a.stores.dom()
            }
        }),
{
    let need = m.new_stock->Some_0;
    let (b, r) = store_step(a, m, key);
    if r is Some {
        assert(own(b).stock.dom() =~= own(a).stock.dom());
        assert(b.stores.dom() =~= a.stores.dom());
    }
}

/// A commit of a known own transaction marks it confirmed by the node, keeps it so under
/// its id and gives it back, with its id and reserved stock unchanged; the stock, the other
/// transactions and the other stores stay. A commit of an unknown transaction changes
/// nothing and answers nothing.
pub proof fn lemma_commit_confirms(a: ActorView, m: StoreMessageView, key: RequestID, rid: RequestID)
    requires
        actor_wf(a),
        m.message_type == MessageType::Commit(rid),
    ensures
        ({
            let (b, r) = store_step(a, m, key);
            &&& !own(a).transactions.contains_key(rid) ==> b == a && r is None
            &&& own(a).transactions.contains_key(rid) ==> {
                let old_t = own(a).transactions[rid];
                &&& r is Some
                &&& r->Some_0.state == TransactionState::NodeConfirmed
                &&& r->Some_0.id == old_t.id
                &&& r->Some_0.involved == old_t.involved
                &&& own(b).transactions.contains_key(rid) && own(b).transactions[rid] == r->Some_0
                &&& own(b).transactions.remove(rid) == own(a).transactions.remove(rid)
                &&& own(b).stock == own(a).stock
                &&& b.self_id == a.self_id
                &&& b.stores.dom() == a.stores.dom()
                &&& forall|s: StoreID| s != a.self_id ==> #[trigger] b.stores[s] == a.stores[s]
            }
        }),
{
    let (b, r) = store_step(a, m, key);
    if own(a).transactions.contains_key(rid) {
        assert(own(b).transactions.remove(rid) =~= own(a).transactions.remove(rid));
        assert(b.stores.dom() =~= a.stores.dom());
    }
}

/// A commit of the transaction that a request just kept under `key` confirms that very
/// transaction.
pub proof fn lemma_request_then_commit(a: ActorView, req: StoreMessageView, com: StoreMessageView, key: RequestID, k2: RequestID)
    requires
        actor_wf(a),
        req.message_type is Request,
        req.orders is Some,
        com.message_type == MessageType::Commit(key),
    ensures
        ({
            let (b, t) = store_step(a, req, key);
            let (c, r) = store_step(b, com, k2);
            &&& r is Some
            &&& r->Some_0.state == TransactionState::NodeConfirmed
            &&& r->Some_0.id == t->Some_0.id
            &&& r->Some_0.involved == t->Some_0.involved
            &&& own(c).transactions[key] == r->Some_0
        }),
{
    let b = store_step(a, req, key).0;
    assert(actor_wf(b));
}

/// A commit of the transaction that a successful ask just kept under `rid` confirms it.
pub proof fn lemma_ask_then_commit(a: ActorView, ask: StoreMessageView, com: StoreMessageView, k1: RequestID, k2: RequestID, rid: RequestID)
    requires
        actor_wf(a),
        ask.message_type == MessageType::Ask(rid),
        store_step(a, ask, k1).1 is Some,
        com.message_type == MessageType::Commit(rid),
    ensures
        ({
            let (b, t) = store_step(a, ask, k1);
            let (c, r) = store_step(b, com, k2);
            &&& r is Some
            &&& r->Some_0.state == TransactionState::NodeConfirmed
            &&& r->Some_0.id == rid
            &&& own(c).transactions[rid] == r->Some_0
        }),
{
    let b = store_step(a, ask, k1).0;
    assert(actor_wf(b));
}

impl StoreActor {
    fn create_info() -> (i: StoreInformation)
        ensures
            i@ == store::fresh_info(),
    {
        let mut info = StoreInformation::random();
        info.is_online(true);
        proof {
            assert(info@.stock =~= store::fresh_info().stock);
            assert(info@.transactions =~= store::fresh_info().transactions);
        }
        info
    }

    /// An actor for the store `id`, which knows only itself: no stock, no transactions.
    pub fn new(id: StoreID) -> (s: Self)
        ensures
            s@ == (ActorView { self_id: id, stores: map![id => store::fresh_info()] }),
            actor_wf(s@),
    {
        let self_info = Self::create_info();
        let mut stores_info: HashMap<StoreID, StoreInformation> = HashMap::new();
        stores_info.insert(id, self_info);
        let s = StoreActor { stores: stores_info, self_id: id };
        proof {
            assert(s@.stores =~= map![id => store::fresh_info()]);
        }
        s
    }

    /// The id of the actor's own store.
    pub fn self_id(&self) -> (id: StoreID)
        ensures
            id == self@.self_id,
    {
        self.self_id
    }

    fn update(
        &mut self,
        store_id: StoreID,
        new_stock: Option<Stock>,
        transactions: Option<HashMap<RequestID, Transaction>>,
    )
        requires
            actor_wf(old(self)@),
        ensures
            actor_wf(final(self)@),
            final(self)@ == update_spec(
                old(self)@,
                store_id,
                messages::opt_stock_view(new_stock),
                messages::opt_transactions_view(transactions),
            ),
    {
        let ghost spec = update_spec(
            old(self)@,
            store_id,
            messages::opt_stock_view(new_stock),
            messages::opt_transactions_view(transactions),
        );
        let mut info = match self.stores.get(&store_id) {
            Some(i) => i.clone(),
            None => Self::create_info(),
        };
        if let Some(s) = new_stock {
            info.stock = s;
        }
        if let Some(t) = transactions {
            info.transactions = t;
        }
        self.stores.insert(store_id, info);
        proof {
            assert(self@.stores =~= spec.stores);
        }
    }

    /// The own part of a request: goes through the orders, reserving here what the own
    /// stock can serve.
    fn local_part(me: &mut StoreInformation, orders: &Vec<Order>) -> (r: (Stock, Stock))
        ensures
            ({
                let pass = local_pass(old(me)@.stock, orders@);
                &&& final(me)@ == (StoreInfoView { stock: pass.stock, ..old(me)@ })
                &&& r.0@ == pass.local
                &&& r.1@ == pass.remote
            }),
    {
        let ghost stock0 = me.stock@;
        let mut local: Stock = HashMap::new();
        let mut remote: Stock = HashMap::new();
        let mut i: usize = 0;
        while i < orders.len()
            invariant
                i <= orders@.len(),
                me@.stock == local_pass(stock0, orders@.take(i as int)).stock,
                local@ == local_pass(stock0, orders@.take(i as int)).local,
                remote@ == local_pass(stock0, orders@.take(i as int)).remote,
                me@.transactions == old(me)@.transactions,
                me@.is_online == old(me)@.is_online,
                stock0 == old(me)@.stock,
            decreases orders@.len() - i,
        {
            let p = orders[i].get_product();
            let q = orders[i].get_qty();
            proof {
                assert(orders@.take(i + 1).drop_last() =~= orders@.take(i as int));
                assert(orders@.take(i + 1).last() == orders@[i as int]);
            }
            let cur = match me.stock.get(&p) {
                Some(c) => Some(*c),
                None => None,
            };
            match cur {
                Some(c) => {
                    if c >= q {
                        local.insert(p, q);
                        me.stock.insert(p, c - q);
                    } else {
                        remote.insert(p, q);
                    }
                },
                None => {
                    remote.insert(p, q);
                },
            }
            i = i + 1;
        }
        proof {
            assert(orders@.take(orders@.len() as int) =~= orders@);
            assert(me@.stock == local_pass(old(me)@.stock, orders@).stock);
        }
        (local, remote)
    }

    /// An order from an e-commerce: reserves what it can here, asks the rest of the
    /// other stores, and records the transaction under `key`.
    fn request(&mut self, orders: Option<Vec<Order>>, key: RequestID) -> (r: Option<Transaction>)
        requires
            actor_wf(old(self)@),
        ensures
            actor_wf(final(self)@),
            match orders {
                None => final(self)@ == old(self)@ && r is None,
                Some(o) => final(self)@ == request_spec(old(self)@, o@, key) && opt_view(r) == Some(
                    request_transaction(old(self)@, o@),
                ),
            },
    {
        let orders = match orders {
            Some(o) => o,
            None => {
                return None;
            },
        };
        let ghost pre = self@;
        let self_id = self.self_id;
        let mut me = self.stores.get(&self_id).unwrap().clone();
        let new_id = me.transactions.len() as u128;
        proof {
            assert(me@.transactions.dom() =~= me.transactions@.dom());
        }
        let (local, remote) = Self::local_part(&mut me, &orders);
        let ghost pass = local_pass(own(pre).stock, orders@);
        let mut involved: HashMap<StoreID, Stock> = HashMap::new();
        involved.insert(self_id, local);
        let ids = key_list(&self.stores);
        let ghost processed: Set<StoreID> = Set::empty();
        let mut i: usize = 0;
        while i < ids.len()
            invariant
                i <= ids@.len(),
                ids@.no_duplicates(),
                forall|k: StoreID| #[trigger] pre.stores.contains_key(k) <==> ids@.contains(k),
                forall|j: int| 0 <= j < i ==> processed.contains(#[trigger] ids@[j]),
                forall|j: int| i <= j < ids@.len() ==> !processed.contains(#[trigger] ids@[j]),
                processed.subset_of(pre.stores.dom()),
                self.self_id == self_id,
                self_id == pre.self_id,
                pre.stores.contains_key(self_id),
                remote@ == pass.remote,
                self@.stores == Map::new(
                    |s: StoreID| pre.stores.contains_key(s),
                    |s: StoreID|
                        if s != self_id && processed.contains(s) {
                            after_remote_reserve(pre.stores[s], pass.remote)
                        } else {
                            pre.stores[s]
                        },
                ),
                store::involved_view(involved) == Map::new(
                    |s: StoreID| s == self_id || processed.contains(s),
                    |s: StoreID|
                        if s == self_id {
                            pass.local
                        } else {
                            stock::reservable(pre.stores[s].stock, pass.remote)
                        },
                ),
            decreases ids@.len() - i,
        {
            let id = ids[i];
            proof {
                assert(ids@.contains(id));
            }
            let ghost stores_before = self@.stores;
            if id != self_id {
                proof {
                    assert(self@.stores.contains_key(id));
                    assert(self.stores@.contains_key(id));
                    assert(!processed.contains(id));
                    assert(self@.stores[id] == pre.stores[id]);
                }
                let mut info = self.stores.get(&id).unwrap().clone();
                let reserved = reserve_from(&mut info.stock, &remote);
                proof {
                    assert(info@.stock =~= after_remote_reserve(pre.stores[id], pass.remote).stock);
                    assert(info@ == after_remote_reserve(pre.stores[id], pass.remote));
                }
                self.stores.insert(id, info);
                proof {
                    assert(self@.stores =~= stores_before.insert(
                        id,
                        after_remote_reserve(pre.stores[id], pass.remote),
                    ));
                }
                let ghost inv_before = store::involved_view(involved);
                proof {
                    assert(reserved@ == stock::reservable(pre.stores[id].stock, pass.remote));
                }
                involved.insert(id, reserved);
                proof {
                    assert(store::involved_view(involved) =~= inv_before.insert(
                        id,
                        stock::reservable(pre.stores[id].stock, pass.remote),
                    ));
                }
            }
            proof {
                processed = processed.insert(id);
                assert forall|j: int| i + 1 <= j < ids@.len() implies !processed.contains(
                    #[trigger] ids@[j],
                ) by {
                    assert(ids@[j] != ids@[i as int]);
                }
                assert(self@.stores =~= Map::new(
                    |s: StoreID| pre.stores.contains_key(s),
                    |s: StoreID|
                        if s != self_id && processed.contains(s) {
                            after_remote_reserve(pre.stores[s], pass.remote)
                        } else {
                            pre.stores[s]
                        },
                ));
                assert(store::involved_view(involved) =~= Map::new(
                    |s: StoreID| s == self_id || processed.contains(s),
                    |s: StoreID|
                        if s == self_id {
                            pass.local
                        } else {
                            stock::reservable(pre.stores[s].stock, pass.remote)
                        },
                ));
            }
            i = i + 1;
        }
        proof {
            assert forall|s: StoreID| pre.stores.contains_key(s) implies processed.contains(s) by {
                assert(ids@.contains(s));
                let j = choose|j: int| 0 <= j < ids@.len() && ids@[j] == s;
            }
            assert(store::involved_view(involved) =~= request_involved(pre, pass));
        }
        let t = Transaction {
            id: new_id,
            state: TransactionState::AwaitingConfirmation,
            involved_stock: involved,
        };
        me.transactions.insert(key, t.clone());
        let ghost stores_before = self@.stores;
        let ghost me_view = me@;
        self.stores.insert(self_id, me);
        proof {
            assert(self@.stores =~= stores_before.insert(self_id, me_view));
            assert(t@ == request_transaction(pre, orders@));
            assert(self@.stores[self_id].transactions =~= own(pre).transactions.insert(key, t@));
            assert(self@.stores =~= request_spec(pre, orders@, key).stores);
        }
        Some(t)
    }

    /// The information of the own store, copied.
    fn own_info(&self) -> (i: StoreInformation)
        requires
            actor_wf(self@),
        ensures
            i@ == own(self@),
    {
        proof {
            assert(self.stores@.contains_key(self.self_id));
        }
        self.stores.get(&self.self_id).unwrap().clone()
    }

    /// Replaces the information of the own store.
    fn set_own(&mut self, info: StoreInformation)
        requires
            actor_wf(old(self)@),
        ensures
            actor_wf(final(self)@),
            final(self)@ == with_own(old(self)@, info@),
    {
        let ghost before = self@;
        let ghost v = info@;
        let id = self.self_id;
        self.stores.insert(id, info);
        proof {
            assert(self@.stores =~= before.stores.insert(id, v));
        }
    }

    fn commit(&mut self, rid: RequestID) -> (r: Option<Transaction>)
        requires
            actor_wf(old(self)@),
        ensures
            actor_wf(final(self)@),
            (final(self)@, opt_view(r)) == commit_spec(old(self)@, rid),
    {
        let mut me = self.own_info();
        let found = match me.transactions.get(&rid) {
            Some(t) => Some(t.clone()),
            None => None,
        };
        match found {
            Some(mut t) => {
                t.state = TransactionState::NodeConfirmed;
                me.transactions.insert(rid, t.clone());
                proof {
                    assert(me@.transactions =~= own(old(self)@).transactions.insert(rid, t@));
                }
                self.set_own(me);
                Some(t)
            },
            None => None,
        }
    }

    fn cancel(&mut self, rid: RequestID) -> (r: Option<Transaction>)
        requires
            actor_wf(old(self)@),
            cancel_safe(old(self)@, rid),
        ensures
            actor_wf(final(self)@),
            (final(self)@, opt_view(r)) == cancel_spec(old(self)@, rid),
    {
        let ghost pre = self@;
        let mut me = self.own_info();
        let found = match me.transactions.get(&rid) {
            Some(t) => Some(t.clone()),
            None => None,
        };
        let mut t = match found {
            Some(t) => t,
            None => {
                return None;
            },
        };
        let ghost tv = t@;
        let ids = key_list(&t.involved_stock);
        let ghost processed: Set<StoreID> = Set::empty();
        let mut i: usize = 0;
        while i < ids.len()
            invariant
                i <= ids@.len(),
                ids@.no_duplicates(),
                forall|k: StoreID| #[trigger] t.involved_stock@.contains_key(k) <==> ids@.contains(k),
                forall|j: int| 0 <= j < i ==> processed.contains(#[trigger] ids@[j]),
                forall|j: int| i <= j < ids@.len() ==> !processed.contains(#[trigger] ids@[j]),
                t@ == tv,
                tv == own(pre).transactions[rid],
                own(pre).transactions.contains_key(rid),
                cancel_safe(pre, rid),
                actor_wf(pre),
                self.self_id == pre.self_id,
                self@.stores == Map::new(
                    |s: StoreID| pre.stores.contains_key(s),
                    |s: StoreID|
                        if processed.contains(s) && tv.involved.contains_key(s) {
                            StoreInfoView {
                                stock: stock::stock_plus(pre.stores[s].stock, tv.involved[s]),
                                transactions: pre.stores[s].transactions,
                                is_online: pre.stores[s].is_online,
                            }
                        } else {
                            pre.stores[s]
                        },
                ),
            decreases ids@.len() - i,
        {
            let s = ids[i];
            proof {
                assert(ids@.contains(s));
                assert(tv.involved.contains_key(s));
            }
            let ghost stores_before = self@.stores;
            let known = match self.stores.get(&s) {
                Some(info) => Some(info.clone()),
                None => None,
            };
            match known {
                Some(mut info) => {
                    proof {
                        assert(self.stores@.contains_key(s));
                        assert(self@.stores[s] == self.stores@[s]@);
                        assert(self@.stores.contains_key(s));
                        assert(!processed.contains(s));
                        assert(self@.stores[s] == pre.stores[s]);
                        assert(info@ == pre.stores[s]);
                        assert(pre.stores.contains_key(s));
                    }
                    let back = t.involved_stock.get(&s).unwrap();
                    proof {
                        assert(back@ == tv.involved[s]);
                    }
                    add_stock_to(&mut info.stock, back);
                    let ghost v = info@;
                    self.stores.insert(s, info);
                    proof {
                        assert(self@.stores =~= stores_before.insert(s, v));
                    }
                },
                None => {
                    proof {
                        assert(!self.stores@.contains_key(s));
                        assert(!self@.stores.contains_key(s));
                        assert(!pre.stores.contains_key(s));
                    }
                },
            }
            proof {
                processed = processed.insert(s);
                assert forall|j: int| i + 1 <= j < ids@.len() implies !processed.contains(
                    #[trigger] ids@[j],
                ) by {
                    assert(ids@[j] != ids@[i as int]);
                }
                assert(self@.stores =~= Map::new(
                    |x: StoreID| pre.stores.contains_key(x),
                    |x: StoreID|
                        if processed.contains(x) && tv.involved.contains_key(x) {
                            StoreInfoView {
                                stock: stock::stock_plus(pre.stores[x].stock, tv.involved[x]),
                                transactions: pre.stores[x].transactions,
                                is_online: pre.stores[x].is_online,
                            }
                        } else {
                            pre.stores[x]
                        },
                ));
            }
            i = i + 1;
        }
        t.state = TransactionState::Cancelled;
        me.transactions.insert(rid, t.clone());
        proof {
            assert(me@.transactions =~= own(pre).transactions.insert(rid, cancelled(tv)));
        }
        self.set_own(me);
        proof {
            assert forall|x: StoreID| tv.involved.contains_key(x) implies processed.contains(x) by {
                assert(ids@.contains(x));
                let j = choose|j: int| 0 <= j < ids@.len() && ids@[j] == x;
            }
            assert(self@.stores =~= cancel_spec(pre, rid).0.stores);
        }
        Some(t)
    }

    #[verifier::loop_isolation(false)]
    fn local_request(&mut self, orders: Option<Vec<Order>>) -> (r: Option<Transaction>)
        requires
            actor_wf(old(self)@),
        ensures
            actor_wf(final(self)@),
            (final(self)@, opt_view(r)) == local_request_spec(
                old(self)@,
                match orders {
                    Some(o) => Some(o@),
                    None => None,
                },
            ),
    {
        let ghost pre = self@;
        let orders = match orders {
            Some(o) => o,
            None => {
                return None;
            },
        };
        let mut me = self.own_info();
        let mut local: Stock = HashMap::new();
        let mut i: usize = 0;
        while i < orders.len()
            invariant
                i <= orders@.len(),
                me@ == own(pre),
                self@ == pre,
                actor_wf(pre),
                local@ == orders_map(orders@.take(i as int)),
                orders_available(own(pre).stock, orders@.take(i as int)),
            decreases orders@.len() - i,
        {
            let p = orders[i].get_product();
            let q = orders[i].get_qty();
            let enough = match me.stock.get(&p) {
                Some(c) => *c >= q,
                None => false,
            };
            if !enough {
                proof {
                    assert(orders@[i as int].product() == p);
                    assert(!orders_available(own(pre).stock, orders@));
                }
                return None;
            }
            local.insert(p, q);
            proof {
                let tk = orders@.take(i + 1);
                assert(tk.drop_last() =~= orders@.take(i as int));
                assert(tk.last() == orders@[i as int]);
                assert forall|k: int| 0 <= k < tk.len() implies own(pre).stock.contains_key(
                    #[trigger] tk[k].product(),
                ) && tk[k].quantity() <= own(pre).stock[tk[k].product()] by {
                    if k < i {
                        assert(tk[k] == orders@.take(i as int)[k]);
                    }
                }
            }
            i = i + 1;
        }
        proof {
            assert(orders@.take(orders@.len() as int) =~= orders@);
            lemma_orders_map_covered(own(pre).stock, orders@);
        }
        take_stock_from(&mut me.stock, &local);
        self.set_own(me);
        let mut involved: HashMap<StoreID, Stock> = HashMap::new();
        involved.insert(self.self_id, local);
        let t = Transaction { id: 0, state: TransactionState::Finalized, involved_stock: involved };
        proof {
            assert(store::involved_view(involved) =~= map![pre.self_id => orders_map(orders@)]);
            assert(self@.stores =~= local_request_spec(pre, Some(orders@)).0.stores);
        }
        Some(t)
    }

    fn add_stock(&mut self, new_stock: Option<Stock>)
        requires
            actor_wf(old(self)@),
            match new_stock {
                Some(s) => stock::fits_plus(own(old(self)@).stock, s@),
                None => true,
            },
        ensures
            actor_wf(final(self)@),
            final(self)@ == add_stock_spec(old(self)@, messages::opt_stock_view(new_stock)),
    {
        let ghost pre = self@;
        let new_stock = match new_stock {
            Some(s) => s,
            None => {
                return ;
            },
        };
        let mut me = self.own_info();
        add_stock_to(&mut me.stock, &new_stock);
        self.set_own(me);
        proof {
            assert(self@.stores =~= add_stock_spec(pre, Some(new_stock@)).stores);
        }
    }

    fn ask(&mut self, rid: RequestID, new_stock: Option<Stock>) -> (r: Option<Transaction>)
        requires
            actor_wf(old(self)@),
        ensures
            actor_wf(final(self)@),
            (final(self)@, opt_view(r)) == ask_spec(old(self)@, rid, messages::opt_stock_view(new_stock)),
    {
        let ghost pre = self@;
        let new_stock = match new_stock {
            Some(s) => s,
            None => {
                return None;
            },
        };
        let mut me = self.own_info();
        if !has_stock(&me.stock, &new_stock) {
            return None;
        }
        take_stock_from(&mut me.stock, &new_stock);
        let t = Transaction {
            id: rid,
            state: TransactionState::AwaitingConfirmation,
            involved_stock: HashMap::new(),
        };
        me.transactions.insert(rid, t.clone());
        proof {
            assert(t@.involved =~= Map::empty());
            let tv = ask_spec(pre, rid, Some(new_stock@)).1.unwrap();
            assert(t@ == tv);
            assert(me@.transactions =~= own(pre).transactions.insert(rid, tv));
        }
        self.set_own(me);
        proof {
            assert(self@.stores =~= ask_spec(pre, rid, Some(new_stock@)).0.stores);
        }
        Some(t)
    }

    /// Handles a store message, a request keeping its transaction under `request_key`.
    pub fn handle_message(&mut self, msg: StoreMessage, request_key: RequestID) -> (r: Option<
        Transaction,
    >)
        requires
            actor_wf(old(self)@),
            step_safe(old(self)@, msg@),
        ensures
            actor_wf(final(self)@),
            (final(self)@, opt_view(r)) == store_step(old(self)@, msg@, request_key),
    {
        match msg.message_type {
            MessageType::Update(store_id) => {
                self.update(store_id, msg.new_stock, msg.transactions);
                None
            },
            MessageType::Request => self.request(msg.orders, request_key),
            MessageType::Ask(rid) => self.ask(rid, msg.new_stock),
            MessageType::Confirm(_) => None,
            MessageType::Commit(rid) => self.commit(rid),
            MessageType::Cancel(rid) => self.cancel(rid),
            MessageType::LocalRequest => self.local_request(msg.orders),
            MessageType::AddStock => {
                self.add_stock(msg.new_stock);
                None
            },
        }
    }

    /// Handles a store message; a request keeps its transaction under a random id.
    pub fn handle(&mut self, msg: StoreMessage) -> (r: Option<Transaction>)
        requires
            actor_wf(old(self)@),
            step_safe(old(self)@, msg@),
        ensures
            actor_wf(final(self)@),
            exists|key: RequestID| (final(self)@, opt_view(r)) == #[trigger] store_step(old(self)@, msg@, key),
            !(msg@.message_type is Request) ==> (final(self)@, opt_view(r)) == store_step(
                old(self)@,
                msg@,
                0,
            ),
    {
        let key = random_request_id();
        let ghost m = msg@;
        let r = self.handle_message(msg, key);
        proof {
            assert(store_step(old(self)@, m, key) == store_step(old(self)@, m, key));
        }
        r
    }

    /// Answers a question about the store's state: the own id and information, or marks a
    /// store unreachable.
    pub fn handle_state(&mut self, msg: StoreState) -> (r: Option<(StoreID, StoreInformation)>)
        requires
            actor_wf(old(self)@),
        ensures
            actor_wf(final(self)@),
            match msg {
                StoreState::CurrentState => final(self)@ == old(self)@ && match r {
                    Some((id, info)) => id == old(self)@.self_id && info@ == own(old(self)@),
                    None => false,
                },
                StoreState::Shutdown(id) => final(self)@ == shutdown_spec(old(self)@, id)
                    && r is None,
            },
    {
        match msg {
            StoreState::CurrentState => Some((self.self_id, self.own_info())),
            StoreState::Shutdown(id) => {
                let ghost pre = self@;
                let known = match self.stores.get(&id) {
                    Some(info) => Some(info.clone()),
                    None => None,
                };
                if let Some(mut info) = known {
                    info.is_online(false);
                    let ghost v = info@;
                    self.stores.insert(id, info);
                    proof {
                        assert(self@.stores =~= shutdown_spec(pre, id).stores);
                    }
                }
                None
            },
        }
    }

    /// Whether handling `msg` is free of panics: a cancellation finds every product it
    /// gives back, within `u64`, and added stock fits in `u64`.
    pub fn can_handle(&self, msg: &StoreMessage) -> (r: bool)
        requires
            actor_wf(self@),
        ensures
            r == step_safe(self@, msg@),
    {
        match msg.message_type {
            MessageType::Cancel(rid) => self.cancel_is_safe(rid),
            MessageType::AddStock => match &msg.new_stock {
                Some(s) => {
                    let me = self.own_info();
                    stock::fits_plus_check(&me.stock, s)
                },
                None => true,
            },
            _ => true,
        }
    }

    fn cancel_is_safe(&self, rid: RequestID) -> (r: bool)
        requires
            actor_wf(self@),
        ensures
            r == cancel_safe(self@, rid),
    {
        let me = self.own_info();
        let t = match me.transactions.get(&rid) {
            Some(t) => t,
            None => {
                return true;
            },
        };
        let ghost tv = t@;
        proof {
            assert(own(self@).transactions.contains_key(rid));
            assert(tv == own(self@).transactions[rid]);
        }
        let ids = key_list(&t.involved_stock);
        let mut i: usize = 0;
        while i < ids.len()
            invariant
                i <= ids@.len(),
                forall|k: StoreID| #[trigger] t.involved_stock@.contains_key(k) <==> ids@.contains(k),
                t@ == tv,
                own(self@).transactions.contains_key(rid),
                actor_wf(self@),
                tv == own(self@).transactions[rid],
                forall|j: int|
                    #![trigger ids@[j]]
                    0 <= j < i && self@.stores.contains_key(ids@[j]) ==> {
                        &&& tv.involved[ids@[j]].dom().subset_of(self@.stores[ids@[j]].stock.dom())
                        &&& stock::fits_plus(self@.stores[ids@[j]].stock, tv.involved[ids@[j]])
                    },
            decreases ids@.len() - i,
        {
            let s = ids[i];
            proof {
                assert(ids@.contains(s));
            }
            match self.stores.get(&s) {
                Some(info) => {
                    let back = t.involved_stock.get(&s).unwrap();
                    proof {
                        assert(self.stores@.contains_key(s));
                        assert(self@.stores[s] == info@);
                        assert(back@ == tv.involved[s]);
                        assert(tv.involved.contains_key(s));
                    }
                    if !stock::keys_within(&info.stock, back) || !stock::fits_plus_check(&info.stock, back) {
                        proof {
                            assert(self@.stores.contains_key(s));
                        }
                        return false;
                    }
                },
                None => {},
            }
            i = i + 1;
        }
        proof {
            assert forall|s: StoreID|
                #![trigger tv.involved.contains_key(s), self@.stores.contains_key(s)]
                tv.involved.contains_key(s) && self@.stores.contains_key(s) implies {
                    &&& tv.involved[s].dom().subset_of(self@.stores[s].stock.dom())
                    &&& stock::fits_plus(self@.stores[s].stock, tv.involved[s])
                } by {
                assert(ids@.contains(s));
                let j = choose|j: int| 0 <= j < ids@.len() && ids@[j] == s;
            }
        }
        true
    }
}

} // verus!
