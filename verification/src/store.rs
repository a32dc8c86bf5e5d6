use std::collections::HashMap;
use vstd::prelude::*;

use crate::messages::{RequestID, StoreID};
use crate::order::Order;
use crate::purchase_state::ReservationOutcome;
use crate::stock::Stock;

verus! {

broadcast use vstd::std_specs::hash::group_hash_axioms;

/// Where a transaction stands.
#[derive(Debug, Clone, Copy, PartialEq, Eq, Structural)]
pub enum TransactionState {
    Cancelled,
    AwaitingConfirmation,
    NodeConfirmed,
    Finalized,
}

/// A purchase in progress: the stock that it holds in each store involved.
#[derive(Debug)]
pub struct Transaction {
    pub id: RequestID,
    pub state: TransactionState,
    pub involved_stock: HashMap<StoreID, Stock>,
}

/// A transaction as values.
pub struct TransactionView {
    pub id: RequestID,
    pub state: TransactionState,
    pub involved: Map<StoreID, Map<u64, u64>>,
}

/// The stock of each store, each by its view.
pub open spec fn involved_view(m: HashMap<StoreID, Stock>) -> Map<StoreID, Map<u64, u64>> {
    m@.map_values(|s: Stock| s@)
}

impl View for Transaction {
    type V = TransactionView;

    open spec fn view(&self) -> TransactionView {
        TransactionView { id: self.id, state: self.state, involved: involved_view(self.involved_stock) }
    }
}

impl Clone for Transaction {
    fn clone(&self) -> (r: Self)
        ensures
            r@ == self@,
    {
        Transaction { id: self.id, state: self.state, involved_stock: self.involved_stock.clone() }
    }
}

/// What a store knows of a store: its stock, its transactions and whether it is reachable.
#[derive(Debug)]
pub struct StoreInformation {
    pub stock: Stock,
    pub transactions: HashMap<RequestID, Transaction>,
    pub is_online: bool,
}

/// Store information as values.
pub struct StoreInfoView {
    pub stock: Map<u64, u64>,
    pub transactions: Map<RequestID, TransactionView>,
    pub is_online: bool,
}

impl View for StoreInformation {
    type V = StoreInfoView;

    open spec fn view(&self) -> StoreInfoView {
        StoreInfoView {
            stock: self.stock@,
            transactions: self.transactions@.map_values(|t: Transaction| t@),
            is_online: self.is_online,
        }
    }
}

impl Clone for StoreInformation {
    fn clone(&self) -> (r: Self)
        ensures
            r@ == self@,
    {
        StoreInformation {
            stock: self.stock.clone(),
            transactions: self.transactions.clone(),
            is_online: self.is_online,
        }
    }
}

/// Information on a store of which nothing is known yet, and that is reachable.
pub open spec fn fresh_info() -> StoreInfoView {
    StoreInfoView { stock: Map::empty(), transactions: Map::empty(), is_online: true }
}

impl StoreInformation {
    /// Information with no stock, no transactions, and not reachable.
    pub fn random() -> (r: Self)
        ensures
            r@ == (StoreInfoView { stock: Map::empty(), transactions: Map::empty(), is_online: false }),
    {
        let r = StoreInformation {
            stock: HashMap::new(),
            transactions: HashMap::new(),
            is_online: false,
        };
        assert(r@.transactions =~= Map::empty());
        r
    }

    /// Sets whether the store is reachable.
    pub fn is_online(&mut self, is_online: bool)
        ensures
            final(self)@ == (StoreInfoView { is_online, ..old(self)@ }),
    {
        self.is_online = is_online;
    }
}

/// The stock that a store keeps for itself, and the place of its listener once it is connected.
pub struct Store<L> {
    products: Stock,
    listener: Option<L>,
}

/// The stock of `products` after adding `quantity` of `id`.
pub open spec fn stock_added(products: Map<u64, u64>, id: u64, quantity: u64) -> Map<u64, u64> {
    products.insert(
        id,
        if products.contains_key(id) {
            (products[id] + quantity) as u64
        } else {
            quantity
        },
    )
}

/// The stock of `products` after selling `quantity` of `id`, when there is that much.
pub open spec fn stock_sold(products: Map<u64, u64>, id: u64, quantity: u64) -> Map<u64, u64> {
    if products[id] >= quantity {
        products.insert(id, (products[id] - quantity) as u64)
    } else {
        products
    }
}

/// Selling what was just added to a product that the store had gives the stock it had.
pub proof fn lemma_add_then_sell(products: Map<u64, u64>, id: u64, quantity: u64)
    requires
        products.contains_key(id),
        products[id] + quantity <= u64::MAX,
    ensures
        stock_sold(stock_added(products, id, quantity), id, quantity) == products,
{
    assert(stock_sold(stock_added(products, id, quantity), id, quantity) =~= products);
}

impl<L: Clone> Store<L> {
    /// The quantity of each product in the store.
    pub closed spec fn stock(&self) -> Map<u64, u64> {
        self.products@
    }

    /// The listener the store is connected to, if any.
    pub closed spec fn network(&self) -> Option<L> {
        self.listener
    }

    /// Whether the store is connected to a listener.
    pub open spec fn connected(&self) -> bool {
        self.network() is Some
    }

    pub fn new() -> (s: Self)
        ensures
            s.stock() == Map::<u64, u64>::empty(),
            !s.connected(),
    {
        Store { products: HashMap::new(), listener: None }
    }

    pub fn get_products(&self) -> (p: Stock)
        ensures
            p@ == self.stock(),
    {
        self.products.clone()
    }

    /// The quantity of `product`, 0 for a product that the store does not have.
    pub fn get_product_quantity(&self, product: u64) -> (q: u64)
        ensures
            q == (if self.stock().contains_key(product) {
                self.stock()[product]
            } else {
                0
            }),
    {
        match self.products.get(&product) {
            Some(qty) => *qty,
            None => 0,
        }
    }

    /// The listener the store is connected to, if any.
    pub fn listener(&self) -> (l: Option<L>)
        ensures
            l is Some <==> self.connected(),
            l matches Some(x) ==> vstd::pervasive::cloned(self.network()->Some_0, x),
    {
        match &self.listener {
            Some(addr) => Some(addr.clone()),
            None => None,
        }
    }

    pub fn add_to_network(&mut self, listener: L)
        ensures
            final(self).network() == Some(listener),
            final(self).stock() == old(self).stock(),
    {
        self.listener = Some(listener);
    }

    /// Adds `quantity` of product `id` and gives the quantity there is now.
    pub fn add_product_stock(&mut self, id: u64, quantity: u64) -> (total: u64)
        requires
            old(self).stock().contains_key(id) ==> old(self).stock()[id] + quantity <= u64::MAX,
        ensures
            final(self).stock() == stock_added(old(self).stock(), id, quantity),
            total == final(self).stock()[id],
            final(self).network() == old(self).network(),
    {
        let n = match self.products.get(&id) {
            Some(c) => *c + quantity,
            None => quantity,
        };
        self.products.insert(id, n);
        n
    }

    /// Sells `quantity` of product `id` when there is that much; otherwise nothing changes.
    pub fn sell_product(&mut self, id: u64, quantity: u64)
        requires
            old(self).stock().contains_key(id),
        ensures
            final(self).stock() == stock_sold(old(self).stock(), id, quantity),
            final(self).network() == old(self).network(),
    {
        let remainder = *self.products.get(&id).unwrap();
        if remainder >= quantity {
            self.products.insert(id, remainder - quantity);
        }
    }

    /// Sells an order when the store has enough of its product, and says whether it did.
    pub fn manage_order(&mut self, order: Order) -> (r: ReservationOutcome)
        ensures
            ({
                let p = order.product();
                let q = order.quantity();
                let enough = old(self).stock().contains_key(p) && old(self).stock()[p] >= q;
                &&& r == (if enough {
                    ReservationOutcome::Reserve
                } else {
                    ReservationOutcome::Cancel
                })
                &&& final(self).stock() == (if enough {
                    old(self).stock().insert(p, (old(self).stock()[p] - q) as u64)
                } else {
                    old(self).stock()
                })
            }),
            final(self).network() == old(self).network(),
    {
        let id = order.get_product();
        let qty = order.get_qty();
        match self.products.get(&id) {
            Some(current) => {
                if *current >= qty {
                    self.sell_product(id, qty);
                    ReservationOutcome::Reserve
                } else {
                    ReservationOutcome::Cancel
                }
            },
            None => ReservationOutcome::Cancel,
        }
    }

    pub fn clone(&self) -> (c: Self)
        ensures
            c.stock() == self.stock(),
            c.connected() == self.connected(),
            c.network() matches Some(x) ==> vstd::pervasive::cloned(self.network()->Some_0, x),
    {
        Store {
            products: self.products.clone(),
            listener: match &self.listener {
                Some(addr) => Some(addr.clone()),
                None => None,
            },
        }
    }
}

} // verus!
