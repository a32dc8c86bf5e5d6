use tp::order::Order;
use tp::purchase_state::ReservationOutcome;
use tp::store::{Store, StoreInformation};

#[test]
fn store_add_and_sell() {
    let mut store: Store<u32> = Store::new();
    assert!(store.listener().is_none());
    assert_eq!(store.get_product_quantity(4), 0);
    assert_eq!(store.add_product_stock(4, 10), 10);
    assert_eq!(store.add_product_stock(4, 5), 15);
    store.sell_product(4, 5);
    assert_eq!(store.get_product_quantity(4), 10);
    store.sell_product(4, 11);
    assert_eq!(store.get_product_quantity(4), 10);
    assert_eq!(store.get_products().get(&4), Some(&10));
}

#[test]
fn store_manage_order() {
    let mut store: Store<u32> = Store::new();
    store.add_product_stock(1, 2);
    assert_eq!(store.manage_order(Order::new(1, 3)), ReservationOutcome::Cancel);
    assert_eq!(store.manage_order(Order::new(2, 1)), ReservationOutcome::Cancel);
    assert_eq!(store.manage_order(Order::new(1, 2)), ReservationOutcome::Reserve);
    assert_eq!(store.get_product_quantity(1), 0);
}

#[test]
fn store_network_and_clone() {
    let mut store: Store<u32> = Store::new();
    store.add_product_stock(8, 1);
    store.add_to_network(77);
    assert_eq!(store.listener(), Some(77));
    let copy = store.clone();
    assert_eq!(copy.listener(), Some(77));
    assert_eq!(copy.get_product_quantity(8), 1);
}

#[test]
fn store_information_defaults() {
    let mut info = StoreInformation::random();
    assert!(info.stock.is_empty());
    assert!(!info.is_online);
    info.is_online(true);
    assert!(info.is_online);
}
