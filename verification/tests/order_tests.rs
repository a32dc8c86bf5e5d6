use tp::error::ParseError;
use tp::order::{parse_orders, Order};

#[test]
fn order_from_correct_str() {
    let order = Order::from_str("3,2").expect("Order was not properly parsed");

    assert_eq!(order.get_product(), 3);
    assert_eq!(order.get_qty(), 2);
}

#[test]
fn order_from_correct_str_with_spaces() {
    let order = Order::from_str("   2  ,  1  ").expect("Order was not properly parsed");

    assert_eq!(order.get_product(), 2);
    assert_eq!(order.get_qty(), 1);
}

#[test]
fn order_negative_error() {
    let order1 = Order::from_str("-2,1");
    let order2 = Order::from_str("-2,-1");
    let order3 = Order::from_str("2,-1");

    assert!(order1.is_err());
    assert!(order2.is_err());
    assert!(order3.is_err());
}

#[test]
fn order_not_number() {
    let order1 = Order::from_str("as,cuatro");

    assert!(order1.is_err());
}

#[test]
fn order_text_roundtrip() {
    let order = Order::new(18446744073709551615, 0);
    assert_eq!(order.to_string(), "18446744073709551615,0");
    assert_eq!(Order::from_str(&order.to_string()), Ok(order));
}

#[test]
fn order_errors_by_kind() {
    assert_eq!(Order::from_str("7"), Err(ParseError::MissingField));
    assert_eq!(Order::from_str("  7 ,  "), Err(ParseError::InvalidNumber));
    assert_eq!(Order::from_str("18446744073709551616,1"), Err(ParseError::InvalidNumber));
    assert_eq!(Order::from_str("+4,+5,junk"), Ok(Order::new(4, 5)));
    assert_eq!(Order::from_str("\t4\u{a0},5\n"), Ok(Order::new(4, 5)));
}

#[test]
fn orders_from_lines() {
    let lines = vec!["1,2".to_string(), " 3 , 4".to_string()];
    assert_eq!(parse_orders(&lines), Ok(vec![Order::new(1, 2), Order::new(3, 4)]));
    let bad = vec!["1,2".to_string(), "x".to_string(), "5".to_string()];
    assert_eq!(parse_orders(&bad), Err(ParseError::InvalidNumber));
}
