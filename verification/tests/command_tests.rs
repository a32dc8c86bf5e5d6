use tp::command::Command;
use tp::order::Order;

#[test]
fn cmd_from_correct_upper() {
    let shutdown = Command::from_str("S").expect("Command was not properly parsed");
    let netup = Command::from_str("U").expect("Command was not properly parsed");
    let netdown = Command::from_str("D").expect("Command was not properly parsed");
    let order = Command::from_str("O 1,1").expect("Command was not properly parsed");
    let from_file = Command::from_str("F Something").expect("Command was not properly parsed");

    assert_eq!(Command::Shutdown, shutdown);
    assert_eq!(Command::NetUp, netup);
    assert_eq!(Command::NetDown, netdown);
    assert_eq!(Command::Sell(Order::new(1u64, 1u64)), order);
    assert_eq!(Command::SellFromFile("Something".to_owned()), from_file);
}

#[test]
fn cmd_from_correct_lower() {
    let shutdown = Command::from_str("s").expect("Command was not properly parsed");
    let netup = Command::from_str("u").expect("Command was not properly parsed");
    let netdown = Command::from_str("d").expect("Command was not properly parsed");
    let order = Command::from_str("o 1,1").expect("Command was not properly parsed");
    let from_file = Command::from_str("f Something").expect("Command was not properly parsed");

    assert_eq!(Command::Shutdown, shutdown);
    assert_eq!(Command::NetUp, netup);
    assert_eq!(Command::NetDown, netdown);
    assert_eq!(Command::Sell(Order::new(1u64, 1u64)), order);
    assert_eq!(Command::SellFromFile("Something".to_owned()), from_file);
}

#[test]
fn cmd_from_correct_spaces() {
    let shutdown = Command::from_str("   s").expect("Command was not properly parsed");
    let netup = Command::from_str("  u").expect("Command was not properly parsed");
    let netdown = Command::from_str("   d").expect("Command was not properly parsed");
    let order = Command::from_str("   o    1   ,   1").expect("Command was not properly parsed");
    let from_file = Command::from_str("   f     Something").expect("Command was not properly parsed");

    assert_eq!(Command::Shutdown, shutdown);
    assert_eq!(Command::NetUp, netup);
    assert_eq!(Command::NetDown, netdown);
    assert_eq!(Command::Sell(Order::new(1u64, 1u64)), order);
    assert_eq!(Command::SellFromFile("Something".to_owned()), from_file);
}
