use tp::error::ParseError;
use tp::log::Verbosity;
use tp::messages::MessageType;
use tp::purchase_state::PurchaseState;

#[test]
fn purchase_state_text_roundtrip() {
    for p in [PurchaseState::Confirm(0), PurchaseState::Commit(42), PurchaseState::Cancel(u128::MAX)] {
        assert_eq!(PurchaseState::from_str(&p.to_string()), Ok(p));
    }
    assert_eq!(PurchaseState::Commit(42).to_string(), "Commit 42");
    assert_eq!(PurchaseState::Cancel(7).to_string(), "Cancel 7");
}

#[test]
fn purchase_state_errors() {
    assert_eq!(PurchaseState::from_str("  Confirm\t 12 \n"), Ok(PurchaseState::Confirm(12)));
    assert_eq!(PurchaseState::from_str("Confirm"), Err(ParseError::UnknownMessage));
    assert_eq!(PurchaseState::from_str("confirm 1"), Err(ParseError::UnknownMessage));
    assert_eq!(PurchaseState::from_str("Commit 1 2"), Err(ParseError::UnknownMessage));
    assert_eq!(PurchaseState::from_str("Cancel x"), Err(ParseError::InvalidNumber));
    assert_eq!(PurchaseState::from_str(""), Err(ParseError::UnknownMessage));
}

#[test]
fn message_type_words() {
    assert_eq!(MessageType::from_str("update 3"), Ok(MessageType::Update(3)));
    assert_eq!(MessageType::from_str(" request "), Ok(MessageType::Request));
    assert_eq!(MessageType::from_str("ask 9"), Ok(MessageType::Ask(9)));
    assert_eq!(MessageType::from_str("confirm 9"), Ok(MessageType::Confirm(9)));
    assert_eq!(MessageType::from_str("commit 9"), Ok(MessageType::Commit(9)));
    assert_eq!(MessageType::from_str("cancel +9"), Ok(MessageType::Cancel(9)));
    assert_eq!(MessageType::from_str("local_request"), Ok(MessageType::LocalRequest));
    assert_eq!(MessageType::from_str("add_stock"), Ok(MessageType::AddStock));
    assert_eq!(MessageType::from_str("update 18446744073709551616"), Err(ParseError::InvalidNumber));
    assert_eq!(MessageType::from_str("request now"), Err(ParseError::UnknownMessage));
    assert_eq!(MessageType::from_str("ask"), Err(ParseError::UnknownMessage));
}

#[test]
fn verbosity_names() {
    for v in [Verbosity::Debug, Verbosity::Info, Verbosity::Warn, Verbosity::Error, Verbosity::Fatal] {
        assert_eq!(Verbosity::from_str(v.name()), Ok(v));
    }
    assert_eq!(Verbosity::from_str("Debug"), Err("Invalid variant: Debug".to_string()));
    assert_eq!(Verbosity::Warn.level(), 2);
    assert!(Verbosity::Error.shows_at(Verbosity::Warn));
    assert!(!Verbosity::Debug.shows_at(Verbosity::Info));
    assert!(Verbosity::Debug < Verbosity::Fatal);
}
