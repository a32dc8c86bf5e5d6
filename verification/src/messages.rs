use std::collections::HashMap;
use vstd::prelude::*;

use crate::error::ParseError;
use crate::order::Order;
use crate::stock::Stock;
use crate::store::{Transaction, TransactionView};
use crate::text;

verus! {

/// Identifies a purchase request.
pub type RequestID = u128;

/// Identifies a store.
pub type StoreID = u64;

/// What a message to a store asks of it.
#[derive(Debug, Clone, Copy, PartialEq, Eq, Structural)]
pub enum MessageType {
    /// Another store's state: replace what is known of it.
    Update(StoreID),
    /// An order from an e-commerce: reserve its stock here and in the other stores.
    Request,
    /// Another store asks to reserve stock here for its request.
    Ask(RequestID),
    /// All stores confirmed the request.
    Confirm(RequestID),
    /// The e-commerce completed the purchase of the request.
    Commit(RequestID),
    /// The purchase of the request is cancelled: give its stock back.
    Cancel(RequestID),
    /// An order given at this store: sell it from the local stock only.
    LocalRequest,
    /// Stock arrived at this store.
    AddStock,
}

/// What `MessageType::from_str` gives for `s`: `update <store>`, `request`,
/// `ask <id>`, `confirm <id>`, `commit <id>`, `cancel <id>`, `local_request` or
/// `add_stock`, as words separated by white space.
pub open spec fn parse_message_type(s: Seq<char>) -> Result<MessageType, ParseError> {
    let w = text::words(s);
    if w.len() == 1 && w[0] == "request"@ {
        Ok(MessageType::Request)
    } else if w.len() == 1 && w[0] == "local_request"@ {
        Ok(MessageType::LocalRequest)
    } else if w.len() == 1 && w[0] == "add_stock"@ {
        Ok(MessageType::AddStock)
    } else if w.len() == 2 && w[0] == "update"@ {
        match text::parse_unsigned(w[1], u64::MAX as nat) {
            Some(n) => Ok(MessageType::Update(n as u64)),
            None => Err(ParseError::InvalidNumber),
        }
    } else if w.len() == 2 && (w[0] == "ask"@ || w[0] == "confirm"@ || w[0] == "commit"@ || w[0]
        == "cancel"@) {
        match text::parse_unsigned(w[1], u128::MAX as nat) {
            Some(n) => Ok(
                if w[0] == "ask"@ {
                    MessageType::Ask(n as u128)
                } else if w[0] == "confirm"@ {
                    MessageType::Confirm(n as u128)
                } else if w[0] == "commit"@ {
                    MessageType::Commit(n as u128)
                } else {
                    MessageType::Cancel(n as u128)
                },
            ),
            None => Err(ParseError::InvalidNumber),
        }
    } else {
        Err(ParseError::UnknownMessage)
    }
}

/// The words that carry a request id are told apart from each other and from `update`.
proof fn lemma_id_words_distinct()
    ensures
        "ask"@ != "confirm"@,
        "ask"@ != "commit"@,
        "ask"@ != "cancel"@,
        "ask"@ != "update"@,
        "confirm"@ != "commit"@,
        "confirm"@ != "cancel"@,
        "confirm"@ != "update"@,
        "commit"@ != "cancel"@,
        "commit"@ != "update"@,
        "cancel"@ != "update"@,
        no_ws_word("ask"@),
        no_ws_word("confirm"@),
        no_ws_word("commit"@),
        no_ws_word("cancel"@),
        no_ws_word("update"@),
{
    reveal_strlit("ask");
    reveal_strlit("confirm");
    reveal_strlit("commit");
    reveal_strlit("cancel");
    reveal_strlit("update");
    assert("ask"@.len() != "confirm"@.len());
    assert("ask"@.len() != "commit"@.len());
    assert("ask"@.len() != "cancel"@.len());
    assert("ask"@.len() != "update"@.len());
    assert("confirm"@.len() != "commit"@.len());
    assert("confirm"@.len() != "cancel"@.len());
    assert("confirm"@.len() != "update"@.len());
    assert("commit"@[1] != "cancel"@[1]);
    assert("commit"@[0] != "update"@[0]);
    assert("cancel"@[0] != "update"@[0]);
    assert(text::no_ws("ask"@));
    assert(text::no_ws("confirm"@));
    assert(text::no_ws("commit"@));
    assert(text::no_ws("cancel"@));
    assert(text::no_ws("update"@));
}

/// A word of at least one character and no white space.
pub open spec fn no_ws_word(w: Seq<char>) -> bool {
    w.len() > 0 && text::no_ws(w)
}

/// Every request id reads back: `ask`, `confirm`, `commit` or `cancel`, a space, and the
/// decimal text of any `u128` give that message type with that very id.
pub proof fn lemma_request_id_roundtrip(id: u128)
    ensures
        parse_message_type("ask"@ + seq![' '] + text::decimal(id as nat)) == Ok::<
            MessageType,
            ParseError,
        >(MessageType::Ask(id)),
        parse_message_type("confirm"@ + seq![' '] + text::decimal(id as nat)) == Ok::<
            MessageType,
            ParseError,
        >(MessageType::Confirm(id)),
        parse_message_type("commit"@ + seq![' '] + text::decimal(id as nat)) == Ok::<
            MessageType,
            ParseError,
        >(MessageType::Commit(id)),
        parse_message_type("cancel"@ + seq![' '] + text::decimal(id as nat)) == Ok::<
            MessageType,
            ParseError,
        >(MessageType::Cancel(id)),
{
    lemma_id_words_distinct();
    let d = text::decimal(id as nat);
    text::lemma_decimal_digits(id as nat);
    text::lemma_digits_no_ws(d);
    text::lemma_parse_decimal(id as nat, u128::MAX as nat);
    text::lemma_words_two("ask"@, d);
    text::lemma_words_two("confirm"@, d);
    text::lemma_words_two("commit"@, d);
    text::lemma_words_two("cancel"@, d);
}

/// Every store id reads back: `update`, a space, and the decimal text of any `u64` give an
/// update of that very store.
pub proof fn lemma_update_id_roundtrip(id: u64)
    ensures
        parse_message_type("update"@ + seq![' '] + text::decimal(id as nat)) == Ok::<
            MessageType,
            ParseError,
        >(MessageType::Update(id)),
{
    lemma_id_words_distinct();
    let d = text::decimal(id as nat);
    text::lemma_decimal_digits(id as nat);
    text::lemma_digits_no_ws(d);
    text::lemma_parse_decimal(id as nat, u64::MAX as nat);
    text::lemma_words_two("update"@, d);
}

impl MessageType {
    /// Reads a message type from its words.
    pub fn from_str(s: &str) -> (r: Result<MessageType, ParseError>)
        ensures
            r == parse_message_type(s@),
    {
        let chars = text::chars_of(s);
        let w = text::split_words(&chars);
        if w.len() == 1 {
            if text::chars_eq_str(&w[0], "request") {
                return Ok(MessageType::Request);
            } else if text::chars_eq_str(&w[0], "local_request") {
                return Ok(MessageType::LocalRequest);
            } else if text::chars_eq_str(&w[0], "add_stock") {
                return Ok(MessageType::AddStock);
            }
            return Err(ParseError::UnknownMessage);
        }
        if w.len() != 2 {
            return Err(ParseError::UnknownMessage);
        }
        if text::chars_eq_str(&w[0], "update") {
            return match text::parse_u64(&w[1]) {
                Some(n) => Ok(MessageType::Update(n)),
                None => Err(ParseError::InvalidNumber),
            };
        }
        let is_ask = text::chars_eq_str(&w[0], "ask");
        let is_confirm = text::chars_eq_str(&w[0], "confirm");
        let is_commit = text::chars_eq_str(&w[0], "commit");
        let is_cancel = text::chars_eq_str(&w[0], "cancel");
        if !(is_ask || is_confirm || is_commit || is_cancel) {
            return Err(ParseError::UnknownMessage);
        }
        match text::parse_u128(&w[1]) {
            Some(n) => {
                if is_ask {
                    Ok(MessageType::Ask(n))
                } else if is_confirm {
                    Ok(MessageType::Confirm(n))
                } else if is_commit {
                    Ok(MessageType::Commit(n))
                } else {
                    Ok(MessageType::Cancel(n))
                }
            },
            None => Err(ParseError::InvalidNumber),
        }
    }
}

/// A store's answer to a request: accepted with its id, or refused.
#[derive(Debug, Clone, Copy, PartialEq, Eq, Structural)]
pub enum RequestResponse {
    RequestOK(RequestID),
    RequestNOK,
}

/// A message to a store: what it asks, and the data that goes with it.
#[derive(Debug)]
pub struct StoreMessage {
    pub message_type: MessageType,
    pub new_stock: Option<Stock>,
    pub transactions: Option<HashMap<RequestID, Transaction>>,
    pub orders: Option<Vec<Order>>,
}

/// A store message as values: maps for the stock and the transactions, a sequence for the orders.
pub struct StoreMessageView {
    pub message_type: MessageType,
    pub new_stock: Option<Map<u64, u64>>,
    pub transactions: Option<Map<RequestID, TransactionView>>,
    pub orders: Option<Seq<Order>>,
}

/// The transactions of a map, each by its view.
pub open spec fn transactions_view(m: HashMap<RequestID, Transaction>) -> Map<RequestID, TransactionView> {
    m@.map_values(|t: Transaction| t@)
}

/// A stock, if there is one, by its view.
pub open spec fn opt_stock_view(s: Option<Stock>) -> Option<Map<u64, u64>> {
    match s {
        Some(s) => Some(s@),
        None => None,
    }
}

/// Transactions, if there are some, by their view.
pub open spec fn opt_transactions_view(t: Option<HashMap<RequestID, Transaction>>) -> Option<
    Map<RequestID, TransactionView>,
> {
    match t {
        Some(t) => Some(transactions_view(t)),
        None => None,
    }
}

impl View for StoreMessage {
    type V = StoreMessageView;

    open spec fn view(&self) -> StoreMessageView {
        StoreMessageView {
            message_type: self.message_type,
            new_stock: opt_stock_view(self.new_stock),
            transactions: opt_transactions_view(self.transactions),
            orders: match self.orders {
                Some(o) => Some(o@),
                None => None,
            },
        }
    }
}

/// Questions about the state of a store.
#[derive(Debug, Clone, Copy, PartialEq, Eq, Structural)]
pub enum StoreState {
    /// The store's own id and information.
    CurrentState,
    /// The connection with this store went down.
    Shutdown(StoreID),
}

} // verus!
