use vstd::prelude::*;

use crate::error::ParseError;
use crate::text;

verus! {

/// Where a purchase stands, as the e-commerce and the store tell each other.
#[derive(Debug, Clone, Copy, PartialEq, Eq, Structural)]
pub enum PurchaseState {
    /// The store reserved the stock for the purchase with this id.
    Confirm(u128),
    /// The purchase with this id is completed.
    Commit(u128),
    /// The purchase with this id is cancelled.
    Cancel(u128),
}

/// What a store answers to an order against its own stock.
#[derive(Debug, Clone, Copy, PartialEq, Eq, Structural)]
pub enum ReservationOutcome {
    /// The stock was there and is now taken.
    Reserve,
    /// There was not enough stock; nothing changed.
    Cancel,
}

/// The word that names each kind of purchase state.
pub open spec fn state_word(p: PurchaseState) -> Seq<char> {
    match p {
        PurchaseState::Confirm(_) => "Confirm"@,
        PurchaseState::Commit(_) => "Commit"@,
        PurchaseState::Cancel(_) => "Cancel"@,
    }
}

/// The id that a purchase state carries.
pub open spec fn state_id(p: PurchaseState) -> u128 {
    match p {
        PurchaseState::Confirm(id) => id,
        PurchaseState::Commit(id) => id,
        PurchaseState::Cancel(id) => id,
    }
}

/// The text of a purchase state: its word, a space and the id in decimal.
pub open spec fn state_text(p: PurchaseState) -> Seq<char> {
    state_word(p) + seq![' '] + text::decimal(state_id(p) as nat)
}

/// What `PurchaseState::from_str` gives for `s`: exactly two words, the first one
/// `Confirm`, `Commit` or `Cancel` and the second an unsigned 128-bit number.
pub open spec fn parse_purchase_state(s: Seq<char>) -> Result<PurchaseState, ParseError> {
    let w = text::words(s);
    if w.len() == 2 && (w[0] == "Confirm"@ || w[0] == "Commit"@ || w[0] == "Cancel"@) {
        match text::parse_unsigned(w[1], u128::MAX as nat) {
            None => Err(ParseError::InvalidNumber),
            Some(n) => Ok(
                if w[0] == "Confirm"@ {
                    PurchaseState::Confirm(n as u128)
                } else if w[0] == "Commit"@ {
                    PurchaseState::Commit(n as u128)
                } else {
                    PurchaseState::Cancel(n as u128)
                },
            ),
        }
    } else {
        Err(ParseError::UnknownMessage)
    }
}

impl PurchaseState {
    /// The state as text, such as `Confirm 17`.
    pub fn to_string(&self) -> (s: String)
        ensures
            s@ == state_text(*self),
    {
        let mut v: Vec<char> = Vec::new();
        let id = match self {
            PurchaseState::Confirm(id) => {
                text::push_str(&mut v, "Confirm");
                *id
            },
            PurchaseState::Commit(id) => {
                text::push_str(&mut v, "Commit");
                *id
            },
            PurchaseState::Cancel(id) => {
                text::push_str(&mut v, "Cancel");
                *id
            },
        };
        v.push(' ');
        text::push_decimal(&mut v, id);
        proof {
            assert(v@ =~= state_text(*self));
        }
        text::string_of(&v)
    }

    /// Reads a purchase state written as its word and its id, such as `Commit 3`.
    pub fn from_str(s: &str) -> (r: Result<PurchaseState, ParseError>)
        ensures
            r == parse_purchase_state(s@),
    {
        let chars = text::chars_of(s);
        let w = text::split_words(&chars);
        if w.len() != 2 {
            return Err(ParseError::UnknownMessage);
        }
        let is_confirm = text::chars_eq_str(&w[0], "Confirm");
        let is_commit = text::chars_eq_str(&w[0], "Commit");
        let is_cancel = text::chars_eq_str(&w[0], "Cancel");
        if !(is_confirm || is_commit || is_cancel) {
            return Err(ParseError::UnknownMessage);
        }
        match text::parse_u128(&w[1]) {
            None => Err(ParseError::InvalidNumber),
            Some(n) => {
                if is_confirm {
                    Ok(PurchaseState::Confirm(n))
                } else if is_commit {
                    Ok(PurchaseState::Commit(n))
                } else {
                    Ok(PurchaseState::Cancel(n))
                }
            },
        }
    }
}

/// Reading back the text of a purchase state gives the same state.
pub proof fn lemma_purchase_state_roundtrip(p: PurchaseState)
    ensures
        parse_purchase_state(state_text(p)) == Ok::<PurchaseState, ParseError>(p),
{
    reveal_strlit("Confirm");
    reveal_strlit("Commit");
    reveal_strlit("Cancel");
    let w = state_word(p);
    let d = text::decimal(state_id(p) as nat);
    text::lemma_decimal_digits(state_id(p) as nat);
    text::lemma_digits_no_ws(d);
    assert(text::no_ws(w));
    text::lemma_words_two(w, d);
    text::lemma_parse_decimal(state_id(p) as nat, u128::MAX as nat);
    assert("Confirm"@.len() == 7 && "Commit"@.len() == 6 && "Cancel"@.len() == 6);
    assert("Commit"@[1] != "Cancel"@[1]);
    assert("Confirm"@ != "Commit"@);
    assert("Confirm"@ != "Cancel"@);
    assert("Commit"@ != "Cancel"@);
}

} // verus!
