use vstd::prelude::*;

use crate::purchase_state::{self, PurchaseState};

verus! {

/// A port of `ports`, drawn at random as `SliceRandom::choose` does; `None` for no ports.
#[verifier::external_body]
fn choose_port(ports: &[u16]) -> (r: Option<u16>)
    ensures
        r is None <==> ports@.len() == 0,
        r matches Some(p) ==> ports@.contains(p),
{
    rand::seq::SliceRandom::choose(ports, &mut rand::thread_rng()).copied()
}

/// A number below 10, drawn at random as `Rng::gen_range(0..10)` does.
#[verifier::external_body]
fn roll_below_ten() -> (r: u8)
    ensures
        r < 10,
{
    rand::Rng::gen_range(&mut rand::thread_rng(), 0u8..10u8)
}

/// The store to send the orders to: any of the ports, or `None` when there is none.
pub fn get_closest_store(ports: &Vec<u16>) -> (r: Option<u16>)
    ensures
        r is None <==> ports@.len() == 0,
        r matches Some(p) ==> ports@.contains(p),
{
    choose_port(ports.as_slice())
}

/// Removes the first occurrence of `port` from `ports`.
pub fn remove_port(ports: &mut Vec<u16>, port: u16)
    requires
        old(ports)@.contains(port),
    ensures
        exists|i: int|
            0 <= i < old(ports)@.len() && old(ports)@[i] == port && (forall|j: int|
                0 <= j < i ==> old(ports)@[j] != port) && final(ports)@ == old(ports)@.remove(i),
{
    let mut i: usize = 0;
    while ports[i] != port
        invariant
            i < ports@.len(),
            ports@ == old(ports)@,
            forall|j: int| 0 <= j < i ==> ports@[j] != port,
            exists|k: int| i <= k < ports@.len() && ports@[k] == port,
        decreases ports@.len() - i,
    {
        proof {
            let k = choose|k: int| i <= k < ports@.len() && ports@[k] == port;
            assert(k != i);
            assert(i + 1 < ports@.len());
            assert(ports@.len() == ports.len());
        }
        i = i + 1;
    }
    ports.remove(i);
}

/// The e-commerce's decision on a reserved purchase: a roll of 0 (one in ten) cancels it,
/// as if the products took too long to arrive; any other roll commits it.
pub fn commit_or_cancel(id: u128, roll: u8) -> (p: PurchaseState)
    ensures
        p == (if roll == 0 {
            PurchaseState::Cancel(id)
        } else {
            PurchaseState::Commit(id)
        }),
{
    if roll == 0 {
        PurchaseState::Cancel(id)
    } else {
        PurchaseState::Commit(id)
    }
}

/// The e-commerce's answer to a reserved purchase, as text: `Commit <id>` or, at random one
/// time in ten, `Cancel <id>`.
pub fn determine_commit_or_cancel(id: u128) -> (s: String)
    ensures
        s@ == purchase_state::state_text(PurchaseState::Commit(id)) || s@ == purchase_state::state_text(
            PurchaseState::Cancel(id),
        ),
{
    let roll = roll_below_ten();
    commit_or_cancel(id, roll).to_string()
}

/// Where a purchase stands after the store's first answer.
#[derive(Debug, Clone, Copy, PartialEq, Eq, Structural)]
pub enum PurchaseStep {
    /// The store reserved the stock of this purchase: the e-commerce now commits or cancels it.
    Decide(u128),
    /// The purchase ended so.
    Done(PurchaseState),
}

/// The store's first answer to an order: a confirmation asks the e-commerce to decide; a
/// cancellation or a commit ends the purchase so.
pub fn first_answer(answer: PurchaseState) -> (s: PurchaseStep)
    ensures
        s == match answer {
            PurchaseState::Confirm(id) => PurchaseStep::Decide(id),
            other => PurchaseStep::Done(other),
        },
{
    match answer {
        PurchaseState::Confirm(id) => PurchaseStep::Decide(id),
        PurchaseState::Cancel(id) => PurchaseStep::Done(PurchaseState::Cancel(id)),
        PurchaseState::Commit(id) => PurchaseStep::Done(PurchaseState::Commit(id)),
    }
}

/// The store's answer to the e-commerce's decision on purchase `id`: a commit completes it
/// as the store says; anything else means the purchase `id` was not confirmed.
pub fn final_answer(id: u128, answer: PurchaseState) -> (p: PurchaseState)
    ensures
        p == match answer {
            PurchaseState::Commit(x) => PurchaseState::Commit(x),
            _ => PurchaseState::Cancel(id),
        },
{
    match answer {
        PurchaseState::Commit(x) => PurchaseState::Commit(x),
        _ => PurchaseState::Cancel(id),
    }
}

} // verus!
