use vstd::prelude::*;
use crate::book::sell_leftover;
use crate::errors::VmbidError;
use crate::ledger::allocation_of;
use crate::market::{after_buy, after_sell, bought_side, buy_fill, sold_side};
use crate::state::AppState;
use crate::username::{blank, is_blank};

verus! {

/// A buy of `volume` at `price` for `username`: it takes what it can from the
/// supply pool at once and queues the rest as a bid. Returns the volume
/// allocated and the volume queued. A blank username is refused and changes
/// nothing; a buy of zero changes nothing.
pub fn handle_buy(state: &mut AppState, username: String, price: u64, volume: u64) -> (r: Result<
    (u64, u64),
    VmbidError,
>)
    requires
        old(state).wf(),
        bought_side(old(state)@) + volume <= u64::MAX,
    ensures
        final(state).wf(),
        blank(username@) ==> r == Err::<(u64, u64), VmbidError>(VmbidError::MissingUsername)
            && final(state)@ == old(state)@,
        !blank(username@) ==> r == Ok::<(u64, u64), VmbidError>(
            (
                buy_fill(old(state)@, volume),
                (volume - buy_fill(old(state)@, volume)) as u64,
            ),
        ) && final(state)@ == after_buy(old(state)@, username, volume, price),
        volume == 0 ==> final(state)@ == old(state)@,
{
    if is_blank(username.as_str()) {
        return Err(VmbidError::MissingUsername);
    }
    Ok(state.buy(username, volume, price))
}

/// A sell of `volume`: it fills the bids, highest price first and oldest first
/// within a price, and adds what is left to the supply pool. Returns the
/// volume allocated to bidders. A sell of zero changes nothing.
pub fn handle_sell(state: &mut AppState, volume: u64) -> (r: u64)
    requires
        old(state).wf(),
        sold_side(old(state)@) + volume <= u64::MAX,
    ensures
        final(state).wf(),
        final(state)@ == after_sell(old(state)@, volume),
        r == volume - sell_leftover(old(state)@.book, volume),
        volume == 0 ==> final(state)@ == old(state)@,
{
    state.sell(volume)
}

/// The cumulative allocation of `username`. An absent or blank username is
/// refused; a user who was never credited is not found.
pub fn handle_allocation(state: &AppState, username: Option<&str>) -> (r: Result<u64, VmbidError>)
    requires
        state.wf(),
    ensures
        match username {
            None => r == Err::<u64, VmbidError>(VmbidError::MissingUsername),
            Some(name) => if blank(name@) {
                r == Err::<u64, VmbidError>(VmbidError::MissingUsername)
            } else {
                match allocation_of(state@.ledger, name@) {
                    Some(a) => r == Ok::<u64, VmbidError>(a),
                    None => match r {
                        Err(VmbidError::NotFound(n)) => n@ == name@,
                        _ => false,
                    },
                }
            },
        },
{
    let name = match username {
        None => {
            return Err(VmbidError::MissingUsername);
        },
        Some(name) => name,
    };
    if is_blank(name) {
        return Err(VmbidError::MissingUsername);
    }
    let owned = name.to_owned();
    match state.inner().allocation(&owned) {
        Some(a) => Ok(a),
        None => Err(VmbidError::NotFound(owned)),
    }
}

} // verus!
