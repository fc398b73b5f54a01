use vstd::prelude::*;

verus! {

/// A standing bid: `volume` is what is still unfilled, `price` and `seq` are
/// fixed when the bid is created.
#[derive(Debug, PartialEq)]
pub struct Bid {
    pub username: String,
    pub volume: u64,
    pub price: u64,
    pub seq: u64,
}

/// A buy order as a caller hands it in.
pub struct BuyRequest {
    pub username: String,
    pub volume: u64,
    pub price: u64,
}

/// A sell order as a caller hands it in.
pub struct SellRequest {
    pub volume: u64,
}

/// A query for a user's cumulative allocation.
pub struct AllocationQuery {
    pub username: Option<String>,
}

} // verus!
