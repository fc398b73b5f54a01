use vstd::prelude::*;
use crate::book::{book_wf, filled_count, lemma_sell_shape, received, sell_book};
use crate::ledger::{allocated, has_user};
use crate::market::{
    after_buy, after_sell, bought_side, fresh_market, lemma_after_buy, lemma_after_sell,
    market_wf, sold_side, MarketView,
};
use crate::models::Bid;
use crate::username::blank;

verus! {

/// One operation handed to the engine.
pub enum Order {
    Buy { username: String, volume: u64, price: u64 },
    Sell { volume: u64 },
}

/// The state after one operation; a buy with a blank username is refused and
/// changes nothing.
pub open spec fn step(m: MarketView, o: Order) -> MarketView {
    match o {
        Order::Buy { username, volume, price } => if blank(username@) {
            m
        } else {
            after_buy(m, username, volume, price)
        },
        Order::Sell { volume } => after_sell(m, volume),
    }
}

/// The state after a run of operations on a fresh engine.
pub open spec fn run(os: Seq<Order>) -> MarketView
    decreases os.len(),
{
    if os.len() == 0 {
        fresh_market()
    } else {
        step(run(os.drop_last()), os.last())
    }
}

/// The volume of every accepted buy of the run.
pub open spec fn bought_total(os: Seq<Order>) -> nat
    decreases os.len(),
{
    if os.len() == 0 {
        0
    } else {
        bought_total(os.drop_last()) + match os.last() {
            Order::Buy { username, volume, price } => if blank(username@) {
                0
            } else {
                volume as nat
            },
            Order::Sell { volume } => 0,
        }
    }
}

/// The volume of every sell of the run.
pub open spec fn sold_total(os: Seq<Order>) -> nat
    decreases os.len(),
{
    if os.len() == 0 {
        0
    } else {
        sold_total(os.drop_last()) + match os.last() {
            Order::Buy { .. } => 0,
            Order::Sell { volume } => volume as nat,
        }
    }
}

pub proof fn lemma_totals_of_prefix(os: Seq<Order>, k: int)
    requires
        0 <= k <= os.len(),
    ensures
        bought_total(os.subrange(0, k)) <= bought_total(os),
        sold_total(os.subrange(0, k)) <= sold_total(os),
    decreases os.len(),
{
    if k < os.len() {
        assert(os.drop_last().subrange(0, k) =~= os.subrange(0, k));
        lemma_totals_of_prefix(os.drop_last(), k);
    } else {
        assert(os.subrange(0, k) =~= os);
    }
}

/// The run keeps the state well formed and its two sides equal to what came in.
pub proof fn lemma_run(os: Seq<Order>)
    requires
        bought_total(os) <= u64::MAX,
        sold_total(os) <= u64::MAX,
    ensures
        market_wf(run(os)),
        bought_side(run(os)) == bought_total(os),
        sold_side(run(os)) == sold_total(os),
    decreases os.len(),
{
    if os.len() > 0 {
        let init = os.drop_last();
        lemma_run(init);
        let m = run(init);
        match os.last() {
            Order::Buy { username, volume, price } => {
                if !blank(username@) {
                    lemma_after_buy(m, username, volume, price);
                }
            },
            Order::Sell { volume } => {
                lemma_after_sell(m, volume);
            },
        }
    } else {
        assert(fresh_market().ledger =~= Seq::empty());
    }
}

/// Conservation on the buy side: after any run of operations, everything
/// allocated plus every open bid's volume equals the volume of all accepted
/// buys.
pub proof fn law_bought_volume_conserved(os: Seq<Order>)
    requires
        bought_total(os) <= u64::MAX,
        sold_total(os) <= u64::MAX,
    ensures
        bought_side(run(os)) == bought_total(os),
{
    lemma_run(os);
}

/// Conservation on the sell side: after any run of operations, the supply
/// pool plus everything allocated equals the volume of all sells.
pub proof fn law_sold_volume_conserved(os: Seq<Order>)
    requires
        bought_total(os) <= u64::MAX,
        sold_total(os) <= u64::MAX,
    ensures
        sold_side(run(os)) == sold_total(os),
{
    lemma_run(os);
}

/// Allocations never decrease: along a run, a later observation of any user's
/// allocation is at least an earlier one, and a user once present stays.
pub proof fn law_allocations_never_decrease(os: Seq<Order>, i: int, j: int)
    requires
        0 <= i <= j <= os.len(),
        bought_total(os) <= u64::MAX,
        sold_total(os) <= u64::MAX,
    ensures
        forall|n: Seq<char>|
            allocated(run(os.subrange(0, i)).ledger, n) <= #[trigger] allocated(
                run(os.subrange(0, j)).ledger,
                n,
            ),
        forall|n: Seq<char>|
            has_user(run(os.subrange(0, i)).ledger, n) ==> #[trigger] has_user(
                run(os.subrange(0, j)).ledger,
                n,
            ),
    decreases j - i,
{
    if i < j {
        law_allocations_never_decrease(os, i, j - 1);
        let p = os.subrange(0, j);
        assert(p.drop_last() =~= os.subrange(0, j - 1));
        lemma_totals_of_prefix(os, j - 1);
        lemma_totals_of_prefix(os, j);
        lemma_run(os.subrange(0, j - 1));
        lemma_run(p);
        let m = run(os.subrange(0, j - 1));
        match p.last() {
            Order::Buy { username, volume, price } => {
                if !blank(username@) {
                    lemma_after_buy(m, username, volume, price);
                }
            },
            Order::Sell { volume } => {
                lemma_after_sell(m, volume);
            },
        }
    }
}

/// No negative state: after any run of operations every open bid still has
/// volume left to fill (the supply pool is unsigned).
pub proof fn law_open_bids_keep_volume(os: Seq<Order>)
    requires
        bought_total(os) <= u64::MAX,
        sold_total(os) <= u64::MAX,
    ensures
        forall|i: int| 0 <= i < run(os).book.len() ==> #[trigger] run(os).book[i].volume > 0,
{
    lemma_run(os);
}

/// A buy of zero volume and a sell of zero volume leave the book, the pool,
/// the ledger and the sequencer as they were.
pub proof fn law_zero_volume_is_no_op(m: MarketView, username: String, price: u64)
    ensures
        step(m, Order::Buy { username, volume: 0, price }) == m,
        step(m, Order::Sell { volume: 0 }) == m,
{
}

/// First in, first out at a price: if a sell gives volume to a bid, every
/// older bid at the same price is filled completely.
pub proof fn law_fifo_within_price(b: Seq<Bid>, v: u64, i: int, j: int)
    requires
        book_wf(b),
        0 <= i < b.len(),
        0 <= j < b.len(),
        b[i].price == b[j].price,
        b[i].seq < b[j].seq,
        received(b, v, j) > 0,
    ensures
        received(b, v, i) == b[i].volume,
{
    lemma_sell_shape(b, v);
    if j < i {
        assert(b[j].price > b[i].price || (b[j].price == b[i].price && b[j].seq < b[i].seq));
    }
}

/// Price priority: a sell gives no volume to a bid while a bid at a higher
/// price is left unfilled.
pub proof fn law_price_priority(b: Seq<Bid>, v: u64, i: int, j: int)
    requires
        book_wf(b),
        0 <= i < b.len(),
        0 <= j < b.len(),
        b[i].price > b[j].price,
        received(b, v, j) > 0,
    ensures
        received(b, v, i) == b[i].volume,
{
    lemma_sell_shape(b, v);
    if j < i {
        assert(b[j].price > b[i].price || (b[j].price == b[i].price && b[j].seq < b[i].seq));
    }
}

} // verus!
