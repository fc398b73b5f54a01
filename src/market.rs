use vstd::prelude::*;
use crate::book::{
    book_total, book_wf, lemma_sell_shape, lemma_sell_totals, lemma_with_bid, sell_book,
    sell_ledger, sell_leftover, with_bid,
};
use crate::ledger::{
    allocated, credited, has_user, ledger_total, ledger_unique, lemma_credited, LedgerEntry,
};
use crate::models::Bid;

verus! {

/// The engine's state as mathematics: the bid book in matching order, the
/// supply pool, the allocation ledger and the next sequence number.
pub struct MarketView {
    pub book: Seq<Bid>,
    pub supply: u64,
    pub ledger: Seq<LedgerEntry>,
    pub next_seq: u64,
}

/// The state the engine starts in: everything empty or zero.
pub open spec fn fresh_market() -> MarketView {
    MarketView { book: Seq::empty(), supply: 0, ledger: Seq::empty(), next_seq: 0 }
}

/// Volume that came in through sells: the pool plus everything allocated.
pub open spec fn sold_side(m: MarketView) -> nat {
    m.supply as nat + ledger_total(m.ledger)
}

/// Volume that came in through buys: everything allocated plus every open bid.
pub open spec fn bought_side(m: MarketView) -> nat {
    ledger_total(m.ledger) + book_total(m.book)
}

/// The book is in matching order with no filled bid, every queued bid holds
/// an issued sequence number, users are unique in the ledger, and the two
/// totals fit in a `u64`. Each bid consumes one sequence number and at least a
/// unit of bought volume, so the numbers issued stay below the bought total.
pub open spec fn market_wf(m: MarketView) -> bool {
    &&& book_wf(m.book)
    &&& forall|i: int| 0 <= i < m.book.len() ==> #[trigger] m.book[i].seq < m.next_seq
    &&& ledger_unique(m.ledger)
    &&& sold_side(m) <= u64::MAX
    &&& bought_side(m) <= u64::MAX
    &&& m.next_seq <= bought_side(m)
}

/// What a buy of `volume` takes from the supply pool at once.
pub open spec fn buy_fill(m: MarketView, volume: u64) -> u64 {
    if volume <= m.supply {
        volume
    } else {
        m.supply
    }
}

/// A buy drains the pool as far as it can, credits the buyer with what it
/// took, and queues the rest as a new bid holding the next sequence number.
pub open spec fn after_buy(m: MarketView, username: String, volume: u64, price: u64) -> MarketView {
    let a = buy_fill(m, volume);
    let q = (volume - a) as u64;
    MarketView {
        book: if q > 0 {
            with_bid(m.book, Bid { username, volume: q, price, seq: m.next_seq })
        } else {
            m.book
        },
        supply: (m.supply - a) as u64,
        ledger: credited(m.ledger, username, a),
        next_seq: if q > 0 {
            (m.next_seq + 1) as u64
        } else {
            m.next_seq
        },
    }
}

/// A sell walks the book, crediting each bid's owner, and adds what no bid
/// took to the pool.
pub open spec fn after_sell(m: MarketView, volume: u64) -> MarketView {
    MarketView {
        book: sell_book(m.book, volume),
        supply: (m.supply + sell_leftover(m.book, volume)) as u64,
        ledger: sell_ledger(m.ledger, m.book, volume),
        next_seq: m.next_seq,
    }
}

/// A buy keeps the state well formed, adds its volume to the bought side,
/// leaves the sold side as it was, and takes no allocation from anybody.
pub proof fn lemma_after_buy(m: MarketView, username: String, volume: u64, price: u64)
    requires
        market_wf(m),
        bought_side(m) + volume <= u64::MAX,
    ensures
        market_wf(after_buy(m, username, volume, price)),
        bought_side(after_buy(m, username, volume, price)) == bought_side(m) + volume,
        sold_side(after_buy(m, username, volume, price)) == sold_side(m),
        forall|n: Seq<char>|
            has_user(m.ledger, n) ==> #[trigger] has_user(
                after_buy(m, username, volume, price).ledger,
                n,
            ),
        forall|n: Seq<char>|
            allocated(m.ledger, n) <= #[trigger] allocated(
                after_buy(m, username, volume, price).ledger,
                n,
            ),
        volume == 0 ==> after_buy(m, username, volume, price) == m,
{
    let a = buy_fill(m, volume);
    let q = (volume - a) as u64;
    let r = after_buy(m, username, volume, price);
    lemma_credited(m.ledger, username, a);
    if q > 0 {
        let bid = Bid { username, volume: q, price, seq: m.next_seq };
        lemma_with_bid(m.book, bid);
        assert forall|i: int| 0 <= i < r.book.len() implies #[trigger] r.book[i].seq
            < r.next_seq by {
            assert(with_bid(m.book, bid)[i].seq <= bid.seq);
        }
    }
    assert forall|n: Seq<char>| allocated(m.ledger, n) <= #[trigger] allocated(r.ledger, n) by {}
}

/// A sell keeps the state well formed, adds its volume to the sold side,
/// leaves the bought side as it was, and takes no allocation from anybody.
pub proof fn lemma_after_sell(m: MarketView, volume: u64)
    requires
        market_wf(m),
        sold_side(m) + volume <= u64::MAX,
    ensures
        market_wf(after_sell(m, volume)),
        sold_side(after_sell(m, volume)) == sold_side(m) + volume,
        bought_side(after_sell(m, volume)) == bought_side(m),
        forall|n: Seq<char>|
            has_user(m.ledger, n) ==> #[trigger] has_user(after_sell(m, volume).ledger, n),
        forall|n: Seq<char>|
            allocated(m.ledger, n) <= #[trigger] allocated(after_sell(m, volume).ledger, n),
        volume == 0 ==> after_sell(m, volume) == m,
{
    lemma_sell_totals(m.ledger, m.book, volume);
    lemma_sell_shape(m.book, volume);
    let r = after_sell(m, volume);
    let k = m.book.len() - r.book.len();
    assert forall|i: int| 0 <= i < r.book.len() implies #[trigger] r.book[i].seq < r.next_seq by {
        assert(m.book[k + i].seq < m.next_seq);
    }
}

} // verus!
