use vstd::prelude::*;
use crate::book::{lemma_sell_totals, sell_leftover, BidBook};
use crate::ledger::{allocation_of, Ledger};
use crate::market::{
    after_buy, after_sell, bought_side, buy_fill, fresh_market, lemma_after_buy, lemma_after_sell,
    market_wf, sold_side, MarketView,
};
use crate::models::Bid;

verus! {

/// The engine: bid book, supply pool, allocation ledger and sequencer.
pub struct Inner {
    bids: BidBook,
    supply: u64,
    allocations: Ledger,
    seq: u64,
}

impl Inner {
    pub closed spec fn view(&self) -> MarketView {
        MarketView {
            book: self.bids@,
            supply: self.supply,
            ledger: self.allocations.view(),
            next_seq: self.seq,
        }
    }

    pub closed spec fn wf(&self) -> bool {
        &&& self.bids.wf()
        &&& self.allocations.wf()
        &&& market_wf(self@)
    }

    /// An engine with no bids, no supply and no allocations.
    pub fn new() -> (r: Inner)
        ensures
            r@ == fresh_market(),
            r.wf(),
    {
        Inner { bids: BidBook::new(), supply: 0, allocations: Ledger::new(), seq: 0 }
    }

    /// Matches `volume` against the supply pool and queues what is left as a
    /// bid at `price`; returns what was allocated at once and what was queued.
    pub fn buy(&mut self, username: String, volume: u64, price: u64) -> (r: (u64, u64))
        requires
            old(self).wf(),
            bought_side(old(self)@) + volume <= u64::MAX,
        ensures
            final(self).wf(),
            final(self)@ == after_buy(old(self)@, username, volume, price),
            volume == 0 ==> final(self)@ == old(self)@,
            r == (buy_fill(old(self)@, volume), (volume - buy_fill(old(self)@, volume)) as u64),
    {
        proof {
            lemma_after_buy(self@, username, volume, price);
        }
        let allocated = if volume <= self.supply {
            volume
        } else {
            self.supply
        };
        self.supply = self.supply - allocated;
        self.allocations.credit(&username, allocated);
        let queued = volume - allocated;
        if queued > 0 {
            let seq = self.seq;
            self.seq = seq + 1;
            self.bids.insert(Bid { username, volume: queued, price, seq });
        }
        (allocated, queued)
    }

    /// Matches `volume` against the bids, highest price first and oldest first
    /// within a price, and adds what no bid took to the supply pool; returns
    /// what was allocated to bidders.
    pub fn sell(&mut self, volume: u64) -> (r: u64)
        requires
            old(self).wf(),
            sold_side(old(self)@) + volume <= u64::MAX,
        ensures
            final(self).wf(),
            final(self)@ == after_sell(old(self)@, volume),
            volume == 0 ==> final(self)@ == old(self)@,
            r == volume - sell_leftover(old(self)@.book, volume),
    {
        proof {
            lemma_after_sell(self@, volume);
            lemma_sell_totals(self@.ledger, self@.book, volume);
        }
        let remaining = self.bids.match_against(volume, &mut self.allocations);
        self.supply = self.supply + remaining;
        volume - remaining
    }

    /// The cumulative allocation of `username`, if the user was ever credited.
    pub fn allocation(&self, username: &String) -> (r: Option<u64>)
        requires
            self.wf(),
        ensures
            r == allocation_of(self@.ledger, username@),
    {
        self.allocations.get(username)
    }

    /// The units in the supply pool.
    pub fn supply(&self) -> (r: u64)
        ensures
            r == self@.supply,
    {
        self.supply
    }

    /// How many users have been credited.
    pub fn user_count(&self) -> (r: usize)
        ensures
            r == self@.ledger.len(),
    {
        self.allocations.len()
    }

    /// The sequence number the next queued bid receives.
    pub fn next_seq(&self) -> (r: u64)
        ensures
            r == self@.next_seq,
    {
        self.seq
    }

    /// The bid at position `i` in matching order.
    pub fn bid_at(&self, i: usize) -> (r: Option<&Bid>)
        ensures
            i < self@.book.len() ==> r == Some(&self@.book[i as int]),
            i >= self@.book.len() ==> r is None,
    {
        self.bids.bid_at(i)
    }

    /// The volume on the sold side and on the bought side:
    /// `(supply + Σ allocations, Σ allocations + Σ open bid volume)`.
    pub fn totals(&self) -> (r: (u64, u64))
        requires
            self.wf(),
        ensures
            r.0 == sold_side(self@),
            r.1 == bought_side(self@),
    {
        let allocations = self.allocations.total();
        let open_bids = self.bids.total();
        (allocations + self.supply, allocations + open_bids)
    }
}

impl Default for Inner {
    fn default() -> (r: Inner)
        ensures
            r@ == fresh_market(),
            r.wf(),
    {
        Inner::new()
    }
}

/// The engine state that every operation is handed.
pub struct AppState {
    state: Inner,
}

impl AppState {
    pub closed spec fn view(&self) -> MarketView {
        self.state@
    }

    pub closed spec fn wf(&self) -> bool {
        self.state.wf()
    }

    pub fn new() -> (r: AppState)
        ensures
            r@ == fresh_market(),
            r.wf(),
    {
        AppState { state: Inner::new() }
    }

    /// The engine itself.
    pub fn inner(&self) -> (r: &Inner)
        ensures
            r@ == self@,
            self.wf() ==> r.wf(),
    {
        &self.state
    }

    /// Runs a buy on the engine; see `Inner::buy`.
    pub fn buy(&mut self, username: String, volume: u64, price: u64) -> (r: (u64, u64))
        requires
            old(self).wf(),
            bought_side(old(self)@) + volume <= u64::MAX,
        ensures
            final(self).wf(),
            final(self)@ == after_buy(old(self)@, username, volume, price),
            volume == 0 ==> final(self)@ == old(self)@,
            r == (buy_fill(old(self)@, volume), (volume - buy_fill(old(self)@, volume)) as u64),
    {
        self.state.buy(username, volume, price)
    }

    /// Runs a sell on the engine; see `Inner::sell`.
    pub fn sell(&mut self, volume: u64) -> (r: u64)
        requires
            old(self).wf(),
            sold_side(old(self)@) + volume <= u64::MAX,
        ensures
            final(self).wf(),
            final(self)@ == after_sell(old(self)@, volume),
            volume == 0 ==> final(self)@ == old(self)@,
            r == volume - sell_leftover(old(self)@.book, volume),
    {
        self.state.sell(volume)
    }

    /// The volume on the sold side and on the bought side:
    /// `(supply + Σ allocations, Σ allocations + Σ open bid volume)`.
    pub fn total_volume_in_the_system(&self) -> (r: (u64, u64))
        requires
            self.wf(),
        ensures
            r.0 == sold_side(self@),
            r.1 == bought_side(self@),
    {
        self.state.totals()
    }
}

impl Default for AppState {
    fn default() -> (r: AppState)
        ensures
            r@ == fresh_market(),
            r.wf(),
    {
        AppState::new()
    }
}

} // verus!
