use vstd::prelude::*;
use std::collections::VecDeque;
use crate::ledger::{
    allocated, credited, has_user, ledger_total, ledger_unique, lemma_credited, Ledger, LedgerEntry,
};
use crate::models::Bid;

verus! {

/// Sum of the unfilled volume of a sequence of bids.
pub open spec fn book_total(b: Seq<Bid>) -> nat
    decreases b.len(),
{
    if b.len() == 0 {
        0
    } else {
        b[0].volume as nat + book_total(b.drop_first())
    }
}

/// The matching order: higher prices first, and within one price the smaller
/// `seq` first.
pub open spec fn book_ordered(b: Seq<Bid>) -> bool {
    forall|i: int, j: int|
        0 <= i < j < b.len() ==> (b[i].price > b[j].price || (b[i].price == b[j].price && b[i].seq
            < b[j].seq))
}

/// Bids in matching order, none of them filled.
pub open spec fn book_wf(b: Seq<Bid>) -> bool {
    &&& book_ordered(b)
    &&& forall|i: int| 0 <= i < b.len() ==> #[trigger] b[i].volume > 0
}

/// How many bids lead the book at a price of `price` or more.
pub open spec fn split_point(b: Seq<Bid>, price: u64) -> nat
    decreases b.len(),
{
    if b.len() == 0 || b[0].price < price {
        0
    } else {
        1 + split_point(b.drop_first(), price)
    }
}

/// The book with a new bid queued behind every bid at its price or above.
pub open spec fn with_bid(b: Seq<Bid>, bid: Bid) -> Seq<Bid> {
    b.insert(split_point(b, bid.price) as int, bid)
}

/// A bid with less volume left.
pub open spec fn reduced(bid: Bid, by: u64) -> Bid {
    Bid { username: bid.username, volume: (bid.volume - by) as u64, price: bid.price, seq: bid.seq }
}

/// The book after a sell of `v` units walked it from the front: bids are
/// filled in order, a filled bid leaves, and the walk stops when `v` is spent.
pub open spec fn sell_book(b: Seq<Bid>, v: u64) -> Seq<Bid>
    decreases b.len(),
{
    if v == 0 || b.len() == 0 {
        b
    } else if b[0].volume <= v {
        sell_book(b.drop_first(), (v - b[0].volume) as u64)
    } else {
        b.update(0, reduced(b[0], v))
    }
}

/// What is left of a sell of `v` units once the book is walked.
pub open spec fn sell_leftover(b: Seq<Bid>, v: u64) -> u64
    decreases b.len(),
{
    if v == 0 || b.len() == 0 {
        v
    } else if b[0].volume <= v {
        sell_leftover(b.drop_first(), (v - b[0].volume) as u64)
    } else {
        0
    }
}

/// The ledger after a sell of `v` units walked the book: each bid it reaches
/// credits its owner with what it takes.
pub open spec fn sell_ledger(l: Seq<LedgerEntry>, b: Seq<Bid>, v: u64) -> Seq<LedgerEntry>
    decreases b.len(),
{
    if v == 0 || b.len() == 0 {
        l
    } else if b[0].volume <= v {
        sell_ledger(credited(l, b[0].username, b[0].volume), b.drop_first(), (v - b[0].volume) as u64)
    } else {
        credited(l, b[0].username, v)
    }
}

/// How many bids a sell of `v` units fills completely.
pub open spec fn filled_count(b: Seq<Bid>, v: u64) -> int {
    b.len() - sell_book(b, v).len()
}

/// The volume that a sell of `v` units gives to the bid at index `j` of the book.
pub open spec fn received(b: Seq<Bid>, v: u64, j: int) -> nat {
    let k = filled_count(b, v);
    let rest = sell_book(b, v);
    if j < k {
        b[j].volume as nat
    } else if j == k && rest.len() > 0 {
        (b[j].volume - rest[0].volume) as nat
    } else {
        0
    }
}

pub proof fn lemma_book_total_concat(a: Seq<Bid>, b: Seq<Bid>)
    ensures
        book_total(a + b) == book_total(a) + book_total(b),
    decreases a.len(),
{
    if a.len() > 0 {
        assert((a + b).drop_first() =~= a.drop_first() + b);
        lemma_book_total_concat(a.drop_first(), b);
    } else {
        assert(a + b =~= b);
    }
}

pub proof fn lemma_book_total_insert(b: Seq<Bid>, k: int, bid: Bid)
    requires
        0 <= k <= b.len(),
    ensures
        book_total(b.insert(k, bid)) == book_total(b) + bid.volume,
{
    assert(b.insert(k, bid) =~= b.subrange(0, k) + (seq![bid] + b.subrange(k, b.len() as int)));
    assert(b =~= b.subrange(0, k) + b.subrange(k, b.len() as int));
    lemma_book_total_concat(b.subrange(0, k), seq![bid] + b.subrange(k, b.len() as int));
    lemma_book_total_concat(seq![bid], b.subrange(k, b.len() as int));
    lemma_book_total_concat(b.subrange(0, k), b.subrange(k, b.len() as int));
    assert(seq![bid].drop_first() =~= Seq::<Bid>::empty());
    assert(book_total(Seq::<Bid>::empty()) == 0);
    assert(book_total(seq![bid]) == bid.volume + book_total(seq![bid].drop_first()));
}

pub proof fn lemma_split_point_bounds(b: Seq<Bid>, price: u64)
    requires
        book_ordered(b),
    ensures
        split_point(b, price) <= b.len(),
        forall|i: int| 0 <= i < split_point(b, price) ==> b[i].price >= price,
        forall|i: int| split_point(b, price) <= i < b.len() ==> b[i].price < price,
    decreases b.len(),
{
    if b.len() > 0 && b[0].price >= price {
        let t = b.drop_first();
        assert(book_ordered(t));
        lemma_split_point_bounds(t, price);
        assert forall|i: int| split_point(b, price) <= i < b.len() implies b[i].price < price by {
            assert(b[i] == t[i - 1]);
        }
        assert forall|i: int| 0 <= i < split_point(b, price) implies b[i].price >= price by {
            if i > 0 {
                assert(b[i] == t[i - 1]);
            }
        }
    }
}

/// Queuing a fresh bid keeps the book in matching order and adds its volume.
pub proof fn lemma_with_bid(b: Seq<Bid>, bid: Bid)
    requires
        book_wf(b),
        bid.volume > 0,
        forall|i: int| 0 <= i < b.len() ==> #[trigger] b[i].seq < bid.seq,
    ensures
        book_wf(with_bid(b, bid)),
        book_total(with_bid(b, bid)) == book_total(b) + bid.volume,
        forall|i: int|
            0 <= i < with_bid(b, bid).len() ==> #[trigger] with_bid(b, bid)[i].seq <= bid.seq,
{
    lemma_split_point_bounds(b, bid.price);
    let k = split_point(b, bid.price) as int;
    lemma_book_total_insert(b, k, bid);
    let w = with_bid(b, bid);
    assert forall|i: int, j: int| 0 <= i < j < w.len() implies (w[i].price > w[j].price || (
    w[i].price == w[j].price && w[i].seq < w[j].seq)) by {
        if j < k {
        } else if j == k {
            assert(b[i].seq < bid.seq);
        } else if i < k {
        } else if i == k {
        } else {
            assert(w[i] == b[i - 1] && w[j] == b[j - 1]);
        }
    }
    assert forall|i: int| 0 <= i < w.len() implies #[trigger] w[i].volume > 0 by {
        if i < k {
        } else if i > k {
            assert(w[i] == b[i - 1]);
        }
    }
    assert forall|i: int| 0 <= i < w.len() implies #[trigger] w[i].seq <= bid.seq by {
        if i < k {
            assert(b[i].seq < bid.seq);
        } else if i > k {
            assert(w[i] == b[i - 1]);
            assert(b[i - 1].seq < bid.seq);
        }
    }
}

/// The shape of the book after a sell: a run of bids at the front is gone, the
/// next one may have lost volume, and everything behind it is untouched.
pub proof fn lemma_sell_shape(b: Seq<Bid>, v: u64)
    requires
        book_wf(b),
    ensures
        0 <= filled_count(b, v) <= b.len(),
        forall|j: int|
            0 <= j < sell_book(b, v).len() ==> {
                let o = #[trigger] b[filled_count(b, v) + j];
                let n = sell_book(b, v)[j];
                &&& n.username == o.username
                &&& n.price == o.price
                &&& n.seq == o.seq
                &&& 0 < n.volume <= o.volume
                &&& (j > 0 ==> n == o)
            },
        sell_book(b, v).len() > 0 && sell_book(b, v)[0].volume < b[filled_count(b, v)].volume
            ==> sell_leftover(b, v) == 0,
        book_wf(sell_book(b, v)),
    decreases b.len(),
{
    if v == 0 || b.len() == 0 {
    } else if b[0].volume <= v {
        let t = b.drop_first();
        assert(book_wf(t)) by {
            assert forall|i: int| 0 <= i < t.len() implies #[trigger] t[i].volume > 0 by {
                assert(t[i] == b[i + 1]);
            }
        }
        lemma_sell_shape(t, (v - b[0].volume) as u64);
        assert(filled_count(b, v) == filled_count(t, (v - b[0].volume) as u64) + 1);
        let r = sell_book(b, v);
        assert forall|j: int| 0 <= j < r.len() implies #[trigger] b[filled_count(b, v) + j] == t[
            filled_count(t, (v - b[0].volume) as u64) + j] by {}
    } else {
        let r = sell_book(b, v);
        assert forall|i: int, j: int| 0 <= i < j < r.len() implies (r[i].price > r[j].price || (
        r[i].price == r[j].price && r[i].seq < r[j].seq)) by {}
        assert forall|i: int| 0 <= i < r.len() implies #[trigger] r[i].volume > 0 by {}
    }
}

/// A sell moves volume out of the book into the ledger, unit for unit, and
/// what it cannot place is its leftover.
pub proof fn lemma_sell_totals(l: Seq<LedgerEntry>, b: Seq<Bid>, v: u64)
    requires
        book_wf(b),
        ledger_unique(l),
        ledger_total(l) + v <= u64::MAX,
    ensures
        sell_leftover(b, v) <= v,
        book_total(sell_book(b, v)) + (v - sell_leftover(b, v)) == book_total(b),
        ledger_total(sell_ledger(l, b, v)) == ledger_total(l) + (v - sell_leftover(b, v)),
        ledger_unique(sell_ledger(l, b, v)),
        forall|n: Seq<char>| has_user(l, n) ==> #[trigger] has_user(sell_ledger(l, b, v), n),
        forall|n: Seq<char>| allocated(l, n) <= #[trigger] allocated(sell_ledger(l, b, v), n),
    decreases b.len(),
{
    if v == 0 || b.len() == 0 {
    } else if b[0].volume <= v {
        let t = b.drop_first();
        assert(book_wf(t)) by {
            assert forall|i: int| 0 <= i < t.len() implies #[trigger] t[i].volume > 0 by {
                assert(t[i] == b[i + 1]);
            }
        }
        lemma_credited(l, b[0].username, b[0].volume);
        let l2 = credited(l, b[0].username, b[0].volume);
        lemma_sell_totals(l2, t, (v - b[0].volume) as u64);
        assert forall|n: Seq<char>| allocated(l, n) <= #[trigger] allocated(
            sell_ledger(l, b, v),
            n,
        ) by {
            assert(allocated(l2, n) >= allocated(l, n));
        }
    } else {
        lemma_credited(l, b[0].username, v);
        let r = sell_book(b, v);
        assert(r.drop_first() =~= b.drop_first());
        assert forall|n: Seq<char>| allocated(l, n) <= #[trigger] allocated(
            sell_ledger(l, b, v),
            n,
        ) by {}
    }
}

/// The bids that wait at one price, oldest first.
pub struct PriceLevel {
    pub price: u64,
    pub bids: VecDeque<Bid>,
}

/// The bids of a run of levels held in ascending price, in matching order:
/// the last level (the highest price) comes first.
pub open spec fn flatten(ls: Seq<PriceLevel>) -> Seq<Bid>
    decreases ls.len(),
{
    if ls.len() == 0 {
        Seq::empty()
    } else {
        ls.last().bids@ + flatten(ls.drop_last())
    }
}

/// Prices strictly ascend, no level is empty, and each bid sits at its price.
pub open spec fn levels_wf(ls: Seq<PriceLevel>) -> bool {
    &&& forall|i: int, j: int| 0 <= i < j < ls.len() ==> ls[i].price < ls[j].price
    &&& forall|i: int| 0 <= i < ls.len() ==> (#[trigger] ls[i]).bids@.len() > 0
    &&& forall|i: int, k: int|
        0 <= i < ls.len() && 0 <= k < ls[i].bids@.len() ==> (#[trigger] ls[i].bids@[k]).price
            == ls[i].price
}

pub proof fn lemma_levels_wf_prefix(ls: Seq<PriceLevel>, k: int)
    requires
        levels_wf(ls),
        0 <= k <= ls.len(),
    ensures
        levels_wf(ls.subrange(0, k)),
{
    let t = ls.subrange(0, k);
    assert forall|i: int, m: int|
        0 <= i < t.len() && 0 <= m < t[i].bids@.len() implies (#[trigger] t[i].bids@[m]).price
        == t[i].price by {
        assert(t[i] == ls[i]);
    }
}

/// Below a level of price `p` all prices are lower, so the bids of the
/// levels from the top down to it are exactly those at `p` or above.
pub proof fn lemma_split_of_flatten(ls: Seq<PriceLevel>, price: u64)
    requires
        levels_wf(ls),
        ls.len() > 0 ==> ls.last().price < price,
    ensures
        split_point(flatten(ls), price) == 0,
{
    if ls.len() > 0 {
        let f = flatten(ls);
        assert(f[0] == ls.last().bids@[0]);
        assert(ls.last().bids@[0].price == ls.last().price);
    }
}

pub proof fn lemma_split_point_le(b: Seq<Bid>, price: u64)
    ensures
        split_point(b, price) <= b.len(),
    decreases b.len(),
{
    if b.len() > 0 && b[0].price >= price {
        lemma_split_point_le(b.drop_first(), price);
    }
}

pub proof fn lemma_split_skip(a: Seq<Bid>, b: Seq<Bid>, price: u64)
    requires
        forall|k: int| 0 <= k < a.len() ==> (#[trigger] a[k]).price >= price,
    ensures
        split_point(a + b, price) == a.len() + split_point(b, price),
    decreases a.len(),
{
    if a.len() > 0 {
        assert((a + b).drop_first() =~= a.drop_first() + b);
        assert((a + b)[0] == a[0]);
        lemma_split_skip(a.drop_first(), b, price);
    } else {
        assert(a + b =~= b);
    }
}

pub proof fn lemma_concat_insert(a: Seq<Bid>, b: Seq<Bid>, k: int, x: Bid)
    requires
        0 <= k <= b.len(),
    ensures
        a + b.insert(k, x) == (a + b).insert(a.len() + k, x),
{
    assert(a + b.insert(k, x) =~= (a + b).insert(a.len() + k, x));
}

pub proof fn lemma_level_at_or_above(ls: Seq<PriceLevel>, i: int, price: u64)
    requires
        levels_wf(ls),
        0 <= i < ls.len(),
        ls[i].price >= price,
    ensures
        forall|k: int| 0 <= k < ls[i].bids@.len() ==> (#[trigger] ls[i].bids@[k]).price >= price,
{
}

/// Appending a bid to the level of its price queues it as `with_bid` says.
pub proof fn lemma_push_into_level(ls: Seq<PriceLevel>, i: int, level: PriceLevel, bid: Bid)
    requires
        levels_wf(ls),
        0 <= i < ls.len(),
        ls[i].price == bid.price,
        level.price == ls[i].price,
        level.bids@ == ls[i].bids@.push(bid),
    ensures
        flatten(ls.update(i, level)) == with_bid(flatten(ls), bid),
        levels_wf(ls.update(i, level)),
    decreases ls.len(),
{
    let n = ls.len() as int;
    let last = ls[n - 1];
    let init = ls.drop_last();
    let u = ls.update(i, level);
    lemma_levels_wf_prefix(ls, n - 1);
    assert(init =~= ls.subrange(0, n - 1));
    assert(flatten(ls) == last.bids@ + flatten(init));
    lemma_level_at_or_above(ls, n - 1, bid.price);
    lemma_split_skip(last.bids@, flatten(init), bid.price);
    if i == n - 1 {
        assert(u.drop_last() =~= init);
        lemma_split_of_flatten(init, bid.price);
        assert(flatten(u) =~= with_bid(flatten(ls), bid));
    } else {
        assert(u.drop_last() =~= init.update(i, level));
        assert(u.last() == last);
        lemma_push_into_level(init, i, level, bid);
        assert(flatten(u) == last.bids@ + flatten(init.update(i, level)));
        lemma_split_point_le(flatten(init), bid.price);
        lemma_concat_insert(last.bids@, flatten(init), split_point(flatten(init), bid.price) as int, bid);
    }
    assert forall|j: int, m: int|
        0 <= j < u.len() && 0 <= m < u[j].bids@.len() implies (#[trigger] u[j].bids@[m]).price
        == u[j].price by {
        if j != i {
            assert(u[j] == ls[j]);
        }
    }
}

/// A new level holding only `bid`, slotted in where its price belongs, queues
/// the bid as `with_bid` says.
pub proof fn lemma_new_level(ls: Seq<PriceLevel>, i: int, level: PriceLevel, bid: Bid)
    requires
        levels_wf(ls),
        0 <= i <= ls.len(),
        i > 0 ==> ls[i - 1].price < bid.price,
        i < ls.len() ==> ls[i].price > bid.price,
        level.price == bid.price,
        level.bids@ == seq![bid],
    ensures
        flatten(ls.insert(i, level)) == with_bid(flatten(ls), bid),
        levels_wf(ls.insert(i, level)),
    decreases ls.len(),
{
    let n = ls.len() as int;
    let u = ls.insert(i, level);
    if i == n {
        assert(u.drop_last() =~= ls);
        lemma_split_of_flatten(ls, bid.price);
        assert(flatten(u) =~= with_bid(flatten(ls), bid));
    } else {
        let last = ls[n - 1];
        let init = ls.drop_last();
        lemma_levels_wf_prefix(ls, n - 1);
        assert(init =~= ls.subrange(0, n - 1));
        assert(u.drop_last() =~= init.insert(i, level));
        assert(u.last() == last);
        lemma_new_level(init, i, level, bid);
        assert(flatten(ls) == last.bids@ + flatten(init));
        lemma_level_at_or_above(ls, n - 1, bid.price);
        lemma_split_skip(last.bids@, flatten(init), bid.price);
        assert(flatten(u) == last.bids@ + flatten(init.insert(i, level)));
        lemma_split_point_le(flatten(init), bid.price);
        lemma_concat_insert(last.bids@, flatten(init), split_point(flatten(init), bid.price) as int, bid);
    }
    lemma_levels_wf_insert(ls, i, level);
}

pub proof fn lemma_levels_wf_insert(ls: Seq<PriceLevel>, i: int, level: PriceLevel)
    requires
        levels_wf(ls),
        0 <= i <= ls.len(),
        i > 0 ==> ls[i - 1].price < level.price,
        i < ls.len() ==> ls[i].price > level.price,
        level.bids@.len() > 0,
        forall|k: int| 0 <= k < level.bids@.len() ==> (#[trigger] level.bids@[k]).price == level.price,
    ensures
        levels_wf(ls.insert(i, level)),
{
    let u = ls.insert(i, level);
    assert forall|j: int, k: int| 0 <= j < k < u.len() implies u[j].price < u[k].price by {
        if j < i && k > i {
            assert(u[j] == ls[j] && u[k] == ls[k - 1]);
        } else if j == i {
            assert(u[k] == ls[k - 1]);
        } else if k == i {
        } else if j > i {
            assert(u[j] == ls[j - 1] && u[k] == ls[k - 1]);
        }
    }
    assert forall|j: int| 0 <= j < u.len() implies (#[trigger] u[j]).bids@.len() > 0 by {
        if j < i {
        } else if j > i {
            assert(u[j] == ls[j - 1]);
        }
    }
    assert forall|j: int, m: int|
        0 <= j < u.len() && 0 <= m < u[j].bids@.len() implies (#[trigger] u[j].bids@[m]).price
        == u[j].price by {
        if j < i {
        } else if j > i {
            assert(u[j] == ls[j - 1]);
        }
    }
}

/// Reading level `k - 1` peels the top level off the run `ls[0..k]`.
pub proof fn lemma_flatten_step(ls: Seq<PriceLevel>, k: int)
    requires
        0 < k <= ls.len(),
    ensures
        flatten(ls.subrange(0, k)) == ls[k - 1].bids@ + flatten(ls.subrange(0, k - 1)),
{
    assert(ls.subrange(0, k).drop_last() =~= ls.subrange(0, k - 1));
}

/// The bid book: price levels in ascending price, each a FIFO queue. Matching
/// walks it from the last level (the highest price) down.
pub struct BidBook {
    levels: Vec<PriceLevel>,
}

impl BidBook {
    /// The bids in matching order.
    pub closed spec fn view(&self) -> Seq<Bid> {
        flatten(self.levels@)
    }

    pub closed spec fn wf(&self) -> bool {
        levels_wf(self.levels@)
    }

    pub fn new() -> (r: BidBook)
        ensures
            r@ == Seq::<Bid>::empty(),
            r.wf(),
    {
        BidBook { levels: Vec::new() }
    }

    /// Queues `bid` at its price, behind the bids already there.
    pub fn insert(&mut self, bid: Bid)
        requires
            old(self).wf(),
        ensures
            final(self)@ == with_bid(old(self)@, bid),
            final(self).wf(),
    {
        let price = bid.price;
        let n = self.levels.len();
        let mut i: usize = 0;
        while i < n && self.levels[i].price < price
            invariant
                n == self.levels.len(),
                0 <= i <= n,
                forall|j: int| 0 <= j < i ==> self.levels@[j].price < price,
            decreases n - i,
        {
            i = i + 1;
        }
        if i < n && self.levels[i].price == price {
            let ghost ls = self.levels@;
            let mut level = self.levels.remove(i);
            level.bids.push_back(bid);
            proof {
                lemma_push_into_level(ls, i as int, level, bid);
                assert(ls.remove(i as int).insert(i as int, level) =~= ls.update(i as int, level));
            }
            self.levels.insert(i, level);
        } else {
            let ghost ls = self.levels@;
            let mut bids = VecDeque::new();
            bids.push_back(bid);
            let level = PriceLevel { price, bids };
            proof {
                assert(level.bids@ =~= seq![bid]);
                lemma_new_level(ls, i as int, level, bid);
            }
            self.levels.insert(i, level);
        }
    }

    /// Walks the book with `volume` units to place, from the highest price
    /// down and oldest first within a price, crediting `ledger` for each
    /// match; returns the units that found no bid.
    pub fn match_against(&mut self, volume: u64, ledger: &mut Ledger) -> (r: u64)
        requires
            old(self).wf(),
            book_wf(old(self)@),
            old(ledger).wf(),
            ledger_total(old(ledger).view()) + volume <= u64::MAX,
        ensures
            final(self).wf(),
            final(self)@ == sell_book(old(self)@, volume),
            final(ledger).view() == sell_ledger(old(ledger).view(), old(self)@, volume),
            final(ledger).wf(),
            r == sell_leftover(old(self)@, volume),
    {
        let mut remaining = volume;
        while remaining > 0 && self.levels.len() > 0
            invariant
                levels_wf(self.levels@),
                book_wf(flatten(self.levels@)),
                ledger.wf(),
                ledger_total(ledger.view()) + remaining <= u64::MAX,
                sell_book(flatten(self.levels@), remaining) == sell_book(old(self)@, volume),
                sell_ledger(ledger.view(), flatten(self.levels@), remaining) == sell_ledger(
                    old(ledger).view(),
                    old(self)@,
                    volume,
                ),
                sell_leftover(flatten(self.levels@), remaining) == sell_leftover(
                    old(self)@,
                    volume,
                ),
            decreases remaining,
        {
            let ghost ls = self.levels@;
            let ghost f = flatten(ls);
            let ghost l0 = ledger.view();
            let mut level = self.levels.pop().unwrap();
            let ghost init = self.levels@;
            proof {
                assert(init =~= ls.drop_last());
                assert(level == ls.last());
                assert(f == level.bids@ + flatten(init));
                assert(ls[ls.len() - 1].bids@.len() > 0);
                lemma_levels_wf_prefix(ls, ls.len() - 1);
                assert(init =~= ls.subrange(0, ls.len() - 1));
            }
            let ghost q = level.bids@;
            let mut bid = level.bids.pop_front().unwrap();
            proof {
                assert(f[0] == bid);
                assert(f.drop_first() =~= level.bids@ + flatten(init));
                lemma_sell_shape(f, remaining);
                lemma_credited(l0, bid.username, if bid.volume <= remaining { bid.volume } else { remaining });
            }
            if bid.volume <= remaining {
                ledger.credit(&bid.username, bid.volume);
                remaining = remaining - bid.volume;
                proof {
                    assert(book_wf(f.drop_first())) by {
                        assert forall|i: int, j: int| 0 <= i < j < f.drop_first().len() implies
                            (f.drop_first()[i].price > f.drop_first()[j].price || (f.drop_first()[i].price == f.drop_first()[j].price
                            && f.drop_first()[i].seq < f.drop_first()[j].seq)) by {
                            assert(f.drop_first()[i] == f[i + 1] && f.drop_first()[j] == f[j + 1]);
                        }
                        assert forall|i: int| 0 <= i < f.drop_first().len() implies #[trigger] f.drop_first()[i].volume > 0 by {
                            assert(f.drop_first()[i] == f[i + 1]);
                        }
                    }
                }
            } else {
                ledger.credit(&bid.username, remaining);
                bid.volume = bid.volume - remaining;
                remaining = 0;
                level.bids.push_front(bid);
                proof {
                    assert(level.bids@ + flatten(init) =~= f.update(0, bid));
                }
            }
            proof {
                assert forall|k: int| 0 <= k < level.bids@.len() implies (#[trigger] level.bids@[k]).price == level.price by {
                    assert(ls[ls.len() - 1].bids@[0].price == ls[ls.len() - 1].price);
                    if bid.volume > 0 && remaining == 0 && k == 0 {
                    } else {
                        assert(ls[ls.len() - 1].bids@[k + (q.len() - level.bids@.len())].price == ls[ls.len() - 1].price);
                        assert(level.bids@[k] == q[k + (q.len() - level.bids@.len())]);
                    }
                }
            }
            if level.bids.len() > 0 {
                proof {
                    lemma_levels_wf_insert(init, init.len() as int, level);
                    assert(init.insert(init.len() as int, level) =~= init.push(level));
                    assert(init.push(level).drop_last() =~= init);
                }
                self.levels.push(level);
            } else {
                proof {
                    assert(level.bids@ + flatten(init) =~= flatten(init));
                }
            }
        }
        proof {
            if remaining > 0 {
                assert(flatten(self.levels@) =~= Seq::<Bid>::empty());
            }
        }
        remaining
    }

    /// Sum of the unfilled volume of every bid in the book.
    pub fn total(&self) -> (r: u64)
        requires
            book_total(self@) <= u64::MAX,
        ensures
            r == book_total(self@),
    {
        let ghost ls = self.levels@;
        let mut sum: u64 = 0;
        let mut k: usize = self.levels.len();
        proof {
            assert(ls.subrange(0, k as int) =~= ls);
        }
        while k > 0
            invariant
                ls == self.levels@,
                0 <= k <= ls.len(),
                book_total(flatten(ls)) <= u64::MAX,
                sum + book_total(flatten(ls.subrange(0, k as int))) == book_total(flatten(ls)),
            decreases k,
        {
            proof {
                lemma_flatten_step(ls, k as int);
                lemma_book_total_concat(ls[k - 1].bids@, flatten(ls.subrange(0, k - 1)));
            }
            let q = &self.levels[k - 1].bids;
            let m = q.len();
            let mut j: usize = 0;
            proof {
                assert(q@.subrange(0, m as int) =~= q@);
            }
            while j < m
                invariant
                    ls == self.levels@,
                    0 < k <= ls.len(),
                    q@ == ls[k - 1].bids@,
                    m == q@.len(),
                    0 <= j <= m,
                    book_total(flatten(ls)) <= u64::MAX,
                    sum + book_total(q@.subrange(j as int, m as int)) + book_total(
                        flatten(ls.subrange(0, k - 1)),
                    ) == book_total(flatten(ls)),
                decreases m - j,
            {
                proof {
                    let t = q@.subrange(j as int, m as int);
                    assert(t.drop_first() =~= q@.subrange(j as int + 1, m as int));
                    assert(t[0] == q@[j as int]);
                }
                sum = sum + q[j].volume;
                j = j + 1;
            }
            proof {
                assert(q@.subrange(m as int, m as int) =~= Seq::<Bid>::empty());
            }
            k = k - 1;
        }
        sum
    }

    /// The bid at position `i` in matching order.
    pub fn bid_at(&self, i: usize) -> (r: Option<&Bid>)
        ensures
            i < self@.len() ==> r == Some(&self@[i as int]),
            i >= self@.len() ==> r is None,
    {
        let ghost ls = self.levels@;
        let mut k: usize = self.levels.len();
        let mut rest: usize = i;
        proof {
            assert(ls.subrange(0, k as int) =~= ls);
        }
        while k > 0
            invariant
                ls == self.levels@,
                0 <= k <= ls.len(),
                rest <= i,
                (i < flatten(ls).len()) == (rest < flatten(ls.subrange(0, k as int)).len()),
                i < flatten(ls).len() ==> flatten(ls)[i as int] == flatten(
                    ls.subrange(0, k as int),
                )[rest as int],
            decreases k,
        {
            proof {
                lemma_flatten_step(ls, k as int);
            }
            let q = &self.levels[k - 1].bids;
            if rest < q.len() {
                return Some(&q[rest]);
            }
            rest = rest - q.len();
            k = k - 1;
        }
        None
    }
}

} // verus!
