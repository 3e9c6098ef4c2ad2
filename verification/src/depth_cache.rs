//! Per-symbol order-book replicas, synchronized from a snapshot plus a
//! differential update stream with strict sequence-number reconciliation.
//!
//! A ladder is a vector of price levels, bids strictly descending and asks
//! strictly ascending by price, holding no zero quantities. Its mathematical
//! model is the finite map from price to quantity ([`book_map`]); an update
//! stream event edits that map.

use vstd::prelude::*;

verus! {

/// One stored ladder entry. In an update stream a quantity of zero is a
/// deletion sentinel; a stored level always has a positive quantity.
#[derive(Debug, Clone, Copy, PartialEq, Eq, Structural)]
pub struct PriceLevel {
    pub price: u64,
    pub qty: u64,
}

/// The ladder as a finite map from price to quantity.
pub open spec fn book_map(s: Seq<PriceLevel>) -> Map<u64, u64>
    decreases s.len(),
{
    if s.len() == 0 {
        Map::empty()
    } else {
        book_map(s.drop_last()).insert(s.last().price, s.last().qty)
    }
}

/// Prices strictly descending (the bid side) or strictly ascending (the ask
/// side), so no price occurs twice.
pub open spec fn sorted_side(s: Seq<PriceLevel>, descending: bool) -> bool {
    forall|i: int, j: int|
        0 <= i < j < s.len() ==> if descending {
            (#[trigger] s[i]).price > (#[trigger] s[j]).price
        } else {
            (#[trigger] s[i]).price < (#[trigger] s[j]).price
        }
}

/// Every stored level has a positive price and a positive quantity.
pub open spec fn levels_wf(s: Seq<PriceLevel>) -> bool {
    forall|i: int| 0 <= i < s.len() ==> (#[trigger] s[i]).price > 0 && s[i].qty > 0
}

/// A price is in the ladder's map exactly when some level carries it.
pub proof fn lemma_book_map_contains(s: Seq<PriceLevel>, p: u64)
    ensures
        book_map(s).dom().contains(p) <==> exists|i: int| 0 <= i < s.len() && (#[trigger] s[i]).price == p,
    decreases s.len(),
{
    if s.len() > 0 {
        lemma_book_map_contains(s.drop_last(), p);
        if s.last().price == p {
            assert(s[s.len() - 1].price == p);
        } else if book_map(s).dom().contains(p) {
            let i = choose|i: int| 0 <= i < s.drop_last().len() && (#[trigger] s.drop_last()[i]).price == p;
            assert(s[i].price == p);
        } else if exists|i: int| 0 <= i < s.len() && (#[trigger] s[i]).price == p {
            let i = choose|i: int| 0 <= i < s.len() && (#[trigger] s[i]).price == p;
            assert(s.drop_last()[i].price == p);
        }
    }
}

/// No two levels carry the same price.
pub open spec fn distinct_prices(s: Seq<PriceLevel>) -> bool {
    forall|a: int, b: int|
        0 <= a < b < s.len() ==> (#[trigger] s[a]).price != (#[trigger] s[b]).price
}

/// A strictly sorted ladder has no repeated price.
pub proof fn lemma_sorted_distinct(s: Seq<PriceLevel>, descending: bool)
    requires
        sorted_side(s, descending),
    ensures
        distinct_prices(s),
{
}

/// Removing the level at index `i` removes its price from the map.
pub proof fn lemma_book_map_remove(s: Seq<PriceLevel>, i: int)
    requires
        0 <= i < s.len(),
        distinct_prices(s),
    ensures
        book_map(s.remove(i)) == book_map(s).remove(s[i].price),
    decreases s.len(),
{
    if i == s.len() - 1 {
        assert(s.remove(i) =~= s.drop_last());
        lemma_book_map_contains(s.drop_last(), s[i].price);
        assert(forall|j: int|
            0 <= j < s.drop_last().len() ==> (#[trigger] s.drop_last()[j]).price != s[i].price);
        assert(!book_map(s.drop_last()).dom().contains(s[i].price));
        assert(book_map(s.drop_last()) =~= book_map(s).remove(s[i].price));
    } else {
        let dl = s.drop_last();
        assert(distinct_prices(dl));
        lemma_book_map_remove(dl, i);
        assert(s.remove(i).drop_last() =~= dl.remove(i));
        assert(s.remove(i).last() == s.last());
        assert(s.remove(i).len() == s.len() - 1);
        assert(book_map(s.remove(i)) == book_map(dl.remove(i)).insert(
            s.last().price,
            s.last().qty,
        ));
        assert(s[i].price != s.last().price);
        assert(book_map(dl).remove(s[i].price).insert(s.last().price, s.last().qty)
            =~= book_map(dl).insert(s.last().price, s.last().qty).remove(s[i].price));
    }
}

/// Inserting a level whose price is fresh at position `i` adds its price to
/// the map.
pub proof fn lemma_book_map_insert(s: Seq<PriceLevel>, i: int, l: PriceLevel)
    requires
        0 <= i <= s.len(),
        forall|j: int| 0 <= j < s.len() ==> (#[trigger] s[j]).price != l.price,
    ensures
        book_map(s.insert(i, l)) == book_map(s).insert(l.price, l.qty),
    decreases s.len(),
{
    if i == s.len() {
        assert(s.insert(i, l).drop_last() =~= s);
        assert(s.insert(i, l).last() == l);
    } else {
        let dl = s.drop_last();
        lemma_book_map_insert(dl, i, l);
        assert(s.insert(i, l).drop_last() =~= dl.insert(i, l));
        assert(s.insert(i, l).last() == s.last());
        assert(s.insert(i, l).len() == s.len() + 1);
        assert(book_map(s.insert(i, l)) == book_map(dl.insert(i, l)).insert(
            s.last().price,
            s.last().qty,
        ));
        assert(s.last().price != l.price);
        assert(book_map(dl).insert(l.price, l.qty).insert(s.last().price, s.last().qty)
            =~= book_map(dl).insert(s.last().price, s.last().qty).insert(l.price, l.qty));
    }
}

/// Overwriting the quantity at index `i` re-points its price in the map.
pub proof fn lemma_book_map_update(s: Seq<PriceLevel>, i: int, l: PriceLevel)
    requires
        0 <= i < s.len(),
        distinct_prices(s),
        s[i].price == l.price,
    ensures
        book_map(s.update(i, l)) == book_map(s).insert(l.price, l.qty),
    decreases s.len(),
{
    if i == s.len() - 1 {
        assert(s.update(i, l).drop_last() =~= s.drop_last());
        assert(s.update(i, l).last() == l);
        assert(book_map(s.drop_last()).insert(s.last().price, s.last().qty).insert(l.price, l.qty)
            =~= book_map(s.drop_last()).insert(l.price, l.qty));
    } else {
        let dl = s.drop_last();
        assert(distinct_prices(dl));
        lemma_book_map_update(dl, i, l);
        assert(s.update(i, l).drop_last() =~= dl.update(i, l));
        assert(s.update(i, l).last() == s.last());
        assert(s.update(i, l).len() == s.len());
        assert(book_map(s.update(i, l)) == book_map(dl.update(i, l)).insert(
            s.last().price,
            s.last().qty,
        ));
        assert(s.last().price != l.price);
        assert(book_map(dl).insert(l.price, l.qty).insert(s.last().price, s.last().qty)
            =~= book_map(dl).insert(s.last().price, s.last().qty).insert(l.price, l.qty));
    }
}

/// The edit one stream entry makes to the ladder map: a zero quantity deletes
/// the price, a positive one sets it.
pub open spec fn apply_level_map(m: Map<u64, u64>, price: u64, qty: u64) -> Map<u64, u64> {
    if qty == 0 {
        m.remove(price)
    } else {
        m.insert(price, qty)
    }
}

/// The edits a whole event side makes, applied first to last.
pub open spec fn apply_updates_map(m: Map<u64, u64>, ups: Seq<PriceLevel>) -> Map<u64, u64>
    decreases ups.len(),
{
    if ups.len() == 0 {
        m
    } else {
        apply_updates_map(apply_level_map(m, ups[0].price, ups[0].qty), ups.drop_first())
    }
}

/// Apply one update entry to one ladder side: locate the level by exact price
/// match; delete it on a zero quantity, overwrite it on a positive one, insert
/// a fresh level in price order when absent.
fn apply_one(levels: &mut Vec<PriceLevel>, price: u64, qty: u64, descending: bool)
    requires
        sorted_side(old(levels)@, descending),
        levels_wf(old(levels)@),
        price > 0,
    ensures
        sorted_side(final(levels)@, descending),
        levels_wf(final(levels)@),
        book_map(final(levels)@) == apply_level_map(book_map(old(levels)@), price, qty),
{
    proof {
        lemma_sorted_distinct(old(levels)@, descending);
    }
    let ghost s0 = levels@;
    let n = levels.len();
    let mut i: usize = 0;
    if descending {
        while i < n && levels[i].price > price
            invariant
                levels@ == s0,
                n == s0.len(),
                i <= n,
                forall|j: int| 0 <= j < i ==> (#[trigger] s0[j]).price > price,
            decreases n - i,
        {
            i = i + 1;
        }
    } else {
        while i < n && levels[i].price < price
            invariant
                levels@ == s0,
                n == s0.len(),
                i <= n,
                forall|j: int| 0 <= j < i ==> (#[trigger] s0[j]).price < price,
            decreases n - i,
        {
            i = i + 1;
        }
    }
    if i < levels.len() && levels[i].price == price {
        if qty > 0 {
            let l = PriceLevel { price, qty };
            levels.remove(i);
            levels.insert(i, l);
            proof {
                assert(levels@ =~= s0.update(i as int, l));
                lemma_book_map_update(s0, i as int, l);
                assert(forall|a: int|
                    0 <= a < s0.len() ==> (#[trigger] levels@[a]).price == s0[a].price);
            }
        } else {
            levels.remove(i);
            proof {
                lemma_book_map_remove(s0, i as int);
                assert forall|a: int, b: int| 0 <= a < b < levels@.len() implies if descending {
                    (#[trigger] levels@[a]).price > (#[trigger] levels@[b]).price
                } else {
                    (#[trigger] levels@[a]).price < (#[trigger] levels@[b]).price
                } by {
                    let a0 = if a < i as int { a } else { a + 1 };
                    let b0 = if b < i as int { b } else { b + 1 };
                    assert(levels@[a] == s0[a0]);
                    assert(levels@[b] == s0[b0]);
                }
                assert forall|a: int| 0 <= a < levels@.len() implies (#[trigger] levels@[a]).price
                    > 0 && levels@[a].qty > 0 by {
                    let a0 = if a < i as int { a } else { a + 1 };
                    assert(levels@[a] == s0[a0]);
                }
            }
        }
    } else {
        // Not found: the scan stopped strictly past every nearer price.
        proof {
            assert(forall|j: int| 0 <= j < s0.len() ==> (#[trigger] s0[j]).price != price);
        }
        if qty > 0 {
            let l = PriceLevel { price, qty };
            levels.insert(i, l);
            proof {
                lemma_book_map_insert(s0, i as int, l);
                assert forall|a: int, b: int| 0 <= a < b < levels@.len() implies if descending {
                    (#[trigger] levels@[a]).price > (#[trigger] levels@[b]).price
                } else {
                    (#[trigger] levels@[a]).price < (#[trigger] levels@[b]).price
                } by {
                    assert(forall|j: int|
                        0 <= j < i ==> (#[trigger] levels@[j]) == s0[j]);
                    assert(levels@[i as int] == l);
                    assert(forall|j: int|
                        i < j < levels@.len() ==> (#[trigger] levels@[j]) == s0[j - 1]);
                }
            }
        } else {
            proof {
                lemma_book_map_contains(s0, price);
                assert(book_map(s0).remove(price) =~= book_map(s0));
            }
        }
    }
}

/// Apply every update entry of one event side, in stream order.
fn apply_side(levels: &mut Vec<PriceLevel>, updates: &Vec<PriceLevel>, descending: bool)
    requires
        sorted_side(old(levels)@, descending),
        levels_wf(old(levels)@),
        forall|j: int| 0 <= j < updates@.len() ==> (#[trigger] updates@[j]).price > 0,
    ensures
        sorted_side(final(levels)@, descending),
        levels_wf(final(levels)@),
        book_map(final(levels)@) == apply_updates_map(book_map(old(levels)@), updates@),
{
    let ghost m0 = book_map(old(levels)@);
    proof {
        assert(old(levels)@.skip(0) =~= old(levels)@);
    }
    let mut k: usize = 0;
    proof {
        assert(updates@.skip(0) =~= updates@);
    }
    while k < updates.len()
        invariant
            k <= updates@.len(),
            sorted_side(levels@, descending),
            levels_wf(levels@),
            forall|j: int| 0 <= j < updates@.len() ==> (#[trigger] updates@[j]).price > 0,
            apply_updates_map(m0, updates@) == apply_updates_map(
                book_map(levels@),
                updates@.skip(k as int),
            ),
        decreases updates@.len() - k,
    {
        let u = updates[k];
        proof {
            let rest = updates@.skip(k as int);
            assert(rest[0] == updates@[k as int]);
            assert(rest.drop_first() =~= updates@.skip(k as int + 1));
        }
        apply_one(levels, u.price, u.qty, descending);
        k = k + 1;
    }
    proof {
        assert(updates@.skip(updates@.len() as int).len() == 0);
    }
}

/// One differential depth event from the update stream. A quantity of zero
/// asks for the deletion of that price level.
#[derive(Debug, Clone)]
pub struct DepthEvent {
    pub symbol: String,
    pub first_update_id: u64,
    pub final_update_id: u64,
    pub event_time: u64,
    pub bids: Vec<PriceLevel>,
    pub asks: Vec<PriceLevel>,
}

impl DepthEvent {
    /// Update entries carry positive prices; quantities may be zero.
    pub open spec fn wf(&self) -> bool {
        &&& forall|j: int| 0 <= j < self.bids@.len() ==> (#[trigger] self.bids@[j]).price > 0
        &&& forall|j: int| 0 <= j < self.asks@.len() ==> (#[trigger] self.asks@[j]).price > 0
    }
}

/// The per-symbol replica of the exchange's limit order book.
#[derive(Debug, Clone)]
pub struct LocalOrderBook {
    pub first_event: bool,
    pub last_update_id: u64,
    pub event_time: u64,
    pub bids: Vec<PriceLevel>,
    pub asks: Vec<PriceLevel>,
}

impl LocalOrderBook {
    /// Bids strictly descending, asks strictly ascending, no zero quantities.
    pub open spec fn wf(&self) -> bool {
        &&& sorted_side(self.bids@, true)
        &&& sorted_side(self.asks@, false)
        &&& levels_wf(self.bids@)
        &&& levels_wf(self.asks@)
    }

    /// Whether two replicas agree field by field, the ladders compared by view.
    pub open spec fn same_book(&self, other: &LocalOrderBook) -> bool {
        &&& self.first_event == other.first_event
        &&& self.last_update_id == other.last_update_id
        &&& self.event_time == other.event_time
        &&& self.bids@ == other.bids@
        &&& self.asks@ == other.asks@
    }

    /// The reconcile check: which events may be applied to this replica.
    /// The first event after a seed may overlap the snapshot as long as it
    /// advances it; afterwards the stream must be gapless.
    pub open spec fn accepts(&self, event: &DepthEvent) -> bool {
        if self.first_event {
            event.first_update_id <= self.last_update_id + 1 && event.final_update_id
                > self.last_update_id
        } else {
            event.first_update_id == self.last_update_id + 1
        }
    }

    /// Replace the replica's content from a REST snapshot.
    pub fn seed(last_update_id: u64, bids: Vec<PriceLevel>, asks: Vec<PriceLevel>) -> (r:
        LocalOrderBook)
        requires
            sorted_side(bids@, true),
            sorted_side(asks@, false),
            levels_wf(bids@),
            levels_wf(asks@),
        ensures
            r.wf(),
            r.first_event,
            r.last_update_id == last_update_id,
            r.event_time == 0,
            r.bids == bids,
            r.asks == asks,
    {
        LocalOrderBook { first_event: true, last_update_id, event_time: 0, bids, asks }
    }

    /// An exact copy, usable where `clone` would say nothing of the result.
    pub fn duplicate(&self) -> (r: LocalOrderBook)
        ensures
            r.same_book(self),
    {
        LocalOrderBook {
            first_event: self.first_event,
            last_update_id: self.last_update_id,
            event_time: self.event_time,
            bids: copy_levels(&self.bids),
            asks: copy_levels(&self.asks),
        }
    }
}

/// An exact copy of a ladder.
pub fn copy_levels(v: &Vec<PriceLevel>) -> (r: Vec<PriceLevel>)
    ensures
        r@ == v@,
{
    let mut r: Vec<PriceLevel> = Vec::new();
    let mut i: usize = 0;
    while i < v.len()
        invariant
            i <= v@.len(),
            r@ =~= v@.subrange(0, i as int),
        decreases v@.len() - i,
    {
        r.push(v[i]);
        i = i + 1;
    }
    proof {
        assert(r@ =~= v@);
    }
    r
}

/// Apply an accepted event to the replica: edit both ladders and take over the
/// event's sequence number and timestamp.
pub fn update_local_order_book(event: &DepthEvent, lob: &mut LocalOrderBook)
    requires
        old(lob).wf(),
        event.wf(),
    ensures
        final(lob).wf(),
        !final(lob).first_event,
        final(lob).last_update_id == event.final_update_id,
        final(lob).event_time == event.event_time,
        book_map(final(lob).bids@) == apply_updates_map(book_map(old(lob).bids@), event.bids@),
        book_map(final(lob).asks@) == apply_updates_map(book_map(old(lob).asks@), event.asks@),
{
    lob.first_event = false;
    lob.last_update_id = event.final_update_id;
    lob.event_time = event.event_time;
    apply_side(&mut lob.bids, &event.bids, true);
    apply_side(&mut lob.asks, &event.asks, false);
}

/// Run one event through the reconcile check; apply it only when it is in
/// order, and leave the replica untouched otherwise.
pub fn process_event(event: &DepthEvent, lob: &mut LocalOrderBook) -> (applied: bool)
    requires
        old(lob).wf(),
        event.wf(),
    ensures
        final(lob).wf(),
        applied == old(lob).accepts(event),
        applied ==> {
            &&& !final(lob).first_event
            &&& final(lob).last_update_id == event.final_update_id
            &&& final(lob).event_time == event.event_time
            &&& book_map(final(lob).bids@) == apply_updates_map(
                book_map(old(lob).bids@),
                event.bids@,
            )
            &&& book_map(final(lob).asks@) == apply_updates_map(
                book_map(old(lob).asks@),
                event.asks@,
            )
        },
        !applied ==> *final(lob) == *old(lob),
{
    let ok = if lob.first_event {
        (event.first_update_id == 0 || event.first_update_id - 1 <= lob.last_update_id)
            && event.final_update_id > lob.last_update_id
    } else {
        event.first_update_id >= 1 && event.first_update_id - 1 == lob.last_update_id
    };
    if ok {
        update_local_order_book(event, lob);
    }
    ok
}

/// One symbol's replica, keyed by the exchange symbol.
#[derive(Debug, Clone)]
pub struct BookEntry {
    pub symbol: String,
    pub book: LocalOrderBook,
}

/// Owns the replica of every subscribed symbol and serves point-in-time
/// copies. The ingest and reconcile workers around it feed it snapshots and
/// stream events; it keeps each replica well formed and gapless.
#[derive(Debug)]
pub struct DepthCache {
    pub entries: Vec<BookEntry>,
}

impl DepthCache {
    /// Every replica is well formed and no symbol occurs twice.
    pub open spec fn wf(&self) -> bool {
        &&& forall|i: int|
            0 <= i < self.entries@.len() ==> (#[trigger] self.entries@[i]).book.wf()
        &&& forall|i: int, j: int|
            0 <= i < j < self.entries@.len() ==> (#[trigger] self.entries@[i]).symbol@ != (
            #[trigger] self.entries@[j]).symbol@
    }

    /// Whether the cache tracks a symbol.
    pub open spec fn has_symbol(&self, s: Seq<char>) -> bool {
        exists|i: int| 0 <= i < self.entries@.len() && (#[trigger] self.entries@[i]).symbol@ == s
    }

    /// The index of a tracked symbol's entry.
    pub open spec fn index_of(&self, s: Seq<char>) -> int {
        choose|i: int| 0 <= i < self.entries@.len() && (#[trigger] self.entries@[i]).symbol@ == s
    }

    /// The replica of a tracked symbol.
    pub open spec fn book_of(&self, s: Seq<char>) -> LocalOrderBook {
        self.entries@[self.index_of(s)].book
    }

    /// An empty cache; replicas arrive by [`DepthCache::seed_symbol`].
    pub fn new() -> (r: DepthCache)
        ensures
            r.wf(),
            r.entries@.len() == 0,
    {
        DepthCache { entries: Vec::new() }
    }

    /// Install (or replace) a symbol's replica from a REST snapshot.
    pub fn seed_symbol(
        &mut self,
        symbol: String,
        last_update_id: u64,
        bids: Vec<PriceLevel>,
        asks: Vec<PriceLevel>,
    )
        requires
            old(self).wf(),
            sorted_side(bids@, true),
            sorted_side(asks@, false),
            levels_wf(bids@),
            levels_wf(asks@),
        ensures
            final(self).wf(),
            final(self).has_symbol(symbol@),
            final(self).book_of(symbol@).first_event,
            final(self).book_of(symbol@).last_update_id == last_update_id,
            final(self).book_of(symbol@).event_time == 0,
            final(self).book_of(symbol@).bids@ == bids@,
            final(self).book_of(symbol@).asks@ == asks@,
            forall|s: Seq<char>|
                s != symbol@ ==> (#[trigger] final(self).has_symbol(s)) == old(self).has_symbol(s),
            forall|s: Seq<char>|
                s != symbol@ && old(self).has_symbol(s) ==> #[trigger] final(self).book_of(s)
                    == old(self).book_of(s),
    {
        let book = LocalOrderBook::seed(last_update_id, bids, asks);
        let ghost pre = *self;
        match self.find_index(symbol.as_str()) {
            Some(i) => {
                let entry = BookEntry { symbol, book };
                self.entries.remove(i);
                self.entries.insert(i, entry);
                proof {
                    assert(self.entries@ =~= pre.entries@.update(i as int, entry));
                    assert forall|s: Seq<char>|
                        s != entry.symbol@ && pre.has_symbol(s) implies #[trigger] self.book_of(s) == pre.book_of(s) by {
                        let j = pre.index_of(s);
                        assert(self.entries@[j].symbol@ == s);
                        assert(self.has_symbol(s));
                        let j2 = self.index_of(s);
                        assert(self.entries@[j2].symbol@ == s);
                        assert(pre.entries@[j2].symbol@ == s);
                        assert(j2 == j);
                    }
                    assert forall|s: Seq<char>|
                        s != entry.symbol@ implies (#[trigger] self.has_symbol(s)) == pre.has_symbol(s) by {
                        if pre.has_symbol(s) {
                            let j = pre.index_of(s);
                            assert(self.entries@[j].symbol@ == s);
                        }
                        if self.has_symbol(s) {
                            let j = self.index_of(s);
                            assert(pre.entries@[j].symbol@ == s);
                        }
                    }
                    let i2 = self.index_of(entry.symbol@);
                    assert(self.entries@[i as int].symbol@ == entry.symbol@);
                    assert(i2 == i as int);
                }
            },
            None => {
                let entry = BookEntry { symbol, book };
                self.entries.push(entry);
                proof {
                    let n = pre.entries@.len() as int;
                    assert(self.entries@[n] == entry);
                    assert forall|s: Seq<char>|
                        s != entry.symbol@ && pre.has_symbol(s) implies #[trigger] self.book_of(s) == pre.book_of(s) by {
                        let j = pre.index_of(s);
                        assert(self.entries@[j].symbol@ == s);
                        assert(self.has_symbol(s));
                        let j2 = self.index_of(s);
                        assert(self.entries@[j2].symbol@ == s);
                        assert(j2 < n);
                        assert(pre.entries@[j2].symbol@ == s);
                        assert(j2 == j);
                    }
                    assert forall|s: Seq<char>|
                        s != entry.symbol@ implies (#[trigger] self.has_symbol(s)) == pre.has_symbol(s) by {
                        if self.has_symbol(s) {
                            let j = self.index_of(s);
                            assert(j < n);
                            assert(pre.entries@[j].symbol@ == s);
                        }
                        if pre.has_symbol(s) {
                            let j = pre.index_of(s);
                            assert(self.entries@[j].symbol@ == s);
                        }
                    }
                    let i2 = self.index_of(entry.symbol@);
                    assert(self.entries@[n].symbol@ == entry.symbol@);
                    assert(i2 == n);
                }
            },
        }
    }

    /// Index of a symbol's entry, by linear scan.
    fn find_index(&self, symbol: &str) -> (r: Option<usize>)
        requires
            self.wf(),
        ensures
            match r {
                Some(i) => i < self.entries@.len() && self.entries@[i as int].symbol@ == symbol@
                    && self.has_symbol(symbol@) && self.index_of(symbol@) == i,
                None => !self.has_symbol(symbol@),
            },
    {
        let mut i: usize = 0;
        while i < self.entries.len()
            invariant
                self.wf(),
                i <= self.entries@.len(),
                forall|j: int| 0 <= j < i ==> (#[trigger] self.entries@[j]).symbol@ != symbol@,
            decreases self.entries@.len() - i,
        {
            if crate::str_eq(self.entries[i].symbol.as_str(), symbol) {
                proof {
                    assert(self.entries@[i as int].symbol@ == symbol@);
                    assert(self.has_symbol(symbol@));
                    let i2 = self.index_of(symbol@);
                    assert(0 <= i2 < self.entries@.len() && self.entries@[i2].symbol@ == symbol@);
                    if i2 < i as int {
                        assert(self.entries@[i2].symbol@ != self.entries@[i as int].symbol@);
                    } else if i2 > i as int {
                        assert(self.entries@[i as int].symbol@ != self.entries@[i2].symbol@);
                    }
                }
                return Some(i);
            }
            i = i + 1;
        }
        None
    }

    /// Run one stream event through the reconcile check of its symbol's
    /// replica. Returns whether the event was applied; an event for an
    /// untracked symbol is dropped.
    pub fn process_event(&mut self, event: &DepthEvent) -> (applied: bool)
        requires
            old(self).wf(),
            event.wf(),
        ensures
            final(self).wf(),
            !old(self).has_symbol(event.symbol@) ==> !applied && *final(self) == *old(self),
            old(self).has_symbol(event.symbol@) ==> {
                &&& applied == old(self).book_of(event.symbol@).accepts(event)
                &&& forall|s: Seq<char>|
                    (#[trigger] final(self).has_symbol(s)) == old(self).has_symbol(s)
                &&& forall|s: Seq<char>|
                    s != event.symbol@ && old(self).has_symbol(s) ==> #[trigger] final(self).book_of(
                        s,
                    ) == old(self).book_of(s)
                &&& !applied ==> *final(self) == *old(self)
                &&& applied ==> {
                    let pre = old(self).book_of(event.symbol@);
                    let post = final(self).book_of(event.symbol@);
                    &&& !post.first_event
                    &&& post.last_update_id == event.final_update_id
                    &&& post.event_time == event.event_time
                    &&& book_map(post.bids@) == apply_updates_map(book_map(pre.bids@), event.bids@)
                    &&& book_map(post.asks@) == apply_updates_map(book_map(pre.asks@), event.asks@)
                }
            },
    {
        let ghost pre = *self;
        match self.find_index(event.symbol.as_str()) {
            Some(i) => {
                let mut book = self.entries[i].book.duplicate();
                proof {
                    assert(pre.entries@[i as int].book.wf());
                    assert(book.wf());
                }
                let applied = process_event(event, &mut book);
                if applied {
                    let symbol = self.entries[i].symbol.clone();
                    let entry = BookEntry { symbol, book };
                    self.entries.remove(i);
                    self.entries.insert(i, entry);
                    proof {
                        assert(self.entries@ =~= pre.entries@.update(i as int, entry));
                        assert(entry.symbol@ == event.symbol@);
                        assert forall|s: Seq<char>|
                            (#[trigger] self.has_symbol(s)) == pre.has_symbol(s) by {
                            if pre.has_symbol(s) {
                                let j = pre.index_of(s);
                                assert(self.entries@[j].symbol@ == s);
                            }
                            if self.has_symbol(s) {
                                let j = self.index_of(s);
                                assert(pre.entries@[j].symbol@ == s);
                            }
                        }
                        assert forall|s: Seq<char>|
                            s != event.symbol@ && pre.has_symbol(s) implies #[trigger] self.book_of(s) == pre.book_of(s) by {
                            let j = pre.index_of(s);
                            assert(self.entries@[j].symbol@ == s);
                            let j2 = self.index_of(s);
                            assert(self.entries@[j2].symbol@ == s);
                            assert(pre.entries@[j2].symbol@ == s);
                            assert(j2 == j);
                        }
                        let i2 = self.index_of(event.symbol@);
                        assert(self.entries@[i as int].symbol@ == event.symbol@);
                        assert(i2 == i as int);
                        let bpre = pre.book_of(event.symbol@);
                        assert(pre.index_of(event.symbol@) == i as int);
                        assert(bpre == pre.entries@[i as int].book);
                        // The duplicate agrees with the stored book field by
                        // field, so the check and the update read the same data.
                        assert(book_map(bpre.bids@) == book_map(
                            pre.entries@[i as int].book.bids@,
                        ));
                    }
                }
                applied
            },
            None => false,
        }
    }

    /// A point-in-time copy of a symbol's replica, or `None` when the symbol
    /// is not tracked.
    pub fn get_depth(&self, symbol: &str) -> (r: Option<LocalOrderBook>)
        requires
            self.wf(),
        ensures
            match r {
                Some(book) => self.has_symbol(symbol@) && book.same_book(&self.book_of(symbol@)),
                None => !self.has_symbol(symbol@),
            },
    {
        match self.find_index(symbol) {
            Some(i) => Some(self.entries[i].book.duplicate()),
            None => None,
        }
    }
}

} // verus!

