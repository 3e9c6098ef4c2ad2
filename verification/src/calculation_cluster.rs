//! The arbitrage evaluator: walks the top of the three order books of a
//! triangular cycle over a sweep of starting notionals and reports the best
//! net return with the concrete per-leg quantities.
//!
//! One deliberate quirk of the buy walk: the held quote is reduced by the
//! whole level's notional even when the lot step lets only part of it be
//! bought, which under-counts the purchasable quote and makes the estimate
//! conservative.

use crate::config::Configuration;
use crate::depth_cache::DepthCache;
use crate::depth_cache::LocalOrderBook;
use crate::depth_cache::PriceLevel;
use crate::depth_cache::levels_wf;
use crate::fixed::SCALE;
use crate::fixed::add_capped;
use crate::fixed::add_sat;
use crate::fixed::fee_multiplier_cubed;
use crate::fixed::floor_to_step;
use crate::fixed::fp_div;
use crate::fixed::fp_mul;
use crate::fixed::profit_ratio;
use crate::fixed::spec_add_capped;
use crate::fixed::spec_add_sat;
use crate::fixed::spec_fee_multiplier_cubed;
use crate::fixed::spec_floor_u64;
use crate::fixed::spec_fp_div;
use crate::fixed::spec_fp_mul;
use crate::fixed::spec_profit_ratio;
use crate::fixed::spec_sub_sat;
use crate::fixed::sub_sat;
use crate::trading_pair::TradingPair;
use crate::triangular_relationship::TriangularRelationship;
use vstd::prelude::*;

verus! {

/// Base quantity acquired by walking the ask ladder with `h` quote to spend:
/// at each level the affordable step-floored amount is taken if the level
/// covers it, else the level's own step-floored quantity, and the held quote
/// is reduced by the whole level's notional.
pub open spec fn spec_buy_walk(levels: Seq<PriceLevel>, h: u64, step: u64, acc: u64) -> u64
    decreases levels.len(),
{
    if h == 0 || levels.len() == 0 {
        acc
    } else {
        let l = levels[0];
        let want = spec_floor_u64(spec_fp_div(h, l.price), step);
        let got = if l.qty >= want {
            want
        } else {
            spec_floor_u64(l.qty, step)
        };
        let acc2 = spec_add_capped(acc, got, step);
        let h2 = spec_sub_sat(h, spec_fp_mul(l.qty, l.price));
        spec_buy_walk(levels.drop_first(), h2, step, acc2)
    }
}

/// Quote quantity gained by walking the bid ladder with `h` base to sell:
/// each level pays price times the step-floored amount it absorbs.
pub open spec fn spec_sell_walk(levels: Seq<PriceLevel>, h: u64, step: u64, acc: u64) -> u64
    decreases levels.len(),
{
    if h == 0 || levels.len() == 0 {
        acc
    } else {
        let l = levels[0];
        let got = if l.qty >= h {
            spec_fp_mul(spec_floor_u64(h, step), l.price)
        } else {
            spec_fp_mul(spec_floor_u64(l.qty, step), l.price)
        };
        let acc2 = spec_add_sat(acc, got);
        let h2 = spec_sub_sat(h, l.qty);
        spec_sell_walk(levels.drop_first(), h2, step, acc2)
    }
}

/// Walk the ask ladder buying base with `h` quote.
pub fn walk_buy(levels: &Vec<PriceLevel>, h: u64, step: u64) -> (acc: u64)
    requires
        step > 0,
        levels_wf(levels@),
    ensures
        acc == spec_buy_walk(levels@, h, step, 0),
        acc as int % step as int == 0,
{
    proof {
        assert(levels@.skip(0) =~= levels@);
        vstd::arithmetic::div_mod::lemma_small_mod(0, step as nat);
    }
    let ghost h0 = h;
    let mut acc: u64 = 0;
    let mut h = h;
    let mut i: usize = 0;
    while i < levels.len() && h > 0
        invariant
            step > 0,
            levels_wf(levels@),
            i <= levels@.len(),
            acc as int % step as int == 0,
            spec_buy_walk(levels@.skip(i as int), h, step, acc) == spec_buy_walk(
                levels@,
                h0,
                step,
                0,
            ),
        decreases levels@.len() - i,
    {
        let l = levels[i];
        proof {
            let rest = levels@.skip(i as int);
            assert(rest[0] == levels@[i as int]);
            assert(rest.drop_first() =~= levels@.skip(i as int + 1));
        }
        let want = floor_to_step(fp_div(h, l.price), step);
        let got = if l.qty >= want {
            want
        } else {
            floor_to_step(l.qty, step)
        };
        acc = add_capped(acc, got, step);
        h = sub_sat(h, fp_mul(l.qty, l.price));
        i = i + 1;
    }
    proof {
        if h != 0 {
            assert(levels@.skip(i as int).len() == 0);
        }
    }
    acc
}

/// Walk the bid ladder selling `h` base for quote.
pub fn walk_sell(levels: &Vec<PriceLevel>, h: u64, step: u64) -> (acc: u64)
    requires
        step > 0,
        levels_wf(levels@),
    ensures
        acc == spec_sell_walk(levels@, h, step, 0),
{
    proof {
        assert(levels@.skip(0) =~= levels@);
    }
    let ghost h0 = h;
    let mut acc: u64 = 0;
    let mut h = h;
    let mut i: usize = 0;
    while i < levels.len() && h > 0
        invariant
            step > 0,
            levels_wf(levels@),
            i <= levels@.len(),
            spec_sell_walk(levels@.skip(i as int), h, step, acc) == spec_sell_walk(
                levels@,
                h0,
                step,
                0,
            ),
        decreases levels@.len() - i,
    {
        let l = levels[i];
        proof {
            let rest = levels@.skip(i as int);
            assert(rest[0] == levels@[i as int]);
            assert(rest.drop_first() =~= levels@.skip(i as int + 1));
        }
        let got = if l.qty >= h {
            fp_mul(floor_to_step(h, step), l.price)
        } else {
            fp_mul(floor_to_step(l.qty, step), l.price)
        };
        acc = add_sat(acc, got);
        h = sub_sat(h, l.qty);
        i = i + 1;
    }
    proof {
        if h != 0 {
            assert(levels@.skip(i as int).len() == 0);
        }
    }
    acc
}

/// One leg of a deal: the pair, the side taken, and the step-aligned
/// quantity.
#[derive(Debug, Clone)]
pub struct Action {
    pub pair: TradingPair,
    pub action: String,
    pub quantity: u64,
}

/// Whether two actions agree field by field.
pub open spec fn same_action(a: &Action, b: &Action) -> bool {
    &&& a.pair.same_pair(&b.pair)
    &&& a.action == b.action
    &&& a.quantity == b.quantity
}

impl Action {
    pub fn new(pair: TradingPair, action: String, quantity: u64) -> (r: Action)
        ensures
            r.pair == pair,
            r.action == action,
            r.quantity == quantity,
    {
        Action { pair, action, quantity }
    }

    pub fn get_pair(&self) -> (r: TradingPair)
        ensures
            r.same_pair(&self.pair),
    {
        self.pair.duplicate()
    }

    pub fn get_action(&self) -> (r: String)
        ensures
            r == self.action,
    {
        self.action.clone()
    }

    pub fn get_quantity(&self) -> (r: u64)
        ensures
            r == self.quantity,
    {
        self.quantity
    }

    /// An exact copy, usable where `clone` would say nothing of the result.
    pub fn duplicate(&self) -> (r: Action)
        ensures
            same_action(&r, self),
    {
        Action {
            pair: self.pair.duplicate(),
            action: self.action.clone(),
            quantity: self.quantity,
        }
    }
}

/// The evaluator's verdict on one cycle: the best net return over the sweep,
/// the age of the book data it used, and the three legs to execute.
#[derive(Debug, Clone)]
pub struct Deal {
    /// Net fractional return in fixed-point ticks; `-SCALE` means a total
    /// loss and is the starting value before any sweep entry is scored.
    pub profit: i128,
    pub timestamp: u64,
    pub actions: Vec<Action>,
}

impl Deal {
    pub fn new() -> (r: Deal)
        ensures
            r.profit as int == -(SCALE as int),
            r.timestamp == 0,
            r.actions@.len() == 0,
    {
        Deal { profit: -(SCALE as i128), timestamp: 0, actions: Vec::new() }
    }

    pub fn add_action(&mut self, pair: TradingPair, action: String, quantity: u64)
        ensures
            final(self).profit == old(self).profit,
            final(self).timestamp == old(self).timestamp,
            final(self).actions@ == old(self).actions@.push(
                (Action { pair, action, quantity }),
            ),
    {
        self.actions.push(Action::new(pair, action, quantity))
    }

    pub fn get_actions(&self) -> (r: Vec<Action>)
        ensures
            r@.len() == self.actions@.len(),
            forall|i: int|
                0 <= i < r@.len() ==> same_action(&(#[trigger] r@[i]), &self.actions@[i]),
    {
        let mut r: Vec<Action> = Vec::new();
        let mut i: usize = 0;
        while i < self.actions.len()
            invariant
                i <= self.actions@.len(),
                r@.len() == i,
                forall|j: int|
                    0 <= j < i ==> same_action(&(#[trigger] r@[j]), &self.actions@[j]),
            decreases self.actions@.len() - i,
        {
            r.push(self.actions[i].duplicate());
            i = i + 1;
        }
        r
    }

    pub fn set_profit(&mut self, profit: i128)
        ensures
            final(self).profit == profit,
            final(self).timestamp == old(self).timestamp,
            final(self).actions@ == old(self).actions@,
    {
        self.profit = profit
    }

    pub fn get_profit(&self) -> (r: i128)
        ensures
            r == self.profit,
    {
        self.profit
    }

    pub fn set_timestamp(&mut self, timestamp: u64)
        ensures
            final(self).timestamp == timestamp,
            final(self).profit == old(self).profit,
            final(self).actions@ == old(self).actions@,
    {
        self.timestamp = timestamp
    }

    pub fn get_timestamp(&self) -> (r: u64)
        ensures
            r == self.timestamp,
    {
        self.timestamp
    }
}

/// Whether an action string asks for a buy; anything else sells, as in the
/// action vectors the builder derives.
pub open spec fn spec_is_buy(action: Seq<char>) -> bool {
    action == "BUY"@
}

/// The quantity held after one hop: base bought from the asks on a buy,
/// quote gained from the bids on a sell.
pub open spec fn spec_hop_out(
    asks: Seq<PriceLevel>,
    bids: Seq<PriceLevel>,
    action: Seq<char>,
    h: u64,
    step: u64,
) -> u64 {
    if spec_is_buy(action) {
        spec_buy_walk(asks, h, step, 0)
    } else {
        spec_sell_walk(bids, h, step, 0)
    }
}

/// The quantity the hop's order is recorded with: what the buy acquired, or
/// the step-floored amount the sell offers.
pub open spec fn spec_hop_qty(
    asks: Seq<PriceLevel>,
    bids: Seq<PriceLevel>,
    action: Seq<char>,
    h: u64,
    step: u64,
) -> u64 {
    if spec_is_buy(action) {
        spec_buy_walk(asks, h, step, 0)
    } else {
        spec_floor_u64(h, step)
    }
}

/// Simulate one hop; returns the held quantity after it and the quantity its
/// order is recorded with.
fn simulate_hop(book: &LocalOrderBook, action: &String, h: u64, step: u64) -> (r: (u64, u64))
    requires
        step > 0,
        book.wf(),
    ensures
        r.0 == spec_hop_out(book.asks@, book.bids@, action@, h, step),
        r.1 == spec_hop_qty(book.asks@, book.bids@, action@, h, step),
        r.1 as int % step as int == 0,
{
    if crate::str_eq(action.as_str(), "BUY") {
        let out = walk_buy(&book.asks, h, step);
        (out, out)
    } else {
        let rec = floor_to_step(h, step);
        let out = walk_sell(&book.bids, h, step);
        (out, rec)
    }
}

/// The smallest of three timestamps.
pub open spec fn spec_min3(a: u64, b: u64, c: u64) -> u64 {
    if a <= b && a <= c {
        a
    } else if b <= c {
        b
    } else {
        c
    }
}

fn min3(a: u64, b: u64, c: u64) -> (r: u64)
    ensures
        r == spec_min3(a, b, c),
{
    if a <= b && a <= c {
        a
    } else if b <= c {
        b
    } else {
        c
    }
}

/// The quantity held after walking the whole cycle with starting notional
/// `n`; `ak`/`bd` are the ask and bid ladders of the three books in leg
/// order.
pub open spec fn spec_cycle_out(
    rel: TriangularRelationship,
    ak0: Seq<PriceLevel>,
    bd0: Seq<PriceLevel>,
    ak1: Seq<PriceLevel>,
    bd1: Seq<PriceLevel>,
    ak2: Seq<PriceLevel>,
    bd2: Seq<PriceLevel>,
    n: u64,
) -> u64 {
    let h1 = spec_hop_out(ak0, bd0, rel.actions@[0]@, n, rel.start.step);
    let h2 = spec_hop_out(ak1, bd1, rel.actions@[1]@, h1, rel.middle.step);
    spec_hop_out(ak2, bd2, rel.actions@[2]@, h2, rel.end.step)
}

/// The net return of the cycle at starting notional `n`, after the cubed fee
/// multiplier `m3`.
pub open spec fn spec_profit_n(
    rel: TriangularRelationship,
    ak0: Seq<PriceLevel>,
    bd0: Seq<PriceLevel>,
    ak1: Seq<PriceLevel>,
    bd1: Seq<PriceLevel>,
    ak2: Seq<PriceLevel>,
    bd2: Seq<PriceLevel>,
    m3: u64,
    n: u64,
) -> int {
    spec_profit_ratio(spec_fp_mul(spec_cycle_out(rel, ak0, bd0, ak1, bd1, ak2, bd2, n), m3), n)
}

/// The starting notional of sweep index `t`.
pub open spec fn spec_notional(t: int, inv_step: u64) -> u64 {
    (t * inv_step) as u64
}

/// The sweep fold from notional index `idx` to `hi`, carrying the best return
/// so far and its index (`-1` when none was scored yet). A tie falls to the
/// later, larger notional; an index whose notional is zero is not scored.
pub open spec fn spec_sweep(
    rel: TriangularRelationship,
    ak0: Seq<PriceLevel>,
    bd0: Seq<PriceLevel>,
    ak1: Seq<PriceLevel>,
    bd1: Seq<PriceLevel>,
    ak2: Seq<PriceLevel>,
    bd2: Seq<PriceLevel>,
    m3: u64,
    inv_step: u64,
    idx: int,
    hi: int,
    best: int,
    best_idx: int,
) -> (int, int)
    decreases hi - idx + 1,
{
    if idx > hi {
        (best, best_idx)
    } else {
        let n = (idx * inv_step) as u64;
        let p = spec_profit_n(rel, ak0, bd0, ak1, bd1, ak2, bd2, m3, n);
        if n > 0 && p >= best {
            spec_sweep(rel, ak0, bd0, ak1, bd1, ak2, bd2, m3, inv_step, idx + 1, hi, p, idx)
        } else {
            spec_sweep(
                rel,
                ak0,
                bd0,
                ak1,
                bd1,
                ak2,
                bd2,
                m3,
                inv_step,
                idx + 1,
                hi,
                best,
                best_idx,
            )
        }
    }
}

/// The sweep's result is the greatest scored return (and at least what it
/// started from).
pub proof fn lemma_sweep_bounds(
    rel: TriangularRelationship,
    ak0: Seq<PriceLevel>,
    bd0: Seq<PriceLevel>,
    ak1: Seq<PriceLevel>,
    bd1: Seq<PriceLevel>,
    ak2: Seq<PriceLevel>,
    bd2: Seq<PriceLevel>,
    m3: u64,
    inv_step: u64,
    idx: int,
    hi: int,
    best: int,
    best_idx: int,
)
    ensures
        spec_sweep(rel, ak0, bd0, ak1, bd1, ak2, bd2, m3, inv_step, idx, hi, best, best_idx).0
            >= best,
        forall|t: int|
            idx <= t <= hi && #[trigger] spec_notional(t, inv_step) > 0 ==> spec_profit_n(
                rel,
                ak0,
                bd0,
                ak1,
                bd1,
                ak2,
                bd2,
                m3,
                spec_notional(t, inv_step),
            ) <= spec_sweep(
                rel,
                ak0,
                bd0,
                ak1,
                bd1,
                ak2,
                bd2,
                m3,
                inv_step,
                idx,
                hi,
                best,
                best_idx,
            ).0,
    decreases hi - idx + 1,
{
    if idx <= hi {
        let n = (idx * inv_step) as u64;
        let p = spec_profit_n(rel, ak0, bd0, ak1, bd1, ak2, bd2, m3, n);
        if n > 0 && p >= best {
            lemma_sweep_bounds(
                rel,
                ak0,
                bd0,
                ak1,
                bd1,
                ak2,
                bd2,
                m3,
                inv_step,
                idx + 1,
                hi,
                p,
                idx,
            );
        } else {
            lemma_sweep_bounds(
                rel,
                ak0,
                bd0,
                ak1,
                bd1,
                ak2,
                bd2,
                m3,
                inv_step,
                idx + 1,
                hi,
                best,
                best_idx,
            );
        }
    }
}

/// Owns the cycle set, the depth cache, and the settings, and scores cycles.
/// The control loop around it, order placement, and notification are I/O and
/// live outside the library.
#[derive(Debug)]
pub struct CalculationCluster {
    pub relationships: Vec<crate::triangular_relationship::RelEntry>,
    pub depth_cache: DepthCache,
    pub config: Configuration,
}

impl CalculationCluster {
    pub open spec fn wf(&self) -> bool {
        &&& self.config.wf()
        &&& self.depth_cache.wf()
    }

    pub fn new(
        relationships: Vec<crate::triangular_relationship::RelEntry>,
        depth_cache: DepthCache,
        config: Configuration,
    ) -> (r: CalculationCluster)
        ensures
            r.relationships == relationships,
            r.depth_cache == depth_cache,
            r.config == config,
    {
        CalculationCluster { relationships, depth_cache, config }
    }

    /// Score one cycle: sweep the starting notional from `investment_min` to
    /// `investment_max` in steps of `investment_step`, simulate the three
    /// hops at each notional, and keep the legs of the best net return, ties
    /// falling to the later notional. The deal's timestamp is the oldest of
    /// the three books used.
    pub fn calculate_relationship(&self, relationship: &TriangularRelationship) -> (deal: Deal)
        requires
            self.wf(),
            relationship.start.step > 0,
            relationship.middle.step > 0,
            relationship.end.step > 0,
            self.depth_cache.has_symbol(relationship.start.symbol@),
            self.depth_cache.has_symbol(relationship.middle.symbol@),
            self.depth_cache.has_symbol(relationship.end.symbol@),
        ensures
            ({
                let b0 = self.depth_cache.book_of(relationship.start.symbol@);
                let b1 = self.depth_cache.book_of(relationship.middle.symbol@);
                let b2 = self.depth_cache.book_of(relationship.end.symbol@);
                let m3 = spec_fee_multiplier_cubed(self.config.trading_taker_fee);
                let lo = self.config.investment_min as int / self.config.investment_step as int;
                let hi = self.config.investment_max as int / self.config.investment_step as int;
                &&& (lo > hi ==> {
                    &&& deal.profit as int == -(SCALE as int)
                    &&& deal.timestamp == u64::MAX
                    &&& deal.actions@.len() == 0
                })
                &&& (lo <= hi ==> {
                    let r = spec_sweep(
                        *relationship,
                        b0.asks@,
                        b0.bids@,
                        b1.asks@,
                        b1.bids@,
                        b2.asks@,
                        b2.bids@,
                        m3,
                        self.config.investment_step,
                        lo,
                        hi,
                        -(SCALE as int),
                        -1,
                    );
                    &&& deal.profit as int == r.0
                    &&& deal.timestamp == spec_min3(b0.event_time, b1.event_time, b2.event_time)
                    &&& (r.1 == -1 ==> deal.actions@.len() == 0)
                    &&& (r.1 >= 0 ==> {
                        let n = ((r.1 * self.config.investment_step) as u64);
                        let h1 = spec_hop_out(
                            b0.asks@,
                            b0.bids@,
                            relationship.actions@[0]@,
                            n,
                            relationship.start.step,
                        );
                        let h2 = spec_hop_out(
                            b1.asks@,
                            b1.bids@,
                            relationship.actions@[1]@,
                            h1,
                            relationship.middle.step,
                        );
                        &&& deal.actions@.len() == 3
                        &&& deal.actions@[0].pair.same_pair(&relationship.start)
                        &&& deal.actions@[0].action == relationship.actions@[0]
                        &&& deal.actions@[0].quantity == spec_hop_qty(
                            b0.asks@,
                            b0.bids@,
                            relationship.actions@[0]@,
                            n,
                            relationship.start.step,
                        )
                        &&& deal.actions@[1].pair.same_pair(&relationship.middle)
                        &&& deal.actions@[1].action == relationship.actions@[1]
                        &&& deal.actions@[1].quantity == spec_hop_qty(
                            b1.asks@,
                            b1.bids@,
                            relationship.actions@[1]@,
                            h1,
                            relationship.middle.step,
                        )
                        &&& deal.actions@[2].pair.same_pair(&relationship.end)
                        &&& deal.actions@[2].action == relationship.actions@[2]
                        &&& deal.actions@[2].quantity == spec_hop_qty(
                            b2.asks@,
                            b2.bids@,
                            relationship.actions@[2]@,
                            h2,
                            relationship.end.step,
                        )
                    })
                    &&& (forall|t: int|
                        lo <= t <= hi && #[trigger] spec_notional(
                            t,
                            self.config.investment_step,
                        ) > 0 ==> spec_profit_n(
                            *relationship,
                            b0.asks@,
                            b0.bids@,
                            b1.asks@,
                            b1.bids@,
                            b2.asks@,
                            b2.bids@,
                            m3,
                            spec_notional(t, self.config.investment_step),
                        ) <= deal.profit as int)
                })
            }),
            forall|t: int|
                0 <= t < deal.actions@.len() ==> (#[trigger] deal.actions@[t]).quantity as int
                    % deal.actions@[t].pair.step as int == 0,
    {
        let b0 = match self.depth_cache.get_depth(relationship.start.symbol.as_str()) {
            Some(b) => b,
            None => {
                proof {
                    assert(false);
                }
                LocalOrderBook::seed(0, Vec::new(), Vec::new())
            },
        };
        let b1 = match self.depth_cache.get_depth(relationship.middle.symbol.as_str()) {
            Some(b) => b,
            None => {
                proof {
                    assert(false);
                }
                LocalOrderBook::seed(0, Vec::new(), Vec::new())
            },
        };
        let b2 = match self.depth_cache.get_depth(relationship.end.symbol.as_str()) {
            Some(b) => b,
            None => {
                proof {
                    assert(false);
                }
                LocalOrderBook::seed(0, Vec::new(), Vec::new())
            },
        };
        proof {
            let i0 = self.depth_cache.index_of(relationship.start.symbol@);
            assert(self.depth_cache.entries@[i0].book.wf());
            let i1 = self.depth_cache.index_of(relationship.middle.symbol@);
            assert(self.depth_cache.entries@[i1].book.wf());
            let i2 = self.depth_cache.index_of(relationship.end.symbol@);
            assert(self.depth_cache.entries@[i2].book.wf());
            assert(b0.wf());
            assert(b1.wf());
            assert(b2.wf());
        }
        let m3 = fee_multiplier_cubed(self.config.trading_taker_fee);
        let inv_step = self.config.investment_step;
        let min_idx = self.config.investment_min / inv_step;
        let max_idx = self.config.investment_max / inv_step;
        let s0 = relationship.start.get_step();
        let s1 = relationship.middle.get_step();
        let s2 = relationship.end.get_step();

        let mut results = Deal::new();
        if min_idx > max_idx {
            results.set_timestamp(u64::MAX);
            return results;
        }
        let ghost gb0 = self.depth_cache.book_of(relationship.start.symbol@);
        let ghost gb1 = self.depth_cache.book_of(relationship.middle.symbol@);
        let ghost gb2 = self.depth_cache.book_of(relationship.end.symbol@);
        let ghost lo = min_idx as int;
        let ghost hi = max_idx as int;
        let mut best: i128 = -(SCALE as i128);
        let ghost mut gbi: int = -1;
        let mut best_qs: Option<(u64, u64, u64)> = None;
        let mut idx: u64 = min_idx;
        proof {
            vstd::arithmetic::div_mod::lemma_fundamental_div_mod(
                self.config.investment_max as int,
                inv_step as int,
            );
            vstd::arithmetic::div_mod::lemma_mod_division_less_than_divisor(
                self.config.investment_max as int,
                inv_step as int,
            );
            vstd::arithmetic::mul::lemma_mul_is_commutative(hi, inv_step as int);
        }
        loop
            invariant
                min_idx <= idx <= max_idx,
                lo == min_idx as int,
                hi == max_idx as int,
                inv_step == self.config.investment_step,
                inv_step > 0,
                hi * inv_step <= self.config.investment_max,
                s0 == relationship.start.step,
                s1 == relationship.middle.step,
                s2 == relationship.end.step,
                s0 > 0,
                s1 > 0,
                s2 > 0,
                b0.wf(),
                b1.wf(),
                b2.wf(),
                b0.asks@ == gb0.asks@,
                b0.bids@ == gb0.bids@,
                b1.asks@ == gb1.asks@,
                b1.bids@ == gb1.bids@,
                b2.asks@ == gb2.asks@,
                b2.bids@ == gb2.bids@,
                m3 == spec_fee_multiplier_cubed(self.config.trading_taker_fee),
                spec_sweep(
                    *relationship,
                    gb0.asks@,
                    gb0.bids@,
                    gb1.asks@,
                    gb1.bids@,
                    gb2.asks@,
                    gb2.bids@,
                    m3,
                    inv_step,
                    idx as int,
                    hi,
                    best as int,
                    gbi,
                ) == spec_sweep(
                    *relationship,
                    gb0.asks@,
                    gb0.bids@,
                    gb1.asks@,
                    gb1.bids@,
                    gb2.asks@,
                    gb2.bids@,
                    m3,
                    inv_step,
                    lo,
                    hi,
                    -(SCALE as int),
                    -1,
                ),
                -1 <= gbi,
                -1 <= gbi,
                gbi == -1 <==> best_qs is None,
                gbi >= 0 ==> {
                    let n = ((gbi * inv_step) as u64);
                    let h1 = spec_hop_out(
                        gb0.asks@,
                        gb0.bids@,
                        relationship.actions@[0]@,
                        n,
                        s0,
                    );
                    let h2 = spec_hop_out(
                        gb1.asks@,
                        gb1.bids@,
                        relationship.actions@[1]@,
                        h1,
                        s1,
                    );
                    &&& best_qs matches Some((q0, q1, q2)) && q0 == spec_hop_qty(
                        gb0.asks@,
                        gb0.bids@,
                        relationship.actions@[0]@,
                        n,
                        s0,
                    ) && q1 == spec_hop_qty(
                        gb1.asks@,
                        gb1.bids@,
                        relationship.actions@[1]@,
                        h1,
                        s1,
                    ) && q2 == spec_hop_qty(
                        gb2.asks@,
                        gb2.bids@,
                        relationship.actions@[2]@,
                        h2,
                        s2,
                    ) && q0 as int % s0 as int == 0 && q1 as int % s1 as int == 0 && q2 as int
                        % s2 as int == 0
                },
            ensures
                (best as int, gbi) == spec_sweep(
                    *relationship,
                    gb0.asks@,
                    gb0.bids@,
                    gb1.asks@,
                    gb1.bids@,
                    gb2.asks@,
                    gb2.bids@,
                    m3,
                    inv_step,
                    lo,
                    hi,
                    -(SCALE as int),
                    -1,
                ),
                gbi == -1 <==> best_qs is None,
                gbi >= 0 ==> {
                    let n = ((gbi * inv_step) as u64);
                    let h1 = spec_hop_out(
                        gb0.asks@,
                        gb0.bids@,
                        relationship.actions@[0]@,
                        n,
                        s0,
                    );
                    let h2 = spec_hop_out(
                        gb1.asks@,
                        gb1.bids@,
                        relationship.actions@[1]@,
                        h1,
                        s1,
                    );
                    &&& best_qs matches Some((q0, q1, q2)) && q0 == spec_hop_qty(
                        gb0.asks@,
                        gb0.bids@,
                        relationship.actions@[0]@,
                        n,
                        s0,
                    ) && q1 == spec_hop_qty(
                        gb1.asks@,
                        gb1.bids@,
                        relationship.actions@[1]@,
                        h1,
                        s1,
                    ) && q2 == spec_hop_qty(
                        gb2.asks@,
                        gb2.bids@,
                        relationship.actions@[2]@,
                        h2,
                        s2,
                    ) && q0 as int % s0 as int == 0 && q1 as int % s1 as int == 0 && q2 as int
                        % s2 as int == 0
                },
            decreases max_idx - idx,
        {
            proof {
                vstd::arithmetic::mul::lemma_mul_inequality(idx as int, hi, inv_step as int);
                vstd::arithmetic::mul::lemma_mul_is_commutative(idx as int, inv_step as int);
            }
            let ghost best0 = best as int;
            let ghost gbi0 = gbi;
            let n = idx * inv_step;
            proof {
                assert(n == spec_notional(idx as int, inv_step));
            }
            if n > 0 {
                let (h1, q0) = simulate_hop(&b0, &relationship.actions[0], n, s0);
                let (h2, q1) = simulate_hop(&b1, &relationship.actions[1], h1, s1);
                let (h3, q2) = simulate_hop(&b2, &relationship.actions[2], h2, s2);
                let gross = fp_mul(h3, m3);
                let profit = profit_ratio(gross, n);
                proof {
                    assert(h3 == spec_cycle_out(
                        *relationship,
                        gb0.asks@,
                        gb0.bids@,
                        gb1.asks@,
                        gb1.bids@,
                        gb2.asks@,
                        gb2.bids@,
                        n,
                    ));
                    assert(profit as int == spec_profit_n(
                        *relationship,
                        gb0.asks@,
                        gb0.bids@,
                        gb1.asks@,
                        gb1.bids@,
                        gb2.asks@,
                        gb2.bids@,
                        m3,
                        n,
                    ));
                }
                if profit >= best {
                    best = profit;
                    best_qs = Some((q0, q1, q2));
                    proof {
                        gbi = idx as int;
                    }
                }
            }
            proof {
                assert(spec_sweep(
                    *relationship,
                    gb0.asks@,
                    gb0.bids@,
                    gb1.asks@,
                    gb1.bids@,
                    gb2.asks@,
                    gb2.bids@,
                    m3,
                    inv_step,
                    idx as int,
                    hi,
                    best0,
                    gbi0,
                ) == spec_sweep(
                    *relationship,
                    gb0.asks@,
                    gb0.bids@,
                    gb1.asks@,
                    gb1.bids@,
                    gb2.asks@,
                    gb2.bids@,
                    m3,
                    inv_step,
                    idx as int + 1,
                    hi,
                    best as int,
                    gbi,
                ));
            }
            if idx == max_idx {
                break ;
            }
            idx = idx + 1;
        }
        let lowest = min3(b0.event_time, b1.event_time, b2.event_time);
        match best_qs {
            Some((q0, q1, q2)) => {
                results.add_action(
                    relationship.start.duplicate(),
                    relationship.actions[0].clone(),
                    q0,
                );
                results.add_action(
                    relationship.middle.duplicate(),
                    relationship.actions[1].clone(),
                    q1,
                );
                results.add_action(
                    relationship.end.duplicate(),
                    relationship.actions[2].clone(),
                    q2,
                );
            },
            None => {},
        }
        results.set_profit(best);
        results.set_timestamp(lowest);
        proof {
            if results.actions@.len() == 3 {
                assert(results.actions@[0].quantity as int % results.actions@[0].pair.step as int
                    == 0);
                assert(results.actions@[1].quantity as int % results.actions@[1].pair.step as int
                    == 0);
                assert(results.actions@[2].quantity as int % results.actions@[2].pair.step as int
                    == 0);
            }
            lemma_sweep_bounds(
                *relationship,
                gb0.asks@,
                gb0.bids@,
                gb1.asks@,
                gb1.bids@,
                gb2.asks@,
                gb2.bids@,
                m3,
                inv_step,
                lo,
                hi,
                -(SCALE as int),
                -1,
            );
        }
        results
    }
}


/// The admission rule the control loop applies before acting on a deal: the net return
/// reaches the configured percentage threshold and the book data behind the
/// deal is fresh; a timestamp in the future counts as stale.
pub open spec fn spec_accept_deal(
    profit: i128,
    timestamp: u64,
    now_ms: u64,
    threshold: u64,
    age: u64,
) -> bool {
    &&& profit * 100 >= threshold
    &&& timestamp <= now_ms
    &&& now_ms - timestamp <= age
}

impl CalculationCluster {
    /// Decide whether a deal passes the profit and freshness rules.
    pub fn accept_deal(&self, deal: &Deal, now_ms: u64) -> (r: bool)
        ensures
            r == spec_accept_deal(
                deal.profit,
                deal.timestamp,
                now_ms,
                self.config.trading_profit_threshold,
                self.config.trading_age_threshold,
            ),
    {
        let t = self.config.trading_profit_threshold;
        let thr_ceil: u64 = t / 100 + (if t % 100 == 0 {
            0
        } else {
            1
        });
        let profit_ok = deal.profit >= thr_ceil as i128;
        proof {
            assert(profit_ok == (deal.profit * 100 >= t)) by {
                vstd::arithmetic::div_mod::lemma_fundamental_div_mod(t as int, 100);
                vstd::arithmetic::div_mod::lemma_mod_division_less_than_divisor(t as int, 100);
                assert((deal.profit as int >= thr_ceil as int) == (deal.profit as int * 100
                    >= t as int)) by (nonlinear_arith)
                    requires
                        thr_ceil as int == t as int / 100 + (if t as int % 100 == 0 {
                            0int
                        } else {
                            1int
                        }),
                        t as int == 100 * (t as int / 100) + t as int % 100,
                        0 <= t as int % 100 < 100,
                ;
            }
        }
        profit_ok && deal.timestamp <= now_ms && now_ms - deal.timestamp
            <= self.config.trading_age_threshold
    }

    /// Whether the execution cap still allows a deal; a cap of `-1` never
    /// runs out.
    pub fn can_execute(&self, execution_count: i32) -> (r: bool)
        ensures
            r == (execution_count < self.config.trading_execution_cap
                || self.config.trading_execution_cap == -1),
    {
        execution_count < self.config.trading_execution_cap || self.config.trading_execution_cap
            == -1
    }
}

/// Whether an order-status report says the leg is done: the executor polls
/// until the exchange reports the order filled.
pub fn order_filled(status: &str) -> (r: bool)
    ensures
        r == (status@ == "FILLED"@),
{
    crate::str_eq(status, "FILLED")
}
} // verus!
