//! A spot market between two assets, with the lot step of its base asset.
//!
//! Two pairs are equal when they join the same two assets, whichever side is
//! quoted as base on each: `A/B == B/A`. The directed roles are still kept so
//! that prices can be read the right way round.

use crate::depth_cache::PriceLevel;
use vstd::prelude::*;
use vstd::string::StringExecFns;

verus! {

#[derive(Debug, Clone)]
pub struct TradingPair {
    pub symbol: String,
    pub base_asset: String,
    pub quote_asset: String,
    /// Minimum tradable increment of the base asset, in fixed-point ticks.
    pub step: u64,
    pub initialized: bool,
    pub asks: Vec<PriceLevel>,
    pub bids: Vec<PriceLevel>,
    /// Milliseconds since the epoch of the latest book update.
    pub timestamp: u64,
}

impl TradingPair {
    /// A pair joins two distinct assets and has a positive lot step.
    pub open spec fn wf(&self) -> bool {
        &&& self.step > 0
        &&& self.base_asset@ != self.quote_asset@
    }

    /// The unordered set of the two assets the pair joins.
    pub open spec fn asset_set(&self) -> Set<Seq<char>> {
        set![self.base_asset@, self.quote_asset@]
    }

    /// What `==` means on pairs: the unordered asset pairs coincide.
    pub open spec fn commutative_eq(&self, other: &TradingPair) -> bool {
        ||| (other.quote_asset@ == self.quote_asset@ && other.base_asset@ == self.base_asset@)
        ||| (other.quote_asset@ == self.base_asset@ && other.base_asset@ == self.quote_asset@)
    }

    // Constructor
    pub fn new(symbol: String, base_asset: String, quote_asset: String, step: u64) -> (r:
        TradingPair)
        requires
            step > 0,
            base_asset@ != quote_asset@,
        ensures
            r.wf(),
            r.symbol == symbol,
            r.base_asset == base_asset,
            r.quote_asset == quote_asset,
            r.step == step,
            !r.initialized,
            r.asks@ =~= Seq::<PriceLevel>::empty(),
            r.bids@ =~= Seq::<PriceLevel>::empty(),
            r.timestamp == 0,
    {
        TradingPair {
            symbol,
            base_asset,
            quote_asset,
            step,
            initialized: false,
            asks: Vec::new(),
            bids: Vec::new(),
            timestamp: 0,
        }
    }

    // Setters
    pub fn update(&mut self, timestamp: u64, asks: Vec<PriceLevel>, bids: Vec<PriceLevel>)
        ensures
            final(self).symbol == old(self).symbol,
            final(self).base_asset == old(self).base_asset,
            final(self).quote_asset == old(self).quote_asset,
            final(self).step == old(self).step,
            final(self).initialized,
            final(self).asks == asks,
            final(self).bids == bids,
            final(self).timestamp == timestamp,
    {
        self.asks = asks;
        self.bids = bids;
        self.timestamp = timestamp;
        self.initialized = true;
    }

    // Getters
    pub fn get_symbol(&self) -> (r: String)
        ensures
            r == self.symbol,
    {
        self.symbol.clone()
    }

    pub fn get_step(&self) -> (r: u64)
        ensures
            r == self.step,
    {
        self.step
    }

    pub fn get_base_asset(&self) -> (r: String)
        ensures
            r == self.base_asset,
    {
        self.base_asset.clone()
    }

    pub fn get_quote_asset(&self) -> (r: String)
        ensures
            r == self.quote_asset,
    {
        self.quote_asset.clone()
    }

    // Utilities
    pub fn has_asset(&self, asset: String) -> (r: bool)
        ensures
            r == self.asset_set().contains(asset@),
    {
        if asset == self.quote_asset || asset == self.base_asset {
            return true;
        }
        false
    }

    /// The asset the pair joins to `asset`, or the empty string when `asset`
    /// is on neither side.
    pub fn get_the_other(&self, asset: String) -> (r: String)
        ensures
            asset@ == self.quote_asset@ ==> r == self.base_asset,
            asset@ != self.quote_asset@ && asset@ == self.base_asset@ ==> r == self.quote_asset,
            asset@ != self.quote_asset@ && asset@ != self.base_asset@ ==> r@ == Seq::<
                char,
            >::empty(),
    {
        if asset == self.quote_asset {
            self.base_asset.clone()
        } else if asset == self.base_asset {
            self.quote_asset.clone()
        } else {
            proof {
                reveal_strlit("");
            }
            "".to_owned()
        }
    }

    /// The view of what [`TradingPair::text`] returns.
    pub open spec fn text_view(&self) -> Seq<char> {
        self.base_asset@ + "/"@ + self.quote_asset@
    }

    pub fn text(&self) -> (r: String)
        ensures
            r@ == self.text_view(),
    {
        let mut s = self.base_asset.clone();
        s.append("/");
        s.append(self.quote_asset.as_str());
        s
    }

    /// Whether two pairs agree field by field, the ladders compared by view.
    pub open spec fn same_pair(&self, other: &TradingPair) -> bool {
        &&& self.symbol == other.symbol
        &&& self.base_asset == other.base_asset
        &&& self.quote_asset == other.quote_asset
        &&& self.step == other.step
        &&& self.initialized == other.initialized
        &&& self.asks@ == other.asks@
        &&& self.bids@ == other.bids@
        &&& self.timestamp == other.timestamp
    }

    /// An exact copy, usable where `clone` would say nothing of the result.
    pub fn duplicate(&self) -> (r: TradingPair)
        ensures
            r.same_pair(self),
    {
        let mut asks: Vec<PriceLevel> = Vec::new();
        let mut bids: Vec<PriceLevel> = Vec::new();
        let mut i: usize = 0;
        while i < self.asks.len()
            invariant
                i <= self.asks.len(),
                asks@ =~= self.asks@.subrange(0, i as int),
            decreases self.asks.len() - i,
        {
            asks.push(self.asks[i]);
            i = i + 1;
        }
        let mut j: usize = 0;
        while j < self.bids.len()
            invariant
                j <= self.bids.len(),
                bids@ =~= self.bids@.subrange(0, j as int),
            decreases self.bids.len() - j,
        {
            bids.push(self.bids[j]);
            j = j + 1;
        }
        proof {
            assert(asks@ =~= self.asks@);
            assert(bids@ =~= self.bids@);
        }
        TradingPair {
            symbol: self.symbol.clone(),
            base_asset: self.base_asset.clone(),
            quote_asset: self.quote_asset.clone(),
            step: self.step,
            initialized: self.initialized,
            asks,
            bids,
            timestamp: self.timestamp,
        }
    }
}

// Eq overloading: commutative on the unordered asset pair.
impl PartialEq for TradingPair {
    fn eq(&self, other: &TradingPair) -> (r: bool) {
        if (other.quote_asset == self.quote_asset && other.base_asset == self.base_asset) || (
        other.quote_asset == self.base_asset && other.base_asset == self.quote_asset) {
            return true;
        }
        false
    }
}

impl vstd::std_specs::cmp::PartialEqSpecImpl for TradingPair {
    open spec fn obeys_eq_spec() -> bool {
        true
    }

    open spec fn eq_spec(&self, other: &TradingPair) -> bool {
        self.commutative_eq(other)
    }
}

impl Eq for TradingPair {}

/// Pair equality is reflexive and commutative, and holds exactly when the two
/// unordered asset sets coincide.
pub proof fn lemma_pair_eq_commutative_reflexive(p: &TradingPair, q: &TradingPair)
    ensures
        p.commutative_eq(p),
        p.commutative_eq(q) == q.commutative_eq(p),
        p.commutative_eq(q) <==> p.asset_set() =~= q.asset_set(),
{
    if p.asset_set() =~= q.asset_set() {
        assert(q.asset_set().contains(q.base_asset@));
        assert(q.asset_set().contains(q.quote_asset@));
        assert(p.asset_set().contains(p.base_asset@));
        assert(p.asset_set().contains(p.quote_asset@));
    }
    if p.commutative_eq(q) {
        assert(p.asset_set() =~= q.asset_set());
    }
}

} // verus!
