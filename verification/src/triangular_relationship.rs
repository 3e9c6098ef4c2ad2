//! A directed three-leg cycle that starts and ends at a base asset, with the
//! buy/sell action each leg takes.
//!
//! The action of a hop follows from the asset held when the hop starts: if the
//! held asset is the pair's base the hop sells into the bid side, otherwise it
//! buys from the ask side; either way the trader leaves the hop holding the
//! pair's other asset.

use crate::trading_pair::TradingPair;
use vstd::prelude::*;
use vstd::string::StringExecFns;

verus! {

/// The asset a pair joins to `held`, `held` taken from the quote side first,
/// as the directed walk does.
pub open spec fn spec_other(pair: &TradingPair, held: Seq<char>) -> Seq<char> {
    if held == pair.quote_asset@ {
        pair.base_asset@
    } else if held == pair.base_asset@ {
        pair.quote_asset@
    } else {
        Seq::<char>::empty()
    }
}

/// The action a hop takes: selling when the held asset is the pair's base,
/// buying otherwise.
pub open spec fn hop_action(held: Seq<char>, pair: &TradingPair) -> Seq<char> {
    if held == pair.base_asset@ {
        "SELL"@
    } else {
        "BUY"@
    }
}

/// The ladder side the hop consumes: bids when selling, asks when buying.
pub open spec fn hop_wrapper(held: Seq<char>, pair: &TradingPair) -> Seq<char> {
    if held == pair.base_asset@ {
        "bids"@
    } else {
        "asks"@
    }
}

/// The asset held after the hop: the pair's other side.
pub open spec fn hop_next(held: Seq<char>, pair: &TradingPair) -> Seq<char> {
    if held == pair.base_asset@ {
        pair.quote_asset@
    } else {
        pair.base_asset@
    }
}

/// The asset held after walking the three hops from `base`.
pub open spec fn walk_end(
    base: Seq<char>,
    start: &TradingPair,
    middle: &TradingPair,
    end: &TradingPair,
) -> Seq<char> {
    hop_next(hop_next(hop_next(base, start), middle), end)
}

/// What the relationship builder guarantees of every cycle it emits: the
/// outer pairs touch the base asset, the two intermediates are distinct and
/// differ from the base, and the middle pair joins exactly the intermediates.
#[verifier::opaque]
pub open spec fn wf_triangle(
    base: Seq<char>,
    start: &TradingPair,
    middle: &TradingPair,
    end: &TradingPair,
) -> bool {
    &&& start.wf()
    &&& middle.wf()
    &&& end.wf()
    &&& start.asset_set().contains(base)
    &&& end.asset_set().contains(base)
    &&& spec_other(start, base) != base
    &&& spec_other(end, base) != base
    &&& spec_other(start, base) != spec_other(end, base)
    &&& middle.asset_set() == set![spec_other(start, base), spec_other(end, base)]
}

/// Walking the three hops of a well-formed triangle returns to the base
/// asset, whatever mix of buys and sells the walk takes.
pub proof fn lemma_triangle_returns_to_base(
    base: Seq<char>,
    start: &TradingPair,
    middle: &TradingPair,
    end: &TradingPair,
)
    requires
        wf_triangle(base, start, middle, end),
    ensures
        walk_end(base, start, middle, end) == base,
        hop_next(base, start) == spec_other(start, base),
        hop_next(hop_next(base, start), middle) == spec_other(end, base),
{
    reveal(wf_triangle);
    let x = spec_other(start, base);
    let y = spec_other(end, base);
    assert(start.asset_set().contains(base));
    assert(base == start.base_asset@ || base == start.quote_asset@);
    assert(hop_next(base, start) == x);
    assert(middle.asset_set().contains(x)) by {
        assert(set![x, y].contains(x));
    }
    assert(middle.asset_set().contains(y)) by {
        assert(set![x, y].contains(y));
    }
    assert(x == middle.base_asset@ || x == middle.quote_asset@) by {
        assert(middle.asset_set().contains(x) ==> x == middle.base_asset@ || x
            == middle.quote_asset@);
    }
    assert(y == middle.base_asset@ || y == middle.quote_asset@) by {
        assert(middle.asset_set().contains(y) ==> y == middle.base_asset@ || y
            == middle.quote_asset@);
    }
    assert(hop_next(x, middle) == y);
    assert(base == end.base_asset@ || base == end.quote_asset@);
    assert(hop_next(y, end) == base);
}

/// A relationship under the name the builder registers it by.
#[derive(Debug, Clone)]
pub struct RelEntry {
    pub key: String,
    pub relationship: TriangularRelationship,
}

/*
 *  TriangularRelationship
 */
#[derive(Debug, Clone)]
pub struct TriangularRelationship {
    pub base: String,
    pub start: TradingPair,
    pub middle: TradingPair,
    pub end: TradingPair,
    pub actions: [String; 3],
    pub action_wrappers: [String; 3],
    pub intermediates: [String; 2],
}

impl TriangularRelationship {
    /// The derived data matches the held-asset walk from the base asset.
    #[verifier::opaque]
    pub open spec fn wf(&self) -> bool {
        let h1 = hop_next(self.base@, &self.start);
        let h2 = hop_next(h1, &self.middle);
        &&& self.actions@[0]@ == hop_action(self.base@, &self.start)
        &&& self.actions@[1]@ == hop_action(h1, &self.middle)
        &&& self.actions@[2]@ == hop_action(h2, &self.end)
        &&& self.action_wrappers@[0]@ == hop_wrapper(self.base@, &self.start)
        &&& self.action_wrappers@[1]@ == hop_wrapper(h1, &self.middle)
        &&& self.action_wrappers@[2]@ == hop_wrapper(h2, &self.end)
        &&& self.intermediates@[0]@ == h1
        &&& self.intermediates@[1]@ == h2
    }

    // Constructor
    pub fn new(base: String, start: TradingPair, middle: TradingPair, end: TradingPair) -> (r:
        TriangularRelationship)
        ensures
            r.wf(),
            r.base == base,
            r.start == start,
            r.middle == middle,
            r.end == end,
    {
        proof {
            reveal(TriangularRelationship::wf);
        }
        let next_base: String;
        let actions_0: String;
        let wrappers_0: String;
        let intermediates_0: String;
        // Base -> Middle
        if base == start.base_asset {
            actions_0 = "SELL".to_owned();
            wrappers_0 = "bids".to_owned();
            next_base = start.quote_asset.clone();
            intermediates_0 = start.quote_asset.clone();
        } else {
            actions_0 = "BUY".to_owned();
            wrappers_0 = "asks".to_owned();
            next_base = start.base_asset.clone();
            intermediates_0 = start.base_asset.clone();
        }
        // Middle -> End
        let next_base_2: String;
        let actions_1: String;
        let wrappers_1: String;
        let intermediates_1: String;
        if next_base == middle.base_asset {
            actions_1 = "SELL".to_owned();
            wrappers_1 = "bids".to_owned();
            next_base_2 = middle.quote_asset.clone();
            intermediates_1 = middle.quote_asset.clone();
        } else {
            actions_1 = "BUY".to_owned();
            wrappers_1 = "asks".to_owned();
            next_base_2 = middle.base_asset.clone();
            intermediates_1 = middle.base_asset.clone();
        }
        // End -> Base
        let actions_2: String;
        let wrappers_2: String;
        if next_base_2 == end.base_asset {
            actions_2 = "SELL".to_owned();
            wrappers_2 = "bids".to_owned();
        } else {
            actions_2 = "BUY".to_owned();
            wrappers_2 = "asks".to_owned();
        }
        TriangularRelationship {
            base,
            start,
            middle,
            end,
            actions: [actions_0, actions_1, actions_2],
            action_wrappers: [wrappers_0, wrappers_1, wrappers_2],
            intermediates: [intermediates_0, intermediates_1],
        }
    }

    /// The view of what [`TriangularRelationship::describe`] returns.
    pub open spec fn describe_view(&self) -> Seq<char> {
        self.actions@[0]@ + " from "@ + self.start.text_view() + ", then "@ + self.actions@[1]@
            + " from "@ + self.middle.text_view() + " and finally "@ + self.actions@[2]@ + " from "@
            + self.end.text_view()
    }

    pub fn describe(&self) -> (r: String)
        ensures
            r@ == self.describe_view(),
    {
        let mut s = self.actions[0].clone();
        s.append(" from ");
        s.append(self.start.text().as_str());
        s.append(", then ");
        s.append(self.actions[1].as_str());
        s.append(" from ");
        s.append(self.middle.text().as_str());
        s.append(" and finally ");
        s.append(self.actions[2].as_str());
        s.append(" from ");
        s.append(self.end.text().as_str());
        s
    }

    pub fn get_pairs(&self) -> (r: [String; 3])
        ensures
            r@[0] == self.start.symbol,
            r@[1] == self.middle.symbol,
            r@[2] == self.end.symbol,
    {
        [self.start.get_symbol(), self.middle.get_symbol(), self.end.get_symbol()]
    }

    pub fn get_trading_pairs(&self) -> (r: [TradingPair; 3])
        ensures
            r@[0].same_pair(&self.start),
            r@[1].same_pair(&self.middle),
            r@[2].same_pair(&self.end),
    {
        [self.start.duplicate(), self.middle.duplicate(), self.end.duplicate()]
    }

    pub fn get_actions(&self) -> (r: [String; 3])
        ensures
            r@[0] == self.actions@[0],
            r@[1] == self.actions@[1],
            r@[2] == self.actions@[2],
    {
        [self.actions[0].clone(), self.actions[1].clone(), self.actions[2].clone()]
    }

    /// The view of what [`TriangularRelationship::text`] returns.
    pub open spec fn text_view(&self) -> Seq<char> {
        self.base@ + " -> "@ + self.intermediates@[0]@ + " -> "@ + self.intermediates@[1]@
    }

    pub fn text(&self) -> (r: String)
        ensures
            r@ == self.text_view(),
    {
        let mut s = self.base.clone();
        s.append(" -> ");
        s.append(self.intermediates[0].as_str());
        s.append(" -> ");
        s.append(self.intermediates[1].as_str());
        s
    }

    pub fn get_workflow(&self) -> (r: [(String, String); 3])
        ensures
            r@[0].0 == self.start.symbol,
            r@[0].1 == self.action_wrappers@[0],
            r@[1].0 == self.middle.symbol,
            r@[1].1 == self.action_wrappers@[1],
            r@[2].0 == self.end.symbol,
            r@[2].1 == self.action_wrappers@[2],
    {
        [
            (self.start.get_symbol(), self.action_wrappers[0].clone()),
            (self.middle.get_symbol(), self.action_wrappers[1].clone()),
            (self.end.get_symbol(), self.action_wrappers[2].clone()),
        ]
    }
}

} // verus!
