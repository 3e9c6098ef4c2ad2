//! A borrowed-string flavour of the trading pair: the same identity and the
//! same commutative equality, over string slices instead of owned strings.

use vstd::prelude::*;

verus! {

/*
 *  TradingPair
 */
#[derive(Debug)]
pub struct TradingPair<'a> {
    pub symbol: &'a str,
    pub base_asset: &'a str,
    pub quote_asset: &'a str,
    /// Minimum tradable increment of the base asset, in fixed-point ticks.
    pub step: u64,
}

impl<'a> TradingPair<'a> {
    /// The unordered set of the two assets the pair joins.
    pub open spec fn asset_set(&self) -> Set<Seq<char>> {
        set![self.base_asset@, self.quote_asset@]
    }

    /// What `==` means on pairs: the unordered asset pairs coincide.
    pub open spec fn commutative_eq(&self, other: &TradingPair<'_>) -> bool {
        ||| (other.quote_asset@ == self.quote_asset@ && other.base_asset@ == self.base_asset@)
        ||| (other.quote_asset@ == self.base_asset@ && other.base_asset@ == self.quote_asset@)
    }

    // Constructor
    pub fn new(symbol: &'a str, base_asset: &'a str, quote_asset: &'a str, step: u64) -> (r:
        TradingPair<'a>)
        ensures
            r.symbol@ == symbol@,
            r.base_asset@ == base_asset@,
            r.quote_asset@ == quote_asset@,
            r.step == step,
    {
        TradingPair { symbol, base_asset, quote_asset, step }
    }

    // Getters
    pub fn get_symbol(&self) -> (r: &'a str)
        ensures
            r@ == self.symbol@,
    {
        self.symbol
    }

    pub fn get_step(&self) -> (r: u64)
        ensures
            r == self.step,
    {
        self.step
    }

    pub fn get_base_asset(&self) -> (r: &'a str)
        ensures
            r@ == self.base_asset@,
    {
        self.base_asset
    }

    pub fn get_quote_asset(&self) -> (r: &'a str)
        ensures
            r@ == self.quote_asset@,
    {
        self.quote_asset
    }

    // Utilities
    pub fn has_asset(&self, asset: &str) -> (r: bool)
        ensures
            r == self.asset_set().contains(asset@),
    {
        if crate::str_eq(asset, self.quote_asset) || crate::str_eq(asset, self.base_asset) {
            return true;
        }
        false
    }

    /// The asset the pair joins to `asset`, or the empty string when `asset`
    /// is on neither side.
    pub fn get_the_other(&self, asset: &str) -> (r: &'a str)
        ensures
            asset@ == self.quote_asset@ ==> r@ == self.base_asset@,
            asset@ != self.quote_asset@ && asset@ == self.base_asset@ ==> r@
                == self.quote_asset@,
            asset@ != self.quote_asset@ && asset@ != self.base_asset@ ==> r@ == Seq::<
                char,
            >::empty(),
    {
        if crate::str_eq(asset, self.quote_asset) {
            return self.base_asset;
        } else if crate::str_eq(asset, self.base_asset) {
            return self.quote_asset;
        } else {
            proof {
                reveal_strlit("");
            }
            return "";
        }
    }
}

// Eq overloading: commutative on the unordered asset pair.
impl<'a> PartialEq for TradingPair<'a> {
    fn eq(&self, other: &TradingPair<'a>) -> (r: bool) {
        if (crate::str_eq(other.quote_asset, self.quote_asset) && crate::str_eq(
            other.base_asset,
            self.base_asset,
        )) || (crate::str_eq(other.quote_asset, self.base_asset) && crate::str_eq(
            other.base_asset,
            self.quote_asset,
        )) {
            return true;
        }
        false
    }
}

impl<'a> vstd::std_specs::cmp::PartialEqSpecImpl for TradingPair<'a> {
    open spec fn obeys_eq_spec() -> bool {
        true
    }

    open spec fn eq_spec(&self, other: &TradingPair<'a>) -> bool {
        self.commutative_eq(other)
    }
}

impl<'a> Eq for TradingPair<'a> {}

} // verus!
