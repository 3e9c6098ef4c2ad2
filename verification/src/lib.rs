//! Core of a triangular-arbitrage scanner for a centralized spot exchange.
//!
//! Monetary amounts, prices, and percentages are fixed-point integers with
//! eight decimal places (see [`fixed::SCALE`]); every algorithm is stated and
//! proved over that integer encoding.

pub mod basics;
pub mod calculation_cluster;
pub mod config;
pub mod depth_cache;
pub mod fixed;
pub mod trader;
pub mod trading_pair;
pub mod triangular_relationship;

use vstd::prelude::*;

verus! {

/// String-slice equality with a contract over the character views.
pub fn str_eq(a: &str, b: &str) -> (r: bool)
    ensures
        r == (a@ == b@),
{
    let sa: String = a.to_owned();
    let sb: String = b.to_owned();
    sa == sb
}

} // verus!
