//! The scanner's settings. Reading and decoding a configuration file is I/O
//! and lives outside the library; the decoded values arrive here as plain
//! fields, the decimal ones in fixed-point ticks.

use crate::fixed::SCALE;
use vstd::prelude::*;

verus! {

#[derive(Debug, Clone)]
pub struct Configuration {
    pub api_key: String,
    pub api_secret: String,
    pub investment_base: String,
    /// Smallest starting notional of the sweep, in ticks of the base asset.
    pub investment_min: u64,
    /// Largest starting notional of the sweep, in ticks of the base asset.
    pub investment_max: u64,
    /// Sweep increment, in ticks of the base asset.
    pub investment_step: u64,
    pub trading_enabled: bool,
    /// How many deals may be executed; `-1` means no cap.
    pub trading_execution_cap: i32,
    /// Per-leg taker fee, a percentage in fixed-point ticks.
    pub trading_taker_fee: u64,
    /// Profit admission rule, a percentage in fixed-point ticks.
    pub trading_profit_threshold: u64,
    /// Freshness admission rule for a deal's book data, in milliseconds.
    pub trading_age_threshold: u64,
    pub depth_size: i32,
    pub telegram_enabled: bool,
    pub telegram_token: String,
    pub telegram_user_id: i64,
}

impl Configuration {
    /// What the evaluator needs of the settings: a positive sweep increment
    /// and a fee of at most one hundred percent.
    pub open spec fn wf(&self) -> bool {
        &&& self.investment_step > 0
        &&& self.trading_taker_fee <= 100 * SCALE
    }
}

} // verus!
