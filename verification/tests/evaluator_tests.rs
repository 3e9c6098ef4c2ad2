use btrader::calculation_cluster::CalculationCluster;
use btrader::calculation_cluster::order_filled;
use btrader::config::Configuration;
use btrader::depth_cache::DepthCache;
use btrader::depth_cache::DepthEvent;
use btrader::depth_cache::PriceLevel;
use btrader::fixed::SCALE;
use btrader::fixed::custom_round;
use btrader::fixed::fee_multiplier_cubed;
use btrader::fixed::floor_to_step;
use btrader::fixed::fp_mul;
use btrader::fixed::profit_ratio;
use btrader::trading_pair::TradingPair;
use btrader::triangular_relationship::TriangularRelationship;

fn level(price: u64, qty: u64) -> PriceLevel {
    PriceLevel { price, qty }
}

fn config(fee: u64, threshold: u64, age: u64) -> Configuration {
    Configuration {
        api_key: "".to_string(),
        api_secret: "".to_string(),
        investment_base: "BTC".to_string(),
        investment_min: SCALE,
        investment_max: SCALE,
        investment_step: SCALE,
        trading_enabled: false,
        trading_execution_cap: 1,
        trading_taker_fee: fee,
        trading_profit_threshold: threshold,
        trading_age_threshold: age,
        depth_size: 100,
        telegram_enabled: false,
        telegram_token: "".to_string(),
        telegram_user_id: 0,
    }
}

fn relationship() -> TriangularRelationship {
    let tp1 = TradingPair::new(
        "BNBBTC".to_string(),
        "BNB".to_string(),
        "BTC".to_string(),
        1_000_000,
    );
    let tp2 = TradingPair::new(
        "ETHBTC".to_string(),
        "ETH".to_string(),
        "BNB".to_string(),
        100_000,
    );
    let tp3 = TradingPair::new(
        "ETHBNB".to_string(),
        "ETH".to_string(),
        "BTC".to_string(),
        100_000,
    );
    TriangularRelationship::new("BTC".to_string(), tp1, tp2, tp3)
}

// Seed the three books and stamp each with an event time.
fn seeded_cache(end_bid_price: u64, times: [u64; 3]) -> DepthCache {
    let mut cache = DepthCache::new();
    cache.seed_symbol(
        "BNBBTC".to_string(),
        100,
        vec![],
        vec![level(SCALE, 100 * SCALE)],
    );
    cache.seed_symbol(
        "ETHBTC".to_string(),
        100,
        vec![],
        vec![level(SCALE, 100 * SCALE)],
    );
    cache.seed_symbol(
        "ETHBNB".to_string(),
        100,
        vec![level(end_bid_price, 100 * SCALE)],
        vec![],
    );
    for (symbol, time) in [
        ("BNBBTC", times[0]),
        ("ETHBTC", times[1]),
        ("ETHBNB", times[2]),
    ] {
        let event = DepthEvent {
            symbol: symbol.to_string(),
            first_update_id: 101,
            final_update_id: 102,
            event_time: time,
            bids: vec![],
            asks: vec![],
        };
        assert!(cache.process_event(&event));
    }
    cache
}

#[test]
fn evaluator_floor() {
    // floor_to_step(0.01234, 0.01) == 0.01 and
    // floor_to_step(0.02000001, 0.01) == 0.02, in ticks.
    assert_eq!(floor_to_step(1_234_000, 1_000_000), 1_000_000);
    assert_eq!(floor_to_step(2_000_001, 1_000_000), 2_000_000);
}

#[test]
fn floor_is_idempotent_on_samples() {
    for q in [0u64, 1, 999_999, 1_234_000, 2_000_001, u64::MAX] {
        let once = floor_to_step(q, 1_000_000);
        assert_eq!(floor_to_step(once, 1_000_000), once);
    }
}

#[test]
fn fee_arithmetic() {
    // With a 0.1% fee, a hypothetical gross multiplier of 1.01 yields
    // 1.01 * 0.999^3 - 1, about 0.697%.
    let m3 = fee_multiplier_cubed(10_000_000);
    assert_eq!(m3, 99_700_299);
    let gross = fp_mul(101_000_000, m3);
    assert_eq!(gross, 100_697_301);
    assert_eq!(profit_ratio(gross, SCALE), 697_301);
}

#[test]
fn flat_cycle_returns_investment() {
    // Every price is 1.0 and the fee is zero: the cycle hands the notional
    // back unchanged and the deal's legs are whole, step-aligned amounts.
    let cache = seeded_cache(SCALE, [5, 3, 9]);
    let rel = relationship();
    let cluster = CalculationCluster::new(Vec::new(), cache, config(0, 0, 100));
    let deal = cluster.calculate_relationship(&rel);
    assert_eq!(deal.get_profit(), 0);
    // The deal carries the oldest of the three book timestamps.
    assert_eq!(deal.get_timestamp(), 3);
    let actions = deal.get_actions();
    assert_eq!(actions.len(), 3);
    assert_eq!(actions[0].get_action(), "BUY");
    assert_eq!(actions[1].get_action(), "BUY");
    assert_eq!(actions[2].get_action(), "SELL");
    assert_eq!(actions[0].get_pair().get_symbol(), "BNBBTC");
    assert_eq!(actions[1].get_pair().get_symbol(), "ETHBTC");
    assert_eq!(actions[2].get_pair().get_symbol(), "ETHBNB");
    for a in actions.iter() {
        assert_eq!(a.get_quantity(), SCALE);
        assert_eq!(a.get_quantity() % a.get_pair().get_step(), 0);
    }
}

#[test]
fn profitable_cycle_and_acceptance() {
    // The last leg sells at 1.01 with a 0.1% fee per leg: the deal's return
    // is the fee-adjusted percentage, and the freshness rule decides on age.
    let cache = seeded_cache(101_000_000, [5, 3, 9]);
    let rel = relationship();
    let cluster = CalculationCluster::new(
        Vec::new(),
        cache,
        config(10_000_000, 15_000_000, 100),
    );
    let deal = cluster.calculate_relationship(&rel);
    assert_eq!(deal.get_profit(), 697_301);
    assert_eq!(deal.get_timestamp(), 3);
    assert!(cluster.accept_deal(&deal, 10));
    // Too old: the books are stale by the configured age threshold.
    assert!(!cluster.accept_deal(&deal, 200));
    assert!(cluster.can_execute(0));
    assert!(!cluster.can_execute(1));
}

#[test]
fn unprofitable_deal_is_rejected() {
    // A flat, fee-free cycle returns zero profit, under any positive threshold.
    let cache = seeded_cache(SCALE, [5, 3, 9]);
    let rel = relationship();
    let cluster = CalculationCluster::new(Vec::new(), cache, config(0, 15_000_000, 100));
    let deal = cluster.calculate_relationship(&rel);
    assert_eq!(deal.get_profit(), 0);
    assert!(!cluster.accept_deal(&deal, 10));
}

#[test]
fn order_rounding_and_fill_polling() {
    // A step of 0.01 rounds to two decimal places, half up.
    assert_eq!(custom_round(12_345_600, 1_000_000), 12_000_000);
    assert_eq!(custom_round(12_500_000, 1_000_000), 13_000_000);
    // A step of 1.0 or more rounds to whole units.
    assert_eq!(custom_round(250_000_000, 100_000_000), 300_000_000);
    assert!(order_filled("FILLED"));
    assert!(!order_filled("PARTIALLY_FILLED"));
    assert!(!order_filled("NEW"));
}
