use btrader::trading_pair::TradingPair;
use btrader::triangular_relationship::TriangularRelationship;

#[test]
fn test_triangular_relationship_getters_test() {
    let tp1: TradingPair = TradingPair::new(
        "BNBBTC".to_string(),
        "BNB".to_string(),
        "BTC".to_string(),
        1_000_000,
    );
    let tp2: TradingPair = TradingPair::new(
        "ETHBTC".to_string(),
        "ETH".to_string(),
        "BNB".to_string(),
        100_000,
    );
    let tp3: TradingPair = TradingPair::new(
        "ETHBNB".to_string(),
        "ETH".to_string(),
        "BTC".to_string(),
        100_000,
    );
    let triang: TriangularRelationship =
        TriangularRelationship::new("BTC".to_string(), tp1, tp2, tp3);
    assert_eq!(
        triang.describe(),
        "BUY from BNB/BTC, then BUY from ETH/BNB and finally SELL from ETH/BTC"
    );
    assert_eq!(
        triang.get_pairs(),
        [
            "BNBBTC".to_string(),
            "ETHBTC".to_string(),
            "ETHBNB".to_string()
        ]
    );
    assert_eq!(triang.text(), "BTC -> BNB -> ETH");
    assert_eq!(
        triang.get_workflow(),
        [
            ("BNBBTC".to_string(), "asks".to_string()),
            ("ETHBTC".to_string(), "asks".to_string()),
            ("ETHBNB".to_string(), "bids".to_string())
        ]
    );
}

#[test]
fn actions_follow_held_asset_walk() {
    let tp1 = TradingPair::new(
        "BNBBTC".to_string(),
        "BNB".to_string(),
        "BTC".to_string(),
        1_000_000,
    );
    let tp2 = TradingPair::new(
        "ETHBTC".to_string(),
        "ETH".to_string(),
        "BNB".to_string(),
        100_000,
    );
    let tp3 = TradingPair::new(
        "ETHBNB".to_string(),
        "ETH".to_string(),
        "BTC".to_string(),
        100_000,
    );
    let triang = TriangularRelationship::new("BTC".to_string(), tp1, tp2, tp3);
    let actions = triang.get_actions();
    assert_eq!(actions[0], "BUY".to_string());
    assert_eq!(actions[1], "BUY".to_string());
    assert_eq!(actions[2], "SELL".to_string());
    // The held-asset walk of this cycle ends where it started.
    assert_eq!(triang.text(), "BTC -> BNB -> ETH");
}
