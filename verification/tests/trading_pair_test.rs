use btrader::basics::TradingPair;

#[test]
fn trading_pair_test_getters_test() {
    let tp: TradingPair = TradingPair::new("BNBBTC", "BNB", "BTC", 1_000_000);
    assert_eq!(tp.get_symbol(), "BNBBTC");
    assert_eq!(tp.get_step(), 1_000_000u64);
    assert_eq!(tp.get_base_asset(), "BNB");
    assert_eq!(tp.get_quote_asset(), "BTC");
}

#[test]
fn trading_pair_test_utilities_test() {
    let tp1: TradingPair = TradingPair::new("BNBBTC", "BNB", "BTC", 1_000_000);
    assert_eq!(tp1.has_asset("BNB"), true);
    assert_eq!(tp1.has_asset("BTC"), true);
    assert_eq!(tp1.has_asset("ETH"), false);
    assert_eq!(tp1.get_the_other("BNB"), "BTC");
    assert_eq!(tp1.get_the_other("BTC"), "BNB");
}

#[test]
fn trading_pair_test_eq_test() {
    let tp1: TradingPair = TradingPair::new("BNBBTC", "BNB", "BTC", 1_000_000);
    let tp2: TradingPair = TradingPair::new("BTCBNB", "BTC", "BNB", 1_000);
    assert_eq!(tp1, tp2);
}
