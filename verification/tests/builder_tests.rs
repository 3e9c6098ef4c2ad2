use btrader::trader::SymbolInfo;
use btrader::trader::build_pairs;
use btrader::trader::build_relationships;

fn row(symbol: &str, base: &str, quote: &str, trading: bool, step: u64) -> SymbolInfo {
    SymbolInfo {
        symbol: symbol.to_string(),
        base_asset: base.to_string(),
        quote_asset: quote.to_string(),
        trading,
        step,
    }
}

#[test]
fn pairs_come_from_live_rows_only() {
    let rows = vec![
        row("BNBBTC", "BNB", "BTC", true, 1_000_000),
        row("OLDBTC", "OLD", "BTC", false, 0),
        row("ETHBTC", "ETH", "BNB", true, 100_000),
    ];
    let pairs = build_pairs(&rows);
    assert_eq!(pairs.len(), 2);
    assert_eq!(pairs[0].get_symbol(), "BNBBTC");
    assert_eq!(pairs[1].get_symbol(), "ETHBTC");
    assert_eq!(pairs[1].get_step(), 100_000);
}

#[test]
fn triangle_derivation() {
    // The asset sets: BNBBTC joins {BNB, BTC}, ETHBTC joins {ETH, BNB},
    // ETHBNB joins {ETH, BTC}. With base BTC the only cycle runs
    // BNBBTC -> ETHBTC -> ETHBNB.
    let rows = vec![
        row("BNBBTC", "BNB", "BTC", true, 1_000_000),
        row("ETHBTC", "ETH", "BNB", true, 100_000),
        row("ETHBNB", "ETH", "BTC", true, 100_000),
    ];
    let pairs = build_pairs(&rows);
    let (rels, sockets) = build_relationships(&pairs, "BTC");
    assert_eq!(rels.len(), 1);
    assert_eq!(rels[0].key, "BNBBTC -> ETHBTC -> ETHBNB");
    assert_eq!(
        rels[0].relationship.describe(),
        "BUY from BNB/BTC, then BUY from ETH/BNB and finally SELL from ETH/BTC"
    );
    assert_eq!(
        sockets,
        vec![
            "BNBBTC".to_string(),
            "ETHBTC".to_string(),
            "ETHBNB".to_string()
        ]
    );
}

#[test]
fn no_middle_no_cycle() {
    let rows = vec![
        row("BNBBTC", "BNB", "BTC", true, 1_000_000),
        row("ETHBNB", "ETH", "BTC", true, 100_000),
    ];
    let pairs = build_pairs(&rows);
    let (rels, sockets) = build_relationships(&pairs, "BTC");
    assert_eq!(rels.len(), 0);
    assert_eq!(sockets.len(), 0);
}

#[test]
fn shared_symbols_are_not_repeated() {
    // Two cycles share the starter BNBBTC; the subscription list holds each
    // symbol once.
    let rows = vec![
        row("BNBBTC", "BNB", "BTC", true, 1_000_000),
        row("ETHBTC", "ETH", "BNB", true, 100_000),
        row("ETHBNB", "ETH", "BTC", true, 100_000),
        row("XRPBNB", "XRP", "BNB", true, 100_000),
        row("XRPBTC", "XRP", "BTC", true, 100_000),
    ];
    let pairs = build_pairs(&rows);
    let (rels, sockets) = build_relationships(&pairs, "BTC");
    assert_eq!(rels.len(), 2);
    let mut seen = sockets.clone();
    seen.sort();
    seen.dedup();
    assert_eq!(seen.len(), sockets.len());
    for e in rels.iter() {
        for sym in [
            e.relationship.get_pairs()[0].clone(),
            e.relationship.get_pairs()[1].clone(),
            e.relationship.get_pairs()[2].clone(),
        ] {
            assert!(sockets.contains(&sym));
        }
    }
}
