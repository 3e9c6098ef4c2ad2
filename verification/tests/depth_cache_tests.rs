use btrader::depth_cache::DepthCache;
use btrader::depth_cache::DepthEvent;
use btrader::depth_cache::LocalOrderBook;
use btrader::depth_cache::PriceLevel;
use btrader::depth_cache::process_event;

fn level(price: u64, qty: u64) -> PriceLevel {
    PriceLevel { price, qty }
}

#[test]
fn reconcile_acceptance() {
    // Seed at sequence 100; the first stream event may overlap the snapshot
    // as long as it advances it.
    let mut book = LocalOrderBook::seed(100, vec![level(1_000_000_000, 500_000_000)], vec![]);
    assert!(book.first_event);
    let event = DepthEvent {
        symbol: "BNBBTC".to_string(),
        first_update_id: 99,
        final_update_id: 101,
        event_time: 7,
        bids: vec![level(1_100_000_000, 100_000_000)],
        asks: vec![],
    };
    let applied = process_event(&event, &mut book);
    assert!(applied);
    assert_eq!(book.last_update_id, 101);
    assert!(!book.first_event);
    assert_eq!(book.event_time, 7);
}

#[test]
fn reconcile_rejection_gap() {
    let mut book = LocalOrderBook::seed(100, vec![level(1_000_000_000, 500_000_000)], vec![]);
    let first = DepthEvent {
        symbol: "BNBBTC".to_string(),
        first_update_id: 99,
        final_update_id: 101,
        event_time: 7,
        bids: vec![],
        asks: vec![],
    };
    assert!(process_event(&first, &mut book));
    // A gap: the next event does not start at 102.
    let gap = DepthEvent {
        symbol: "BNBBTC".to_string(),
        first_update_id: 103,
        final_update_id: 104,
        event_time: 9,
        bids: vec![level(900_000_000, 100_000_000)],
        asks: vec![],
    };
    let bids_before = book.bids.clone();
    let applied = process_event(&gap, &mut book);
    assert!(!applied);
    assert_eq!(book.last_update_id, 101);
    assert_eq!(book.event_time, 7);
    assert_eq!(book.bids, bids_before);
}

#[test]
fn level_deletion() {
    // Seed bids [(10, 5), (9, 3)]; a zero-quantity update at 10 deletes it.
    let mut book = LocalOrderBook::seed(
        100,
        vec![level(1_000_000_000, 500_000_000), level(900_000_000, 300_000_000)],
        vec![],
    );
    let event = DepthEvent {
        symbol: "BNBBTC".to_string(),
        first_update_id: 100,
        final_update_id: 101,
        event_time: 1,
        bids: vec![level(1_000_000_000, 0)],
        asks: vec![],
    };
    assert!(process_event(&event, &mut book));
    assert_eq!(book.bids, vec![level(900_000_000, 300_000_000)]);
}

#[test]
fn ladders_stay_sorted_without_zero_levels() {
    // Insert, overwrite, and delete across both sides; the bid ladder stays
    // strictly descending, the ask ladder strictly ascending, and no zero
    // quantity is ever stored.
    let mut book = LocalOrderBook::seed(
        10,
        vec![level(500, 1), level(300, 2)],
        vec![level(600, 1), level(800, 2)],
    );
    let events = vec![
        DepthEvent {
            symbol: "X".to_string(),
            first_update_id: 10,
            final_update_id: 11,
            event_time: 1,
            bids: vec![level(400, 5), level(300, 7)],
            asks: vec![level(700, 5), level(600, 0)],
        },
        DepthEvent {
            symbol: "X".to_string(),
            first_update_id: 12,
            final_update_id: 13,
            event_time: 2,
            bids: vec![level(550, 1), level(400, 0), level(200, 9)],
            asks: vec![level(900, 1), level(650, 4)],
        },
    ];
    for e in events.iter() {
        assert!(process_event(e, &mut book));
    }
    for w in book.bids.windows(2) {
        assert!(w[0].price > w[1].price);
    }
    for w in book.asks.windows(2) {
        assert!(w[0].price < w[1].price);
    }
    for l in book.bids.iter().chain(book.asks.iter()) {
        assert!(l.qty > 0);
        assert!(l.price > 0);
    }
    assert_eq!(
        book.bids,
        vec![level(550, 1), level(500, 1), level(300, 7), level(200, 9)]
    );
    assert_eq!(
        book.asks,
        vec![level(650, 4), level(700, 5), level(800, 2), level(900, 1)]
    );
}

#[test]
fn cache_tracks_symbols_and_serves_copies() {
    let mut cache = DepthCache::new();
    cache.seed_symbol(
        "BNBBTC".to_string(),
        100,
        vec![level(1_000_000_000, 500_000_000)],
        vec![level(1_100_000_000, 200_000_000)],
    );
    assert!(cache.get_depth("ETHBTC").is_none());
    let book = cache.get_depth("BNBBTC").unwrap();
    assert_eq!(book.last_update_id, 100);
    assert_eq!(book.bids, vec![level(1_000_000_000, 500_000_000)]);
    // An event for an untracked symbol is dropped.
    let stray = DepthEvent {
        symbol: "ETHBTC".to_string(),
        first_update_id: 1,
        final_update_id: 2,
        event_time: 3,
        bids: vec![],
        asks: vec![],
    };
    assert!(!cache.process_event(&stray));
    // One for the tracked symbol is applied through the reconcile check.
    let event = DepthEvent {
        symbol: "BNBBTC".to_string(),
        first_update_id: 100,
        final_update_id: 102,
        event_time: 4,
        bids: vec![level(990_000_000, 100_000_000)],
        asks: vec![],
    };
    assert!(cache.process_event(&event));
    let book = cache.get_depth("BNBBTC").unwrap();
    assert_eq!(book.last_update_id, 102);
    assert_eq!(book.event_time, 4);
    assert_eq!(book.bids.len(), 2);
}
