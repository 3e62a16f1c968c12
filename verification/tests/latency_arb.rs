use trading_core::latency_arb::cross_venue_sniper::{ArbCircuitBreaker, ArbitrageSniper};
use trading_core::latency_arb::stale_quote_detector::{StaleQuoteDetector, TradeMapper};

#[test]
fn cross_venue_sniper_test_venue_registration() {
    let mut sniper = ArbitrageSniper::new(50);

    assert!(sniper.register_venue(1));
    assert!(sniper.register_venue(2));
    assert_eq!(sniper.venue_count, 2);
}

#[test]
fn cross_venue_sniper_test_arbitrage_detection() {
    let mut sniper = ArbitrageSniper::new(10);
    sniper.register_venue(1);
    sniper.register_venue(2);
    sniper.enable();

    sniper.venues[0].update_bid(50_000_000_000i64, 1_000_000_000i64, 100);
    sniper.venues[0].update_ask(50_100_000_000i64, 1_000_000_000i64, 100);

    sniper.venues[1].update_bid(50_150_000_000i64, 500_000_000i64, 100);
    sniper.venues[1].update_ask(50_200_000_000i64, 500_000_000i64, 100);

    let arb = sniper.scan_for_arb(200);
    assert!(arb.is_some());

    let (buy_venue, sell_venue, spread, _qty) = arb.unwrap();
    assert_eq!(buy_venue, 1);
    assert_eq!(sell_venue, 2);
    assert!(spread > 0);
}

#[test]
fn old_prices_are_no_opportunity() {
    let mut sniper = ArbitrageSniper::new(0);
    sniper.register_venue(1);
    sniper.register_venue(2);
    sniper.venues[0].update_ask(100, 7, 1000);
    sniper.venues[1].update_bid(200, 9, 1000);
    assert!(sniper.scan_for_arb(1001).is_none());
    sniper.enable();
    assert_eq!(sniper.scan_for_arb(1001), Some((1, 2, 100, 9)));
    assert!(sniper.scan_for_arb(101_000).is_none());
    assert_eq!(sniper.signals_generated, 1);
    assert_eq!(sniper.last_signal_ticks, 1001);
    sniper.venues[0].stale_flag = true;
    assert!(sniper.scan_for_arb(1001).is_some());
    sniper.venues[1].stale_flag = true;
    assert!(sniper.scan_for_arb(1001).is_none());
}

#[test]
fn narrow_spread_is_no_opportunity() {
    let mut sniper = ArbitrageSniper::new(50);
    sniper.register_venue(1);
    sniper.register_venue(2);
    sniper.enable();
    sniper.venues[0].update_ask(100_000, 1, 10);
    sniper.venues[1].update_bid(100_050, 1, 10);
    assert!(sniper.scan_for_arb(11).is_none());
    sniper.venues[1].update_bid(100_051, 1, 10);
    assert!(sniper.scan_for_arb(11).is_some());
}

#[test]
fn cross_venue_sniper_test_circuit_breaker() {
    let mut breaker = ArbCircuitBreaker::new(5);

    for _ in 0..5 {
        assert!(breaker.check_and_record(10_000_000_000));
    }

    assert!(!breaker.check_and_record(10_000_000_000));
    assert_eq!(breaker.tripped as u8, 1);
}

#[test]
fn new_window_counts_anew() {
    let mut breaker = ArbCircuitBreaker::new(2);
    assert!(breaker.check_and_record(4_000_000_000));
    assert!(breaker.check_and_record(4_000_000_001));
    assert!(breaker.check_and_record(7_000_000_001));
    assert_eq!(breaker.signal_count, 1);
    assert!(breaker.check_and_record(7_000_000_002));
    assert!(!breaker.check_and_record(7_000_000_003));
    assert!(!breaker.check_and_record(99_000_000_000));
    breaker.reset();
    assert!(breaker.check_and_record(99_000_000_000));
    assert_eq!(breaker.trip_count, 1);
}

#[test]
fn sniper_has_eight_places() {
    let mut sniper = ArbitrageSniper::new(1);
    for id in 0..8 {
        assert!(sniper.register_venue(id));
    }
    assert!(!sniper.register_venue(8));
}

#[test]
fn test_maker_registration() {
    let mut detector = StaleQuoteDetector::new(50000);

    assert!(detector.register_maker(1));
    assert!(detector.register_maker(2));
    assert_eq!(detector.marker_count, 2);
}

#[test]
fn test_staleness_detection() {
    let mut detector = StaleQuoteDetector::new(1000);
    detector.register_maker(1);

    detector.markers[0].update(
        50_000_000_000i64,
        50_100_000_000i64,
        1_000_000_000i64,
        1_000_000_000i64,
        500,
    );

    assert_eq!(detector.scan_staleness(600), 0);
    assert!(!detector.is_toxic());
}

#[test]
fn majority_of_stale_quotes_is_toxic() {
    let mut detector = StaleQuoteDetector::new(1000);
    for id in 0..3 {
        detector.register_maker(id);
        detector.markers[id as usize].update(10 + id as i64, 20 - id as i64, 1, 1, 100);
    }
    detector.markers[2].update(5, 30, 1, 1, 5000);
    assert_eq!(detector.scan_staleness(5000), 2);
    assert!(detector.is_toxic());
    assert_eq!(detector.get_best_fresh_bid(), 5);
    assert_eq!(detector.get_best_fresh_ask(), 30);
    detector.reset_toxic_flag();
    assert!(!detector.is_toxic());
    assert_eq!(detector.markers[0].staleness_score, 1);
    assert_eq!(detector.markers[0].quote_age_ticks, 4900);
}

#[test]
fn protection_can_be_enabled() {
    let mut detector = StaleQuoteDetector::new(1);
    assert!(!detector.is_protected());
    detector.enable_protection();
    assert!(detector.is_protected());
    assert_eq!(detector.get_best_fresh_ask(), i64::MAX);
}

#[test]
fn test_trade_mapper_imbalance() {
    let mut mapper = TradeMapper::new(vec![0u8; 4096], 100);

    for _ in 0..80 {
        mapper.record_aggressive_trade(true, 1_000_000i64);
    }
    for _ in 0..20 {
        mapper.record_aggressive_trade(false, 1_000_000i64);
    }

    let imbalance = mapper.get_imbalance();
    assert!(imbalance > 7000);
    assert!(mapper.is_imbalanced(1000));
}

#[test]
fn imbalance_is_a_share() {
    let mut mapper = TradeMapper::new(Vec::new(), 1);
    assert_eq!(mapper.get_imbalance(), 5000);
    assert!(!mapper.is_imbalanced(0));
    mapper.record_aggressive_trade(false, 3);
    assert_eq!(mapper.get_imbalance(), 0);
    mapper.record_aggressive_trade(true, 1);
    assert_eq!(mapper.get_imbalance(), 2500);
    assert!(!mapper.is_imbalanced(2500));
    assert!(mapper.is_imbalanced(2499));
}

#[test]
fn test_fresh_quote_filtering() {
    let mut detector = StaleQuoteDetector::new(100000);
    detector.register_maker(1);
    detector.register_maker(2);

    detector.markers[0].update(
        50_000_000_000i64,
        50_100_000_000i64,
        1_000_000_000i64,
        1_000_000_000i64,
        1,
    );

    detector.markers[1].is_stale = true;
    detector.markers[1].bid_price = 49_000_000_000i64;

    let best_fresh = detector.get_best_fresh_bid();
    assert_eq!(best_fresh, 50_000_000_000i64);
}

#[test]
fn quantity_follows_the_prices_found_last() {
    let mut sniper = ArbitrageSniper::new(1);
    sniper.register_venue(1);
    sniper.register_venue(2);
    sniper.enable();
    sniper.venues[0].update_bid(90, 1, 100);
    sniper.venues[0].update_ask(100, 3, 100);
    sniper.venues[1].update_bid(200, 50, 100);
    sniper.venues[1].update_ask(210, 50, 100);
    assert_eq!(sniper.scan_for_arb(150), Some((1, 2, 100, 50)));
    sniper.venues[1].update_ask(95, 2, 100);
    assert_eq!(sniper.scan_for_arb(150), Some((2, 2, 105, 2)));
}
