use trading_core::exchange_quirks::binance_matcher::{
    BinanceOrder, BinanceOrderBook, ShadowMatcher, Side, StpEngine, StpMode,
};
use trading_core::exchange_quirks::bybit_quirks::{
    BybitFeeCalculator, BybitOrderFlags, BybitPosition, MarginMode,
};
use trading_core::exchange_quirks::okx_quirks::{OkxAccountMode, OkxPortfolio, OkxRateLimiter};

#[test]
fn test_order_creation() {
    let order = BinanceOrder::new(12345, 99999, 50_000_000_000i64, 1_000_000_000i64, Side::Buy, 1);

    assert_eq!(order.order_id, 12345);
    assert_eq!(order.side, Side::Buy as u8);
    assert_eq!(order.remaining_qty(), 1_000_000_000i64);
}

#[test]
fn test_order_book_insertion() {
    let mut book = BinanceOrderBook::new();

    let order1 = BinanceOrder::new(1, 101, 50_000_000_000i64, 1_000_000_000i64, Side::Buy, 1);
    let order2 = BinanceOrder::new(2, 102, 49_900_000_000i64, 500_000_000i64, Side::Buy, 1);

    book.add_order(&order1, 1);
    book.add_order(&order2, 1);

    assert_eq!(book.best_bid_price, 50_000_000_000i64);
    assert_eq!(book.bid_count, 2);
}

#[test]
fn test_matching() {
    let mut book = BinanceOrderBook::new();

    let ask1 = BinanceOrder::new(1, 201, 50_100_000_000i64, 500_000_000i64, Side::Sell, 1);
    let ask2 = BinanceOrder::new(2, 202, 50_200_000_000i64, 500_000_000i64, Side::Sell, 1);
    book.add_order(&ask1, 1);
    book.add_order(&ask2, 1);

    let filled = book.match_order(Side::Buy, 1_000_000_000i64, 50_200_000_000i64);

    assert_eq!(filled, 1_000_000_000i64);
    assert_eq!(book.last_trade_price, 50_200_000_000i64);
}

#[test]
fn levels_stay_in_price_order() {
    let mut book = BinanceOrderBook::new();
    for (id, price) in [(1u64, 300i64), (2, 100), (3, 200)] {
        assert!(book.add_order(&BinanceOrder::new(id, id, price, 10, Side::Sell, 1), 1));
        assert!(book.add_order(&BinanceOrder::new(id, id, price - 250, 10, Side::Buy, 1), 1));
    }
    let asks: Vec<i64> = book.asks.iter().map(|l| l.price).collect();
    let bids: Vec<i64> = book.bids.iter().map(|l| l.price).collect();
    assert_eq!(asks, vec![100, 200, 300]);
    assert_eq!(bids, vec![50, -50, -150]);
    assert_eq!(book.match_order(Side::Buy, 15, 150), 10);
    assert_eq!(book.best_ask_price, 200);
    assert_eq!(book.match_order(Side::Buy, 15, 150), 0);
}

#[test]
fn test_stp_engine() {
    let mut stp = StpEngine::new(StpMode::CancelNewest, 12345);
    let mut book = BinanceOrderBook::new();

    let ask = BinanceOrder::new(1, 101, 50_000_000_000i64, 1_000_000_000i64, Side::Sell, 1);
    book.add_order(&ask, 1);

    let result = stp.check_stp(Side::Buy, 50_000_000_000i64, &book, 2);

    assert!(result.is_some());
    assert_eq!(stp.violation_count, 1);
}

#[test]
fn self_trade_prevention_can_be_off() {
    let mut stp = StpEngine::new(StpMode::Disabled, 1);
    let mut book = BinanceOrderBook::new();
    book.add_order(&BinanceOrder::new(1, 1, 100, 10, Side::Sell, 1), 1);
    assert!(stp.check_stp(Side::Buy, 100, &book, 2).is_none());
    assert_eq!(stp.violation_count, 0);
}

#[test]
fn test_spread_calculation() {
    let mut book = BinanceOrderBook::new();

    let bid = BinanceOrder::new(1, 101, 49_900_000_000i64, 1_000_000_000i64, Side::Buy, 1);
    let ask = BinanceOrder::new(2, 201, 50_100_000_000i64, 1_000_000_000i64, Side::Sell, 1);

    book.add_order(&bid, 1);
    book.add_order(&ask, 1);

    assert_eq!(book.get_spread(), 200_000_000i64);
}

#[test]
fn shadow_matcher_counts_only_when_enabled() {
    let mut shadow = ShadowMatcher::new();
    shadow.log_theoretical_fill(10, 100, 101);
    assert_eq!(shadow.theoretical_fills, 0);
    shadow.enable();
    shadow.log_theoretical_fill(10, 100, 101);
    assert_eq!(shadow.theoretical_fills, 10);
}

#[test]
fn test_position_creation() {
    let pos = BybitPosition::new(1);
    assert_eq!(pos.side, 0);
    assert_eq!(pos.margin_mode, MarginMode::Isolated as u8);
}

#[test]
fn test_fee_calculation() {
    let calc = BybitFeeCalculator::new();

    let rebate = calc.calculate_maker_rebate(1_000_000_000i64, 50_000_000_000i64);
    assert_eq!(rebate, 50_000_000i64);
}

#[test]
fn order_flags_are_set() {
    assert_eq!(BybitOrderFlags::new().bits, 0);
    assert_eq!(BybitOrderFlags::new().with_tp_sl().bits, BybitOrderFlags::TP_SL_ORDER);
}

#[test]
fn test_portfolio_creation() {
    let portfolio = OkxPortfolio::new();
    assert_eq!(portfolio.account_mode, OkxAccountMode::Cash as u8);
}

#[test]
fn test_rate_limiter() {
    let mut limiter = OkxRateLimiter::new(10, 5);

    for _ in 0..5 {
        assert!(limiter.try_acquire());
    }

    assert!(!limiter.try_acquire());
    assert_eq!(limiter.rejected_count, 1);
}

#[test]
fn level_of_price_zero_counts_as_empty() {
    let mut book = BinanceOrderBook::new();
    book.add_order(&BinanceOrder::new(1, 1, 100, 5, Side::Sell, 1), 1);
    assert_eq!(book.match_order(Side::Buy, 1, 100), 1);
    book.add_order(&BinanceOrder::new(2, 2, 0, 5, Side::Sell, 1), 1);
    assert_eq!((book.best_ask_price, book.ask_count), (0, 2));
    assert_eq!(book.match_order(Side::Buy, 10, 100), 0);
    book.add_order(&BinanceOrder::new(3, 3, 90, 5, Side::Sell, 1), 1);
    assert_eq!((book.best_ask_price, book.ask_count), (90, 3));
    assert_eq!(book.match_order(Side::Buy, 10, 100), 5);
    assert_eq!(book.match_order(Side::Buy, 10, 100), 0);
}
