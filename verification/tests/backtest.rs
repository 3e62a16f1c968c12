use trading_core::backtest::event_replay::{CryptoEventReplay, EventReplay, EventType, MarketEvent};
use trading_core::backtest::slippage_modeler::{
    BookLevel, CryptoSlippageModeler, QueueBuffer, SlippageResult,
};
use trading_core::backtest::walk_forward::{CryptoWalkForward, OptResult};

const CACHE_LINE_SIZE: usize = 64;

#[test]
fn event_replay_test_market_event_size() {
    assert_eq!(core::mem::size_of::<MarketEvent>(), CACHE_LINE_SIZE);
}

#[test]
fn test_event_replay_basic() {
    let mut replay = CryptoEventReplay::new();

    let mut event = MarketEvent::new();
    event.event_type = EventType::Tick;
    event.timestamp_ns = 1000000;
    event.price_tick = 50000;

    assert!(replay.add_event(event));
    assert_eq!(replay.event_count(), 1);
}

#[test]
fn test_replay_sequence() {
    let mut replay = EventReplay::<100>::new();

    for i in 0..10u64 {
        let mut event = MarketEvent::new();
        event.timestamp_ns = i * 1000000;
        event.price_tick = 50000 + i as i64;
        replay.add_event(event);
    }

    replay.start(0);

    let mut prev_ts = 0u64;
    while let Some(event) = replay.next_event(0) {
        assert!(event.timestamp_ns >= prev_ts);
        prev_ts = event.timestamp_ns;
    }

    assert!(replay.is_complete());
    assert!(!replay.is_running());
}

#[test]
fn test_timestamp_delta() {
    let mut replay = EventReplay::<100>::new();

    let mut e1 = MarketEvent::new();
    e1.timestamp_ns = 1000000;
    replay.add_event(e1);

    let mut e2 = MarketEvent::new();
    e2.timestamp_ns = 5000000;
    replay.add_event(e2);

    let delta = replay.timestamp_delta_ns(0, 1).unwrap();
    assert_eq!(delta, 4000000);
}

#[test]
fn test_progress_tracking() {
    let mut replay = EventReplay::<100>::new();

    for _ in 0..10 {
        replay.add_event(MarketEvent::new());
    }

    replay.start(0);

    for _ in 0..5 {
        replay.next_event(0);
    }

    let (done, total) = replay.progress();
    let progress = done as f64 / total as f64;
    assert!((progress - 0.5).abs() < 0.01);
}

#[test]
fn test_peek_without_advance() {
    let mut replay = EventReplay::<100>::new();

    let mut event = MarketEvent::new();
    event.price_tick = 12345;
    replay.add_event(event);

    let peek1 = replay.peek_event();
    let peek2 = replay.peek_event();

    assert!(peek1.is_some());
    assert!(peek2.is_some());
    assert_eq!(peek1.unwrap().price_tick, peek2.unwrap().price_tick);
}

#[test]
fn test_buffer_overflow_protection() {
    let mut replay = EventReplay::<10>::new();

    for i in 0..15 {
        let result = replay.add_event(MarketEvent::new());
        if i < 10 {
            assert!(result);
        } else {
            assert!(!result);
        }
    }
}

#[test]
fn replay_hands_out_every_event_in_order() {
    let mut replay = EventReplay::<8>::new();
    for i in 0..5i64 {
        let mut event = MarketEvent::new();
        event.price_tick = i;
        assert!(replay.add_event(event));
    }
    replay.start(7);
    let mut seen = Vec::new();
    while let Some(event) = replay.next_event(100) {
        seen.push(event.price_tick);
    }
    assert_eq!(seen, vec![0, 1, 2, 3, 4]);
    replay.start(9);
    assert_eq!(replay.next_event(10).unwrap().price_tick, 0);
}

#[test]
fn replay_that_is_not_started_hands_out_nothing() {
    let mut replay = EventReplay::<8>::new();
    replay.add_event(MarketEvent::new());
    assert!(replay.next_event(0).is_none());
    assert!(replay.timestamp_delta_ns(0, 8).is_none());
}

#[test]
fn test_book_level_creation() {
    let level = BookLevel::new();
    assert_eq!(level.price_tick, 0);
    assert_eq!(level.bid_size, 0);
}

#[test]
fn test_slippage_modeler_init() {
    let mut modeler = CryptoSlippageModeler::new();
    modeler.init_book(50000, 1);

    assert_eq!(modeler.current_spread(), 1);
}

#[test]
fn test_market_order_slippage() {
    let mut modeler = CryptoSlippageModeler::new();
    modeler.init_book(50000, 1);

    let result = modeler.estimate_market_slippage(100, true);
    assert!(result.slippage_ticks >= 0);
    assert!(result.fill_probability > 0);
}

#[test]
fn test_large_order_impact() {
    let mut modeler = CryptoSlippageModeler::new();
    modeler.init_book(50000, 1);

    let small_result = modeler.estimate_market_slippage(100, true);
    modeler.reset_stats();
    let large_result = modeler.estimate_market_slippage(10000, true);

    assert!(large_result.slippage_ticks >= small_result.slippage_ticks);
}

#[test]
fn test_limit_order_fill_probability() {
    let mut modeler = CryptoSlippageModeler::new();
    modeler.init_book(50000, 1);

    let result = modeler.estimate_limit_slippage(50000, 100, true);
    assert!(result.fill_probability <= 10000);
}

#[test]
fn test_queue_buffer_operations() {
    let mut buf = QueueBuffer::<10>::new();

    assert!(buf.push(100));
    assert!(buf.push(200));
    assert_eq!(buf.len(), 2);
    assert!(buf.average() > 0);

    let popped = buf.pop();
    assert_eq!(popped, Some(100));
    assert_eq!(buf.len(), 1);
}

#[test]
fn queue_buffer_average_is_exact() {
    let mut buf = QueueBuffer::<4>::new();
    assert_eq!(buf.average(), 0);
    assert!(buf.push(100));
    assert!(buf.push(201));
    assert_eq!(buf.average(), 150);
}

#[test]
fn queue_buffer_sum_runs_over_the_slots() {
    let mut buf = QueueBuffer::<4>::new();
    assert!(buf.push(10));
    assert!(buf.push(20));
    assert!(buf.push(60));
    assert!(!buf.push(1000));
    assert_eq!(buf.len(), 3);
    assert_eq!(buf.average(), 30);
    assert_eq!(buf.pop(), Some(10));
    assert_eq!(buf.average(), 45);

    let mut buf = QueueBuffer::<2>::new();
    assert!(buf.push(10));
    assert!(!buf.push(20));
    assert_eq!(buf.pop(), Some(10));
    assert!(buf.push(20));
    assert_eq!(buf.pop(), Some(20));
    assert_eq!(buf.pop(), None);
    assert_eq!(buf.average(), 0);
    for value in 1..4 {
        assert!(buf.push(value));
    }
    assert_eq!(buf.len(), 3);
    assert_eq!(buf.average(), 1);
    assert_eq!(buf.pop(), Some(3));
}

#[test]
fn larger_buys_slip_no_less() {
    let mut modeler = CryptoSlippageModeler::new();
    modeler.init_book(50000, 10);
    let mut last = 0;
    for quantity in [1, 999, 1000, 1001, 1950, 5000, 9000, 20000] {
        let result = modeler.estimate_market_slippage(quantity, true);
        assert!(result.slippage_ticks >= last);
        last = result.slippage_ticks;
    }
    assert!(last > 0);
}

#[test]
fn test_volatility_impact() {
    let mut modeler = CryptoSlippageModeler::new();
    modeler.init_book(50000, 1);

    modeler.set_volatility(2000);
    let high_vol_result = modeler.estimate_market_slippage(1000, true);

    modeler.set_volatility(500);
    modeler.reset_stats();
    let low_vol_result = modeler.estimate_market_slippage(1000, true);

    assert!(high_vol_result.market_impact_bps >= low_vol_result.market_impact_bps);
}

#[test]
fn slippage_modeler_test_cache_line_alignment() {
    assert!(core::mem::size_of::<BookLevel>() >= CACHE_LINE_SIZE);
    assert!(core::mem::size_of::<SlippageResult>() >= CACHE_LINE_SIZE);
}

#[test]
fn test_opt_result_creation() {
    let result = OptResult::new(0.0);
    assert_eq!(result.sharpe_ratio, 0.0);
    assert_eq!(result.trades_count, 0);
}

#[test]
fn test_walk_forward_init() {
    let mut wf = CryptoWalkForward::new(6_500_000_000, 0.0);
    assert!(!wf.is_circuit_breaker_active());
    assert!(wf.check_memory(1024));
}

#[test]
fn test_parameter_setting() {
    let mut wf = CryptoWalkForward::new(6_500_000_000, 0.0);
    let params = vec![0.1, 0.2, 0.3];
    assert!(wf.set_params(&params));
}

#[test]
fn test_iteration_recording() {
    let mut wf = CryptoWalkForward::new(6_500_000_000, 0.0);

    let result = OptResult {
        sharpe_ratio: 1.5,
        max_drawdown: 0.1,
        total_return: 0.25,
        win_rate: 0.55,
        profit_factor: 1.8,
        trades_count: 100,
    };

    assert!(wf.run_iteration(0, true, result, true));
    assert!(wf.run_iteration(0, false, result, false));
}

#[test]
fn test_memory_circuit_breaker() {
    let mut wf = CryptoWalkForward::new(1_000_000, 0.0);

    assert!(wf.check_memory(500));
    assert!(!wf.check_memory(1024 * 1024));
    assert!(wf.is_circuit_breaker_active());
}

#[test]
fn walk_forward_test_shadow_mode() {
    let mut wf = CryptoWalkForward::new(6_500_000_000, 0.0);

    assert!(!wf.shadow_mode);
    wf.enable_shadow_mode();
    assert!(wf.shadow_mode);

    wf.run_iteration(0, true, OptResult::new(0.0), false);
    assert!(wf.shadow_log_count() > 0);

    wf.disable_shadow_mode();
}

#[test]
fn test_aggregate_stats() {
    let mut wf = CryptoWalkForward::new(6_500_000_000, 0.0);

    for i in 0..5usize {
        let result = OptResult {
            sharpe_ratio: 1.0 + (i as f64 * 0.1),
            max_drawdown: 0.1,
            total_return: 0.1,
            win_rate: 0.5,
            profit_factor: 1.5,
            trades_count: 10,
        };
        let improves = result.sharpe_ratio > wf.get_best_result().sharpe_ratio;
        wf.run_iteration(i, true, result, improves);
    }

    let stats = wf.aggregate_is_stats();
    let sum: f64 = stats.periods.iter().map(|p| wf.is_results[*p].sharpe_ratio).sum();
    assert!(sum / stats.periods.len() as f64 > 1.0);
    assert!(stats.trades > 0);
}

#[test]
fn aggregate_counts_periods_and_trades() {
    let mut wf = CryptoWalkForward::new(6_500_000_000, 0i64);
    let mut result = OptResult::new(0i64);
    result.trades_count = 7;
    assert!(wf.run_iteration(2, true, result, true));
    assert!(wf.run_iteration(4, true, result, false));
    let stats = wf.aggregate_is_stats();
    assert_eq!(stats.periods, vec![2, 4]);
    assert_eq!(stats.trades, 14);
    assert_eq!(wf.aggregate_oos_stats().trades, 0);
}
