use trading_core::execution::iceberg_handler::{IcebergHandler, IcebergOrder, IcebergState};
use trading_core::execution::queue::latency_arb::{ArbOpportunity, LatencyArbDetector, VenueState};
use trading_core::execution::queue::maker_fill_prob::{
    BookState, FillHistory, MakerFillProbability, FIXED_SCALE,
};
use trading_core::execution::queue::queue_position::{
    QueuePositionEstimator, QueuePositionState, TradeFlowBuffer,
};
use trading_core::execution::smart_router::{RoutingDecision, SmartRouter, VenueHealth};
use trading_core::execution::twap_vwap::{AlgoType, ChildOrder, ExecutionAlgo, Side};

#[test]
fn test_iceberg_order_size() {
    assert_eq!(core::mem::size_of::<IcebergOrder>(), 128);
}

#[test]
fn test_create_iceberg() {
    let mut handler = IcebergHandler::new();

    let idx = handler.create_iceberg(1, 10000, 50000, 0, 0, 1);
    assert!(idx.is_some());

    let order = handler.get_order(idx.unwrap()).unwrap();
    assert_eq!(order.total_qty, 10000);
    assert_eq!(order.state, IcebergState::Active as u8);
    assert!(order.visible_qty > 0);
    assert!(order.visible_qty < order.total_qty);
}

#[test]
fn test_queue_position_update() {
    let mut handler = IcebergHandler::new();
    let idx = handler.create_iceberg(1, 10000, 50000, 0, 0, 1).unwrap();

    handler.update_queue_position(idx, 5, 5000, 10000);

    let order = handler.get_order(idx).unwrap();
    assert_eq!(order.queue_position, 5);
    assert_eq!(order.volume_ahead, 5000);
}

#[test]
fn test_process_fill() {
    let mut handler = IcebergHandler::new();
    let idx = handler.create_iceberg(1, 10000, 50000, 0, 0, 1).unwrap();

    let initial_visible = handler.orders[idx as usize].remaining_visible;

    handler.process_level_fill(idx, 100, true, 2);

    let order = handler.get_order(idx).unwrap();
    assert_eq!(order.filled_qty, 100);
    assert_eq!(order.remaining_visible, initial_visible - 100);
    assert_eq!(order.state, IcebergState::PartiallyFilled as u8);
}

#[test]
fn test_visible_refill() {
    let mut handler = IcebergHandler::new();
    handler.set_display_ratio_bp(1000);

    let idx = handler.create_iceberg(1, 1000, 50000, 0, 0, 1).unwrap();

    handler.process_level_fill(idx, 100, true, 2);

    let order = handler.get_order(idx).unwrap();
    assert!(order.remaining_visible > 0 || order.filled_qty >= order.total_qty);
}

#[test]
fn iceberg_handler_test_fill_probability() {
    let mut handler = IcebergHandler::new();
    let idx = handler.create_iceberg(1, 10000, 50000, 0, 0, 1).unwrap();

    handler.update_queue_position(idx, 2, 1000, 5000);
    handler.queue_positions[idx as usize].recent_fill_volume = 500;
    handler.queue_positions[idx as usize].recent_fill_count = 1;

    let prob = handler.fill_probability_bp(idx, 10);
    assert!(prob > 0);
}

#[test]
fn test_cancel_order() {
    let mut handler = IcebergHandler::new();
    let idx = handler.create_iceberg(1, 10000, 50000, 0, 0, 1).unwrap();

    assert_eq!(handler.num_active_orders(), 1);

    let cancelled = handler.cancel_order(idx);
    assert!(cancelled);

    let order = handler.get_order(idx).unwrap();
    assert_eq!(order.state, IcebergState::Cancelled as u8);
    assert_eq!(handler.num_active_orders(), 0);
}

#[test]
fn test_remaining_quantities() {
    let mut handler = IcebergHandler::new();
    let idx = handler.create_iceberg(1, 10000, 50000, 0, 0, 1).unwrap();

    let order = handler.get_order(idx).unwrap();
    assert_eq!(order.remaining_total(), 10000);
    assert_eq!(order.remaining_hidden(), 10000 - order.visible_qty);

    handler.process_level_fill(idx, 5000, true, 2);

    let order = handler.get_order(idx).unwrap();
    assert_eq!(order.remaining_total(), 5000);
}

#[test]
fn iceberg_quantities_add_up() {
    let mut handler = IcebergHandler::new();
    let idx = handler.create_iceberg(1, 777, 10, 1, 2, 1).unwrap();
    for k in 0..6 {
        handler.process_level_fill(idx, 100, true, 2 + k);
        let order = handler.get_order(idx).unwrap();
        assert_eq!(order.filled_qty + order.remaining_total(), 777);
        assert!(order.remaining_visible <= order.remaining_total());
    }
    assert!(handler.get_order(256).is_none());
}

#[test]
fn test_routing_decision_size() {
    assert_eq!(core::mem::size_of::<RoutingDecision>(), 48);
}

#[test]
fn smart_router_test_venue_registration() {
    let mut router = SmartRouter::new();
    router.register_venue(0, 1);
    router.register_venue(1, 1);

    assert_eq!(router.num_venues, 2);
    assert_eq!(router.get_venue_health(0), VenueHealth::Healthy);
}

#[test]
fn test_latency_update() {
    let mut router = SmartRouter::new();
    router.register_venue(0, 1);

    router.update_venue_latency(0, 100_000);
    router.update_venue_latency(0, 200_000);

    let avg = router.venues[0].avg_latency_ns;
    assert!(avg > 100_000 && avg < 200_000);
}

#[test]
fn test_routing_decision() {
    let mut router = SmartRouter::new();
    router.register_venue(0, 1);
    router.register_venue(1, 1);

    router.update_venue_latency(0, 50_000);
    router.update_venue_latency(1, 200_000);
    router.update_venue_liquidity(0, 10000, 10000, 49990, 50010);
    router.update_venue_liquidity(1, 1000, 1000, 49990, 50010);

    let decision = router.route_buy(100);
    assert_eq!(decision.venue_id, 0);
    assert!(decision.confidence_score > 0);
}

#[test]
fn test_toxicity_penalty() {
    let mut router = SmartRouter::new();
    router.register_venue(0, 1);
    router.register_venue(1, 1);

    router.update_venue_latency(0, 100_000);
    router.update_venue_latency(1, 100_000);
    router.update_venue_liquidity(0, 10000, 10000, 49990, 50010);
    router.update_venue_liquidity(1, 10000, 10000, 49990, 50010);

    router.update_toxicity_score(0, 8000);

    let decision = router.route_buy(100);
    assert_eq!(decision.venue_id, 1);
}

#[test]
fn test_split_order() {
    let mut router = SmartRouter::new();
    router.register_venue(0, 1);
    router.register_venue(1, 1);

    router.update_venue_liquidity(0, 5000, 5000, 49990, 50010);
    router.update_venue_liquidity(1, 5000, 5000, 49990, 50010);

    let decisions = router.split_order(10000, 2);

    assert!(decisions[0].venue_id != 0xFF || decisions[1].venue_id != 0xFF);
}

#[test]
fn test_routing_disable() {
    let mut router = SmartRouter::new();
    router.register_venue(0, 1);

    let decision_before = router.route_buy(100);
    assert_ne!(decision_before.venue_id, 0xFF);

    router.disable_routing();

    let decision_after = router.route_buy(100);
    assert_eq!(decision_after.venue_id, 0xFF);
}

#[test]
fn router_without_venues_routes_nowhere() {
    let router = SmartRouter::new();
    assert_eq!(router.route_sell(1).venue_id, 0xFF);
}

#[test]
fn test_child_order_size() {
    assert_eq!(core::mem::size_of::<ChildOrder>(), 64);
}

#[test]
fn test_twap_creation() {
    let algo = ExecutionAlgo::new_twap(10000, 60000, 60);
    assert_eq!(algo.algo_type, AlgoType::Twap as u8);
    assert_eq!(algo.parent_qty, 10000);
    assert_eq!(algo.duration_ms, 60000);
    assert_eq!(algo.num_slices, 60);
}

#[test]
fn test_vwap_creation() {
    let algo = ExecutionAlgo::new_vwap(10000, 360000);
    assert_eq!(algo.algo_type, AlgoType::Vwap as u8);
    assert_eq!(algo.num_slices, 96);
}

#[test]
fn test_pov_creation() {
    let algo = ExecutionAlgo::new_pov(10000, 500);
    assert_eq!(algo.algo_type, AlgoType::Pov as u8);
    assert_eq!(algo.pov_rate_bp, 500);
}

#[test]
fn test_twap_slice_generation() {
    let mut algo = ExecutionAlgo::new_twap(1000, 60000, 10);
    algo.generate_twap_slices();

    let num_children = algo.num_children;
    assert_eq!(num_children, 10);

    let total: u64 = algo.child_orders.iter().take(10).map(|o| o.quantity).sum();
    assert_eq!(total, 1000);
}

#[test]
fn vwap_slices_sum_to_the_parent() {
    let mut algo = ExecutionAlgo::new_vwap(100_003, 86_400_000);
    algo.generate_vwap_slices();
    let n = algo.num_children as usize;
    let total: u64 = algo.child_orders.iter().take(n).map(|o| o.quantity).sum();
    assert_eq!(total, 100_003);
}

#[test]
fn test_execution_progress() {
    let mut algo = ExecutionAlgo::new_twap(1000, 60000, 10);

    assert_eq!(algo.get_progress_bp(), 0);

    algo.update_fill(1, 100, 50000, 1);
    assert_eq!(algo.get_progress_bp(), 1000);

    algo.update_fill(2, 200, 50100, 2);
    assert_eq!(algo.get_progress_bp(), 3000);
}

#[test]
fn test_avg_fill_price() {
    let mut algo = ExecutionAlgo::new_twap(1000, 60000, 10);

    algo.update_fill(1, 100, 50000, 1);
    assert_eq!(algo.avg_fill_price, 50000);

    algo.update_fill(2, 100, 50200, 2);
    assert_eq!(algo.avg_fill_price, 50100);
}

#[test]
fn test_slippage_calculation() {
    let mut algo = ExecutionAlgo::new_twap(1000, 60000, 10);
    algo.set_side(Side::Buy);

    algo.update_fill(1, 100, 50100, 1);

    let slippage = algo.get_slippage_bp(50000);
    assert_eq!(slippage, 20);
}

#[test]
fn test_pov_size_calculation() {
    let algo = ExecutionAlgo::new_pov(10000, 500);

    let size = algo.calculate_pov_size(100000);
    assert_eq!(size, 5000);
}

#[test]
fn test_completion_check() {
    let mut algo = ExecutionAlgo::new_twap(1000, 60000, 10);

    assert!(!algo.is_complete());

    algo.update_fill(1, 500, 50000, 1);
    assert!(!algo.is_complete());

    algo.update_fill(2, 500, 50000, 2);
    assert!(algo.is_complete());
}

#[test]
fn latency_arb_test_cache_line_alignment() {
    assert!(core::mem::size_of::<VenueState>() == 64);
    assert!(core::mem::size_of::<ArbOpportunity>() == 64);
    assert!(core::mem::size_of::<LatencyArbDetector>() % 64 == 0);
}

#[test]
fn test_venue_update() {
    let mut detector = LatencyArbDetector::new();

    detector.update_venue(0, 100_000_000, 100_100_000, 1, 10);
    detector.update_venue(1, 99_900_000, 100_000_000, 2, 20);

    assert_eq!(detector.global_best_bid, 100_000_000);
    assert_eq!(detector.global_best_ask, 100_000_000);
}

#[test]
fn latency_arb_test_arbitrage_detection() {
    let mut detector = LatencyArbDetector::new();

    detector.update_venue(0, 100_000_000, 100_200_000, 1, 10);
    detector.update_venue(1, 99_800_000, 100_000_000, 2, 20);

    let opp = detector.detect_arbitrage(30);
    assert!(opp.is_some());

    let opp = opp.unwrap();
    assert!(opp.profit_bps > 0);
}

#[test]
fn disabled_detector_finds_nothing() {
    let mut detector = LatencyArbDetector::new();
    detector.update_venue(0, 100_000_000, 100_200_000, 1, 10);
    detector.update_venue(1, 99_800_000, 100_000_000, 2, 20);
    detector.set_enabled(false);
    assert!(detector.detect_arbitrage(30).is_none());
}

#[test]
fn maker_fill_prob_test_cache_line_alignment() {
    assert!(core::mem::size_of::<BookState>() == 64);
    assert!(core::mem::size_of::<FillHistory>() == 64);
    assert!(core::mem::size_of::<MakerFillProbability>() % 64 == 0);
}

#[test]
fn test_probability_calculation() {
    let mut estimator = MakerFillProbability::new();

    let mut state = BookState::default();
    state.bid_depth[0] = 1000;
    state.bid_depth[1] = 500;
    state.imbalance = 10_000_000;

    estimator.update_book_state(&state, 1);

    let prob = estimator.calculate_probability(0, 100);
    assert!(prob > 0);
    assert!(prob <= FIXED_SCALE);
}

#[test]
fn test_bayesian_update() {
    let mut estimator = MakerFillProbability::new();

    assert_eq!(estimator.get_posterior(), FIXED_SCALE / 2);

    for _ in 0..5 {
        estimator.update_posterior(true);
    }
    for _ in 0..2 {
        estimator.update_posterior(false);
    }

    assert!(estimator.get_posterior() > FIXED_SCALE / 2);
}

#[test]
fn outcome_moves_the_posterior() {
    let mut estimator = MakerFillProbability::new();
    let before = estimator.get_posterior();
    estimator.update_posterior(true);
    let up = estimator.get_posterior();
    assert!(up > before);
    estimator.update_posterior(false);
    assert!(estimator.get_posterior() < up);
}

#[test]
fn queue_position_test_cache_line_alignment() {
    assert!(core::mem::size_of::<QueuePositionState>() == 64);
    assert!(core::mem::size_of::<TradeFlowBuffer>() % 64 == 0);
    assert!(core::mem::size_of::<QueuePositionEstimator>() % 64 == 0);
}

#[test]
fn test_queue_position_basic() {
    let mut estimator = QueuePositionEstimator::new();
    estimator.initialize(12345, 1000, 5000, 1);

    assert_eq!(estimator.current_position(), 1000);

    estimator.update_trade_flow(500, true, 2);
    assert_eq!(estimator.current_position(), 500);

    estimator.update_trade_flow(600, true, 3);
    assert!(estimator.current_position() == 0);
}

#[test]
fn queue_position_test_fill_probability() {
    let mut estimator = QueuePositionEstimator::new();
    estimator.initialize(12345, 1000, 5000, 1);

    assert_eq!(estimator.fill_probability(1000), 0);

    for k in 0..10u64 {
        estimator.update_trade_flow(100, true, 2 + k);
    }

    let prob = estimator.fill_probability(1000);
    assert!(prob > 0);
}

#[test]
fn split_goes_to_different_venues() {
    let mut router = SmartRouter::new();
    for v in 0..3u8 {
        router.register_venue(v, 0);
        router.update_venue_liquidity(v, 5000, 5000, 49990, 50010);
    }
    router.update_venue_latency(1, 1);
    let decisions = router.split_order(10000, 4);
    assert_eq!(decisions[0].venue_id, 1);
    assert_eq!(decisions[0].available_liquidity, 3333);
    assert_eq!(decisions[1].venue_id, 0);
    assert_eq!(decisions[2].venue_id, 2);
    assert_eq!(decisions[3].venue_id, 0xFF);
    let handed: u64 = decisions.iter().map(|d| d.available_liquidity).sum();
    assert!(handed <= 10000);
}

#[test]
fn withdrawn_quote_is_no_liquidity() {
    let mut router = SmartRouter::new();
    router.register_venue(0, 0);
    assert_eq!(router.route_buy(100).venue_id, 0);
    router.update_venue_liquidity(0, 5000, 5000, 49990, 50010);
    assert_eq!(router.route_buy(100).venue_id, 0);
    router.update_venue_liquidity(0, 0, 0, 0, 0);
    assert_eq!(router.route_buy(100).venue_id, 0xFF);
}

#[test]
fn unhealthy_venue_scores_zero() {
    let mut router = SmartRouter::new();
    router.register_venue(0, 0);
    router.register_venue(1, 0);
    router.update_venue_liquidity(0, 9000, 9000, 49990, 50010);
    router.update_venue_liquidity(1, 9000, 9000, 49990, 50010);
    router.update_toxicity_score(0, 2000);
    router.update_toxicity_score(1, 8000);
    let decision = router.route_sell(100);
    assert_eq!((decision.venue_id, decision.penalty_applied), (0, 4000));
    assert_eq!(decision.confidence_score, 10_000);

    router.record_heartbeat(0, 1, 0, 600_000_000);
    assert_eq!(router.get_venue_health(0), VenueHealth::Unhealthy);
    assert_eq!(router.route_sell(100).venue_id, 1);
    router.record_heartbeat(1, 1, 0, 600_000_000);
    let decision = router.route_sell(100);
    assert_eq!((decision.venue_id, decision.confidence_score), (0, 100));
}

#[test]
fn active_orders_are_counted_once() {
    let mut handler = IcebergHandler::new();
    assert!(handler.cancel_order(0));
    assert_eq!(handler.get_order(0).unwrap().state, IcebergState::Cancelled as u8);
    assert!(!handler.cancel_order(0));
    assert_eq!(handler.num_active_orders(), 0);
    let a = handler.create_iceberg(1, 100, 50, 0, 0, 1).unwrap();
    let b = handler.create_iceberg(2, 100, 50, 0, 0, 1).unwrap();
    assert_eq!(handler.num_active_orders(), 2);
    handler.process_level_fill(a, 100, true, 2);
    handler.process_level_fill(a, 5, true, 3);
    assert_eq!(handler.num_active_orders(), 1);
    assert_eq!(handler.get_order(a).unwrap().state, IcebergState::Completed as u8);
    assert!(handler.cancel_order(b));
    assert_eq!(handler.num_active_orders(), 0);
    handler.process_level_fill(b, 40, true, 4);
    assert_eq!(handler.get_order(b).unwrap().state, IcebergState::PartiallyFilled as u8);
    assert_eq!(handler.num_active_orders(), 1);
}

#[test]
fn order_without_id_leaves_its_slot_free() {
    let mut handler = IcebergHandler::new();
    assert_eq!(handler.create_iceberg(0, 100, 50, 0, 0, 1), Some(0));
    assert_eq!(handler.get_order(0).unwrap().state, IcebergState::Active as u8);
    assert_eq!(handler.num_active_orders(), 1);
    assert_eq!(handler.create_iceberg(7, 100, 50, 0, 0, 1), Some(0));
    assert_eq!(handler.num_active_orders(), 1);
}

#[test]
fn first_order_of_a_slot_is_due() {
    let mut algo = ExecutionAlgo::new_vwap(9600, 0);
    algo.start(12_345_678);
    let order = algo.get_next_order().unwrap();
    assert_eq!(order.order_id, 1);
    assert_eq!(algo.get_next_order().unwrap().order_id, 1);
    algo.update_fill(1, order.quantity, 100, 1);
    assert!(algo.get_next_order().is_none());
}

#[test]
fn last_pair_makes_the_opportunity() {
    let mut detector = LatencyArbDetector::new();
    for i in 0..16usize {
        detector.update_venue(i, 100_000, 101_000, i as u32, 10);
    }
    assert!(detector.detect_arbitrage(20).is_none());
    detector.update_venue(3, 89_000, 90_000, 3, 11);
    detector.update_venue(5, 120_000, 121_000, 5, 12);
    let opp = detector.detect_arbitrage(20).unwrap();
    assert_eq!((opp.buy_venue, opp.sell_venue), (5, 15));
    assert_eq!(opp.profit_bps, 19_000 * 10_000 / 120_000);
    assert!(detector.should_pull_quote(15) && !detector.should_pull_quote(5));
}
