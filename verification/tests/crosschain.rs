use trading_core::crosschain::bridge_flow::{
    ArbitrageSpreadCalculator, BridgeEventTracker, BridgeLiquidity, FP_SCALE,
};
use trading_core::crosschain::l2_monitor::{BatchSubmissionTracker, L2Chain, L2SequencerHealth};
use trading_core::crosschain::mev_protector::{
    AbiDecoderState, DexRouteTracker, MempoolMonitor, PendingTxBuffer, PendingTxEntry,
};

#[test]
fn test_bridge_lock_unlock() {
    let mut liq = BridgeLiquidity::default();
    liq.init_bridge(0, 1_000_000 * FP_SCALE, 1);

    assert!(liq.lock_assets(0, 100_000 * FP_SCALE, 2));
    assert_eq!(liq.get_source_liquidity(0), 900_000 * FP_SCALE);
    assert_eq!(liq.get_locked_amount(0), 100_000 * FP_SCALE);

    assert!(liq.unlock_assets(0, 100_000 * FP_SCALE, 3));
    assert_eq!(liq.get_locked_amount(0), 0);
    assert_eq!(liq.get_dest_liquidity(0), 1_100_000 * FP_SCALE);
}

#[test]
fn test_insufficient_liquidity() {
    let mut liq = BridgeLiquidity::default();
    liq.init_bridge(0, 100_000 * FP_SCALE, 1);

    assert!(!liq.lock_assets(0, 200_000 * FP_SCALE, 2));
}

#[test]
fn lock_moves_liquidity_without_losing_any() {
    let mut liq = BridgeLiquidity::default();
    liq.init_bridge(2, 500, 1);
    assert!(liq.lock_assets(2, 120, 2));
    assert_eq!(liq.get_source_liquidity(2) + liq.get_locked_amount(2), 500);
    assert!(!liq.unlock_assets(2, 121, 3));
    assert_eq!(liq.get_dest_liquidity(2), 500);
}

#[test]
fn test_event_tracking() {
    let mut tracker = BridgeEventTracker::default();

    tracker.record_lock(0, 100_000 * FP_SCALE);
    tracker.record_lock(0, 50_000 * FP_SCALE);
    tracker.record_unlock(0, 75_000 * FP_SCALE);

    assert_eq!(tracker.get_lock_count(0), 2);
    assert_eq!(tracker.get_unlock_count(0), 1);
    assert_eq!(tracker.get_tvl(0), 150_000 * FP_SCALE);
    assert_eq!(tracker.get_pending_unlocks(0), 75_000 * FP_SCALE);
}

#[test]
fn bridge_flow_test_arbitrage_detection() {
    let mut calc = ArbitrageSpreadCalculator::default();

    calc.update_prices(0, 100_000, 100_000, 100);
    assert!(!calc.is_arb_opportunity(0));

    calc.update_prices(0, 100_000, 100_500, 100);
    assert!(calc.is_arb_opportunity(0));

    let direction = calc.get_arb_direction(0);
    assert!(direction > 0);
}

#[test]
fn test_simd_liquidity_check() {
    let mut liq = BridgeLiquidity::default();
    liq.init_bridge(0, 1_000_000, 1);
    liq.init_bridge(1, 500_000, 1);
    liq.init_bridge(2, 100_000, 1);
    liq.init_bridge(3, 2_000_000, 1);

    let bridges = [0, 1, 2, 3];
    let mask = liq.simd_check_liquidity(bridges, 200_000);

    assert_eq!(mask, 0b1011);
}

#[test]
fn test_best_arb_finder() {
    let mut calc = ArbitrageSpreadCalculator::default();

    calc.update_prices(0, 100_000, 100_100, 50);
    calc.update_prices(1, 100_000, 101_000, 50);

    let best = calc.find_best_arb();
    assert_eq!(best, Some((1, 950)));
}

#[test]
fn test_lock_unlock_ratio() {
    let mut tracker = BridgeEventTracker::default();

    tracker.record_lock(0, 100);
    tracker.record_lock(0, 100);
    tracker.record_lock(0, 100);
    tracker.record_unlock(0, 100);

    let ratio = tracker.get_lock_unlock_ratio(0);
    assert_eq!(ratio, 3_000_000_000);
}

#[test]
fn test_sequencer_health_tracking() {
    let mut health = L2SequencerHealth::default();

    health.init_chain(L2Chain::Arbitrum, 100_000_000, 10);
    health.heartbeat(L2Chain::Arbitrum, 20);

    assert!(health.is_healthy(L2Chain::Arbitrum, 1_000_000_000, 30));
    assert_eq!(health.get_health_score(L2Chain::Arbitrum), 100_000_000);
}

#[test]
fn test_health_degradation_with_backlog() {
    let mut health = L2SequencerHealth::default();
    health.init_chain(L2Chain::Optimism, 100_000_000, 10);

    health.update_pending_batches(L2Chain::Optimism, 50);

    let score = health.get_health_score(L2Chain::Optimism);
    assert!(score < 100_000_000);
}

#[test]
fn test_batch_tracker() {
    let mut tracker = BatchSubmissionTracker::default();

    tracker.record_submission(L2Chain::Base, 100_000, 18_000_000, 500_000);
    tracker.record_submission(L2Chain::Base, 120_000, 18_000_001, 520_000);
    tracker.record_failure(L2Chain::Base);

    assert_eq!(tracker.get_total_submissions(L2Chain::Base), 2);
    assert_eq!(tracker.get_failure_count(L2Chain::Base), 1);

    let success_rate = tracker.get_success_rate(L2Chain::Base);
    assert_eq!(success_rate, 500_000);
}

#[test]
fn test_simd_health_check() {
    let mut health = L2SequencerHealth::default();

    health.init_chain(L2Chain::Arbitrum, 100_000_000, 10);
    health.init_chain(L2Chain::Optimism, 100_000_000, 10);
    health.init_chain(L2Chain::Base, 100_000_000, 10);
    health.init_chain(L2Chain::zkSync, 100_000_000, 10);

    health.heartbeat(L2Chain::Arbitrum, 20);
    health.heartbeat(L2Chain::Optimism, 20);
    health.heartbeat(L2Chain::Base, 20);
    health.heartbeat(L2Chain::zkSync, 20);

    let chains = [L2Chain::Arbitrum, L2Chain::Optimism, L2Chain::Base, L2Chain::zkSync];
    let mask = health.simd_health_check(chains, 1_000_000_000, 30);

    assert_eq!(mask, 0b1111);
}

#[test]
fn test_routing_pivot() {
    let mut health = L2SequencerHealth::default();

    health.init_chain(L2Chain::Arbitrum, 100_000_000, 10);
    health.init_chain(L2Chain::Optimism, 50_000_000, 10);

    health.mark_inactive(L2Chain::Arbitrum);

    let best = health.get_best_chain(0);
    assert_eq!(best, Some(L2Chain::Optimism));
}

#[test]
fn test_latency_tracking() {
    let mut health = L2SequencerHealth::default();
    health.init_chain(L2Chain::Base, 100_000_000, 10);

    health.update_batch_latency(L2Chain::Base, 100);
    health.update_batch_latency(L2Chain::Base, 200);
    health.update_batch_latency(L2Chain::Base, 300);

    let avg = health.get_batch_latency_us(L2Chain::Base);
    assert!(avg > 100 && avg < 300);
}

#[test]
fn inactive_chain_is_not_healthy() {
    let mut health = L2SequencerHealth::default();
    health.init_chain(L2Chain::Scroll, 100_000_000, 10);
    health.mark_inactive(L2Chain::Scroll);
    assert!(!health.is_healthy(L2Chain::Scroll, 1_000_000, 11));
    assert_eq!(health.get_best_chain(0), None);
}

fn pending(tx_hash: u64, gas_price: i64, timestamp: u64, is_swap: u8, risk_score: u8) -> PendingTxEntry {
    PendingTxEntry {
        tx_hash,
        gas_price,
        timestamp,
        dex_route: 0,
        is_swap,
        risk_score,
        _reserved: [0u8; 5],
    }
}

#[test]
fn test_abi_decoder_swap_detection() {
    let mut decoder = AbiDecoderState::default();

    decoder.function_selector = 0x38ed1739;
    assert!(decoder.is_swap_function());

    decoder.function_selector = 0x095ea7b3;
    assert!(!decoder.is_swap_function());
}

#[test]
fn test_pending_tx_buffer() {
    let mut buffer = PendingTxBuffer::default();

    let entry = pending(0xDEADBEEF, 150_000_000_000, 12345, 1, 50);

    assert!(buffer.insert(entry));
    assert_eq!(buffer.occupancy(), 1);

    let removed = buffer.remove_oldest();
    assert!(removed.is_some());
    assert_eq!(removed.unwrap().tx_hash, 0xDEADBEEF);
}

#[test]
fn test_sandwich_detection() {
    let mut monitor = MempoolMonitor::default();
    let mut buffer = PendingTxBuffer::default();

    for i in 0..3u64 {
        buffer.insert(pending(i, 120_000_000_000, 1000 + i, 1, 30));
    }

    let suspicious = pending(0xABCDEF, 200_000_000_000, 2000, 1, 80);

    assert!(monitor.analyze_for_sandwich(&suspicious, &buffer));
    assert!(monitor.is_sandwich_detected());
}

#[test]
fn mev_protector_test_risk_score_calculation() {
    let monitor = MempoolMonitor::default();
    let mut tracker = DexRouteTracker::default();
    tracker.init_route(0, 1_000_000_000);

    let low_risk_tx = pending(1, 50_000_000_000, 1000, 0, 0);
    let high_risk_tx = pending(2, 200_000_000_000, 1000, 1, 0);

    let low_score = monitor.calc_risk_score(&low_risk_tx, &tracker);
    let high_score = monitor.calc_risk_score(&high_risk_tx, &tracker);

    assert!(high_score > low_score);
}

#[test]
fn test_mev_extraction_tracking() {
    let mut tracker = DexRouteTracker::default();
    tracker.init_route(0, 10_000_000_000);

    tracker.update_after_trade(0, 1_000_000_000, 50);

    let mev = tracker.get_mev_extractable(0);
    assert!(mev > 0);

    let best = tracker.get_best_mev_route();
    assert_eq!(best, Some((0, mev)));
}

#[test]
fn test_simd_gas_check() {
    let mut monitor = MempoolMonitor::default();
    monitor.set_gas_threshold(100_000_000_000);

    let gas_prices = [50_000_000_000, 150_000_000_000, 80_000_000_000, 200_000_000_000];
    let mask = monitor.simd_check_high_gas(&gas_prices);

    assert_eq!(mask, 0b1010);
}

#[test]
fn pending_buffer_is_first_in_first_out() {
    let mut buffer = PendingTxBuffer::default();
    assert!(buffer.remove_oldest().is_none());
    for i in 0..256u64 {
        assert!(buffer.insert(pending(i, 1, 1, 0, 0)));
    }
    assert!(!buffer.insert(pending(256, 1, 1, 0, 0)));
    for i in 0..256u64 {
        assert_eq!(buffer.remove_oldest().unwrap().tx_hash, i);
    }
    assert_eq!(buffer.occupancy(), 0);
}

#[test]
fn direction_pays_the_fee() {
    let mut calc = ArbitrageSpreadCalculator::default();
    calc.update_prices(0, 100_001, 100_000, 100);
    assert_eq!(calc.get_arb_direction(0), 0);
    calc.update_prices(0, 100_300, 100_000, 100);
    assert_eq!(calc.get_arb_direction(0), -400);
    calc.update_prices(0, 100_000, 100_150, 100);
    assert_eq!(calc.get_arb_direction(0), 0);
    calc.update_prices(0, 100_000, 100_201, 100);
    assert_eq!(calc.get_arb_direction(0), 101);
    assert_eq!(calc.get_arb_direction(99), 0);
}
