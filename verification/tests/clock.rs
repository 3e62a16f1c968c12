use trading_core::clock::deterministic_seq::{DeterministicSequencer, GapDetector, ReorderBuffer};
use trading_core::clock::global_clock::{CausalityMatrix, EventTimestamp, VectorClock};
use trading_core::clock::time_warp_guard::{
    ClockDriftMonitor, TimeWarpGuard, TimestampValidator, CIRCUIT_BREAKER_THRESHOLD,
};

#[test]
fn test_deterministic_sequencer_basic() {
    let mut seq = DeterministicSequencer::default();
    let mut buffer = ReorderBuffer::default();

    assert!(seq.process_event(0, 0, &mut buffer));
    assert!(seq.process_event(0, 1, &mut buffer));
    assert!(seq.process_event(0, 2, &mut buffer));

    assert_eq!(seq.get_processed_count(), 3);
    assert_eq!(seq.get_ooo_count(), 0);
}

#[test]
fn test_out_of_order_handling() {
    let mut seq = DeterministicSequencer::default();
    let mut buffer = ReorderBuffer::default();

    assert!(seq.process_event(0, 0, &mut buffer));

    assert!(!seq.process_event(0, 2, &mut buffer));

    assert!(seq.process_event(0, 1, &mut buffer));

    assert_eq!(seq.get_processed_count(), 3);
    assert_eq!(seq.get_ooo_count(), 1);
}

#[test]
fn test_reorder_buffer_operations() {
    let mut buffer = ReorderBuffer::default();

    assert!(buffer.insert(0, 5, 1000, 0xDEADBEEF));
    assert!(buffer.insert(0, 6, 1001, 0xCAFEBABE));

    assert_eq!(buffer.occupancy(), 2);

    let payload = buffer.find_and_remove(0, 5);
    assert_eq!(payload, 0xDEADBEEF);

    assert_eq!(buffer.occupancy(), 1);
}

#[test]
fn removed_event_is_gone() {
    let mut buffer = ReorderBuffer::default();
    assert!(buffer.insert(3, 9, 1, 77));
    assert_eq!(buffer.take_matching(3, 9), Some(77));
    assert_eq!(buffer.take_matching(3, 9), None);
    assert_eq!(buffer.find_and_remove(3, 9), 0);
}

#[test]
fn test_gap_detector() {
    let mut detector = GapDetector::default();

    detector.record(0, 0);
    detector.record(0, 1);
    assert_eq!(detector.get_gap_count(0), 0);

    detector.record(0, 5);
    assert_eq!(detector.get_gap_count(0), 1);
    assert_eq!(detector.get_max_gap(0), 3);
}

#[test]
fn test_simd_validation() {
    let mut seq = DeterministicSequencer::default();

    let initial = [0u64, 5u64, 10u64, 15u64];
    seq.init(&initial);

    let venue_ids = [0, 1, 2, 3];
    let seq_nums = [0u64, 6u64, 9u64, 15u64];

    let mask = seq.simd_validate_sequences(&venue_ids, &seq_nums);

    assert_eq!(mask, 0b1011);
}

#[test]
fn test_duplicate_handling() {
    let mut seq = DeterministicSequencer::default();
    let mut buffer = ReorderBuffer::default();

    assert!(seq.process_event(0, 0, &mut buffer));
    assert!(seq.process_event(0, 1, &mut buffer));

    assert!(!seq.process_event(0, 0, &mut buffer));

    assert_eq!(seq.get_processed_count(), 2);
}

#[test]
fn test_buffer_wraparound() {
    let mut buffer = ReorderBuffer::default();

    for i in 0..100u64 {
        buffer.insert(0, i, i, i);
    }

    for i in 0..50u64 {
        buffer.find_and_remove(0, i);
    }

    for i in 100..150u64 {
        buffer.insert(0, i, i, i);
    }

    assert!(buffer.occupancy() > 0);
}

#[test]
fn test_vector_clock_basic() {
    let mut clock = VectorClock::default();
    clock.init(4);

    assert_eq!(clock.get_clock(0), 0);

    clock.tick(0);
    assert_eq!(clock.get_clock(0), 1);

    clock.tick(0);
    clock.tick(1);
    assert_eq!(clock.get_clock(0), 2);
    assert_eq!(clock.get_clock(1), 1);
}

#[test]
fn ticks_add_up() {
    let mut clock = VectorClock::default();
    clock.init(3);
    clock.tick(0);
    clock.tick(2);
    clock.tick(2);
    assert_eq!(clock.total_ticks(), 3);
}

#[test]
fn test_vector_clock_receive() {
    let mut clock = VectorClock::default();
    clock.init(2);

    clock.receive(0, 5);
    assert_eq!(clock.get_clock(0), 6);
}

#[test]
fn test_causality_matrix() {
    let mut matrix = CausalityMatrix::default();

    matrix.record_causality(0, 1, 1000);
    assert_eq!(matrix.get_causality(0, 1), 1000);

    matrix.record_causality(0, 1, 2000);
    assert_eq!(matrix.get_causality(0, 1), 2000);
}

#[test]
fn test_out_of_order_detection() {
    let mut matrix = CausalityMatrix::default();

    matrix.record_causality(0, 0, 1000);
    assert!(!matrix.detect_out_of_order(0, 1001));
    assert!(matrix.detect_out_of_order(0, 999));
}

#[test]
fn test_event_timestamp_ordering() {
    let event_a = EventTimestamp::new(100, 1000, 0, 1);
    let event_b = EventTimestamp::new(101, 999, 1, 1);
    let event_c = EventTimestamp::new(100, 1001, 0, 2);

    assert_eq!(event_a.compare(&event_b), core::cmp::Ordering::Less);
    assert_eq!(event_a.compare(&event_c), core::cmp::Ordering::Less);
    assert_eq!(event_b.compare(&event_c), core::cmp::Ordering::Greater);
}

#[test]
fn event_equals_itself() {
    let event = EventTimestamp::new(100, 1000, 0, 1);
    assert_eq!(event.compare(&event), core::cmp::Ordering::Equal);
}

#[test]
fn test_simd_venue_comparison() {
    let mut clock = VectorClock::default();
    clock.init(4);

    clock.tick(0);
    clock.tick(1);
    clock.tick(1);
    clock.tick(2);
    clock.tick(3);
    clock.tick(3);
    clock.tick(3);

    let venues = [0, 1, 2, 3];
    let result = clock.simd_compare_venues(venues);

    assert_eq!(result[0], 1);
    assert_eq!(result[1], 2);
    assert_eq!(result[2], 1);
    assert_eq!(result[3], 3);
}

#[test]
fn test_happened_before() {
    let clock = VectorClock::default();

    assert!(clock.happened_before(100, 200, 0, 0));
    assert!(!clock.happened_before(200, 100, 0, 0));

    assert!(clock.happened_before(100, 200, 0, 1));
}

#[test]
fn test_time_warp_detection() {
    let mut guard = TimeWarpGuard::default();
    guard.init(1_000_000_000, 0);

    assert!(guard.validate_timestamp(1_001_000_000, 0));

    assert!(!guard.validate_timestamp(500_000_000, 0));

    assert!(guard.get_anomaly_count() >= 1);
}

#[test]
fn time_warp_guard_test_circuit_breaker() {
    let mut guard = TimeWarpGuard::default();
    guard.init(1_000_000_000, 0);

    for _ in 0..CIRCUIT_BREAKER_THRESHOLD + 1 {
        guard.validate_timestamp(500_000_000, 0);
    }

    assert!(guard.is_trading_halted());

    assert!(!guard.validate_timestamp(2_000_000_000, 0));
}

#[test]
fn test_circuit_breaker_reset() {
    let mut guard = TimeWarpGuard::default();
    guard.init(1_000_000_000, 0);

    for _ in 0..CIRCUIT_BREAKER_THRESHOLD + 1 {
        guard.validate_timestamp(500_000_000, 0);
    }

    assert!(guard.is_trading_halted());

    guard.reset_circuit_breaker();
    assert!(!guard.is_trading_halted());
    assert_eq!(guard.get_anomaly_count(), 0);
}

#[test]
fn test_clock_drift_monitor() {
    let mut monitor = ClockDriftMonitor::default();

    monitor.sync(1_000_000_000, 1_000_100_000, 1000);
    assert_eq!(monitor.get_offset_ns(), 100_000_000);

    monitor.sync(2_000_000_000, 2_000_200_000, 2000);
    assert!(monitor.get_drift_rate_ns_per_sec() != 0 || monitor.get_offset_ns() == 200_000_000);
}

#[test]
fn test_timestamp_validator() {
    let mut validator = TimestampValidator::default();
    validator.set_valid_range(0, 10_000_000_000_000);

    let current = 5_000_000_000_000;

    assert!(validator.validate(4_999_000_000_000, current));

    assert!(!validator.validate(4_000_000_000_000, current));

    assert!(!validator.validate(11_000_000_000_000, current));

    assert!(validator.get_rejected_count() >= 2);
}

#[test]
fn test_simd_multi_validation() {
    let mut guard = TimeWarpGuard::default();
    guard.init(1_000_000_000, 0);

    let timestamps = [1_001_000_000, 500_000_000, 1_002_000_000, 400_000_000];

    let mask = guard.simd_validate_multiple(&timestamps);

    assert_eq!(mask, 0b0101);
}

#[test]
fn test_force_halt() {
    let mut guard = TimeWarpGuard::default();
    guard.init(1_000_000_000, 0);

    assert!(!guard.is_trading_halted());

    guard.force_halt();

    assert!(guard.is_trading_halted());
    assert!(guard.circuit_breaker_tripped);
}

#[test]
fn test_drift_prediction() {
    let mut monitor = ClockDriftMonitor::default();

    monitor.offset_ns = 100_000;
    monitor.drift_rate_ns_per_sec = 1000;

    let predicted = monitor.predict_offset_ns(10);
    assert_eq!(predicted, 110_000);
}

#[test]
fn valid_timestamp_ends_a_row_of_warps() {
    let mut guard = TimeWarpGuard::default();
    guard.init(1_000_000_000, 0);
    assert!(!guard.validate_timestamp(500_000_000, 0));
    assert!(!guard.validate_timestamp(500_000_000, 0));
    assert_eq!(guard.get_anomaly_count(), 2);
    assert!(guard.validate_timestamp(1_000_000_001, 0));
    assert_eq!(guard.get_anomaly_count(), 0);
    assert!(!guard.validate_timestamp(500_000_000, 0));
    assert!(!guard.is_trading_halted());
}

#[test]
fn occupancy_counts_the_events_held() {
    let mut buffer = ReorderBuffer::default();
    assert!(buffer.insert(0, 5, 1000, 0xA));
    assert!(buffer.insert(0, 6, 1001, 0xB));
    assert!(buffer.insert(0, 7, 1002, 0xC));
    assert_eq!(buffer.find_and_remove(0, 6), 0xB);
    assert_eq!(buffer.occupancy(), 2);
    assert_eq!(buffer.find_and_remove(0, 6), 0);
    assert_eq!(buffer.oldest_timestamp(), 1000);
    assert_eq!(buffer.find_and_remove(0, 5), 0xA);
    assert_eq!(buffer.oldest_timestamp(), 1002);
    assert_eq!(buffer.find_and_remove(0, 7), 0xC);
    assert_eq!(buffer.occupancy(), 0);
}

#[test]
fn search_reaches_events_behind_those_taken_out() {
    let mut buffer = ReorderBuffer::default();
    assert!(buffer.insert(1, 0, 0, 1));
    for i in 1..200u64 {
        assert!(buffer.insert(0, i, i, i));
        assert_eq!(buffer.find_and_remove(0, i), i);
    }
    assert_eq!(buffer.occupancy(), 1);
    buffer.clear();
    assert_eq!(buffer.occupancy(), 0);
    assert_eq!(buffer.find_and_remove(1, 0), 0);
}
