use trading_core::defi::smart_contract_io::event_signatures;
use trading_core::defi::smart_contract_io::{ContractEvent, SmartContractIO, StateDelta};
use trading_core::defi::tvl_tracker::{ABIDecoder, ChainData, ProtocolData, TVLTracker};
use trading_core::defi::validator_metrics::{
    StakingYieldCalculator, ValidatorData, ValidatorMetricsTracker, SCALE,
};

fn contract_event(signature: u32, contract_address: u128, block_number: u64, log_index: u32) -> ContractEvent {
    ContractEvent {
        signature,
        contract_address,
        block_number,
        tx_index: 0,
        log_index,
        timestamp_ns: 1000,
        data_len: 32,
        processed: false,
        _padding: [0; 34],
    }
}

#[test]
fn test_smart_contract_io_initialization() {
    let mut io = SmartContractIO::new();
    assert_eq!(io.event_count, 0);
    assert_eq!(io.get_pending_count(), 0);
    assert!(!io.check_overflow());
}

#[test]
fn test_add_event() {
    let mut io = SmartContractIO::new();

    let event = contract_event(
        event_signatures::TRANSFER,
        0x90abcdef1234567890abcdef12345678u128,
        1000,
        0,
    );

    assert!(io.add_event(event));
    assert_eq!(io.get_pending_count(), 1);
}

#[test]
fn test_track_state_change() {
    let mut io = SmartContractIO::new();

    io.track_state_change(1u128, 100u128, 200u128, 0x1234u128, 1000, 2000);

    assert_eq!(io.delta_count, 1);

    let latest = io.get_latest_state(1u128, 0x1234u128);
    assert_eq!(latest, Some(200u128));
}

#[test]
fn latest_change_is_read_back() {
    let mut io = SmartContractIO::new();
    assert_eq!(io.get_latest_state(1, 9), None);
    io.track_state_change(1, 0, 5, 9, 10, 1);
    io.track_state_change(2, 0, 6, 9, 10, 1);
    io.track_state_change(1, 5, 7, 9, 11, 2);
    assert_eq!(io.get_latest_state(1, 9), Some(7));
    assert_eq!(io.get_latest_state(2, 9), Some(6));
    assert_eq!(io.get_latest_state(1, 8), None);
}

#[test]
fn test_event_iterator() {
    let mut io = SmartContractIO::new();

    for i in 0..5u32 {
        io.add_event(contract_event(
            if i % 2 == 0 { event_signatures::TRANSFER } else { event_signatures::SWAP },
            0x1000u128,
            1000 + i as u64,
            i,
        ));
    }

    let transfer_events: Vec<_> = io.get_events_by_signature(event_signatures::TRANSFER).collect();
    assert_eq!(transfer_events.len(), 3);
}

#[test]
fn test_mark_processed() {
    let mut io = SmartContractIO::new();

    for i in 0..5u32 {
        io.add_event(contract_event(event_signatures::TRANSFER, 0x1000u128, 1000 + i as u64, i));
    }

    io.mark_processed(3);
    assert_eq!(io.get_pending_count(), 2);
    assert_eq!(io.last_block, 1002);
}

#[test]
fn smart_contract_io_test_cache_line_alignment() {
    assert!(core::mem::size_of::<ContractEvent>() >= 64);
    assert!(core::mem::size_of::<StateDelta>() >= 64);
    assert!(core::mem::size_of::<SmartContractIO>() >= 64);
}

#[test]
fn event_log_overflow_is_flagged() {
    let mut io = SmartContractIO::new();
    for i in 0..4096u32 {
        assert!(io.add_event(contract_event(event_signatures::SWAP, 1, 1, i)));
    }
    assert!(!io.add_event(contract_event(event_signatures::SWAP, 1, 1, 4096)));
    assert!(io.check_overflow());
}

#[test]
fn test_tvl_tracker_initialization() {
    let tracker = TVLTracker::new(60_000);
    assert_eq!(tracker.get_total_tvl(), 0);
    assert_eq!(tracker.get_protocol_count(), 0);
}

#[test]
fn test_protocol_update() {
    let mut tracker = TVLTracker::new(60_000);

    tracker.update_protocol(1, 1, 1_000_000_000, 10_000_000, 100_000_000, 1000);

    assert_eq!(tracker.get_total_tvl(), 1_000_000_000);
    assert_eq!(tracker.get_protocol_count(), 1);
}

#[test]
fn test_multi_chain_aggregation() {
    let mut tracker = TVLTracker::new(60_000);

    tracker.update_protocol(1, 1, 500_000_000, 5_000_000, 50_000_000, 1000);
    tracker.update_protocol(2, 2, 300_000_000, 3_000_000, 30_000_000, 1000);
    tracker.update_protocol(3, 1, 200_000_000, 2_000_000, 20_000_000, 1000);

    assert_eq!(tracker.get_total_tvl(), 1_000_000_000);

    assert_eq!(tracker.get_chain_tvl(1), 700_000_000);
}

#[test]
fn test_stale_detection() {
    let tracker = TVLTracker::new(60_000);

    assert!(tracker.is_stale(100_000_000));
}

#[test]
fn tvl_tracker_test_cache_line_alignment() {
    assert!(core::mem::size_of::<ProtocolData>() >= 64);
    assert!(core::mem::size_of::<ChainData>() >= 64);
    assert!(core::mem::size_of::<TVLTracker>() >= 64);
}

#[test]
fn test_abi_decoder() {
    let data: [u8; 32] = [
        0, 0, 0, 0, 0, 0, 0, 0, 0, 0, 0, 0, 0, 0, 0, 0, 0, 0, 0, 0, 0, 0, 0, 0, 0, 0, 0, 0, 0, 0, 0,
        42,
    ];

    let value = ABIDecoder::decode_uint256(&data);
    assert_eq!(value, Some(42));
}

#[test]
fn short_data_is_not_decoded() {
    assert_eq!(ABIDecoder::decode_uint256(&[0u8; 31]), None);
}

#[test]
fn test_validator_tracker_initialization() {
    let tracker = ValidatorMetricsTracker::new(70);
    assert_eq!(tracker.get_total_staked(), 0);
    assert_eq!(tracker.get_slashed_count(), 0);
}

#[test]
fn test_validator_update() {
    let mut tracker = ValidatorMetricsTracker::new(70);

    tracker.update_validator(1, 1, 1_000_000, 500, 99 * SCALE, 2, 100, 1000);

    assert_eq!(tracker.get_total_staked(), 1_000_000);
    assert_eq!(tracker.get_high_risk_count(), 0);
}

#[test]
fn validator_metrics_test_risk_score_calculation() {
    let tracker = ValidatorMetricsTracker::new(70);

    let risk = tracker.calculate_risk_score(50, 95 * SCALE, 100);
    assert!(risk > 50);

    let risk_low = tracker.calculate_risk_score(0, 100 * SCALE, 1000);
    assert!(risk_low < 10);
}

#[test]
fn test_staking_yield() {
    let calc = StakingYieldCalculator::new(500, 365, 500);

    let effective = calc.calculate_effective_apy();
    assert!(effective < 500 * SCALE / 100);
    assert!(effective > 450 * SCALE / 100);

    let rewards = calc.calculate_rewards(10_000, 30);
    assert!(rewards > 0);
}

#[test]
fn validator_metrics_test_cache_line_alignment() {
    assert!(core::mem::size_of::<ValidatorData>() >= 64);
    assert!(core::mem::size_of::<ValidatorMetricsTracker>() >= 64);
    assert!(core::mem::size_of::<StakingYieldCalculator>() >= 64);
}

#[test]
fn validator_totals_follow_updates() {
    let mut tracker = ValidatorMetricsTracker::new(70);
    tracker.update_validator(1, 1, 300, 500, 99 * SCALE, 0, 100, 1000);
    tracker.update_validator(2, 1, 400, 500, 99 * SCALE, 0, 100, 1000);
    assert_eq!(tracker.get_total_staked(), 700);
    tracker.update_validator(1, 1, 100, 500, 99 * SCALE, 0, 100, 2000);
    assert_eq!(tracker.get_total_staked(), 500);
    assert!(tracker.get_validator(2).is_some());
    assert!(tracker.get_validator(3).is_none());
}

#[test]
fn new_figure_replaces_the_one_before() {
    let mut tracker = TVLTracker::new(60_000);
    tracker.update_protocol(1, 1, 500, 0, 0, 1000);
    tracker.update_protocol(1, 1, 600, 0, 0, 2000);
    assert_eq!(tracker.get_chain_tvl(1), 600);
    assert_eq!(tracker.get_total_tvl(), 600);

    tracker.update_protocol(2, 1, 50, 0, 0, 3000);
    assert_eq!(tracker.get_chain_tvl(1), 650);
    assert_eq!(tracker.chains[0].protocol_count, 2);

    tracker.update_protocol(1, 7, 700, 0, 0, 4000);
    assert_eq!(tracker.protocols[0].chain_id, 1);
    assert_eq!(tracker.get_chain_tvl(1), 750);
    assert_eq!(tracker.get_chain_tvl(7), 0);
    assert_eq!(tracker.chain_count, 2);
}

#[test]
fn report_at_time_zero_is_a_report() {
    let mut tracker = TVLTracker::new(1);
    assert!(tracker.is_stale(0));
    tracker.update_protocol(1, 1, 500, 0, 0, 0);
    assert!(!tracker.is_stale(1_000_000));
    assert!(tracker.is_stale(1_000_001));
}

#[test]
fn events_are_processed_once() {
    let mut io = SmartContractIO::new();
    for i in 0..5u32 {
        io.add_event(contract_event(event_signatures::TRANSFER, 0x1000u128, 1000 + i as u64, i));
    }
    io.mark_processed(3);
    io.mark_processed(3);
    io.mark_processed(1);
    assert_eq!(io.get_pending_count(), 2);
    assert_eq!(io.last_block, 1002);
    assert!(io.events[2].processed && !io.events[3].processed);
    io.mark_processed(9);
    assert_eq!(io.get_pending_count(), 0);
    assert_eq!(io.last_block, 1004);
}
