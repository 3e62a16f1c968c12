use trading_core::gateways::binance_ws_adapter::{
    BinanceWsAdapter, MessageType, ParseBuffer, BINANCE_VENUE_ID,
};
use trading_core::gateways::fix_protocol_engine::{
    FixBuffer, FixMsgType, FixProtocolEngine, FIX_VENUE_ID,
};
use trading_core::gateways::gateway_manager::{
    Gateway, GatewayError, GatewayManager, GatewaySlot, GatewayState, MarketEvent,
};
use trading_core::gateways::venue_gateway::VenueGateway;
use trading_core::transport::ring_buffer::RingBuffer;

#[test]
fn test_parse_buffer_size() {
    assert_eq!(core::mem::size_of::<ParseBuffer>(), 1048624);
}

#[test]
fn test_adapter_creation() {
    let adapter = BinanceWsAdapter::new();
    assert_eq!(adapter.venue_id(), BINANCE_VENUE_ID);
    assert_eq!(adapter.venue_name(), "Binance");
}

#[test]
fn test_message_type_detection() {
    let adapter = BinanceWsAdapter::new();
    let trade_msg = b"{\"e\":\"trade\",\"E\":1234567890}";
    let msg_type = adapter.detect_message_type(trade_msg);
    assert_eq!(msg_type, MessageType::Trade);
}

#[test]
fn other_messages_are_told_apart() {
    let adapter = BinanceWsAdapter::new();
    assert_eq!(
        adapter.detect_message_type(b"{\"e\":\"depthUpdate\",\"E\":1}"),
        MessageType::DepthUpdate
    );
    assert_eq!(adapter.detect_message_type(b"{\"e\":\"kline\",\"E\":1}"), MessageType::Unknown);
    assert_eq!(adapter.detect_message_type(b""), MessageType::Unknown);
}

const TRADE: &[u8] = b"{\"e\":\"trade\",\"E\":1234567890,\"s\":\"BTC\",\"p\":\"1\",\"q\":\"2\"}";

#[test]
fn trade_is_delivered() {
    let mut adapter = BinanceWsAdapter::new();
    let mut output = RingBuffer::new(4);
    assert_eq!(adapter.process_buffer(TRADE, &mut output, 5), 0);
    adapter.init();
    assert_eq!(adapter.state(), GatewayState::Connected);
    assert_eq!(adapter.start(7), Ok(()));
    assert_eq!(adapter.start(8), Err(GatewayError::AlreadyConnected));
    assert_eq!(adapter.state(), GatewayState::Ready);
    assert_eq!(adapter.process_buffer(TRADE, &mut output, 9), 1);
    let event = output.pop().unwrap();
    assert_eq!(event.venue_id, 0);
    assert_eq!(event.event_type, 0);
    assert_eq!(event.timestamp_ns, 9);
    assert_eq!(event.symbol_id, b'"' as u16 * 256 + b':' as u16);
    assert_eq!(adapter.latency_score(9), 1000);
    assert_eq!(adapter.latency_score(1009), 500);
    assert_eq!(adapter.latency_score(20_000), 100);
    adapter.stop();
    assert_eq!(adapter.process_buffer(TRADE, &mut output, 10), 0);
    assert_eq!(adapter.state(), GatewayState::Disconnected);
}

#[test]
fn trade_without_its_fields_is_dropped() {
    let adapter = BinanceWsAdapter::new();
    assert!(adapter.parse_trade(b"{\"e\":\"trade\",\"E\":1234567890}", 1).is_none());
    assert!(adapter.parse_trade(TRADE, 1).is_some());
}

#[test]
fn test_fix_buffer_size() {
    assert_eq!(core::mem::size_of::<FixBuffer>(), 65600);
}

#[test]
fn test_engine_creation() {
    let engine = FixProtocolEngine::new();
    assert_eq!(engine.venue_id(), FIX_VENUE_ID);
    assert_eq!(engine.venue_name(), "FIX-4.4");
}

#[test]
fn test_parse_decimal() {
    let engine = FixProtocolEngine::new();
    let price = engine.parse_decimal_fixed(b"50000.12345678");
    assert_eq!(price, 5000012345678);
}

#[test]
fn decimals_are_scaled() {
    let engine = FixProtocolEngine::new();
    assert_eq!(engine.parse_decimal_fixed(b""), 0);
    assert_eq!(engine.parse_decimal_fixed(b"7"), 700_000_000);
    assert_eq!(engine.parse_decimal_fixed(b"0.5"), 50_000_000);
    assert_eq!(engine.parse_decimal_fixed(b".123456789"), 12_345_678);
    assert_eq!(engine.parse_int(b"12a3"), 123);
}

#[test]
fn test_msg_type_parsing() {
    let engine = FixProtocolEngine::new();
    let msg = b"8=FIX.4.4\x0135=X\x0149=SENDER\x0156=TARGET\x0134=1\x0152=20240101-12:00:00\x0110=000\x01";
    let msg_type = engine.parse_msg_type(msg);
    assert_eq!(msg_type, FixMsgType::MarketDataIncremental);
}

#[test]
fn message_types_are_told_apart() {
    let engine = FixProtocolEngine::new();
    let cases: [(&[u8], FixMsgType); 7] = [
        (b"35=0\x01", FixMsgType::Heartbeat),
        (b"35=A\x01", FixMsgType::Logon),
        (b"35=5\x01", FixMsgType::Logout),
        (b"35=W\x01", FixMsgType::MarketDataSnapshot),
        (b"35=\x01", FixMsgType::Unknown),
        (b"35=X", FixMsgType::Unknown),
        (b"x=1\x0135=X\x01", FixMsgType::Unknown),
    ];
    for (msg, expected) in cases {
        assert_eq!(engine.parse_msg_type(msg), expected);
    }
}

fn with_checksum(body: &[u8]) -> Vec<u8> {
    let sum: u32 = body.iter().map(|b| *b as u32).sum::<u32>() % 256;
    let mut msg = body.to_vec();
    msg.extend_from_slice(format!("10={:03}\x01", sum).as_bytes());
    msg
}

#[test]
fn checksum_covers_all_bytes_before_it() {
    let engine = FixProtocolEngine::new();
    let good = with_checksum(b"8=FIX.4.4\x0135=X\x0149=S\x01");
    assert!(engine.validate_checksum(&good));
    for i in 0..20 {
        let mut bad = good.clone();
        if bad[i] >= b'A' && bad[i] <= b'Z' {
            bad[i] += 1;
            assert!(!engine.validate_checksum(&bad));
        }
    }
    assert!(engine.validate_checksum(b"35=X\x01"));
}

#[test]
fn incremental_refresh_gives_an_event_for_each_entry() {
    let mut engine = FixProtocolEngine::new();
    let mut output = RingBuffer::new(8);
    engine.init();
    engine.start(1).unwrap();
    let msg = with_checksum(
        b"35=X\x0155=BTC\x01268=2\x01269=0\x01270=100.5\x01271=2\x01269=1\x01271=3\x01270=101\x01",
    );
    assert_eq!(engine.process_buffer(&msg, &mut output, 77), 2);
    let bid = output.pop().unwrap();
    assert_eq!((bid.event_type, bid.price, bid.quantity), (0, 10_050_000_000, 200_000_000));
    assert_eq!(bid.symbol_id, b'B' as u16 * 256 + b'T' as u16);
    assert_eq!(bid.timestamp_ns, 77);
    let ask = output.pop().unwrap();
    assert_eq!((ask.event_type, ask.price, ask.quantity), (1, 10_100_000_000, 300_000_000));
    assert_eq!(engine.events_written, 2);
    assert_eq!(engine.msg_seq_num, 2);
}

#[test]
fn events_beyond_the_room_are_dropped() {
    let mut engine = FixProtocolEngine::new();
    let mut output = RingBuffer::new(1);
    engine.init();
    engine.start(1).unwrap();
    let msg = b"35=X\x01269=0\x01270=1\x01269=1\x01270=2\x01";
    assert_eq!(engine.process_buffer(msg, &mut output, 1), 1);
    assert_eq!(output.items.len(), 1);
    assert!(output.push(MarketEvent::default()).is_err());
}

#[test]
fn session_follows_logon_and_logout() {
    let mut engine = FixProtocolEngine::new();
    let mut output = RingBuffer::new(8);
    engine.init();
    assert_eq!(engine.state(), GatewayState::Disconnected);
    assert_eq!(engine.start(1), Ok(()));
    assert_eq!(engine.start(1), Err(GatewayError::AlreadyConnected));
    assert_eq!(engine.state(), GatewayState::Ready);
    engine.process_buffer(b"35=0\x01", &mut output, 50);
    assert_eq!(engine.last_heartbeat, 50);
    engine.process_buffer(b"35=5\x01", &mut output, 60);
    assert_eq!(engine.state(), GatewayState::Disconnected);
    assert_eq!(engine.process_buffer(b"35=A\x01", &mut output, 70), 0);
    assert!(!engine.session_logged_in);
}

#[test]
fn heartbeat_is_a_heartbeat() {
    let mut engine = FixProtocolEngine::new();
    let msg = engine.generate_heartbeat(b"req");
    assert_eq!(&msg[..], b"8=FIX.4.4\x0135=0\x01");
    assert_eq!(engine.parse_msg_type(&msg), FixMsgType::Heartbeat);
}

#[test]
fn market_event_fills_a_cache_line() {
    assert_eq!(core::mem::size_of::<MarketEvent>(), 64);
}

#[test]
fn test_gateway_slot_size() {
    assert_eq!(core::mem::size_of::<GatewaySlot>(), 64);
}

#[test]
fn test_gateway_manager_creation() {
    let manager = GatewayManager::<FixProtocolEngine>::new();
    assert_eq!(manager.active_count(), 0);
    assert!(!manager.is_halted());
}

#[test]
fn manager_runs_its_gateways() {
    let mut manager = GatewayManager::new();
    let mut output = RingBuffer::new(8);
    let mut engine = FixProtocolEngine::new();
    engine.init();
    manager.register(engine);
    assert_eq!(manager.active_count(), 1);
    assert_eq!(manager.slots[1].state, GatewayState::Connecting);
    assert_eq!(manager.start_all(3), Ok(()));
    assert_eq!(manager.slots[1].state, GatewayState::Connected);
    assert_eq!(manager.start_all(4), Err(GatewayError::AlreadyConnected));
    assert_eq!(manager.slots[1].state, GatewayState::Error);
    let msg = b"35=X\x01269=0\x01270=1\x01";
    assert_eq!(manager.process_venue_data(1, msg, &mut output, 5), 1);
    assert_eq!(manager.process_venue_data(2, msg, &mut output, 5), 0);
    assert_eq!(manager.process_venue_data(200, msg, &mut output, 5), 0);
    assert_eq!(manager.total_events(), 1);
    assert_eq!(manager.slots[1].sequence, 1);
    manager.stop_all();
    assert!(manager.is_halted());
    assert_eq!(manager.start_all(6), Err(GatewayError::Halted));
    assert_eq!(manager.process_venue_data(1, msg, &mut output, 7), 0);
    manager.reset_circuit_breaker();
    assert_eq!(manager.start_all(8), Ok(()));
    manager.trip_circuit_breaker();
    assert!(manager.is_halted());
}

#[test]
fn reliability_is_kept_per_venue() {
    let mut manager = GatewayManager::<BinanceWsAdapter>::new();
    manager.update_venue_reliability(3, 70);
    manager.update_venue_reliability(16, 80);
    assert_eq!(manager.venue_reliability(3), 70);
    assert_eq!(manager.venue_reliability(4), 0);
    assert_eq!(manager.venue_reliability(16), 0);
}

#[test]
fn one_manager_holds_both_protocols() {
    let mut manager = GatewayManager::new();
    let mut output = RingBuffer::new(8);
    let mut binance = VenueGateway::Binance(BinanceWsAdapter::new());
    let mut fix = VenueGateway::Fix(FixProtocolEngine::new());
    binance.init();
    fix.init();
    assert_eq!(fix.venue_name(), "FIX-4.4");
    manager.register(binance);
    manager.register(fix);
    assert_eq!(manager.active_count(), 2);
    assert_eq!(manager.start_all(3), Ok(()));
    assert_eq!(manager.process_venue_data(0, TRADE, &mut output, 5), 1);
    assert_eq!(manager.process_venue_data(1, b"35=X\x01269=2\x01270=1\x01", &mut output, 6), 1);
    assert_eq!(output.pop().unwrap().venue_id, 0);
    assert_eq!(output.pop().unwrap().venue_id, 1);
    assert!(output.pop().is_none());
}
