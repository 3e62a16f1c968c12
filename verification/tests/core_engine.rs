use trading_core::core_engine::allocator::{
    get_memory_usage, get_peak_memory_usage, initialize_allocator, is_circuit_breaker_active,
    BumpAllocator, CACHE_LINE_SIZE, MEMORY_LIMIT_BYTES,
};
use trading_core::core_engine::driver::{EventLoop, Step, BATCH_SIZE, HEARTBEAT_INTERVAL};
use trading_core::core_engine::event_loop::{Event, EventBus, EventRingBuffer, EventType, RingSlot};

#[test]
fn test_allocator_constants() {
    assert_eq!(MEMORY_LIMIT_BYTES, 6_500_000_000);
    assert_eq!(CACHE_LINE_SIZE, 64);
}

#[test]
fn test_bump_allocator_size() {
    let size = core::mem::size_of::<BumpAllocator>();
    assert!(size >= CACHE_LINE_SIZE * 2);
}

#[test]
fn allocations_do_not_overlap() {
    let mut allocator = BumpAllocator::new();
    assert!(initialize_allocator(&mut allocator, Some(0x10000)).is_ok());
    let first = allocator.allocate(100, 64).unwrap();
    let second = allocator.allocate(10, 64).unwrap();
    assert_eq!(first, 0x10000);
    assert_eq!(second, 0x10000 + 128);
    assert_eq!(get_memory_usage(&allocator), 138);
    assert_eq!(get_peak_memory_usage(&allocator), 138);
    assert!(!is_circuit_breaker_active(&allocator));
}

#[test]
fn exhausted_arena_opens_the_breaker() {
    let mut allocator = BumpAllocator::new();
    allocator.init(0x1000, 256);
    assert!(allocator.allocate(512, 8).is_none());
    assert!(allocator.is_circuit_breaker_tripped());
    assert!(allocator.allocate(1, 1).is_none());
    let mut unmapped = BumpAllocator::new();
    assert!(initialize_allocator(&mut unmapped, None).is_err());
}

#[test]
fn test_event_creation() {
    let event = Event::new(EventType::MarketData, 0, 1, 1);
    assert_eq!(event.event_type, EventType::MarketData);
    assert_eq!(event.symbol_id, 1);
    assert!(event.timestamp_ns > 0);
}

#[test]
fn test_ring_buffer_publish_consume() {
    let mut buffer = EventRingBuffer::new();
    let event = Event::new(EventType::OrderSubmission, 0, 42, 1);

    assert!(buffer.publish(event).is_some());
    assert_eq!(buffer.depth(), 1);

    let consumed = buffer.consume();
    assert!(consumed.is_some());
    let consumed = consumed.unwrap();
    assert_eq!(consumed.event_type, EventType::OrderSubmission);
    assert_eq!(consumed.symbol_id, 42);
    assert_eq!(buffer.depth(), 0);
}

#[test]
fn test_batch_processing() {
    let mut buffer = EventRingBuffer::new();

    for i in 0..10 {
        let event = Event::new(EventType::MarketData, i as u64, i as u32, 1);
        buffer.publish(event);
    }

    let count = buffer.consume_batch(100).len();

    assert_eq!(count, 10);
    assert_eq!(buffer.depth(), 0);
}

#[test]
fn event_loop_test_cache_line_alignment() {
    let event_size = core::mem::size_of::<Event>();
    assert!(event_size <= 128);

    let slot_size = core::mem::size_of::<RingSlot>();
    assert_eq!(slot_size % CACHE_LINE_SIZE, 0);
}

#[test]
fn test_constants() {
    assert_eq!(BATCH_SIZE, 64);
    assert_eq!(HEARTBEAT_INTERVAL, 1000);
}

#[test]
fn test_event_bus_creation() {
    let event_bus = EventBus::new(BATCH_SIZE);
    assert_eq!(event_bus.depth(), 0);
}

#[test]
fn test_shutdown_flag() {
    let mut event_loop = EventLoop::new();
    assert!(!event_loop.shutdown_flag);
    event_loop.shutdown_flag = true;
    assert!(event_loop.shutdown_flag);
    event_loop.shutdown_flag = false;
}

#[test]
fn loop_stops_on_the_breaker_and_on_shutdown() {
    let mut event_loop = EventLoop::new();
    let mut bus = EventBus::new(BATCH_SIZE);
    assert!(matches!(event_loop.run_event_loop(&mut bus, true, 1), Step::BreakerTripped));
    event_loop.shutdown_flag = true;
    assert!(matches!(event_loop.run_event_loop(&mut bus, false, 1), Step::Shutdown));
}

#[test]
fn payload_is_carried() {
    let event = Event::new(EventType::SystemSignal, 3, 4, 5).with_payload(&[1, 2, 3]);
    assert_eq!(event.payload_size, 3);
    assert_eq!(&event.payload[..4], &[1, 2, 3, 0]);
}

#[test]
fn bus_counts_what_goes_through() {
    let mut event_loop = EventLoop::new();
    let mut bus = EventBus::new(2);
    for i in 0..3 {
        assert_eq!(bus.publish(Event::new(EventType::MarketData, i, 1, i)), Some(i));
    }
    assert!(matches!(
        event_loop.run_event_loop(&mut bus, false, 1),
        Step::Ran { events: 2, heartbeat: false }
    ));
    assert!(matches!(
        event_loop.run_event_loop(&mut bus, false, 2),
        Step::Ran { events: 1, heartbeat: false }
    ));
    assert_eq!(bus.buffer.total_published(), 3);
    assert_eq!(bus.buffer.total_consumed(), 3);
    assert_eq!(bus.depth(), 0);
}
