use trading_core::compression::delta_encoder::{DeltaBuffer, DeltaOp, DictionaryEncoder, RunLengthEncoder};
use trading_core::compression::lz4_custom::{Lz4Decoder, Lz4Encoder};
use trading_core::compression::state_snapshot::{fnv1a_hash, HashHistory, StateSnapshot};

#[test]
fn test_delta_buffer() {
    let mut buffer = DeltaBuffer::new();

    buffer.push(50_000_000_000i64, 1_000_000_000i64, 0, DeltaOp::Insert, 1, 0);
    buffer.push(50_100_000_000i64, 500_000_000i64, 1, DeltaOp::Update, 2, 0);

    assert_eq!(buffer.count, 2);

    let popped = buffer.pop();
    assert!(popped.is_some());
    let (price, _qty, _side, _op, seq) = popped.unwrap();
    assert_eq!(price, 50_000_000_000i64);
    assert_eq!(seq, 1);
}

#[test]
fn delta_buffer_keeps_order() {
    let mut buffer = DeltaBuffer::new();
    assert!(buffer.pop().is_none());
    for seq in 0..5u64 {
        buffer.push(seq as i64, 1, 0, DeltaOp::Delete, seq, 9);
    }
    for seq in 0..5u64 {
        let (price, qty, side, op, s) = buffer.pop().unwrap();
        assert_eq!((price, qty, side, s), (seq as i64, 1, 0, seq));
        assert!(matches!(op, DeltaOp::Delete));
    }
    assert!(buffer.pop().is_none());
}

#[test]
fn test_run_length_encoder() {
    let mut encoder = RunLengthEncoder::new();

    encoder.encode_run(50_000_000_000i64, 1_000_000_000i64, 0, DeltaOp::Insert, 5);

    assert_eq!(encoder.input_count, 5);
    assert_eq!(encoder.compressed_count, 1);
    assert_eq!(encoder.get_compression_ratio(), 500);
}

#[test]
fn encoded_run_can_be_read() {
    let mut encoder = RunLengthEncoder::new();
    assert_eq!(encoder.encode_run(0x0102, -1, 1, DeltaOp::Update, 5), 17);
    let out = &encoder.output_buffer;
    assert_eq!(out.len(), 17);
    assert_eq!(out[0], DeltaOp::Update as u8 * 64 + 32 + 5);
    assert_eq!(i64::from_le_bytes(out[1..9].try_into().unwrap()), 0x0102);
    assert_eq!(i64::from_le_bytes(out[9..17].try_into().unwrap()), -1);
    encoder.reset();
    assert!(encoder.output_buffer.is_empty());
}

#[test]
fn test_dictionary_encoder() {
    let mut encoder = DictionaryEncoder::new();

    let idx1 = encoder.lookup_or_insert(50_000_000_000i64);
    assert_eq!(idx1, 0);

    let idx2 = encoder.lookup_or_insert(50_000_000_000i64);
    assert_eq!(idx2, 0);

    let idx3 = encoder.lookup_or_insert(50_100_000_000i64);
    assert_eq!(idx3, 1);

    assert_eq!(encoder.get_hit_rate(), 33);
}

#[test]
fn dictionary_that_is_full_finds_no_place() {
    let mut encoder = DictionaryEncoder::new();
    for price in 1..=64i64 {
        assert_eq!(encoder.lookup_or_insert(price), price as u8 - 1);
    }
    assert_eq!(encoder.lookup_or_insert(65), 0xFF);
    assert_eq!(encoder.lookup_or_insert(64), 63);
}

#[test]
fn test_lz4_compress_decompress() {
    let mut encoder = Lz4Encoder::new();
    let mut decoder = Lz4Decoder::new();

    let data = b"AAAAAAAAAABBBBBBBBBBCCCCCCCCCCDDDDDDDDDD";
    assert!(encoder.load_input(data));

    let compressed_size = encoder.compress();
    assert!(compressed_size > 0);

    let compressed = encoder.get_output_slice();
    let decompressed_size = decoder.decompress(compressed);

    let decompressed = decoder.get_output_slice();
    assert_eq!(&data[..decompressed_size], decompressed);
}

#[test]
fn compression_round_trips() {
    let mut encoder = Lz4Encoder::new();
    let mut decoder = Lz4Decoder::new();
    let mut data = Vec::new();
    let mut state = 12345u32;
    for i in 0..5000u32 {
        state = state.wrapping_mul(1103515245).wrapping_add(12345);
        data.push(if i % 7 < 4 { (i / 64) as u8 } else { (state >> 16) as u8 });
    }
    assert!(encoder.load_input(&data));
    let size = encoder.compress();
    assert_eq!(size, encoder.get_output_slice().len());
    assert_eq!(decoder.decompress(encoder.get_output_slice()), data.len());
    assert_eq!(decoder.get_output_slice(), &data[..]);
    assert!(!encoder.load_input(&vec![0u8; 65537]));
}

#[test]
fn test_compression_ratio() {
    let mut encoder = Lz4Encoder::new();

    let data = b"AAAAAAAAAAAAAAAAAAAAAAAAAAAAAAAAAAAAAAAA";
    assert!(encoder.load_input(data));
    encoder.compress();

    let ratio = encoder.get_compression_ratio();
    assert!(ratio > 100);
}

#[test]
fn test_snapshot_write_read() {
    let mut snapshot = StateSnapshot::new();
    let data = b"Test snapshot data for state recovery";

    assert!(snapshot.write(data, 1));

    let read_data = snapshot.read();
    assert!(read_data.is_some());
    assert_eq!(read_data.unwrap(), data);
}

#[test]
fn test_snapshot_checksum() {
    let mut snapshot = StateSnapshot::new();
    let data = b"Data to checksum";

    snapshot.write(data, 1);
    let checksum = snapshot.calculate_checksum();

    assert!(checksum != 0);
    assert!(snapshot.verify());
}

#[test]
fn changed_byte_changes_the_hash() {
    assert_ne!(fnv1a_hash(b"snapshot"), fnv1a_hash(b"snapsh0t"));
    assert_eq!(fnv1a_hash(b"a"), 0xaf63dc4c8601ec8c);
}

#[test]
fn test_hash_history() {
    let mut history = HashHistory::new();

    history.record(0x12345678, 1);
    history.record(0xABCDEF00, 2);
    history.record(0xDEADBEEF, 3);

    assert_eq!(history.get_hash(1), Some(0xDEADBEEF));
    assert_eq!(history.get_hash(2), Some(0xABCDEF00));
    assert_eq!(history.get_hash(3), Some(0x12345678));

    assert!(history.contains(0xABCDEF00));
    assert!(!history.contains(0xFFFFFFFF));
}

#[test]
fn test_fnv1a_hash() {
    let data1 = b"Hello";
    let data2 = b"Hello";
    let data3 = b"World";

    assert_eq!(fnv1a_hash(data1), fnv1a_hash(data2));
    assert_ne!(fnv1a_hash(data1), fnv1a_hash(data3));
}

#[test]
fn corrupted_snapshot_does_not_verify() {
    let mut snapshot = StateSnapshot::new();
    assert!(snapshot.read().is_none());
    assert!(!snapshot.verify());

    assert!(snapshot.write(b"first state", 1));
    assert!(snapshot.write(b"position=7", 2));
    assert_eq!(snapshot.read().unwrap(), b"position=7");
    snapshot.calculate_checksum();
    assert!(snapshot.verify());

    snapshot.data_buffer[9] = b'8';
    assert!(!snapshot.verify());
}
