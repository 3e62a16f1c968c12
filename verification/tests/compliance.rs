use trading_core::compliance::audit_ledger::{AuditEventType, AuditLedger, AuditRecordHeader, SECTOR_SIZE};
use trading_core::compliance::jurisdiction_filter::features::{SPOT_TRADING, WITHDRAWAL};
use trading_core::compliance::jurisdiction_filter::{BlockedToken, Jurisdiction, JurisdictionFilter};
use trading_core::compliance::rate_limiter::{RateLimitBucket, RateLimiter};

const CACHE_LINE_SIZE: usize = 64;

#[test]
fn test_header_size() {
    assert_eq!(core::mem::size_of::<AuditRecordHeader>(), SECTOR_SIZE);
}

#[test]
fn test_ledger_init() {
    let ledger = AuditLedger::init().unwrap();
    assert!(ledger.is_active);
    assert_eq!(ledger.record_count, 0);
}

#[test]
fn test_append_and_read() {
    let mut ledger = AuditLedger::init().unwrap();

    let data = b"Test audit record";
    let seq = ledger.append(AuditEventType::OrderNew, 1, data, 10).unwrap();
    assert_eq!(seq, 0);

    let (header, read_data) = ledger.read_record(0).unwrap();
    assert_eq!(header.event_type, AuditEventType::OrderNew as u8);
    assert_eq!(header.source_id, 1);
    assert_eq!(&read_data, data);
}

#[test]
fn test_multiple_records() {
    let mut ledger = AuditLedger::init().unwrap();

    for i in 0..10 {
        let _ = ledger.append(AuditEventType::OrderFill, i as u16, b"fill", 10);
    }

    let (count, _, _) = ledger.get_stats();
    assert_eq!(count, 10);
}

#[test]
fn tampering_breaks_the_chain() {
    let mut ledger = AuditLedger::init().unwrap();
    for i in 0..4u16 {
        ledger.append(AuditEventType::RiskCheck, i, b"check", i as u64).unwrap();
    }
    assert!(ledger.verify_integrity());
    ledger.records[1].header.source_id = 9;
    assert!(!ledger.verify_integrity());
}

#[test]
fn ledger_refuses_what_it_cannot_hold() {
    let mut ledger = AuditLedger::init().unwrap();
    assert!(ledger.append(AuditEventType::OrderNew, 1, &[0u8; 513], 1).is_err());
    assert!(ledger.append(AuditEventType::OrderNew, 1, &[0u8; 512], 1).is_ok());
    assert!(ledger.read_record(1).is_none());
    ledger.shutdown();
    assert!(ledger.append(AuditEventType::OrderNew, 1, b"late", 1).is_err());
}

#[test]
fn test_blocked_token_size() {
    assert_eq!(core::mem::size_of::<BlockedToken>(), CACHE_LINE_SIZE);
}

#[test]
fn test_filter_init() {
    let filter = JurisdictionFilter::new();
    assert!(filter.is_active);
    assert!(!filter.shadow_mode);
}

#[test]
fn test_hash_symbol() {
    let hash1 = JurisdictionFilter::hash_symbol("BTCUSDT");
    let hash2 = JurisdictionFilter::hash_symbol("ETHUSDT");
    assert_ne!(hash1, hash2);
}

#[test]
fn hash_of_empty_symbol_is_the_offset() {
    assert_eq!(JurisdictionFilter::hash_symbol(""), 0xcbf29ce484222325);
}

#[test]
fn test_block_token() {
    let mut filter = JurisdictionFilter::new();

    let btc_hash = JurisdictionFilter::hash_symbol("BTCUSDT");
    filter.add_blocked_token(b"BTCUSDT", btc_hash, 1 << Jurisdiction::US as u64, 1).unwrap();

    filter.set_jurisdiction(Jurisdiction::US);
    assert!(!filter.check_token(btc_hash));

    filter.set_jurisdiction(Jurisdiction::EU);
    assert!(filter.check_token(btc_hash));
}

#[test]
fn jurisdiction_filter_test_shadow_mode() {
    let mut filter = JurisdictionFilter::new();

    let btc_hash = JurisdictionFilter::hash_symbol("BTCUSDT");
    filter.add_blocked_token(b"BTCUSDT", btc_hash, 1 << Jurisdiction::US as u64, 1).unwrap();
    filter.set_jurisdiction(Jurisdiction::US);

    filter.set_shadow_mode(true);
    assert!(filter.check_token(btc_hash));

    let (_, blocks, _) = filter.get_stats();
    assert_eq!(blocks, 0);
}

#[test]
fn filter_that_is_full_refuses_tokens() {
    let mut filter = JurisdictionFilter::new();
    for i in 0..1024u64 {
        assert_eq!(filter.add_blocked_token(b"T", i, 1, 0), Ok(i as usize));
    }
    assert!(filter.add_blocked_token(b"T", 1024, 1, 0).is_err());
}

#[test]
fn features_without_a_rule() {
    let filter = JurisdictionFilter::new();
    assert_eq!(filter.check_feature(SPOT_TRADING), filter.check_feature(WITHDRAWAL));
}

#[test]
fn test_bucket_size() {
    assert_eq!(core::mem::size_of::<RateLimitBucket>(), CACHE_LINE_SIZE);
}

#[test]
fn test_limiter_init() {
    let limiter = RateLimiter::new();
    assert!(limiter.is_active);
    assert!(!limiter.circuit_open);
}

#[test]
fn test_acquire_tokens() {
    let mut limiter = RateLimiter::new();
    limiter.init_bucket(0, 100, 1000);

    assert!(limiter.try_acquire(0, 10, 1));
    assert!(limiter.try_acquire(0, 10, 2));

    let tokens = limiter.get_tokens(0);
    assert!(tokens < 100);
}

#[test]
fn test_exhaust_tokens() {
    let mut limiter = RateLimiter::new();
    limiter.init_bucket(0, 10, 0);

    for _ in 0..10 {
        limiter.try_acquire(0, 1, 1);
    }

    assert!(!limiter.try_acquire(0, 1, 1));

    let (_allowed, rejected, _) = limiter.get_stats();
    assert!(rejected > 0);
}

#[test]
fn without_refill_grants_are_bounded_by_the_capacity() {
    let mut limiter = RateLimiter::new();
    limiter.init_bucket(5, 7, 0);
    let mut granted = 0;
    for now in 0..50u64 {
        if limiter.try_acquire(5, 2, now * 1_000_000) {
            granted += 2;
        }
    }
    assert_eq!(granted, 6);
    assert_eq!(limiter.get_tokens(5), 1);
}

#[test]
fn rate_limiter_test_circuit_breaker() {
    let mut limiter = RateLimiter::new();
    limiter.init_bucket(0, 1000, 1000);

    limiter.open_circuit();
    assert!(!limiter.try_acquire(0, 1, 1));

    limiter.close_circuit();
    assert!(limiter.try_acquire(0, 1, 1));
}

#[test]
fn closed_ledger_takes_and_gives_nothing() {
    let mut ledger = AuditLedger::init().unwrap();
    assert!(ledger.verify_integrity());
    for i in 0..3u16 {
        let seq = ledger.append(AuditEventType::RiskCheck, i, &[i as u8], 5).unwrap();
        assert_eq!(seq, i as u64);
    }
    assert_eq!(ledger.read_record(2).unwrap().1, vec![2u8]);
    assert!(ledger.verify_integrity());

    ledger.shutdown();
    assert!(ledger.append(AuditEventType::RiskCheck, 9, &[], 6).is_err());
    assert!(ledger.read_record(3).is_none());
}
