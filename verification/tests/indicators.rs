use trading_core::indicators::momentum_osc::{MomentumADX, MomentumMACD, MomentumRSI};
use trading_core::indicators::streaming_ta::{
    IndicatorBundle, StreamingEMA, StreamingSMA, StreamingVWAP, SCALE,
};
use trading_core::indicators::volatility_bands::{
    isqrt, VolatilityATR, VolatilityBollinger, VolatilityBundle, VolatilityKeltner,
};

#[test]
fn test_rsi_calculation() {
    let mut rsi = MomentumRSI::new(14);

    for _ in 0..30 {
        rsi.update(100 * SCALE);
    }

    let val = rsi.get();
    assert!(val >= 40 * SCALE / 100 && val <= 60 * SCALE / 100);
}

#[test]
fn rising_prices_are_overbought() {
    let mut rsi = MomentumRSI::new(14);
    for i in 0..10 {
        rsi.update((100 + i) * SCALE);
    }
    assert_eq!(rsi.get(), SCALE);
    assert!(rsi.check_overbought_cross());
    assert!(!rsi.check_overbought_cross());
    assert!(!rsi.check_oversold_cross());
}

#[test]
fn falling_prices_are_oversold() {
    let mut rsi = MomentumRSI::new(14);
    for i in 0..10 {
        rsi.update((100 - i) * SCALE);
    }
    assert_eq!(rsi.get(), 0);
    assert!(rsi.check_oversold_cross());
}

#[test]
fn test_macd_crossover() {
    let mut macd = MomentumMACD::new(12, 26, 9);

    for i in 0..50 {
        macd.update((100 + i) * SCALE);
    }

    let (macd_line, signal, _hist) = macd.get();
    assert!(macd_line >= signal);
}

#[test]
fn histogram_is_the_difference_of_the_lines() {
    let mut macd = MomentumMACD::new(3, 6, 4);
    for i in 0..20i64 {
        let (line, signal, hist) = macd.update((100 + (i * 7) % 11) * SCALE);
        assert_eq!(hist, line - signal);
    }
}

#[test]
fn test_adx_trending() {
    let mut adx = MomentumADX::new(14);

    for i in 0..30 {
        let high = (100 + i * 2) * SCALE;
        let low = (98 + i * 2) * SCALE;
        let close = (99 + i * 2) * SCALE;
        adx.update(high, low, close);
    }

    let adx_val = adx.get();
    assert!(adx_val >= 0);
}

#[test]
fn steady_trend_has_full_strength() {
    let mut adx = MomentumADX::new(5);
    assert_eq!(adx.update(102 * SCALE, 98 * SCALE, 100 * SCALE), 0);
    adx.update(104 * SCALE, 100 * SCALE, 102 * SCALE);
    assert_eq!(adx.get_plus_di(), SCALE / 2);
    assert_eq!(adx.get_minus_di(), 0);
    assert_eq!(adx.get(), SCALE);
}

#[test]
fn momentum_osc_test_cache_line_alignment() {
    assert!(core::mem::size_of::<MomentumRSI>() >= 64);
    assert!(core::mem::size_of::<MomentumMACD>() >= 64);
    assert!(core::mem::size_of::<MomentumADX>() >= 64);
}

#[test]
fn test_ema_convergence() {
    let mut ema = StreamingEMA::new(10);
    let price = 100 * SCALE;

    for _ in 0..50 {
        ema.update(price);
    }

    assert!((ema.get() - price).abs() < SCALE);
}

#[test]
fn ema_lies_between_price_and_value() {
    let mut ema = StreamingEMA::new(3);
    assert_eq!(ema.update(10 * SCALE), 10 * SCALE);
    assert_eq!(ema.update(20 * SCALE), 15 * SCALE);
    ema.reset();
    assert_eq!(ema.get(), 0);
    assert_eq!(ema.update(7), 7);
}

#[test]
fn test_sma_sliding_window() {
    let mut sma = StreamingSMA::new(5);

    for i in 1..=5 {
        sma.update(i * SCALE);
    }

    assert_eq!(sma.get(), 3 * SCALE);

    sma.update(6 * SCALE);
    assert_eq!(sma.get(), 4 * SCALE);
}

#[test]
fn sma_can_be_reset() {
    let mut sma = StreamingSMA::new(2);
    assert_eq!(sma.get(), 0);
    sma.update(5);
    sma.update(8);
    assert_eq!(sma.get(), 6);
    sma.reset();
    assert_eq!(sma.get(), 0);
    assert_eq!(sma.update(9), 9);
}

#[test]
fn test_vwap_calculation() {
    let mut vwap = StreamingVWAP::new();

    let result = vwap.update(100 * SCALE, 100 * SCALE, 100 * SCALE, 1000);
    assert_eq!(result, 100 * SCALE);

    let result = vwap.update(102 * SCALE, 102 * SCALE, 102 * SCALE, 1000);
    assert_eq!(result, 101 * SCALE);
}

#[test]
fn vwap_starts_anew_with_a_session() {
    let mut vwap = StreamingVWAP::new();
    vwap.update(30, 20, 10, 5);
    assert_eq!(vwap.get(), 20);
    vwap.reset_session(77);
    assert_eq!(vwap.get(), 0);
    assert_eq!(vwap.session_start_ns, 77);
    assert_eq!(vwap.update(6, 6, 6, 1), 6);
}

#[test]
fn streaming_ta_test_cache_line_alignment() {
    assert!(core::mem::size_of::<StreamingEMA>() >= 64);
    assert!(core::mem::size_of::<StreamingSMA>() >= 64);
    assert!(core::mem::size_of::<StreamingVWAP>() >= 64);
}

#[test]
fn test_indicator_bundle() {
    let mut bundle = IndicatorBundle::new(10, 20, 20);

    for i in 0..50 {
        let price = (100 + i) * SCALE;
        bundle.update_price(price);
    }

    assert!(bundle.ema_fast.get() > bundle.ema_slow.get());
}

#[test]
fn bundle_updates_the_weighted_average() {
    let mut bundle = IndicatorBundle::new(10, 20, 20);
    assert_eq!(bundle.update_vwap(3, 2, 1, 10), 2);
    assert_eq!(bundle.update_price(8), (8, 8, 8));
}

#[test]
fn test_bollinger_bands() {
    let mut bb = VolatilityBollinger::new(20, 2 * SCALE);

    for _ in 0..30 {
        bb.update(100 * SCALE);
    }

    let (upper, mid, lower) = bb.get();

    assert_eq!(mid, 100 * SCALE);
    assert!(upper >= mid);
    assert!(lower <= mid);
}

#[test]
fn bands_stand_two_deviations_away() {
    let mut bb = VolatilityBollinger::new(2, 2 * SCALE);
    bb.update(100 * SCALE);
    let (upper, mid, lower) = bb.update(104 * SCALE);
    assert_eq!((upper, mid, lower), (106 * SCALE, 102 * SCALE, 98 * SCALE));
    assert_eq!(bb.get_percent_b(), 6 * SCALE / 8);
    assert_eq!(bb.get_bandwidth(), 8 * SCALE / 102);
    assert!(bb.check_squeeze());
    assert!(!bb.check_squeeze());
}

#[test]
fn square_roots_are_rounded_down() {
    for n in [0u128, 1, 2, 3, 4, 15, 16, 17, 99, 100, 1 << 100] {
        let r = isqrt(n);
        assert!(r * r <= n && n < (r + 1) * (r + 1));
    }
}

#[test]
fn test_atr_convergence() {
    let mut atr = VolatilityATR::new(14);

    for i in 0..30 {
        let high = (100 + 2) * SCALE;
        let low = (100 - 2) * SCALE;
        let close = (100 + (i % 3 - 1)) * SCALE;
        atr.update(high, low, close);
    }

    let atr_val = atr.get();
    assert!(atr_val >= 3 * SCALE && atr_val <= 5 * SCALE);
}

#[test]
fn range_moves_toward_the_candle() {
    let mut atr = VolatilityATR::new(4);
    assert_eq!(atr.update(104, 100, 100), 4);
    assert_eq!(atr.update(112, 100, 104), 6);
    assert_eq!(atr.get_percent(), 6 * SCALE / 104);
}

#[test]
fn test_keltner_channels() {
    let mut kc = VolatilityKeltner::new(20, 14, 2 * SCALE);

    for i in 0..30 {
        let high = (100 + i % 5) * SCALE;
        let low = (98 - i % 3) * SCALE;
        let close = (99 + i % 4) * SCALE;
        kc.update(high, low, close);
    }

    let (upper, center, lower) = kc.get();
    assert!(upper > center);
    assert!(center > lower);
}

#[test]
fn volatility_bands_test_cache_line_alignment() {
    assert!(core::mem::size_of::<VolatilityBollinger>() >= 64);
    assert!(core::mem::size_of::<VolatilityATR>() >= 64);
    assert!(core::mem::size_of::<VolatilityKeltner>() >= 64);
}

#[test]
fn test_squeeze_detection() {
    let mut bb = VolatilityBollinger::new(20, 2 * SCALE);

    for k in 0..30i64 {
        bb.update(100 * SCALE + (k % 2));
    }

    let bandwidth = bb.get_bandwidth();
    assert!(bandwidth < 10 * SCALE / 100);
}

#[test]
fn bundle_updates_all_indicators() {
    let mut bundle = VolatilityBundle::new(5, 2 * SCALE, 4, SCALE);
    bundle.update(104, 100, 102);
    assert_eq!(bundle.atr.get(), 4);
    assert_eq!(bundle.keltner.get(), (106, 102, 98));
    assert_eq!(bundle.bollinger.get(), (102, 102, 102));
}

#[test]
fn average_converges_to_a_constant_price() {
    let mut ema = StreamingEMA::new(10);
    ema.update(100);
    for _ in 0..900 {
        ema.update(1000);
    }
    assert!(988 <= ema.get() && ema.get() <= 1000);
    for _ in 0..1000 {
        ema.update(7);
    }
    assert!(0 <= ema.get() && ema.get() <= 7);
}
