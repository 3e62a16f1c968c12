use trading_core::derivatives::funding_rate_arb::{
    FundingArbDetector, FundingCountdown, FundingRateModel, RollingFundingBuffer,
};
use trading_core::derivatives::margin_engine::{
    CrossMarginEngine, LiquidationCalculator, MarginPosition, FP_SCALE,
};
use trading_core::derivatives::open_interest::{OiAccumulator, RollingOiBuffer};

#[test]
fn test_funding_rate_calculation() {
    let mut model = FundingRateModel::default();

    for _ in 0..100 {
        model.update_premium(500_000);
    }

    let rate = model.calc_funding_rate();
    assert_eq!(rate, 500_000);
}

#[test]
fn test_funding_countdown() {
    let mut countdown = FundingCountdown::default();
    countdown.init(100_000_000);

    let remaining = countdown.tick(150_000_000);
    assert!(remaining > 0);
    assert!(!countdown.is_imminent());
}

#[test]
fn countdown_reaches_the_next_period() {
    let mut countdown = FundingCountdown::default();
    countdown.init(0);
    assert_eq!(countdown.tick(28_800_000_000 - 1_000_000), 1_000_000);
    assert!(countdown.is_imminent());
    assert_eq!(countdown.time_remaining_formatted(), (0, 0, 1));
}

#[test]
fn test_rolling_buffer_operations() {
    let mut buffer = RollingFundingBuffer::default();

    for i in 0..100 {
        buffer.push(i * 10_000);
    }

    let avg = buffer.rolling_average();
    assert_eq!(avg, (36 + 99) * 5_000);
}

#[test]
fn test_funding_arb_detection() {
    let mut detector = FundingArbDetector::default();

    assert!(!detector.check_arb(500_000, 500_500));

    assert!(detector.check_arb(500_000, 502_000));

    assert!(detector.get_opportunity_count() >= 1);
}

#[test]
fn test_simd_funding_spread() {
    let model = FundingRateModel::default();
    let rates = [100_000, 200_000, 300_000, 400_000];
    let benchmark = 250_000;

    let spreads = model.simd_funding_spread(&rates, benchmark);

    assert_eq!(spreads[0], -150_000);
    assert_eq!(spreads[1], -50_000);
    assert_eq!(spreads[2], 50_000);
    assert_eq!(spreads[3], 150_000);
}

#[test]
fn test_rate_clamping() {
    let mut model = FundingRateModel::default();

    for _ in 0..10 {
        model.update_premium(100_000_000);
    }

    let rate = model.calc_funding_rate();
    assert!(rate <= 7_500_000);
}

#[test]
fn rate_is_clamped_from_below_too() {
    let mut model = FundingRateModel::default();
    assert_eq!(model.calc_funding_rate(), 0);
    model.update_premium(-100_000_000);
    assert_eq!(model.calc_funding_rate(), -7_500_000);
}

#[test]
fn test_long_liquidation_price() {
    let pos = MarginPosition::new(50_000 * FP_SCALE, 1_000_000_000, 10_000_000_000);
    let liq_price = pos.calc_liquidation_price_long();

    assert!(liq_price > 45_000 * FP_SCALE);
    assert!(liq_price < 50_000 * FP_SCALE);
}

#[test]
fn test_short_liquidation_price() {
    let pos = MarginPosition::new(50_000 * FP_SCALE, -1_000_000_000, 10_000_000_000);
    let liq_price = pos.calc_liquidation_price_short();

    assert!(liq_price > 50_000 * FP_SCALE);
    assert!(liq_price < 55_000 * FP_SCALE);
}

#[test]
fn test_cross_margin_engine() {
    let mut engine = CrossMarginEngine::default();
    engine.update_portfolio_value(1_000_000 * FP_SCALE);
    engine.add_position(100_000 * FP_SCALE, 5_000 * FP_SCALE);
    engine.add_position(50_000 * FP_SCALE, -2_000 * FP_SCALE);

    assert_eq!(engine.get_net_pnl(), 3_000 * FP_SCALE);
    assert_eq!(engine.position_count, 2);
}

#[test]
fn removing_a_position_undoes_adding_it() {
    let mut engine = CrossMarginEngine::default();
    engine.add_position(70, -3);
    engine.add_position(30, 9);
    engine.remove_position(30, 9);
    assert_eq!(engine.get_net_pnl(), -3);
    assert_eq!(engine.total_used_margin, 70);
    assert_eq!(engine.position_count, 1);
}

#[test]
fn test_extreme_leverage_wicks() {
    let pos = MarginPosition::new(50_000 * FP_SCALE, 1_000_000_000, 100_000_000_000);
    let liq_price = pos.calc_liquidation_price_long();

    assert!(liq_price > 49_000 * FP_SCALE);
    assert!(liq_price < 50_000 * FP_SCALE);
}

#[test]
fn test_margin_call_detection() {
    let mut calc = LiquidationCalculator::default();
    calc.update_balance(10_000 * FP_SCALE);

    let needs_call = calc.check_margin_call(800_000_000);
    assert_eq!(needs_call, 0);
}

#[test]
fn test_oi_accumulator_basic() {
    let mut acc = OiAccumulator::default();
    acc.update_long(1_000_000_000);
    acc.update_short(500_000_000);

    assert_eq!(acc.total_oi(), 1_500_000_000);
    assert_eq!(acc.long_short_ratio(), 2_000_000_000);
}

#[test]
fn test_rolling_buffer_o1() {
    let mut buffer = RollingOiBuffer::default();
    for i in 0..300 {
        buffer.push(i * 1_000_000);
    }
    let avg = buffer.rolling_average(256);
    assert_eq!(avg, (44 + 299) * 500_000);
}

#[test]
fn many_updates_add_up() {
    let mut acc = OiAccumulator::default();

    for _ in 0..10 {
        for _ in 0..1000 {
            acc.update_long(100);
            acc.update_short(50);
        }
    }

    assert_eq!(acc.total_oi(), 10 * 1000 * 150);
}

#[test]
fn prediction_uses_the_last_two_rates_after_wrapping() {
    let model = FundingRateModel::default();
    let mut buffer = RollingFundingBuffer::default();
    for _ in 0..64 {
        buffer.push(0);
    }
    buffer.push(1000);
    assert_eq!(model.predict_next_rate(&buffer), 1700);
    assert_eq!(buffer.get_at_offset(0), 1000);
}

#[test]
fn volatility_of_a_variance_of_one() {
    let mut buffer = RollingFundingBuffer::default();
    buffer.push(0);
    buffer.push(44_722);
    assert_eq!(buffer.volatility_estimate(), 1);
}

#[test]
fn losses_bring_a_margin_call() {
    let mut calc = LiquidationCalculator::default();
    calc.update_balance(5_000_000_000);
    assert_eq!(calc.check_margin_call(800_000_000), 0);
    calc.unrealized_pnl = -2_000_000_000;
    assert_eq!(calc.check_margin_call(800_000_000), 1);
    assert_eq!(calc.check_margin_call(2_000_000_000), 0);
    calc.unrealized_pnl = -5_000_000_000;
    assert_eq!(calc.check_margin_call(2_000_000_000), 1);
    calc.unrealized_pnl = 1_000_000_000;
    assert_eq!(calc.check_margin_call(800_000_000), 1);
    assert_eq!(calc.check_margin_call(900_000_000), 0);
}
