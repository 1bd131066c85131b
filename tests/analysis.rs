use rust_analysis::analysis::{analyze_smc, calculate_indicators, detect_patterns};
use rust_analysis::candle::Ohlc;
use rust_analysis::indicators::{calculate_atr, calculate_ema, calculate_rsi};
use rust_analysis::patterns::{
    detect_bearish_engulfing, detect_bullish_engulfing, detect_dragonfly_doji, detect_evening_star,
    detect_gravestone_doji, detect_hammer, detect_hanging_man, detect_inverted_hammer,
    detect_morning_star,
};
use rust_analysis::smc::{
    detect_fvg, detect_fvg_zones, detect_liquidity_sweep, detect_order_block_zones,
    detect_order_blocks, identify_swing_points, FvgZone, OrderBlockZone, ZoneType,
};
use rust_analysis::sr_zones::{identify_sr_zones, SrType, SrZone};
use rust_analysis::PRICE_SCALE;

fn px(x: f64) -> i64 {
    (x * PRICE_SCALE as f64).round() as i64
}

fn candle(open: f64, high: f64, low: f64, close: f64) -> Ohlc {
    Ohlc { open: px(open), high: px(high), low: px(low), close: px(close) }
}

#[test]
fn hammer_isolated_candle() {
    let c = [candle(10.0, 10.5, 9.0, 10.4)];
    assert_eq!(detect_hammer(&c), vec![true]);
    assert_eq!(detect_hanging_man(&c), vec![true]);
    assert_eq!(detect_inverted_hammer(&c), vec![false]);
}

#[test]
fn inverted_hammer_candle() {
    let c = [candle(10.0, 11.5, 9.9, 10.4)];
    assert_eq!(detect_inverted_hammer(&c), vec![true]);
    assert_eq!(detect_hammer(&c), vec![false]);
}

#[test]
fn flat_candle_fires_no_single_candle_pattern() {
    let c = [candle(10.0, 10.0, 10.0, 10.0)];
    assert_eq!(detect_hammer(&c), vec![false]);
    assert_eq!(detect_inverted_hammer(&c), vec![false]);
    assert_eq!(detect_dragonfly_doji(&c), vec![false]);
    assert_eq!(detect_gravestone_doji(&c), vec![false]);
}

#[test]
fn doji_shapes() {
    let dragonfly = [candle(10.0, 10.02, 9.0, 10.01)];
    assert_eq!(detect_dragonfly_doji(&dragonfly), vec![true]);
    assert_eq!(detect_gravestone_doji(&dragonfly), vec![false]);
    let gravestone = [candle(10.0, 11.0, 9.99, 10.01)];
    assert_eq!(detect_gravestone_doji(&gravestone), vec![true]);
    assert_eq!(detect_dragonfly_doji(&gravestone), vec![false]);
}

#[test]
fn bullish_engulfing_pair() {
    let c = [candle(10.0, 10.1, 8.8, 9.0), candle(8.9, 10.3, 8.8, 10.2)];
    assert_eq!(detect_bullish_engulfing(&c), vec![false, true]);
    assert_eq!(detect_bearish_engulfing(&c), vec![false, false]);
}

#[test]
fn bearish_engulfing_pair() {
    let c = [candle(9.0, 10.1, 8.9, 10.0), candle(10.1, 10.2, 8.7, 8.8)];
    assert_eq!(detect_bearish_engulfing(&c), vec![false, true]);
    assert_eq!(detect_bullish_engulfing(&c), vec![false, false]);
}

#[test]
fn morning_and_evening_star() {
    let morning = [
        candle(12.0, 12.1, 10.9, 11.0),
        candle(10.8, 11.0, 10.5, 10.7),
        candle(10.8, 11.9, 10.7, 11.8),
    ];
    assert_eq!(detect_morning_star(&morning), vec![false, false, true]);
    assert_eq!(detect_evening_star(&morning), vec![false, false, false]);
    let evening = [
        candle(11.0, 12.1, 10.9, 12.0),
        candle(12.2, 12.5, 12.0, 12.3),
        candle(12.2, 12.3, 11.1, 11.2),
    ];
    assert_eq!(detect_evening_star(&evening), vec![false, false, true]);
    assert_eq!(detect_morning_star(&evening), vec![false, false, false]);
}

#[test]
fn swing_high_unimodal() {
    let high: Vec<i64> = [1, 2, 3, 4, 5, 6, 5, 4, 3, 2, 1].iter().map(|v| px(*v as f64)).collect();
    let low = vec![0i64; 11];
    let (highs, lows) = identify_swing_points(&high, &low, 5);
    for i in 0..11 {
        if i == 5 {
            assert_eq!(highs[i], Some(px(6.0)));
        } else {
            assert_eq!(highs[i], None);
        }
        assert_eq!(lows[i], None);
    }
}

#[test]
fn swing_ties_give_no_pivot() {
    let high = vec![1, 3, 3, 1, 0];
    let low = vec![5, 1, 1, 5, 5];
    let (highs, lows) = identify_swing_points(&high, &low, 1);
    assert_eq!(highs, vec![None, None, None, None, None]);
    assert_eq!(lows, vec![None, None, None, None, None]);
    let (highs, lows) = identify_swing_points(&[1, 3, 1], &[5, 1, 5], 1);
    assert_eq!(highs, vec![None, Some(3), None]);
    assert_eq!(lows, vec![None, Some(1), None]);
}

#[test]
fn sr_zone_cluster() {
    let highs = [Some(px(100.0)), None, Some(px(100.1))];
    let lows = [Some(px(100.2)), Some(px(150.0))];
    let zones = identify_sr_zones(&highs, &lows, px(120.0), 200_000, 2);
    assert_eq!(
        zones,
        vec![SrZone {
            level: px(100.1),
            zone_type: SrType::Support,
            strength: 3,
            top: px(100.2),
            bottom: px(100.0),
            distance: px(19.9),
        }]
    );
}

#[test]
fn sr_zone_at_price_is_resistance_and_empty_input() {
    let highs = [Some(px(50.0)), Some(px(50.0))];
    let zones = identify_sr_zones(&highs, &[], px(50.0), 200_000, 2);
    assert_eq!(zones.len(), 1);
    assert_eq!(zones[0].zone_type, SrType::Resistance);
    assert_eq!(zones[0].distance, 0);
    assert_eq!(identify_sr_zones(&[], &[], px(50.0), 200_000, 2), vec![]);
}

#[test]
fn sr_zones_keep_five_strongest_nearest_first() {
    let mut highs = Vec::new();
    for (level, touches) in [(10.0, 2), (20.0, 3), (30.0, 4), (40.0, 5), (50.0, 6), (60.0, 7)] {
        for _ in 0..touches {
            highs.push(Some(px(level)));
        }
    }
    let zones = identify_sr_zones(&highs, &[], px(45.0), 200_000, 2);
    let levels: Vec<i64> = zones.iter().map(|z| z.level).collect();
    assert_eq!(levels, vec![px(50.0), px(40.0), px(60.0), px(30.0), px(20.0)]);
    let strengths: Vec<usize> = zones.iter().map(|z| z.strength).collect();
    assert_eq!(strengths, vec![6, 5, 7, 4, 3]);
}

#[test]
fn liquidity_sweep_bullish() {
    let n = 21;
    let mut high = vec![px(11.0); n];
    let mut low = vec![px(10.0); n];
    let mut close = vec![px(10.5); n];
    low[20] = px(9.5);
    close[20] = px(10.2);
    high[20] = px(10.8);
    let (bull, bear) = detect_liquidity_sweep(&high, &low, &close, 20);
    for i in 0..20 {
        assert!(!bull[i]);
    }
    assert!(bull[20]);
    assert_eq!(bear, vec![false; n]);
}

#[test]
fn liquidity_sweep_bearish_and_zero_lookback() {
    let high = vec![11, 12, 13];
    let low = vec![9, 9, 9];
    let close = vec![10, 10, 11];
    let (bull, bear) = detect_liquidity_sweep(&high, &low, &close, 2);
    assert_eq!(bull, vec![false, false, false]);
    assert_eq!(bear, vec![false, false, true]);
    let (bull, bear) = detect_liquidity_sweep(&high, &low, &close, 0);
    assert_eq!(bull, vec![false, false, false]);
    assert_eq!(bear, vec![false, false, false]);
}

#[test]
fn fair_value_gaps() {
    let c = [
        candle(10.0, 10.5, 9.8, 10.4),
        candle(10.4, 11.5, 10.3, 11.4),
        candle(11.4, 12.0, 10.8, 11.9),
        candle(11.9, 12.0, 11.0, 11.1),
        candle(11.1, 11.2, 10.5, 10.6),
    ];
    let zones = detect_fvg_zones(&c);
    assert_eq!(
        zones,
        vec![FvgZone {
            zone_type: ZoneType::Bullish,
            top: px(10.8),
            bottom: px(10.5),
            index: 2,
            gap_size: px(0.3),
        }]
    );
    let (bull, bear) = detect_fvg(&c);
    assert_eq!(bull, vec![false, false, true, false, false]);
    assert_eq!(bear, vec![false; 5]);
    let down = [candle(12.0, 12.2, 11.5, 11.6), candle(11.6, 11.7, 11.0, 11.1), candle(11.1, 11.2, 10.5, 10.6)];
    assert_eq!(
        detect_fvg_zones(&down),
        vec![FvgZone {
            zone_type: ZoneType::Bearish,
            top: px(11.5),
            bottom: px(11.2),
            index: 2,
            gap_size: px(0.3),
        }]
    );
    assert_eq!(detect_fvg(&down), (vec![false; 3], vec![false, false, true]));
}

#[test]
fn order_blocks() {
    let c = [candle(10.0, 10.1, 9.4, 9.5), candle(9.5, 10.6, 9.4, 10.5), candle(10.5, 10.6, 9.3, 9.4)];
    assert_eq!(
        detect_order_block_zones(&c),
        vec![
            OrderBlockZone { zone_type: ZoneType::Bullish, top: px(10.0), bottom: px(9.5), index: 0 },
            OrderBlockZone { zone_type: ZoneType::Bearish, top: px(10.5), bottom: px(9.5), index: 1 },
        ]
    );
    assert_eq!(detect_order_blocks(&c), (vec![true, false, false], vec![false, true, false]));
}

#[test]
fn ema_exact_values() {
    assert_eq!(calculate_ema(&[1, 2, 3, 4, 5], 3), vec![0, 0, 2, 3, 4]);
    assert_eq!(calculate_ema(&[0, 0, -1], 2), vec![0, 0, -1]);
}

#[test]
fn short_series_are_all_zero() {
    assert_eq!(calculate_ema(&[5, 6, 7], 5), vec![0, 0, 0]);
    assert_eq!(calculate_rsi(&[5, 6, 7], 3), vec![0, 0, 0]);
    assert_eq!(calculate_atr(&[5, 6, 7], &[4, 5, 6], &[5, 6, 7], 3), vec![0, 0, 0]);
    assert_eq!(calculate_ema(&[], 3), Vec::<i64>::new());
}

#[test]
fn rsi_exact_values() {
    assert_eq!(calculate_rsi(&[1000, 1200, 1100, 1300], 2), vec![0, 0, 4_000_000_000, 7_716_049_382]);
    let hundred = 100 * PRICE_SCALE;
    assert_eq!(calculate_rsi(&[1, 2, 3, 4], 2), vec![0, 0, hundred, hundred]);
    assert_eq!(calculate_rsi(&[4, 3, 2, 1], 2), vec![0, 0, 0, 0]);
}

#[test]
fn rsi_stays_in_range() {
    let prices: Vec<i64> = (0..60).map(|i| px(100.0 + ((i * 37) % 11) as f64 - 5.0)).collect();
    for v in calculate_rsi(&prices, 14) {
        assert!(v >= 0 && v <= 100 * PRICE_SCALE);
    }
}

#[test]
fn atr_exact_values() {
    let high = [110, 120, 115, 130, 125];
    let low = [100, 105, 100, 118, 110];
    let close = [105, 118, 102, 128, 112];
    assert_eq!(calculate_atr(&high, &low, &close, 2), vec![0, 0, 16, 22, 20]);
}

#[test]
fn atr_of_flat_series_is_zero() {
    let flat = vec![px(42.0); 30];
    assert_eq!(calculate_atr(&flat, &flat, &flat, 14), vec![0; 30]);
}

#[test]
fn indicators_have_input_length() {
    let prices: Vec<i64> = (0..250).map(|i| px(100.0 + (i % 7) as f64)).collect();
    let r = calculate_indicators(&prices, &prices, &prices, &prices);
    assert_eq!(r.ema_50.len(), 250);
    assert_eq!(r.ema_200.len(), 250);
    assert_eq!(r.rsi_14.len(), 250);
    assert_eq!(r.atr_14.len(), 250);
    assert_eq!(r.ema_50[48], 0);
    assert!(r.ema_50[49] > 0);
    assert_eq!(r.ema_200[198], 0);
    assert!(r.ema_200[199] > 0);
}

fn sample_series() -> Vec<Ohlc> {
    (0..40)
        .map(|i| {
            let base = 100.0 + ((i * 13) % 9) as f64;
            let close = base + if i % 2 == 0 { 0.6 } else { -0.6 };
            candle(base, base.max(close) + 0.5, base.min(close) - 0.4, close)
        })
        .collect()
}

#[test]
fn detectors_are_repeatable() {
    let series = sample_series();
    let a = detect_patterns(&series);
    let b = detect_patterns(&series);
    assert_eq!(a.hammer, b.hammer);
    assert_eq!(a.morning_star, b.morning_star);
    assert_eq!(a.bullish_engulfing, b.bullish_engulfing);
    let x = analyze_smc(&series);
    let y = analyze_smc(&series);
    assert_eq!(x.swing_highs, y.swing_highs);
    assert_eq!(x.swing_lows, y.swing_lows);
    assert_eq!(x.fvg_zones, y.fvg_zones);
    assert_eq!(x.ob_zones, y.ob_zones);
    assert_eq!(x.sr_zones, y.sr_zones);
    assert_eq!(x.sweep_bullish, y.sweep_bullish);
}

#[test]
fn smc_analysis_matches_parts() {
    let series = sample_series();
    let r = analyze_smc(&series);
    let high: Vec<i64> = series.iter().map(|c| c.high).collect();
    let low: Vec<i64> = series.iter().map(|c| c.low).collect();
    let (sh, sl) = identify_swing_points(&high, &low, 5);
    assert_eq!(r.swing_highs, sh);
    assert_eq!(r.swing_lows, sl);
    assert_eq!(r.fvg_zones, detect_fvg_zones(&series));
    assert_eq!(r.ob_zones, detect_order_block_zones(&series));
    let last = series[series.len() - 1].close;
    assert_eq!(r.sr_zones, identify_sr_zones(&sh, &sl, last, 200_000, 2));
    let empty = analyze_smc(&[]);
    assert!(empty.sr_zones.is_empty() && empty.swing_highs.is_empty());
}
