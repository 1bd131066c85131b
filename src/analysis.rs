//! The three analyses offered to callers, with their fixed parameters.
use vstd::prelude::*;
use crate::candle::Ohlc;
use crate::indicators::{
    atr_at, calculate_atr, calculate_ema, calculate_rsi, ema_at, rsi_at, series_in_range,
};
use crate::patterns::{
    detect_bearish_engulfing, detect_bullish_engulfing, detect_dragonfly_doji, detect_evening_star,
    detect_gravestone_doji, detect_hammer, detect_hanging_man, detect_inverted_hammer,
    detect_morning_star, is_bearish_engulfing_at, is_bullish_engulfing_at, is_dragonfly_doji,
    is_evening_star_at, is_gravestone_doji, is_hammer, is_inverted_hammer, is_morning_star_at,
};
use crate::smc::{
    candle_in_range, detect_fvg, detect_fvg_zones, detect_liquidity_sweep, detect_order_block_zones,
    detect_order_blocks, fvg_zones_before, identify_swing_points, is_bearish_fvg_at,
    is_bearish_ob_at, is_bearish_sweep_at, is_bullish_fvg_at, is_bullish_ob_at,
    is_bullish_sweep_at, is_swing_high_at, is_swing_low_at, ob_zones_before, prices_in_range,
    FvgZone, OrderBlockZone,
};
use crate::sr_zones::{identify_sr_zones, level_in_range, levels_in_range, sr_zones_of, SrZone};

verus! {

pub const EMA_FAST_PERIOD: usize = 50;

pub const EMA_SLOW_PERIOD: usize = 200;

pub const RSI_PERIOD: usize = 14;

pub const ATR_PERIOD: usize = 14;

pub const PIVOT_LEGS: usize = 5;

/// Relative width of a support/resistance band, in ticks (0.002).
pub const SR_TOLERANCE: i64 = 200_000;

pub const SR_MIN_TOUCHES: usize = 2;

pub const SWEEP_LOOKBACK: usize = 20;

pub struct Indicators {
    pub ema_50: Vec<i64>,
    pub ema_200: Vec<i64>,
    pub rsi_14: Vec<i64>,
    pub atr_14: Vec<i64>,
}

/// Computes the fast and slow EMA and the RSI of `prices`, and the ATR of the
/// high/low/close series.
pub fn calculate_indicators(prices: &[i64], high: &[i64], low: &[i64], close: &[i64]) -> (r:
    Indicators)
    requires
        series_in_range(prices@),
        series_in_range(high@),
        series_in_range(low@),
        series_in_range(close@),
        low@.len() == high@.len(),
        close@.len() == high@.len(),
    ensures
        r.ema_50@.len() == prices@.len(),
        r.ema_200@.len() == prices@.len(),
        r.rsi_14@.len() == prices@.len(),
        r.atr_14@.len() == high@.len(),
        forall|i: int|
            0 <= i < prices@.len() ==> #[trigger] r.ema_50@[i] == ema_at(
                prices@,
                EMA_FAST_PERIOD as int,
                i,
            ),
        forall|i: int|
            0 <= i < prices@.len() ==> #[trigger] r.ema_200@[i] == ema_at(
                prices@,
                EMA_SLOW_PERIOD as int,
                i,
            ),
        forall|i: int|
            0 <= i < prices@.len() ==> #[trigger] r.rsi_14@[i] == rsi_at(
                prices@,
                RSI_PERIOD as int,
                i,
            ),
        forall|i: int|
            0 <= i < high@.len() ==> #[trigger] r.atr_14@[i] == atr_at(
                high@,
                low@,
                close@,
                ATR_PERIOD as int,
                i,
            ),
{
    Indicators {
        ema_50: calculate_ema(prices, EMA_FAST_PERIOD),
        ema_200: calculate_ema(prices, EMA_SLOW_PERIOD),
        rsi_14: calculate_rsi(prices, RSI_PERIOD),
        atr_14: calculate_atr(high, low, close, ATR_PERIOD),
    }
}

pub struct PatternFlags {
    pub hammer: Vec<bool>,
    pub inverted_hammer: Vec<bool>,
    pub hanging_man: Vec<bool>,
    pub bullish_engulfing: Vec<bool>,
    pub bearish_engulfing: Vec<bool>,
    pub dragonfly_doji: Vec<bool>,
    pub gravestone_doji: Vec<bool>,
    pub morning_star: Vec<bool>,
    pub evening_star: Vec<bool>,
}

/// Runs every candlestick detector over the series.
pub fn detect_patterns(ohlc: &[Ohlc]) -> (r: PatternFlags)
    ensures
        r.hammer@.len() == ohlc@.len(),
        r.inverted_hammer@.len() == ohlc@.len(),
        r.hanging_man@.len() == ohlc@.len(),
        r.bullish_engulfing@.len() == ohlc@.len(),
        r.bearish_engulfing@.len() == ohlc@.len(),
        r.dragonfly_doji@.len() == ohlc@.len(),
        r.gravestone_doji@.len() == ohlc@.len(),
        r.morning_star@.len() == ohlc@.len(),
        r.evening_star@.len() == ohlc@.len(),
        forall|i: int|
            0 <= i < ohlc@.len() ==> {
                &&& #[trigger] r.hammer@[i] == is_hammer(ohlc@[i])
                &&& r.inverted_hammer@[i] == is_inverted_hammer(ohlc@[i])
                &&& r.hanging_man@[i] == is_hammer(ohlc@[i])
                &&& r.bullish_engulfing@[i] == is_bullish_engulfing_at(ohlc@, i)
                &&& r.bearish_engulfing@[i] == is_bearish_engulfing_at(ohlc@, i)
                &&& r.dragonfly_doji@[i] == is_dragonfly_doji(ohlc@[i])
                &&& r.gravestone_doji@[i] == is_gravestone_doji(ohlc@[i])
                &&& r.morning_star@[i] == is_morning_star_at(ohlc@, i)
                &&& r.evening_star@[i] == is_evening_star_at(ohlc@, i)
            },
{
    let r = PatternFlags {
        hammer: detect_hammer(ohlc),
        inverted_hammer: detect_inverted_hammer(ohlc),
        hanging_man: detect_hanging_man(ohlc),
        bullish_engulfing: detect_bullish_engulfing(ohlc),
        bearish_engulfing: detect_bearish_engulfing(ohlc),
        dragonfly_doji: detect_dragonfly_doji(ohlc),
        gravestone_doji: detect_gravestone_doji(ohlc),
        morning_star: detect_morning_star(ohlc),
        evening_star: detect_evening_star(ohlc),
    };
    assert forall|i: int| 0 <= i < ohlc@.len() implies #[trigger] r.hammer@[i] == is_hammer(ohlc@[i])
        && r.inverted_hammer@[i] == is_inverted_hammer(ohlc@[i]) && r.hanging_man@[i]
        == is_hammer(ohlc@[i]) && r.dragonfly_doji@[i] == is_dragonfly_doji(ohlc@[i])
        && r.gravestone_doji@[i] == is_gravestone_doji(ohlc@[i]) by {
        assert(r.hammer@[i] == is_hammer(ohlc@[i]));
    }
    r
}

pub struct SmcAnalysis {
    pub swing_highs: Vec<Option<i64>>,
    pub swing_lows: Vec<Option<i64>>,
    pub fvg_bullish: Vec<bool>,
    pub fvg_bearish: Vec<bool>,
    pub ob_bullish: Vec<bool>,
    pub ob_bearish: Vec<bool>,
    pub sweep_bullish: Vec<bool>,
    pub sweep_bearish: Vec<bool>,
    pub fvg_zones: Vec<FvgZone>,
    pub ob_zones: Vec<OrderBlockZone>,
    pub sr_zones: Vec<SrZone>,
}

pub open spec fn highs_of(s: Seq<Ohlc>) -> Seq<i64> {
    Seq::new(s.len(), |i: int| s[i].high)
}

pub open spec fn lows_of(s: Seq<Ohlc>) -> Seq<i64> {
    Seq::new(s.len(), |i: int| s[i].low)
}

pub open spec fn closes_of(s: Seq<Ohlc>) -> Seq<i64> {
    Seq::new(s.len(), |i: int| s[i].close)
}

/// The close of the last candle, or zero for an empty series.
pub open spec fn last_close(s: Seq<Ohlc>) -> i64 {
    if s.len() == 0 {
        0
    } else {
        s.last().close
    }
}

fn split_series(ohlc: &[Ohlc]) -> (r: (Vec<i64>, Vec<i64>, Vec<i64>))
    ensures
        r.0@ == highs_of(ohlc@),
        r.1@ == lows_of(ohlc@),
        r.2@ == closes_of(ohlc@),
{
    let mut high: Vec<i64> = Vec::new();
    let mut low: Vec<i64> = Vec::new();
    let mut close: Vec<i64> = Vec::new();
    let mut i: usize = 0;
    while i < ohlc.len()
        invariant
            i <= ohlc@.len(),
            high@ =~= highs_of(ohlc@).take(i as int),
            low@ =~= lows_of(ohlc@).take(i as int),
            close@ =~= closes_of(ohlc@).take(i as int),
        decreases ohlc@.len() - i,
    {
        high.push(ohlc[i].high);
        low.push(ohlc[i].low);
        close.push(ohlc[i].close);
        i += 1;
    }
    assert(high@ =~= highs_of(ohlc@));
    assert(low@ =~= lows_of(ohlc@));
    assert(close@ =~= closes_of(ohlc@));
    (high, low, close)
}

/// Finds the swing points, fair value gaps, order blocks and liquidity
/// sweeps of the series, and the support/resistance zones around its last close.
pub fn analyze_smc(ohlc: &[Ohlc]) -> (r: SmcAnalysis)
    requires
        prices_in_range(ohlc@),
    ensures
        r.swing_highs@.len() == ohlc@.len(),
        r.swing_lows@.len() == ohlc@.len(),
        r.fvg_bullish@.len() == ohlc@.len(),
        r.fvg_bearish@.len() == ohlc@.len(),
        r.ob_bullish@.len() == ohlc@.len(),
        r.ob_bearish@.len() == ohlc@.len(),
        r.sweep_bullish@.len() == ohlc@.len(),
        r.sweep_bearish@.len() == ohlc@.len(),
        forall|i: int|
            0 <= i < ohlc@.len() ==> {
                &&& #[trigger] r.swing_highs@[i] == if is_swing_high_at(
                    highs_of(ohlc@),
                    PIVOT_LEGS as int,
                    i,
                ) {
                    Some(ohlc@[i].high)
                } else {
                    None
                }
                &&& r.swing_lows@[i] == if is_swing_low_at(lows_of(ohlc@), PIVOT_LEGS as int, i) {
                    Some(ohlc@[i].low)
                } else {
                    None
                }
                &&& r.fvg_bullish@[i] == is_bullish_fvg_at(ohlc@, i)
                &&& r.fvg_bearish@[i] == is_bearish_fvg_at(ohlc@, i)
                &&& r.ob_bullish@[i] == is_bullish_ob_at(ohlc@, i + 1)
                &&& r.ob_bearish@[i] == is_bearish_ob_at(ohlc@, i + 1)
                &&& r.sweep_bullish@[i] == is_bullish_sweep_at(
                    lows_of(ohlc@),
                    closes_of(ohlc@),
                    SWEEP_LOOKBACK as int,
                    i,
                )
                &&& r.sweep_bearish@[i] == is_bearish_sweep_at(
                    highs_of(ohlc@),
                    closes_of(ohlc@),
                    SWEEP_LOOKBACK as int,
                    i,
                )
            },
        r.fvg_zones@ == fvg_zones_before(ohlc@, ohlc@.len() as int),
        r.ob_zones@ == ob_zones_before(ohlc@, ohlc@.len() as int),
        r.sr_zones@ == sr_zones_of(
            r.swing_highs@,
            r.swing_lows@,
            last_close(ohlc@) as int,
            SR_TOLERANCE as int,
            SR_MIN_TOUCHES as int,
        ),
{
    let (high, low, close) = split_series(ohlc);
    let current_price: i64 = if ohlc.len() > 0 {
        ohlc[ohlc.len() - 1].close
    } else {
        0
    };
    let (swing_highs, swing_lows) = identify_swing_points(&high, &low, PIVOT_LEGS);
    let (fvg_bullish, fvg_bearish) = detect_fvg(ohlc);
    let fvg_zones = detect_fvg_zones(ohlc);
    let (ob_bullish, ob_bearish) = detect_order_blocks(ohlc);
    let ob_zones = detect_order_block_zones(ohlc);
    let (sweep_bullish, sweep_bearish) = detect_liquidity_sweep(
        &high,
        &low,
        &close,
        SWEEP_LOOKBACK,
    );
    proof {
        assert forall|k: int| 0 <= k < swing_highs@.len() implies level_in_range(
            #[trigger] swing_highs@[k],
        ) by {
            assert(candle_in_range(ohlc@[k]));
        }
        assert forall|k: int| 0 <= k < swing_lows@.len() implies level_in_range(
            #[trigger] swing_lows@[k],
        ) by {
            assert(candle_in_range(ohlc@[k]));
        }
        if ohlc@.len() > 0 {
            assert(candle_in_range(ohlc@[ohlc@.len() - 1]));
        }
    }
    let sr_zones = identify_sr_zones(
        &swing_highs,
        &swing_lows,
        current_price,
        SR_TOLERANCE,
        SR_MIN_TOUCHES,
    );
    SmcAnalysis {
        swing_highs,
        swing_lows,
        fvg_bullish,
        fvg_bearish,
        ob_bullish,
        ob_bearish,
        sweep_bullish,
        sweep_bearish,
        fvg_zones,
        ob_zones,
        sr_zones,
    }
}

} // verus!
