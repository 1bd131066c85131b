//! Candlestick pattern flags, one per candle.
use vstd::prelude::*;
use crate::candle::{Ohlc, body, upper_wick, lower_wick, range, is_bullish, is_bearish, shape_of};

verus! {

pub open spec fn is_hammer(c: Ohlc) -> bool {
    range(c) > 0 && lower_wick(c) > 2 * body(c) && 2 * upper_wick(c) < body(c)
}

pub open spec fn is_inverted_hammer(c: Ohlc) -> bool {
    range(c) > 0 && upper_wick(c) > 2 * body(c) && 2 * lower_wick(c) < body(c)
}

/// Body under 5% of the range, lower wick over 70%, upper wick under 5%.
pub open spec fn is_dragonfly_doji(c: Ohlc) -> bool {
    range(c) > 0 && 20 * body(c) < range(c) && 10 * lower_wick(c) > 7 * range(c) && 20
        * upper_wick(c) < range(c)
}

pub open spec fn is_gravestone_doji(c: Ohlc) -> bool {
    range(c) > 0 && 20 * body(c) < range(c) && 10 * upper_wick(c) > 7 * range(c) && 20
        * lower_wick(c) < range(c)
}

pub open spec fn is_bullish_engulfing_at(s: Seq<Ohlc>, i: int) -> bool {
    1 <= i < s.len() && is_bearish(s[i - 1]) && is_bullish(s[i]) && s[i].open < s[i - 1].close
        && s[i].close > s[i - 1].open
}

pub open spec fn is_bearish_engulfing_at(s: Seq<Ohlc>, i: int) -> bool {
    1 <= i < s.len() && is_bullish(s[i - 1]) && is_bearish(s[i]) && s[i].open > s[i - 1].close
        && s[i].close < s[i - 1].open
}

/// The middle candle's body is under 30% of its range.
pub open spec fn small_middle(s: Seq<Ohlc>, i: int) -> bool {
    10 * body(s[i - 1]) < 3 * range(s[i - 1])
}

pub open spec fn is_morning_star_at(s: Seq<Ohlc>, i: int) -> bool {
    2 <= i < s.len() && is_bearish(s[i - 2]) && small_middle(s, i) && is_bullish(s[i]) && 2
        * s[i].close > s[i - 2].open + s[i - 2].close
}

pub open spec fn is_evening_star_at(s: Seq<Ohlc>, i: int) -> bool {
    2 <= i < s.len() && is_bullish(s[i - 2]) && small_middle(s, i) && is_bearish(s[i]) && 2
        * s[i].close < s[i - 2].open + s[i - 2].close
}

fn hammer_shape(c: &Ohlc) -> (r: bool)
    ensures
        r == is_hammer(*c),
{
    let s = shape_of(c);
    s.range > 0 && s.lower_wick > 2 * s.body && 2 * s.upper_wick < s.body
}

/// Flags each candle whose lower wick is over twice its body and whose upper
/// wick is under half its body.
pub fn detect_hammer(ohlc: &[Ohlc]) -> (r: Vec<bool>)
    ensures
        r@.len() == ohlc@.len(),
        forall|i: int| 0 <= i < ohlc@.len() ==> r@[i] == is_hammer(#[trigger] ohlc@[i]),
{
    let mut result: Vec<bool> = Vec::new();
    let mut i: usize = 0;
    while i < ohlc.len()
        invariant
            i <= ohlc@.len(),
            result@.len() == i,
            forall|k: int| 0 <= k < i ==> result@[k] == is_hammer(#[trigger] ohlc@[k]),
        decreases ohlc@.len() - i,
    {
        result.push(hammer_shape(&ohlc[i]));
        i += 1;
    }
    result
}

/// Flags each candle whose upper wick is over twice its body and whose lower
/// wick is under half its body.
pub fn detect_inverted_hammer(ohlc: &[Ohlc]) -> (r: Vec<bool>)
    ensures
        r@.len() == ohlc@.len(),
        forall|i: int| 0 <= i < ohlc@.len() ==> r@[i] == is_inverted_hammer(#[trigger] ohlc@[i]),
{
    let mut result: Vec<bool> = Vec::new();
    let mut i: usize = 0;
    while i < ohlc.len()
        invariant
            i <= ohlc@.len(),
            result@.len() == i,
            forall|k: int| 0 <= k < i ==> result@[k] == is_inverted_hammer(#[trigger] ohlc@[k]),
        decreases ohlc@.len() - i,
    {
        let s = shape_of(&ohlc[i]);
        result.push(s.range > 0 && s.upper_wick > 2 * s.body && 2 * s.lower_wick < s.body);
        i += 1;
    }
    result
}

/// The hanging man has the hammer's shape; the trend before it is not read.
pub fn detect_hanging_man(ohlc: &[Ohlc]) -> (r: Vec<bool>)
    ensures
        r@.len() == ohlc@.len(),
        forall|i: int| 0 <= i < ohlc@.len() ==> r@[i] == is_hammer(#[trigger] ohlc@[i]),
{
    detect_hammer(ohlc)
}

pub fn detect_dragonfly_doji(ohlc: &[Ohlc]) -> (r: Vec<bool>)
    ensures
        r@.len() == ohlc@.len(),
        forall|i: int| 0 <= i < ohlc@.len() ==> r@[i] == is_dragonfly_doji(#[trigger] ohlc@[i]),
{
    let mut result: Vec<bool> = Vec::new();
    let mut i: usize = 0;
    while i < ohlc.len()
        invariant
            i <= ohlc@.len(),
            result@.len() == i,
            forall|k: int| 0 <= k < i ==> result@[k] == is_dragonfly_doji(#[trigger] ohlc@[k]),
        decreases ohlc@.len() - i,
    {
        let s = shape_of(&ohlc[i]);
        result.push(
            s.range > 0 && 20 * s.body < s.range && 10 * s.lower_wick > 7 * s.range && 20
                * s.upper_wick < s.range,
        );
        i += 1;
    }
    result
}

pub fn detect_gravestone_doji(ohlc: &[Ohlc]) -> (r: Vec<bool>)
    ensures
        r@.len() == ohlc@.len(),
        forall|i: int| 0 <= i < ohlc@.len() ==> r@[i] == is_gravestone_doji(#[trigger] ohlc@[i]),
{
    let mut result: Vec<bool> = Vec::new();
    let mut i: usize = 0;
    while i < ohlc.len()
        invariant
            i <= ohlc@.len(),
            result@.len() == i,
            forall|k: int| 0 <= k < i ==> result@[k] == is_gravestone_doji(#[trigger] ohlc@[k]),
        decreases ohlc@.len() - i,
    {
        let s = shape_of(&ohlc[i]);
        result.push(
            s.range > 0 && 20 * s.body < s.range && 10 * s.upper_wick > 7 * s.range && 20
                * s.lower_wick < s.range,
        );
        i += 1;
    }
    result
}

/// Flags a bullish candle whose body contains the body of the bearish candle before it.
pub fn detect_bullish_engulfing(ohlc: &[Ohlc]) -> (r: Vec<bool>)
    ensures
        r@.len() == ohlc@.len(),
        forall|i: int| 0 <= i < ohlc@.len() ==> r@[i] == is_bullish_engulfing_at(ohlc@, i),
{
    let mut result: Vec<bool> = Vec::new();
    let mut i: usize = 0;
    while i < ohlc.len()
        invariant
            i <= ohlc@.len(),
            result@.len() == i,
            forall|k: int| 0 <= k < i ==> result@[k] == is_bullish_engulfing_at(ohlc@, k),
        decreases ohlc@.len() - i,
    {
        let flag = if i >= 1 {
            let prev = &ohlc[i - 1];
            let cur = &ohlc[i];
            prev.close < prev.open && cur.close > cur.open && cur.open < prev.close && cur.close
                > prev.open
        } else {
            false
        };
        result.push(flag);
        i += 1;
    }
    result
}

/// Flags a bearish candle whose body contains the body of the bullish candle before it.
pub fn detect_bearish_engulfing(ohlc: &[Ohlc]) -> (r: Vec<bool>)
    ensures
        r@.len() == ohlc@.len(),
        forall|i: int| 0 <= i < ohlc@.len() ==> r@[i] == is_bearish_engulfing_at(ohlc@, i),
{
    let mut result: Vec<bool> = Vec::new();
    let mut i: usize = 0;
    while i < ohlc.len()
        invariant
            i <= ohlc@.len(),
            result@.len() == i,
            forall|k: int| 0 <= k < i ==> result@[k] == is_bearish_engulfing_at(ohlc@, k),
        decreases ohlc@.len() - i,
    {
        let flag = if i >= 1 {
            let prev = &ohlc[i - 1];
            let cur = &ohlc[i];
            prev.close > prev.open && cur.close < cur.open && cur.open > prev.close && cur.close
                < prev.open
        } else {
            false
        };
        result.push(flag);
        i += 1;
    }
    result
}

fn small_middle_body(c: &Ohlc) -> (r: bool)
    ensures
        r == (10 * body(*c) < 3 * range(*c)),
{
    let s = shape_of(c);
    10 * s.body < 3 * s.range
}

/// Flags the third candle of bearish, small-bodied, then bullish candles that
/// closes above the first candle's midpoint.
pub fn detect_morning_star(ohlc: &[Ohlc]) -> (r: Vec<bool>)
    ensures
        r@.len() == ohlc@.len(),
        forall|i: int| 0 <= i < ohlc@.len() ==> r@[i] == is_morning_star_at(ohlc@, i),
{
    let mut result: Vec<bool> = Vec::new();
    let mut i: usize = 0;
    while i < ohlc.len()
        invariant
            i <= ohlc@.len(),
            result@.len() == i,
            forall|k: int| 0 <= k < i ==> result@[k] == is_morning_star_at(ohlc@, k),
        decreases ohlc@.len() - i,
    {
        let flag = if i >= 2 {
            let first = &ohlc[i - 2];
            let cur = &ohlc[i];
            first.close < first.open && small_middle_body(&ohlc[i - 1]) && cur.close > cur.open
                && 2 * (cur.close as i128) > first.open as i128 + first.close as i128
        } else {
            false
        };
        result.push(flag);
        i += 1;
    }
    result
}

/// Flags the third candle of bullish, small-bodied, then bearish candles that
/// closes below the first candle's midpoint.
pub fn detect_evening_star(ohlc: &[Ohlc]) -> (r: Vec<bool>)
    ensures
        r@.len() == ohlc@.len(),
        forall|i: int| 0 <= i < ohlc@.len() ==> r@[i] == is_evening_star_at(ohlc@, i),
{
    let mut result: Vec<bool> = Vec::new();
    let mut i: usize = 0;
    while i < ohlc.len()
        invariant
            i <= ohlc@.len(),
            result@.len() == i,
            forall|k: int| 0 <= k < i ==> result@[k] == is_evening_star_at(ohlc@, k),
        decreases ohlc@.len() - i,
    {
        let flag = if i >= 2 {
            let first = &ohlc[i - 2];
            let cur = &ohlc[i];
            first.close > first.open && small_middle_body(&ohlc[i - 1]) && cur.close < cur.open
                && 2 * (cur.close as i128) < first.open as i128 + first.close as i128
        } else {
            false
        };
        result.push(flag);
        i += 1;
    }
    result
}

} // verus!
