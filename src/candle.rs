use vstd::prelude::*;

verus! {

/// One candle, each price in ticks.
#[derive(Clone, Copy, Debug, PartialEq, Eq, Structural)]
pub struct Ohlc {
    pub open: i64,
    pub high: i64,
    pub low: i64,
    pub close: i64,
}

pub open spec fn abs_int(x: int) -> int {
    if x < 0 { -x } else { x }
}

pub open spec fn max_int(a: int, b: int) -> int {
    if a >= b { a } else { b }
}

pub open spec fn min_int(a: int, b: int) -> int {
    if a <= b { a } else { b }
}

pub open spec fn body(c: Ohlc) -> int {
    abs_int(c.close - c.open)
}

pub open spec fn upper_wick(c: Ohlc) -> int {
    c.high - max_int(c.open as int, c.close as int)
}

pub open spec fn lower_wick(c: Ohlc) -> int {
    min_int(c.open as int, c.close as int) - c.low
}

pub open spec fn range(c: Ohlc) -> int {
    c.high - c.low
}

pub open spec fn is_bullish(c: Ohlc) -> bool {
    c.close > c.open
}

pub open spec fn is_bearish(c: Ohlc) -> bool {
    c.close < c.open
}

/// The four shape measures of a candle, computed exactly in 128 bits.
pub struct Shape {
    pub body: i128,
    pub upper_wick: i128,
    pub lower_wick: i128,
    pub range: i128,
}

pub fn shape_of(c: &Ohlc) -> (s: Shape)
    ensures
        s.body == body(*c),
        s.upper_wick == upper_wick(*c),
        s.lower_wick == lower_wick(*c),
        s.range == range(*c),
{
    let open = c.open as i128;
    let close = c.close as i128;
    let high = c.high as i128;
    let low = c.low as i128;
    let body = if close >= open { close - open } else { open - close };
    let top = if open >= close { open } else { close };
    let bottom = if open <= close { open } else { close };
    Shape { body, upper_wick: high - top, lower_wick: bottom - low, range: high - low }
}

} // verus!
