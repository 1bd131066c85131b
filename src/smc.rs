//! Smart-money structures: swing pivots, fair value gaps, order blocks and
//! liquidity sweeps.
use vstd::prelude::*;
use crate::candle::{Ohlc, is_bullish, is_bearish};

verus! {

/// Direction of a structural zone.
#[derive(Clone, Copy, Debug, PartialEq, Eq, Structural)]
pub enum ZoneType {
    Bullish,
    Bearish,
}

/// A fair value gap: the price band left open between candle `index - 2` and
/// candle `index`.
#[derive(Clone, Copy, Debug, PartialEq, Eq, Structural)]
pub struct FvgZone {
    pub zone_type: ZoneType,
    pub top: i64,
    pub bottom: i64,
    pub index: usize,
    pub gap_size: i64,
}

/// An order block: the body of the last opposing candle before an engulf,
/// anchored at that candle.
#[derive(Clone, Copy, Debug, PartialEq, Eq, Structural)]
pub struct OrderBlockZone {
    pub zone_type: ZoneType,
    pub top: i64,
    pub bottom: i64,
    pub index: usize,
}

/// `high[i]` is strictly above every other high within `legs` of it.
pub open spec fn is_swing_high_at(high: Seq<i64>, legs: int, i: int) -> bool {
    legs <= i && i + legs < high.len() && forall|j: int|
        i - legs <= j <= i + legs && j != i ==> #[trigger] high[j] < high[i]
}

/// `low[i]` is strictly below every other low within `legs` of it.
pub open spec fn is_swing_low_at(low: Seq<i64>, legs: int, i: int) -> bool {
    legs <= i && i + legs < low.len() && forall|j: int|
        i - legs <= j <= i + legs && j != i ==> #[trigger] low[j] > low[i]
}

/// Finds the pivots of a high/low series: a value stands only where it is the
/// unique extreme of the window of `pivot_legs` candles on either side.
pub fn identify_swing_points(high: &[i64], low: &[i64], pivot_legs: usize) -> (r: (
    Vec<Option<i64>>,
    Vec<Option<i64>>,
))
    requires
        high@.len() == low@.len(),
    ensures
        r.0@.len() == high@.len(),
        r.1@.len() == high@.len(),
        forall|i: int|
            0 <= i < high@.len() ==> #[trigger] r.0@[i] == if is_swing_high_at(
                high@,
                pivot_legs as int,
                i,
            ) {
                Some(high@[i])
            } else {
                None
            },
        forall|i: int|
            0 <= i < high@.len() ==> #[trigger] r.1@[i] == if is_swing_low_at(
                low@,
                pivot_legs as int,
                i,
            ) {
                Some(low@[i])
            } else {
                None
            },
{
    let len = high.len();
    let legs = pivot_legs;
    let mut highs: Vec<Option<i64>> = Vec::new();
    let mut lows: Vec<Option<i64>> = Vec::new();
    let mut i: usize = 0;
    while i < len
        invariant
            len == high@.len(),
            len == low@.len(),
            legs == pivot_legs,
            i <= len,
            highs@.len() == i,
            lows@.len() == i,
            forall|k: int|
                0 <= k < i ==> #[trigger] highs@[k] == if is_swing_high_at(high@, legs as int, k) {
                    Some(high@[k])
                } else {
                    None
                },
            forall|k: int|
                0 <= k < i ==> #[trigger] lows@[k] == if is_swing_low_at(low@, legs as int, k) {
                    Some(low@[k])
                } else {
                    None
                },
        decreases len - i,
    {
        if i >= legs && legs < len - i {
            let lo = i - legs;
            let hi = i + legs;
            let mut is_high = true;
            let mut is_low = true;
            let mut j = lo;
            while j <= hi
                invariant
                    lo == i - legs,
                    hi == i + legs,
                    hi < len,
                    len == high@.len(),
                    len == low@.len(),
                    lo <= j <= hi + 1,
                    is_high == forall|m: int|
                        lo <= m < j && m != i ==> #[trigger] high@[m] < high@[i as int],
                    is_low == forall|m: int|
                        lo <= m < j && m != i ==> #[trigger] low@[m] > low@[i as int],
                decreases hi + 1 - j,
            {
                if j != i {
                    if high[j] >= high[i] {
                        is_high = false;
                    }
                    if low[j] <= low[i] {
                        is_low = false;
                    }
                }
                j += 1;
            }
            highs.push(
                if is_high {
                    Some(high[i])
                } else {
                    None
                },
            );
            lows.push(
                if is_low {
                    Some(low[i])
                } else {
                    None
                },
            );
        } else {
            highs.push(None);
            lows.push(None);
        }
        i += 1;
    }
    (highs, lows)
}

pub open spec fn is_bullish_fvg_at(s: Seq<Ohlc>, i: int) -> bool {
    2 <= i < s.len() && s[i].low > s[i - 2].high && is_bullish(s[i])
}

pub open spec fn is_bearish_fvg_at(s: Seq<Ohlc>, i: int) -> bool {
    2 <= i < s.len() && s[i].high < s[i - 2].low && is_bearish(s[i])
}

pub open spec fn bullish_fvg_zone(s: Seq<Ohlc>, i: int) -> FvgZone {
    FvgZone {
        zone_type: ZoneType::Bullish,
        top: s[i].low,
        bottom: s[i - 2].high,
        index: i as usize,
        gap_size: (s[i].low - s[i - 2].high) as i64,
    }
}

pub open spec fn bearish_fvg_zone(s: Seq<Ohlc>, i: int) -> FvgZone {
    FvgZone {
        zone_type: ZoneType::Bearish,
        top: s[i - 2].low,
        bottom: s[i].high,
        index: i as usize,
        gap_size: (s[i - 2].low - s[i].high) as i64,
    }
}

/// The gaps anchored at candle `i`: the bullish one first, then the bearish one.
pub open spec fn fvg_zones_at(s: Seq<Ohlc>, i: int) -> Seq<FvgZone> {
    (if is_bullish_fvg_at(s, i) {
        seq![bullish_fvg_zone(s, i)]
    } else {
        Seq::empty()
    }) + (if is_bearish_fvg_at(s, i) {
        seq![bearish_fvg_zone(s, i)]
    } else {
        Seq::empty()
    })
}

/// All gaps anchored before candle `n`, in candle order.
pub open spec fn fvg_zones_before(s: Seq<Ohlc>, n: int) -> Seq<FvgZone>
    decreases n,
{
    if n <= 0 {
        Seq::empty()
    } else {
        fvg_zones_before(s, n - 1) + fvg_zones_at(s, n - 1)
    }
}

/// Every price of the candle lies within `MAX_PRICE` ticks of zero.
pub open spec fn candle_in_range(c: Ohlc) -> bool {
    &&& -crate::MAX_PRICE <= c.open <= crate::MAX_PRICE
    &&& -crate::MAX_PRICE <= c.high <= crate::MAX_PRICE
    &&& -crate::MAX_PRICE <= c.low <= crate::MAX_PRICE
    &&& -crate::MAX_PRICE <= c.close <= crate::MAX_PRICE
}

pub open spec fn prices_in_range(s: Seq<Ohlc>) -> bool {
    forall|i: int| 0 <= i < s.len() ==> candle_in_range(#[trigger] s[i])
}

/// Lists the fair value gaps of a candle series in candle order.
pub fn detect_fvg_zones(ohlc: &[Ohlc]) -> (r: Vec<FvgZone>)
    requires
        prices_in_range(ohlc@),
    ensures
        r@ == fvg_zones_before(ohlc@, ohlc@.len() as int),
{
    let len = ohlc.len();
    let mut zones: Vec<FvgZone> = Vec::new();
    let mut i: usize = 0;
    while i < len
        invariant
            len == ohlc@.len(),
            prices_in_range(ohlc@),
            i <= len,
            zones@ == fvg_zones_before(ohlc@, i as int),
        decreases len - i,
    {
        let ghost before = zones@;
        if i >= 2 {
            let c = ohlc[i];
            let p = ohlc[i - 2];
            assert(c == ohlc@[i as int] && p == ohlc@[i - 2]);
            if c.low > p.high && c.close > c.open {
                zones.push(
                    FvgZone {
                        zone_type: ZoneType::Bullish,
                        top: c.low,
                        bottom: p.high,
                        index: i,
                        gap_size: c.low - p.high,
                    },
                );
            }
            if c.high < p.low && c.close < c.open {
                zones.push(
                    FvgZone {
                        zone_type: ZoneType::Bearish,
                        top: p.low,
                        bottom: c.high,
                        index: i,
                        gap_size: p.low - c.high,
                    },
                );
            }
        }
        assert(zones@ =~= before + fvg_zones_at(ohlc@, i as int));
        i += 1;
    }
    zones
}

pub open spec fn is_bullish_ob_at(s: Seq<Ohlc>, i: int) -> bool {
    1 <= i < s.len() && is_bearish(s[i - 1]) && is_bullish(s[i]) && s[i].close > s[i - 1].open
}

pub open spec fn is_bearish_ob_at(s: Seq<Ohlc>, i: int) -> bool {
    1 <= i < s.len() && is_bullish(s[i - 1]) && is_bearish(s[i]) && s[i].close < s[i - 1].open
}

/// The order blocks confirmed by candle `i`, anchored at candle `i - 1`.
pub open spec fn ob_zones_at(s: Seq<Ohlc>, i: int) -> Seq<OrderBlockZone> {
    (if is_bullish_ob_at(s, i) {
        seq![
            OrderBlockZone {
                zone_type: ZoneType::Bullish,
                top: s[i - 1].open,
                bottom: s[i - 1].close,
                index: (i - 1) as usize,
            },
        ]
    } else {
        Seq::empty()
    }) + (if is_bearish_ob_at(s, i) {
        seq![
            OrderBlockZone {
                zone_type: ZoneType::Bearish,
                top: s[i - 1].close,
                bottom: s[i - 1].open,
                index: (i - 1) as usize,
            },
        ]
    } else {
        Seq::empty()
    })
}

pub open spec fn ob_zones_before(s: Seq<Ohlc>, n: int) -> Seq<OrderBlockZone>
    decreases n,
{
    if n <= 0 {
        Seq::empty()
    } else {
        ob_zones_before(s, n - 1) + ob_zones_at(s, n - 1)
    }
}

/// Lists the order blocks of a candle series in the order of the candles
/// that confirm them.
pub fn detect_order_block_zones(ohlc: &[Ohlc]) -> (r: Vec<OrderBlockZone>)
    ensures
        r@ == ob_zones_before(ohlc@, ohlc@.len() as int),
{
    let len = ohlc.len();
    let mut zones: Vec<OrderBlockZone> = Vec::new();
    let mut i: usize = 0;
    while i < len
        invariant
            len == ohlc@.len(),
            i <= len,
            zones@ == ob_zones_before(ohlc@, i as int),
        decreases len - i,
    {
        let ghost before = zones@;
        if i >= 1 {
            let c = ohlc[i];
            let p = ohlc[i - 1];
            if p.open > p.close && c.close > c.open && c.close > p.open {
                zones.push(
                    OrderBlockZone {
                        zone_type: ZoneType::Bullish,
                        top: p.open,
                        bottom: p.close,
                        index: i - 1,
                    },
                );
            }
            if p.close > p.open && c.open > c.close && c.close < p.open {
                zones.push(
                    OrderBlockZone {
                        zone_type: ZoneType::Bearish,
                        top: p.close,
                        bottom: p.open,
                        index: i - 1,
                    },
                );
            }
        }
        assert(zones@ =~= before + ob_zones_at(ohlc@, i as int));
        i += 1;
    }
    zones
}

/// Some zone of `z` has direction `t` and anchor `i`.
pub open spec fn fvg_marks(z: Seq<FvgZone>, t: ZoneType, i: int) -> bool
    decreases z.len(),
{
    z.len() > 0 && (fvg_marks(z.drop_last(), t, i) || (z.last().zone_type == t
        && z.last().index == i))
}

pub open spec fn ob_marks(z: Seq<OrderBlockZone>, t: ZoneType, i: int) -> bool
    decreases z.len(),
{
    z.len() > 0 && (ob_marks(z.drop_last(), t, i) || (z.last().zone_type == t && z.last().index
        == i))
}

proof fn lemma_fvg_marks_concat(a: Seq<FvgZone>, b: Seq<FvgZone>, t: ZoneType, i: int)
    ensures
        fvg_marks(a + b, t, i) == (fvg_marks(a, t, i) || fvg_marks(b, t, i)),
    decreases b.len(),
{
    if b.len() == 0 {
        assert(a + b =~= a);
    } else {
        assert((a + b).drop_last() =~= a + b.drop_last());
        lemma_fvg_marks_concat(a, b.drop_last(), t, i);
    }
}

proof fn lemma_ob_marks_concat(a: Seq<OrderBlockZone>, b: Seq<OrderBlockZone>, t: ZoneType, i: int)
    ensures
        ob_marks(a + b, t, i) == (ob_marks(a, t, i) || ob_marks(b, t, i)),
    decreases b.len(),
{
    if b.len() == 0 {
        assert(a + b =~= a);
    } else {
        assert((a + b).drop_last() =~= a + b.drop_last());
        lemma_ob_marks_concat(a, b.drop_last(), t, i);
    }
}

proof fn lemma_fvg_zones_marks(s: Seq<Ohlc>, n: int, i: int)
    requires
        0 <= n <= s.len() <= usize::MAX,
        0 <= i,
    ensures
        fvg_marks(fvg_zones_before(s, n), ZoneType::Bullish, i) == (i < n && is_bullish_fvg_at(
            s,
            i,
        )),
        fvg_marks(fvg_zones_before(s, n), ZoneType::Bearish, i) == (i < n && is_bearish_fvg_at(
            s,
            i,
        )),
        forall|k: int|
            0 <= k < fvg_zones_before(s, n).len() ==> #[trigger] fvg_zones_before(s, n)[k].index
                < n,
    decreases n,
{
    reveal_with_fuel(fvg_marks, 3);
    if n > 0 {
        let a = fvg_zones_before(s, n - 1);
        let b = fvg_zones_at(s, n - 1);
        lemma_fvg_zones_marks(s, n - 1, i);
        lemma_fvg_marks_concat(a, b, ZoneType::Bullish, i);
        lemma_fvg_marks_concat(a, b, ZoneType::Bearish, i);
        let e: Seq<FvgZone> = Seq::empty();
        if is_bullish_fvg_at(s, n - 1) {
            let x = bullish_fvg_zone(s, n - 1);
            if is_bearish_fvg_at(s, n - 1) {
                assert(b.drop_last() =~= seq![x]);
                assert(seq![x].drop_last() =~= e);
            } else {
                assert(b.drop_last() =~= e);
            }
        } else if is_bearish_fvg_at(s, n - 1) {
            assert(b.drop_last() =~= e);
        }
        assert forall|k: int| 0 <= k < (a + b).len() implies #[trigger] (a + b)[k].index < n by {
            if k >= a.len() {
                assert(b[k - a.len()].index == n - 1);
            }
        }
    }
}

proof fn lemma_ob_zones_marks(s: Seq<Ohlc>, n: int, i: int)
    requires
        0 <= n <= s.len() <= usize::MAX,
        0 <= i,
    ensures
        ob_marks(ob_zones_before(s, n), ZoneType::Bullish, i) == (i + 1 < n && is_bullish_ob_at(
            s,
            i + 1,
        )),
        ob_marks(ob_zones_before(s, n), ZoneType::Bearish, i) == (i + 1 < n && is_bearish_ob_at(
            s,
            i + 1,
        )),
        forall|k: int|
            0 <= k < ob_zones_before(s, n).len() ==> #[trigger] ob_zones_before(s, n)[k].index
                < n,
    decreases n,
{
    reveal_with_fuel(ob_marks, 3);
    if n > 0 {
        let a = ob_zones_before(s, n - 1);
        let b = ob_zones_at(s, n - 1);
        lemma_ob_zones_marks(s, n - 1, i);
        lemma_ob_marks_concat(a, b, ZoneType::Bullish, i);
        lemma_ob_marks_concat(a, b, ZoneType::Bearish, i);
        let e: Seq<OrderBlockZone> = Seq::empty();
        if is_bullish_ob_at(s, n - 1) {
            if is_bearish_ob_at(s, n - 1) {
                assert(b.drop_last() =~= seq![b[0]]);
                assert(seq![b[0]].drop_last() =~= e);
            } else {
                assert(b.drop_last() =~= e);
            }
        } else if is_bearish_ob_at(s, n - 1) {
            assert(b.drop_last() =~= e);
        }
        assert forall|k: int| 0 <= k < (a + b).len() implies #[trigger] (a + b)[k].index < n by {
            if k >= a.len() {
                assert(b[k - a.len()].index == n - 2);
            }
        }
    }
}

/// Projects the fair value gaps onto flags: a flag is set at each gap's anchor.
pub fn detect_fvg(ohlc: &[Ohlc]) -> (r: (Vec<bool>, Vec<bool>))
    requires
        prices_in_range(ohlc@),
    ensures
        r.0@.len() == ohlc@.len(),
        r.1@.len() == ohlc@.len(),
        forall|i: int| 0 <= i < ohlc@.len() ==> #[trigger] r.0@[i] == is_bullish_fvg_at(ohlc@, i),
        forall|i: int| 0 <= i < ohlc@.len() ==> #[trigger] r.1@[i] == is_bearish_fvg_at(ohlc@, i),
{
    let zones = detect_fvg_zones(ohlc);
    let len = ohlc.len();
    let mut bullish: Vec<bool> = vec![false; len];
    let mut bearish: Vec<bool> = vec![false; len];
    proof {
        assert forall|k: int| 0 <= k < zones@.len() implies #[trigger] zones@[k].index < len by {
            lemma_fvg_zones_marks(ohlc@, len as int, 0);
        }
    }
    let ghost all = zones@;
    let mut m: usize = 0;
    assert(all.take(0) =~= Seq::empty());
    while m < zones.len()
        invariant
            zones@ == all,
            all == fvg_zones_before(ohlc@, len as int),
            len == ohlc@.len(),
            m <= all.len(),
            bullish@.len() == len,
            bearish@.len() == len,
            forall|k: int| 0 <= k < all.len() ==> #[trigger] all[k].index < len,
            forall|i: int|
                0 <= i < len ==> #[trigger] bullish@[i] == fvg_marks(
                    all.take(m as int),
                    ZoneType::Bullish,
                    i,
                ),
            forall|i: int|
                0 <= i < len ==> #[trigger] bearish@[i] == fvg_marks(
                    all.take(m as int),
                    ZoneType::Bearish,
                    i,
                ),
        decreases all.len() - m,
    {
        let z = zones[m];
        assert(all.take(m + 1).drop_last() =~= all.take(m as int));
        if z.zone_type == ZoneType::Bullish {
            bullish.set(z.index, true);
        } else {
            bearish.set(z.index, true);
        }
        m += 1;
    }
    proof {
        assert(all.take(all.len() as int) =~= all);
        assert forall|i: int| 0 <= i < len implies #[trigger] bullish@[i] == is_bullish_fvg_at(ohlc@, i) by {
            lemma_fvg_zones_marks(ohlc@, len as int, i);
        }
        assert forall|i: int| 0 <= i < len implies #[trigger] bearish@[i] == is_bearish_fvg_at(ohlc@, i) by {
            lemma_fvg_zones_marks(ohlc@, len as int, i);
        }
    }
    (bullish, bearish)
}

/// Projects the order blocks onto flags: a flag is set at each block's anchor
/// candle, so the flag at `i` tells whether candle `i + 1` confirms a block.
pub fn detect_order_blocks(ohlc: &[Ohlc]) -> (r: (Vec<bool>, Vec<bool>))
    ensures
        r.0@.len() == ohlc@.len(),
        r.1@.len() == ohlc@.len(),
        forall|i: int| 0 <= i < ohlc@.len() ==> #[trigger] r.0@[i] == is_bullish_ob_at(ohlc@, i + 1),
        forall|i: int| 0 <= i < ohlc@.len() ==> #[trigger] r.1@[i] == is_bearish_ob_at(ohlc@, i + 1),
{
    let zones = detect_order_block_zones(ohlc);
    let len = ohlc.len();
    let mut bullish: Vec<bool> = vec![false; len];
    let mut bearish: Vec<bool> = vec![false; len];
    proof {
        assert forall|k: int| 0 <= k < zones@.len() implies #[trigger] zones@[k].index < len by {
            lemma_ob_zones_marks(ohlc@, len as int, 0);
        }
    }
    let ghost all = zones@;
    let mut m: usize = 0;
    assert(all.take(0) =~= Seq::empty());
    while m < zones.len()
        invariant
            zones@ == all,
            all == ob_zones_before(ohlc@, len as int),
            len == ohlc@.len(),
            m <= all.len(),
            bullish@.len() == len,
            bearish@.len() == len,
            forall|k: int| 0 <= k < all.len() ==> #[trigger] all[k].index < len,
            forall|i: int|
                0 <= i < len ==> #[trigger] bullish@[i] == ob_marks(
                    all.take(m as int),
                    ZoneType::Bullish,
                    i,
                ),
            forall|i: int|
                0 <= i < len ==> #[trigger] bearish@[i] == ob_marks(
                    all.take(m as int),
                    ZoneType::Bearish,
                    i,
                ),
        decreases all.len() - m,
    {
        let z = zones[m];
        assert(all.take(m + 1).drop_last() =~= all.take(m as int));
        if z.zone_type == ZoneType::Bullish {
            bullish.set(z.index, true);
        } else {
            bearish.set(z.index, true);
        }
        m += 1;
    }
    proof {
        assert(all.take(all.len() as int) =~= all);
        assert forall|i: int| 0 <= i < len implies #[trigger] bullish@[i] == is_bullish_ob_at(ohlc@, i + 1) by {
            lemma_ob_zones_marks(ohlc@, len as int, i);
        }
        assert forall|i: int| 0 <= i < len implies #[trigger] bearish@[i] == is_bearish_ob_at(ohlc@, i + 1) by {
            lemma_ob_zones_marks(ohlc@, len as int, i);
        }
    }
    (bullish, bearish)
}

/// The least of `s[a..b]`, for `a < b`.
pub open spec fn window_min(s: Seq<i64>, a: int, b: int) -> int
    decreases b - a,
{
    if b <= a + 1 {
        s[a] as int
    } else {
        crate::candle::min_int(window_min(s, a, b - 1), s[b - 1] as int)
    }
}

/// The greatest of `s[a..b]`, for `a < b`.
pub open spec fn window_max(s: Seq<i64>, a: int, b: int) -> int
    decreases b - a,
{
    if b <= a + 1 {
        s[a] as int
    } else {
        crate::candle::max_int(window_max(s, a, b - 1), s[b - 1] as int)
    }
}

/// Candle `i` breaks below the lowest low of the `lookback` candles before it
/// and closes back above it.
pub open spec fn is_bullish_sweep_at(
    low: Seq<i64>,
    close: Seq<i64>,
    lookback: int,
    i: int,
) -> bool {
    0 < lookback <= i < low.len() && low[i] < window_min(low, i - lookback, i) && close[i]
        > window_min(low, i - lookback, i)
}

/// Candle `i` breaks above the highest high of the `lookback` candles before
/// it and closes back below it.
pub open spec fn is_bearish_sweep_at(
    high: Seq<i64>,
    close: Seq<i64>,
    lookback: int,
    i: int,
) -> bool {
    0 < lookback <= i < high.len() && high[i] > window_max(high, i - lookback, i) && close[i]
        < window_max(high, i - lookback, i)
}

/// Flags the candles that sweep the liquidity resting beyond the extreme of
/// the `lookback` candles before them.
pub fn detect_liquidity_sweep(high: &[i64], low: &[i64], close: &[i64], lookback: usize) -> (r: (
    Vec<bool>,
    Vec<bool>,
))
    requires
        low@.len() == high@.len(),
        close@.len() == high@.len(),
    ensures
        r.0@.len() == high@.len(),
        r.1@.len() == high@.len(),
        forall|i: int|
            0 <= i < high@.len() ==> #[trigger] r.0@[i] == is_bullish_sweep_at(
                low@,
                close@,
                lookback as int,
                i,
            ),
        forall|i: int|
            0 <= i < high@.len() ==> #[trigger] r.1@[i] == is_bearish_sweep_at(
                high@,
                close@,
                lookback as int,
                i,
            ),
{
    let len = high.len();
    let mut bullish: Vec<bool> = Vec::new();
    let mut bearish: Vec<bool> = Vec::new();
    let mut i: usize = 0;
    while i < len
        invariant
            len == high@.len(),
            len == low@.len(),
            len == close@.len(),
            i <= len,
            bullish@.len() == i,
            bearish@.len() == i,
            forall|k: int|
                0 <= k < i ==> #[trigger] bullish@[k] == is_bullish_sweep_at(
                    low@,
                    close@,
                    lookback as int,
                    k,
                ),
            forall|k: int|
                0 <= k < i ==> #[trigger] bearish@[k] == is_bearish_sweep_at(
                    high@,
                    close@,
                    lookback as int,
                    k,
                ),
        decreases len - i,
    {
        if lookback > 0 && i >= lookback {
            let start = i - lookback;
            let mut lowest = low[start];
            let mut highest = high[start];
            let mut j = start + 1;
            while j < i
                invariant
                    start < j <= i,
                    i < len,
                    len == high@.len(),
                    len == low@.len(),
                    lowest == window_min(low@, start as int, j as int),
                    highest == window_max(high@, start as int, j as int),
                decreases i - j,
            {
                if low[j] < lowest {
                    lowest = low[j];
                }
                if high[j] > highest {
                    highest = high[j];
                }
                j += 1;
            }
            bullish.push(low[i] < lowest && close[i] > lowest);
            bearish.push(high[i] > highest && close[i] < highest);
        } else {
            bullish.push(false);
            bearish.push(false);
        }
        i += 1;
    }
    (bullish, bearish)
}

} // verus!
