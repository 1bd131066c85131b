//! EMA, RSI and ATR over fixed-point price series, with Wilder's smoothing
//! done in exact integer arithmetic rounded down.
use vstd::prelude::*;
use vstd::arithmetic::div_mod::{
    lemma_div_is_ordered,
    lemma_div_multiples_vanish,
    lemma_div_pos_is_pos,
    lemma_fundamental_div_mod,
    lemma_fundamental_div_mod_converse,
};
use crate::candle::{abs_int, max_int};
use crate::{MAX_PRICE, PRICE_SCALE};

verus! {

pub open spec fn series_in_range(s: Seq<i64>) -> bool {
    forall|k: int| 0 <= k < s.len() ==> -MAX_PRICE <= #[trigger] s[k] <= MAX_PRICE
}

/// `s[0] + ... + s[n - 1]`.
pub open spec fn prefix_sum(s: Seq<int>, n: int) -> int
    decreases n,
{
    if n <= 0 {
        0
    } else {
        prefix_sum(s, n - 1) + s[n - 1]
    }
}

pub open spec fn as_ints(s: Seq<i64>) -> Seq<int> {
    Seq::new(s.len(), |k: int| s[k] as int)
}

/// EMA at index `i`: zero before `period - 1`, the mean of the first `period`
/// prices at `period - 1`, then `ema + (price - ema) * 2 / (period + 1)`
/// rounded down.
pub open spec fn ema_at(s: Seq<i64>, period: int, i: int) -> int
    decreases i,
{
    if period <= 0 || i < period - 1 || i >= s.len() {
        0
    } else if i == period - 1 {
        prefix_sum(as_ints(s), period) / period
    } else {
        let e = ema_at(s, period, i - 1);
        e + (2 * (s[i] - e)) / (period + 1)
    }
}

/// Upward move into index `i`, zero at index 0.
pub open spec fn gains(s: Seq<i64>) -> Seq<int> {
    Seq::new(s.len(), |i: int| if i == 0 { 0 } else { max_int(s[i] - s[i - 1], 0) })
}

/// Downward move into index `i`, as a magnitude; zero at index 0.
pub open spec fn losses(s: Seq<i64>) -> Seq<int> {
    Seq::new(s.len(), |i: int| if i == 0 { 0 } else { max_int(s[i - 1] - s[i], 0) })
}

/// One step of Wilder's smoothing: `avg * (1 - 1/p) + v / p`, rounded down.
pub open spec fn smooth(avg: int, v: int, p: int) -> int {
    (avg * (p - 1) + v) / p
}

/// Average of `v` as the RSI keeps it at index `i >= p`: the mean of
/// `v[1..=p]`, smoothed with every value from index `p` on.
pub open spec fn rsi_average(v: Seq<int>, p: int, i: int) -> int
    decreases i,
{
    if p <= 0 || i < p {
        0
    } else if i == p {
        smooth(prefix_sum(v, p + 1) / p, v[i], p)
    } else {
        smooth(rsi_average(v, p, i - 1), v[i], p)
    }
}

/// RSI at index `i`, in ticks (100 is `100 * PRICE_SCALE`); zero before `period`.
pub open spec fn rsi_at(s: Seq<i64>, period: int, i: int) -> int {
    if period <= 0 || i < period || i >= s.len() {
        0
    } else {
        let g = rsi_average(gains(s), period, i);
        let l = rsi_average(losses(s), period, i);
        if l == 0 {
            100 * PRICE_SCALE
        } else {
            (100 * PRICE_SCALE * g) / (g + l)
        }
    }
}

/// True range into index `i`; zero at index 0.
pub open spec fn true_ranges(high: Seq<i64>, low: Seq<i64>, close: Seq<i64>) -> Seq<int> {
    Seq::new(
        high.len(),
        |i: int|
            if i == 0 {
                0
            } else {
                max_int(
                    max_int(high[i] - low[i], abs_int(high[i] - close[i - 1])),
                    abs_int(low[i] - close[i - 1]),
                )
            },
    )
}

/// Wilder's average of `v`: the mean of `v[1..=p]` at index `p`, smoothed
/// from there on; zero before `p`.
pub open spec fn wilder_average(v: Seq<int>, p: int, i: int) -> int
    decreases i,
{
    if p <= 0 || i < p {
        0
    } else if i == p {
        prefix_sum(v, p + 1) / p
    } else {
        smooth(wilder_average(v, p, i - 1), v[i], p)
    }
}

pub open spec fn atr_at(high: Seq<i64>, low: Seq<i64>, close: Seq<i64>, period: int, i: int) -> int {
    if i >= high.len() {
        0
    } else {
        wilder_average(true_ranges(high, low, close), period, i)
    }
}

proof fn lemma_mean_bound(sum: int, p: int, b: int)
    requires
        p >= 1,
        b >= 0,
        -(p * b) <= sum <= p * b,
    ensures
        -b <= sum / p <= b,
{
    lemma_div_multiples_vanish(b, p);
    lemma_div_multiples_vanish(-b, p);
    assert(p * -b == -(p * b)) by (nonlinear_arith);
    assert(b * p == p * b) by (nonlinear_arith);
    assert(-b * p == -(p * b)) by (nonlinear_arith);
    lemma_div_is_ordered(sum, p * b, p);
    lemma_div_is_ordered(-(p * b), sum, p);
}

proof fn lemma_smooth_bound(avg: int, v: int, p: int, b: int)
    requires
        p >= 1,
        0 <= avg <= b,
        0 <= v <= b,
    ensures
        0 <= avg * (p - 1) + v <= p * b,
        0 <= smooth(avg, v, p) <= b,
{
    assert(0 <= avg * (p - 1) <= b * (p - 1)) by (nonlinear_arith)
        requires
            p >= 1,
            0 <= avg <= b,
    ;
    assert(b * (p - 1) + b == p * b) by (nonlinear_arith);
    lemma_mean_bound(avg * (p - 1) + v, p, b);
    lemma_div_pos_is_pos(avg * (p - 1) + v, p);
}

/// An EMA step lands between the previous value and the new price.
proof fn lemma_ema_step(e: int, x: int, p: int)
    requires
        p >= 1,
    ensures
        e <= x ==> e <= e + (2 * (x - e)) / (p + 1) <= x,
        x <= e ==> x <= e + (2 * (x - e)) / (p + 1) <= e,
{
    let d = x - e;
    let q = p + 1;
    lemma_div_multiples_vanish(d, q);
    assert(d * q == q * d) by (nonlinear_arith);
    if d >= 0 {
        assert(2 * d <= q * d) by (nonlinear_arith)
            requires
                d >= 0,
                q >= 2,
        ;
        lemma_div_is_ordered(2 * d, q * d, q);
        lemma_div_pos_is_pos(2 * d, q);
    } else {
        assert(q * d <= 2 * d) by (nonlinear_arith)
            requires
                d < 0,
                q >= 2,
        ;
        lemma_div_is_ordered(q * d, 2 * d, q);
        lemma_div_is_ordered(2 * d, 0, q);
    }
}

/// `a / b` rounded down, for any sign of `a`.
fn floor_div(a: i128, b: i128) -> (r: i128)
    requires
        0 < b <= 0x1000_0000_0000_0000_0000_0000_0000_0000,
        -0x1000_0000_0000_0000_0000_0000_0000_0000 <= a <= 0x1000_0000_0000_0000_0000_0000_0000_0000,
    ensures
        r == a / b,
{
    if a >= 0 {
        let q = (a as u128) / (b as u128);
        assert(q <= a) by (nonlinear_arith)
            requires
                q == (a as u128) / (b as u128),
                a >= 0,
                b > 0,
        ;
        q as i128
    } else {
        let n = (b - 1 - a) as u128;
        let q = n / (b as u128);
        assert(q <= n) by (nonlinear_arith)
            requires
                q == n / (b as u128),
                b > 0,
        ;
        proof {
            let fq = a / b;
            let fm = a % b;
            lemma_fundamental_div_mod(a as int, b as int);
            assert(b * fq == fq * b) by (nonlinear_arith);
            assert(n == (-fq) * b + (b - 1 - fm)) by (nonlinear_arith)
                requires
                    a == b * fq + fm,
                    n == b - 1 - a,
            ;
            lemma_fundamental_div_mod_converse(n as int, b as int, -fq, b - 1 - fm);
        }
        -(q as i128)
    }
}

/// Exponential moving average with smoothing factor `2 / (period + 1)`,
/// seeded with the mean of the first `period` prices; all zero when the
/// series is shorter than `period`.
pub fn calculate_ema(prices: &[i64], period: usize) -> (r: Vec<i64>)
    requires
        period >= 1,
        series_in_range(prices@),
    ensures
        r@.len() == prices@.len(),
        forall|i: int| 0 <= i < prices@.len() ==> #[trigger] r@[i] == ema_at(prices@, period as int, i),
{
    let len = prices.len();
    let ghost s = prices@;
    let ghost p = period as int;
    let mut out: Vec<i64> = Vec::new();
    if len < period {
        while out.len() < len
            invariant
                out@.len() <= len,
                len == s.len(),
                len < p,
                forall|k: int| 0 <= k < out@.len() ==> #[trigger] out@[k] == ema_at(s, p, k),
            decreases len - out@.len(),
        {
            out.push(0);
        }
        return out;
    }
    let mut sum: i128 = 0;
    let mut i: usize = 0;
    while i < period
        invariant
            prices@ == s,
            len == s.len(),
            p == period,
            1 <= period <= len,
            series_in_range(s),
            i <= period,
            out@.len() == i,
            sum == prefix_sum(as_ints(s), i as int),
            -(i * MAX_PRICE) <= sum <= i * MAX_PRICE,
            forall|k: int| 0 <= k < i ==> #[trigger] out@[k] == ema_at(s, p, k) || k == p - 1,
            forall|k: int| 0 <= k < i && k < p - 1 ==> #[trigger] out@[k] == 0,
        decreases period - i,
    {
        assert(as_ints(s)[i as int] == s[i as int]);
        sum = sum + prices[i] as i128;
        out.push(0);
        i += 1;
    }
    proof {
        lemma_mean_bound(sum as int, p, MAX_PRICE as int);
        assert(period * MAX_PRICE == p * MAX_PRICE);
    }
    let mut ema: i128 = floor_div(sum, period as i128);
    out.set(period - 1, ema as i64);
    let mut i: usize = period;
    while i < len
        invariant
            prices@ == s,
            len == s.len(),
            p == period,
            1 <= period <= i <= len,
            series_in_range(s),
            out@.len() == i,
            ema == ema_at(s, p, i - 1),
            -MAX_PRICE <= ema <= MAX_PRICE,
            forall|k: int| 0 <= k < i ==> #[trigger] out@[k] == ema_at(s, p, k),
        decreases len - i,
    {
        let x = prices[i] as i128;
        proof {
            lemma_ema_step(ema as int, x as int, p);
        }
        ema = ema + floor_div(2 * (x - ema), period as i128 + 1);
        out.push(ema as i64);
        i += 1;
    }
    out
}

proof fn lemma_rsi_bound(g: int, l: int)
    requires
        g >= 0,
        l > 0,
    ensures
        0 <= (100 * PRICE_SCALE * g) / (g + l) <= 100 * PRICE_SCALE,
{
    let c = 100 * PRICE_SCALE;
    assert(c * g <= (g + l) * c) by (nonlinear_arith)
        requires
            g >= 0,
            l > 0,
            c > 0,
    ;
    lemma_mean_bound(c * g, g + l, c as int);
    lemma_div_pos_is_pos(c * g, g + l);
}

fn zeros(len: usize) -> (r: Vec<i64>)
    ensures
        r@.len() == len,
        forall|k: int| 0 <= k < len ==> #[trigger] r@[k] == 0,
{
    let mut out: Vec<i64> = Vec::new();
    while out.len() < len
        invariant
            out@.len() <= len,
            forall|k: int| 0 <= k < out@.len() ==> #[trigger] out@[k] == 0,
        decreases len - out@.len(),
    {
        out.push(0);
    }
    out
}

/// The gain and the loss into index `i`.
fn change_at(prices: &[i64], i: usize) -> (r: (i128, i128))
    requires
        1 <= i < prices@.len(),
        series_in_range(prices@),
    ensures
        r.0 == gains(prices@)[i as int],
        r.1 == losses(prices@)[i as int],
        0 <= r.0 <= 2 * MAX_PRICE,
        0 <= r.1 <= 2 * MAX_PRICE,
{
    assert(-MAX_PRICE <= prices@[i as int] <= MAX_PRICE);
    assert(-MAX_PRICE <= prices@[i - 1] <= MAX_PRICE);
    let d = prices[i] as i128 - prices[i - 1] as i128;
    if d > 0 {
        (d, 0)
    } else {
        (0, -d)
    }
}

/// Relative strength index with Wilder's smoothing, in ticks: 100 is
/// `100 * PRICE_SCALE`, and it is 100 exactly when the average loss is zero.
/// All zero when the series has no more than `period` prices.
pub fn calculate_rsi(prices: &[i64], period: usize) -> (r: Vec<i64>)
    requires
        period >= 1,
        series_in_range(prices@),
    ensures
        r@.len() == prices@.len(),
        forall|i: int| 0 <= i < prices@.len() ==> #[trigger] r@[i] == rsi_at(prices@, period as int, i),
        forall|i: int| 0 <= i < prices@.len() ==> 0 <= #[trigger] r@[i] <= 100 * PRICE_SCALE,
{
    let len = prices.len();
    let ghost s = prices@;
    let ghost p = period as int;
    if len <= period {
        return zeros(len);
    }
    let mut out: Vec<i64> = zeros(period);
    let mut gain_sum: i128 = 0;
    let mut loss_sum: i128 = 0;
    let mut k: usize = 1;
    assert(prefix_sum(gains(s), 1) == 0 && prefix_sum(losses(s), 1) == 0) by {
        assert(prefix_sum(gains(s), 0) == 0);
        assert(prefix_sum(losses(s), 0) == 0);
    }
    while k <= period
        invariant
            prices@ == s,
            len == s.len(),
            p == period,
            1 <= period < len,
            series_in_range(s),
            1 <= k <= period + 1,
            gain_sum == prefix_sum(gains(s), k as int),
            loss_sum == prefix_sum(losses(s), k as int),
            0 <= gain_sum <= (k - 1) * 200_000_000_000_000_000,
            0 <= loss_sum <= (k - 1) * 200_000_000_000_000_000,
        decreases period + 1 - k,
    {
        let (g, l) = change_at(prices, k);
        gain_sum = gain_sum + g;
        loss_sum = loss_sum + l;
        k += 1;
    }
    proof {
        lemma_mean_bound(gain_sum as int, p, 2 * MAX_PRICE);
        lemma_mean_bound(loss_sum as int, p, 2 * MAX_PRICE);
        assert((period as int) * 200_000_000_000_000_000 == p * (2 * MAX_PRICE));
    }
    let mut avg_gain: i128 = floor_div(gain_sum, period as i128);
    let mut avg_loss: i128 = floor_div(loss_sum, period as i128);
    let mut i: usize = period;
    while i < len
        invariant
            prices@ == s,
            len == s.len(),
            p == period,
            1 <= period <= i <= len,
            series_in_range(s),
            out@.len() == i,
            i == period ==> avg_gain == prefix_sum(gains(s), p + 1) / p,
            i == period ==> avg_loss == prefix_sum(losses(s), p + 1) / p,
            i > period ==> avg_gain == rsi_average(gains(s), p, i - 1),
            i > period ==> avg_loss == rsi_average(losses(s), p, i - 1),
            0 <= avg_gain <= 2 * MAX_PRICE,
            0 <= avg_loss <= 2 * MAX_PRICE,
            forall|k: int| 0 <= k < i ==> #[trigger] out@[k] == rsi_at(s, p, k),
            forall|k: int| 0 <= k < i ==> 0 <= #[trigger] out@[k] <= 100 * PRICE_SCALE,
        decreases len - i,
    {
        let (g, l) = change_at(prices, i);
        let w = period as i128 - 1;
        proof {
            lemma_smooth_bound(avg_gain as int, g as int, p, 2 * MAX_PRICE);
            lemma_smooth_bound(avg_loss as int, l as int, p, 2 * MAX_PRICE);
            assert(p * (2 * MAX_PRICE) <= 0x1_0000_0000_0000_0000 * (2 * MAX_PRICE))
                by (nonlinear_arith)
                requires
                    p <= 0x1_0000_0000_0000_0000,
            ;
        }
        avg_gain = floor_div(avg_gain * w + g, period as i128);
        avg_loss = floor_div(avg_loss * w + l, period as i128);
        let value: i128 = if avg_loss == 0 {
            100 * (PRICE_SCALE as i128)
        } else {
            proof {
                lemma_rsi_bound(avg_gain as int, avg_loss as int);
            }
            floor_div(100 * (PRICE_SCALE as i128) * avg_gain, avg_gain + avg_loss)
        };
        out.push(value as i64);
        i += 1;
    }
    out
}

/// The true range into index `i`.
fn true_range_at(high: &[i64], low: &[i64], close: &[i64], i: usize) -> (r: i128)
    requires
        1 <= i < high@.len(),
        low@.len() == high@.len(),
        close@.len() == high@.len(),
        series_in_range(high@),
        series_in_range(low@),
        series_in_range(close@),
    ensures
        r == true_ranges(high@, low@, close@)[i as int],
        0 <= r <= 2 * MAX_PRICE,
{
    assert(-MAX_PRICE <= high@[i as int] <= MAX_PRICE);
    assert(-MAX_PRICE <= low@[i as int] <= MAX_PRICE);
    assert(-MAX_PRICE <= close@[i - 1] <= MAX_PRICE);
    let h = high[i] as i128;
    let l = low[i] as i128;
    let c = close[i - 1] as i128;
    let hl = h - l;
    let hc = if h >= c {
        h - c
    } else {
        c - h
    };
    let lc = if l >= c {
        l - c
    } else {
        c - l
    };
    let m = if hl >= hc {
        hl
    } else {
        hc
    };
    if m >= lc {
        m
    } else {
        lc
    }
}

/// Average true range with Wilder's smoothing, first defined at index
/// `period`; all zero when the series has no more than `period` candles.
pub fn calculate_atr(high: &[i64], low: &[i64], close: &[i64], period: usize) -> (r: Vec<i64>)
    requires
        period >= 1,
        low@.len() == high@.len(),
        close@.len() == high@.len(),
        series_in_range(high@),
        series_in_range(low@),
        series_in_range(close@),
    ensures
        r@.len() == high@.len(),
        forall|i: int|
            0 <= i < high@.len() ==> #[trigger] r@[i] == atr_at(high@, low@, close@, period as int, i),
{
    let len = high.len();
    let ghost tr = true_ranges(high@, low@, close@);
    let ghost p = period as int;
    if len <= period {
        return zeros(len);
    }
    let mut out: Vec<i64> = zeros(period);
    let mut sum: i128 = 0;
    let mut k: usize = 1;
    assert(prefix_sum(tr, 1) == 0) by {
        assert(prefix_sum(tr, 0) == 0);
    }
    while k <= period
        invariant
            tr == true_ranges(high@, low@, close@),
            len == high@.len(),
            low@.len() == len,
            close@.len() == len,
            p == period,
            1 <= period < len,
            series_in_range(high@),
            series_in_range(low@),
            series_in_range(close@),
            1 <= k <= period + 1,
            sum == prefix_sum(tr, k as int),
            0 <= sum <= (k - 1) * 200_000_000_000_000_000,
        decreases period + 1 - k,
    {
        sum = sum + true_range_at(high, low, close, k);
        k += 1;
    }
    proof {
        lemma_mean_bound(sum as int, p, 2 * MAX_PRICE);
        assert((period as int) * 200_000_000_000_000_000 == p * (2 * MAX_PRICE));
    }
    let mut atr: i128 = floor_div(sum, period as i128);
    out.push(atr as i64);
    let mut i: usize = period + 1;
    while i < len
        invariant
            tr == true_ranges(high@, low@, close@),
            len == high@.len(),
            low@.len() == len,
            close@.len() == len,
            p == period,
            1 <= period < i <= len,
            series_in_range(high@),
            series_in_range(low@),
            series_in_range(close@),
            out@.len() == i,
            atr == wilder_average(tr, p, i - 1),
            0 <= atr <= 2 * MAX_PRICE,
            forall|k: int| 0 <= k < i ==> #[trigger] out@[k] == atr_at(high@, low@, close@, p, k),
        decreases len - i,
    {
        let v = true_range_at(high, low, close, i);
        proof {
            lemma_smooth_bound(atr as int, v as int, p, 2 * MAX_PRICE);
            assert(p * (2 * MAX_PRICE) <= 0x1_0000_0000_0000_0000 * (2 * MAX_PRICE))
                by (nonlinear_arith)
                requires
                    p <= 0x1_0000_0000_0000_0000,
            ;
        }
        atr = floor_div(atr * (period as i128 - 1) + v, period as i128);
        out.push(atr as i64);
        i += 1;
    }
    out
}

} // verus!
