//! Properties that hold across the indicators and detectors.
use vstd::prelude::*;
use crate::indicators::{atr_at, ema_at, prefix_sum, rsi_at, true_ranges, wilder_average};

verus! {

/// A series too short for the period yields zero everywhere: shorter than
/// `period` for the EMA, not longer than `period` for the RSI and the ATR.
pub proof fn lemma_short_series_is_zero(
    prices: Seq<i64>,
    high: Seq<i64>,
    low: Seq<i64>,
    close: Seq<i64>,
    period: int,
)
    ensures
        prices.len() < period ==> forall|i: int|
            0 <= i < prices.len() ==> #[trigger] ema_at(prices, period, i) == 0,
        prices.len() < period + 1 ==> forall|i: int|
            0 <= i < prices.len() ==> #[trigger] rsi_at(prices, period, i) == 0,
        high.len() < period + 1 ==> forall|i: int|
            0 <= i < high.len() ==> #[trigger] atr_at(high, low, close, period, i) == 0,
{
    assert forall|i: int| 0 <= i < high.len() && high.len() < period + 1 implies #[trigger] atr_at(
        high,
        low,
        close,
        period,
        i,
    ) == 0 by {
        assert(wilder_average(true_ranges(high, low, close), period, i) == 0);
    }
}

proof fn lemma_zero_prefix_sum(v: Seq<int>, n: int)
    requires
        n <= v.len(),
        forall|k: int| 0 <= k < v.len() ==> #[trigger] v[k] == 0,
    ensures
        prefix_sum(v, n) == 0,
    decreases n,
{
    if n > 0 {
        lemma_zero_prefix_sum(v, n - 1);
    }
}

proof fn lemma_zero_wilder(v: Seq<int>, p: int, i: int)
    requires
        i < v.len(),
        forall|k: int| 0 <= k < v.len() ==> #[trigger] v[k] == 0,
    ensures
        wilder_average(v, p, i) == 0,
    decreases i,
{
    if p >= 1 && i >= p {
        if i == p {
            lemma_zero_prefix_sum(v, p + 1);
        } else {
            lemma_zero_wilder(v, p, i - 1);
        }
    }
}

/// Where every high, low and close is the same price, the ATR is zero at
/// every index.
pub proof fn lemma_flat_series_atr_zero(
    high: Seq<i64>,
    low: Seq<i64>,
    close: Seq<i64>,
    price: i64,
    period: int,
)
    requires
        low.len() == high.len(),
        close.len() == high.len(),
        forall|k: int|
            0 <= k < high.len() ==> #[trigger] high[k] == price && low[k] == price && close[k]
                == price,
    ensures
        forall|i: int| 0 <= i < high.len() ==> #[trigger] atr_at(high, low, close, period, i) == 0,
{
    let tr = true_ranges(high, low, close);
    assert(tr.len() == high.len());
    assert forall|k: int| 0 <= k < tr.len() implies #[trigger] tr[k] == 0 by {
        if k > 0 {
            assert(high[k] == price && low[k] == price);
            assert(high[k - 1] == price && close[k - 1] == price);
        }
    }
    assert forall|i: int| 0 <= i < high.len() implies #[trigger] atr_at(
        high,
        low,
        close,
        period,
        i,
    ) == 0 by {
        lemma_zero_wilder(tr, period, i);
    }
}

/// Two outputs that both meet a detector's contract on the same input are
/// equal: each contract fixes every element as a function of the input alone,
/// so running a detector twice gives the same result.
pub proof fn lemma_pinned_outputs_agree<T>(a: Seq<T>, b: Seq<T>, n: int, f: spec_fn(int) -> T)
    requires
        a.len() == n,
        b.len() == n,
        forall|i: int| 0 <= i < n ==> #[trigger] a[i] == f(i),
        forall|i: int| 0 <= i < n ==> #[trigger] b[i] == f(i),
    ensures
        a == b,
{
    assert(a =~= b);
}

} // verus!
