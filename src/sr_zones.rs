//! Support and resistance zones clustered from swing levels.
use vstd::prelude::*;
use crate::candle::{abs_int, max_int, min_int};
use crate::{MAX_PRICE, PRICE_SCALE};

verus! {

/// Ticks in one hundredth of a price unit: zone prices are rounded to it.
pub const CENT: i64 = 1_000_000;

/// Zones kept after ranking by strength.
pub const MAX_SR_ZONES: usize = 5;

#[derive(Clone, Copy, Debug, PartialEq, Eq, Structural)]
pub enum SrType {
    Support,
    Resistance,
}

/// A cluster of swing levels; prices in ticks.
#[derive(Clone, Copy, Debug, PartialEq, Eq, Structural)]
pub struct SrZone {
    pub level: i64,
    pub zone_type: SrType,
    pub strength: usize,
    pub top: i64,
    pub bottom: i64,
    pub distance: i64,
}

/// The present values of `s`, in index order.
pub open spec fn present(s: Seq<Option<i64>>) -> Seq<i64>
    decreases s.len(),
{
    if s.len() == 0 {
        Seq::empty()
    } else {
        present(s.drop_last()) + match s.last() {
            Some(v) => seq![v],
            None => Seq::empty(),
        }
    }
}

/// Swing highs first, then swing lows, each in index order.
pub open spec fn all_levels(highs: Seq<Option<i64>>, lows: Seq<Option<i64>>) -> Seq<i64> {
    present(highs) + present(lows)
}

/// `w` lies within `v * t` of `v`, `t` being a fraction in ticks.
pub open spec fn within_band(v: int, w: int, t: int) -> bool {
    abs_int(w - v) * PRICE_SCALE <= v * t
}

/// Level `k` joins the cluster seeded at `i` while `used` marks the claimed levels.
pub open spec fn in_cluster(lv: Seq<i64>, used: Seq<bool>, t: int, i: int, k: int) -> bool {
    k == i || (i < k && !used[k] && within_band(lv[i] as int, lv[k] as int, t))
}

/// Size of the cluster seeded at `i`, over the levels before `n > i`.
pub open spec fn cluster_count(lv: Seq<i64>, used: Seq<bool>, t: int, i: int, n: int) -> int
    decreases n - i,
{
    if n <= i + 1 {
        1
    } else {
        cluster_count(lv, used, t, i, n - 1) + if in_cluster(lv, used, t, i, n - 1) {
            1int
        } else {
            0int
        }
    }
}

pub open spec fn cluster_sum(lv: Seq<i64>, used: Seq<bool>, t: int, i: int, n: int) -> int
    decreases n - i,
{
    if n <= i + 1 {
        lv[i] as int
    } else {
        cluster_sum(lv, used, t, i, n - 1) + if in_cluster(lv, used, t, i, n - 1) {
            lv[n - 1] as int
        } else {
            0int
        }
    }
}

pub open spec fn cluster_max(lv: Seq<i64>, used: Seq<bool>, t: int, i: int, n: int) -> int
    decreases n - i,
{
    if n <= i + 1 {
        lv[i] as int
    } else if in_cluster(lv, used, t, i, n - 1) {
        max_int(cluster_max(lv, used, t, i, n - 1), lv[n - 1] as int)
    } else {
        cluster_max(lv, used, t, i, n - 1)
    }
}

pub open spec fn cluster_min(lv: Seq<i64>, used: Seq<bool>, t: int, i: int, n: int) -> int
    decreases n - i,
{
    if n <= i + 1 {
        lv[i] as int
    } else if in_cluster(lv, used, t, i, n - 1) {
        min_int(cluster_min(lv, used, t, i, n - 1), lv[n - 1] as int)
    } else {
        cluster_min(lv, used, t, i, n - 1)
    }
}

/// `a / b` rounded to the nearest integer, halves away from zero.
pub open spec fn round_div(a: int, b: int) -> int {
    if a >= 0 {
        (2 * a + b) / (2 * b)
    } else {
        -((-2 * a + b) / (2 * b))
    }
}

/// The zone of the cluster seeded at `i`: its mean level, extremes rounded to
/// a hundredth, its size and its distance from `price`.
pub open spec fn zone_of(lv: Seq<i64>, used: Seq<bool>, t: int, price: int, i: int) -> SrZone {
    let n = lv.len() as int;
    let c = cluster_count(lv, used, t, i, n);
    let s = cluster_sum(lv, used, t, i, n);
    SrZone {
        level: (round_div(s, c * CENT) * CENT) as i64,
        zone_type: if s < price * c {
            SrType::Support
        } else {
            SrType::Resistance
        },
        strength: c as usize,
        top: (round_div(cluster_max(lv, used, t, i, n), CENT as int) * CENT) as i64,
        bottom: (round_div(cluster_min(lv, used, t, i, n), CENT as int) * CENT) as i64,
        distance: round_div(abs_int(price * c - s), c) as i64,
    }
}

/// `used` with the members of the cluster seeded at `i` claimed.
pub open spec fn claim(lv: Seq<i64>, used: Seq<bool>, t: int, i: int) -> Seq<bool> {
    Seq::new(used.len(), |k: int| used[k] || in_cluster(lv, used, t, i, k))
}

/// The zones seeded at `i` and after, in seed order.
pub open spec fn clusters_from(
    lv: Seq<i64>,
    used: Seq<bool>,
    t: int,
    min_touches: int,
    price: int,
    i: int,
) -> Seq<SrZone>
    decreases lv.len() - i,
{
    if i >= lv.len() || i < 0 {
        Seq::empty()
    } else if used[i] {
        clusters_from(lv, used, t, min_touches, price, i + 1)
    } else if cluster_count(lv, used, t, i, lv.len() as int) >= min_touches {
        seq![zone_of(lv, used, t, price, i)] + clusters_from(
            lv,
            claim(lv, used, t, i),
            t,
            min_touches,
            price,
            i + 1,
        )
    } else {
        clusters_from(lv, used, t, min_touches, price, i + 1)
    }
}

pub open spec fn sort_key(z: SrZone, by_distance: bool) -> int {
    if by_distance {
        z.distance as int
    } else {
        -(z.strength as int)
    }
}

/// `z` placed after every leading element whose key does not exceed its own.
pub open spec fn insert_sorted(s: Seq<SrZone>, z: SrZone, by_distance: bool) -> Seq<SrZone>
    decreases s.len(),
{
    if s.len() == 0 {
        seq![z]
    } else if sort_key(s[0], by_distance) > sort_key(z, by_distance) {
        seq![z] + s
    } else {
        seq![s[0]] + insert_sorted(s.drop_first(), z, by_distance)
    }
}

/// Stable sort by ascending key: by distance, or by descending strength.
pub open spec fn sort_zones(s: Seq<SrZone>, by_distance: bool) -> Seq<SrZone>
    decreases s.len(),
{
    if s.len() == 0 {
        Seq::empty()
    } else {
        insert_sorted(sort_zones(s.drop_last(), by_distance), s.last(), by_distance)
    }
}

/// The strongest zones, at most `MAX_SR_ZONES`, nearest to the price first.
pub open spec fn rank_zones(zones: Seq<SrZone>) -> Seq<SrZone> {
    let by_strength = sort_zones(zones, false);
    let kept = if by_strength.len() > MAX_SR_ZONES {
        by_strength.take(MAX_SR_ZONES as int)
    } else {
        by_strength
    };
    sort_zones(kept, true)
}

pub open spec fn sr_zones_of(
    highs: Seq<Option<i64>>,
    lows: Seq<Option<i64>>,
    price: int,
    t: int,
    min_touches: int,
) -> Seq<SrZone> {
    let lv = all_levels(highs, lows);
    rank_zones(
        clusters_from(lv, Seq::new(lv.len(), |k: int| false), t, min_touches, price, 0),
    )
}

pub open spec fn level_in_range(v: Option<i64>) -> bool {
    match v {
        Some(x) => -MAX_PRICE <= x <= MAX_PRICE,
        None => true,
    }
}

pub open spec fn levels_in_range(s: Seq<Option<i64>>) -> bool {
    forall|k: int| 0 <= k < s.len() ==> level_in_range(#[trigger] s[k])
}

const BIG: i128 = 0x1000_0000_0000_0000_0000_0000_0000_0000;

fn round_div_exec(a: i128, b: i128) -> (r: i128)
    requires
        0 < b <= BIG,
        -BIG <= a <= BIG,
    ensures
        r == round_div(a as int, b as int),
{
    if a >= 0 {
        let num = (2 * a + b) as u128;
        let den = (2 * b) as u128;
        let q = num / den;
        assert(q <= num) by (nonlinear_arith)
            requires
                q == num / den,
                den > 0,
        ;
        q as i128
    } else {
        let num = (b - 2 * a) as u128;
        let den = (2 * b) as u128;
        let q = num / den;
        assert(q <= num) by (nonlinear_arith)
            requires
                q == num / den,
                den > 0,
        ;
        -(q as i128)
    }
}

fn within_band_exec(v: i64, w: i64, t: i64) -> (r: bool)
    ensures
        r == within_band(v as int, w as int, t as int),
{
    let d = w as i128 - v as i128;
    let d = if d < 0 {
        -d
    } else {
        d
    };
    assert(0 <= d * 100_000_000 <= 0x1_0000_0000_0000_0000 * 100_000_000) by (nonlinear_arith)
        requires
            0 <= d <= 0x1_0000_0000_0000_0000,
    ;
    let lhs = d * (PRICE_SCALE as i128);
    assert(-0x4000_0000_0000_0000_0000_0000_0000_0000 <= (v as int) * (t as int)
        <= 0x4000_0000_0000_0000_0000_0000_0000_0000) by (nonlinear_arith)
        requires
            -0x8000_0000_0000_0000 <= v < 0x8000_0000_0000_0000,
            -0x8000_0000_0000_0000 <= t < 0x8000_0000_0000_0000,
    ;
    let rhs = (v as i128) * (t as i128);
    lhs <= rhs
}

fn collect_levels(highs: &[Option<i64>], lows: &[Option<i64>]) -> (r: Vec<i64>)
    requires
        levels_in_range(highs@),
        levels_in_range(lows@),
    ensures
        r@ == all_levels(highs@, lows@),
        forall|k: int| 0 <= k < r@.len() ==> -MAX_PRICE <= #[trigger] r@[k] <= MAX_PRICE,
{
    let mut out: Vec<i64> = Vec::new();
    let mut i: usize = 0;
    while i < highs.len()
        invariant
            i <= highs@.len(),
            levels_in_range(highs@),
            out@ == present(highs@.take(i as int)),
            forall|k: int| 0 <= k < out@.len() ==> -MAX_PRICE <= #[trigger] out@[k] <= MAX_PRICE,
        decreases highs@.len() - i,
    {
        assert(highs@.take(i + 1).drop_last() =~= highs@.take(i as int));
        assert(level_in_range(highs@[i as int]));
        if let Some(v) = highs[i] {
            out.push(v);
        }
        i += 1;
    }
    assert(highs@.take(highs@.len() as int) =~= highs@);
    let ghost first = out@;
    let mut i: usize = 0;
    while i < lows.len()
        invariant
            i <= lows@.len(),
            levels_in_range(lows@),
            first == present(highs@),
            out@ == first + present(lows@.take(i as int)),
            forall|k: int| 0 <= k < out@.len() ==> -MAX_PRICE <= #[trigger] out@[k] <= MAX_PRICE,
        decreases lows@.len() - i,
    {
        assert(lows@.take(i + 1).drop_last() =~= lows@.take(i as int));
        assert(level_in_range(lows@[i as int]));
        let ghost prev = out@;
        if let Some(v) = lows[i] {
            out.push(v);
        }
        assert(out@ =~= first + present(lows@.take(i + 1)));
        i += 1;
    }
    assert(lows@.take(lows@.len() as int) =~= lows@);
    out
}

proof fn lemma_round_div_bound(a: int, b: int, k: int)
    requires
        b > 0,
        k >= 0,
        -(b * k) <= a <= b * k,
    ensures
        -(k + 1) <= round_div(a, b) <= k + 1,
{
    let d = 2 * b;
    assert(d * (k + 1) == 2 * (b * k) + 2 * b) by (nonlinear_arith)
        requires
            d == 2 * b,
    ;
    vstd::arithmetic::div_mod::lemma_div_multiples_vanish(k + 1, d);
    if a >= 0 {
        vstd::arithmetic::div_mod::lemma_div_is_ordered(2 * a + b, d * (k + 1), d);
        vstd::arithmetic::div_mod::lemma_div_pos_is_pos(2 * a + b, d);
    } else {
        vstd::arithmetic::div_mod::lemma_div_is_ordered(-2 * a + b, d * (k + 1), d);
        vstd::arithmetic::div_mod::lemma_div_pos_is_pos(-2 * a + b, d);
    }
}

proof fn lemma_insert_sorted_at(s: Seq<SrZone>, z: SrZone, by_distance: bool, p: int)
    requires
        0 <= p <= s.len(),
        forall|k: int| 0 <= k < p ==> sort_key(#[trigger] s[k], by_distance) <= sort_key(z, by_distance),
        p == s.len() || sort_key(s[p], by_distance) > sort_key(z, by_distance),
    ensures
        insert_sorted(s, z, by_distance) == s.insert(p, z),
    decreases p,
{
    if p == 0 {
        assert(s.insert(0, z) =~= seq![z] + s);
        if s.len() == 0 {
            assert(seq![z] + s =~= seq![z]);
        }
    } else {
        let t = s.drop_first();
        assert forall|k: int| 0 <= k < p - 1 implies sort_key(#[trigger] t[k], by_distance)
            <= sort_key(z, by_distance) by {
            assert(t[k] == s[k + 1]);
        }
        lemma_insert_sorted_at(t, z, by_distance, p - 1);
        assert(s.insert(p, z) =~= seq![s[0]] + t.insert(p - 1, z));
    }
}

pub open spec fn sorted_by_key(s: Seq<SrZone>, by_distance: bool) -> bool {
    forall|a: int, b: int|
        0 <= a < b < s.len() ==> sort_key(#[trigger] s[a], by_distance) <= sort_key(
            #[trigger] s[b],
            by_distance,
        )
}

proof fn lemma_insert_sorted_keeps_order(s: Seq<SrZone>, z: SrZone, by_distance: bool)
    requires
        sorted_by_key(s, by_distance),
    ensures
        sorted_by_key(insert_sorted(s, z, by_distance), by_distance),
        insert_sorted(s, z, by_distance).len() == s.len() + 1,
        forall|k: int|
            0 <= k < insert_sorted(s, z, by_distance).len() ==> #[trigger] insert_sorted(
                s,
                z,
                by_distance,
            )[k] == z || s.contains(insert_sorted(s, z, by_distance)[k]),
    decreases s.len(),
{
    let r = insert_sorted(s, z, by_distance);
    if s.len() > 0 && sort_key(s[0], by_distance) <= sort_key(z, by_distance) {
        let t = s.drop_first();
        assert(sorted_by_key(t, by_distance)) by {
            assert forall|a: int, b: int| 0 <= a < b < t.len() implies sort_key(
                #[trigger] t[a],
                by_distance,
            ) <= sort_key(#[trigger] t[b], by_distance) by {
                assert(t[a] == s[a + 1] && t[b] == s[b + 1]);
            }
        }
        lemma_insert_sorted_keeps_order(t, z, by_distance);
        let rt = insert_sorted(t, z, by_distance);
        assert(r == seq![s[0]] + rt);
        assert forall|k: int| 0 <= k < rt.len() implies sort_key(s[0], by_distance) <= sort_key(
            #[trigger] rt[k],
            by_distance,
        ) by {
            if rt[k] != z {
                let m = choose|m: int| 0 <= m < t.len() && t[m] == rt[k];
                assert(t[m] == s[m + 1]);
            }
        }
        assert forall|a: int, b: int| 0 <= a < b < r.len() implies sort_key(
            #[trigger] r[a],
            by_distance,
        ) <= sort_key(#[trigger] r[b], by_distance) by {
            if a > 0 {
                assert(r[a] == rt[a - 1] && r[b] == rt[b - 1]);
            } else {
                assert(r[b] == rt[b - 1]);
            }
        }
        assert forall|k: int| 0 <= k < r.len() implies #[trigger] r[k] == z || s.contains(r[k]) by {
            if k == 0 {
                assert(s[0] == r[0]);
            } else {
                assert(r[k] == rt[k - 1]);
                if rt[k - 1] != z {
                    let m = choose|m: int| 0 <= m < t.len() && t[m] == rt[k - 1];
                    assert(s[m + 1] == r[k]);
                }
            }
        }
    } else if s.len() > 0 {
        assert(r == seq![z] + s);
        assert forall|a: int, b: int| 0 <= a < b < r.len() implies sort_key(
            #[trigger] r[a],
            by_distance,
        ) <= sort_key(#[trigger] r[b], by_distance) by {
            if a > 0 {
                assert(r[a] == s[a - 1] && r[b] == s[b - 1]);
            } else {
                assert(r[b] == s[b - 1]);
                assert(sort_key(s[0], by_distance) <= sort_key(s[b - 1], by_distance) || b == 1);
            }
        }
        assert forall|k: int| 0 <= k < r.len() implies #[trigger] r[k] == z || s.contains(r[k]) by {
            if k > 0 {
                assert(r[k] == s[k - 1]);
            }
        }
    }
}

/// `sort_zones` keeps the length and leaves the keys in ascending order.
pub proof fn lemma_sort_zones_sorted(s: Seq<SrZone>, by_distance: bool)
    ensures
        sort_zones(s, by_distance).len() == s.len(),
        sorted_by_key(sort_zones(s, by_distance), by_distance),
    decreases s.len(),
{
    if s.len() > 0 {
        lemma_sort_zones_sorted(s.drop_last(), by_distance);
        lemma_insert_sorted_keeps_order(sort_zones(s.drop_last(), by_distance), s.last(), by_distance);
    }
}

fn key_of(z: &SrZone, by_distance: bool) -> (r: i128)
    ensures
        r == sort_key(*z, by_distance),
{
    if by_distance {
        z.distance as i128
    } else {
        -(z.strength as i128)
    }
}

/// Stable insertion sort of `v` by ascending `sort_key`.
fn sort_by_key(v: &Vec<SrZone>, by_distance: bool) -> (r: Vec<SrZone>)
    ensures
        r@ == sort_zones(v@, by_distance),
{
    let mut out: Vec<SrZone> = Vec::new();
    let mut i: usize = 0;
    while i < v.len()
        invariant
            i <= v@.len(),
            out@ == sort_zones(v@.take(i as int), by_distance),
        decreases v@.len() - i,
    {
        let z = v[i];
        let kz = key_of(&z, by_distance);
        let mut p: usize = 0;
        while p < out.len() && key_of(&out[p], by_distance) <= kz
            invariant
                p <= out@.len(),
                kz == sort_key(z, by_distance),
                forall|k: int|
                    0 <= k < p ==> sort_key(#[trigger] out@[k], by_distance) <= sort_key(
                        z,
                        by_distance,
                    ),
            decreases out@.len() - p,
        {
            p += 1;
        }
        proof {
            lemma_insert_sorted_at(out@, z, by_distance, p as int);
            assert(v@.take(i + 1).drop_last() =~= v@.take(i as int));
        }
        out.insert(p, z);
        i += 1;
    }
    assert(v@.take(v@.len() as int) =~= v@);
    out
}

/// Clusters the swing levels into support and resistance zones.
///
/// The levels are the present swing highs, then the present swing lows. Each
/// unclaimed level in turn seeds a cluster of the later unclaimed levels within
/// `level * zone_threshold` of it (the threshold a fraction in ticks); a cluster
/// of at least `min_touches` levels becomes a zone and claims its members. The
/// `MAX_SR_ZONES` strongest zones are kept and returned nearest first.
pub fn identify_sr_zones(
    swing_highs: &[Option<i64>],
    swing_lows: &[Option<i64>],
    current_price: i64,
    zone_threshold: i64,
    min_touches: usize,
) -> (r: Vec<SrZone>)
    requires
        levels_in_range(swing_highs@),
        levels_in_range(swing_lows@),
        -MAX_PRICE <= current_price <= MAX_PRICE,
    ensures
        r@ == sr_zones_of(
            swing_highs@,
            swing_lows@,
            current_price as int,
            zone_threshold as int,
            min_touches as int,
        ),
        r@.len() <= MAX_SR_ZONES,
        forall|a: int, b: int| 0 <= a < b < r@.len() ==> (#[trigger] r@[a]).distance <= (#[trigger] r@[b]).distance,
{
    let lv = collect_levels(swing_highs, swing_lows);
    let n = lv.len();
    let ghost lvs = lv@;
    let ghost t = zone_threshold as int;
    let ghost mt = min_touches as int;
    let ghost cp = current_price as int;
    let mut used: Vec<bool> = vec![false; n];
    let ghost init = used@;
    assert(init =~= Seq::new(n as nat, |k: int| false));
    let mut zones: Vec<SrZone> = Vec::new();
    let mut i: usize = 0;
    while i < n
        invariant
            n == lvs.len(),
            lv@ == lvs,
            forall|k: int| 0 <= k < n ==> -MAX_PRICE <= #[trigger] lvs[k] <= MAX_PRICE,
            -MAX_PRICE <= current_price <= MAX_PRICE,
            t == zone_threshold,
            mt == min_touches,
            cp == current_price,
            i <= n,
            used@.len() == n,
            zones@ + clusters_from(lvs, used@, t, mt, cp, i as int) == clusters_from(
                lvs,
                init,
                t,
                mt,
                cp,
                0,
            ),
        decreases n - i,
    {
        if !used[i] {
            let ghost u = used@;
            let seed = lv[i];
            let mut count: usize = 1;
            let mut sum: i128 = seed as i128;
            let mut top: i64 = seed;
            let mut bottom: i64 = seed;
            let mut j: usize = i + 1;
            while j < n
                invariant
                    n == lvs.len(),
                    lv@ == lvs,
                    used@ == u,
                    u.len() == n,
                    forall|k: int| 0 <= k < n ==> -MAX_PRICE <= #[trigger] lvs[k] <= MAX_PRICE,
                    t == zone_threshold,
                    i < j <= n,
                    seed == lvs[i as int],
                    count == cluster_count(lvs, u, t, i as int, j as int),
                    sum == cluster_sum(lvs, u, t, i as int, j as int),
                    top == cluster_max(lvs, u, t, i as int, j as int),
                    bottom == cluster_min(lvs, u, t, i as int, j as int),
                    1 <= count <= j - i,
                    -(count * MAX_PRICE) <= sum <= count * MAX_PRICE,
                    -MAX_PRICE <= bottom <= top <= MAX_PRICE,
                decreases n - j,
            {
                if !used[j] && within_band_exec(seed, lv[j], zone_threshold) {
                    count += 1;
                    sum += lv[j] as i128;
                    if lv[j] > top {
                        top = lv[j];
                    }
                    if lv[j] < bottom {
                        bottom = lv[j];
                    }
                }
                j += 1;
            }
            if count >= min_touches {
                let c = count as i128;
                let cent = CENT as i128;
                proof {
                    assert(c * cent * 100_000_000_000 == c * MAX_PRICE);
                    lemma_round_div_bound(sum as int, c * cent, 100_000_000_000);
                    lemma_round_div_bound(top as int, cent as int, 100_000_000_000);
                    lemma_round_div_bound(bottom as int, cent as int, 100_000_000_000);
                    assert(-(c * MAX_PRICE) <= current_price * c <= c * MAX_PRICE)
                        by (nonlinear_arith)
                        requires
                            -MAX_PRICE <= current_price <= MAX_PRICE,
                            c >= 1,
                    ;
                }
                let level = round_div_exec(sum, c * cent) * cent;
                let scaled_price = (current_price as i128) * c;
                let gap = if scaled_price >= sum {
                    scaled_price - sum
                } else {
                    sum - scaled_price
                };
                proof {
                    assert(c * (2 * MAX_PRICE) == 2 * (c * MAX_PRICE)) by (nonlinear_arith);
                    lemma_round_div_bound(gap as int, c as int, 2 * MAX_PRICE);
                }
                let zone = SrZone {
                    level: level as i64,
                    zone_type: if sum < scaled_price {
                        SrType::Support
                    } else {
                        SrType::Resistance
                    },
                    strength: count,
                    top: (round_div_exec(top as i128, cent) * cent) as i64,
                    bottom: (round_div_exec(bottom as i128, cent) * cent) as i64,
                    distance: round_div_exec(gap, c) as i64,
                };
                assert(zone == zone_of(lvs, u, t, cp, i as int));
                zones.push(zone);
                let mut k: usize = i;
                while k < n
                    invariant
                        n == lvs.len(),
                        lv@ == lvs,
                        u.len() == n,
                        used@.len() == n,
                        t == zone_threshold,
                        i <= k <= n,
                        seed == lvs[i as int],
                        forall|q: int|
                            0 <= q < n ==> #[trigger] used@[q] == if i <= q < k {
                                u[q] || in_cluster(lvs, u, t, i as int, q)
                            } else {
                                u[q]
                            },
                    decreases n - k,
                {
                    if k == i || (!used[k] && within_band_exec(seed, lv[k], zone_threshold)) {
                        used.set(k, true);
                    }
                    k += 1;
                }
                assert(used@ =~= claim(lvs, u, t, i as int));
                assert(zones@ =~= (zones@.drop_last() + seq![zone_of(lvs, u, t, cp, i as int)]));
            }
        }
        i += 1;
    }
    assert(zones@ + clusters_from(lvs, used@, t, mt, cp, n as int) =~= zones@);
    let mut ranked = sort_by_key(&zones, false);
    if ranked.len() > MAX_SR_ZONES {
        ranked.truncate(MAX_SR_ZONES);
    }
    let r = sort_by_key(&ranked, true);
    proof {
        lemma_sort_zones_sorted(zones@, false);
        lemma_sort_zones_sorted(ranked@, true);
    }
    r
}

} // verus!
