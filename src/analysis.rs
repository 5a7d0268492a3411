use vstd::prelude::*;
use crate::point::{Field, WeatherDataPoint, MAX_POINTS};
use crate::stats::{field_bound, lemma_mean_between, lemma_sum_bound, sum_field};
use crate::arith::floor_div;
use crate::wide::{full, wide_add, wide_gt, wide_mul, wide_value};
use vstd::arithmetic::div_mod::{lemma_fundamental_div_mod, lemma_mod_bound};

verus! {

/// Fewest samples on which anomalies are looked for.
pub const MIN_ANOMALY_SAMPLES: usize = 10;

/// `n t - S` for the temperature `t` of `p`, with `n` samples in `s` summing
/// to `S`: `n` times the deviation of `p` from the mean of `s`.
pub open spec fn centered(p: WeatherDataPoint, s: Seq<WeatherDataPoint>) -> int {
    s.len() * p.temperature - sum_field(s, Field::Temperature)
}

/// Sum of `centered(p, s)^2` over the points `p` of `pre`.
pub open spec fn sum_sq_centered(pre: Seq<WeatherDataPoint>, s: Seq<WeatherDataPoint>) -> int
    decreases pre.len(),
{
    if pre.len() == 0 {
        0
    } else {
        sum_sq_centered(pre.drop_last(), s) + centered(pre.last(), s) * centered(pre.last(), s)
    }
}

/// `p` deviates from the mean temperature of `s` by more than `threshold / 100`
/// population standard deviations. Both sides are scaled by `n`, so with
/// `D = centered(p, s)` this is `10000 n D^2 > threshold^2 sum(D_j^2)`; a
/// negative threshold flags every point unless all temperatures are equal.
pub open spec fn is_anomaly(p: WeatherDataPoint, s: Seq<WeatherDataPoint>, threshold: int) -> bool {
    let d = centered(p, s);
    if threshold < 0 {
        sum_sq_centered(s, s) != 0
    } else {
        10000 * s.len() * (d * d) > threshold * threshold * sum_sq_centered(s, s)
    }
}

/// Sum of squared deviations of the temperatures of `pre` from `m`.
pub open spec fn sum_sq_dev(pre: Seq<WeatherDataPoint>, m: int) -> int
    decreases pre.len(),
{
    if pre.len() == 0 {
        0
    } else {
        sum_sq_dev(pre.drop_last(), m) + (pre.last().temperature - m) * (pre.last().temperature - m)
    }
}

/// Sum of deviations of the temperatures of `pre` from `m`.
pub open spec fn sum_dev(pre: Seq<WeatherDataPoint>, m: int) -> int
    decreases pre.len(),
{
    if pre.len() == 0 {
        0
    } else {
        sum_dev(pre.drop_last(), m) + (pre.last().temperature - m)
    }
}

proof fn lemma_sum_dev(pre: Seq<WeatherDataPoint>, m: int)
    ensures
        sum_dev(pre, m) == sum_field(pre, Field::Temperature) - pre.len() * m,
    decreases pre.len(),
{
    if pre.len() > 0 {
        lemma_sum_dev(pre.drop_last(), m);
        let k = pre.drop_last().len() as int;
        assert((k + 1) * m == k * m + m) by (nonlinear_arith);
    } else {
        assert(pre.len() * m == 0) by (nonlinear_arith)
            requires
                pre.len() == 0,
        ;
    }
}

proof fn lemma_sum_sq_centered(pre: Seq<WeatherDataPoint>, s: Seq<WeatherDataPoint>, m: int, r: int)
    requires
        sum_field(s, Field::Temperature) == s.len() * m + r,
    ensures
        sum_sq_centered(pre, s) == s.len() * s.len() * sum_sq_dev(pre, m) - 2 * s.len() * r * sum_dev(pre, m)
            + pre.len() * (r * r),
    decreases pre.len(),
{
    let n = s.len() as int;
    if pre.len() > 0 {
        let q = pre.drop_last();
        lemma_sum_sq_centered(q, s, m, r);
        let t = pre.last().temperature as int;
        let d = centered(pre.last(), s);
        let k = q.len() as int;
        let v = sum_sq_dev(q, m);
        let e = sum_dev(q, m);
        assert(d * d == n * n * ((t - m) * (t - m)) - 2 * n * r * (t - m) + r * r) by (nonlinear_arith)
            requires
                d == n * t - (n * m + r),
        ;
        assert(n * n * v - 2 * n * r * e + k * (r * r) + (n * n * ((t - m) * (t - m)) - 2 * n * r * (t - m) + r * r)
            == n * n * (v + (t - m) * (t - m)) - 2 * n * r * (e + (t - m)) + (k + 1) * (r * r)) by (nonlinear_arith);
    } else {
        assert(n * n * 0 - 2 * n * r * 0 + 0 * (r * r) == 0) by (nonlinear_arith);
    }
}

/// The points of `pre` that are anomalies of `s`, in order.
pub open spec fn anomalies_among(pre: Seq<WeatherDataPoint>, s: Seq<WeatherDataPoint>, threshold: int) -> Seq<
    WeatherDataPoint,
>
    decreases pre.len(),
{
    if pre.len() == 0 {
        Seq::empty()
    } else {
        let r = anomalies_among(pre.drop_last(), s, threshold);
        if is_anomaly(pre.last(), s, threshold) {
            r.push(pre.last())
        } else {
            r
        }
    }
}

/// The anomalies of `s`: none below the minimum sample count.
pub open spec fn anomalies(s: Seq<WeatherDataPoint>, threshold: int) -> Seq<WeatherDataPoint> {
    if s.len() < MIN_ANOMALY_SAMPLES {
        Seq::empty()
    } else {
        anomalies_among(s, s, threshold)
    }
}

proof fn lemma_sum_sq_dev_bound(pre: Seq<WeatherDataPoint>, m: int)
    requires
        -0x8000_0000 <= m <= 0x8000_0000,
    ensures
        0 <= sum_sq_dev(pre, m) <= pre.len() * 0x1_0000_0000_0000_0000,
    decreases pre.len(),
{
    if pre.len() > 0 {
        let q = pre.drop_last();
        lemma_sum_sq_dev_bound(q, m);
        let u = pre.last().temperature - m;
        assert(0 <= u * u <= 0x1_0000_0000_0000_0000) by (nonlinear_arith)
            requires
                -0x1_0000_0000 <= u <= 0x1_0000_0000,
        ;
        assert(pre.len() == q.len() + 1);
    }
}

/// The points whose temperature deviates from the mean by more than
/// `threshold / 100` population standard deviations (see `is_anomaly`);
/// empty below ten samples.
pub fn find_anomalies_in(data: &Vec<WeatherDataPoint>, threshold: i32) -> (r: Vec<WeatherDataPoint>)
    requires
        data.len() <= MAX_POINTS,
    ensures
        r@ == anomalies(data@, threshold as int),
        data.len() < MIN_ANOMALY_SAMPLES ==> r@.len() == 0,
{
    let n = data.len();
    if n < MIN_ANOMALY_SAMPLES {
        return Vec::new();
    }
    let mut total: i128 = 0;
    let mut i: usize = 0;
    while i < n
        invariant
            n == data.len(),
            MIN_ANOMALY_SAMPLES <= n <= MAX_POINTS,
            0 <= i <= n,
            total == sum_field(data@.take(i as int), Field::Temperature),
        decreases n - i,
    {
        proof {
            assert(data@.take(i + 1).drop_last() =~= data@.take(i as int));
            lemma_sum_bound(data@.take(i as int), Field::Temperature);
            assert(i * field_bound() <= 0x100_0000_0000 * 0x8000_0000);
        }
        total = total + data[i].temperature as i128;
        i = i + 1;
    }
    proof {
        assert(data@.take(n as int) =~= data@);
        lemma_sum_bound(data@, Field::Temperature);
        lemma_mean_between(total as int, n as int, -field_bound(), field_bound());
        lemma_fundamental_div_mod(total as int, n as int);
        lemma_mod_bound(total as int, n as int);
    }
    let nn = n as i128;
    let m = floor_div(total, nn);
    proof {
        assert(-0x100_0000_0000 * 0x8000_0000 <= nn * m <= 0x100_0000_0000 * 0x8000_0000) by (nonlinear_arith)
            requires
                1 <= nn <= 0x100_0000_0000,
                -0x8000_0000 <= m <= 0x8000_0000,
        ;
    }
    let rem = total - nn * m;
    proof {
        assert(total == nn * m + rem);
        assert(0 <= rem < nn);
    }
    let mut spread: i128 = 0;
    let mut j: usize = 0;
    while j < n
        invariant
            n == data.len(),
            MIN_ANOMALY_SAMPLES <= n <= MAX_POINTS,
            0 <= j <= n,
            -0x8000_0000 <= m <= 0x8000_0000,
            spread == sum_sq_dev(data@.take(j as int), m as int),
        decreases n - j,
    {
        proof {
            assert(data@.take(j + 1).drop_last() =~= data@.take(j as int));
            lemma_sum_sq_dev_bound(data@.take(j as int), m as int);
            assert(j * 0x1_0000_0000_0000_0000 <= 0x100_0000_0000 * 0x1_0000_0000_0000_0000);
        }
        let u = data[j].temperature as i128 - m;
        proof {
            assert(0 <= u * u <= 0x1_0000_0000_0000_0000) by (nonlinear_arith)
                requires
                    -0x1_0000_0000 <= u <= 0x1_0000_0000,
            ;
        }
        spread = spread + u * u;
        j = j + 1;
    }
    let ghost s = data@;
    let ghost big = sum_sq_centered(s, s);
    proof {
        assert(data@.take(n as int) =~= data@);
        lemma_sum_sq_dev_bound(data@, m as int);
        assert(n * 0x1_0000_0000_0000_0000 <= 0x100_0000_0000 * 0x1_0000_0000_0000_0000);
        lemma_sum_sq_centered(s, s, m as int, rem as int);
        lemma_sum_dev(s, m as int);
        let ni = n as int;
        let ri = rem as int;
        assert(big == ni * (ni * spread - ri * ri)) by (nonlinear_arith)
            requires
                big == ni * ni * spread - 2 * ni * ri * (total - ni * m) + ni * (ri * ri),
                total - ni * m == ri,
        ;
    }
    let spread_n = wide_mul(n as u128, spread as u128);
    let rem_sq = wide_mul(rem as u128, rem as u128);
    let all_flagged = wide_gt(spread_n, rem_sq) || wide_gt(rem_sq, spread_n);
    proof {
        let ni = n as int;
        let w = ni * spread - rem * rem;
        assert(all_flagged == (w != 0));
        assert((big != 0) == (w != 0)) by (nonlinear_arith)
            requires
                big == ni * w,
                ni > 0,
        ;
    }
    let k_abs: u128 = if threshold < 0 {
        (-(threshold as i128)) as u128
    } else {
        threshold as u128
    };
    proof {
        assert(k_abs * k_abs == threshold * threshold) by (nonlinear_arith)
            requires
                k_abs == threshold || k_abs == -threshold,
        ;
        assert(0 <= k_abs * k_abs <= 0x4000_0000_0000_0000) by (nonlinear_arith)
            requires
                0 <= k_abs <= 0x8000_0000,
        ;
        assert(0 <= k_abs * k_abs * n <= 0x4000_0000_0000_0000 * 0x100_0000_0000) by (nonlinear_arith)
            requires
                0 <= k_abs * k_abs <= 0x4000_0000_0000_0000,
                0 <= n <= 0x100_0000_0000,
        ;
        assert(0 <= k_abs * rem <= 0x8000_0000 * 0x100_0000_0000) by (nonlinear_arith)
            requires
                0 <= k_abs <= 0x8000_0000,
                0 <= rem <= 0x100_0000_0000,
        ;
    }
    let k2n = k_abs * k_abs * (n as u128);
    let rhs = wide_mul(k2n, spread as u128);
    let kr = k_abs * (rem as u128);
    let kr_sq = wide_mul(kr, kr);
    proof {
        let th = threshold as int;
        assert(kr * kr == (k_abs * k_abs) * (rem * rem)) by (nonlinear_arith)
            requires
                kr == k_abs * rem,
        ;
        assert(0 <= kr * kr <= 0x8000_0000 * 0x100_0000_0000 * (0x8000_0000 * 0x100_0000_0000)) by (nonlinear_arith)
            requires
                0 <= kr <= 0x8000_0000 * 0x100_0000_0000,
        ;
        assert(k2n * spread == th * th * n * spread) by (nonlinear_arith)
            requires
                k2n == k_abs * k_abs * n,
                k_abs * k_abs == th * th,
        ;
    }
    let mut out: Vec<WeatherDataPoint> = Vec::new();
    let mut q: usize = 0;
    while q < n
        invariant
            n == data.len(),
            s == data@,
            MIN_ANOMALY_SAMPLES <= n <= MAX_POINTS,
            0 <= q <= n,
            nn == n,
            -0x8000_0000 <= m <= 0x8000_0000,
            0 <= rem < n,
            total == sum_field(s, Field::Temperature),
            total == n * m + rem,
            big == n * (n * spread - rem * rem),
            big == sum_sq_centered(s, s),
            all_flagged == (big != 0),
            wide_value(rhs) == threshold * threshold * n * spread,
            wide_value(kr_sq) == threshold * threshold * (rem * rem),
            0 <= wide_value(kr_sq) <= 0x8000_0000 * 0x100_0000_0000 * (0x8000_0000 * 0x100_0000_0000),
            out@ == anomalies_among(data@.take(q as int), data@, threshold as int),
        decreases n - q,
    {
        proof {
            assert(data@.take(q + 1).drop_last() =~= data@.take(q as int));
        }
        let p = &data[q];
        let flagged = if threshold < 0 {
            all_flagged
        } else {
            let u = p.temperature as i128 - m;
            proof {
                assert(-0x100_0000_0000 * 0x1_0000_0000 <= nn * u <= 0x100_0000_0000 * 0x1_0000_0000) by (nonlinear_arith)
                    requires
                        1 <= nn <= 0x100_0000_0000,
                        -0x1_0000_0000 <= u <= 0x1_0000_0000,
                ;
            }
            let d = nn * u - rem;
            let a: u128 = if d < 0 {
                (-d) as u128 * 100
            } else {
                d as u128 * 100
            };
            let sq = wide_mul(a, a);
            proof {
                assert(0 <= a * a <= 0x1_0000_0000_0000_0000_0000 * 0x1_0000_0000_0000_0000_0000) by (nonlinear_arith)
                    requires
                        0 <= a <= 0x1_0000_0000_0000_0000_0000,
                ;
                assert(wide_value(sq) + wide_value(kr_sq) < full() * full()) by (nonlinear_arith)
                    requires
                        wide_value(sq) == a * a,
                        0 <= a * a <= 0x1_0000_0000_0000_0000_0000 * 0x1_0000_0000_0000_0000_0000,
                        0 <= wide_value(kr_sq) <= 0x8000_0000 * 0x100_0000_0000 * (0x8000_0000 * 0x100_0000_0000),
                        full() == 0x1_0000_0000_0000_0000 * 0x1_0000_0000_0000_0000,
                ;
            }
            let lhs = wide_add(sq, kr_sq);
            let ghost dd = centered(*p, s);
            proof {
                assert(dd == d) by (nonlinear_arith)
                    requires
                        dd == n * p.temperature - total,
                        total == n * m + rem,
                        d == n * u - rem,
                        u == p.temperature - m,
                        nn == n,
                ;
                assert(a * a == 10000 * (d * d)) by (nonlinear_arith)
                    requires
                        a == 100 * d || a == -100 * d,
                ;
                assert(0 <= a * a <= 0x1_0000_0000_0000_0000_0000 * 0x1_0000_0000_0000_0000_0000) by (nonlinear_arith)
                    requires
                        0 <= a <= 0x1_0000_0000_0000_0000_0000,
                ;
                let ni = n as int;
                let th = threshold as int;
                assert((10000 * ni * (dd * dd) > th * th * big) == (10000 * (dd * dd) + th * th * (rem * rem) > th * th
                    * ni * spread)) by (nonlinear_arith)
                    requires
                        big == ni * (ni * spread - rem * rem),
                        ni > 0,
                ;
                assert(wide_value(lhs) == 10000 * (dd * dd) + th * th * (rem * rem));
                assert(10000 * s.len() * (dd * dd) == 10000 * ni * (dd * dd));
            }
            let res = wide_gt(lhs, rhs);
            proof {
                assert(res == is_anomaly(*p, s, threshold as int));
            }
            res
        };
        proof {
            assert(flagged == is_anomaly(data@[q as int], data@, threshold as int));
        }
        if flagged {
            out.push(p.duplicate());
        }
        q = q + 1;
    }
    proof {
        assert(data@.take(n as int) =~= data@);
    }
    out
}

} // verus!
