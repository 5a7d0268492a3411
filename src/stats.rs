use vstd::prelude::*;
use vstd::arithmetic::div_mod::{lemma_fundamental_div_mod, lemma_mod_bound};
use crate::point::{field_value, Field, WeatherDataPoint, MAX_POINTS};

verus! {

/// Magnitude bound of a 32-bit fixed-point quantity.
pub open spec fn field_bound() -> int {
    0x8000_0000
}

/// Sum of one quantity over a sequence of measurements.
pub open spec fn sum_field(s: Seq<WeatherDataPoint>, f: Field) -> int
    decreases s.len(),
{
    if s.len() == 0 {
        0
    } else {
        sum_field(s.drop_last(), f) + field_value(s.last(), f)
    }
}

/// Largest temperature of a non-empty sequence.
pub open spec fn max_temp(s: Seq<WeatherDataPoint>) -> int
    decreases s.len(),
{
    if s.len() <= 1 {
        s[0].temperature as int
    } else {
        let m = max_temp(s.drop_last());
        let t = s.last().temperature as int;
        if t > m {
            t
        } else {
            m
        }
    }
}

/// Smallest temperature of a non-empty sequence.
pub open spec fn min_temp(s: Seq<WeatherDataPoint>) -> int
    decreases s.len(),
{
    if s.len() <= 1 {
        s[0].temperature as int
    } else {
        let m = min_temp(s.drop_last());
        let t = s.last().temperature as int;
        if t < m {
            t
        } else {
            m
        }
    }
}

/// Sum of `i * temperature_i` over the zero-based index `i`.
pub open spec fn sum_index_weighted(s: Seq<WeatherDataPoint>) -> int
    decreases s.len(),
{
    if s.len() == 0 {
        0
    } else {
        sum_index_weighted(s.drop_last()) + (s.len() - 1) * s.last().temperature
    }
}

/// `0 + 1 + ... + (n - 1)`.
pub open spec fn sum_index(n: nat) -> int
    decreases n,
{
    if n == 0 {
        0
    } else {
        sum_index((n - 1) as nat) + (n - 1)
    }
}

/// `0^2 + 1^2 + ... + (n - 1)^2`.
pub open spec fn sum_index_sq(n: nat) -> int
    decreases n,
{
    if n == 0 {
        0
    } else {
        sum_index_sq((n - 1) as nat) + (n - 1) * (n - 1)
    }
}

/// `n * sum(x*y) - sum(x) * sum(y)` with `x` the index and `y` the temperature.
pub open spec fn trend_numerator(s: Seq<WeatherDataPoint>) -> int {
    s.len() * sum_index_weighted(s) - sum_index(s.len()) * sum_field(s, Field::Temperature)
}

/// `n * sum(x^2) - sum(x)^2` with `x` the index.
pub open spec fn trend_denominator(n: nat) -> int {
    n * sum_index_sq(n) - sum_index(n) * sum_index(n)
}

/// An exact fraction with a positive denominator.
#[derive(Clone, Copy, Debug, PartialEq, Eq, Structural)]
pub struct Ratio {
    pub numerator: i128,
    pub denominator: i128,
}

/// `r` is the least-squares slope of temperature against sample index:
/// `trend_numerator / trend_denominator`, and zero below two samples.
pub open spec fn is_trend(r: Ratio, s: Seq<WeatherDataPoint>) -> bool {
    if s.len() < 2 {
        r.numerator == 0 && r.denominator == 1
    } else {
        r.denominator > 0 && r.numerator * trend_denominator(s.len()) == trend_numerator(s) * r.denominator
    }
}

/// `sum((2i - (n - 1)) * temperature_i)`: the index-weighted sum with the
/// index measured from the middle of a series of `n` samples.
pub open spec fn centered_sum(s: Seq<WeatherDataPoint>, n: int) -> int
    decreases s.len(),
{
    if s.len() == 0 {
        0
    } else {
        centered_sum(s.drop_last(), n) + (2 * (s.len() - 1) - (n - 1)) * s.last().temperature
    }
}

pub proof fn lemma_sum_bound(s: Seq<WeatherDataPoint>, f: Field)
    ensures
        -(s.len() * field_bound()) <= sum_field(s, f) <= s.len() * field_bound(),
    decreases s.len(),
{
    if s.len() > 0 {
        lemma_sum_bound(s.drop_last(), f);
    }
}

proof fn lemma_sum_index_closed(n: nat)
    ensures
        2 * sum_index(n) == n * (n - 1),
    decreases n,
{
    if n > 0 {
        let m = (n - 1) as nat;
        lemma_sum_index_closed(m);
        assert(sum_index(n) == sum_index(m) + m);
        assert(m * (m - 1) + 2 * m == n * (n - 1)) by (nonlinear_arith)
            requires
                m + 1 == n,
        ;
        assert(2 * sum_index(m) == m * (m - 1));
        assert(2 * sum_index(n) == n * (n - 1));
    } else {
        assert(sum_index(n) == 0);
    }
}

proof fn lemma_sum_index_sq_closed(n: nat)
    ensures
        6 * sum_index_sq(n) == n * (n - 1) * (2 * n - 1),
    decreases n,
{
    if n > 0 {
        let m = (n - 1) as nat;
        lemma_sum_index_sq_closed(m);
        assert(sum_index_sq(n) == sum_index_sq(m) + m * m);
        assert(m * (m - 1) * (2 * m - 1) + 6 * (m * m) == n * (n - 1) * (2 * n - 1)) by (nonlinear_arith)
            requires
                m + 1 == n,
        ;
    } else {
        assert(sum_index_sq(n) == 0);
    }
}

/// The denominator of the slope is positive from two samples on.
pub proof fn lemma_trend_denominator_positive(n: nat)
    requires
        n >= 2,
    ensures
        trend_denominator(n) > 0,
        12 * trend_denominator(n) == n * n * (n - 1) * (n + 1),
{
    lemma_sum_index_closed(n);
    lemma_sum_index_sq_closed(n);
    let a = sum_index(n);
    let b = sum_index_sq(n);
    assert(12 * (n * b - a * a) == n * n * (n - 1) * (n + 1)) by (nonlinear_arith)
        requires
            2 * a == n * (n - 1),
            6 * b == n * (n - 1) * (2 * n - 1),
    ;
    assert(n * n * (n - 1) * (n + 1) > 0) by (nonlinear_arith)
        requires
            n >= 2,
    ;
}

/// Whenever `n * lo <= total <= n * hi`, the rounded-down mean lies in `[lo, hi]`.
pub proof fn lemma_mean_between(total: int, n: int, lo: int, hi: int)
    requires
        n > 0,
        n * lo <= total <= n * hi,
    ensures
        lo <= total / n <= hi,
{
    lemma_fundamental_div_mod(total, n);
    lemma_mod_bound(total, n);
    let q = total / n;
    let r = total % n;
    assert(lo <= q) by (nonlinear_arith)
        requires
            n * lo <= total,
            total == n * q + r,
            r < n,
            n > 0,
    ;
    assert(q <= hi) by (nonlinear_arith)
        requires
            total <= n * hi,
            total == n * q + r,
            0 <= r,
            n > 0,
    ;
}

/// For every non-empty sequence, `n * min <= sum <= n * max` of the
/// temperatures: the mean lies between the extremes.
pub proof fn lemma_sum_between_extremes(s: Seq<WeatherDataPoint>)
    requires
        s.len() >= 1,
    ensures
        s.len() * min_temp(s) <= sum_field(s, Field::Temperature) <= s.len() * max_temp(s),
        min_temp(s) <= max_temp(s),
    decreases s.len(),
{
    if s.len() == 1 {
        assert(sum_field(s.drop_last(), Field::Temperature) == 0);
    } else {
        let p = s.drop_last();
        lemma_sum_between_extremes(p);
        let n = p.len() as int;
        let t = s.last().temperature as int;
        let total = sum_field(p, Field::Temperature);
        assert((n + 1) * min_temp(s) <= total + t <= (n + 1) * max_temp(s)) by (nonlinear_arith)
            requires
                n * min_temp(p) <= total <= n * max_temp(p),
                min_temp(s) <= min_temp(p),
                min_temp(s) <= t,
                max_temp(s) >= max_temp(p),
                max_temp(s) >= t,
                n >= 1,
        ;
    }
}

proof fn lemma_linear_sums(s: Seq<WeatherDataPoint>, a: int, b: int)
    requires
        forall|i: int| 0 <= i < s.len() ==> #[trigger] s[i].temperature == a * i + b,
    ensures
        sum_field(s, Field::Temperature) == a * sum_index(s.len()) + b * s.len(),
        sum_index_weighted(s) == a * sum_index_sq(s.len()) + b * sum_index(s.len()),
    decreases s.len(),
{
    if s.len() > 0 {
        let p = s.drop_last();
        assert forall|i: int| 0 <= i < p.len() implies #[trigger] p[i].temperature == a * i + b by {
            assert(p[i] == s[i]);
        }
        lemma_linear_sums(p, a, b);
        let k = p.len() as int;
        assert(sum_index(s.len()) == sum_index(p.len()) + k);
        assert(sum_index_sq(s.len()) == sum_index_sq(p.len()) + k * k);
        assert(s.last().temperature == a * k + b) by {
            assert(s[k].temperature == a * k + b);
        }
        let sx = sum_index(p.len());
        let sxx = sum_index_sq(p.len());
        assert(a * sx + b * k + (a * k + b) == a * (sx + k) + b * (k + 1)) by (nonlinear_arith);
        assert(a * sxx + b * sx + k * (a * k + b) == a * (sxx + k * k) + b * (sx + k)) by (nonlinear_arith);
    } else {
        assert(sum_index(0) == 0);
        assert(sum_index_sq(0) == 0);
    }
}

/// The slope of a series whose temperature is `a * i + b` at index `i` is
/// exactly `a`; a constant series has slope zero.
pub proof fn lemma_linear_series_trend(s: Seq<WeatherDataPoint>, a: int, b: int, r: Ratio)
    requires
        forall|i: int| 0 <= i < s.len() ==> #[trigger] s[i].temperature == a * i + b,
        is_trend(r, s),
        s.len() >= 2 || a == 0,
    ensures
        r.numerator == a * r.denominator,
{
    if s.len() >= 2 {
        lemma_linear_sums(s, a, b);
        let n = s.len() as int;
        let sx = sum_index(s.len());
        let sxx = sum_index_sq(s.len());
        lemma_trend_denominator_positive(s.len());
        let sy = sum_field(s, Field::Temperature);
        let sxy = sum_index_weighted(s);
        assert(n * sxy - sx * sy == a * (n * sxx - sx * sx)) by (nonlinear_arith)
            requires
                sy == a * sx + b * n,
                sxy == a * sxx + b * sx,
        ;
        let d = trend_denominator(s.len());
        assert(r.numerator == a * r.denominator) by (nonlinear_arith)
            requires
                d > 0,
                r.numerator * d == (a * d) * r.denominator,
        ;
    }
}

proof fn lemma_centered_sum(s: Seq<WeatherDataPoint>, n: int)
    ensures
        centered_sum(s, n) == 2 * sum_index_weighted(s) - (n - 1) * sum_field(s, Field::Temperature),
    decreases s.len(),
{
    if s.len() > 0 {
        lemma_centered_sum(s.drop_last(), n);
        let k = s.len() - 1;
        let t = s.last().temperature as int;
        assert((2 * k - (n - 1)) * t == 2 * (k * t) - (n - 1) * t) by (nonlinear_arith);
        assert((n - 1) * (sum_field(s.drop_last(), Field::Temperature) + t) == (n - 1) * sum_field(
            s.drop_last(),
            Field::Temperature,
        ) + (n - 1) * t) by (nonlinear_arith);
    }
}

/// Summary of the measurements of one location. Means are exact
/// fractions: the sum over the number of samples.
pub struct ProcessedData {
    pub location: String,
    pub average_temperature: Ratio,
    pub max_temperature: i32,
    pub min_temperature: i32,
    pub temperature_trend: Ratio,
    pub humidity_average: Ratio,
    pub pressure_average: Ratio,
    pub wind_average: Ratio,
    pub precipitation_total: i128,
    pub data_points: usize,
}

/// `r` is the mean of one quantity over the non-empty sequence `s`.
pub open spec fn is_mean(r: Ratio, s: Seq<WeatherDataPoint>, f: Field) -> bool {
    r.numerator == sum_field(s, f) && r.denominator == s.len()
}

/// `r` is the summary of the non-empty sequence `s`.
pub open spec fn summarizes(r: ProcessedData, s: Seq<WeatherDataPoint>) -> bool {
    &&& r.location@ == s[0].location@
    &&& r.data_points == s.len()
    &&& is_mean(r.average_temperature, s, Field::Temperature)
    &&& r.max_temperature == max_temp(s)
    &&& r.min_temperature == min_temp(s)
    &&& is_trend(r.temperature_trend, s)
    &&& is_mean(r.humidity_average, s, Field::Humidity)
    &&& is_mean(r.pressure_average, s, Field::Pressure)
    &&& is_mean(r.wind_average, s, Field::WindSpeed)
    &&& r.precipitation_total == sum_field(s, Field::Precipitation)
}

proof fn lemma_prefix_step(s: Seq<WeatherDataPoint>, i: int)
    requires
        0 <= i < s.len(),
    ensures
        s.take(i + 1).drop_last() == s.take(i),
        s.take(i + 1).last() == s[i],
        s.take(i + 1).len() == i + 1,
{
    assert(s.take(i + 1).drop_last() =~= s.take(i));
}

/// Least-squares slope of temperature against the zero-based sample index,
/// as an exact fraction; zero below two samples.
pub fn calculate_trend(data: &Vec<WeatherDataPoint>) -> (r: Ratio)
    requires
        data.len() <= MAX_POINTS,
    ensures
        is_trend(r, data@),
{
    let n = data.len();
    if n < 2 {
        return Ratio { numerator: 0, denominator: 1 };
    }
    let nn = n as i128;
    let mut c: i128 = 0;
    let mut i: usize = 0;
    while i < n
        invariant
            n == data.len(),
            nn == n,
            2 <= n <= MAX_POINTS,
            0 <= i <= n,
            c == centered_sum(data@.take(i as int), n as int),
            -(i * n * field_bound()) <= c <= i * n * field_bound(),
        decreases n - i,
    {
        proof {
            lemma_prefix_step(data@, i as int);
        }
        let t = data[i].temperature as i128;
        let w = 2 * (i as i128) - (nn - 1);
        proof {
            let k = i as int;
            let ti = t as int;
            let m = n as int;
            assert(-m <= w <= m);
            assert(-(m * field_bound()) <= w * ti <= m * field_bound()) by (nonlinear_arith)
                requires
                    -m <= w <= m,
                    -field_bound() <= ti <= field_bound(),
            ;
            assert(-((k + 1) * m * field_bound()) <= c + w * ti <= (k + 1) * m * field_bound()) by (nonlinear_arith)
                requires
                    -(k * m * field_bound()) <= c <= k * m * field_bound(),
                    -(m * field_bound()) <= w * ti <= m * field_bound(),
            ;
            assert((k + 1) * m * field_bound() <= 0x100_0000_0000 * 0x100_0000_0000 * field_bound()) by (nonlinear_arith)
                requires
                    0 <= k + 1 <= m,
                    m <= 0x100_0000_0000,
                    field_bound() > 0,
            ;
        }
        c = c + w * t;
        i = i + 1;
    }
    proof {
        assert(data@.take(n as int) =~= data@);
        let m = n as int;
        let s = data@;
        lemma_centered_sum(s, m);
        lemma_sum_index_closed(s.len());
        lemma_trend_denominator_positive(s.len());
        let sx = sum_index(s.len());
        let w = sum_index_weighted(s);
        let y = sum_field(s, Field::Temperature);
        assert(2 * trend_numerator(s) == m * c) by (nonlinear_arith)
            requires
                trend_numerator(s) == m * w - sx * y,
                2 * sx == m * (m - 1),
                c == 2 * w - (m - 1) * y,
        ;
        let d = trend_denominator(s.len());
        assert((6 * c) * d == trend_numerator(s) * (m * (m - 1) * (m + 1))) by (nonlinear_arith)
            requires
                2 * trend_numerator(s) == m * c,
                12 * d == m * m * (m - 1) * (m + 1),
        ;
        assert(-(m * m * field_bound()) <= c <= m * m * field_bound());
        assert(m * m * field_bound() <= 0x100_0000_0000 * 0x100_0000_0000 * 0x8000_0000) by (nonlinear_arith)
            requires
                0 <= m <= 0x100_0000_0000,
                field_bound() == 0x8000_0000,
        ;
        assert(0 < m * (m - 1) * (m + 1) <= 0x100_0000_0000 * 0x100_0000_0000 * 0x100_0000_0000) by (nonlinear_arith)
            requires
                2 <= m <= 0x100_0000_0000,
        ;
    }
    proof {
        let m = n as int;
        assert(0 < m * (m - 1) <= 0x100_0000_0000 * 0x100_0000_0000) by (nonlinear_arith)
            requires
                2 <= m <= 0x100_0000_0000,
        ;
    }
    let pairs = nn * (nn - 1);
    Ratio { numerator: 6 * c, denominator: pairs * (nn + 1) }
}

/// Summary of a non-empty sequence of measurements: the exact means,
/// extremes, slope and precipitation total.
pub fn summarize_points(data: &Vec<WeatherDataPoint>) -> (r: ProcessedData)
    requires
        1 <= data.len() <= MAX_POINTS,
    ensures
        summarizes(r, data@),
        r.min_temperature * r.average_temperature.denominator <= r.average_temperature.numerator
            <= r.max_temperature * r.average_temperature.denominator,
{
    let n = data.len();
    let mut st: i128 = data[0].temperature as i128;
    let mut sh: i128 = data[0].humidity as i128;
    let mut sp: i128 = data[0].pressure as i128;
    let mut sw: i128 = data[0].wind_speed as i128;
    let mut sr: i128 = data[0].precipitation as i128;
    let mut mx: i32 = data[0].temperature;
    let mut mn: i32 = data[0].temperature;
    proof {
        lemma_prefix_step(data@, 0);
        let z = data@.take(0);
        assert(sum_field(z, Field::Temperature) == 0);
        assert(sum_field(z, Field::Humidity) == 0);
        assert(sum_field(z, Field::Pressure) == 0);
        assert(sum_field(z, Field::WindSpeed) == 0);
        assert(sum_field(z, Field::Precipitation) == 0);
    }
    let mut i: usize = 1;
    while i < n
        invariant
            n == data.len(),
            1 <= n <= MAX_POINTS,
            1 <= i <= n,
            st == sum_field(data@.take(i as int), Field::Temperature),
            sh == sum_field(data@.take(i as int), Field::Humidity),
            sp == sum_field(data@.take(i as int), Field::Pressure),
            sw == sum_field(data@.take(i as int), Field::WindSpeed),
            sr == sum_field(data@.take(i as int), Field::Precipitation),
            mx == max_temp(data@.take(i as int)),
            mn == min_temp(data@.take(i as int)),
        decreases n - i,
    {
        proof {
            lemma_prefix_step(data@, i as int);
            let pre = data@.take(i as int);
            lemma_sum_bound(pre, Field::Temperature);
            lemma_sum_bound(pre, Field::Humidity);
            lemma_sum_bound(pre, Field::Pressure);
            lemma_sum_bound(pre, Field::WindSpeed);
            lemma_sum_bound(pre, Field::Precipitation);
        }
        let p = &data[i];
        st = st + p.temperature as i128;
        sh = sh + p.humidity as i128;
        sp = sp + p.pressure as i128;
        sw = sw + p.wind_speed as i128;
        sr = sr + p.precipitation as i128;
        if p.temperature > mx {
            mx = p.temperature;
        }
        if p.temperature < mn {
            mn = p.temperature;
        }
        i = i + 1;
    }
    proof {
        assert(data@.take(n as int) =~= data@);
        lemma_sum_between_extremes(data@);
        let m = n as int;
        assert(mn * m == m * mn && mx * m == m * mx) by (nonlinear_arith);
    }
    let trend = calculate_trend(data);
    let count = n as i128;
    ProcessedData {
        location: data[0].location.clone(),
        average_temperature: Ratio { numerator: st, denominator: count },
        max_temperature: mx,
        min_temperature: mn,
        temperature_trend: trend,
        humidity_average: Ratio { numerator: sh, denominator: count },
        pressure_average: Ratio { numerator: sp, denominator: count },
        wind_average: Ratio { numerator: sw, denominator: count },
        precipitation_total: sr,
        data_points: n,
    }
}

} // verus!
