use vstd::prelude::*;
use crate::arith::floor_div;
use crate::point::WeatherDataPoint;
use crate::stats::lemma_mean_between;

verus! {

/// Seconds in the interpolation step.
pub const HOUR_SECONDS: i64 = 3600;

pub open spec fn sorted_by_time(s: Seq<WeatherDataPoint>) -> bool {
    forall|i: int, j: int| 0 <= i <= j < s.len() ==> #[trigger] s[i].timestamp <= #[trigger] s[j].timestamp
}

/// The value `offset` seconds into a span of `span` seconds from `a` to `b`:
/// `a + offset * (b - a) / span`, the quotient rounded down.
pub open spec fn lerp(a: int, b: int, offset: int, span: int) -> int {
    a + (offset * (b - a)) / span
}

/// Number of whole hours strictly between two measurements, counted from `a`.
pub open spec fn hour_steps(a: WeatherDataPoint, b: WeatherDataPoint) -> int {
    if b.timestamp - a.timestamp > 3600 {
        (b.timestamp - a.timestamp - 1) / 3600
    } else {
        0
    }
}

/// The point `step` hours after `a` on the way to `b`: every quantity but the
/// wind direction (kept from `a`) and precipitation (zero) is linear in time.
pub open spec fn interpolated_point(a: WeatherDataPoint, b: WeatherDataPoint, step: int) -> WeatherDataPoint {
    let span = b.timestamp - a.timestamp;
    let offset = step * 3600;
    WeatherDataPoint {
        timestamp: (a.timestamp + offset) as i64,
        location: a.location,
        temperature: lerp(a.temperature as int, b.temperature as int, offset, span) as i32,
        humidity: lerp(a.humidity as int, b.humidity as int, offset, span) as i32,
        pressure: lerp(a.pressure as int, b.pressure as int, offset, span) as i32,
        wind_speed: lerp(a.wind_speed as int, b.wind_speed as int, offset, span) as i32,
        wind_direction: a.wind_direction,
        precipitation: 0,
    }
}

/// The points inserted between `a` and `b`: one at every whole hour after `a`
/// that comes before `b`.
pub open spec fn gap_points(a: WeatherDataPoint, b: WeatherDataPoint) -> Seq<WeatherDataPoint> {
    Seq::new(hour_steps(a, b) as nat, |j: int| interpolated_point(a, b, j + 1))
}

/// The first `k` points of `s`, each followed by the points filling the gap to its successor.
pub open spec fn filled_prefix(s: Seq<WeatherDataPoint>, k: nat) -> Seq<WeatherDataPoint>
    decreases k,
{
    if k == 0 {
        Seq::empty()
    } else {
        filled_prefix(s, (k - 1) as nat) + seq![s[k - 1]] + gap_points(s[k - 1], s[k as int])
    }
}

/// `s` with every gap of more than an hour filled at hourly steps.
pub open spec fn fill_gaps(s: Seq<WeatherDataPoint>) -> Seq<WeatherDataPoint> {
    if s.len() < 2 {
        s
    } else {
        filled_prefix(s, (s.len() - 1) as nat).push(s.last())
    }
}

/// `sorted` with `p` placed after every point whose timestamp is not later.
pub open spec fn insert_by_time(sorted: Seq<WeatherDataPoint>, p: WeatherDataPoint) -> Seq<WeatherDataPoint>
    decreases sorted.len(),
{
    if sorted.len() == 0 || sorted.last().timestamp <= p.timestamp {
        sorted.push(p)
    } else {
        insert_by_time(sorted.drop_last(), p).push(sorted.last())
    }
}

/// The stable sort of `s` by timestamp: points with equal timestamps keep
/// their order.
pub open spec fn stable_sort_by_time(s: Seq<WeatherDataPoint>) -> Seq<WeatherDataPoint>
    decreases s.len(),
{
    if s.len() == 0 {
        s
    } else {
        insert_by_time(stable_sort_by_time(s.drop_last()), s.last())
    }
}

/// Relies on `slice::sort_by_key`: a stable sort, after which the keys never
/// decrease, the elements are those that were there before, and elements
/// with equal keys keep their order.
#[verifier::external_body]
fn sort_by_timestamp(v: &mut Vec<WeatherDataPoint>)
    ensures
        final(v)@.to_multiset() == old(v)@.to_multiset(),
        sorted_by_time(final(v)@),
        final(v)@ == stable_sort_by_time(old(v)@),
{
    v.sort_by_key(|d| d.timestamp);
}

fn lerp_field(a: i32, b: i32, offset: i128, span: i128) -> (r: i32)
    requires
        0 < offset < span <= 0x1_0000_0000_0000_0000,
    ensures
        r == lerp(a as int, b as int, offset as int, span as int),
{
    let d = b as i128 - a as i128;
    proof {
        let di = d as int;
        assert(-0x1_0000_0000_0000_0000_0000_0000 <= offset * di <= 0x1_0000_0000_0000_0000_0000_0000)
            by (nonlinear_arith)
            requires
                0 < offset <= 0x1_0000_0000_0000_0000,
                -0x1_0000_0000 <= di <= 0x1_0000_0000,
        ;
        if di >= 0 {
            assert(span * 0 <= offset * di <= span * di) by (nonlinear_arith)
                requires
                    0 < offset < span,
                    di >= 0,
            ;
            lemma_mean_between(offset * di, span as int, 0, di);
        } else {
            assert(span * di <= offset * di <= span * 0) by (nonlinear_arith)
                requires
                    0 < offset < span,
                    di < 0,
            ;
            lemma_mean_between(offset * di, span as int, di, 0);
        }
    }
    let q = floor_div(offset * d, span);
    (a as i128 + q) as i32
}

fn interpolate_between(a: &WeatherDataPoint, b: &WeatherDataPoint, step: i128, count: i128) -> (r:
    WeatherDataPoint)
    requires
        1 <= step <= count,
        count == hour_steps(*a, *b),
        b.timestamp - a.timestamp > 3600,
    ensures
        r == interpolated_point(*a, *b, step as int),
{
    let span = b.timestamp as i128 - a.timestamp as i128;
    proof {
        assert(step * 3600 < span) by (nonlinear_arith)
            requires
                step <= count,
                count == (span - 1) / 3600,
                span > 3600,
        ;
    }
    let offset = step * 3600;
    WeatherDataPoint {
        timestamp: (a.timestamp as i128 + offset) as i64,
        location: a.location.clone(),
        temperature: lerp_field(a.temperature, b.temperature, offset, span),
        humidity: lerp_field(a.humidity, b.humidity, offset, span),
        pressure: lerp_field(a.pressure, b.pressure, offset, span),
        wind_speed: lerp_field(a.wind_speed, b.wind_speed, offset, span),
        wind_direction: a.wind_direction,
        precipitation: 0,
    }
}

/// A copy of a sequence of measurements.
pub fn copy_points(data: &Vec<WeatherDataPoint>) -> (r: Vec<WeatherDataPoint>)
    ensures
        r@ == data@,
{
    let n = data.len();
    let mut out: Vec<WeatherDataPoint> = Vec::new();
    let mut k: usize = 0;
    while k < n
        invariant
            n == data.len(),
            0 <= k <= n,
            out@ == data@.take(k as int),
        decreases n - k,
    {
        out.push(data[k].duplicate());
        proof {
            assert(out@ =~= data@.take(k + 1));
        }
        k = k + 1;
    }
    proof {
        assert(data@.take(n as int) =~= data@);
    }
    out
}

/// Copy of `data` with every gap of more than an hour between neighbours
/// filled by interpolated points at hourly steps.
pub fn fill_time_gaps(data: &Vec<WeatherDataPoint>) -> (r: Vec<WeatherDataPoint>)
    ensures
        r@ == fill_gaps(data@),
{
    let n = data.len();
    let mut out: Vec<WeatherDataPoint> = Vec::new();
    if n < 2 {
        return copy_points(data);
    }
    let mut i: usize = 0;
    while i + 1 < n
        invariant
            n == data.len(),
            n >= 2,
            0 <= i < n,
            out@ == filled_prefix(data@, i as nat),
        decreases n - i,
    {
        let a = &data[i];
        let b = &data[i + 1];
        out.push(a.duplicate());
        let ghost base = out@;
        let diff = b.timestamp as i128 - a.timestamp as i128;
        if diff > 3600 {
            let count = (diff - 1) / 3600;
            let mut step: i128 = 1;
            while step <= count
                invariant
                    1 <= step <= count + 1,
                    count == hour_steps(*a, *b),
                    b.timestamp - a.timestamp > 3600,
                    out@ == base + Seq::new((step - 1) as nat, |j: int| interpolated_point(*a, *b, j + 1)),
                decreases count + 1 - step,
            {
                let p = interpolate_between(a, b, step, count);
                out.push(p);
                proof {
                    assert(out@ =~= base + Seq::new(step as nat, |j: int| interpolated_point(*a, *b, j + 1)));
                }
                step = step + 1;
            }
            proof {
                assert(out@ =~= filled_prefix(data@, (i + 1) as nat));
            }
        } else {
            proof {
                assert(gap_points(*a, *b) =~= Seq::<WeatherDataPoint>::empty());
                assert(out@ =~= filled_prefix(data@, (i + 1) as nat));
            }
        }
        i = i + 1;
    }
    out.push(data[n - 1].duplicate());
    out
}

/// The measurements sorted by time, with gaps of more than an hour filled
/// at hourly steps; fewer than two measurements come back as they are.
pub fn interpolate_points(data: &Vec<WeatherDataPoint>) -> (r: Vec<WeatherDataPoint>)
    ensures
        sorted_by_time(r@),
        r@.len() >= data@.len(),
        data.len() < 2 ==> r@ == data@,
        data.len() >= 2 ==> r@ == fill_gaps(stable_sort_by_time(data@)),
        data.len() >= 2 ==> gaps_bounded(r@),
{
    if data.len() < 2 {
        return fill_time_gaps(data);
    }
    let mut sorted = copy_points(data);
    sort_by_timestamp(&mut sorted);
    proof {
        lemma_fill_gaps_sorted(sorted@);
        vstd::seq_lib::to_multiset_len(sorted@);
        vstd::seq_lib::to_multiset_len(data@);
    }
    fill_time_gaps(&sorted)
}

/// Neighbours in `out` lie at most an hour apart.
pub open spec fn gaps_bounded(out: Seq<WeatherDataPoint>) -> bool {
    forall|k: int| 0 <= k < out.len() - 1 ==> #[trigger] out[k + 1].timestamp - out[k].timestamp <= 3600
}

proof fn lemma_concat_sorted(a: Seq<WeatherDataPoint>, b: Seq<WeatherDataPoint>)
    requires
        sorted_by_time(a),
        sorted_by_time(b),
        forall|x: int, y: int| 0 <= x < a.len() && 0 <= y < b.len() ==> #[trigger] a[x].timestamp <= #[trigger] b[y].timestamp,
    ensures
        sorted_by_time(a + b),
{
    let c = a + b;
    assert forall|i: int, j: int| 0 <= i <= j < c.len() implies #[trigger] c[i].timestamp <= #[trigger] c[j].timestamp by {
        if j < a.len() {
            assert(c[i] == a[i] && c[j] == a[j]);
        } else if i >= a.len() {
            assert(c[i] == b[i - a.len()] && c[j] == b[j - a.len()]);
        } else {
            assert(c[i] == a[i] && c[j] == b[j - a.len()]);
        }
    }
}

proof fn lemma_gap_points(a: WeatherDataPoint, b: WeatherDataPoint)
    requires
        a.timestamp <= b.timestamp,
    ensures
        forall|j: int| 0 <= j < gap_points(a, b).len() ==> {
            &&& (#[trigger] gap_points(a, b)[j]).timestamp == a.timestamp + (j + 1) * 3600
            &&& a.timestamp < gap_points(a, b)[j].timestamp < b.timestamp
        },
        sorted_by_time(gap_points(a, b)),
        gap_points(a, b).len() == 0 ==> b.timestamp - a.timestamp <= 3600,
        gap_points(a, b).len() > 0 ==> b.timestamp - gap_points(a, b).last().timestamp <= 3600,
{
    let g = gap_points(a, b);
    let diff = b.timestamp - a.timestamp;
    if diff > 3600 {
        let c = hour_steps(a, b);
        assert(c * 3600 <= diff - 1 && diff - 1 < (c + 1) * 3600 && c >= 1) by (nonlinear_arith)
            requires
                c == (diff - 1) / 3600,
                diff > 3600,
        ;
        assert forall|j: int| 0 <= j < g.len() implies {
            &&& (#[trigger] g[j]).timestamp == a.timestamp + (j + 1) * 3600
            &&& a.timestamp < g[j].timestamp < b.timestamp
        } by {
            assert((j + 1) * 3600 <= c * 3600) by (nonlinear_arith)
                requires
                    j + 1 <= c,
            ;
        }
        assert(g.last() == g[c - 1]);
    }
}

proof fn lemma_filled_prefix(s: Seq<WeatherDataPoint>, k: nat)
    requires
        sorted_by_time(s),
        k < s.len(),
    ensures
        filled_prefix(s, k).len() >= k,
        sorted_by_time(filled_prefix(s, k)),
        gaps_bounded(filled_prefix(s, k)),
        forall|m: int| 0 <= m < filled_prefix(s, k).len() ==> #[trigger] filled_prefix(s, k)[m].timestamp
            <= s[k as int].timestamp,
        k >= 1 ==> s[k as int].timestamp - filled_prefix(s, k).last().timestamp <= 3600,
    decreases k,
{
    if k > 0 {
        let i = k - 1;
        lemma_filled_prefix(s, (k - 1) as nat);
        let f = filled_prefix(s, (k - 1) as nat);
        let a = s[i];
        let b = s[k as int];
        assert(a.timestamp <= b.timestamp);
        lemma_gap_points(a, b);
        let g = gap_points(a, b);
        let head = f + seq![a];
        lemma_concat_sorted(f, seq![a]);
        assert forall|x: int, y: int| 0 <= x < head.len() && 0 <= y < g.len() implies #[trigger] head[x].timestamp
            <= #[trigger] g[y].timestamp by {
            if x < f.len() {
                assert(head[x] == f[x]);
            } else {
                assert(head[x] == a);
            }
        }
        lemma_concat_sorted(head, g);
        let out = head + g;
        assert(out == filled_prefix(s, k));
        assert forall|m: int| 0 <= m < out.len() implies #[trigger] out[m].timestamp <= b.timestamp by {
            if m < f.len() {
                assert(out[m] == f[m]);
            } else if m == f.len() {
                assert(out[m] == a);
            } else {
                assert(out[m] == g[m - f.len() - 1]);
            }
        }
        assert forall|q: int| 0 <= q < out.len() - 1 implies #[trigger] out[q + 1].timestamp - out[q].timestamp
            <= 3600 by {
            if q + 1 < f.len() {
                assert(out[q] == f[q] && out[q + 1] == f[q + 1]);
            } else if q + 1 == f.len() {
                assert(out[q + 1] == a);
                assert(out[q] == f.last());
            } else if q == f.len() {
                assert(out[q] == a && out[q + 1] == g[0]);
            } else {
                assert(out[q] == g[q - f.len() - 1] && out[q + 1] == g[q - f.len()]);
            }
        }
        if g.len() == 0 {
            assert(out.last() == a);
        } else {
            assert(out.last() == g.last());
        }
    }
}

/// Filling the gaps of a time-sorted sequence keeps it sorted, drops no
/// point, and leaves no two neighbours more than an hour apart.
pub proof fn lemma_fill_gaps_sorted(s: Seq<WeatherDataPoint>)
    requires
        sorted_by_time(s),
    ensures
        sorted_by_time(fill_gaps(s)),
        fill_gaps(s).len() >= s.len(),
        s.len() >= 2 ==> gaps_bounded(fill_gaps(s)),
{
    if s.len() >= 2 {
        let k = (s.len() - 1) as nat;
        lemma_filled_prefix(s, k);
        let f = filled_prefix(s, k);
        let last = s[k as int];
        assert(s.last() == last);
        lemma_concat_sorted(f, seq![last]);
        assert(f.push(last) == f + seq![last]);
        let out = f.push(last);
        assert forall|q: int| 0 <= q < out.len() - 1 implies #[trigger] out[q + 1].timestamp - out[q].timestamp
            <= 3600 by {
            if q + 1 < f.len() {
                assert(out[q] == f[q] && out[q + 1] == f[q + 1]);
            } else {
                assert(out[q + 1] == s[k as int]);
                assert(out[q] == f.last());
            }
        }
    }
}

} // verus!
