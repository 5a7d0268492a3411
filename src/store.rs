use vstd::prelude::*;
use crate::analysis::{anomalies, find_anomalies_in, MIN_ANOMALY_SAMPLES};
use crate::csv::{csv_text, export_to_csv};
use crate::interpolate::{copy_points, fill_gaps, gaps_bounded, interpolate_points, sorted_by_time, stable_sort_by_time};
use crate::point::{WeatherDataPoint, MAX_POINTS};
use crate::stats::{summarize_points, summarizes, ProcessedData};

verus! {

/// The measurements of one location, in order of arrival.
pub struct LocationSeries {
    pub location: String,
    pub points: Vec<WeatherDataPoint>,
}

/// Text formats a location's measurements can be exported in.
#[derive(Clone, Copy, Debug, PartialEq, Eq, Structural)]
pub enum ExportFormat {
    Json,
    Csv,
}

/// Counters kept over the summaries computed by a processor.
#[derive(Clone, Copy, Debug)]
pub struct ProcessingStats {
    pub total_processed: u64,
    /// Blended processing time in nanoseconds: each new duration is averaged
    /// with the previous value, so older durations weigh half as much each time.
    pub average_processing_time: u64,
    /// Caller-supplied time of the last update.
    pub last_update: u64,
}

/// Measurements per location, and processing counters.
pub struct DataProcessor {
    series: Vec<LocationSeries>,
    stats: ProcessingStats,
}

/// A location key with its measurements.
pub type SeriesView = Seq<(Seq<char>, Seq<WeatherDataPoint>)>;

pub open spec fn has_location(v: SeriesView, loc: Seq<char>) -> bool {
    exists|i: int| 0 <= i < v.len() && #[trigger] v[i].0 == loc
}

pub open spec fn index_of(v: SeriesView, loc: Seq<char>) -> int {
    choose|i: int| 0 <= i < v.len() && #[trigger] v[i].0 == loc
}

/// The measurements stored for `loc`; empty for an unknown location.
pub open spec fn series_of(v: SeriesView, loc: Seq<char>) -> Seq<WeatherDataPoint> {
    if has_location(v, loc) {
        v[index_of(v, loc)].1
    } else {
        Seq::empty()
    }
}

/// One entry per location, at most `MAX_POINTS` points each, every point
/// filed under its own location.
pub open spec fn series_wf(v: SeriesView) -> bool {
    &&& forall|i: int, j: int| 0 <= i < v.len() && 0 <= j < v.len() && #[trigger] v[i].0 == #[trigger] v[j].0 ==> i == j
    &&& forall|i: int| 0 <= i < v.len() ==> #[trigger] v[i].1.len() <= MAX_POINTS
    &&& forall|i: int, k: int| 0 <= i < v.len() && 0 <= k < v[i].1.len() ==> (#[trigger] v[i].1[k]).location@ == v[i].0
}

/// The store after `p` is appended: a new series for an unknown location,
/// the point added at the end of a known one unless that one is full.
pub open spec fn after_append(v: SeriesView, p: WeatherDataPoint) -> SeriesView {
    let loc = p.location@;
    if has_location(v, loc) {
        let i = index_of(v, loc);
        if v[i].1.len() < MAX_POINTS {
            v.update(i, (loc, v[i].1.push(p)))
        } else {
            v
        }
    } else {
        v.push((loc, seq![p]))
    }
}

/// The store after the points of `ps` are appended in order.
pub open spec fn after_batch(v: SeriesView, ps: Seq<WeatherDataPoint>) -> SeriesView
    decreases ps.len(),
{
    if ps.len() == 0 {
        v
    } else {
        after_append(after_batch(v, ps.drop_last()), ps.last())
    }
}

/// How many points of `ps` are refused, appended in order to `v`, because
/// their location is already full.
pub open spec fn batch_refusals(v: SeriesView, ps: Seq<WeatherDataPoint>) -> int
    decreases ps.len(),
{
    if ps.len() == 0 {
        0
    } else {
        let before = after_batch(v, ps.drop_last());
        batch_refusals(v, ps.drop_last()) + if series_of(before, ps.last().location@).len() < MAX_POINTS {
            0int
        } else {
            1int
        }
    }
}

/// `p` is younger than `max_age` seconds at time `now`.
pub open spec fn is_recent(p: WeatherDataPoint, now: int, max_age: int) -> bool {
    now - p.timestamp < max_age
}

/// The points of `s` younger than `max_age` seconds at `now`, in order.
pub open spec fn retained(s: Seq<WeatherDataPoint>, now: int, max_age: int) -> Seq<WeatherDataPoint>
    decreases s.len(),
{
    if s.len() == 0 {
        s
    } else {
        let r = retained(s.drop_last(), now, max_age);
        if is_recent(s.last(), now, max_age) {
            r.push(s.last())
        } else {
            r
        }
    }
}

proof fn lemma_retained_keeps(s: Seq<WeatherDataPoint>, now: int, max_age: int, loc: Seq<char>)
    requires
        forall|k: int| 0 <= k < s.len() ==> (#[trigger] s[k]).location@ == loc,
    ensures
        retained(s, now, max_age).len() <= s.len(),
        forall|k: int| 0 <= k < retained(s, now, max_age).len() ==> (#[trigger] retained(s, now, max_age)[k]).location@
            == loc,
    decreases s.len(),
{
    if s.len() > 0 {
        let d = s.drop_last();
        assert forall|k: int| 0 <= k < d.len() implies (#[trigger] d[k]).location@ == loc by {
            assert(d[k] == s[k]);
        }
        lemma_retained_keeps(d, now, max_age, loc);
        let r = retained(s, now, max_age);
        let p = retained(d, now, max_age);
        assert forall|k: int| 0 <= k < r.len() implies (#[trigger] r[k]).location@ == loc by {
            if k < p.len() {
                assert(r[k] == p[k]);
            } else {
                assert(r[k] == s[s.len() - 1]);
            }
        }
    }
}

impl View for DataProcessor {
    type V = SeriesView;

    closed spec fn view(&self) -> SeriesView {
        Seq::new(self.series@.len(), |i: int| (self.series@[i].location@, self.series@[i].points@))
    }
}

impl DataProcessor {
    /// Keys are unique, every point is filed under its own location, and no
    /// location holds more than `MAX_POINTS` points.
    pub open spec fn wf(&self) -> bool {
        series_wf(self@)
    }

    pub closed spec fn stats_view(&self) -> ProcessingStats {
        self.stats
    }

    pub fn new() -> (r: DataProcessor)
        ensures
            r.wf(),
            r@ == Seq::<(Seq<char>, Seq<WeatherDataPoint>)>::empty(),
            r.stats_view() == (ProcessingStats { total_processed: 0, average_processing_time: 0, last_update: 0 }),
    {
        let r = DataProcessor {
            series: Vec::new(),
            stats: ProcessingStats { total_processed: 0, average_processing_time: 0, last_update: 0 },
        };
        proof {
            assert(r@ =~= Seq::<(Seq<char>, Seq<WeatherDataPoint>)>::empty());
        }
        r
    }

    fn find(&self, location: &String) -> (r: Option<usize>)
        requires
            self.wf(),
        ensures
            match r {
                Some(i) => i < self@.len() && self@[i as int].0 == location@ && has_location(self@, location@)
                    && index_of(self@, location@) == i,
                None => !has_location(self@, location@),
            },
    {
        let mut i: usize = 0;
        while i < self.series.len()
            invariant
                self.wf(),
                0 <= i <= self.series@.len(),
                self@.len() == self.series@.len(),
                forall|j: int| 0 <= j < i ==> self@[j].0 != location@,
            decreases self.series@.len() - i,
        {
            if self.series[i].location == *location {
                proof {
                    let w = self@;
                    assert(w[i as int].0 == location@);
                    assert(has_location(w, location@));
                    let c = index_of(w, location@);
                    assert(0 <= c < w.len() && w[c].0 == location@);
                    assert(series_wf(w));
                    assert(w[c].0 == w[i as int].0);
                }
                return Some(i);
            }
            i = i + 1;
        }
        None
    }

    /// A copy of the measurements of `location`, if it is known.
    pub fn snapshot(&self, location: &String) -> (r: Option<Vec<WeatherDataPoint>>)
        requires
            self.wf(),
        ensures
            match r {
                Some(v) => has_location(self@, location@) && v@ == series_of(self@, location@),
                None => !has_location(self@, location@),
            },
    {
        match self.find(location) {
            Some(i) => Some(copy_points(&self.series[i].points)),
            None => None,
        }
    }

    /// Files `point` under its location. Returns false, and keeps the store
    /// as it was, when that location already holds `MAX_POINTS` points.
    pub fn add_data_point(&mut self, point: WeatherDataPoint) -> (r: bool)
        requires
            old(self).wf(),
        ensures
            final(self).wf(),
            final(self)@ == after_append(old(self)@, point),
            r == (series_of(old(self)@, point.location@).len() < MAX_POINTS),
            final(self).stats_view() == old(self).stats_view(),
    {
        let ghost v = self@;
        let ghost loc = point.location@;
        match self.find(&point.location) {
            Some(i) => {
                if self.series[i].points.len() as u64 >= MAX_POINTS {
                    return false;
                }
                let mut entry = self.series.remove(i);
                entry.points.push(point);
                self.series.insert(i, entry);
                proof {
                    assert(self@ =~= v.update(i as int, (loc, v[i as int].1.push(point))));
                    let w = self@;
                    assert forall|a: int, k: int| 0 <= a < w.len() && 0 <= k < w[a].1.len() implies (
                    #[trigger] w[a].1[k]).location@ == w[a].0 by {
                        if a == i {
                            if k < v[a].1.len() {
                                assert(w[a].1[k] == v[a].1[k]);
                            }
                        }
                    }
                }
                true
            },
            None => {
                let key = point.location.clone();
                let mut points: Vec<WeatherDataPoint> = Vec::new();
                points.push(point);
                self.series.push(LocationSeries { location: key, points });
                proof {
                    assert(self@ =~= v.push((loc, seq![point])));
                    let w = self@;
                    assert forall|a: int, b: int| 0 <= a < w.len() && 0 <= b < w.len() && #[trigger] w[a].0
                        == #[trigger] w[b].0 implies a == b by {
                        if a == v.len() && b < v.len() {
                            assert(v[b].0 == loc);
                        }
                        if b == v.len() && a < v.len() {
                            assert(v[a].0 == loc);
                        }
                    }
                }
                true
            },
        }
    }

    /// Appends the points in order, as repeated `add_data_point` calls would;
    /// returns how many were refused because their location was full.
    pub fn add_batch_data(&mut self, points: Vec<WeatherDataPoint>) -> (r: usize)
        requires
            old(self).wf(),
        ensures
            final(self).wf(),
            final(self)@ == after_batch(old(self)@, points@),
            r == batch_refusals(old(self)@, points@),
            final(self).stats_view() == old(self).stats_view(),
    {
        let ghost v0 = self@;
        let ghost ps = points@;
        let mut refused: usize = 0;
        let mut rest = points;
        let mut taken: Vec<WeatherDataPoint> = Vec::new();
        // process in order: reverse once, then pop from the back
        let n = rest.len();
        let mut k: usize = 0;
        while k < n
            invariant
                n == ps.len(),
                0 <= k <= n,
                rest@ == ps.take(n - k),
                taken@ == ps.skip(n - k).reverse(),
            decreases n - k,
        {
            let p = rest.pop().unwrap();
            taken.push(p);
            proof {
                assert(rest@ =~= ps.take(n - k - 1));
                assert(taken@ =~= ps.skip(n - k - 1).reverse());
            }
            k = k + 1;
        }
        let mut done: usize = 0;
        while done < n
            invariant
                n == ps.len(),
                0 <= done <= n,
                refused == batch_refusals(v0, ps.take(done as int)),
                refused <= done,
                taken@ == ps.skip(done as int).reverse(),
                self.wf(),
                self@ == after_batch(v0, ps.take(done as int)),
                self.stats_view() == old(self).stats_view(),
            decreases n - done,
        {
            let p = taken.pop().unwrap();
            proof {
                assert(p == ps[done as int]);
                assert(taken@ =~= ps.skip(done + 1).reverse());
                assert(ps.take(done + 1).drop_last() =~= ps.take(done as int));
            }
            if !self.add_data_point(p) {
                refused = refused + 1;
            }
            done = done + 1;
        }
        proof {
            assert(ps.take(n as int) =~= ps);
        }
        refused
    }

    /// Summary of the measurements of `location`; none when it is unknown
    /// or holds no measurement.
    pub fn process_location_data(&self, location: &String) -> (r: Option<ProcessedData>)
        requires
            self.wf(),
        ensures
            match r {
                Some(d) => series_of(self@, location@).len() >= 1 && summarizes(d, series_of(self@, location@))
                    && d.min_temperature * d.average_temperature.denominator <= d.average_temperature.numerator
                    <= d.max_temperature * d.average_temperature.denominator,
                None => series_of(self@, location@).len() == 0,
            },
    {
        match self.find(location) {
            Some(i) => {
                proof {
                    assert(self@[i as int].1 == self.series@[i as int].points@);
                }
                if self.series[i].points.len() == 0 {
                    None
                } else {
                    Some(summarize_points(&self.series[i].points))
                }
            },
            None => None,
        }
    }

    /// Counts one more summary, blends `elapsed_nanos` into the average
    /// processing time, and stores `now` as the time of the last update.
    pub fn record_processing(&mut self, elapsed_nanos: u64, now: u64)
        requires
            old(self).wf(),
        ensures
            final(self).wf(),
            final(self)@ == old(self)@,
            final(self).stats_view().total_processed == if old(self).stats_view().total_processed == u64::MAX {
                u64::MAX as int
            } else {
                old(self).stats_view().total_processed + 1
            },
            final(self).stats_view().average_processing_time == (old(self).stats_view().average_processing_time
                + elapsed_nanos) / 2,
            final(self).stats_view().last_update == now,
    {
        if self.stats.total_processed < u64::MAX {
            self.stats.total_processed = self.stats.total_processed + 1;
        }
        self.stats.average_processing_time = ((self.stats.average_processing_time as u128 + elapsed_nanos as u128)
            / 2) as u64;
        self.stats.last_update = now;
    }

    pub fn get_processing_stats(&self) -> (r: ProcessingStats)
        ensures
            r == self.stats_view(),
    {
        self.stats
    }

    /// Drops, at every location, the points that are `max_age_seconds` old or
    /// older at time `now`.
    pub fn clear_old_data(&mut self, max_age_seconds: i64, now: i64)
        requires
            old(self).wf(),
        ensures
            final(self).wf(),
            final(self)@.len() == old(self)@.len(),
            forall|i: int| 0 <= i < old(self)@.len() ==> (#[trigger] final(self)@[i]).0 == old(self)@[i].0
                && final(self)@[i].1 == retained(old(self)@[i].1, now as int, max_age_seconds as int),
            final(self).stats_view() == old(self).stats_view(),
    {
        let ghost v = self@;
        let n = self.series.len();
        let mut i: usize = 0;
        while i < n
            invariant
                n == self.series@.len(),
                n == v.len(),
                0 <= i <= n,
                series_wf(v),
                self.stats_view() == old(self).stats_view(),
                forall|j: int| 0 <= j < n ==> (#[trigger] self@[j]).0 == v[j].0,
                forall|j: int| 0 <= j < i ==> (#[trigger] self@[j]).1 == retained(v[j].1, now as int, max_age_seconds as int),
                forall|j: int| i <= j < n ==> (#[trigger] self@[j]).1 == v[j].1,
            decreases n - i,
        {
            let ghost before = self@;
            let mut entry = self.series.remove(i);
            let kept = retain_recent(&entry.points, now, max_age_seconds);
            entry.points = kept;
            self.series.insert(i, entry);
            proof {
                assert(self@ =~= before.update(i as int, (before[i as int].0, retained(before[i as int].1, now as int,
                    max_age_seconds as int))));
            }
            i = i + 1;
        }
        proof {
            let w = self@;
            assert forall|a: int, k: int| 0 <= a < w.len() && 0 <= k < w[a].1.len() implies (
            #[trigger] w[a].1[k]).location@ == w[a].0 by {
                assert forall|m: int| 0 <= m < v[a].1.len() implies (#[trigger] v[a].1[m]).location@ == v[a].0 by {}
                lemma_retained_keeps(v[a].1, now as int, max_age_seconds as int, v[a].0);
            }
            assert forall|a: int| 0 <= a < w.len() implies #[trigger] w[a].1.len() <= MAX_POINTS by {
                assert forall|m: int| 0 <= m < v[a].1.len() implies (#[trigger] v[a].1[m]).location@ == v[a].0 by {}
                lemma_retained_keeps(v[a].1, now as int, max_age_seconds as int, v[a].0);
            }
            assert forall|a: int, b: int| 0 <= a < w.len() && 0 <= b < w.len() && #[trigger] w[a].0
                == #[trigger] w[b].0 implies a == b by {
                assert(v[a].0 == v[b].0);
            }
        }
    }

    /// How many measurements each location holds, in the store's order.
    pub fn get_location_summary(&self) -> (r: Vec<(String, usize)>)
        ensures
            r@.len() == self@.len(),
            forall|i: int| 0 <= i < r@.len() ==> (#[trigger] r@[i]).0@ == self@[i].0 && r@[i].1 == self@[i].1.len(),
    {
        let mut out: Vec<(String, usize)> = Vec::new();
        let n = self.series.len();
        let mut i: usize = 0;
        while i < n
            invariant
                n == self.series@.len(),
                n == self@.len(),
                0 <= i <= n,
                out@.len() == i,
                forall|j: int| 0 <= j < i ==> (#[trigger] out@[j]).0@ == self@[j].0 && out@[j].1 == self@[j].1.len(),
            decreases n - i,
        {
            let entry = &self.series[i];
            out.push((entry.location.clone(), entry.points.len()));
            i = i + 1;
        }
        out
    }

    /// Points of `location` whose temperature deviates from the mean by more
    /// than `threshold / 100` standard deviations; empty for an unknown
    /// location or one with fewer than ten points.
    pub fn find_anomalies(&self, location: &String, threshold: i32) -> (r: Vec<WeatherDataPoint>)
        requires
            self.wf(),
        ensures
            r@ == anomalies(series_of(self@, location@), threshold as int),
            series_of(self@, location@).len() < MIN_ANOMALY_SAMPLES ==> r@.len() == 0,
    {
        match self.find(location) {
            Some(i) => {
                proof {
                    assert(self@[i as int].1 == self.series@[i as int].points@);
                }
                find_anomalies_in(&self.series[i].points, threshold)
            },
            None => Vec::new(),
        }
    }

    /// The measurements of `location` as CSV; none when it is unknown.
    pub fn export_csv(&self, location: &String) -> (r: Option<String>)
        requires
            self.wf(),
        ensures
            match r {
                Some(t) => has_location(self@, location@) && t@ == csv_text(series_of(self@, location@)),
                None => !has_location(self@, location@),
            },
    {
        match self.find(location) {
            Some(i) => {
                proof {
                    assert(self@[i as int].1 == self.series@[i as int].points@);
                }
                Some(export_to_csv(&self.series[i].points))
            },
            None => None,
        }
    }

    /// The points of `location` sorted by time with hourly gaps filled; empty
    /// for an unknown location.
    pub fn interpolate_missing_data(&self, location: &String) -> (r: Vec<WeatherDataPoint>)
        requires
            self.wf(),
        ensures
            sorted_by_time(r@),
            r@.len() >= series_of(self@, location@).len(),
            series_of(self@, location@).len() < 2 ==> r@ == series_of(self@, location@),
            series_of(self@, location@).len() >= 2 ==> r@ == fill_gaps(stable_sort_by_time(series_of(self@, location@))),
            series_of(self@, location@).len() >= 2 ==> gaps_bounded(r@),
    {
        match self.find(location) {
            Some(i) => interpolate_points(&self.series[i].points),
            None => Vec::new(),
        }
    }
}

/// The points younger than `max_age` seconds at time `now`, in order.
pub fn retain_recent(points: &Vec<WeatherDataPoint>, now: i64, max_age: i64) -> (r: Vec<WeatherDataPoint>)
    ensures
        r@ == retained(points@, now as int, max_age as int),
{
    let n = points.len();
    let mut out: Vec<WeatherDataPoint> = Vec::new();
    let mut i: usize = 0;
    while i < n
        invariant
            n == points@.len(),
            0 <= i <= n,
            out@ == retained(points@.take(i as int), now as int, max_age as int),
        decreases n - i,
    {
        proof {
            assert(points@.take(i + 1).drop_last() =~= points@.take(i as int));
        }
        let p = &points[i];
        if (now as i128) - (p.timestamp as i128) < max_age as i128 {
            out.push(p.duplicate());
        }
        i = i + 1;
    }
    proof {
        assert(points@.take(n as int) =~= points@);
    }
    out
}

} // verus!
