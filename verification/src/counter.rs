//! In-memory collection of API call metrics and their aggregation.
use vstd::prelude::*;
use vstd::std_specs::iter::IteratorSpec;

verus! {

/// One call of `api` at time `ts` (ms) that took `duration`.
#[derive(Debug, Clone, Default)]
pub struct Metric {
    pub api: String,
    pub ts: i64,
    pub duration: i64,
}

/// A metric as a plain value.
pub struct MetricRecord {
    pub api: Seq<char>,
    pub ts: i64,
    pub duration: i64,
}

impl View for Metric {
    type V = MetricRecord;

    open spec fn view(&self) -> MetricRecord {
        MetricRecord { api: self.api@, ts: self.ts, duration: self.duration }
    }
}

impl Metric {
    /// A copy of this metric.
    pub fn duplicate(&self) -> (m: Self)
        ensures
            m@ == self@,
    {
        Metric { api: self.api.clone(), ts: self.ts, duration: self.duration }
    }

    pub fn new(api: &str, ts: i64, duration: i64) -> (m: Self)
        ensures
            m@ == (MetricRecord { api: api@, ts, duration }),
    {
        Metric { api: api.to_owned(), ts, duration }
    }
}

/// The metrics of `ms` taken in the window `start..=end`, in their order.
pub open spec fn in_window(ms: Seq<MetricRecord>, start: i64, end: i64) -> Seq<MetricRecord>
    decreases ms.len(),
{
    if ms.len() == 0 {
        Seq::empty()
    } else {
        let rest = in_window(ms.drop_last(), start, end);
        if start <= ms.last().ts <= end {
            rest.push(ms.last())
        } else {
            rest
        }
    }
}

/// The metrics of `ms` as plain values.
pub open spec fn records(ms: Seq<Metric>) -> Seq<MetricRecord> {
    ms.map_values(|m: Metric| m@)
}

/// Sum of the durations of `ms`.
pub open spec fn total_duration(ms: Seq<MetricRecord>) -> int
    decreases ms.len(),
{
    if ms.len() == 0 {
        0
    } else {
        total_duration(ms.drop_last()) + ms.last().duration
    }
}

/// Integer division that rounds toward zero, as Rust's `/` on integers.
pub open spec fn div_toward_zero(a: int, b: int) -> int
    recommends
        b > 0,
{
    if a >= 0 {
        a / b
    } else {
        -((-a) / b)
    }
}

/// Metrics kept in memory, grouped by API in the order the APIs were first
/// seen; each API's metrics in the order they were saved.
pub struct MemoryMetricStorage {
    metrics: Vec<(String, Vec<Metric>)>,
}

/// The metrics of one API, as plain values.
pub open spec fn group_view(g: (String, Vec<Metric>)) -> (Seq<char>, Seq<MetricRecord>) {
    (g.0@, records(g.1@))
}

impl View for MemoryMetricStorage {
    type V = Seq<(Seq<char>, Seq<MetricRecord>)>;

    closed spec fn view(&self) -> Seq<(Seq<char>, Seq<MetricRecord>)> {
        groups_view(self.metrics@)
    }
}

/// Groups of metrics as plain values.
pub open spec fn groups_view(gs: Seq<(String, Vec<Metric>)>) -> Seq<(Seq<char>, Seq<MetricRecord>)> {
    gs.map_values(|g: (String, Vec<Metric>)| group_view(g))
}

/// Records `metric` in `groups`: appended to its API's group, or in a new
/// group at the end.
fn save_into(groups_vec: &mut Vec<(String, Vec<Metric>)>, metric: Metric)
    requires
        distinct_apis(groups_view(old(groups_vec)@)),
    ensures
        distinct_apis(groups_view(final(groups_vec)@)),
        groups_view(final(groups_vec)@) == saved(groups_view(old(groups_vec)@), metric@),
{
    let ghost groups = groups_view(groups_vec@);
    let mut i: usize = 0;
    while i < groups_vec.len()
        invariant
            groups_view(groups_vec@) == groups,
            groups == groups_view(old(groups_vec)@),
            distinct_apis(groups),
            i <= groups_vec@.len(),
            forall|j: int| 0 <= j < i ==> groups[j].0 != metric@.api,
        decreases groups_vec@.len() - i,
    {
        if groups_vec[i].0 == metric.api {
            proof {
                assert(groups[i as int].0 == metric@.api);
                assert forall|j: int| 0 <= j < groups.len() && groups[j].0 == metric@.api implies j == i by {
                    if j < i {
                        assert(groups[j].0 != groups[i as int].0);
                    } else if j > i {
                        assert(groups[i as int].0 != groups[j].0);
                    }
                }
            }
            let ghost m = metric@;
            let ghost old_metrics = groups_vec@;
            groups_vec[i].1.push(metric);
            proof {
                assert(groups_vec@.len() == old_metrics.len());
                assert(groups_vec@[i as int].0 == old_metrics[i as int].0);
                assert(groups_vec@[i as int].1@ == old_metrics[i as int].1@.push(metric));
                assert(records(groups_vec@[i as int].1@) =~= records(old_metrics[i as int].1@).push(m));
                assert(forall|j: int| 0 <= j < old_metrics.len() && j != i ==> groups_vec@[j] == old_metrics[j]);
                assert(groups_view(groups_vec@) =~= groups.update(i as int, (m.api, groups[i as int].1.push(m))));
                let c = choose|j: int| 0 <= j < groups.len() && groups[j].0 == m.api;
                assert(0 <= c < groups.len() && groups[c].0 == m.api);
                assert(c == i);
            }
            return;
        }
        i = i + 1;
    }
    let ghost m = metric@;
    let api = metric.api.clone();
    let mut ms = Vec::new();
    ms.push(metric);
    groups_vec.push((api, ms));
    proof {
        assert(records(ms@) =~= seq![m]);
        assert(groups_view(groups_vec@) =~= groups.push((m.api, seq![m])));
    }
}

/// No API appears twice.
pub open spec fn distinct_apis(groups: Seq<(Seq<char>, Seq<MetricRecord>)>) -> bool {
    forall|i: int, j: int| 0 <= i < j < groups.len() ==> groups[i].0 != groups[j].0
}

/// `groups` after saving `m`: appended to its API's group, or in a new
/// group at the end where its API is new.
pub open spec fn saved(groups: Seq<(Seq<char>, Seq<MetricRecord>)>, m: MetricRecord) -> Seq<(Seq<char>, Seq<MetricRecord>)> {
    if exists|i: int| 0 <= i < groups.len() && groups[i].0 == m.api {
        let i = choose|i: int| 0 <= i < groups.len() && groups[i].0 == m.api;
        groups.update(i, (m.api, groups[i].1.push(m)))
    } else {
        groups.push((m.api, seq![m]))
    }
}

/// Each group with only its metrics in the window `start..=end`.
pub open spec fn windowed(groups: Seq<(Seq<char>, Seq<MetricRecord>)>, start: i64, end: i64) -> Seq<(Seq<char>, Seq<MetricRecord>)> {
    groups.map_values(|g: (Seq<char>, Seq<MetricRecord>)| (g.0, in_window(g.1, start, end)))
}

impl MemoryMetricStorage {
    pub fn new() -> (s: Self)
        ensures
            s@ == Seq::<(Seq<char>, Seq<MetricRecord>)>::empty(),
    {
        MemoryMetricStorage { metrics: Vec::new() }
    }

    /// No API appears twice.
    #[verifier::type_invariant]
    closed spec fn apis_distinct(&self) -> bool {
        distinct_apis(groups_view(self.metrics@))
    }

    /// Records `metric` under its API.
    pub fn save(&mut self, metric: Metric)
        ensures
            distinct_apis(final(self)@),
            final(self)@ == saved(old(self)@, metric@),
    {
        proof {
            use_type_invariant(&*self);
        }
        let mut groups: Vec<(String, Vec<Metric>)> = Vec::new();
        std::mem::swap(&mut groups, &mut self.metrics);
        save_into(&mut groups, metric);
        self.metrics = groups;
    }

    /// Every API with its metrics whose time lies in `start..=end`.
    pub fn load_all(&self, start: i64, end: i64) -> (r: Vec<(String, Vec<Metric>)>)
        ensures
            r@.map_values(|g: (String, Vec<Metric>)| group_view(g)) == windowed(self@, start, end),
            r@.len() == self@.len(),
            forall|i: int| 0 <= i < r@.len() ==> #[trigger] group_view(r@[i])
                == (self@[i].0, self@[i].1.filter(ts_within(start, end))),
    {
        let mut out: Vec<(String, Vec<Metric>)> = Vec::new();
        let mut i: usize = 0;
        while i < self.metrics.len()
            invariant
                i <= self.metrics@.len(),
                out@.len() == i,
                forall|j: int| 0 <= j < i ==> #[trigger] group_view(out@[j]) == (self@[j].0, in_window(self@[j].1, start, end)),
            decreases self.metrics@.len() - i,
        {
            let ms = &self.metrics[i].1;
            let mut kept: Vec<Metric> = Vec::new();
            let mut k: usize = 0;
            while k < ms.len()
                invariant
                    k <= ms@.len(),
                    records(kept@) == in_window(records(ms@.take(k as int)), start, end),
                decreases ms@.len() - k,
            {
                let ghost before = records(ms@.take(k as int));
                let ghost after = records(ms@.take(k + 1));
                assert(after.drop_last() =~= before);
                if start <= ms[k].ts && ms[k].ts <= end {
                    let ghost kept0 = kept@;
                    kept.push(ms[k].duplicate());
                    proof {
                        assert(records(kept@) =~= records(kept0).push(ms@[k as int]@));
                    }
                }
                k = k + 1;
            }
            assert(ms@.take(ms@.len() as int) =~= ms@);
            out.push((self.metrics[i].0.clone(), kept));
            i = i + 1;
        }
        proof {
            assert(out@.map_values(|g: (String, Vec<Metric>)| group_view(g)) =~= windowed(self@, start, end));
            assert forall|i: int| 0 <= i < out@.len() implies #[trigger] group_view(out@[i])
                == (self@[i].0, self@[i].1.filter(ts_within(start, end))) by {
                lemma_window_is_filter(self@[i].1, start, end, arbitrary());
            }
        }
        out
    }
}

pub struct AggregateResult {
    pub avg: i64,
}

pub struct DefaultAggregate {
    metrics: Vec<Metric>,
}

impl DefaultAggregate {
    pub fn new(metrics: Vec<Metric>) -> (a: Self)
        ensures
            a.metrics()@ == metrics@,
    {
        DefaultAggregate { metrics }
    }

    pub closed spec fn metrics(&self) -> Vec<Metric> {
        self.metrics
    }

    /// The mean duration, rounded toward zero.
    pub fn aggregate(self) -> (r: AggregateResult)
        requires
            0 < self.metrics()@.len() <= i64::MAX,
            forall|k: int| 0 <= k <= self.metrics()@.len() ==>
                i64::MIN <= #[trigger] total_duration(records(self.metrics()@.take(k))) <= i64::MAX,
        ensures
            r.avg == div_toward_zero(total_duration(records(self.metrics()@)), self.metrics()@.len() as int),
    {
        let ghost ms = records(self.metrics@);
        let mut sum: i64 = 0;
        let mut i: usize = 0;
        while i < self.metrics.len()
            invariant
                i <= self.metrics@.len(),
                ms == records(self.metrics@),
                forall|k: int| 0 <= k <= self.metrics@.len() ==>
                    i64::MIN <= #[trigger] total_duration(records(self.metrics@.take(k))) <= i64::MAX,
                sum == total_duration(records(self.metrics@.take(i as int))),
            decreases self.metrics@.len() - i,
        {
            let ghost before = records(self.metrics@.take(i as int));
            let ghost after = records(self.metrics@.take(i + 1));
            assert(after.drop_last() =~= before);
            assert(after.last() == self.metrics@[i as int]@);
            assert(i64::MIN <= total_duration(after) <= i64::MAX);
            sum = sum + self.metrics[i].duration;
            i = i + 1;
        }
        assert(self.metrics@.take(self.metrics@.len() as int) =~= self.metrics@);
        let n = self.metrics.len() as i64;
        let avg = sum / n;
        AggregateResult { avg }
    }
}

/// The metrics of `ms` whose time lies in `start..=end`, as a predicate.
pub open spec fn ts_within(start: i64, end: i64) -> spec_fn(MetricRecord) -> bool {
    |m: MetricRecord| start <= m.ts <= end
}

/// The window keeps exactly the metrics whose time lies in it, in their
/// order: it is the sequence filtered by that time, and a metric is in it
/// if and only if it was there and its time lies in the window, whatever
/// metrics come before or after it.
pub proof fn lemma_window_is_filter(ms: Seq<MetricRecord>, start: i64, end: i64, m: MetricRecord)
    ensures
        in_window(ms, start, end) == ms.filter(ts_within(start, end)),
        in_window(ms, start, end).contains(m) <==> (ms.contains(m) && start <= m.ts <= end),
    decreases ms.len(),
{
    reveal(Seq::filter);
    if ms.len() > 0 {
        let dl = ms.drop_last();
        lemma_window_is_filter(dl, start, end, m);
        let rest = in_window(dl, start, end);
        assert(ms =~= dl.push(ms.last()));
        assert(ms.contains(m) <==> (dl.contains(m) || m == ms.last())) by {
            if ms.contains(m) {
                let i = choose|i: int| 0 <= i < ms.len() && ms[i] == m;
                if i < ms.len() - 1 {
                    assert(dl[i] == m);
                }
            }
            if dl.contains(m) {
                let i = choose|i: int| 0 <= i < dl.len() && dl[i] == m;
                assert(ms[i] == m);
            }
            if m == ms.last() {
                assert(ms[ms.len() - 1] == m);
            }
        }
        if start <= ms.last().ts <= end {
            assert(rest.push(ms.last()).contains(m) <==> (rest.contains(m) || m == ms.last())) by {
                let r2 = rest.push(ms.last());
                if r2.contains(m) {
                    let i = choose|i: int| 0 <= i < r2.len() && r2[i] == m;
                    if i < rest.len() {
                        assert(rest[i] == m);
                    }
                }
                if rest.contains(m) {
                    let i = choose|i: int| 0 <= i < rest.len() && rest[i] == m;
                    assert(r2[i] == m);
                }
                if m == ms.last() {
                    assert(r2[rest.len() as int] == m);
                }
            }
        }
    }
}

/// What `load_all` gives for each API: the metrics saved under it, filtered
/// by the window; a metric is loaded if and only if it was saved under that
/// API and its time lies in the window.
pub proof fn lemma_load_keeps_window(groups: Seq<(Seq<char>, Seq<MetricRecord>)>, start: i64, end: i64, i: int, m: MetricRecord)
    requires
        0 <= i < groups.len(),
    ensures
        windowed(groups, start, end).len() == groups.len(),
        windowed(groups, start, end)[i].0 == groups[i].0,
        windowed(groups, start, end)[i].1 == groups[i].1.filter(ts_within(start, end)),
        windowed(groups, start, end)[i].1.contains(m) <==> (groups[i].1.contains(m) && start <= m.ts <= end),
{
    lemma_window_is_filter(groups[i].1, start, end, m);
}

/// A metric just saved is loaded again, as the newest of its API, by any
/// window that holds its time.
pub proof fn lemma_saved_metric_is_loaded(groups: Seq<(Seq<char>, Seq<MetricRecord>)>, m: MetricRecord, start: i64, end: i64)
    requires
        start <= m.ts <= end,
    ensures
        exists|i: int|
            0 <= i < windowed(saved(groups, m), start, end).len()
            && #[trigger] windowed(saved(groups, m), start, end)[i].0 == m.api
            && windowed(saved(groups, m), start, end)[i].1.last() == m,
{
    let g2 = saved(groups, m);
    let w = windowed(g2, start, end);
    if exists|i: int| 0 <= i < groups.len() && groups[i].0 == m.api {
        let i = choose|i: int| 0 <= i < groups.len() && groups[i].0 == m.api;
        assert(g2[i].1.drop_last() =~= groups[i].1);
        assert(w[i].0 == m.api);
    } else {
        let i = groups.len() as int;
        assert(g2[i].1 =~= seq![m]);
        assert(seq![m].drop_last() =~= Seq::<MetricRecord>::empty());
        assert(w[i].0 == m.api);
    }
}

/// An iterator over `n` default values of `T`, where `n` is the length of
/// the range `r`.
pub fn gen_iter<T: Default>(r: std::ops::Range<i32>) -> (it: std::vec::IntoIter<T>)
    ensures
        it.remaining().len() == (if r.start < r.end { r.end - r.start } else { 0 }),
        forall|k: int| 0 <= k < it.remaining().len() ==> call_ensures(T::default, (), #[trigger] it.remaining()[k]),
{
    let mut v: Vec<T> = Vec::new();
    let mut i: i32 = r.start;
    while i < r.end
        invariant
            r.start <= i,
            i < r.end ==> v@.len() == i - r.start,
            i >= r.end ==> v@.len() == (if r.start < r.end { r.end - r.start } else { 0 }),
            forall|k: int| 0 <= k < v@.len() ==> call_ensures(T::default, (), #[trigger] v@[k]),
        decreases r.end - i,
    {
        let d = T::default();
        v.push(d);
        i = i + 1;
    }
    v.into_iter()
}

/// An iterator over the values of `vec`, where there is one.
pub fn to_iter(vec: Option<Vec<i32>>) -> (it: Option<std::vec::IntoIter<i32>>)
    ensures
        match vec {
            Some(v) => it is Some && it->Some_0.remaining() == v@,
            None => it is None,
        },
{
    match vec {
        Some(v) => Some(v.into_iter()),
        None => None,
    }
}

} // verus!
