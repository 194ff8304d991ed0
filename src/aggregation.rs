//! Per-instrument aggregation: one value tracker per attribute set.
use vstd::prelude::*;

use crate::attributes::{
    attrs_view, canonical, canonicalize, copy_attributes, same_attributes, sorted_by_key,
    AttrView, KeyValue,
};
use crate::export::Temporality;

verus! {

/// How the measurements of one time series are folded into one value.
pub enum Aggregator {
    /// A running total; a monotonic one ignores negative measurements.
    Sum { monotonic: bool },
    /// The last measurement.
    LastValue,
    /// Counts per bucket, where bucket `i` holds the values `v` with
    /// `bounds[i - 1] < v <= bounds[i]` and the last bucket the values above
    /// every bound; also count, sum, minimum and maximum.
    Histogram { bounds: Vec<i64> },
}

/// The mathematical content of an [`Aggregator`].
pub enum AggregatorView {
    Sum { monotonic: bool },
    LastValue,
    Histogram { bounds: Seq<i64> },
}

impl View for Aggregator {
    type V = AggregatorView;

    open spec fn view(&self) -> AggregatorView {
        match self {
            Aggregator::Sum { monotonic } => AggregatorView::Sum { monotonic: *monotonic },
            Aggregator::LastValue => AggregatorView::LastValue,
            Aggregator::Histogram { bounds } => AggregatorView::Histogram { bounds: bounds@ },
        }
    }
}

/// Whether a measurement is taken into account: a monotonic sum drops
/// negative values, every other aggregator takes all.
pub open spec fn accepts(agg: AggregatorView, v: i64) -> bool {
    match agg {
        AggregatorView::Sum { monotonic } => !monotonic || v >= 0,
        _ => true,
    }
}

/// The state of a histogram tracker.
pub struct HistogramState {
    pub count: u64,
    pub sum: i64,
    pub min: i64,
    pub max: i64,
    pub bucket_counts: Vec<u64>,
}

/// The mutable accumulator behind one time series.
pub enum Tracker {
    Sum(i64),
    LastValue(i64),
    Histogram(HistogramState),
}

/// The mathematical content of a [`Tracker`].
pub enum TrackerView {
    Sum(i64),
    LastValue(i64),
    Histogram { count: u64, sum: i64, min: i64, max: i64, bucket_counts: Seq<u64> },
}

impl View for Tracker {
    type V = TrackerView;

    open spec fn view(&self) -> TrackerView {
        match self {
            Tracker::Sum(s) => TrackerView::Sum(*s),
            Tracker::LastValue(v) => TrackerView::LastValue(*v),
            Tracker::Histogram(h) => TrackerView::Histogram {
                count: h.count,
                sum: h.sum,
                min: h.min,
                max: h.max,
                bucket_counts: h.bucket_counts@,
            },
        }
    }
}

/// The bucket of `v`, looking at the bounds from position `i` on.
pub open spec fn bucket_from(bounds: Seq<i64>, v: i64, i: int) -> int
    decreases bounds.len() - i,
{
    if i < 0 || i >= bounds.len() {
        bounds.len() as int
    } else if v <= bounds[i] {
        i
    } else {
        bucket_from(bounds, v, i + 1)
    }
}

/// The bucket of `v`: the first bound at or above it, or one past the last.
pub open spec fn bucket_index(bounds: Seq<i64>, v: i64) -> int {
    bucket_from(bounds, v, 0)
}

/// The tracker of a series that has seen no measurement.
pub open spec fn initial_tracker(agg: AggregatorView) -> TrackerView {
    match agg {
        AggregatorView::Sum { .. } => TrackerView::Sum(0),
        AggregatorView::LastValue => TrackerView::LastValue(0),
        AggregatorView::Histogram { bounds } => TrackerView::Histogram {
            count: 0,
            sum: 0,
            min: i64::MAX,
            max: i64::MIN,
            bucket_counts: Seq::new((bounds.len() + 1) as nat, |i: int| 0u64),
        },
    }
}

/// The tracker after one more measurement `v`. Totals and counts wrap around
/// on overflow.
pub open spec fn step(agg: AggregatorView, t: TrackerView, v: i64) -> TrackerView {
    match t {
        TrackerView::Sum(s) => TrackerView::Sum(s.wrapping_add(v)),
        TrackerView::LastValue(_) => TrackerView::LastValue(v),
        TrackerView::Histogram { count, sum, min, max, bucket_counts } => {
            let b = match agg {
                AggregatorView::Histogram { bounds } => bucket_index(bounds, v),
                _ => 0,
            };
            TrackerView::Histogram {
                count: count.wrapping_add(1),
                sum: sum.wrapping_add(v),
                min: if v < min { v } else { min },
                max: if v > max { v } else { max },
                bucket_counts: bucket_counts.update(b, bucket_counts[b].wrapping_add(1)),
            }
        },
    }
}

/// The tracker of a series after the measurements `vs`, in order.
pub open spec fn tracker_of(agg: AggregatorView, vs: Seq<i64>) -> TrackerView
    decreases vs.len(),
{
    if vs.len() == 0 {
        initial_tracker(agg)
    } else {
        step(agg, tracker_of(agg, vs.drop_last()), vs.last())
    }
}

/// The tracker has the variant, and for a histogram the number of buckets,
/// that the aggregator calls for.
pub open spec fn tracker_fits(agg: AggregatorView, t: TrackerView) -> bool {
    match agg {
        AggregatorView::Sum { .. } => t is Sum,
        AggregatorView::LastValue => t is LastValue,
        AggregatorView::Histogram { bounds } => match t {
            TrackerView::Histogram { bucket_counts, .. } => bucket_counts.len() == bounds.len() + 1,
            _ => false,
        },
    }
}

proof fn lemma_bucket_from_range(bounds: Seq<i64>, v: i64, i: int)
    requires
        0 <= i,
    ensures
        0 <= bucket_from(bounds, v, i) <= bounds.len(),
    decreases bounds.len() - i,
{
    if i < bounds.len() && !(v <= bounds[i]) {
        lemma_bucket_from_range(bounds, v, i + 1);
    }
}

/// Every tracker built from an aggregator fits it.
pub proof fn lemma_tracker_fits(agg: AggregatorView, vs: Seq<i64>)
    ensures
        tracker_fits(agg, tracker_of(agg, vs)),
    decreases vs.len(),
{
    if vs.len() > 0 {
        lemma_tracker_fits(agg, vs.drop_last());
        if let AggregatorView::Histogram { bounds } = agg {
            lemma_bucket_from_range(bounds, vs.last(), 0);
        }
    }
}

proof fn lemma_tracker_push(agg: AggregatorView, vs: Seq<i64>, v: i64)
    ensures
        tracker_of(agg, vs.push(v)) == step(agg, tracker_of(agg, vs), v),
{
    assert(vs.push(v).drop_last() =~= vs);
}

impl Clone for Tracker {
    fn clone(&self) -> (r: Self)
        ensures
            r@ == self@,
    {
        match self {
            Tracker::Sum(s) => Tracker::Sum(*s),
            Tracker::LastValue(v) => Tracker::LastValue(*v),
            Tracker::Histogram(h) => Tracker::Histogram(
                HistogramState {
                    count: h.count,
                    sum: h.sum,
                    min: h.min,
                    max: h.max,
                    bucket_counts: crate::export::copy_vec(&h.bucket_counts),
                },
            ),
        }
    }
}

/// The bucket of `v` among `bounds`.
pub fn find_bucket(bounds: &Vec<i64>, v: i64) -> (r: usize)
    ensures
        r as int == bucket_index(bounds@, v),
{
    let mut i: usize = 0;
    while i < bounds.len()
        invariant
            i <= bounds.len(),
            bucket_index(bounds@, v) == bucket_from(bounds@, v, i as int),
        decreases bounds.len() - i,
    {
        if v <= bounds[i] {
            return i;
        }
        i = i + 1;
    }
    i
}

impl Tracker {
    /// A tracker that has seen no measurement.
    pub fn new(agg: &Aggregator) -> (r: Tracker)
        requires
            agg is Histogram ==> agg->bounds@.len() < usize::MAX,
        ensures
            r@ == initial_tracker(agg@),
    {
        match agg {
            Aggregator::Sum { .. } => Tracker::Sum(0),
            Aggregator::LastValue => Tracker::LastValue(0),
            Aggregator::Histogram { bounds } => {
                let n = bounds.len() + 1;
                let mut counts: Vec<u64> = Vec::new();
                let mut i: usize = 0;
                while i < n
                    invariant
                        i <= n,
                        counts@.len() == i,
                        forall|j: int| 0 <= j < i ==> counts@[j] == 0,
                    decreases n - i,
                {
                    counts.push(0);
                    i = i + 1;
                }
                proof {
                    assert(counts@ =~= Seq::new((bounds@.len() + 1) as nat, |i: int| 0u64));
                }
                Tracker::Histogram(
                    HistogramState {
                        count: 0,
                        sum: 0,
                        min: i64::MAX,
                        max: i64::MIN,
                        bucket_counts: counts,
                    },
                )
            },
        }
    }

    /// The tracker after one more measurement.
    pub fn updated(&self, agg: &Aggregator, v: i64) -> (r: Tracker)
        requires
            tracker_fits(agg@, self@),
        ensures
            r@ == step(agg@, self@, v),
    {
        match self {
            Tracker::Sum(s) => Tracker::Sum(s.wrapping_add(v)),
            Tracker::LastValue(_) => Tracker::LastValue(v),
            Tracker::Histogram(h) => {
                let b = match agg {
                    Aggregator::Histogram { bounds } => find_bucket(bounds, v),
                    _ => 0,
                };
                proof {
                    if let AggregatorView::Histogram { bounds } = agg@ {
                        lemma_bucket_from_range(bounds, v, 0);
                    }
                }
                let mut counts = crate::export::copy_vec(&h.bucket_counts);
                let c = counts[b].wrapping_add(1);
                counts.set(b, c);
                Tracker::Histogram(
                    HistogramState {
                        count: h.count.wrapping_add(1),
                        sum: h.sum.wrapping_add(v),
                        min: if v < h.min { v } else { h.min },
                        max: if v > h.max { v } else { h.max },
                        bucket_counts: counts,
                    },
                )
            },
        }
    }
}

/// One accepted measurement: the canonical attribute set and the value.
pub type Measurement = (Seq<AttrView>, i64);

/// The values recorded for one attribute set, in order.
pub open spec fn series_values(log: Seq<Measurement>, key: Seq<AttrView>) -> Seq<i64>
    decreases log.len(),
{
    if log.len() == 0 {
        Seq::empty()
    } else {
        let prev = series_values(log.drop_last(), key);
        if log.last().0 == key {
            prev.push(log.last().1)
        } else {
            prev
        }
    }
}

proof fn lemma_series_push(log: Seq<Measurement>, m: Measurement, key: Seq<AttrView>)
    ensures
        series_values(log.push(m), key) == if m.0 == key {
            series_values(log, key).push(m.1)
        } else {
            series_values(log, key)
        },
{
    assert(log.push(m).drop_last() =~= log);
}

/// A series with values was recorded at some point of the log.
proof fn lemma_series_nonempty(log: Seq<Measurement>, key: Seq<AttrView>)
    requires
        series_values(log, key).len() > 0,
    ensures
        exists|k: int| 0 <= k < log.len() && (#[trigger] log[k]).0 == key,
    decreases log.len(),
{
    if log.last().0 != key {
        lemma_series_nonempty(log.drop_last(), key);
        let k = choose|k: int| 0 <= k < log.len() - 1 && (#[trigger] log.drop_last()[k]).0 == key;
        assert(log[k] == log.drop_last()[k]);
    } else {
        assert(log[log.len() - 1].0 == key);
    }
}

/// A measurement in the log gives its series a value.
proof fn lemma_series_has(log: Seq<Measurement>, k: int)
    requires
        0 <= k < log.len(),
    ensures
        series_values(log, log[k].0).len() > 0,
    decreases log.len(),
{
    if k < log.len() - 1 {
        lemma_series_has(log.drop_last(), k);
        assert(log.drop_last()[k] == log[k]);
    }
}

/// One exported time series: its attribute set and its tracker.
pub struct DataPoint {
    pub attributes: Vec<KeyValue>,
    pub tracker: Tracker,
}

/// The mathematical content of a [`DataPoint`].
pub type PointView = (Seq<AttrView>, TrackerView);

impl View for DataPoint {
    type V = PointView;

    open spec fn view(&self) -> PointView {
        (attrs_view(self.attributes@), self.tracker@)
    }
}

/// The data points, as views.
pub open spec fn points_view(v: Seq<DataPoint>) -> Seq<PointView> {
    v.map_values(|p: DataPoint| p@)
}

/// The points report the measurements of `log`: one point per attribute set
/// that has measurements, holding what those measurements fold to, and no
/// other point; each attribute set is sorted by key, no key twice.
pub open spec fn describes(points: Seq<PointView>, agg: AggregatorView, log: Seq<Measurement>) -> bool {
    &&& forall|i: int, j: int| 0 <= i < j < points.len() ==> #[trigger] points[i].0 != #[trigger] points[j].0
    &&& forall|i: int|
        0 <= i < points.len() ==> series_values(log, #[trigger] points[i].0).len() > 0
            && points[i].1 == tracker_of(agg, series_values(log, points[i].0))
    &&& forall|k: int| 0 <= k < log.len() ==> covered(points, #[trigger] log[k].0)
    &&& forall|i: int| 0 <= i < points.len() ==> sorted_by_key((#[trigger] points[i]).0)
}

/// Some point has the attribute set `key`.
pub open spec fn covered(points: Seq<PointView>, key: Seq<AttrView>) -> bool {
    exists|i: int| 0 <= i < points.len() && points[i].0 == key
}

/// The attribute set of the `i`-th series.
pub open spec fn key_at(keys: Seq<Vec<KeyValue>>, i: int) -> Seq<AttrView> {
    attrs_view(keys[i]@)
}

/// The aggregation store of one instrument: a tracker per attribute set, with
/// a separate tracker for measurements without attributes.
pub struct AggregationStore {
    aggregator: Aggregator,
    temporality: Temporality,
    no_attribute_tracker: Option<Tracker>,
    keys: Vec<Vec<KeyValue>>,
    trackers: Vec<Tracker>,
    log: Ghost<Seq<Measurement>>,
}

impl AggregationStore {
    /// The measurements accepted since the last delta collection (for a
    /// cumulative store: since creation), in order.
    pub closed spec fn pending(&self) -> Seq<Measurement> {
        self.log@
    }

    /// How the store folds measurements.
    pub closed spec fn aggregator_view(&self) -> AggregatorView {
        self.aggregator@
    }

    /// The temporality of the store's collections.
    pub closed spec fn temporality_view(&self) -> Temporality {
        self.temporality
    }

    /// How the store folds measurements.
    pub fn aggregator(&self) -> (r: &Aggregator)
        ensures
            r@ == self.aggregator_view(),
    {
        &self.aggregator
    }

    /// The temporality of the store's collections.
    pub fn temporality(&self) -> (r: Temporality)
        ensures
            r == self.temporality_view(),
    {
        self.temporality
    }

    /// The store's invariant.
    pub closed spec fn wf(&self) -> bool {
        &&& self.aggregator matches Aggregator::Histogram { bounds } ==> bounds@.len() < usize::MAX
        &&& self.keys@.len() == self.trackers@.len()
        &&& forall|i: int|
            0 <= i < self.keys@.len() ==> sorted_by_key(#[trigger] key_at(self.keys@, i)) && key_at(self.keys@, i).len() > 0
                && series_values(self.log@, key_at(self.keys@, i)).len() > 0 && self.trackers@[i]@ == tracker_of(
                self.aggregator@,
                series_values(self.log@, key_at(self.keys@, i)),
            )
        &&& forall|i: int, j: int|
            0 <= i < j < self.keys@.len() ==> #[trigger] key_at(self.keys@, i) != #[trigger] key_at(self.keys@, j)
        &&& match self.no_attribute_tracker {
            Some(t) => series_values(self.log@, Seq::empty()).len() > 0 && t@ == tracker_of(
                self.aggregator@,
                series_values(self.log@, Seq::empty()),
            ),
            None => series_values(self.log@, Seq::empty()).len() == 0,
        }
        &&& forall|k: int|
            0 <= k < self.log@.len() ==> (#[trigger] self.log@[k]).0.len() == 0 || exists|i: int|
                0 <= i < self.keys@.len() && #[trigger] key_at(self.keys@, i) == self.log@[k].0
    }

    /// An empty store.
    pub fn new(aggregator: Aggregator, temporality: Temporality) -> (r: AggregationStore)
        requires
            aggregator is Histogram ==> aggregator->bounds@.len() < usize::MAX,
        ensures
            r.wf(),
            r.pending() == Seq::<Measurement>::empty(),
            r.aggregator_view() == aggregator@,
            r.temporality_view() == temporality,
    {
        AggregationStore {
            aggregator,
            temporality,
            no_attribute_tracker: None,
            keys: Vec::new(),
            trackers: Vec::new(),
            log: Ghost(Seq::empty()),
        }
    }

    /// Records one measurement. A monotonic sum ignores a negative value;
    /// otherwise the measurement joins the series of its canonical attribute set.
    pub fn record(&mut self, attributes: &Vec<KeyValue>, value: i64)
        requires
            old(self).wf(),
        ensures
            final(self).wf(),
            final(self).aggregator_view() == old(self).aggregator_view(),
            final(self).temporality_view() == old(self).temporality_view(),
            final(self).pending() == if accepts(old(self).aggregator_view(), value) {
                old(self).pending().push((canonical(attrs_view(attributes@)), value))
            } else {
                old(self).pending()
            },
    {
        let ok = match &self.aggregator {
            Aggregator::Sum { monotonic } => !*monotonic || value >= 0,
            _ => true,
        };
        if !ok {
            return;
        }
        let key = canonicalize(attributes);
        let ghost kv = attrs_view(key@);
        let ghost old_log = self.log@;
        let ghost m: Measurement = (kv, value);
        let ghost new_log = old_log.push(m);
        proof {
            lemma_series_push(old_log, m, kv);
            lemma_tracker_push(self.aggregator@, series_values(old_log, kv), value);
            lemma_tracker_fits(self.aggregator@, series_values(old_log, kv));
            assert forall|key2: Seq<AttrView>| key2 != kv implies #[trigger] series_values(new_log, key2)
                == series_values(old_log, key2) by {
                lemma_series_push(old_log, m, key2);
            }
        }
        if key.len() == 0 {
            proof {
                assert(kv =~= Seq::<AttrView>::empty());
            }
            let t = match &self.no_attribute_tracker {
                Some(t) => t.updated(&self.aggregator, value),
                None => {
                    let t0 = Tracker::new(&self.aggregator);
                    proof {
                        lemma_tracker_fits(self.aggregator@, Seq::<i64>::empty());
                    }
                    t0.updated(&self.aggregator, value)
                },
            };
            self.no_attribute_tracker = Some(t);
            self.log = Ghost(new_log);
            proof {
                assert(self.keys@ == old(self).keys@);
                assert forall|i: int| 0 <= i < self.keys@.len() implies #[trigger] key_at(self.keys@, i) != kv by {
                    assert(key_at(old(self).keys@, i).len() > 0);
                }
                assert forall|k: int| 0 <= k < self.log@.len() implies (#[trigger] self.log@[k]).0.len() == 0
                    || exists|i: int| 0 <= i < self.keys@.len() && #[trigger] key_at(self.keys@, i) == self.log@[k].0 by {
                    if k < old_log.len() {
                        assert(self.log@[k] == old_log[k]);
                        if old_log[k].0.len() != 0 {
                            let i = choose|i: int| 0 <= i < old(self).keys@.len() && #[trigger] key_at(old(self).keys@, i) == old_log[k].0;
                            assert(key_at(self.keys@, i) == key_at(old(self).keys@, i));
                        }
                    }
                }
            }
            return;
        }
        let mut i: usize = 0;
        while i < self.keys.len()
            invariant
                self.wf(),
                self.log@ == old_log,
                i <= self.keys@.len(),
                attrs_view(key@) == kv,
                forall|j: int| 0 <= j < i ==> #[trigger] key_at(self.keys@, j) != kv,
            ensures
                self.wf(),
                self.log@ == old_log,
                i <= self.keys@.len(),
                forall|j: int| 0 <= j < i ==> #[trigger] key_at(self.keys@, j) != kv,
                i < self.keys@.len() ==> key_at(self.keys@, i as int) == kv,
            decreases self.keys.len() - i,
        {
            if same_attributes(&self.keys[i], &key) {
                break;
            }
            i = i + 1;
        }
        if i < self.keys.len() {
            proof {
                assert(key_at(self.keys@, i as int) == kv);
            }
            let t = self.trackers[i].updated(&self.aggregator, value);
            self.trackers.set(i, t);
            self.log = Ghost(new_log);
            proof {
                assert(key_at(self.keys@, i as int) == kv);
                assert forall|k: int| 0 <= k < self.log@.len() implies (#[trigger] self.log@[k]).0.len() == 0
                    || exists|j: int| 0 <= j < self.keys@.len() && #[trigger] key_at(self.keys@, j) == self.log@[k].0 by {
                    if k < old_log.len() {
                        assert(self.log@[k] == old_log[k]);
                    } else {
                        assert(key_at(self.keys@, i as int) == self.log@[k].0);
                    }
                }
            }
        } else {
            proof {
                if series_values(old_log, kv).len() > 0 {
                    lemma_series_nonempty(old_log, kv);
                    let k = choose|k: int| 0 <= k < old_log.len() && (#[trigger] old_log[k]).0 == kv;
                    assert(old_log[k].0.len() == 0 || exists|j: int|
                        0 <= j < self.keys@.len() && #[trigger] key_at(self.keys@, j) == old_log[k].0);
                }
                assert(series_values(old_log, kv) =~= Seq::<i64>::empty());
                lemma_tracker_fits(self.aggregator@, Seq::<i64>::empty());
            }
            let t0 = Tracker::new(&self.aggregator);
            let t = t0.updated(&self.aggregator, value);
            let ghost old_keys = self.keys@;
            self.keys.push(key);
            self.trackers.push(t);
            self.log = Ghost(new_log);
            proof {
                let n = old_keys.len() as int;
                assert forall|j: int| 0 <= j < n implies #[trigger] key_at(self.keys@, j) == attrs_view(old_keys[j]@) by {
                    assert(self.keys@[j] == old_keys[j]);
                }
                assert(key_at(self.keys@, n) == kv);
                assert forall|a: int, b: int| 0 <= a < b < self.keys@.len() implies #[trigger] key_at(self.keys@, a)
                    != #[trigger] key_at(self.keys@, b) by {
                    assert(key_at(self.keys@, a) == key_at(old_keys, a));
                    if b < n {
                        assert(key_at(self.keys@, b) == key_at(old_keys, b));
                        assert(key_at(old_keys, a) != key_at(old_keys, b));
                    } else {
                        assert(key_at(old_keys, a) != kv);
                    }
                }
                assert forall|k: int| 0 <= k < self.log@.len() implies (#[trigger] self.log@[k]).0.len() == 0
                    || exists|j: int| 0 <= j < self.keys@.len() && #[trigger] key_at(self.keys@, j) == self.log@[k].0 by {
                    if k < old_log.len() {
                        assert(self.log@[k] == old_log[k]);
                        if old_log[k].0.len() != 0 {
                            let j = choose|j: int| 0 <= j < n && #[trigger] attrs_view(old_keys[j]@) == old_log[k].0;
                            assert(key_at(self.keys@, j) == old_log[k].0);
                        }
                    } else {
                        assert(key_at(self.keys@, n) == self.log@[k].0);
                    }
                }
            }
        }
    }

    /// Takes a snapshot of every series. A delta store starts afresh after it:
    /// the next collection reports only what is recorded after this one. A
    /// cumulative store keeps its trackers.
    pub fn collect(&mut self) -> (r: Vec<DataPoint>)
        requires
            old(self).wf(),
        ensures
            final(self).wf(),
            describes(points_view(r@), old(self).aggregator_view(), old(self).pending()),
            final(self).aggregator_view() == old(self).aggregator_view(),
            final(self).temporality_view() == old(self).temporality_view(),
            final(self).pending() == if old(self).temporality_view() == Temporality::Delta {
                Seq::<Measurement>::empty()
            } else {
                old(self).pending()
            },
    {
        let ghost log = self.log@;
        let ghost agg = self.aggregator@;
        let mut points: Vec<DataPoint> = Vec::new();
        let mut off: usize = 0;
        match &self.no_attribute_tracker {
            Some(t) => {
                points.push(DataPoint { attributes: Vec::new(), tracker: t.clone() });
                off = 1;
            },
            None => {},
        }
        proof {
            if off == 1 {
                assert(attrs_view(points@[0].attributes@) =~= Seq::<AttrView>::empty());
            }
        }
        let mut i: usize = 0;
        while i < self.keys.len()
            invariant
                self.wf(),
                self.log@ == log,
                self.aggregator@ == agg,
                i <= self.keys@.len(),
                off == (if self.no_attribute_tracker is Some { 1usize } else { 0usize }),
                points@.len() == off + i,
                off == 1 ==> points@[0]@ == (Seq::<AttrView>::empty(), self.no_attribute_tracker->0@),
                forall|p: int|
                    off <= p < off + i ==> #[trigger] points@[p]@ == (key_at(self.keys@, p - off), self.trackers@[p
                        - off]@),
            decreases self.keys.len() - i,
        {
            let a = copy_attributes(&self.keys[i]);
            let t = self.trackers[i].clone();
            points.push(DataPoint { attributes: a, tracker: t });
            i = i + 1;
        }
        proof {
            let pv = points_view(points@);
            let n = self.keys@.len() as int;
            assert forall|p: int| off <= p < pv.len() implies #[trigger] pv[p] == (key_at(self.keys@, p - off), self.trackers@[p - off]@) by {
                assert(points@[p]@ == (key_at(self.keys@, p - off), self.trackers@[p - off]@));
            }
            assert forall|a: int, b: int| 0 <= a < b < pv.len() implies #[trigger] pv[a].0 != #[trigger] pv[b].0 by {
                if off == 1 && a == 0 {
                    assert(pv[b] == (key_at(self.keys@, b - 1), self.trackers@[b - 1]@));
                    assert(key_at(self.keys@, b - 1).len() > 0);
                } else {
                    assert(pv[a] == (key_at(self.keys@, a - off), self.trackers@[a - off]@));
                    assert(pv[b] == (key_at(self.keys@, b - off), self.trackers@[b - off]@));
                }
            }
            assert forall|a: int| 0 <= a < pv.len() implies series_values(log, #[trigger] pv[a].0).len() > 0
                && pv[a].1 == tracker_of(agg, series_values(log, pv[a].0)) by {
                if off == 1 && a == 0 {
                } else {
                    assert(pv[a] == (key_at(self.keys@, a - off), self.trackers@[a - off]@));
                }
            }
            assert forall|k: int| 0 <= k < log.len() implies covered(pv, #[trigger] log[k].0) by {
                if log[k].0.len() == 0 {
                    lemma_series_has(log, k);
                    assert(log[k].0 =~= Seq::<AttrView>::empty());
                    assert(pv[0].0 == log[k].0);
                    assert(covered(pv, log[k].0));
                } else {
                    let j = choose|j: int| 0 <= j < n && #[trigger] key_at(self.keys@, j) == log[k].0;
                    assert(pv[off + j] == (key_at(self.keys@, off + j - off), self.trackers@[off + j - off]@));
                    assert(pv[off + j].0 == log[k].0);
                    assert(covered(pv, log[k].0));
                }
            }
        }
        match self.temporality {
            Temporality::Delta => {
                self.no_attribute_tracker = None;
                self.keys = Vec::new();
                self.trackers = Vec::new();
                self.log = Ghost(Seq::empty());
            },
            Temporality::Cumulative => {},
        }
        points
    }
}

/// The sum of a sequence of values.
pub open spec fn sum_of(vs: Seq<i64>) -> int
    decreases vs.len(),
{
    if vs.len() == 0 {
        0
    } else {
        sum_of(vs.drop_last()) + vs.last()
    }
}

/// The sum of all values in a log.
pub open spec fn log_total(log: Seq<Measurement>) -> int
    decreases log.len(),
{
    if log.len() == 0 {
        0
    } else {
        log_total(log.drop_last()) + log.last().1
    }
}

/// The sum of the values of the sum points among `points`.
pub open spec fn exported_total(points: Seq<PointView>) -> int
    decreases points.len(),
{
    if points.len() == 0 {
        0
    } else {
        exported_total(points.drop_last()) + match points.last().1 {
            TrackerView::Sum(v) => v as int,
            _ => 0,
        }
    }
}

/// The sum over the points' attribute sets of the values recorded for each.
spec fn group_total(points: Seq<PointView>, log: Seq<Measurement>) -> int
    decreases points.len(),
{
    if points.len() == 0 {
        0
    } else {
        group_total(points.drop_last(), log) + sum_of(series_values(log, points.last().0))
    }
}

proof fn lemma_sum_tracker(vs: Seq<i64>, monotonic: bool)
    requires
        forall|i: int| 0 <= i < vs.len() ==> vs[i] >= 0,
        sum_of(vs) <= i64::MAX,
    ensures
        sum_of(vs) >= 0,
        tracker_of(AggregatorView::Sum { monotonic }, vs) == TrackerView::Sum(sum_of(vs) as i64),
    decreases vs.len(),
{
    if vs.len() > 0 {
        let d = vs.drop_last();
        assert forall|i: int| 0 <= i < d.len() implies d[i] >= 0 by {
            assert(d[i] == vs[i]);
        }
        assert(vs.last() >= 0);
        lemma_sum_tracker(d, monotonic);
    }
}

proof fn lemma_series_bounded(log: Seq<Measurement>, key: Seq<AttrView>)
    requires
        forall|k: int| 0 <= k < log.len() ==> (#[trigger] log[k]).1 >= 0,
    ensures
        forall|i: int| 0 <= i < series_values(log, key).len() ==> series_values(log, key)[i] >= 0,
        0 <= sum_of(series_values(log, key)) <= log_total(log),
    decreases log.len(),
{
    if log.len() > 0 {
        let d = log.drop_last();
        assert forall|k: int| 0 <= k < d.len() implies (#[trigger] d[k]).1 >= 0 by {
            assert(d[k] == log[k]);
        }
        lemma_series_bounded(d, key);
        assert(log[log.len() - 1].1 >= 0);
        let sv = series_values(log, key);
        let sd = series_values(d, key);
        if log.last().0 == key {
            assert(sv.drop_last() =~= sd);
        }
    }
}

proof fn lemma_group_push(points: Seq<PointView>, log: Seq<Measurement>, m: Measurement)
    requires
        forall|i: int, j: int| 0 <= i < j < points.len() ==> #[trigger] points[i].0 != #[trigger] points[j].0,
    ensures
        group_total(points, log.push(m)) == group_total(points, log) + if exists|i: int|
            0 <= i < points.len() && #[trigger] points[i].0 == m.0 {
            m.1 as int
        } else {
            0
        },
    decreases points.len(),
{
    if points.len() > 0 {
        let d = points.drop_last();
        assert forall|i: int, j: int| 0 <= i < j < d.len() implies #[trigger] d[i].0 != #[trigger] d[j].0 by {
            assert(d[i] == points[i] && d[j] == points[j]);
        }
        lemma_group_push(d, log, m);
        let x = points.last().0;
        lemma_series_push(log, m, x);
        if x == m.0 {
            assert(series_values(log.push(m), x).drop_last() =~= series_values(log, x));
            assert(!exists|i: int| 0 <= i < d.len() && #[trigger] d[i].0 == m.0) by {
                if exists|i: int| 0 <= i < d.len() && #[trigger] d[i].0 == m.0 {
                    let i = choose|i: int| 0 <= i < d.len() && #[trigger] d[i].0 == m.0;
                    assert(points[i].0 == points[points.len() - 1].0);
                }
            }
            assert(points[points.len() - 1].0 == m.0);
        } else {
            if exists|i: int| 0 <= i < points.len() && #[trigger] points[i].0 == m.0 {
                let i = choose|i: int| 0 <= i < points.len() && #[trigger] points[i].0 == m.0;
                assert(d[i] == points[i]);
            }
            if exists|i: int| 0 <= i < d.len() && #[trigger] d[i].0 == m.0 {
                let i = choose|i: int| 0 <= i < d.len() && #[trigger] d[i].0 == m.0;
                assert(d[i] == points[i]);
            }
        }
    }
}

proof fn lemma_group_empty(points: Seq<PointView>)
    ensures
        group_total(points, Seq::empty()) == 0,
    decreases points.len(),
{
    if points.len() > 0 {
        lemma_group_empty(points.drop_last());
    }
}

proof fn lemma_group_total(points: Seq<PointView>, log: Seq<Measurement>)
    requires
        forall|i: int, j: int| 0 <= i < j < points.len() ==> #[trigger] points[i].0 != #[trigger] points[j].0,
        forall|k: int| 0 <= k < log.len() ==> covered(points, #[trigger] log[k].0),
    ensures
        group_total(points, log) == log_total(log),
    decreases log.len(),
{
    if log.len() == 0 {
        lemma_group_empty(points);
        assert(log =~= Seq::<Measurement>::empty());
    } else {
        let d = log.drop_last();
        assert forall|k: int| 0 <= k < d.len() implies covered(points, #[trigger] d[k].0) by {
            assert(d[k] == log[k]);
        }
        lemma_group_total(points, d);
        lemma_group_push(points, d, log.last());
        assert(d.push(log.last()) =~= log);
        assert(covered(points, log[log.len() - 1].0));
    }
}

proof fn lemma_exported_is_group(points: Seq<PointView>, log: Seq<Measurement>, monotonic: bool)
    requires
        forall|i: int|
            0 <= i < points.len() ==> (#[trigger] points[i]).1 == tracker_of(
                AggregatorView::Sum { monotonic },
                series_values(log, points[i].0),
            ),
        forall|k: int| 0 <= k < log.len() ==> (#[trigger] log[k]).1 >= 0,
        log_total(log) <= i64::MAX,
    ensures
        exported_total(points) == group_total(points, log),
    decreases points.len(),
{
    if points.len() > 0 {
        let d = points.drop_last();
        assert forall|i: int| 0 <= i < d.len() implies (#[trigger] d[i]).1 == tracker_of(
            AggregatorView::Sum { monotonic },
            series_values(log, d[i].0),
        ) by {
            assert(d[i] == points[i]);
        }
        lemma_exported_is_group(d, log, monotonic);
        let key = points.last().0;
        lemma_series_bounded(log, key);
        lemma_sum_tracker(series_values(log, key), monotonic);
        assert(points[points.len() - 1].1 == tracker_of(
            AggregatorView::Sum { monotonic },
            series_values(log, key),
        ));
    }
}

/// Two integers are equal in 64-bit wrapping arithmetic: they differ by a
/// multiple of 2^64.
pub open spec fn wrap_equal(a: int, b: int) -> bool {
    (a - b) % 0x1_0000_0000_0000_0000int == 0
}

proof fn lemma_wrap_equal_add(a: int, b: int, c: int, d: int)
    requires
        wrap_equal(a, b),
        wrap_equal(c, d),
    ensures
        wrap_equal(a + c, b + d),
{
    vstd::arithmetic::div_mod::lemma_add_mod_noop(a - b, c - d, 0x1_0000_0000_0000_0000int);
    assert((a + c) - (b + d) == (a - b) + (c - d));
}

proof fn lemma_wrapping_step(x: i64, v: i64)
    ensures
        wrap_equal(x.wrapping_add(v) as int, x + v),
{
    let m = 0x1_0000_0000_0000_0000int;
    if x + v > i64::MAX {
        vstd::arithmetic::div_mod::lemma_mod_multiples_basic(-1, m);
        assert(x.wrapping_add(v) as int - (x + v) == -1 * m);
    } else if x + v < i64::MIN {
        vstd::arithmetic::div_mod::lemma_mod_multiples_basic(1, m);
        assert(x.wrapping_add(v) as int - (x + v) == 1 * m);
    } else {
        vstd::arithmetic::div_mod::lemma_mod_multiples_basic(0, m);
        assert(x.wrapping_add(v) as int - (x + v) == 0 * m);
    }
}

proof fn lemma_sum_tracker_wraps(vs: Seq<i64>, monotonic: bool)
    ensures
        tracker_of(AggregatorView::Sum { monotonic }, vs) is Sum,
        wrap_equal(tracker_of(AggregatorView::Sum { monotonic }, vs)->Sum_0 as int, sum_of(vs)),
    decreases vs.len(),
{
    let m = 0x1_0000_0000_0000_0000int;
    if vs.len() == 0 {
        vstd::arithmetic::div_mod::lemma_mod_multiples_basic(0, m);
        assert(0int - 0int == 0 * m);
    } else {
        let d = vs.drop_last();
        lemma_sum_tracker_wraps(d, monotonic);
        let prev = tracker_of(AggregatorView::Sum { monotonic }, d)->Sum_0;
        lemma_wrapping_step(prev, vs.last());
        vstd::arithmetic::div_mod::lemma_mod_multiples_basic(0, m);
        assert(vs.last() as int - vs.last() as int == 0 * m);
        lemma_wrap_equal_add(prev as int, sum_of(d), vs.last() as int, vs.last() as int);
        let next = prev.wrapping_add(vs.last()) as int;
        vstd::arithmetic::div_mod::lemma_add_mod_noop(next - (prev + vs.last()), (prev + vs.last()) - sum_of(vs), m);
        assert(next - sum_of(vs) == (next - (prev + vs.last())) + ((prev + vs.last()) - sum_of(vs)));
    }
}

proof fn lemma_exported_wraps_group(points: Seq<PointView>, log: Seq<Measurement>, monotonic: bool)
    requires
        forall|i: int|
            0 <= i < points.len() ==> (#[trigger] points[i]).1 == tracker_of(
                AggregatorView::Sum { monotonic },
                series_values(log, points[i].0),
            ),
    ensures
        wrap_equal(exported_total(points), group_total(points, log)),
    decreases points.len(),
{
    let m = 0x1_0000_0000_0000_0000int;
    if points.len() == 0 {
        vstd::arithmetic::div_mod::lemma_mod_multiples_basic(0, m);
        assert(0int - 0int == 0 * m);
    } else {
        let d = points.drop_last();
        assert forall|i: int| 0 <= i < d.len() implies (#[trigger] d[i]).1 == tracker_of(
            AggregatorView::Sum { monotonic },
            series_values(log, d[i].0),
        ) by {
            assert(d[i] == points[i]);
        }
        lemma_exported_wraps_group(d, log, monotonic);
        let key = points.last().0;
        lemma_sum_tracker_wraps(series_values(log, key), monotonic);
        assert(points[points.len() - 1].1 == tracker_of(
            AggregatorView::Sum { monotonic },
            series_values(log, key),
        ));
        lemma_wrap_equal_add(
            exported_total(d),
            group_total(d, log),
            tracker_of(AggregatorView::Sum { monotonic }, series_values(log, key))->Sum_0 as int,
            sum_of(series_values(log, key)),
        );
    }
}

/// No loss and no double counting: the points that a collection of a sum
/// store reports add up, in the store's 64-bit wrapping arithmetic, to the
/// total of the measurements it was handed; and exactly so where the
/// measurements are not negative and their total fits in an `i64`. A delta
/// collection empties the store's pending measurements, so the next
/// collection reports only what was recorded after this one.
pub proof fn lemma_collected_sum_matches_recorded(
    points: Seq<PointView>,
    log: Seq<Measurement>,
    monotonic: bool,
)
    requires
        describes(points, AggregatorView::Sum { monotonic }, log),
    ensures
        wrap_equal(exported_total(points), log_total(log)),
        (forall|k: int| 0 <= k < log.len() ==> (#[trigger] log[k]).1 >= 0) && log_total(log) <= i64::MAX
            ==> exported_total(points) == log_total(log),
{
    lemma_group_total(points, log);
    lemma_exported_wraps_group(points, log, monotonic);
    if (forall|k: int| 0 <= k < log.len() ==> (#[trigger] log[k]).1 >= 0) && log_total(log) <= i64::MAX {
        lemma_exported_is_group(points, log, monotonic);
    }
}

/// Every point that describes a log holds a tracker that fits the aggregator.
pub proof fn lemma_points_fit(points: Seq<PointView>, agg: AggregatorView, log: Seq<Measurement>)
    requires
        describes(points, agg, log),
    ensures
        forall|i: int| 0 <= i < points.len() ==> tracker_fits(agg, #[trigger] points[i].1),
{
    assert forall|i: int| 0 <= i < points.len() implies tracker_fits(agg, #[trigger] points[i].1) by {
        lemma_tracker_fits(agg, series_values(log, points[i].0));
    }
}

} // verus!
