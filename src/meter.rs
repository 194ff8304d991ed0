//! Meters: the instruments of one instrumentation scope.
use vstd::prelude::*;

use crate::aggregation::{
    describes, AggregationStore, Aggregator, AggregatorView, DataPoint, Measurement, PointView,
    Tracker, TrackerView,
};
use crate::attributes::{attrs_view, KeyValue};
use crate::export::{
    AggregatedMetrics, Gauge, GaugeDataPoint, Histogram, HistogramDataPoint, InstrumentKind,
    InstrumentationScope, Metric, ScopeView, Sum, SumDataPoint, Temporality,
};

verus! {

/// The bucket bounds of a histogram instrument.
pub open spec fn default_bounds() -> Seq<i64> {
    seq![0, 5, 10, 25, 50, 75, 100, 250, 500, 750, 1000, 2500, 5000, 7500, 10000]
}

/// The aggregator an instrument kind uses.
pub open spec fn aggregator_for(kind: InstrumentKind) -> AggregatorView {
    match kind {
        InstrumentKind::Counter => AggregatorView::Sum { monotonic: true },
        InstrumentKind::UpDownCounter => AggregatorView::Sum { monotonic: false },
        InstrumentKind::Gauge => AggregatorView::LastValue,
        InstrumentKind::Histogram => AggregatorView::Histogram { bounds: default_bounds() },
    }
}

fn make_aggregator(kind: InstrumentKind) -> (r: Aggregator)
    ensures
        r@ == aggregator_for(kind),
        r is Histogram ==> r->bounds@.len() < usize::MAX,
{
    match kind {
        InstrumentKind::Counter => Aggregator::Sum { monotonic: true },
        InstrumentKind::UpDownCounter => Aggregator::Sum { monotonic: false },
        InstrumentKind::Gauge => Aggregator::LastValue,
        InstrumentKind::Histogram => {
            let bounds: Vec<i64> = vec![0, 5, 10, 25, 50, 75, 100, 250, 500, 750, 1000, 2500, 5000, 7500, 10000];
            proof {
                assert(bounds@ =~= default_bounds());
            }
            Aggregator::Histogram { bounds }
        },
    }
}

/// What a meter knows of one instrument.
pub struct InstrumentView {
    pub name: Seq<char>,
    pub description: Seq<char>,
    pub unit: Seq<char>,
    pub kind: InstrumentKind,
    pub temporality: Temporality,
    pub pending: Seq<Measurement>,
}

struct Instrument {
    name: String,
    description: String,
    unit: String,
    kind: InstrumentKind,
    store: AggregationStore,
    start_time: std::time::SystemTime,
}

impl Instrument {
    spec fn view(&self) -> InstrumentView {
        InstrumentView {
            name: self.name@,
            description: self.description@,
            unit: self.unit@,
            kind: self.kind,
            temporality: self.store.temporality_view(),
            pending: self.store.pending(),
        }
    }

    spec fn wf(&self) -> bool {
        &&& self.store.wf()
        &&& self.store.aggregator_view() == aggregator_for(self.kind)
    }
}

/// The data points of a metric as tracker views.
pub open spec fn metric_points(m: Metric) -> Seq<PointView> {
    data_points_view(m.data)
}

/// The data points of aggregated data as tracker views.
pub open spec fn data_points_view(d: AggregatedMetrics) -> Seq<PointView> {
    match d {
        AggregatedMetrics::GaugeI64(g) => g.data_points@.map_values(
            |p: GaugeDataPoint<i64>| (attrs_view(p.attributes@), TrackerView::LastValue(p.value)),
        ),
        AggregatedMetrics::SumI64(s) => s.data_points@.map_values(
            |p: SumDataPoint<i64>| (attrs_view(p.attributes@), TrackerView::Sum(p.value)),
        ),
        AggregatedMetrics::HistogramI64(h) => h.data_points@.map_values(
            |p: HistogramDataPoint<i64>|
                (
                    attrs_view(p.attributes@),
                    TrackerView::Histogram {
                        count: p.count,
                        sum: p.sum,
                        min: match p.min {
                            Some(v) => v,
                            None => i64::MAX,
                        },
                        max: match p.max {
                            Some(v) => v,
                            None => i64::MIN,
                        },
                        bucket_counts: p.bucket_counts@,
                    },
                ),
        ),
    }
}

/// The metric carries the variant that the instrument kind calls for, with the
/// instrument's temporality; a histogram's points carry the bounds, a minimum
/// and a maximum.
pub open spec fn data_matches(d: AggregatedMetrics, kind: InstrumentKind, temporality: Temporality) -> bool {
    match d {
        AggregatedMetrics::GaugeI64(_) => kind == InstrumentKind::Gauge,
        AggregatedMetrics::SumI64(s) => (kind == InstrumentKind::Counter || kind
            == InstrumentKind::UpDownCounter) && s.temporality == temporality && s.is_monotonic == (kind
            == InstrumentKind::Counter),
        AggregatedMetrics::HistogramI64(h) => kind == InstrumentKind::Histogram && h.temporality
            == temporality && forall|i: int|
            0 <= i < h.data_points@.len() ==> (#[trigger] h.data_points@[i]).bounds@ == default_bounds()
                && h.data_points@[i].min is Some && h.data_points@[i].max is Some,
    }
}

/// The metric reports one instrument's measurements: its name, description
/// and unit, the meter's
/// scope, the data that its kind calls for, and one point per series.
pub open spec fn reports(m: Metric, scope: ScopeView, inst: InstrumentView) -> bool {
    &&& m.scope@ == scope
    &&& m.name@ == inst.name
    &&& m.description@ == inst.description
    &&& m.unit@ == inst.unit
    &&& data_matches(m.data, inst.kind, inst.temporality)
    &&& describes(metric_points(m), aggregator_for(inst.kind), inst.pending)
}

/// Turns the store's points into the metric data of an instrument kind.
fn to_metric_data(
    kind: InstrumentKind,
    agg: &Aggregator,
    temporality: Temporality,
    points: Vec<DataPoint>,
    start_time: std::time::SystemTime,
    time: std::time::SystemTime,
) -> (r: AggregatedMetrics)
    requires
        agg@ == aggregator_for(kind),
        forall|i: int| 0 <= i < points@.len() ==> crate::aggregation::tracker_fits(agg@, #[trigger] points@[i].tracker@),
    ensures
        data_points_view(r) == crate::aggregation::points_view(points@),
        data_matches(r, kind, temporality),
{
    let ghost pv = crate::aggregation::points_view(points@);
    let ghost n = points@.len();
    match kind {
        InstrumentKind::Gauge => {
            let mut dps: Vec<GaugeDataPoint<i64>> = Vec::new();
            let mut i: usize = 0;
            while i < points.len()
                invariant
                    i <= points@.len(),
                    points@.len() == n,
                    pv == crate::aggregation::points_view(points@),
                    dps@.len() == i,
                    forall|j: int| 0 <= j < n ==> (#[trigger] points@[j]).tracker@ is LastValue,
                    forall|j: int|
                        0 <= j < i ==> (attrs_view((#[trigger] dps@[j]).attributes@), TrackerView::LastValue(
                            dps@[j].value,
                        )) == pv[j],
                decreases points@.len() - i,
            {
                let v = match &points[i].tracker {
                    Tracker::LastValue(v) => *v,
                    _ => 0,
                };
                let a = crate::attributes::copy_attributes(&points[i].attributes);
                dps.push(GaugeDataPoint { attributes: a, value: v });
                i = i + 1;
            }
            let r = AggregatedMetrics::GaugeI64(Gauge { data_points: dps, start_time: Some(start_time), time });
            proof {
                let mp = dps@.map_values(
                    |p: GaugeDataPoint<i64>| (attrs_view(p.attributes@), TrackerView::LastValue(p.value)),
                );
                assert(mp =~= pv);
            }
            r
        },
        InstrumentKind::Histogram => {
            let mut dps: Vec<HistogramDataPoint<i64>> = Vec::new();
            let bounds = match agg {
                Aggregator::Histogram { bounds } => crate::export::copy_vec(bounds),
                _ => Vec::new(),
            };
            let mut i: usize = 0;
            while i < points.len()
                invariant
                    i <= points@.len(),
                    points@.len() == n,
                    pv == crate::aggregation::points_view(points@),
                    dps@.len() == i,
                    bounds@ == default_bounds(),
                    forall|j: int| 0 <= j < n ==> (#[trigger] points@[j]).tracker@ is Histogram,
                    forall|j: int|
                        0 <= j < i ==> (#[trigger] dps@[j]).bounds@ == default_bounds() && dps@[j].min is Some
                            && dps@[j].max is Some && (attrs_view(dps@[j].attributes@), TrackerView::Histogram {
                            count: dps@[j].count,
                            sum: dps@[j].sum,
                            min: dps@[j].min->0,
                            max: dps@[j].max->0,
                            bucket_counts: dps@[j].bucket_counts@,
                        }) == pv[j],
                decreases points@.len() - i,
            {
                let a = crate::attributes::copy_attributes(&points[i].attributes);
                let dp = match &points[i].tracker {
                    Tracker::Histogram(h) => HistogramDataPoint {
                        attributes: a,
                        count: h.count,
                        bounds: crate::export::copy_vec(&bounds),
                        bucket_counts: crate::export::copy_vec(&h.bucket_counts),
                        min: Some(h.min),
                        max: Some(h.max),
                        sum: h.sum,
                    },
                    _ => HistogramDataPoint {
                        attributes: a,
                        count: 0,
                        bounds: crate::export::copy_vec(&bounds),
                        bucket_counts: Vec::new(),
                        min: None,
                        max: None,
                        sum: 0,
                    },
                };
                dps.push(dp);
                i = i + 1;
            }
            let r = AggregatedMetrics::HistogramI64(
                Histogram { data_points: dps, start_time, time, temporality },
            );
            proof {
                let mp = dps@.map_values(
                    |p: HistogramDataPoint<i64>|
                        (
                            attrs_view(p.attributes@),
                            TrackerView::Histogram {
                                count: p.count,
                                sum: p.sum,
                                min: match p.min {
                                    Some(v) => v,
                                    None => i64::MAX,
                                },
                                max: match p.max {
                                    Some(v) => v,
                                    None => i64::MIN,
                                },
                                bucket_counts: p.bucket_counts@,
                            },
                        ),
                );
                assert(mp =~= pv);
            }
            r
        },
        _ => {
            let mut dps: Vec<SumDataPoint<i64>> = Vec::new();
            let mut i: usize = 0;
            while i < points.len()
                invariant
                    i <= points@.len(),
                    points@.len() == n,
                    pv == crate::aggregation::points_view(points@),
                    dps@.len() == i,
                    forall|j: int| 0 <= j < n ==> (#[trigger] points@[j]).tracker@ is Sum,
                    forall|j: int|
                        0 <= j < i ==> (attrs_view((#[trigger] dps@[j]).attributes@), TrackerView::Sum(dps@[j].value))
                            == pv[j],
                decreases points@.len() - i,
            {
                let v = match &points[i].tracker {
                    Tracker::Sum(v) => *v,
                    _ => 0,
                };
                let a = crate::attributes::copy_attributes(&points[i].attributes);
                dps.push(SumDataPoint { attributes: a, value: v });
                i = i + 1;
            }
            let monotonic = match kind {
                InstrumentKind::Counter => true,
                _ => false,
            };
            let r = AggregatedMetrics::SumI64(
                Sum { data_points: dps, start_time, time, temporality, is_monotonic: monotonic },
            );
            proof {
                let mp = dps@.map_values(
                    |p: SumDataPoint<i64>| (attrs_view(p.attributes@), TrackerView::Sum(p.value)),
                );
                assert(mp =~= pv);
            }
            r
        },
    }
}

impl Instrument {
    fn collect(&mut self, scope: &InstrumentationScope) -> (r: Metric)
        requires
            old(self).wf(),
        ensures
            final(self).wf(),
            reports(r, scope@, old(self).view()),
            final(self).view() == (InstrumentView {
                pending: if old(self).view().temporality == Temporality::Delta {
                    Seq::<Measurement>::empty()
                } else {
                    old(self).view().pending
                },
                ..old(self).view()
            }),
    {
        let ghost agg = self.store.aggregator_view();
        let ghost pending = self.store.pending();
        let temporality = self.store.temporality();
        let points = self.store.collect();
        proof {
            crate::aggregation::lemma_points_fit(crate::aggregation::points_view(points@), agg, pending);
            assert forall|i: int| 0 <= i < points@.len() implies crate::aggregation::tracker_fits(
                agg,
                #[trigger] points@[i].tracker@,
            ) by {
                assert(crate::aggregation::points_view(points@)[i] == points@[i]@);
                assert(crate::aggregation::tracker_fits(agg, crate::aggregation::points_view(points@)[i].1));
            }
        }
        let now = std::time::SystemTime::now();
        let data = to_metric_data(self.kind, self.store.aggregator(), temporality, points, self.start_time, now);
        match temporality {
            Temporality::Delta => {
                self.start_time = now;
            },
            Temporality::Cumulative => {},
        }
        Metric {
            scope: scope.clone(),
            name: self.name.clone(),
            description: self.description.clone(),
            unit: self.unit.clone(),
            data,
        }
    }
}

/// The instruments created under one instrumentation scope.
pub struct SdkMeter {
    scope: InstrumentationScope,
    instruments: Vec<Instrument>,
}

impl SdkMeter {
    /// The meter's scope.
    pub closed spec fn scope_view(&self) -> ScopeView {
        self.scope@
    }

    /// The meter's instruments, in order of creation.
    pub closed spec fn instruments_view(&self) -> Seq<InstrumentView> {
        self.instruments@.map_values(|i: Instrument| i.view())
    }

    /// The meter's invariant.
    pub closed spec fn wf(&self) -> bool {
        forall|i: int| 0 <= i < self.instruments@.len() ==> (#[trigger] self.instruments@[i]).wf()
    }

    /// A meter with no instruments.
    pub fn new(scope: InstrumentationScope) -> (r: SdkMeter)
        ensures
            r.wf(),
            r.scope_view() == scope@,
            r.instruments_view() == Seq::<InstrumentView>::empty(),
    {
        let r = SdkMeter { scope, instruments: Vec::new() };
        proof {
            assert(r.instruments_view() =~= Seq::<InstrumentView>::empty());
        }
        r
    }

    /// The meter's scope.
    pub fn scope(&self) -> (r: &InstrumentationScope)
        ensures
            r@ == self.scope_view(),
    {
        &self.scope
    }

    /// The number of instruments.
    pub fn instrument_count(&self) -> (r: usize)
        ensures
            r == self.instruments_view().len(),
    {
        self.instruments.len()
    }

    /// Creates an instrument, or hands back the first one that has the same
    /// name and kind, which then shares its series with the caller.
    pub fn create_instrument(
        &mut self,
        name: String,
        description: String,
        unit: String,
        kind: InstrumentKind,
        temporality: Temporality,
    ) -> (r: usize)
        requires
            old(self).wf(),
        ensures
            final(self).wf(),
            final(self).scope_view() == old(self).scope_view(),
            match first_instrument(old(self).instruments_view(), name@, kind) {
                Some(i) => r == i && final(self).instruments_view() == old(self).instruments_view(),
                None => r == old(self).instruments_view().len() && final(self).instruments_view()
                    == old(self).instruments_view().push(
                    InstrumentView { name: name@, description: description@, unit: unit@, kind, temporality, pending: Seq::empty() },
                ),
            },
    {
        let ghost iv = self.instruments_view();
        let mut i: usize = 0;
        while i < self.instruments.len()
            invariant
                i <= self.instruments@.len(),
                iv == self.instruments_view(),
                self.wf(),
                self.scope@ == old(self).scope@,
                self.instruments@ == old(self).instruments@,
                first_instrument(iv, name@, kind) == first_from(iv, name@, kind, i as int),
            decreases self.instruments.len() - i,
        {
            proof {
                assert(iv[i as int] == self.instruments@[i as int].view());
            }
            if self.instruments[i].kind == kind && self.instruments[i].name == name {
                return i;
            }
            i = i + 1;
        }
        let agg = make_aggregator(kind);
        let store = AggregationStore::new(agg, temporality);
        let inst = Instrument {
            name,
            description,
            unit,
            kind,
            store,
            start_time: std::time::SystemTime::now(),
        };
        self.instruments.push(inst);
        proof {
            assert(self.instruments_view() =~= iv.push(
                InstrumentView { name: name@, description: description@, unit: unit@, kind, temporality, pending: Seq::empty() },
            ));
        }
        self.instruments.len() - 1
    }

    /// Creates a counter of non-negative increments (see `create_instrument`).
    pub fn u64_counter(&mut self, name: String, temporality: Temporality) -> (r: usize)
        requires
            old(self).wf(),
        ensures
            final(self).wf(),
            final(self).scope_view() == old(self).scope_view(),
            match first_instrument(old(self).instruments_view(), name@, InstrumentKind::Counter) {
                Some(i) => r == i && final(self).instruments_view() == old(self).instruments_view(),
                None => r == old(self).instruments_view().len() && final(self).instruments_view()
                    == old(self).instruments_view().push(
                    InstrumentView {
                        name: name@,
                        description: Seq::<char>::empty(),
                        unit: Seq::<char>::empty(),
                        kind: InstrumentKind::Counter,
                        temporality,
                        pending: Seq::empty(),
                    },
                ),
            },
    {
        self.create_instrument(name, String::new(), String::new(), InstrumentKind::Counter, temporality)
    }

    /// Records a measurement on an instrument of this meter.
    pub fn record(&mut self, instrument: usize, attributes: &Vec<KeyValue>, value: i64)
        requires
            old(self).wf(),
            instrument < old(self).instruments_view().len(),
        ensures
            final(self).wf(),
            final(self).scope_view() == old(self).scope_view(),
            final(self).instruments_view() == old(self).instruments_view().update(
                instrument as int,
                recorded(old(self).instruments_view()[instrument as int], attributes@, value),
            ),
    {
        let ghost iv = self.instruments_view();
        let mut inst = self.instruments.remove(instrument);
        proof {
            assert(iv[instrument as int] == inst.view());
        }
        inst.store.record(attributes, value);
        self.instruments.insert(instrument, inst);
        proof {
            assert(self.instruments_view() =~= iv.update(
                instrument as int,
                recorded(iv[instrument as int], attributes@, value),
            ));
        }
    }

    /// Collects every instrument of the meter, in order of creation. Delta
    /// instruments start afresh; cumulative ones keep their series.
    pub fn collect(&mut self) -> (r: Vec<Metric>)
        requires
            old(self).wf(),
        ensures
            final(self).wf(),
            final(self).scope_view() == old(self).scope_view(),
            r@.len() == old(self).instruments_view().len(),
            forall|i: int|
                0 <= i < r@.len() ==> reports(#[trigger] r@[i], old(self).scope_view(), old(self).instruments_view()[i]),
            final(self).instruments_view() == old(self).instruments_view().map_values(
                |v: InstrumentView| after_collect(v),
            ),
    {
        let ghost iv = self.instruments_view();
        let ghost n = iv.len();
        let mut rest: Vec<Instrument> = Vec::new();
        std::mem::swap(&mut rest, &mut self.instruments);
        let mut done: Vec<Instrument> = Vec::new();
        let mut metrics: Vec<Metric> = Vec::new();
        while rest.len() > 0
            invariant
                done@.len() + rest@.len() == n,
                metrics@.len() == done@.len(),
                forall|j: int| 0 <= j < rest@.len() ==> (#[trigger] rest@[j]).wf() && rest@[j].view() == iv[done@.len() + j],
                forall|j: int| 0 <= j < done@.len() ==> (#[trigger] done@[j]).wf() && done@[j].view() == after_collect(iv[j]),
                forall|j: int| 0 <= j < metrics@.len() ==> reports(#[trigger] metrics@[j], self.scope@, iv[j]),
            decreases rest@.len(),
        {
            let ghost k = done@.len() as int;
            let ghost before = rest@;
            let mut inst = rest.remove(0);
            proof {
                assert(inst.view() == iv[k]);
            }
            let m = inst.collect(&self.scope);
            metrics.push(m);
            done.push(inst);
            proof {
                assert forall|j: int| 0 <= j < rest@.len() implies (#[trigger] rest@[j]).wf() && rest@[j].view() == iv[done@.len() + j] by {
                    assert(rest@[j] == before[j + 1]);
                }
            }
        }
        self.instruments = done;
        proof {
            assert(self.instruments_view() =~= iv.map_values(|v: InstrumentView| after_collect(v)));
        }
        metrics
    }
}

/// The first instrument with the given name and kind, if any.
pub open spec fn first_instrument(iv: Seq<InstrumentView>, name: Seq<char>, kind: InstrumentKind) -> Option<int> {
    first_from(iv, name, kind, 0)
}

/// The first instrument at or after `i` with the given name and kind, if any.
pub open spec fn first_from(iv: Seq<InstrumentView>, name: Seq<char>, kind: InstrumentKind, i: int) -> Option<int>
    decreases iv.len() - i,
{
    if i < 0 || i >= iv.len() {
        None
    } else if iv[i].kind == kind && iv[i].name == name {
        Some(i)
    } else {
        first_from(iv, name, kind, i + 1)
    }
}

/// An instrument after one more measurement.
pub open spec fn recorded(v: InstrumentView, attributes: Seq<KeyValue>, value: i64) -> InstrumentView {
    InstrumentView {
        pending: if crate::aggregation::accepts(aggregator_for(v.kind), value) {
            v.pending.push((crate::attributes::canonical(attrs_view(attributes)), value))
        } else {
            v.pending
        },
        ..v
    }
}

/// An instrument after a collection: a delta one has no pending measurement.
pub open spec fn after_collect(v: InstrumentView) -> InstrumentView {
    InstrumentView {
        pending: if v.temporality == Temporality::Delta {
            Seq::empty()
        } else {
            v.pending
        },
        ..v
    }
}

} // verus!
