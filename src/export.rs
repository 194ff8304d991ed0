//! The exported data model and the exporter interface.
use vstd::prelude::*;

use crate::attributes::{attrs_view, copy_attributes, AttrView, KeyValue};

verus! {

/// std's wall-clock time, carried through data points and span builders
/// without being read.
#[verifier::external_type_specification]
#[verifier::external_body]
pub struct ExSystemTime(std::time::SystemTime);

/// Relies on std's SystemTime::now: the wall-clock time, of which nothing is
/// promised.
pub assume_specification[ std::time::SystemTime::now ]() -> std::time::SystemTime;

/// Whether a collection reports the change since the previous one, or the
/// running total since the start.
#[derive(PartialEq, Eq, Structural, Clone, Copy, Debug)]
pub enum Temporality {
    Cumulative,
    Delta,
}

/// The kinds of instruments a meter creates.
#[derive(PartialEq, Eq, Structural, Clone, Copy, Debug)]
pub enum InstrumentKind {
    Counter,
    UpDownCounter,
    Gauge,
    Histogram,
}

/// Errors of the collection and export operations.
#[derive(PartialEq, Eq, Structural, Clone, Copy, Debug)]
pub enum OTelSdkError {
    /// The component was shut down before the call.
    AlreadyShutdown,
    /// No provider is registered with the reader.
    NotRegistered,
    /// The exporter or the background worker reported a failure.
    InternalFailure,
}

/// The result of an operation that returns nothing on success.
pub type OTelSdkResult = Result<(), OTelSdkError>;

/// The identity under which a meter and its instruments are grouped.
pub struct InstrumentationScope {
    pub name: String,
    pub version: Option<String>,
    pub schema_url: Option<String>,
    pub attributes: Vec<KeyValue>,
}

/// The mathematical content of an [`InstrumentationScope`].
pub type ScopeView = (Seq<char>, Option<Seq<char>>, Option<Seq<char>>, Seq<AttrView>);

/// The view of an optional string.
pub open spec fn opt_view(s: Option<String>) -> Option<Seq<char>> {
    match s {
        Some(v) => Some(v@),
        None => None,
    }
}

fn copy_opt(s: &Option<String>) -> (r: Option<String>)
    ensures
        opt_view(r) == opt_view(*s),
{
    match s {
        Some(v) => Some(v.clone()),
        None => None,
    }
}

fn same_opt(a: &Option<String>, b: &Option<String>) -> (r: bool)
    ensures
        r == (opt_view(*a) == opt_view(*b)),
{
    match (a, b) {
        (Some(x), Some(y)) => *x == *y,
        (None, None) => true,
        _ => false,
    }
}

impl View for InstrumentationScope {
    type V = ScopeView;

    open spec fn view(&self) -> ScopeView {
        (self.name@, opt_view(self.version), opt_view(self.schema_url), attrs_view(self.attributes@))
    }
}

impl Clone for InstrumentationScope {
    fn clone(&self) -> (r: Self)
        ensures
            r@ == self@,
    {
        InstrumentationScope {
            name: self.name.clone(),
            version: copy_opt(&self.version),
            schema_url: copy_opt(&self.schema_url),
            attributes: copy_attributes(&self.attributes),
        }
    }
}

impl InstrumentationScope {
    /// A scope with only a name.
    pub fn from_name(name: String) -> (r: InstrumentationScope)
        ensures
            r@ == (name@, None::<Seq<char>>, None::<Seq<char>>, Seq::<AttrView>::empty()),
    {
        let r = InstrumentationScope { name, version: None, schema_url: None, attributes: Vec::new() };
        proof {
            assert(attrs_view(r.attributes@) =~= Seq::<AttrView>::empty());
        }
        r
    }

    /// Whether two scopes are the same identity.
    pub fn same_as(&self, other: &InstrumentationScope) -> (r: bool)
        ensures
            r == (self@ == other@),
    {
        self.name == other.name && same_opt(&self.version, &other.version) && same_opt(
            &self.schema_url,
            &other.schema_url,
        ) && crate::attributes::same_attributes(&self.attributes, &other.attributes)
    }
}

/// A single data point of a gauge.
pub struct GaugeDataPoint<T> {
    pub attributes: Vec<KeyValue>,
    pub value: T,
}

impl<T: Copy> Clone for GaugeDataPoint<T> {
    fn clone(&self) -> (r: Self)
        ensures
            attrs_view(r.attributes@) == attrs_view(self.attributes@),
            r.value == self.value,
    {
        GaugeDataPoint { attributes: copy_attributes(&self.attributes), value: self.value }
    }
}

/// Gauge data: the last value of each series.
pub struct Gauge<T> {
    pub data_points: Vec<GaugeDataPoint<T>>,
    pub start_time: Option<std::time::SystemTime>,
    pub time: std::time::SystemTime,
}

/// A single data point of a sum.
pub struct SumDataPoint<T> {
    pub attributes: Vec<KeyValue>,
    pub value: T,
}

impl<T: Copy> Clone for SumDataPoint<T> {
    fn clone(&self) -> (r: Self)
        ensures
            attrs_view(r.attributes@) == attrs_view(self.attributes@),
            r.value == self.value,
    {
        SumDataPoint { attributes: copy_attributes(&self.attributes), value: self.value }
    }
}

/// Sum data: the total of each series.
pub struct Sum<T> {
    pub data_points: Vec<SumDataPoint<T>>,
    pub start_time: std::time::SystemTime,
    pub time: std::time::SystemTime,
    pub temporality: Temporality,
    pub is_monotonic: bool,
}

/// A single data point of a histogram.
pub struct HistogramDataPoint<T> {
    pub attributes: Vec<KeyValue>,
    pub count: u64,
    /// The upper bounds of the buckets; the last bucket has none.
    pub bounds: Vec<i64>,
    pub bucket_counts: Vec<u64>,
    pub min: Option<T>,
    pub max: Option<T>,
    pub sum: T,
}

/// A copy of a vector of plain values.
pub(crate) fn copy_vec<T: Copy>(v: &Vec<T>) -> (r: Vec<T>)
    ensures
        r@ == v@,
{
    let mut r: Vec<T> = Vec::new();
    let mut i: usize = 0;
    while i < v.len()
        invariant
            i <= v.len(),
            r@ == v@.subrange(0, i as int),
        decreases v.len() - i,
    {
        r.push(v[i]);
        proof {
            assert(v@.subrange(0, i + 1) =~= v@.subrange(0, i as int).push(v@[i as int]));
        }
        i = i + 1;
    }
    proof {
        assert(v@.subrange(0, i as int) =~= v@);
    }
    r
}

impl<T: Copy> Clone for HistogramDataPoint<T> {
    fn clone(&self) -> (r: Self)
        ensures
            attrs_view(r.attributes@) == attrs_view(self.attributes@),
            r.count == self.count,
            r.bounds@ == self.bounds@,
            r.bucket_counts@ == self.bucket_counts@,
            r.min == self.min,
            r.max == self.max,
            r.sum == self.sum,
    {
        HistogramDataPoint {
            attributes: copy_attributes(&self.attributes),
            count: self.count,
            bounds: copy_vec(&self.bounds),
            bucket_counts: copy_vec(&self.bucket_counts),
            min: self.min,
            max: self.max,
            sum: self.sum,
        }
    }
}

/// Histogram data: the bucketed distribution of each series.
pub struct Histogram<T> {
    pub data_points: Vec<HistogramDataPoint<T>>,
    pub start_time: std::time::SystemTime,
    pub time: std::time::SystemTime,
    pub temporality: Temporality,
}

/// The aggregated data of one metric.
pub enum AggregatedMetrics {
    GaugeI64(Gauge<i64>),
    SumI64(Sum<i64>),
    HistogramI64(Histogram<i64>),
}

/// One exported metric: the instrument's identity and its aggregated data.
pub struct Metric {
    pub scope: InstrumentationScope,
    pub name: String,
    pub description: String,
    pub unit: String,
    pub data: AggregatedMetrics,
}

impl Metric {
    /// The number of time series (data points) the metric holds.
    pub open spec fn point_count(&self) -> nat {
        match self.data {
            AggregatedMetrics::GaugeI64(g) => g.data_points@.len(),
            AggregatedMetrics::SumI64(s) => s.data_points@.len(),
            AggregatedMetrics::HistogramI64(h) => h.data_points@.len(),
        }
    }

    /// The number of time series (data points) the metric holds.
    pub fn data_point_count(&self) -> (r: usize)
        ensures
            r == self.point_count(),
    {
        match &self.data {
            AggregatedMetrics::GaugeI64(g) => g.data_points.len(),
            AggregatedMetrics::SumI64(s) => s.data_points.len(),
            AggregatedMetrics::HistogramI64(h) => h.data_points.len(),
        }
    }
}

/// Consumes batches of metrics and transmits or renders them. Implemented per
/// backend; the pipeline never retries a failed call.
pub trait MetricExporter {
    /// Exports one batch of metrics.
    fn export(&self, metrics: &[Metric]) -> OTelSdkResult;

    /// Flushes any metric data the exporter holds.
    fn force_flush(&self) -> OTelSdkResult;

    /// Releases the exporter's resources; later exports fail.
    fn shutdown(&self) -> OTelSdkResult;

    /// The temporality the exporter asks for.
    fn temporality(&self) -> Temporality;
}

} // verus!
