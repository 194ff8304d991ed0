//! A reader that collects and exports at a fixed interval.
//!
//! The reader's decisions live here; the background worker that waits on
//! a timer and a message channel runs them.
use vstd::prelude::*;

use crate::aggregation::series_values;
use crate::export::{InstrumentKind, Metric, MetricExporter, OTelSdkError, OTelSdkResult, Temporality};
use crate::meter::{metric_points, reports};
use crate::meter_provider::{flatten, idle, meters_after_collect, produced_from, MeterView, SdkMeterProviderInner};
use crate::reader::{can_collect, collect_error, phase_error_of, MetricReader, ReaderPhase};

verus! {

/// The export interval used when none is configured, in milliseconds.
pub const DEFAULT_INTERVAL_MS: u64 = 60000;

/// The export timeout used when none is configured, in milliseconds.
pub const DEFAULT_TIMEOUT_MS: u64 = 30000;

/// Whether a character is an ASCII decimal digit.
pub open spec fn is_digit(c: char) -> bool {
    '0' <= c && c <= '9'
}

/// The number that a sequence of decimal digits writes.
pub open spec fn digits_value(s: Seq<char>) -> int
    decreases s.len(),
{
    if s.len() == 0 {
        0
    } else {
        digits_value(s.drop_last()) * 10 + (s.last() as int - '0' as int)
    }
}

/// What a millisecond setting reads as: an optional `+`, then one or more
/// decimal digits whose value fits in a `u64`; anything else reads as nothing.
pub open spec fn setting_value(s: Seq<char>) -> Option<u64> {
    let d = unsigned_part(s);
    if d.len() > 0 && all_digits(d) && digits_value(d) <= u64::MAX {
        Some(digits_value(d) as u64)
    } else {
        None
    }
}

/// The text after an optional leading `+`.
pub open spec fn unsigned_part(s: Seq<char>) -> Seq<char> {
    if s.len() > 0 && s[0] == '+' {
        s.skip(1)
    } else {
        s
    }
}

/// Every character is a decimal digit.
pub open spec fn all_digits(d: Seq<char>) -> bool {
    forall|i: int| 0 <= i < d.len() ==> is_digit(#[trigger] d[i])
}

/// The value a setting gives, or the default where it gives none or zero.
pub open spec fn setting_or(s: Option<Seq<char>>, default: u64) -> u64 {
    match s {
        Some(t) => match setting_value(t) {
            Some(v) if v != 0 => v,
            _ => default,
        },
        None => default,
    }
}

proof fn lemma_digits_prefix_grows(s: Seq<char>, i: int)
    requires
        0 <= i <= s.len(),
        forall|j: int| 0 <= j < s.len() ==> is_digit(#[trigger] s[j]),
    ensures
        digits_value(s.subrange(0, i)) <= digits_value(s),
        0 <= digits_value(s.subrange(0, i)),
    decreases s.len() - i,
{
    if i < s.len() {
        lemma_digits_prefix_grows(s, i + 1);
        let p = s.subrange(0, i + 1);
        assert(p.drop_last() =~= s.subrange(0, i));
        assert(is_digit(s[i]));
        assert(digits_value(p) == digits_value(s.subrange(0, i)) * 10 + (s[i] as int - '0' as int));
    } else {
        assert(s.subrange(0, i) =~= s);
        lemma_digits_nonneg(s);
    }
}

proof fn lemma_digits_nonneg(s: Seq<char>)
    requires
        forall|j: int| 0 <= j < s.len() ==> is_digit(#[trigger] s[j]),
    ensures
        0 <= digits_value(s),
    decreases s.len(),
{
    if s.len() > 0 {
        let d = s.drop_last();
        assert forall|j: int| 0 <= j < d.len() implies is_digit(#[trigger] d[j]) by {
            assert(d[j] == s[j]);
        }
        lemma_digits_nonneg(d);
        assert(is_digit(s[s.len() - 1]));
    }
}

/// Reads a millisecond setting (see `setting_value`).
pub fn parse_millis(s: &str) -> (r: Option<u64>)
    ensures
        r == setting_value(s@),
{
    let n = s.unicode_len();
    let mut start: usize = 0;
    if n > 0 && s.get_char(0) == '+' {
        start = 1;
    }
    let ghost d = unsigned_part(s@);
    proof {
        assert(d =~= s@.subrange(start as int, n as int));
    }
    if start >= n {
        return None;
    }
    let mut value: u64 = 0;
    let mut i: usize = start;
    while i < n
        invariant
            start <= i <= n,
            n == s@.len(),
            d =~= s@.subrange(start as int, n as int),
            d == unsigned_part(s@),
            forall|j: int| start <= j < i ==> is_digit(#[trigger] s@[j]),
            value as int == digits_value(s@.subrange(start as int, i as int)),
        decreases n - i,
    {
        let c = s.get_char(i);
        if !('0' <= c && c <= '9') {
            proof {
                assert(d[i - start] == c);
                assert(!is_digit(d[i - start]));
            }
            return None;
        }
        let digit = (c as u32 - '0' as u32) as u64;
        let ghost p = s@.subrange(start as int, i + 1);
        proof {
            assert(p.drop_last() =~= s@.subrange(start as int, i as int));
            assert(digits_value(p) == value * 10 + digit);
        }
        match value.checked_mul(10) {
            Some(v10) => match v10.checked_add(digit) {
                Some(v) => {
                    value = v;
                },
                None => {
                    proof {
                        lemma_overflow_none(s@, d, start as int, i as int);
                    }
                    return None;
                },
            },
            None => {
                proof {
                    lemma_overflow_none(s@, d, start as int, i as int);
                }
                return None;
            },
        }
        i = i + 1;
    }
    proof {
        assert(s@.subrange(start as int, n as int) =~= d);
        assert forall|j: int| 0 <= j < d.len() implies is_digit(#[trigger] d[j]) by {
            assert(d[j] == s@[start + j]);
        }
        assert(all_digits(d));
    }
    Some(value)
}

proof fn lemma_overflow_none(s: Seq<char>, d: Seq<char>, start: int, i: int)
    requires
        0 <= start <= i < s.len(),
        d == s.subrange(start, s.len() as int),
        d == unsigned_part(s),
        forall|j: int| start <= j <= i ==> is_digit(#[trigger] s[j]),
        digits_value(s.subrange(start, i + 1)) > u64::MAX,
    ensures
        setting_value(s) is None,
{
    assert(d.len() > 0);
    if all_digits(d) {
        lemma_digits_prefix_grows(d, i + 1 - start);
        assert(d.subrange(0, i + 1 - start) =~= s.subrange(start, i + 1));
    }
}

/// Configuration of a [`PeriodicReader`]: export interval and timeout in
/// milliseconds, and the exporter.
pub struct PeriodicReaderBuilder<E> {
    interval: u64,
    timeout: u64,
    exporter: E,
}

impl<E: MetricExporter> PeriodicReaderBuilder<E> {
    /// The configured interval, in milliseconds.
    pub closed spec fn interval_ms(&self) -> u64 {
        self.interval
    }

    /// The configured timeout, in milliseconds.
    pub closed spec fn timeout_ms(&self) -> u64 {
        self.timeout
    }

    fn new(exporter: E) -> (r: Self)
        ensures
            r.interval_ms() == DEFAULT_INTERVAL_MS,
            r.timeout_ms() == DEFAULT_TIMEOUT_MS,
    {
        PeriodicReaderBuilder { interval: DEFAULT_INTERVAL_MS, timeout: DEFAULT_TIMEOUT_MS, exporter }
    }

    /// A configuration from the text of the interval and timeout settings (the
    /// environment's `OTEL_METRIC_EXPORT_INTERVAL` and
    /// `OTEL_METRIC_EXPORT_TIMEOUT`), each read as milliseconds; a missing,
    /// unreadable or zero setting gives the default.
    pub fn from_settings(exporter: E, interval: Option<String>, timeout: Option<String>) -> (r: Self)
        ensures
            r.interval_ms() == setting_or(crate::export::opt_view(interval), DEFAULT_INTERVAL_MS),
            r.timeout_ms() == setting_or(crate::export::opt_view(timeout), DEFAULT_TIMEOUT_MS),
    {
        let i = match &interval {
            Some(s) => match parse_millis(s.as_str()) {
                Some(v) => if v != 0 { v } else { DEFAULT_INTERVAL_MS },
                None => DEFAULT_INTERVAL_MS,
            },
            None => DEFAULT_INTERVAL_MS,
        };
        let t = match &timeout {
            Some(s) => match parse_millis(s.as_str()) {
                Some(v) => if v != 0 { v } else { DEFAULT_TIMEOUT_MS },
                None => DEFAULT_TIMEOUT_MS,
            },
            None => DEFAULT_TIMEOUT_MS,
        };
        PeriodicReaderBuilder { interval: i, timeout: t, exporter }
    }

    /// Sets the time between exports, in milliseconds; zero keeps the
    /// current value.
    pub fn with_interval(self, interval: u64) -> (r: Self)
        ensures
            r.interval_ms() == if interval == 0 { self.interval_ms() } else { interval },
            r.timeout_ms() == self.timeout_ms(),
    {
        let mut b = self;
        if interval != 0 {
            b.interval = interval;
        }
        b
    }

    /// Sets the time an export may take, in milliseconds; zero keeps the
    /// current value. The reader passes it on and does not enforce it.
    pub fn with_timeout(self, timeout: u64) -> (r: Self)
        ensures
            r.timeout_ms() == if timeout == 0 { self.timeout_ms() } else { timeout },
            r.interval_ms() == self.interval_ms(),
    {
        let mut b = self;
        if timeout != 0 {
            b.timeout = timeout;
        }
        b
    }

    /// The reader this configuration describes, not yet registered.
    pub fn build(self) -> (r: PeriodicReader<E>)
        ensures
            r.interval_ms() == self.interval_ms(),
            r.timeout_ms() == self.timeout_ms(),
            r.phase() == ReaderPhase::Unregistered,
    {
        PeriodicReader {
            exporter: self.exporter,
            interval: self.interval,
            timeout: self.timeout,
            phase: ReaderPhase::Unregistered,
        }
    }
}

/// A reader whose background worker collects and exports every interval,
/// and on flush and shutdown.
pub struct PeriodicReader<E> {
    exporter: E,
    interval: u64,
    timeout: u64,
    phase: ReaderPhase,
}

/// The number of data points over all metrics.
pub open spec fn total_points(metrics: Seq<Metric>) -> nat
    decreases metrics.len(),
{
    if metrics.len() == 0 {
        0
    } else {
        total_points(metrics.drop_last()) + metrics.last().point_count()
    }
}

proof fn lemma_idle_no_points(metrics: Seq<Metric>, meters: Seq<MeterView>)
    requires
        produced_from(metrics, meters),
        idle(meters),
    ensures
        total_points(metrics) == 0,
{
    assert forall|i: int| 0 <= i < metrics.len() implies (#[trigger] metrics[i]).point_count() == 0 by {
        let f = flatten(meters)[i];
        assert(reports(metrics[i], f.0, f.1));
        let pts = metric_points(metrics[i]);
        if pts.len() > 0 {
            assert(series_values(f.1.pending, pts[0].0).len() > 0);
            assert(f.1.pending.len() == 0);
        }
    }
    lemma_total_zero(metrics);
}

proof fn lemma_total_zero(metrics: Seq<Metric>)
    requires
        forall|i: int| 0 <= i < metrics.len() ==> (#[trigger] metrics[i]).point_count() == 0,
    ensures
        total_points(metrics) == 0,
    decreases metrics.len(),
{
    if metrics.len() > 0 {
        let d = metrics.drop_last();
        assert forall|i: int| 0 <= i < d.len() implies (#[trigger] d[i]).point_count() == 0 by {
            assert(d[i] == metrics[i]);
        }
        lemma_total_zero(d);
        assert(metrics[metrics.len() - 1].point_count() == 0);
    }
}

/// Whether any of the metrics holds a data point.
pub fn has_data_points(metrics: &Vec<Metric>) -> (r: bool)
    ensures
        r == (total_points(metrics@) > 0),
{
    let mut i: usize = 0;
    let mut any: bool = false;
    while i < metrics.len()
        invariant
            i <= metrics@.len(),
            any <==> total_points(metrics@.subrange(0, i as int)) > 0,
        decreases metrics.len() - i,
    {
        let c = metrics[i].data_point_count();
        proof {
            let p = metrics@.subrange(0, i + 1);
            assert(p.drop_last() =~= metrics@.subrange(0, i as int));
        }
        if c > 0 {
            any = true;
        }
        i = i + 1;
    }
    proof {
        assert(metrics@.subrange(0, i as int) =~= metrics@);
    }
    any
}

impl<E: MetricExporter> PeriodicReader<E> {
    /// The configuration of a reader of the exporter, with the default
    /// interval and timeout.
    pub fn builder(exporter: E) -> (r: PeriodicReaderBuilder<E>)
        ensures
            r.interval_ms() == DEFAULT_INTERVAL_MS,
            r.timeout_ms() == DEFAULT_TIMEOUT_MS,
    {
        PeriodicReaderBuilder::new(exporter)
    }

    /// The time between exports, in milliseconds.
    pub closed spec fn interval_ms(&self) -> u64 {
        self.interval
    }

    /// The time an export may take, in milliseconds.
    pub closed spec fn timeout_ms(&self) -> u64 {
        self.timeout
    }

    /// The exporter the reader hands metrics to.
    pub closed spec fn exporter_view(&self) -> E {
        self.exporter
    }

    /// The exporter the reader hands metrics to.
    pub fn exporter(&self) -> (r: &E)
        ensures
            *r == self.exporter_view(),
    {
        &self.exporter
    }

    /// The time between exports, in milliseconds.
    pub fn interval(&self) -> (r: u64)
        ensures
            r == self.interval_ms(),
    {
        self.interval
    }

    /// The time an export may take, in milliseconds.
    pub fn timeout(&self) -> (r: u64)
        ensures
            r == self.timeout_ms(),
    {
        self.timeout
    }

    /// Collects from the provider and hands the metrics to the exporter. A
    /// collection without any data point makes no exporter call and succeeds.
    pub fn collect_and_export(&self, provider: &mut SdkMeterProviderInner) -> (r: OTelSdkResult)
        requires
            old(provider).wf(),
        ensures
            final(provider).wf(),
            final(provider).is_shut_down() == old(provider).is_shut_down(),
            final(provider).resource_view() == old(provider).resource_view(),
            can_collect(self.phase(), old(provider).is_shut_down()) ==> final(provider).meters_view()
                == meters_after_collect(old(provider).meters_view()),
            can_collect(self.phase(), old(provider).is_shut_down()) && idle(old(provider).meters_view()) ==> r
                == Ok::<(), OTelSdkError>(()),
            !can_collect(self.phase(), old(provider).is_shut_down()) ==> r == Err::<(), OTelSdkError>(
                collect_error(self.phase(), old(provider).is_shut_down()),
            ) && final(provider).meters_view() == old(provider).meters_view(),
    {
        let metrics = match self.collect(provider) {
            Ok(m) => m,
            Err(e) => {
                return Err(e);
            },
        };
        proof {
            if idle(old(provider).meters_view()) {
                lemma_idle_no_points(metrics@, old(provider).meters_view());
            }
        }
        if !has_data_points(&metrics) {
            return Ok(());
        }
        self.exporter.export(metrics.as_slice())
    }
}

impl<E: MetricExporter> MetricReader for PeriodicReader<E> {
    closed spec fn phase(&self) -> ReaderPhase {
        self.phase
    }

    /// A flush with no data point to export makes no exporter call.
    open spec fn skips_idle_export(&self) -> bool {
        true
    }

    fn current_phase(&self) -> (r: ReaderPhase) {
        self.phase
    }

    fn register_provider(&mut self) {
        if self.phase == ReaderPhase::Unregistered {
            self.phase = ReaderPhase::Registered;
        }
    }

    fn collect(&self, provider: &mut SdkMeterProviderInner) -> (r: Result<Vec<Metric>, OTelSdkError>) {
        match self.phase {
            ReaderPhase::Registered => provider.collect(),
            p => Err(phase_error_of(p)),
        }
    }

    fn force_flush(&mut self, provider: &mut SdkMeterProviderInner) -> (r: OTelSdkResult) {
        if self.phase == ReaderPhase::ShutDown {
            return Err(OTelSdkError::AlreadyShutdown);
        }
        self.collect_and_export(provider)
    }

    /// The final collection runs while the reader is registered with a live
    /// provider; where it cannot, the shutdown fails with its error.
    fn shutdown(&mut self, provider: &mut SdkMeterProviderInner) -> (r: OTelSdkResult)
        ensures
            can_collect(old(self).phase(), old(provider).is_shut_down()) ==> final(provider).meters_view()
                == meters_after_collect(old(provider).meters_view()),
            old(self).phase() != ReaderPhase::ShutDown && !can_collect(old(self).phase(), old(provider).is_shut_down())
                ==> r == Err::<(), OTelSdkError>(collect_error(old(self).phase(), old(provider).is_shut_down())),
    {
        if self.phase == ReaderPhase::ShutDown {
            return Err(OTelSdkError::AlreadyShutdown);
        }
        let last = self.collect_and_export(provider);
        let closed = self.exporter.shutdown();
        self.phase = ReaderPhase::ShutDown;
        match last {
            Ok(()) => closed,
            Err(e) => Err(e),
        }
    }

    fn temporality(&self, kind: InstrumentKind) -> Temporality {
        self.exporter.temporality()
    }
}

/// What the background worker woke up for.
#[derive(PartialEq, Eq, Structural, Clone, Copy, Debug)]
pub enum WorkerEvent {
    /// The wait for a message ran out: time for the scheduled export.
    Timeout,
    /// A flush was requested.
    Flush,
    /// A shutdown was requested.
    Shutdown,
    /// The message channel closed.
    Disconnected,
}

/// What the background worker does next.
#[derive(PartialEq, Eq, Structural, Clone, Copy, Debug)]
pub enum WorkerAction {
    /// Collect and export, then adjust the schedule by the export's duration.
    ExportOnTimer,
    /// Flush, reply, then adjust the schedule by the time since the window began.
    FlushAndReply,
    /// Shut the reader down, reply, and stop.
    ShutdownAndStop,
    /// Stop without a final export.
    Stop,
}

/// The worker's action for an event.
pub fn action_for(event: WorkerEvent) -> (r: WorkerAction)
    ensures
        event == WorkerEvent::Timeout ==> r == WorkerAction::ExportOnTimer,
        event == WorkerEvent::Flush ==> r == WorkerAction::FlushAndReply,
        event == WorkerEvent::Shutdown ==> r == WorkerAction::ShutdownAndStop,
        event == WorkerEvent::Disconnected ==> r == WorkerAction::Stop,
{
    match event {
        WorkerEvent::Timeout => WorkerAction::ExportOnTimer,
        WorkerEvent::Flush => WorkerAction::FlushAndReply,
        WorkerEvent::Shutdown => WorkerAction::ShutdownAndStop,
        WorkerEvent::Disconnected => WorkerAction::Stop,
    }
}

/// The worker's schedule: the interval, and how long to wait for the next
/// message before the scheduled export, in milliseconds.
pub struct ExportSchedule {
    interval: u64,
    remaining: u64,
}

impl ExportSchedule {
    /// The interval, in milliseconds.
    pub closed spec fn interval_ms(&self) -> u64 {
        self.interval
    }

    /// The wait before the next scheduled export, in milliseconds.
    pub closed spec fn remaining_ms(&self) -> u64 {
        self.remaining
    }

    /// A schedule whose first export is one interval away.
    pub fn new(interval: u64) -> (r: ExportSchedule)
        ensures
            r.interval_ms() == interval,
            r.remaining_ms() == interval,
    {
        ExportSchedule { interval, remaining: interval }
    }

    /// The wait before the next scheduled export, in milliseconds.
    pub fn remaining(&self) -> (r: u64)
        ensures
            r == self.remaining_ms(),
    {
        self.remaining
    }

    /// After a scheduled export that took `took` milliseconds: the next one
    /// comes one interval after this one began, and at once where the export
    /// overran the interval, with no burst to catch up.
    pub fn after_timed_export(&mut self, took: u64)
        ensures
            final(self).interval_ms() == old(self).interval_ms(),
            final(self).remaining_ms() == if took > old(self).interval_ms() {
                0
            } else {
                (old(self).interval_ms() - took) as u64
            },
    {
        if took > self.interval {
            self.remaining = 0;
        } else {
            self.remaining = self.interval - took;
        }
    }

    /// After a flush, `elapsed` milliseconds into the current window: the
    /// next export keeps its time, unless the window is over, where it comes
    /// at once and a new window begins (the result says so).
    pub fn after_flush(&mut self, elapsed: u64) -> (restart: bool)
        ensures
            final(self).interval_ms() == old(self).interval_ms(),
            restart == (elapsed >= old(self).interval_ms()),
            final(self).remaining_ms() == if elapsed < old(self).interval_ms() {
                (old(self).interval_ms() - elapsed) as u64
            } else {
                0
            },
    {
        if elapsed < self.interval {
            self.remaining = self.interval - elapsed;
            false
        } else {
            self.remaining = 0;
            true
        }
    }
}

} // verus!
