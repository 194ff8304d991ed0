use std::sync::{Arc, Mutex};

use otel_metrics::attributes::{KeyValue, Value};
use otel_metrics::export::{
    AggregatedMetrics, Metric, MetricExporter, OTelSdkError, OTelSdkResult, Temporality,
};
use otel_metrics::meter_provider::SdkMeterProvider;
use otel_metrics::meter_provider::SdkMeterProviderInner;
use otel_metrics::periodic_reader::{
    action_for, parse_millis, ExportSchedule, PeriodicReader, PeriodicReaderBuilder, WorkerAction,
    WorkerEvent, DEFAULT_INTERVAL_MS, DEFAULT_TIMEOUT_MS,
};
use otel_metrics::reader::{MetricReader, ReaderPhase};
use otel_metrics::resource::Resource;

type Point = (Vec<(String, i64)>, i64);
type Batch = Vec<(String, Vec<Point>)>;

#[derive(Clone)]
struct InMemoryExporter {
    batches: Arc<Mutex<Vec<Batch>>>,
    temporality: Temporality,
}

impl InMemoryExporter {
    fn new(temporality: Temporality) -> Self {
        InMemoryExporter { batches: Arc::new(Mutex::new(Vec::new())), temporality }
    }

    fn batches(&self) -> Vec<Batch> {
        self.batches.lock().unwrap().clone()
    }
}

fn attrs_of(kvs: &[KeyValue]) -> Vec<(String, i64)> {
    kvs.iter()
        .map(|kv| {
            let v = match &kv.value {
                Value::I64(i) => *i,
                _ => -1,
            };
            (kv.key.clone(), v)
        })
        .collect()
}

impl MetricExporter for InMemoryExporter {
    fn export(&self, metrics: &[Metric]) -> OTelSdkResult {
        let mut batch = Vec::new();
        for m in metrics {
            let points: Vec<Point> = match &m.data {
                AggregatedMetrics::SumI64(s) => {
                    s.data_points.iter().map(|p| (attrs_of(&p.attributes), p.value)).collect()
                }
                AggregatedMetrics::GaugeI64(g) => {
                    g.data_points.iter().map(|p| (attrs_of(&p.attributes), p.value)).collect()
                }
                AggregatedMetrics::HistogramI64(h) => {
                    h.data_points.iter().map(|p| (attrs_of(&p.attributes), p.sum)).collect()
                }
            };
            batch.push((m.name.clone(), points));
        }
        self.batches.lock().unwrap().push(batch);
        Ok(())
    }

    fn force_flush(&self) -> OTelSdkResult {
        Ok(())
    }

    fn shutdown(&self) -> OTelSdkResult {
        Ok(())
    }

    fn temporality(&self) -> Temporality {
        self.temporality
    }
}

fn kv(k: &str, v: i64) -> KeyValue {
    KeyValue::new(k.to_string(), Value::I64(v))
}

fn reader_with_interval(exporter: &InMemoryExporter, interval: u64) -> PeriodicReader<InMemoryExporter> {
    PeriodicReader::builder(exporter.clone()).with_interval(interval).build()
}

#[test]
fn shutdown_repeat() {
    let exporter = InMemoryExporter::new(Temporality::Cumulative);
    let reader = reader_with_interval(&exporter, 1);
    let mut meter_provider = SdkMeterProvider::builder().with_reader(reader).build();
    let result = meter_provider.shutdown();
    assert!(result.is_ok());

    let result = meter_provider.shutdown();
    assert!(result.is_err());

    let result = meter_provider.shutdown();
    assert!(result.is_err());
}

#[test]
fn flush_after_shutdown() {
    let exporter = InMemoryExporter::new(Temporality::Cumulative);
    let reader = reader_with_interval(&exporter, 1);
    let mut meter_provider = SdkMeterProvider::builder().with_reader(reader).build();
    let result = meter_provider.force_flush();
    assert!(result.is_ok());

    let result = meter_provider.shutdown();
    assert!(result.is_ok());

    let result = meter_provider.force_flush();
    assert!(result.is_err());
}

#[test]
fn flush_repeat() {
    let exporter = InMemoryExporter::new(Temporality::Cumulative);
    let reader = reader_with_interval(&exporter, 1);
    let mut meter_provider = SdkMeterProvider::builder().with_reader(reader).build();
    let result = meter_provider.force_flush();
    assert!(result.is_ok());

    let result = meter_provider.force_flush();
    assert!(result.is_ok());
}

#[test]
fn periodic_reader_without_pipeline() {
    let exporter = InMemoryExporter::new(Temporality::Cumulative);
    let mut reader = reader_with_interval(&exporter, 1);
    let mut unattached = SdkMeterProviderInner::new(Resource::empty());

    let result = reader.collect(&mut unattached);
    assert!(result.is_err());

    let result = reader.force_flush(&mut unattached);
    assert!(result.is_err());

    let mut meter_provider = SdkMeterProvider::builder().with_reader(reader).build();

    let result = meter_provider.collect(0);
    assert!(result.is_ok());

    let result = meter_provider.force_flush();
    assert!(result.is_ok());
}

#[test]
fn builder_defaults_and_zero_keeps_default() {
    let exporter = InMemoryExporter::new(Temporality::Cumulative);
    let reader = PeriodicReader::builder(exporter.clone()).with_interval(0).with_timeout(0).build();
    assert_eq!(reader.interval(), DEFAULT_INTERVAL_MS);
    assert_eq!(reader.timeout(), DEFAULT_TIMEOUT_MS);
    assert_eq!(reader.interval(), 60000);
    assert_eq!(reader.timeout(), 30000);

    let reader = PeriodicReader::builder(exporter).with_interval(50).with_timeout(20).build();
    assert_eq!(reader.interval(), 50);
    assert_eq!(reader.timeout(), 20);
    assert_eq!(reader.current_phase(), ReaderPhase::Unregistered);
}

#[test]
fn settings_are_read_as_milliseconds() {
    let exporter = InMemoryExporter::new(Temporality::Cumulative);
    let reader = PeriodicReaderBuilder::from_settings(
        exporter.clone(),
        Some("1500".to_string()),
        Some("+250".to_string()),
    )
    .build();
    assert_eq!(reader.interval(), 1500);
    assert_eq!(reader.timeout(), 250);

    let reader = PeriodicReaderBuilder::from_settings(
        exporter.clone(),
        Some("0".to_string()),
        Some("abc".to_string()),
    )
    .build();
    assert_eq!(reader.interval(), DEFAULT_INTERVAL_MS);
    assert_eq!(reader.timeout(), DEFAULT_TIMEOUT_MS);

    let reader = PeriodicReaderBuilder::from_settings(exporter.clone(), None, None)
        .with_interval(70)
        .build();
    assert_eq!(reader.interval(), 70);
    assert_eq!(reader.timeout(), DEFAULT_TIMEOUT_MS);
}

#[test]
fn parse_millis_accepts_only_decimal_u64() {
    assert_eq!(parse_millis("0"), Some(0));
    assert_eq!(parse_millis("42"), Some(42));
    assert_eq!(parse_millis("+7"), Some(7));
    assert_eq!(parse_millis("18446744073709551615"), Some(u64::MAX));
    assert_eq!(parse_millis("18446744073709551616"), None);
    assert_eq!(parse_millis(""), None);
    assert_eq!(parse_millis("+"), None);
    assert_eq!(parse_millis("-5"), None);
    assert_eq!(parse_millis("12a"), None);
    assert_eq!(parse_millis(" 12"), None);
    assert_eq!(parse_millis("1.5"), None);
}

#[test]
fn slow_export_makes_next_export_immediate() {
    let mut schedule = ExportSchedule::new(50);
    assert_eq!(schedule.remaining(), 50);
    schedule.after_timed_export(80);
    assert_eq!(schedule.remaining(), 0);
    schedule.after_timed_export(20);
    assert_eq!(schedule.remaining(), 30);
    schedule.after_timed_export(50);
    assert_eq!(schedule.remaining(), 0);
}

#[test]
fn flush_keeps_phase_unless_window_overran() {
    let mut schedule = ExportSchedule::new(100);
    let restart = schedule.after_flush(30);
    assert!(!restart);
    assert_eq!(schedule.remaining(), 70);
    let restart = schedule.after_flush(100);
    assert!(restart);
    assert_eq!(schedule.remaining(), 0);
    let restart = schedule.after_flush(250);
    assert!(restart);
    assert_eq!(schedule.remaining(), 0);
}

#[test]
fn worker_actions_follow_events() {
    assert_eq!(action_for(WorkerEvent::Timeout), WorkerAction::ExportOnTimer);
    assert_eq!(action_for(WorkerEvent::Flush), WorkerAction::FlushAndReply);
    assert_eq!(action_for(WorkerEvent::Shutdown), WorkerAction::ShutdownAndStop);
    assert_eq!(action_for(WorkerEvent::Disconnected), WorkerAction::Stop);
}

fn run_interval_scenario(temporality: Temporality) -> Vec<Batch> {
    let exporter = InMemoryExporter::new(temporality);
    let reader = reader_with_interval(&exporter, 50);
    let mut provider = SdkMeterProvider::builder().with_reader(reader).build();
    let meter = provider.meter("test".to_string());
    let counter = provider.u64_counter(meter, "c".to_string());
    provider.record(counter, &vec![kv("k", 1)], 1);
    provider.record(counter, &vec![kv("k", 1)], 2);
    provider.record(counter, &vec![kv("k", 2)], 3);

    // A clock that advances by the waits the schedule asks for, up to 120 ms.
    let mut schedule = ExportSchedule::new(50);
    let mut now: u64 = 0;
    loop {
        let wait = schedule.remaining();
        if now + wait > 120 {
            break;
        }
        now += wait;
        assert_eq!(action_for(WorkerEvent::Timeout), WorkerAction::ExportOnTimer);
        assert!(provider.flush_reader(0).is_ok());
        schedule.after_timed_export(0);
    }
    exporter.batches()
}

#[test]
fn interval_exports_delta_sums() {
    let batches = run_interval_scenario(Temporality::Delta);
    assert_eq!(batches.len(), 1);
    let first = &batches[0];
    assert_eq!(first.len(), 1);
    assert_eq!(first[0].0, "c");
    let mut points = first[0].1.clone();
    points.sort();
    assert_eq!(
        points,
        vec![(vec![("k".to_string(), 1)], 3), (vec![("k".to_string(), 2)], 3)]
    );
}

#[test]
fn interval_exports_cumulative_sums_repeatedly() {
    let batches = run_interval_scenario(Temporality::Cumulative);
    assert_eq!(batches.len(), 2);
    for batch in &batches {
        let mut points = batch[0].1.clone();
        points.sort();
        assert_eq!(
            points,
            vec![(vec![("k".to_string(), 1)], 3), (vec![("k".to_string(), 2)], 3)]
        );
    }
}

#[test]
fn idle_collection_skips_the_exporter() {
    let exporter = InMemoryExporter::new(Temporality::Delta);
    let reader = reader_with_interval(&exporter, 50);
    let mut provider = SdkMeterProvider::builder().with_reader(reader).build();
    let meter = provider.meter("m".to_string());
    let _counter = provider.u64_counter(meter, "c".to_string());
    assert!(provider.force_flush().is_ok());
    assert_eq!(exporter.batches().len(), 0);
}

#[test]
fn shutdown_runs_a_final_export() {
    let exporter = InMemoryExporter::new(Temporality::Delta);
    let reader = reader_with_interval(&exporter, 50);
    let mut provider = SdkMeterProvider::builder().with_reader(reader).build();
    let meter = provider.meter("m".to_string());
    let counter = provider.u64_counter(meter, "c".to_string());
    provider.record(counter, &vec![], 5);
    assert!(provider.shutdown().is_ok());
    let batches = exporter.batches();
    assert_eq!(batches.len(), 1);
    assert_eq!(batches[0][0].1, vec![(vec![], 5)]);
    assert_eq!(provider.shutdown(), Err(OTelSdkError::AlreadyShutdown));
    assert_eq!(provider.force_flush(), Err(OTelSdkError::AlreadyShutdown));
}

#[test]
fn unregistered_reader_fails_with_not_registered() {
    let exporter = InMemoryExporter::new(Temporality::Cumulative);
    let mut reader = reader_with_interval(&exporter, 1);
    let mut unattached = SdkMeterProviderInner::new(Resource::empty());
    assert_eq!(reader.force_flush(&mut unattached), Err(OTelSdkError::NotRegistered));
    assert!(matches!(reader.collect(&mut unattached), Err(OTelSdkError::NotRegistered)));
    assert_eq!(reader.shutdown(&mut unattached), Err(OTelSdkError::NotRegistered));
    assert_eq!(reader.force_flush(&mut unattached), Err(OTelSdkError::AlreadyShutdown));
    assert_eq!(reader.shutdown(&mut unattached), Err(OTelSdkError::AlreadyShutdown));
}

#[test]
fn flush_after_one_measurement_exports_one_point() {
    let exporter = InMemoryExporter::new(Temporality::Cumulative);
    let reader = reader_with_interval(&exporter, 1000);
    let mut provider = SdkMeterProvider::builder().with_reader(reader).build();
    let meter = provider.meter("m".to_string());
    let counter = provider.u64_counter(meter, "c".to_string());
    provider.record(counter, &vec![kv("k", 1)], 4);
    assert!(provider.force_flush().is_ok());
    let batches = exporter.batches();
    assert_eq!(batches.len(), 1);
    assert_eq!(batches[0].len(), 1);
    assert_eq!(batches[0][0].1, vec![(vec![("k".to_string(), 1)], 4)]);
}

#[test]
fn idle_flushes_succeed_without_exporter_calls() {
    let exporter = InMemoryExporter::new(Temporality::Cumulative);
    let reader = reader_with_interval(&exporter, 1);
    let mut provider = SdkMeterProvider::builder().with_reader(reader).build();
    assert_eq!(provider.force_flush(), Ok(()));
    assert_eq!(provider.force_flush(), Ok(()));
    assert_eq!(provider.reader(0).interval(), 1);
    assert_eq!(provider.reader(0).current_phase(), ReaderPhase::Registered);
    assert!(exporter.batches().is_empty());
    assert_eq!(provider.shutdown(), Ok(()));
    assert!(exporter.batches().is_empty());
}

#[test]
fn unregistered_periodic_shutdown_reports_not_registered() {
    let exporter = InMemoryExporter::new(Temporality::Cumulative);
    let mut reader = reader_with_interval(&exporter, 1);
    let mut unattached = SdkMeterProviderInner::new(Resource::empty());
    assert_eq!(reader.shutdown(&mut unattached), Err(OTelSdkError::NotRegistered));
    assert_eq!(reader.current_phase(), ReaderPhase::ShutDown);
    assert!(otel_metrics::periodic_reader::has_data_points(&Vec::new()) == false);
}
