use std::sync::{Arc, Mutex};

use otel_metrics::attributes::{KeyValue, Value};
use otel_metrics::export::{
    AggregatedMetrics, InstrumentKind, InstrumentationScope, Metric, MetricExporter, OTelSdkError,
    OTelSdkResult, Temporality,
};
use otel_metrics::manual_reader::ManualReader;
use otel_metrics::meter::SdkMeter;
use otel_metrics::meter_provider::{Instrument, Meter, SdkMeterProvider};
use otel_metrics::reader::{MetricReader, ReaderPhase};
use otel_metrics::resource::Resource;

#[derive(Clone)]
struct CountingExporter {
    exports: Arc<Mutex<Vec<usize>>>,
    flushes: Arc<Mutex<usize>>,
    fail_export: bool,
}

impl CountingExporter {
    fn new(fail_export: bool) -> Self {
        CountingExporter {
            exports: Arc::new(Mutex::new(Vec::new())),
            flushes: Arc::new(Mutex::new(0)),
            fail_export,
        }
    }
}

fn points_in(m: &Metric) -> usize {
    match &m.data {
        AggregatedMetrics::SumI64(s) => s.data_points.len(),
        AggregatedMetrics::GaugeI64(g) => g.data_points.len(),
        AggregatedMetrics::HistogramI64(h) => h.data_points.len(),
    }
}

impl MetricExporter for CountingExporter {
    fn export(&self, metrics: &[Metric]) -> OTelSdkResult {
        let n: usize = metrics.iter().map(points_in).sum();
        self.exports.lock().unwrap().push(n);
        if self.fail_export {
            Err(OTelSdkError::InternalFailure)
        } else {
            Ok(())
        }
    }

    fn force_flush(&self) -> OTelSdkResult {
        *self.flushes.lock().unwrap() += 1;
        Ok(())
    }

    fn shutdown(&self) -> OTelSdkResult {
        Ok(())
    }

    fn temporality(&self) -> Temporality {
        Temporality::Delta
    }
}

fn kv(k: &str, v: i64) -> KeyValue {
    KeyValue::new(k.to_string(), Value::I64(v))
}

#[test]
fn one_measurement_one_export_one_point() {
    let exporter = CountingExporter::new(false);
    let reader = ManualReader::new(exporter.clone());
    let mut provider = SdkMeterProvider::builder().with_reader(reader).build();
    let meter = provider.meter("scope".to_string());
    let counter = provider.u64_counter(meter, "requests".to_string());
    provider.record(counter, &vec![kv("route", 1)], 1);
    assert!(provider.force_flush().is_ok());
    assert_eq!(*exporter.exports.lock().unwrap(), vec![1]);
    assert_eq!(*exporter.flushes.lock().unwrap(), 1);
}

#[test]
fn manual_reader_lifecycle() {
    let exporter = CountingExporter::new(false);
    let mut reader = ManualReader::new(exporter.clone());
    assert_eq!(reader.current_phase(), ReaderPhase::Unregistered);
    let mut state = otel_metrics::meter_provider::SdkMeterProviderInner::new(Resource::empty());
    assert_eq!(reader.force_flush(&mut state), Err(OTelSdkError::NotRegistered));
    assert!(exporter.exports.lock().unwrap().is_empty());
    reader.register_provider();
    assert_eq!(reader.current_phase(), ReaderPhase::Registered);
    assert!(reader.collect(&mut state).is_ok());
    assert!(reader.shutdown(&mut state).is_ok());
    assert_eq!(reader.shutdown(&mut state), Err(OTelSdkError::AlreadyShutdown));
    assert!(matches!(reader.collect(&mut state), Err(OTelSdkError::AlreadyShutdown)));
}

#[test]
fn exporter_failure_is_reported() {
    let exporter = CountingExporter::new(true);
    let reader = ManualReader::new(exporter.clone());
    let mut provider = SdkMeterProvider::builder().with_reader(reader).build();
    let meter = provider.meter("scope".to_string());
    let counter = provider.u64_counter(meter, "c".to_string());
    provider.record(counter, &vec![], 1);
    assert_eq!(provider.force_flush(), Err(OTelSdkError::InternalFailure));
}

#[test]
fn provider_flush_attempts_every_reader() {
    let failing = CountingExporter::new(true);
    let healthy = CountingExporter::new(false);
    let mut provider = SdkMeterProvider::builder()
        .with_reader(ManualReader::new(failing.clone()))
        .with_reader(ManualReader::new(healthy.clone()))
        .build();
    let meter = provider.meter("scope".to_string());
    let counter = provider.u64_counter(meter, "c".to_string());
    provider.record(counter, &vec![], 1);
    assert!(provider.force_flush().is_err());
    assert_eq!(failing.exports.lock().unwrap().len(), 1);
    assert_eq!(healthy.exports.lock().unwrap().len(), 1);
}

#[test]
fn shutdown_twice_fails_the_second_time() {
    let mut provider: SdkMeterProvider<ManualReader<CountingExporter>> = SdkMeterProvider::builder().build();
    assert_eq!(provider.shutdown(), Ok(()));
    assert_eq!(provider.shutdown(), Err(OTelSdkError::AlreadyShutdown));
    assert_eq!(provider.shutdown(), Err(OTelSdkError::AlreadyShutdown));
    assert_eq!(provider.force_flush(), Err(OTelSdkError::AlreadyShutdown));
}

#[test]
fn meters_are_shared_per_scope_and_noop_after_shutdown() {
    let mut provider: SdkMeterProvider<ManualReader<CountingExporter>> = SdkMeterProvider::builder().build();
    let a = provider.meter("a".to_string());
    let b = provider.meter("b".to_string());
    let a2 = provider.meter("a".to_string());
    assert_eq!(a, Meter::Sdk(0));
    assert_eq!(b, Meter::Sdk(1));
    assert_eq!(a2, a);
    let mut versioned = InstrumentationScope::from_name("a".to_string());
    versioned.version = Some("1.0".to_string());
    assert_eq!(provider.meter_with_scope(versioned), Meter::Sdk(2));
    assert!(provider.shutdown().is_ok());
    assert_eq!(provider.meter("a".to_string()), Meter::Noop);
    let noop = provider.u64_counter(Meter::Noop, "c".to_string());
    assert_eq!(noop, Instrument { meter: Meter::Noop, index: 0 });
    provider.record(noop, &vec![], 1);
}

#[test]
fn same_name_and_kind_share_an_instrument() {
    let exporter = CountingExporter::new(false);
    let mut provider = SdkMeterProvider::builder().with_reader(ManualReader::new(exporter.clone())).build();
    let meter = provider.meter("m".to_string());
    let c1 = provider.u64_counter(meter, "c".to_string());
    let c2 = provider.u64_counter(meter, "c".to_string());
    let g = provider.create_instrument(meter, "c".to_string(), String::new(), String::new(), InstrumentKind::Gauge);
    assert_eq!(c1, c2);
    assert_ne!(c1, g);
    provider.record(c1, &vec![], 1);
    provider.record(c2, &vec![], 2);
    let metrics = provider.collect(0).unwrap();
    assert_eq!(metrics.len(), 2);
    match &metrics[0].data {
        AggregatedMetrics::SumI64(s) => {
            assert_eq!(s.data_points.len(), 1);
            assert_eq!(s.data_points[0].value, 3);
            assert!(s.is_monotonic);
            assert_eq!(s.temporality, Temporality::Delta);
        }
        _ => panic!("expected a sum"),
    }
    assert_eq!(points_in(&metrics[1]), 0);
}

#[test]
fn meter_collects_its_instruments_in_order() {
    let mut meter = SdkMeter::new(InstrumentationScope::from_name("s".to_string()));
    let h = meter.create_instrument(
        "latency".to_string(),
        "request latency".to_string(),
        "ms".to_string(),
        InstrumentKind::Histogram,
        Temporality::Cumulative,
    );
    let u = meter.create_instrument(
        "queue".to_string(),
        String::new(),
        String::new(),
        InstrumentKind::UpDownCounter,
        Temporality::Cumulative,
    );
    assert_eq!((h, u), (0, 1));
    meter.record(h, &vec![], 7);
    meter.record(u, &vec![], -2);
    let metrics = meter.collect();
    assert_eq!(metrics.len(), 2);
    assert_eq!(metrics[0].name, "latency");
    assert_eq!(metrics[0].unit, "ms");
    assert_eq!(metrics[0].scope.name, "s");
    match &metrics[0].data {
        AggregatedMetrics::HistogramI64(hd) => {
            assert_eq!(hd.data_points.len(), 1);
            let p = &hd.data_points[0];
            assert_eq!(p.count, 1);
            assert_eq!(p.sum, 7);
            assert_eq!(p.min, Some(7));
            assert_eq!(p.max, Some(7));
            assert_eq!(p.bounds.len(), 15);
            assert_eq!(p.bucket_counts.len(), 16);
            assert_eq!(p.bucket_counts[2], 1);
        }
        _ => panic!("expected a histogram"),
    }
    match &metrics[1].data {
        AggregatedMetrics::SumI64(s) => {
            assert!(!s.is_monotonic);
            assert_eq!(s.data_points[0].value, -2);
        }
        _ => panic!("expected a sum"),
    }
}

#[test]
fn resources_merge_with_later_values_winning() {
    let exporter = CountingExporter::new(false);
    let first = Resource::new(vec![kv("service", 1), kv("zone", 2)]);
    let second = Resource::new(vec![kv("zone", 3)]);
    let merged = first.merge(&second);
    let attrs = merged.attributes();
    assert_eq!(attrs.len(), 2);
    assert_eq!(attrs[0].key, "service");
    assert_eq!(attrs[1].key, "zone");
    assert!(attrs[1].value.same_as(&Value::I64(3)));
    let _provider = SdkMeterProvider::builder()
        .with_resource(first)
        .with_resource(second)
        .with_reader(ManualReader::new(exporter))
        .build();
}

#[test]
fn collection_after_shutdown_is_rejected() {
    let exporter = CountingExporter::new(false);
    let mut provider = SdkMeterProvider::builder().with_reader(ManualReader::new(exporter)).build();
    let meter = provider.meter("m".to_string());
    let counter = provider.u64_counter(meter, "c".to_string());
    provider.record(counter, &vec![], 1);
    assert!(provider.shutdown().is_ok());
    assert!(matches!(provider.collect(0), Err(OTelSdkError::AlreadyShutdown)));
    assert_eq!(provider.flush_reader(0), Err(OTelSdkError::AlreadyShutdown));
}

#[test]
fn instruments_without_readers_are_cumulative() {
    let mut provider: SdkMeterProvider<ManualReader<CountingExporter>> = SdkMeterProvider::builder().build();
    let meter = provider.meter("m".to_string());
    let counter = provider.u64_counter(meter, "c".to_string());
    assert_eq!(counter, Instrument { meter, index: 0 });
    let mut inner_meter = SdkMeter::new(InstrumentationScope::from_name("m".to_string()));
    let g = inner_meter.create_instrument(
        "g".to_string(),
        "gauge".to_string(),
        "1".to_string(),
        InstrumentKind::Gauge,
        Temporality::Cumulative,
    );
    inner_meter.record(g, &vec![], 3);
    let metrics = inner_meter.collect();
    assert_eq!(metrics[0].description, "gauge");
    assert_eq!(metrics[0].unit, "1");
    match &metrics[0].data {
        AggregatedMetrics::GaugeI64(gd) => assert_eq!(gd.data_points[0].value, 3),
        _ => panic!("expected a gauge"),
    }
    let reader = ManualReader::new(CountingExporter::new(false));
    let mut with_reader = SdkMeterProvider::builder().with_reader(reader).build();
    let meter = with_reader.meter("m".to_string());
    let c = with_reader.u64_counter(meter, "c".to_string());
    with_reader.record(c, &vec![], 2);
    let metrics = with_reader.collect(0).unwrap();
    match &metrics[0].data {
        AggregatedMetrics::SumI64(s) => assert_eq!(s.temporality, Temporality::Delta),
        _ => panic!("expected a sum"),
    }
    let _ = provider.shutdown();
}

#[test]
fn provider_without_readers_flushes_successfully() {
    let mut provider: SdkMeterProvider<ManualReader<CountingExporter>> = SdkMeterProvider::builder().build();
    assert_eq!(provider.force_flush(), Ok(()));
    assert_eq!(provider.reader_count(), 0);
}
