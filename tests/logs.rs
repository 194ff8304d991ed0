use otel_metrics::attributes::{KeyValue, Value};
use otel_metrics::logs::{config, LogData, LogError, LogExporter, LogResult, Severity};
use otel_metrics::resource::Resource;

struct Collecting {
    seen: usize,
}

impl LogExporter for Collecting {
    fn export(&mut self, batch: Vec<LogData>) -> LogResult<()> {
        self.seen += batch.len();
        if batch.is_empty() {
            Err(LogError::ExportFailed)
        } else {
            Ok(())
        }
    }
}

#[test]
fn default_config_has_empty_resource() {
    let c = config();
    assert!(c.resource.attributes().is_empty());
}

#[test]
fn with_resource_replaces_the_resource() {
    let r = Resource::new(vec![KeyValue::new("service.name".to_string(), Value::String("svc".to_string()))]);
    let c = config().with_resource(r);
    let attrs = c.resource.attributes();
    assert_eq!(attrs.len(), 1);
    assert_eq!(attrs[0].key, "service.name");
}

#[test]
fn log_exporter_defaults() {
    let mut e = Collecting { seen: 0 };
    assert!(e.event_enabled(Severity::Info, "target", "name"));
    assert_eq!(e.export(vec![]), Err(LogError::ExportFailed));
    e.set_resource(Resource::empty());
    e.shutdown();
    assert_eq!(e.seen, 0);
}
