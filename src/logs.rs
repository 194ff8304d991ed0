//! Log emitter configuration and the log exporter interface.
use vstd::prelude::*;

use crate::attributes::{AttrView, KeyValue};
use crate::export::InstrumentationScope;
use crate::resource::Resource;

verus! {

/// Log emitter configuration.
pub struct Config {
    /// The entity that produces the telemetry.
    pub resource: Resource,
}

impl Default for Config {
    fn default() -> (r: Config)
        ensures
            r.resource@ == Seq::<AttrView>::empty(),
    {
        Config { resource: Resource::empty() }
    }
}

/// The default log configuration: an empty resource.
pub fn config() -> (r: Config)
    ensures
        r.resource@ == Seq::<AttrView>::empty(),
{
    Config::default()
}

impl Config {
    /// Replaces the resource.
    pub fn with_resource(self, resource: Resource) -> (r: Config)
        ensures
            r.resource == resource,
    {
        let mut c = self;
        c.resource = resource;
        c
    }
}

/// The severity of a log record.
#[derive(PartialEq, Eq, Structural, Clone, Copy, Debug)]
pub enum Severity {
    Trace,
    Debug,
    Info,
    Warn,
    Error,
    Fatal,
}

/// One log record.
pub struct LogRecord {
    pub timestamp: Option<std::time::SystemTime>,
    pub severity: Option<Severity>,
    pub body: Option<String>,
    pub attributes: Vec<KeyValue>,
}

/// A log record with the instrumentation scope of the emitter that produced it.
pub struct LogData {
    pub record: LogRecord,
    pub instrumentation: InstrumentationScope,
}

/// Errors of log export.
#[derive(PartialEq, Eq, Structural, Clone, Copy, Debug)]
pub enum LogError {
    /// The exporter was shut down.
    AlreadyShutdown,
    /// The export failed.
    ExportFailed,
}

/// The result of a log operation.
pub type LogResult<T> = Result<T, LogError>;

/// What log exporters implement.
pub trait LogExporter {
    /// Exports a batch of log data.
    fn export(&mut self, batch: Vec<LogData>) -> LogResult<()>;

    /// Shuts the exporter down.
    fn shutdown(&mut self) {
    }

    /// Hands the exporter the provider's resource, which log data does not carry.
    fn set_resource(&mut self, resource: Resource) {
    }

    /// Whether records of this severity, target and name are exported.
    fn event_enabled(&self, level: Severity, target: &str, name: &str) -> bool {
        true
    }
}

} // verus!
