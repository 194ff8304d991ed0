//! A reader that collects only when asked.
use vstd::prelude::*;

use crate::export::{InstrumentKind, Metric, MetricExporter, OTelSdkError, OTelSdkResult, Temporality};
use crate::meter_provider::SdkMeterProviderInner;
use crate::reader::{phase_error_of, MetricReader, ReaderPhase};

verus! {

/// A reader with no background activity: every collection, flush and
/// shutdown happens in the caller's call.
pub struct ManualReader<T: MetricExporter> {
    exporter: T,
    phase: ReaderPhase,
}

impl<T: MetricExporter> ManualReader<T> {
    /// A reader of the exporter, not yet registered with a provider.
    pub fn new(exporter: T) -> (r: Self)
        ensures
            r.phase() == ReaderPhase::Unregistered,
            r.exporter_view() == exporter,
    {
        ManualReader { exporter, phase: ReaderPhase::Unregistered }
    }

    /// The exporter the reader hands metrics to.
    pub closed spec fn exporter_view(&self) -> T {
        self.exporter
    }

    /// The exporter the reader hands metrics to.
    pub fn exporter(&self) -> (r: &T)
        ensures
            *r == self.exporter_view(),
    {
        &self.exporter
    }
}

impl<T: MetricExporter> MetricReader for ManualReader<T> {
    closed spec fn phase(&self) -> ReaderPhase {
        self.phase
    }

    /// Every flush calls the exporter, even with nothing to export.
    open spec fn skips_idle_export(&self) -> bool {
        false
    }

    fn current_phase(&self) -> (r: ReaderPhase) {
        self.phase
    }

    fn register_provider(&mut self) {
        if self.phase == ReaderPhase::Unregistered {
            self.phase = ReaderPhase::Registered;
        }
    }

    fn collect(&self, provider: &mut SdkMeterProviderInner) -> (r: Result<Vec<Metric>, OTelSdkError>) {
        match self.phase {
            ReaderPhase::Registered => provider.collect(),
            p => Err(phase_error_of(p)),
        }
    }

    fn force_flush(&mut self, provider: &mut SdkMeterProviderInner) -> (r: OTelSdkResult) {
        let metrics = match self.collect(provider) {
            Ok(m) => m,
            Err(e) => {
                return Err(e);
            },
        };
        match self.exporter.export(metrics.as_slice()) {
            Ok(()) => self.exporter.force_flush(),
            Err(e) => Err(e),
        }
    }

    fn shutdown(&mut self, provider: &mut SdkMeterProviderInner) -> (r: OTelSdkResult) {
        if self.phase == ReaderPhase::ShutDown {
            return Err(OTelSdkError::AlreadyShutdown);
        }
        self.phase = ReaderPhase::ShutDown;
        self.exporter.shutdown()
    }

    fn temporality(&self, kind: InstrumentKind) -> Temporality {
        self.exporter.temporality()
    }
}

} // verus!
