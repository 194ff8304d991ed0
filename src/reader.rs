//! The interface through which a provider drives collection.
use vstd::prelude::*;

use crate::export::{InstrumentKind, Metric, OTelSdkError, OTelSdkResult, Temporality};
use crate::meter_provider::{idle, meters_after_collect, produced_from, SdkMeterProviderInner};

verus! {

/// Where a reader stands in its life.
#[derive(PartialEq, Eq, Structural, Clone, Copy, Debug)]
pub enum ReaderPhase {
    /// Not yet registered with a provider: collection fails.
    Unregistered,
    /// Registered: collection reaches the provider's meters.
    Registered,
    /// Shut down: every later operation fails.
    ShutDown,
}

/// The phase after registration: only an unregistered reader becomes registered.
pub open spec fn phase_after_register(p: ReaderPhase) -> ReaderPhase {
    if p == ReaderPhase::Unregistered {
        ReaderPhase::Registered
    } else {
        p
    }
}

/// The error of a collection attempted in a phase other than `Registered`.
pub open spec fn phase_error(p: ReaderPhase) -> OTelSdkError {
    if p == ReaderPhase::ShutDown {
        OTelSdkError::AlreadyShutdown
    } else {
        OTelSdkError::NotRegistered
    }
}

/// The error of a collection attempted in a phase other than `Registered`.
pub fn phase_error_of(p: ReaderPhase) -> (r: OTelSdkError)
    ensures
        r == phase_error(p),
{
    match p {
        ReaderPhase::ShutDown => OTelSdkError::AlreadyShutdown,
        _ => OTelSdkError::NotRegistered,
    }
}

/// Whether a reader in phase `p` collects from a provider that is (or is
/// not) shut down: only a registered reader of a live provider does.
pub open spec fn can_collect(p: ReaderPhase, provider_shut: bool) -> bool {
    p == ReaderPhase::Registered && !provider_shut
}

/// The error of a collection that cannot happen: the reader's phase error,
/// or else the provider's shutdown.
pub open spec fn collect_error(p: ReaderPhase, provider_shut: bool) -> OTelSdkError {
    if p != ReaderPhase::Registered {
        phase_error(p)
    } else {
        OTelSdkError::AlreadyShutdown
    }
}

/// A reader: what a provider drives collection, flush and shutdown through.
/// The provider hands its own state to each call; a reader collects from it
/// only while registered.
pub trait MetricReader {
    /// The reader's phase.
    spec fn phase(&self) -> ReaderPhase;

    /// The reader's phase.
    fn current_phase(&self) -> (r: ReaderPhase)
        ensures
            r == self.phase(),
    ;

    /// Registers the reader with a provider.
    fn register_provider(&mut self)
        ensures
            final(self).phase() == phase_after_register(old(self).phase()),
            final(self).skips_idle_export() == old(self).skips_idle_export(),
    ;

    /// Whether a flush whose collection finds no data point makes no exporter
    /// call, and so succeeds.
    spec fn skips_idle_export(&self) -> bool;

    /// Collects every instrument of the provider, when registered with a live
    /// provider.
    fn collect(&self, provider: &mut SdkMeterProviderInner) -> (r: Result<Vec<Metric>, OTelSdkError>)
        requires
            old(provider).wf(),
        ensures
            final(provider).wf(),
            final(provider).is_shut_down() == old(provider).is_shut_down(),
            final(provider).resource_view() == old(provider).resource_view(),
            can_collect(self.phase(), old(provider).is_shut_down()) ==> r is Ok && produced_from(
                r->Ok_0@,
                old(provider).meters_view(),
            ) && final(provider).meters_view() == meters_after_collect(old(provider).meters_view()),
            !can_collect(self.phase(), old(provider).is_shut_down()) ==> r == Err::<Vec<Metric>, OTelSdkError>(
                collect_error(self.phase(), old(provider).is_shut_down()),
            ) && final(provider).meters_view() == old(provider).meters_view(),
    ;

    /// Collects and hands the result to the exporter.
    fn force_flush(&mut self, provider: &mut SdkMeterProviderInner) -> (r: OTelSdkResult)
        requires
            old(provider).wf(),
        ensures
            final(self).phase() == old(self).phase(),
            final(self).skips_idle_export() == old(self).skips_idle_export(),
            final(provider).wf(),
            final(provider).is_shut_down() == old(provider).is_shut_down(),
            final(provider).resource_view() == old(provider).resource_view(),
            can_collect(old(self).phase(), old(provider).is_shut_down()) ==> final(provider).meters_view()
                == meters_after_collect(old(provider).meters_view()),
            can_collect(old(self).phase(), old(provider).is_shut_down()) && old(self).skips_idle_export() && idle(
                old(provider).meters_view(),
            ) ==> r == Ok::<(), OTelSdkError>(()),
            !can_collect(old(self).phase(), old(provider).is_shut_down()) ==> r == Err::<(), OTelSdkError>(
                collect_error(old(self).phase(), old(provider).is_shut_down()),
            ) && final(provider).meters_view() == old(provider).meters_view(),
    ;

    /// Shuts the reader down; it fails if the reader already was.
    fn shutdown(&mut self, provider: &mut SdkMeterProviderInner) -> (r: OTelSdkResult)
        requires
            old(provider).wf(),
        ensures
            final(self).phase() == ReaderPhase::ShutDown,
            final(provider).wf(),
            final(provider).is_shut_down() == old(provider).is_shut_down(),
            final(provider).resource_view() == old(provider).resource_view(),
            final(provider).meters_view() == old(provider).meters_view() || final(provider).meters_view()
                == meters_after_collect(old(provider).meters_view()),
            old(self).phase() == ReaderPhase::ShutDown ==> r == Err::<(), OTelSdkError>(OTelSdkError::AlreadyShutdown)
                && final(provider).meters_view() == old(provider).meters_view(),
    ;

    /// The temporality the reader asks for, by instrument kind.
    fn temporality(&self, kind: InstrumentKind) -> Temporality;
}

} // verus!
