//! The meter provider: the registry of meters and the readers it serves.
use vstd::prelude::*;

use crate::attributes::KeyValue;
use crate::export::{InstrumentKind, InstrumentationScope, Metric, OTelSdkError, OTelSdkResult, ScopeView, Temporality};
use crate::meter::{after_collect, first_instrument, recorded, reports, InstrumentView, SdkMeter};
use crate::reader::{can_collect, collect_error, phase_after_register, MetricReader, ReaderPhase};
use crate::resource::Resource;

verus! {

/// What the provider knows of one meter: its scope and its instruments.
pub type MeterView = (ScopeView, Seq<InstrumentView>);

/// Every instrument of every meter, meter by meter, each with its meter's scope.
pub open spec fn flatten(meters: Seq<MeterView>) -> Seq<(ScopeView, InstrumentView)>
    decreases meters.len(),
{
    if meters.len() == 0 {
        Seq::empty()
    } else {
        flatten(meters.drop_last()) + meters.last().1.map_values(
            |iv: InstrumentView| (meters.last().0, iv),
        )
    }
}

/// The metrics report every instrument of the meters, in order.
pub open spec fn produced_from(metrics: Seq<Metric>, meters: Seq<MeterView>) -> bool {
    &&& metrics.len() == flatten(meters).len()
    &&& forall|i: int|
        0 <= i < metrics.len() ==> reports(#[trigger] metrics[i], flatten(meters)[i].0, flatten(meters)[i].1)
}

/// The meters after a collection: delta instruments have no pending measurement.
pub open spec fn meters_after_collect(meters: Seq<MeterView>) -> Seq<MeterView> {
    meters.map_values(|m: MeterView| (m.0, m.1.map_values(|v: InstrumentView| after_collect(v))))
}

/// Every instrument of the meters is without pending measurements.
pub open spec fn idle(meters: Seq<MeterView>) -> bool {
    forall|i: int| 0 <= i < flatten(meters).len() ==> (#[trigger] flatten(meters)[i]).1.pending.len() == 0
}

proof fn lemma_flatten_after_collect(meters: Seq<MeterView>)
    ensures
        flatten(meters_after_collect(meters)).len() == flatten(meters).len(),
        forall|i: int|
            0 <= i < flatten(meters).len() ==> #[trigger] flatten(meters_after_collect(meters))[i] == (
                flatten(meters)[i].0,
                after_collect(flatten(meters)[i].1),
            ),
    decreases meters.len(),
{
    if meters.len() > 0 {
        let d = meters.drop_last();
        assert(meters_after_collect(meters).drop_last() =~= meters_after_collect(d));
        lemma_flatten_after_collect(d);
        let a = meters_after_collect(meters);
        let fa = flatten(a);
        let f = flatten(meters);
        let fd = flatten(d);
        let last = meters.last();
        let tail = last.1.map_values(|iv: InstrumentView| (last.0, iv));
        let atail = a.last().1.map_values(|iv: InstrumentView| (a.last().0, iv));
        assert(f == fd + tail);
        assert(fa == flatten(meters_after_collect(d)) + atail);
        assert forall|i: int| 0 <= i < f.len() implies #[trigger] fa[i] == (f[i].0, after_collect(f[i].1)) by {
            if i >= fd.len() {
                assert(fa[i] == atail[i - fd.len()]);
                assert(f[i] == tail[i - fd.len()]);
            }
        }
    }
}

/// A collection of idle meters leaves them idle.
pub proof fn lemma_idle_after_collect(meters: Seq<MeterView>)
    requires
        idle(meters),
    ensures
        idle(meters_after_collect(meters)),
{
    lemma_flatten_after_collect(meters);
    assert forall|i: int| 0 <= i < flatten(meters_after_collect(meters)).len() implies (#[trigger] flatten(
        meters_after_collect(meters),
    )[i]).1.pending.len() == 0 by {
        assert(flatten(meters)[i].1.pending.len() == 0);
    }
}

/// A handle on a meter that the provider handed out.
#[derive(PartialEq, Eq, Structural, Clone, Copy, Debug)]
pub enum Meter {
    /// The meter at this position in the provider's registry.
    Sdk(usize),
    /// A meter whose instruments discard every measurement.
    Noop,
}

/// A handle on an instrument: its meter and its position there.
#[derive(PartialEq, Eq, Structural, Clone, Copy, Debug)]
pub struct Instrument {
    pub meter: Meter,
    pub index: usize,
}

/// The provider's own state, which readers collect from.
pub struct SdkMeterProviderInner {
    meters: Vec<SdkMeter>,
    shutdown_invoked: bool,
    resource: Resource,
}

impl SdkMeterProviderInner {
    /// The registered meters, in order of creation.
    pub closed spec fn meters_view(&self) -> Seq<MeterView> {
        self.meters@.map_values(|m: SdkMeter| (m.scope_view(), m.instruments_view()))
    }

    /// Whether the provider was shut down.
    pub closed spec fn is_shut_down(&self) -> bool {
        self.shutdown_invoked
    }

    /// The provider's resource.
    pub closed spec fn resource_view(&self) -> Seq<crate::attributes::AttrView> {
        self.resource@
    }

    /// The invariant: every meter is well formed, and no scope has two meters.
    pub closed spec fn wf(&self) -> bool {
        &&& forall|i: int| 0 <= i < self.meters@.len() ==> (#[trigger] self.meters@[i]).wf()
        &&& forall|i: int, j: int|
            0 <= i < j < self.meters@.len() ==> (#[trigger] self.meters@[i]).scope_view()
                != (#[trigger] self.meters@[j]).scope_view()
    }

    /// A provider state with no meter, not shut down.
    pub fn new(resource: Resource) -> (r: SdkMeterProviderInner)
        ensures
            r.wf(),
            r.meters_view() == Seq::<MeterView>::empty(),
            !r.is_shut_down(),
            r.resource_view() == resource@,
    {
        let r = SdkMeterProviderInner { meters: Vec::new(), shutdown_invoked: false, resource };
        proof {
            assert(r.meters_view() =~= Seq::<MeterView>::empty());
        }
        r
    }

    /// Whether the provider was shut down.
    pub fn is_shutdown(&self) -> (r: bool)
        ensures
            r == self.is_shut_down(),
    {
        self.shutdown_invoked
    }

    /// Collects every instrument of every meter; a shut-down provider rejects
    /// the collection and leaves its meters as they are.
    pub fn collect(&mut self) -> (r: Result<Vec<Metric>, OTelSdkError>)
        requires
            old(self).wf(),
        ensures
            final(self).wf(),
            final(self).is_shut_down() == old(self).is_shut_down(),
            final(self).resource_view() == old(self).resource_view(),
            old(self).is_shut_down() ==> r == Err::<Vec<Metric>, OTelSdkError>(OTelSdkError::AlreadyShutdown)
                && final(self).meters_view() == old(self).meters_view(),
            !old(self).is_shut_down() ==> r is Ok && produced_from(r->Ok_0@, old(self).meters_view())
                && final(self).meters_view() == meters_after_collect(old(self).meters_view()),
    {
        if self.shutdown_invoked {
            return Err(OTelSdkError::AlreadyShutdown);
        }
        Ok(self.collect_all())
    }

    fn collect_all(&mut self) -> (r: Vec<Metric>)
        requires
            old(self).wf(),
        ensures
            final(self).wf(),
            produced_from(r@, old(self).meters_view()),
            final(self).meters_view() == meters_after_collect(old(self).meters_view()),
            final(self).is_shut_down() == old(self).is_shut_down(),
            final(self).resource_view() == old(self).resource_view(),
    {
        let ghost mv = self.meters_view();
        let ghost n = mv.len();
        let mut rest: Vec<SdkMeter> = Vec::new();
        std::mem::swap(&mut rest, &mut self.meters);
        let mut done: Vec<SdkMeter> = Vec::new();
        let mut metrics: Vec<Metric> = Vec::new();
        proof {
            assert(mv.subrange(0, 0) =~= Seq::<MeterView>::empty());
        }
        while rest.len() > 0
            invariant
                done@.len() + rest@.len() == n,
                forall|j: int|
                    0 <= j < rest@.len() ==> (#[trigger] rest@[j]).wf() && (rest@[j].scope_view(), rest@[j].instruments_view())
                        == mv[done@.len() + j],
                forall|j: int|
                    0 <= j < done@.len() ==> (#[trigger] done@[j]).wf() && (done@[j].scope_view(), done@[j].instruments_view())
                        == meters_after_collect(mv)[j],
                produced_from(metrics@, mv.subrange(0, done@.len() as int)),
                mv.len() == n,
            decreases rest@.len(),
        {
            let ghost k = done@.len() as int;
            let ghost before = rest@;
            let ghost before_metrics = metrics@;
            let mut m = rest.remove(0);
            proof {
                assert(before[0] == m);
            }
            let mut ms = m.collect();
            let ghost added = ms@;
            metrics.append(&mut ms);
            done.push(m);
            proof {
                assert forall|j: int| 0 <= j < rest@.len() implies (#[trigger] rest@[j]).wf() && (
                rest@[j].scope_view(),
                rest@[j].instruments_view(),
                ) == mv[done@.len() + j] by {
                    assert(rest@[j] == before[j + 1]);
                }
                let sub = mv.subrange(0, k + 1);
                assert(sub.drop_last() =~= mv.subrange(0, k));
                let tail = sub.last().1.map_values(|iv: InstrumentView| (sub.last().0, iv));
                assert(flatten(sub) == flatten(mv.subrange(0, k)) + tail);
                assert(metrics@ =~= before_metrics + added);
                assert forall|i: int| 0 <= i < metrics@.len() implies reports(
                    #[trigger] metrics@[i],
                    flatten(sub)[i].0,
                    flatten(sub)[i].1,
                ) by {
                    if i < before_metrics.len() {
                        assert(metrics@[i] == before_metrics[i]);
                    } else {
                        let j = i - before_metrics.len();
                        assert(metrics@[i] == added[j]);
                        assert(flatten(sub)[i] == tail[j]);
                    }
                }
            }
        }
        self.meters = done;
        proof {
            assert(mv.subrange(0, n as int) =~= mv);
            assert(self.meters_view() =~= meters_after_collect(mv));
            assert forall|i: int, j: int| 0 <= i < j < self.meters@.len() implies (#[trigger] self.meters@[i]).scope_view()
                != (#[trigger] self.meters@[j]).scope_view() by {
                assert(self.meters_view()[i].0 == mv[i].0);
                assert(self.meters_view()[j].0 == mv[j].0);
                assert(old(self).meters@[i].scope_view() == mv[i].0);
                assert(old(self).meters@[j].scope_view() == mv[j].0);
            }
        }
        metrics
    }

    /// The meter of a scope: the registered one, or a new one. After shutdown
    /// it is a no-op meter, and nothing is registered.
    pub fn meter_with_scope(&mut self, scope: InstrumentationScope) -> (r: Meter)
        requires
            old(self).wf(),
        ensures
            final(self).wf(),
            final(self).is_shut_down() == old(self).is_shut_down(),
            final(self).resource_view() == old(self).resource_view(),
            old(self).is_shut_down() ==> r == Meter::Noop && final(self).meters_view() == old(self).meters_view(),
            !old(self).is_shut_down() ==> match find_meter(old(self).meters_view(), scope@) {
                Some(i) => r == Meter::Sdk(i as usize) && final(self).meters_view() == old(self).meters_view(),
                None => r == Meter::Sdk(old(self).meters_view().len() as usize) && final(self).meters_view()
                    == old(self).meters_view().push((scope@, Seq::<InstrumentView>::empty())),
            },
    {
        if self.shutdown_invoked {
            return Meter::Noop;
        }
        let ghost mv = self.meters_view();
        let mut i: usize = 0;
        while i < self.meters.len()
            invariant
                i <= self.meters@.len(),
                mv == self.meters_view(),
                self.meters@ == old(self).meters@,
                self.shutdown_invoked == old(self).shutdown_invoked,
                !old(self).shutdown_invoked,
                self.resource == old(self).resource,
                self.wf(),
                find_meter(mv, scope@) == find_meter_from(mv, scope@, i as int),
            decreases self.meters.len() - i,
        {
            proof {
                assert(mv[i as int].0 == self.meters@[i as int].scope_view());
            }
            if self.meters[i].scope().same_as(&scope) {
                return Meter::Sdk(i);
            }
            i = i + 1;
        }
        let ghost sv = scope@;
        let m = SdkMeter::new(scope);
        self.meters.push(m);
        proof {
            assert(self.meters_view() =~= mv.push((sv, Seq::<InstrumentView>::empty())));
            lemma_find_none(mv, sv, 0);
            assert forall|a: int, b: int| 0 <= a < b < self.meters@.len() implies (#[trigger] self.meters@[a]).scope_view()
                != (#[trigger] self.meters@[b]).scope_view() by {
                assert(self.meters@[a] == old(self).meters@[a]);
                if b < mv.len() {
                    assert(self.meters@[b] == old(self).meters@[b]);
                } else {
                    assert(mv[a].0 == old(self).meters@[a].scope_view());
                }
            }
        }
        Meter::Sdk(self.meters.len() - 1)
    }

    /// Creates an instrument on a meter of this provider (see
    /// `SdkMeter::create_instrument`). On a no-op meter, or a meter this
    /// provider does not hold, the instrument is a no-op one.
    pub fn create_instrument(
        &mut self,
        meter: Meter,
        name: String,
        description: String,
        unit: String,
        kind: InstrumentKind,
        temporality: Temporality,
    ) -> (r: Instrument)
        requires
            old(self).wf(),
        ensures
            final(self).wf(),
            final(self).is_shut_down() == old(self).is_shut_down(),
            final(self).resource_view() == old(self).resource_view(),
            match meter {
                Meter::Sdk(m) if m < old(self).meters_view().len() => {
                    let iv = old(self).meters_view()[m as int].1;
                    r.meter == meter && match first_instrument(iv, name@, kind) {
                        Some(i) => r.index == i && final(self).meters_view() == old(self).meters_view(),
                        None => r.index == iv.len() && final(self).meters_view() == old(self).meters_view().update(
                            m as int,
                            (
                                old(self).meters_view()[m as int].0,
                                iv.push(InstrumentView { name: name@, description: description@, unit: unit@, kind, temporality, pending: Seq::empty() }),
                            ),
                        ),
                    }
                },
                _ => r == Instrument { meter: Meter::Noop, index: 0 } && final(self).meters_view()
                    == old(self).meters_view(),
            },
    {
        match meter {
            Meter::Sdk(m) => {
                if m < self.meters.len() {
                    let ghost mv = self.meters_view();
                    let mut sm = self.meters.remove(m);
                    proof {
                        assert(mv[m as int] == (sm.scope_view(), sm.instruments_view()));
                    }
                    let idx = sm.create_instrument(name, description, unit, kind, temporality);
                    self.meters.insert(m, sm);
                    proof {
                        assert(self.meters_view() =~= mv.update(m as int, (mv[m as int].0, self.meters@[m as int].instruments_view())));
                        assert forall|a: int, b: int| 0 <= a < b < self.meters@.len() implies (#[trigger] self.meters@[a]).scope_view()
                            != (#[trigger] self.meters@[b]).scope_view() by {
                            assert(self.meters_view()[a].0 == mv[a].0);
                            assert(self.meters_view()[b].0 == mv[b].0);
                            assert(mv[a].0 == old(self).meters@[a].scope_view());
                            assert(mv[b].0 == old(self).meters@[b].scope_view());
                        }
                        if first_instrument(mv[m as int].1, name@, kind) is Some {
                            assert(self.meters_view() =~= mv);
                        }
                    }
                    return Instrument { meter, index: idx };
                }
                Instrument { meter: Meter::Noop, index: 0 }
            },
            Meter::Noop => Instrument { meter: Meter::Noop, index: 0 },
        }
    }

    /// Records a measurement on an instrument of this provider. A no-op
    /// instrument, or one this provider does not hold, discards it.
    pub fn record(&mut self, instrument: Instrument, attributes: &Vec<KeyValue>, value: i64)
        requires
            old(self).wf(),
        ensures
            final(self).wf(),
            final(self).is_shut_down() == old(self).is_shut_down(),
            final(self).resource_view() == old(self).resource_view(),
            final(self).meters_view() == match instrument.meter {
                Meter::Sdk(m) if m < old(self).meters_view().len() && instrument.index
                    < old(self).meters_view()[m as int].1.len() => old(self).meters_view().update(
                    m as int,
                    (
                        old(self).meters_view()[m as int].0,
                        old(self).meters_view()[m as int].1.update(
                            instrument.index as int,
                            recorded(old(self).meters_view()[m as int].1[instrument.index as int], attributes@, value),
                        ),
                    ),
                ),
                _ => old(self).meters_view(),
            },
    {
        match instrument.meter {
            Meter::Sdk(m) => {
                if m < self.meters.len() {
                    let ghost mv = self.meters_view();
                    proof {
                        assert(mv[m as int] == (self.meters@[m as int].scope_view(), self.meters@[m as int].instruments_view()));
                    }
                    if instrument.index < self.meters[m].instrument_count() {
                        let mut sm = self.meters.remove(m);
                        sm.record(instrument.index, attributes, value);
                        self.meters.insert(m, sm);
                        proof {
                            assert(self.meters_view() =~= mv.update(m as int, (mv[m as int].0, self.meters@[m as int].instruments_view())));
                            assert forall|a: int, b: int| 0 <= a < b < self.meters@.len() implies (#[trigger] self.meters@[a]).scope_view()
                                != (#[trigger] self.meters@[b]).scope_view() by {
                                assert(self.meters_view()[a].0 == mv[a].0);
                                assert(self.meters_view()[b].0 == mv[b].0);
                                assert(mv[a].0 == old(self).meters@[a].scope_view());
                                assert(mv[b].0 == old(self).meters@[b].scope_view());
                            }
                        }
                    }
                }
            },
            Meter::Noop => {},
        }
    }

    fn mark_shut_down(&mut self)
        requires
            old(self).wf(),
        ensures
            final(self).wf(),
            final(self).is_shut_down(),
            final(self).meters_view() == old(self).meters_view(),
            final(self).resource_view() == old(self).resource_view(),
    {
        self.shutdown_invoked = true;
    }
}

/// The position of the meter of a scope, if one is registered.
pub open spec fn find_meter(mv: Seq<MeterView>, scope: ScopeView) -> Option<int> {
    find_meter_from(mv, scope, 0)
}

/// The first position at or after `i` of the meter of a scope, if any.
pub open spec fn find_meter_from(mv: Seq<MeterView>, scope: ScopeView, i: int) -> Option<int>
    decreases mv.len() - i,
{
    if i < 0 || i >= mv.len() {
        None
    } else if mv[i].0 == scope {
        Some(i)
    } else {
        find_meter_from(mv, scope, i + 1)
    }
}

proof fn lemma_find_none(mv: Seq<MeterView>, scope: ScopeView, i: int)
    requires
        0 <= i,
        find_meter_from(mv, scope, i) is None,
    ensures
        forall|j: int| i <= j < mv.len() ==> mv[j].0 != scope,
    decreases mv.len() - i,
{
    if i < mv.len() {
        lemma_find_none(mv, scope, i + 1);
    }
}

/// Collecting twice in a row leaves what collecting once leaves.
pub proof fn lemma_after_collect_idempotent(meters: Seq<MeterView>)
    ensures
        meters_after_collect(meters_after_collect(meters)) == meters_after_collect(meters),
{
    let once = meters_after_collect(meters);
    let twice = meters_after_collect(once);
    assert forall|i: int| 0 <= i < meters.len() implies #[trigger] twice[i] == once[i] by {
        assert(twice[i].1 =~= once[i].1);
    }
    assert(twice =~= once);
}

/// The phases of a sequence of readers.
pub open spec fn phases_of<R: MetricReader>(readers: Seq<R>) -> Seq<ReaderPhase> {
    readers.map_values(|r: R| r.phase())
}

/// Whether each reader skips the exporter on an idle flush.
pub open spec fn skips_of<R: MetricReader>(readers: Seq<R>) -> Seq<bool> {
    readers.map_values(|r: R| r.skips_idle_export())
}

/// Handles the creation of meters and coordinates the readers that collect
/// from them. Each reader drives its own exporter; the instruments' series
/// are shared by all readers, with the temporality that the first reader asks
/// for, so a delta collection through any reader starts the series afresh.
pub struct SdkMeterProvider<R: MetricReader> {
    inner: SdkMeterProviderInner,
    readers: Vec<R>,
}

impl<R: MetricReader> SdkMeterProvider<R> {
    /// The registered meters, in order of creation.
    pub closed spec fn meters_view(&self) -> Seq<MeterView> {
        self.inner.meters_view()
    }

    /// Whether the provider was shut down.
    pub closed spec fn is_shut_down(&self) -> bool {
        self.inner.is_shut_down()
    }

    /// The provider's resource.
    pub closed spec fn resource_view(&self) -> Seq<crate::attributes::AttrView> {
        self.inner.resource_view()
    }

    /// The phases of the provider's readers, in order.
    pub closed spec fn reader_phases(&self) -> Seq<ReaderPhase> {
        phases_of(self.readers@)
    }

    /// Whether each reader makes no exporter call on a flush that finds no
    /// data point, in order.
    pub closed spec fn reader_skips(&self) -> Seq<bool> {
        skips_of(self.readers@)
    }

    /// The provider's invariant.
    pub closed spec fn wf(&self) -> bool {
        self.inner.wf()
    }

    /// A builder with no reader and no resource.
    pub fn builder() -> (r: MeterProviderBuilder<R>)
        ensures
            r.resource_opt() is None,
            r.reader_phases() == Seq::<ReaderPhase>::empty(),
            r.reader_skips() == Seq::<bool>::empty(),
    {
        MeterProviderBuilder::new()
    }

    /// The number of readers.
    pub fn reader_count(&self) -> (r: usize)
        ensures
            r == self.reader_phases().len(),
    {
        self.readers.len()
    }

    /// The reader at a position.
    pub fn reader(&self, index: usize) -> (r: &R)
        requires
            index < self.reader_phases().len(),
        ensures
            r.phase() == self.reader_phases()[index as int],
            r.skips_idle_export() == self.reader_skips()[index as int],
    {
        &self.readers[index]
    }

    /// The meter of a scope with only a name (see `meter_with_scope`).
    pub fn meter(&mut self, name: String) -> (r: Meter)
        requires
            old(self).wf(),
        ensures
            final(self).wf(),
            final(self).is_shut_down() == old(self).is_shut_down(),
            final(self).resource_view() == old(self).resource_view(),
            final(self).reader_phases() == old(self).reader_phases(),
            old(self).is_shut_down() ==> r == Meter::Noop && final(self).meters_view() == old(self).meters_view(),
            !old(self).is_shut_down() ==> match find_meter(
                old(self).meters_view(),
                (name@, None::<Seq<char>>, None::<Seq<char>>, Seq::<crate::attributes::AttrView>::empty()),
            ) {
                Some(i) => r == Meter::Sdk(i as usize) && final(self).meters_view() == old(self).meters_view(),
                None => r == Meter::Sdk(old(self).meters_view().len() as usize) && final(self).meters_view()
                    == old(self).meters_view().push(
                    (
                        (name@, None::<Seq<char>>, None::<Seq<char>>, Seq::<crate::attributes::AttrView>::empty()),
                        Seq::<InstrumentView>::empty(),
                    ),
                ),
            },
    {
        self.meter_with_scope(InstrumentationScope::from_name(name))
    }

    /// The meter of a scope: the one registered for it, or a new one. Once
    /// the provider is shut down, a no-op meter.
    pub fn meter_with_scope(&mut self, scope: InstrumentationScope) -> (r: Meter)
        requires
            old(self).wf(),
        ensures
            final(self).wf(),
            final(self).is_shut_down() == old(self).is_shut_down(),
            final(self).resource_view() == old(self).resource_view(),
            final(self).reader_phases() == old(self).reader_phases(),
            old(self).is_shut_down() ==> r == Meter::Noop && final(self).meters_view() == old(self).meters_view(),
            !old(self).is_shut_down() ==> match find_meter(old(self).meters_view(), scope@) {
                Some(i) => r == Meter::Sdk(i as usize) && final(self).meters_view() == old(self).meters_view(),
                None => r == Meter::Sdk(old(self).meters_view().len() as usize) && final(self).meters_view()
                    == old(self).meters_view().push((scope@, Seq::<InstrumentView>::empty())),
            },
    {
        self.inner.meter_with_scope(scope)
    }

    fn temporality_for(&self, kind: InstrumentKind) -> (r: Temporality)
        ensures
            self.readers@.len() == 0 ==> r == Temporality::Cumulative,
    {
        if self.readers.len() > 0 {
            self.readers[0].temporality(kind)
        } else {
            Temporality::Cumulative
        }
    }

    /// Creates an instrument on a meter of this provider, with the temporality
    /// that the first reader asks for (cumulative without readers). An
    /// instrument with the same name and kind on the meter is handed back
    /// instead; on a no-op meter the instrument is a no-op one.
    pub fn create_instrument(
        &mut self,
        meter: Meter,
        name: String,
        description: String,
        unit: String,
        kind: InstrumentKind,
    ) -> (r: Instrument)
        requires
            old(self).wf(),
        ensures
            final(self).wf(),
            final(self).is_shut_down() == old(self).is_shut_down(),
            final(self).resource_view() == old(self).resource_view(),
            final(self).reader_phases() == old(self).reader_phases(),
            match meter {
                Meter::Sdk(m) if m < old(self).meters_view().len() => {
                    let iv = old(self).meters_view()[m as int].1;
                    r.meter == meter && match first_instrument(iv, name@, kind) {
                        Some(i) => r.index == i && final(self).meters_view() == old(self).meters_view(),
                        None => r.index == iv.len() && exists|t: Temporality|
                            (old(self).reader_phases().len() == 0 ==> t == Temporality::Cumulative)
                                && final(self).meters_view() == old(self).meters_view().update(
                                m as int,
                                (
                                    old(self).meters_view()[m as int].0,
                                    iv.push(InstrumentView { name: name@, description: description@, unit: unit@, kind, temporality: t, pending: Seq::empty() }),
                                ),
                            ),
                    }
                },
                _ => r == Instrument { meter: Meter::Noop, index: 0 } && final(self).meters_view()
                    == old(self).meters_view(),
            },
    {
        let t = self.temporality_for(kind);
        let r = self.inner.create_instrument(meter, name, description, unit, kind, t);
        proof {
            assert(old(self).reader_phases().len() == old(self).readers@.len());
        }
        r
    }

    /// Creates a counter of non-negative increments (see `create_instrument`).
    pub fn u64_counter(&mut self, meter: Meter, name: String) -> (r: Instrument)
        requires
            old(self).wf(),
        ensures
            final(self).wf(),
            final(self).is_shut_down() == old(self).is_shut_down(),
            final(self).resource_view() == old(self).resource_view(),
            final(self).reader_phases() == old(self).reader_phases(),
            match meter {
                Meter::Sdk(m) if m < old(self).meters_view().len() => {
                    let iv = old(self).meters_view()[m as int].1;
                    r.meter == meter && match first_instrument(iv, name@, InstrumentKind::Counter) {
                        Some(i) => r.index == i && final(self).meters_view() == old(self).meters_view(),
                        None => r.index == iv.len() && exists|t: Temporality|
                            (old(self).reader_phases().len() == 0 ==> t == Temporality::Cumulative)
                                && final(self).meters_view() == old(self).meters_view().update(
                                m as int,
                                (
                                    old(self).meters_view()[m as int].0,
                                    iv.push(
                                        InstrumentView {
                                            name: name@,
                                            description: Seq::<char>::empty(),
                                            unit: Seq::<char>::empty(),
                                            kind: InstrumentKind::Counter,
                                            temporality: t,
                                            pending: Seq::empty(),
                                        },
                                    ),
                                ),
                            ),
                    }
                },
                _ => r == Instrument { meter: Meter::Noop, index: 0 } && final(self).meters_view()
                    == old(self).meters_view(),
            },
    {
        self.create_instrument(meter, name, String::new(), String::new(), InstrumentKind::Counter)
    }

    /// Records a measurement; a no-op instrument, or one this provider does
    /// not hold, discards it. Recording never fails.
    pub fn record(&mut self, instrument: Instrument, attributes: &Vec<KeyValue>, value: i64)
        requires
            old(self).wf(),
        ensures
            final(self).wf(),
            final(self).is_shut_down() == old(self).is_shut_down(),
            final(self).resource_view() == old(self).resource_view(),
            final(self).reader_phases() == old(self).reader_phases(),
            final(self).meters_view() == match instrument.meter {
                Meter::Sdk(m) if m < old(self).meters_view().len() && instrument.index
                    < old(self).meters_view()[m as int].1.len() => old(self).meters_view().update(
                    m as int,
                    (
                        old(self).meters_view()[m as int].0,
                        old(self).meters_view()[m as int].1.update(
                            instrument.index as int,
                            recorded(old(self).meters_view()[m as int].1[instrument.index as int], attributes@, value),
                        ),
                    ),
                ),
                _ => old(self).meters_view(),
            },
    {
        self.inner.record(instrument, attributes, value)
    }

    /// Flushes every reader, each even where an earlier one failed. It fails
    /// after shutdown, and where any reader fails, in particular one that is
    /// not registered. It succeeds without readers, and where nothing is
    /// pending and every reader is registered and skips idle exports.
    pub fn force_flush(&mut self) -> (r: OTelSdkResult)
        requires
            old(self).wf(),
        ensures
            final(self).wf(),
            final(self).is_shut_down() == old(self).is_shut_down(),
            final(self).resource_view() == old(self).resource_view(),
            final(self).reader_phases() == old(self).reader_phases(),
            old(self).is_shut_down() ==> r == Err::<(), OTelSdkError>(OTelSdkError::AlreadyShutdown)
                && final(self).meters_view() == old(self).meters_view(),
            !old(self).is_shut_down() ==> final(self).meters_view() == if old(self).reader_phases().contains(
                ReaderPhase::Registered,
            ) {
                meters_after_collect(old(self).meters_view())
            } else {
                old(self).meters_view()
            },
            r is Ok ==> forall|i: int|
                0 <= i < old(self).reader_phases().len() ==> #[trigger] old(self).reader_phases()[i]
                    == ReaderPhase::Registered,
            !old(self).is_shut_down() && old(self).reader_phases().len() == 0 ==> r == Ok::<(), OTelSdkError>(()),
            !old(self).is_shut_down() && idle(old(self).meters_view()) && (forall|i: int|
                0 <= i < old(self).reader_phases().len() ==> #[trigger] old(self).reader_phases()[i]
                    == ReaderPhase::Registered && old(self).reader_skips()[i]) ==> r == Ok::<(), OTelSdkError>(()),
    {
        if self.inner.shutdown_invoked {
            return Err(OTelSdkError::AlreadyShutdown);
        }
        let ghost phases = self.reader_phases();
        let ghost skips = self.reader_skips();
        let ghost mv = self.inner.meters_view();
        let mut result: OTelSdkResult = Ok(());
        let mut i: usize = 0;
        while i < self.readers.len()
            invariant
                i <= self.readers@.len(),
                phases_of(self.readers@) == phases,
                self.inner.wf(),
                !self.inner.is_shut_down(),
                self.inner.resource_view() == old(self).inner.resource_view(),
                self.inner.meters_view() == if phases.subrange(0, i as int).contains(ReaderPhase::Registered) {
                    meters_after_collect(mv)
                } else {
                    mv
                },
                result is Ok ==> forall|j: int| 0 <= j < i ==> #[trigger] phases[j] == ReaderPhase::Registered,
                skips_of(self.readers@) == skips,
                phases.len() == skips.len(),
                i == 0 ==> result == Ok::<(), OTelSdkError>(()),
                idle(mv) && (forall|j: int| 0 <= j < i ==> #[trigger] phases[j] == ReaderPhase::Registered && skips[j])
                    ==> result == Ok::<(), OTelSdkError>(()),
            decreases self.readers.len() - i,
        {
            let ghost before = self.readers@;
            let ghost mv_before = self.inner.meters_view();
            let mut reader = self.readers.remove(i);
            proof {
                assert(phases[i as int] == reader.phase());
                assert(skips[i as int] == reader.skips_idle_export());
                if idle(mv) {
                    lemma_idle_after_collect(mv);
                }
            }
            let res = reader.force_flush(&mut self.inner);
            self.readers.insert(i, reader);
            proof {
                assert(self.readers@ =~= before.update(i as int, reader));
                assert(phases_of(self.readers@) =~= phases);
                assert(skips_of(self.readers@) =~= skips);
                let pre = phases.subrange(0, i as int);
                let post = phases.subrange(0, i + 1);
                assert(post =~= pre.push(phases[i as int]));
                if phases[i as int] == ReaderPhase::Registered {
                    assert(post.contains(ReaderPhase::Registered)) by {
                        assert(post[i as int] == ReaderPhase::Registered);
                    }
                    lemma_after_collect_idempotent(mv);
                } else {
                    assert(post.contains(ReaderPhase::Registered) == pre.contains(ReaderPhase::Registered)) by {
                        if post.contains(ReaderPhase::Registered) {
                            let k = choose|k: int| 0 <= k < post.len() && post[k] == ReaderPhase::Registered;
                            assert(pre[k] == post[k]);
                        }
                        if pre.contains(ReaderPhase::Registered) {
                            let k = choose|k: int| 0 <= k < pre.len() && pre[k] == ReaderPhase::Registered;
                            assert(post[k] == pre[k]);
                        }
                    }
                }
            }
            match res {
                Ok(()) => {},
                Err(e) => {
                    if result.is_ok() {
                        result = Err(e);
                    }
                },
            }
            i = i + 1;
        }
        proof {
            assert(phases.subrange(0, i as int) =~= phases);
        }
        result
    }

    /// Collects every instrument through one reader, which must be registered.
    pub fn collect(&mut self, reader: usize) -> (r: Result<Vec<Metric>, OTelSdkError>)
        requires
            old(self).wf(),
        ensures
            final(self).wf(),
            final(self).is_shut_down() == old(self).is_shut_down(),
            final(self).resource_view() == old(self).resource_view(),
            final(self).reader_phases() == old(self).reader_phases(),
            reader >= old(self).reader_phases().len() ==> r == Err::<Vec<Metric>, OTelSdkError>(OTelSdkError::NotRegistered)
                && final(self).meters_view() == old(self).meters_view(),
            reader < old(self).reader_phases().len() && can_collect(
                old(self).reader_phases()[reader as int],
                old(self).is_shut_down(),
            ) ==> r is Ok && produced_from(r->Ok_0@, old(self).meters_view()) && final(self).meters_view()
                == meters_after_collect(old(self).meters_view()),
            reader < old(self).reader_phases().len() && !can_collect(
                old(self).reader_phases()[reader as int],
                old(self).is_shut_down(),
            ) ==> r == Err::<Vec<Metric>, OTelSdkError>(
                collect_error(old(self).reader_phases()[reader as int], old(self).is_shut_down()),
            ) && final(self).meters_view() == old(self).meters_view(),
    {
        if reader >= self.readers.len() {
            return Err(OTelSdkError::NotRegistered);
        }
        proof {
            assert(phases_of(self.readers@)[reader as int] == self.readers@[reader as int].phase());
        }
        self.readers[reader].collect(&mut self.inner)
    }

    /// Flushes one reader (as the periodic worker does on its timer).
    pub fn flush_reader(&mut self, index: usize) -> (r: OTelSdkResult)
        requires
            old(self).wf(),
        ensures
            final(self).wf(),
            final(self).is_shut_down() == old(self).is_shut_down(),
            final(self).resource_view() == old(self).resource_view(),
            final(self).reader_phases() == old(self).reader_phases(),
            index >= old(self).reader_phases().len() ==> r == Err::<(), OTelSdkError>(OTelSdkError::NotRegistered)
                && final(self).meters_view() == old(self).meters_view(),
            index < old(self).reader_phases().len() && can_collect(
                old(self).reader_phases()[index as int],
                old(self).is_shut_down(),
            ) ==> final(self).meters_view() == meters_after_collect(old(self).meters_view()),
            index < old(self).reader_phases().len() && !can_collect(
                old(self).reader_phases()[index as int],
                old(self).is_shut_down(),
            ) ==> r == Err::<(), OTelSdkError>(
                collect_error(old(self).reader_phases()[index as int], old(self).is_shut_down()),
            ) && final(self).meters_view() == old(self).meters_view(),
    {
        if index >= self.readers.len() {
            return Err(OTelSdkError::NotRegistered);
        }
        let ghost before = self.readers@;
        let mut reader = self.readers.remove(index);
        proof {
            assert(phases_of(before)[index as int] == reader.phase());
        }
        let res = reader.force_flush(&mut self.inner);
        self.readers.insert(index, reader);
        proof {
            assert(self.readers@ =~= before.update(index as int, reader));
            assert(phases_of(self.readers@) =~= phases_of(before));
        }
        res
    }

    /// Shuts the provider and every reader down. Only the first call does so;
    /// every later call fails with `AlreadyShutdown`. The first call fails
    /// where a reader fails to shut down, and succeeds without readers.
    pub fn shutdown(&mut self) -> (r: OTelSdkResult)
        requires
            old(self).wf(),
        ensures
            final(self).wf(),
            final(self).is_shut_down(),
            final(self).resource_view() == old(self).resource_view(),
            old(self).is_shut_down() ==> r == Err::<(), OTelSdkError>(OTelSdkError::AlreadyShutdown)
                && final(self).meters_view() == old(self).meters_view() && final(self).reader_phases()
                == old(self).reader_phases(),
            !old(self).is_shut_down() ==> final(self).reader_phases().len() == old(self).reader_phases().len()
                && forall|i: int|
                0 <= i < final(self).reader_phases().len() ==> #[trigger] final(self).reader_phases()[i]
                    == ReaderPhase::ShutDown,
            !old(self).is_shut_down() && old(self).reader_phases().len() == 0 ==> r == Ok::<(), OTelSdkError>(()),
            !old(self).is_shut_down() && old(self).reader_phases().contains(ReaderPhase::ShutDown) ==> r is Err,
    {
        if self.inner.shutdown_invoked {
            return Err(OTelSdkError::AlreadyShutdown);
        }
        let ghost phases = self.reader_phases();
        let ghost n = self.readers@.len();
        let mut result: OTelSdkResult = Ok(());
        let mut i: usize = 0;
        while i < self.readers.len()
            invariant
                i <= self.readers@.len(),
                self.readers@.len() == n,
                phases.len() == n,
                self.inner.wf(),
                !self.inner.is_shut_down(),
                self.inner.resource_view() == old(self).inner.resource_view(),
                forall|j: int| i <= j < n ==> #[trigger] phases_of(self.readers@)[j] == phases[j],
                forall|j: int| 0 <= j < i ==> #[trigger] phases_of(self.readers@)[j] == ReaderPhase::ShutDown,
                result is Ok ==> forall|j: int| 0 <= j < i ==> #[trigger] phases[j] != ReaderPhase::ShutDown,
                i == 0 ==> result == Ok::<(), OTelSdkError>(()),
            decreases self.readers.len() - i,
        {
            let ghost before = self.readers@;
            let mut reader = self.readers.remove(i);
            proof {
                assert(phases_of(before)[i as int] == reader.phase());
            }
            let res = reader.shutdown(&mut self.inner);
            self.readers.insert(i, reader);
            proof {
                assert(self.readers@ =~= before.update(i as int, reader));
                assert forall|j: int| i < j < n implies #[trigger] phases_of(self.readers@)[j] == phases[j] by {
                    assert(self.readers@[j] == before[j]);
                    assert(phases_of(before)[j] == before[j].phase());
                    assert(phases_of(self.readers@)[j] == self.readers@[j].phase());
                }
                assert forall|j: int| 0 <= j <= i implies #[trigger] phases_of(self.readers@)[j] == ReaderPhase::ShutDown by {
                    assert(phases_of(self.readers@)[j] == self.readers@[j].phase());
                    if j < i {
                        assert(self.readers@[j] == before[j]);
                        assert(phases_of(before)[j] == before[j].phase());
                    }
                }
            }
            match res {
                Ok(()) => {},
                Err(e) => {
                    if result.is_ok() {
                        result = Err(e);
                    }
                },
            }
            i = i + 1;
        }
        self.inner.mark_shut_down();
        proof {
            if phases.contains(ReaderPhase::ShutDown) {
                let k = choose|k: int| 0 <= k < phases.len() && phases[k] == ReaderPhase::ShutDown;
                assert(phases[k] == ReaderPhase::ShutDown);
            }
        }
        result
    }
}

/// Configuration of an [`SdkMeterProvider`]: its readers and its resource.
pub struct MeterProviderBuilder<R: MetricReader> {
    resource: Option<Resource>,
    readers: Vec<R>,
}

impl<R: MetricReader> MeterProviderBuilder<R> {
    /// The resource configured so far, if any.
    pub closed spec fn resource_opt(&self) -> Option<Seq<crate::attributes::AttrView>> {
        match self.resource {
            Some(r) => Some(r@),
            None => None,
        }
    }

    /// The phases of the readers added so far, in order.
    pub closed spec fn reader_phases(&self) -> Seq<ReaderPhase> {
        phases_of(self.readers@)
    }

    /// Whether each reader added so far skips the exporter on an idle flush.
    pub closed spec fn reader_skips(&self) -> Seq<bool> {
        skips_of(self.readers@)
    }

    pub(crate) fn new() -> (r: Self)
        ensures
            r.resource_opt() is None,
            r.reader_phases() == Seq::<ReaderPhase>::empty(),
            r.reader_skips() == Seq::<bool>::empty(),
    {
        let r = MeterProviderBuilder { resource: None, readers: Vec::new() };
        proof {
            assert(phases_of(r.readers@) =~= Seq::<ReaderPhase>::empty());
            assert(skips_of(r.readers@) =~= Seq::<bool>::empty());
        }
        r
    }

    /// Adds a resource; resources given more than once are merged, the later
    /// one's value winning for a key in both.
    pub fn with_resource(self, resource: Resource) -> (r: Self)
        ensures
            r.resource_opt() == Some(
                match self.resource_opt() {
                    Some(e) => crate::attributes::canonical(e + resource@),
                    None => resource@,
                },
            ),
            r.reader_phases() == self.reader_phases(),
            r.reader_skips() == self.reader_skips(),
    {
        let mut b = self;
        let merged = match &b.resource {
            Some(existing) => existing.merge(&resource),
            None => resource,
        };
        b.resource = Some(merged);
        b
    }

    /// Adds a reader; each reader drives its own exporter.
    pub fn with_reader(self, reader: R) -> (r: Self)
        ensures
            r.resource_opt() == self.resource_opt(),
            r.reader_phases() == self.reader_phases().push(reader.phase()),
            r.reader_skips() == self.reader_skips().push(reader.skips_idle_export()),
    {
        let mut b = self;
        b.readers.push(reader);
        proof {
            assert(phases_of(b.readers@) =~= phases_of(self.readers@).push(reader.phase()));
            assert(skips_of(b.readers@) =~= skips_of(self.readers@).push(reader.skips_idle_export()));
        }
        b
    }

    /// The provider, with every reader registered with it.
    pub fn build(self) -> (r: SdkMeterProvider<R>)
        ensures
            r.wf(),
            !r.is_shut_down(),
            r.meters_view() == Seq::<MeterView>::empty(),
            r.resource_view() == match self.resource_opt() {
                Some(e) => e,
                None => Seq::<crate::attributes::AttrView>::empty(),
            },
            r.reader_phases() == self.reader_phases().map_values(|p: ReaderPhase| phase_after_register(p)),
            r.reader_skips() == self.reader_skips(),
    {
        let resource = match self.resource {
            Some(r) => r,
            None => Resource::empty(),
        };
        let ghost phases = phases_of(self.readers@);
        let ghost skips = skips_of(self.readers@);
        let mut readers = self.readers;
        let mut i: usize = 0;
        while i < readers.len()
            invariant
                i <= readers@.len(),
                readers@.len() == phases.len(),
                forall|j: int| 0 <= j < i ==> #[trigger] phases_of(readers@)[j] == phase_after_register(phases[j]),
                forall|j: int| i <= j < phases.len() ==> #[trigger] phases_of(readers@)[j] == phases[j],
                skips_of(readers@) == skips,
            decreases readers.len() - i,
        {
            let ghost before = readers@;
            let mut reader = readers.remove(i);
            proof {
                assert(phases_of(before)[i as int] == reader.phase());
            }
            proof {
                assert(skips[i as int] == reader.skips_idle_export());
            }
            reader.register_provider();
            readers.insert(i, reader);
            proof {
                assert(readers@ =~= before.update(i as int, reader));
                assert(skips_of(readers@) =~= skips);
                assert forall|j: int| 0 <= j <= i implies #[trigger] phases_of(readers@)[j] == phase_after_register(phases[j]) by {
                    assert(phases_of(readers@)[j] == readers@[j].phase());
                    if j < i {
                        assert(readers@[j] == before[j]);
                        assert(phases_of(before)[j] == before[j].phase());
                    }
                }
                assert forall|j: int| i < j < phases.len() implies #[trigger] phases_of(readers@)[j] == phases[j] by {
                    assert(readers@[j] == before[j]);
                    assert(phases_of(before)[j] == before[j].phase());
                    assert(phases_of(readers@)[j] == readers@[j].phase());
                }
            }
            i = i + 1;
        }
        let r = SdkMeterProvider { inner: SdkMeterProviderInner::new(resource), readers };
        proof {
            assert(phases_of(r.readers@) =~= phases.map_values(|p: ReaderPhase| phase_after_register(p)));
        }
        r
    }
}

} // verus!
