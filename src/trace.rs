//! Span configuration for the tracing interface that this pipeline serves.
use vstd::prelude::*;

use crate::attributes::KeyValue;

verus! {

/// The identity of a trace; zero is invalid.
#[derive(PartialEq, Eq, Structural, Clone, Copy, Debug)]
pub struct TraceId(pub u128);

/// The identity of a span within a trace; zero is invalid.
#[derive(PartialEq, Eq, Structural, Clone, Copy, Debug)]
pub struct SpanId(pub u64);

/// The relationship of a span to its callers and callees.
#[derive(PartialEq, Eq, Structural, Clone, Copy, Debug)]
pub enum SpanKind {
    Client,
    Server,
    Producer,
    Consumer,
    Internal,
}

/// The status of a span's operation.
pub enum Status {
    Unset,
    Error { description: String },
    /// The operation completed successfully.
    Success,
}

/// Vendor-specific trace data carried along with a span context.
pub struct TraceState {
    pub entries: Vec<(String, String)>,
}

/// The part of a span that travels to its children and to linked spans.
pub struct SpanContext {
    pub trace_id: TraceId,
    pub span_id: SpanId,
    pub trace_flags: u8,
    pub is_remote: bool,
    pub trace_state: TraceState,
}

impl SpanContext {
    /// A context is valid where neither its trace id nor its span id is zero.
    pub open spec fn valid(&self) -> bool {
        self.trace_id.0 != 0 && self.span_id.0 != 0
    }

    /// Whether the context is valid.
    pub fn is_valid(&self) -> (r: bool)
        ensures
            r == self.valid(),
    {
        self.trace_id.0 != 0 && self.span_id.0 != 0
    }
}

/// The context a span starts in: the parent's span context, if any.
pub struct Context {
    pub span_context: Option<SpanContext>,
}

/// Something that happened during a span.
pub struct Event {
    pub name: String,
    pub timestamp: std::time::SystemTime,
    pub attributes: Vec<KeyValue>,
    pub dropped_attributes_count: u32,
}

/// A link from a span to a span in the same or another trace.
pub struct Link {
    pub span_context: SpanContext,
    pub attributes: Vec<KeyValue>,
    pub dropped_attributes_count: u32,
}

/// Whether a span is recorded, and whether it is also exported.
#[derive(PartialEq, Eq, Structural, Clone, Copy, Debug)]
pub enum SamplingDecision {
    /// Nothing of the span is recorded.
    Drop,
    /// The span is recorded but not exported.
    RecordOnly,
    /// The span is recorded and exported.
    RecordAndSample,
}

/// What a sampler decided for a span.
pub struct SamplingResult {
    pub decision: SamplingDecision,
    pub attributes: Vec<KeyValue>,
    pub trace_state: TraceState,
}

/// The configuration of a span before it starts.
pub struct SpanBuilder {
    pub trace_id: Option<TraceId>,
    pub span_id: Option<SpanId>,
    pub span_kind: Option<SpanKind>,
    pub name: String,
    pub start_time: Option<std::time::SystemTime>,
    pub end_time: Option<std::time::SystemTime>,
    /// Attributes given at creation; a key given twice stays twice.
    pub attributes: Option<Vec<KeyValue>>,
    pub events: Option<Vec<Event>>,
    pub links: Option<Vec<Link>>,
    pub status: Status,
    pub sampling_result: Option<SamplingResult>,
}

/// A link is kept where its span context is valid.
pub open spec fn link_kept(l: Link) -> bool {
    l.span_context.valid()
}

/// A builder holding only a name.
pub open spec fn named(name: String) -> SpanBuilder {
    SpanBuilder {
        trace_id: None,
        span_id: None,
        span_kind: None,
        name,
        start_time: None,
        end_time: None,
        attributes: None,
        events: None,
        links: None,
        status: Status::Unset,
        sampling_result: None,
    }
}

/// Starts spans from builders. Tracers are implemented outside the library
/// and may draw fresh ids for every span, so nothing is promised of the span.
pub trait Tracer {
    /// The span type the tracer makes.
    type Span;

    /// Starts a span from a builder, as a child of the given context.
    fn build_with_context(&self, builder: SpanBuilder, parent_cx: &Context) -> Self::Span;

    /// Starts a span from a builder, in the tracer's current context.
    fn build(&self, builder: SpanBuilder) -> Self::Span;

    /// Starts a span with a name, in the tracer's current context.
    fn start(&self, name: String) -> Self::Span {
        self.build(SpanBuilder::from_name(name))
    }

    /// Starts a span with a name, as a child of the given context.
    fn start_with_context(&self, name: String, parent_cx: &Context) -> Self::Span {
        self.build_with_context(SpanBuilder::from_name(name), parent_cx)
    }
}

impl SpanBuilder {
    /// A builder with a name and nothing else set.
    pub fn from_name(name: String) -> (r: SpanBuilder)
        ensures
            r == named(name),
    {
        SpanBuilder {
            trace_id: None,
            span_id: None,
            span_kind: None,
            name,
            start_time: None,
            end_time: None,
            attributes: None,
            events: None,
            links: None,
            status: Status::Unset,
            sampling_result: None,
        }
    }

    /// Sets the trace id used where no parent context exists.
    pub fn with_trace_id(self, trace_id: TraceId) -> (r: SpanBuilder)
        ensures
            r == (SpanBuilder { trace_id: Some(trace_id), ..self }),
    {
        SpanBuilder { trace_id: Some(trace_id), ..self }
    }

    /// Sets the span id.
    pub fn with_span_id(self, span_id: SpanId) -> (r: SpanBuilder)
        ensures
            r == (SpanBuilder { span_id: Some(span_id), ..self }),
    {
        SpanBuilder { span_id: Some(span_id), ..self }
    }

    /// Sets the span kind.
    pub fn with_kind(self, span_kind: SpanKind) -> (r: SpanBuilder)
        ensures
            r == (SpanBuilder { span_kind: Some(span_kind), ..self }),
    {
        SpanBuilder { span_kind: Some(span_kind), ..self }
    }

    /// Sets the start time.
    pub fn with_start_time(self, start_time: std::time::SystemTime) -> (r: SpanBuilder)
        ensures
            r == (SpanBuilder { start_time: Some(start_time), ..self }),
    {
        SpanBuilder { start_time: Some(start_time), ..self }
    }

    /// Sets the end time.
    pub fn with_end_time(self, end_time: std::time::SystemTime) -> (r: SpanBuilder)
        ensures
            r == (SpanBuilder { end_time: Some(end_time), ..self }),
    {
        SpanBuilder { end_time: Some(end_time), ..self }
    }

    /// Sets the attributes, as given: no key is deduplicated.
    pub fn with_attributes(self, attributes: Vec<KeyValue>) -> (r: SpanBuilder)
        ensures
            r == (SpanBuilder { attributes: Some(attributes), ..self }),
    {
        SpanBuilder { attributes: Some(attributes), ..self }
    }

    /// Sets the events.
    pub fn with_events(self, events: Vec<Event>) -> (r: SpanBuilder)
        ensures
            r == (SpanBuilder { events: Some(events), ..self }),
    {
        SpanBuilder { events: Some(events), ..self }
    }

    /// Sets the links, keeping only those whose span context is valid, in order.
    pub fn with_links(self, links: Vec<Link>) -> (r: SpanBuilder)
        ensures
            r.links is Some,
            r.links->0@ == links@.filter(|l: Link| link_kept(l)),
            r == (SpanBuilder { links: r.links, ..self }),
    {
        let ghost all = links@;
        let mut rest = links;
        let mut kept: Vec<Link> = Vec::new();
        let n = rest.len();
        let mut i: usize = 0;
        proof {
            reveal(Seq::filter);
            assert(all.subrange(0, 0) =~= Seq::<Link>::empty());
        }
        while rest.len() > 0
            invariant
                i + rest@.len() == all.len(),
                n == all.len(),
                rest@ == all.subrange(i as int, all.len() as int),
                kept@ == all.subrange(0, i as int).filter(|l: Link| link_kept(l)),
            decreases rest@.len(),
        {
            let l = rest.remove(0);
            proof {
                reveal(Seq::filter);
                assert(all.subrange(0, i + 1).drop_last() =~= all.subrange(0, i as int));
                assert(all[i as int] == l);
            }
            if l.span_context.is_valid() {
                kept.push(l);
            }
            proof {
                assert(rest@ =~= all.subrange(i + 1, all.len() as int));
            }
            i = i + 1;
        }
        proof {
            assert(all.subrange(0, i as int) =~= all);
        }
        SpanBuilder { links: Some(kept), ..self }
    }

    /// Sets the status.
    pub fn with_status(self, status: Status) -> (r: SpanBuilder)
        ensures
            r == (SpanBuilder { status, ..self }),
    {
        SpanBuilder { status, ..self }
    }

    /// Sets the sampling result.
    pub fn with_sampling_result(self, sampling_result: SamplingResult) -> (r: SpanBuilder)
        ensures
            r == (SpanBuilder { sampling_result: Some(sampling_result), ..self }),
    {
        SpanBuilder { sampling_result: Some(sampling_result), ..self }
    }

    /// Starts the span with the tracer, in the tracer's current context.
    pub fn start<T: Tracer>(self, tracer: &T) -> T::Span {
        tracer.build(self)
    }

    /// Starts the span with the tracer, as a child of the given context.
    pub fn start_with_context<T: Tracer>(self, tracer: &T, parent_cx: &Context) -> T::Span {
        tracer.build_with_context(self, parent_cx)
    }
}

} // verus!
