use otel_metrics::attributes::{KeyValue, Value};
use otel_metrics::trace::{
    Context, Link, SamplingDecision, SamplingResult, SpanBuilder, SpanContext, SpanId, SpanKind,
    Status, TraceId, TraceState, Tracer,
};

struct NameTracer;

impl Tracer for NameTracer {
    type Span = (String, bool);

    fn build_with_context(&self, builder: SpanBuilder, parent_cx: &Context) -> (String, bool) {
        (builder.name, parent_cx.span_context.is_some())
    }

    fn build(&self, builder: SpanBuilder) -> (String, bool) {
        (builder.name, false)
    }
}

fn link(trace: u128, span: u64) -> Link {
    Link {
        span_context: SpanContext {
            trace_id: TraceId(trace),
            span_id: SpanId(span),
            trace_flags: 0,
            is_remote: false,
            trace_state: TraceState { entries: vec![] },
        },
        attributes: vec![],
        dropped_attributes_count: 0,
    }
}

#[test]
fn builder_sets_each_field() {
    let b = SpanBuilder::from_name("op".to_string())
        .with_trace_id(TraceId(7))
        .with_span_id(SpanId(9))
        .with_kind(SpanKind::Server)
        .with_attributes(vec![
            KeyValue::new("k".to_string(), Value::I64(1)),
            KeyValue::new("k".to_string(), Value::I64(2)),
        ])
        .with_events(vec![])
        .with_status(Status::Error { description: "bad".to_string() })
        .with_sampling_result(SamplingResult {
            decision: SamplingDecision::RecordOnly,
            attributes: vec![],
            trace_state: TraceState { entries: vec![] },
        });
    assert_eq!(b.name, "op");
    assert_eq!(b.trace_id, Some(TraceId(7)));
    assert_eq!(b.span_id, Some(SpanId(9)));
    assert_eq!(b.span_kind, Some(SpanKind::Server));
    assert_eq!(b.attributes.as_ref().map(|a| a.len()), Some(2));
    assert!(b.events.is_some());
    assert!(matches!(b.status, Status::Error { .. }));
    assert_eq!(b.sampling_result.as_ref().map(|s| s.decision), Some(SamplingDecision::RecordOnly));
    assert!(b.links.is_none());
    assert!(b.start_time.is_none());
}

#[test]
fn builder_sets_times() {
    let t = std::time::SystemTime::UNIX_EPOCH;
    let b = SpanBuilder::from_name("op".to_string()).with_start_time(t).with_end_time(t);
    assert_eq!(b.start_time, Some(t));
    assert_eq!(b.end_time, Some(t));
}

#[test]
fn links_with_invalid_context_are_dropped() {
    let b = SpanBuilder::from_name("op".to_string()).with_links(vec![
        link(1, 1),
        link(0, 1),
        link(2, 0),
        link(3, 4),
    ]);
    let links = b.links.unwrap();
    assert_eq!(links.len(), 2);
    assert_eq!(links[0].span_context.trace_id, TraceId(1));
    assert_eq!(links[1].span_context.span_id, SpanId(4));
}

#[test]
fn builder_starts_through_tracer() {
    let tracer = NameTracer;
    assert_eq!(SpanBuilder::from_name("a".to_string()).start(&tracer), ("a".to_string(), false));
    let parent = Context { span_context: Some(link(1, 2).span_context) };
    assert_eq!(
        SpanBuilder::from_name("b".to_string()).start_with_context(&tracer, &parent),
        ("b".to_string(), true)
    );
    assert_eq!(tracer.start("c".to_string()), ("c".to_string(), false));
    assert_eq!(tracer.start_with_context("d".to_string(), &parent), ("d".to_string(), true));
}
