use otel_metrics::aggregation::{find_bucket, AggregationStore, Aggregator, DataPoint, Tracker};
use otel_metrics::attributes::{canonicalize, compare_keys, KeyValue, Value};
use otel_metrics::export::Temporality;

fn kv(k: &str, v: i64) -> KeyValue {
    KeyValue::new(k.to_string(), Value::I64(v))
}

fn key_of(p: &DataPoint) -> Vec<(String, i64)> {
    p.attributes
        .iter()
        .map(|a| {
            let v = match &a.value {
                Value::I64(i) => *i,
                _ => -1,
            };
            (a.key.clone(), v)
        })
        .collect()
}

fn sums(points: &[DataPoint]) -> Vec<(Vec<(String, i64)>, i64)> {
    let mut r: Vec<(Vec<(String, i64)>, i64)> = points
        .iter()
        .map(|p| {
            let v = match &p.tracker {
                Tracker::Sum(s) => *s,
                Tracker::LastValue(v) => *v,
                Tracker::Histogram(h) => h.sum,
            };
            (key_of(p), v)
        })
        .collect();
    r.sort();
    r
}

fn k(name: &str, v: i64) -> Vec<(String, i64)> {
    vec![(name.to_string(), v)]
}

#[test]
fn delta_collect_reports_each_value_once() {
    let mut store = AggregationStore::new(Aggregator::Sum { monotonic: true }, Temporality::Delta);
    store.record(&vec![kv("k", 1)], 1);
    store.record(&vec![kv("k", 1)], 2);
    store.record(&vec![kv("k", 2)], 3);
    let first = store.collect();
    assert_eq!(sums(&first), vec![(k("k", 1), 3), (k("k", 2), 3)]);
    let total: i64 = first
        .iter()
        .map(|p| match &p.tracker {
            Tracker::Sum(s) => *s,
            _ => 0,
        })
        .sum();
    assert_eq!(total, 6);

    store.record(&vec![kv("k", 2)], 4);
    let second = store.collect();
    assert_eq!(sums(&second), vec![(k("k", 2), 4)]);

    let third = store.collect();
    assert!(third.is_empty());
}

#[test]
fn cumulative_collect_keeps_totals() {
    let mut store = AggregationStore::new(Aggregator::Sum { monotonic: false }, Temporality::Cumulative);
    store.record(&vec![kv("a", 1)], 10);
    store.record(&vec![kv("a", 1)], -4);
    assert_eq!(sums(&store.collect()), vec![(k("a", 1), 6)]);
    store.record(&vec![kv("a", 1)], 1);
    assert_eq!(sums(&store.collect()), vec![(k("a", 1), 7)]);
}

#[test]
fn monotonic_sum_drops_negative_values() {
    let mut store = AggregationStore::new(Aggregator::Sum { monotonic: true }, Temporality::Delta);
    store.record(&vec![kv("a", 1)], 5);
    store.record(&vec![kv("a", 1)], -3);
    assert_eq!(sums(&store.collect()), vec![(k("a", 1), 5)]);
}

#[test]
fn empty_store_collects_nothing() {
    let mut store = AggregationStore::new(Aggregator::LastValue, Temporality::Cumulative);
    assert!(store.collect().is_empty());
}

#[test]
fn measurements_without_attributes_share_one_series() {
    let mut store = AggregationStore::new(Aggregator::Sum { monotonic: true }, Temporality::Delta);
    store.record(&vec![], 2);
    store.record(&vec![], 3);
    store.record(&vec![kv("x", 0)], 1);
    assert_eq!(sums(&store.collect()), vec![(vec![], 5), (k("x", 0), 1)]);
}

#[test]
fn key_order_does_not_split_a_series() {
    let mut store = AggregationStore::new(Aggregator::Sum { monotonic: true }, Temporality::Delta);
    store.record(&vec![kv("a", 1), kv("b", 2)], 1);
    store.record(&vec![kv("b", 2), kv("a", 1)], 2);
    let points = store.collect();
    assert_eq!(points.len(), 1);
    assert_eq!(key_of(&points[0]), vec![("a".to_string(), 1), ("b".to_string(), 2)]);
    assert_eq!(sums(&points)[0].1, 3);
}

#[test]
fn gauge_keeps_last_value() {
    let mut store = AggregationStore::new(Aggregator::LastValue, Temporality::Cumulative);
    store.record(&vec![kv("g", 1)], 7);
    store.record(&vec![kv("g", 1)], -2);
    assert_eq!(sums(&store.collect()), vec![(k("g", 1), -2)]);
}

#[test]
fn histogram_counts_buckets() {
    let mut store = AggregationStore::new(Aggregator::Histogram { bounds: vec![0, 10, 100] }, Temporality::Delta);
    for v in [-5, 0, 3, 10, 11, 500] {
        store.record(&vec![], v);
    }
    let points = store.collect();
    assert_eq!(points.len(), 1);
    match &points[0].tracker {
        Tracker::Histogram(h) => {
            assert_eq!(h.count, 6);
            assert_eq!(h.sum, 519);
            assert_eq!(h.min, -5);
            assert_eq!(h.max, 500);
            assert_eq!(h.bucket_counts, vec![2, 2, 1, 1]);
        }
        _ => panic!("expected a histogram"),
    }
}

#[test]
fn find_bucket_places_values_by_upper_bound() {
    let bounds = vec![0, 10, 100];
    assert_eq!(find_bucket(&bounds, -1), 0);
    assert_eq!(find_bucket(&bounds, 0), 0);
    assert_eq!(find_bucket(&bounds, 1), 1);
    assert_eq!(find_bucket(&bounds, 100), 2);
    assert_eq!(find_bucket(&bounds, 101), 3);
    assert_eq!(find_bucket(&vec![], 5), 0);
}

#[test]
fn sums_wrap_on_overflow() {
    let mut store = AggregationStore::new(Aggregator::Sum { monotonic: false }, Temporality::Cumulative);
    store.record(&vec![], i64::MAX);
    store.record(&vec![], 1);
    assert_eq!(sums(&store.collect()), vec![(vec![], i64::MIN)]);
}

#[test]
fn canonical_form_sorts_and_keeps_last_value() {
    let attrs = vec![kv("b", 1), kv("a", 2), kv("b", 3)];
    let c = canonicalize(&attrs);
    let pairs: Vec<(String, i64)> = c
        .iter()
        .map(|a| {
            (
                a.key.clone(),
                match &a.value {
                    Value::I64(i) => *i,
                    _ => -1,
                },
            )
        })
        .collect();
    assert_eq!(pairs, vec![("a".to_string(), 2), ("b".to_string(), 3)]);
}

#[test]
fn canonical_form_ignores_insertion_order() {
    let one = canonicalize(&vec![kv("x", 1), kv("y", 2), kv("z", 3)]);
    let two = canonicalize(&vec![kv("z", 3), kv("x", 1), kv("y", 2)]);
    assert!(otel_metrics::attributes::same_attributes(&one, &two));
    assert!(canonicalize(&vec![]).is_empty());
}

#[test]
fn keys_compare_lexicographically() {
    assert!(compare_keys(&"a".to_string(), &"b".to_string()) < 0);
    assert!(compare_keys(&"b".to_string(), &"a".to_string()) > 0);
    assert_eq!(compare_keys(&"ab".to_string(), &"ab".to_string()), 0);
    assert!(compare_keys(&"a".to_string(), &"ab".to_string()) < 0);
    assert!(compare_keys(&"".to_string(), &"a".to_string()) < 0);
}

#[test]
fn values_compare_by_content() {
    assert!(Value::String("v".to_string()).same_as(&Value::String("v".to_string())));
    assert!(!Value::String("v".to_string()).same_as(&Value::I64(1)));
    assert!(Value::Bool(true).same_as(&Value::Bool(true)));
    assert!(!Value::I64(1).same_as(&Value::I64(2)));
}
