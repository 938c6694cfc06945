use std::time::Duration;
use yara_diagnostics::profiling::{BoundedTopK, FileTime};

fn d(ms: u64) -> Duration {
    Duration::from_millis(ms)
}

fn labels(v: &[FileTime]) -> Vec<&str> {
    v.iter().map(|f| f.label.as_str()).collect()
}

#[test]
fn fewer_than_k_returns_all_sorted() {
    let mut h = BoundedTopK::new(5);
    h.insert(d(100), "a".into());
    h.insert(d(300), "b".into());
    h.insert(d(200), "c".into());
    let v = h.sorted_snapshot();
    assert_eq!(v.len(), 3);
    assert_eq!(v[0].label, "b");
    assert_eq!(v[1].label, "c");
    assert_eq!(v[2].label, "a");
}

#[test]
fn more_than_k_keeps_largest_k() {
    let mut h = BoundedTopK::new(3);
    for (label, ms) in [("a", 100), ("b", 50), ("c", 400), ("d", 200), ("e", 300)] {
        h.insert(d(ms), label.into());
    }
    let v = h.sorted_snapshot();
    assert_eq!(v.len(), 3);
    let labels: Vec<&str> = v.iter().map(|f| f.label.as_str()).collect();
    assert_eq!(labels, vec!["c", "e", "d"]);
}

#[test]
fn equal_smallest_does_not_evict() {
    let mut h = BoundedTopK::new(2);
    h.insert(d(100), "a".into());
    h.insert(d(100), "b".into());
    h.insert(d(100), "c".into()); // should NOT evict (strictly greater required)
    let v = h.sorted_snapshot();
    let labels: Vec<&str> = v.iter().map(|f| f.label.as_str()).collect();
    assert_eq!(labels.len(), 2);
    assert!(labels.contains(&"a") || labels.contains(&"b"));
    assert!(!labels.contains(&"c"));
}

#[test]
fn snapshot_does_not_mutate() {
    let mut h = BoundedTopK::new(3);
    h.insert(d(100), "a".into());
    h.insert(d(200), "b".into());
    let first = h.sorted_snapshot();
    let second = h.sorted_snapshot();
    assert_eq!(first, second);
}

#[test]
fn emptiness() {
    let mut h = BoundedTopK::new(1);
    assert!(h.is_empty());
    assert!(h.sorted_snapshot().is_empty());
    h.insert(Duration::ZERO, String::new());
    assert!(!h.is_empty());
}

#[test]
fn capacity_is_never_exceeded() {
    let mut h = BoundedTopK::new(3);
    for (i, ms) in [7, 7, 1, 9, 2, 9, 8].into_iter().enumerate() {
        h.insert(d(ms), format!("{i}"));
        assert_eq!(h.sorted_snapshot().len(), (i + 1).min(3));
    }
}

#[test]
fn no_capacity_keeps_nothing() {
    let mut h = BoundedTopK::new(0);
    h.insert(d(1), "a".into());
    h.insert(Duration::MAX, "b".into());
    assert!(h.is_empty());
    assert_eq!(h.sorted_snapshot(), vec![]);
}

#[test]
fn smallest_label_of_the_smallest_time_is_evicted() {
    let mut h = BoundedTopK::new(3);
    h.insert(d(5), "b".into());
    h.insert(d(5), "a".into());
    h.insert(d(5), "ab".into());
    h.insert(d(6), "z".into());
    let v = h.sorted_snapshot();
    assert_eq!(v[0], FileTime { label: "z".into(), time: d(6) });
    assert!(!labels(&v).contains(&"a"));
    assert!(labels(&v).contains(&"ab"));
    assert!(labels(&v).contains(&"b"));
}

#[test]
fn times_compare_down_to_the_nanosecond() {
    let mut h = BoundedTopK::new(1);
    h.insert(Duration::new(1, 999_999_999), "a".into());
    h.insert(Duration::new(2, 0), "b".into());
    h.insert(Duration::new(1, 999_999_999), "c".into());
    assert_eq!(
        h.sorted_snapshot(),
        vec![FileTime { label: "b".into(), time: Duration::from_secs(2) }]
    );
}

#[test]
fn same_pair_can_be_kept_twice() {
    let mut h = BoundedTopK::new(2);
    h.insert(d(1), "a".into());
    h.insert(d(1), "a".into());
    assert_eq!(labels(&h.sorted_snapshot()), vec!["a", "a"]);
}
