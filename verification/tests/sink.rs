use aya_metrics::sink::{CounterHandle, Key, Label, Recorder, Unit};

#[test]
fn label_accessors() {
    let label = Label::new("hostname", "a.host".to_string());
    assert_eq!(label.key(), "hostname");
    assert_eq!(label.value(), "a.host");
}

#[test]
fn key_matches_same_parts() {
    let a = Key::from_parts(
        "packets".to_string(),
        vec![Label::new("cpu", "0".to_string())],
    );
    let b = Key::from_parts(
        "packets".to_string(),
        vec![Label::new("cpu", "0".to_string())],
    );
    assert!(a.matches(&b));
}

#[test]
fn key_matches_rejects_differences() {
    let base = Key::from_parts(
        "packets".to_string(),
        vec![Label::new("cpu", "0".to_string())],
    );
    let other_name = Key::from_parts(
        "bytes".to_string(),
        vec![Label::new("cpu", "0".to_string())],
    );
    let other_value = Key::from_parts(
        "packets".to_string(),
        vec![Label::new("cpu", "1".to_string())],
    );
    let other_len = Key::from_parts("packets".to_string(), vec![]);
    assert!(!base.matches(&other_name));
    assert!(!base.matches(&other_value));
    assert!(!base.matches(&other_len));
}

#[test]
fn register_and_get_counter() {
    let mut sink = Recorder::new();
    let key = Key::from_parts("packets".to_string(), vec![]);
    let handle = sink.register_counter(Key::from_parts("packets".to_string(), vec![]));
    assert_eq!(sink.get_counter(&key), Some(0));
    sink.increment(&handle, 7);
    sink.increment(&handle, 0);
    assert_eq!(sink.get_counter(&key), Some(7));
    let unknown = Key::from_parts("bytes".to_string(), vec![]);
    assert_eq!(sink.get_counter(&unknown), None);
}

#[test]
fn increment_one_handle_leaves_others_alone() {
    let mut sink = Recorder::new();
    let key_a = Key::from_parts("packets".to_string(), vec![]);
    let key_b = Key::from_parts(
        "packets".to_string(),
        vec![Label::new("hostname", "a.host".to_string())],
    );
    let handle_a = sink.register_counter(Key::from_parts("packets".to_string(), vec![]));
    let _handle_b = sink.register_counter(Key::from_parts(
        "packets".to_string(),
        vec![Label::new("hostname", "a.host".to_string())],
    ));
    sink.increment(&handle_a, 5);
    assert_eq!(sink.get_counter(&key_a), Some(5));
    assert_eq!(sink.get_counter(&key_b), Some(0));
}

#[test]
fn increment_saturates_at_max() {
    let mut sink = Recorder::new();
    let key = Key::from_parts("packets".to_string(), vec![]);
    let handle = sink.register_counter(Key::from_parts("packets".to_string(), vec![]));
    sink.increment(&handle, u64::MAX);
    sink.increment(&handle, 3);
    assert_eq!(sink.get_counter(&key), Some(u64::MAX));
}

#[test]
fn noop_handle_ignores_increments() {
    let mut sink = Recorder::new();
    let key = Key::from_parts("packets".to_string(), vec![]);
    let _handle = sink.register_counter(Key::from_parts("packets".to_string(), vec![]));
    let noop = CounterHandle::noop();
    sink.increment(&noop, 99);
    assert_eq!(sink.get_counter(&key), Some(0));
}

#[test]
fn describe_counter_leaves_series_alone() {
    let mut sink = Recorder::new();
    let key = Key::from_parts("packets".to_string(), vec![]);
    let _handle = sink.register_counter(Key::from_parts("packets".to_string(), vec![]));
    sink.describe_counter("packets".to_string(), Unit::Count, "packet count".to_string());
    assert_eq!(sink.get_counter(&key), Some(0));
}
