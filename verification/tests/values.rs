use mettle::binary64::Binary64;
use mettle::duration::Duration;
use mettle::histogram::{histogram_index, histogram_upper_bound, DurationHistogram};
use mettle::timing::format_duration;
use mettle::redaction::{clear, keep_secrets};
use mettle::names::edit_distance;
use mettle::value::{merge_objects, Object, Value};

#[test]
fn structured_values_have_stable_json_like_output() {
    let mut object = Object::new();
    object.insert("active".to_owned(), Value::Boolean(true));
    object.insert("name".to_owned(), Value::String("João \"Flow\"\n\u{0001}".to_owned()));
    let value = Value::Object(object);
    assert_eq!(
        value.to_text(),
        "{\"active\": true, \"name\": \"João \\\"Flow\\\"\\n\\u0001\"}"
    );
}

#[test]
fn floats_are_written_as_short_as_they_can_be() {
    for number in [0.1, 1.5, 1e21, 123456789.125, 5e-324, -2.25, 1e300] {
        let value = Value::Float(Binary64 { bits: f64::to_bits(number) });
        assert_eq!(value.to_text().parse::<f64>(), Ok(number));
    }
}

#[test]
fn durations_are_written_in_the_largest_unit() {
    assert_eq!(format_duration(Duration::from_nanos(2_000_000_000)), "2s");
    assert_eq!(format_duration(Duration::from_nanos(1_500_000)), "1500us");
    assert_eq!(format_duration(Duration::from_nanos(7)), "7ns");
}

#[test]
fn objects_keep_the_last_value_of_a_name() {
    let mut object = Object::new();
    object.insert("b".to_owned(), Value::Integer(1));
    object.insert("a".to_owned(), Value::Integer(2));
    object.insert("b".to_owned(), Value::Integer(3));
    assert_eq!(object.len(), 2);
    assert_eq!(object.get("b"), Some(&Value::Integer(3)));
    assert_eq!(object.entries[0].name, "a");
    assert_eq!(object.remove("a"), Some(Value::Integer(2)));
    assert_eq!(object.get("a"), None);
}

#[test]
fn buckets_bound_what_they_count() {
    for nanos in [0, 1, 2, 3, 63, 64, 65, 1_000, 123_456_789, u64::MAX] {
        let bound = histogram_upper_bound(histogram_index(nanos));
        assert!(bound >= nanos);
        assert!(bound - nanos <= nanos / 64 + 1);
    }
    assert_eq!(histogram_index(0), 0);
    assert_eq!(histogram_index(1), 1);
    assert_eq!(histogram_index(2), 65);
    assert_eq!(histogram_upper_bound(65), 2);
}

#[test]
fn percentiles_cover_their_share() {
    let mut histogram = DurationHistogram::new();
    assert_eq!(histogram.percentile(50), Duration::from_nanos(0));
    for nanos in 1..=100 {
        histogram.record(Duration::from_nanos(nanos));
    }
    assert_eq!(histogram.len(), 100);
    assert!(histogram.percentile(50).nanos >= 50);
    assert!(histogram.percentile(50).nanos <= 51);
    assert_eq!(histogram.least(), Some(Duration::from_nanos(1)));
    assert_eq!(histogram.greatest(), Duration::from_nanos(100));
    assert_eq!(histogram.mean(), Duration::from_nanos(50));
}

#[test]
fn sensitive_values_are_not_shown() {
    let secret = Value::String("hunter2".to_owned()).sensitive();
    assert_eq!(secret.to_text(), "[REDACTED]");
    assert_eq!(secret.exposed_string(), "hunter2");
}

#[test]
fn secrets_are_taken_out_of_messages() {
    let secrets = vec!["hunter2".to_owned(), String::new(), "key".to_owned()];
    assert_eq!(
        clear("hunter2 and key, key".to_owned(), &secrets),
        "[REDACTED] and [REDACTED], [REDACTED]"
    );
    let mut known = vec!["key".to_owned()];
    keep_secrets(&mut known, &vec![String::new(), "key".to_owned(), "new".to_owned()]);
    assert_eq!(known, vec!["key".to_owned(), "new".to_owned()]);
}

#[test]
fn percentiles_are_close() {
    let mut histogram = DurationHistogram::new();
    let mut nanos: u64 = 1_000;
    for _ in 0..50 {
        histogram.record(Duration::from_nanos(nanos));
        nanos = nanos + nanos / 5;
    }
    let mut ranked: u64 = 1_000;
    for position in 1..=50 {
        let found = histogram.percentile(position * 2).nanos as u64;
        assert!(ranked <= found);
        assert!(found - ranked <= ranked / 64);
        ranked = ranked + ranked / 5;
    }
}

#[test]
fn distances_count_edits() {
    assert_eq!(edit_distance("kitten", "sitting"), 3);
    assert_eq!(edit_distance("sitting", "kitten"), 3);
    assert_eq!(edit_distance("get", "get"), 0);
    assert_eq!(edit_distance("", "post"), 4);
    let words = ["get", "gett", "post", "put", "patch", ""];
    for a in words {
        for b in words {
            assert_eq!(edit_distance(a, b), edit_distance(b, a));
            assert_eq!(edit_distance(a, b) == 0, a == b);
            assert!(edit_distance(a, b) <= a.len().max(b.len()));
            for c in words {
                assert!(edit_distance(a, c) <= edit_distance(a, b) + edit_distance(b, c));
            }
        }
    }
}

#[test]
fn merging_once_more_changes_nothing() {
    let inner = |number: i64| {
        let mut object = Object::new();
        object.insert("x".to_owned(), Value::Integer(number));
        object
    };
    let source = || {
        let mut object = Object::new();
        object.insert("nested".to_owned(), Value::Object(inner(2)));
        object.insert("a".to_owned(), Value::Integer(3));
        object
    };
    let merged = |times: usize| {
        let mut object = Object::new();
        object.insert("nested".to_owned(), Value::Object(inner(1)));
        object.insert("z".to_owned(), Value::Null);
        for _ in 0..times {
            merge_objects(&mut object, source());
        }
        object
    };
    assert_eq!(merged(2), merged(1));
    let names_of = merged(1);
    let names: Vec<&str> = names_of.entries.iter().map(|entry| entry.name.as_str()).collect();
    assert_eq!(names, vec!["a", "nested", "z"]);
}
