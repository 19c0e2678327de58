use avi_device::clock::VectorClock;
use avi_device::context::AviContext;
use avi_device::json::{deep_merge, JsonValue};
use avi_device::path::get_nested_value;

fn num(n: &str) -> JsonValue {
    JsonValue::Number(n.to_string())
}

fn obj(members: Vec<(&str, JsonValue)>) -> JsonValue {
    JsonValue::Object(members.into_iter().map(|(k, v)| (k.to_string(), v)).collect())
}

fn ctx(device: &str, ts: u64, clock: &[(&str, u64)], data: JsonValue) -> AviContext {
    let mut c = AviContext::new_at(device.to_string(), ts);
    let mut vc = VectorClock::new();
    for (a, n) in clock {
        vc.set(a, *n);
    }
    c.vector_clock = vc;
    c.replace_data_at(data, ts);
    c
}

#[test]
fn new_context_has_the_skeleton_document() {
    let c = AviContext::new_at("dev".to_string(), 42);
    assert_eq!(c.device_id, "dev");
    assert_eq!(c.timestamp, 42);
    assert!(c.vector_clock.entries().is_empty());
    assert!(c.data.same_as(&obj(vec![("avi", obj(vec![("device", obj(vec![]))]))])));
    let fresh = AviContext::new("other".to_string());
    assert!(fresh.data.same_as(&c.data));
}

#[test]
fn apply_patch_merges_and_stamps() {
    let mut c = ctx("d", 1, &[], obj(vec![("a", num("1")), ("b", obj(vec![("x", num("1"))]))]));
    c.apply_patch_at(obj(vec![("b", obj(vec![("y", num("2"))])), ("a", num("9"))]), 7);
    assert_eq!(c.timestamp, 7);
    assert!(get_nested_value(&c.data, "a").unwrap().same_as(&num("9")));
    assert!(get_nested_value(&c.data, "b.x").unwrap().same_as(&num("1")));
    assert!(get_nested_value(&c.data, "b.y").unwrap().same_as(&num("2")));
}

#[test]
fn replace_data_replaces() {
    let mut c = ctx("d", 1, &[], obj(vec![("a", num("1"))]));
    c.replace_data_at(obj(vec![("z", JsonValue::Null)]), 3);
    assert!(c.data.same_as(&obj(vec![("z", JsonValue::Null)])));
    assert_eq!(c.timestamp, 3);
}

#[test]
fn merge_strictly_newer_replaces_document() {
    let mut mine = ctx("me", 10, &[("me", 1)], obj(vec![("a", num("1")), ("gone", num("0"))]));
    let theirs = ctx("peer", 20, &[("me", 1), ("peer", 1)], obj(vec![("a", num("2"))]));
    assert!(mine.merge(theirs.duplicate()));
    assert!(mine.data.same_as(&theirs.data));
    assert_eq!(mine.timestamp, 20);
    assert_eq!(mine.device_id, "me");
    assert_eq!(mine.vector_clock.get("peer"), 1);
}

#[test]
fn merge_strictly_newer_same_data_reports_no_change() {
    let mut mine = ctx("me", 10, &[("me", 1)], obj(vec![("a", num("1"))]));
    let theirs = ctx("peer", 20, &[("me", 2)], obj(vec![("a", num("1"))]));
    assert!(!mine.merge(theirs));
    assert_eq!(mine.timestamp, 20);
    assert_eq!(mine.vector_clock.get("me"), 2);
}

#[test]
fn merge_older_only_adds_what_is_missing() {
    let mut mine = ctx("me", 10, &[("me", 3)], obj(vec![("a", num("1"))]));
    let theirs = ctx("peer", 5, &[("me", 1)], obj(vec![("a", num("2")), ("b", num("3"))]));
    assert!(mine.merge(theirs));
    assert!(get_nested_value(&mine.data, "a").unwrap().same_as(&num("1")));
    assert!(get_nested_value(&mine.data, "b").unwrap().same_as(&num("3")));
    assert_eq!(mine.timestamp, 10);
    assert_eq!(mine.vector_clock.get("me"), 3);
}

#[test]
fn merge_equal_clock_does_nothing() {
    let mut mine = ctx("me", 10, &[("me", 1)], obj(vec![("a", num("1"))]));
    let theirs = ctx("peer", 99, &[("me", 1)], obj(vec![("a", num("2"))]));
    assert!(!mine.merge(theirs));
    assert!(get_nested_value(&mine.data, "a").unwrap().same_as(&num("1")));
    assert_eq!(mine.timestamp, 10);
}

#[test]
fn merge_concurrent_older_stamp_wins_conflicts() {
    let mut mine = ctx("me", 10, &[("me", 1)], obj(vec![("a", num("1")), ("m", num("5"))]));
    let theirs = ctx("peer", 20, &[("peer", 1)], obj(vec![("a", num("2")), ("p", num("6"))]));
    assert!(mine.merge(theirs));
    assert!(get_nested_value(&mine.data, "a").unwrap().same_as(&num("1")));
    assert!(get_nested_value(&mine.data, "m").unwrap().same_as(&num("5")));
    assert!(get_nested_value(&mine.data, "p").unwrap().same_as(&num("6")));
    assert_eq!(mine.timestamp, 10);
    assert_eq!(mine.vector_clock.get("me"), 1);
    assert_eq!(mine.vector_clock.get("peer"), 1);

    let mut late = ctx("me", 30, &[("me", 1)], obj(vec![("a", num("1"))]));
    let early = ctx("peer", 20, &[("peer", 1)], obj(vec![("a", num("2"))]));
    assert!(late.merge(early));
    assert!(get_nested_value(&late.data, "a").unwrap().same_as(&num("2")));
    assert_eq!(late.timestamp, 20);
}

#[test]
fn merging_a_copy_of_itself_changes_nothing() {
    let mut c = ctx("me", 10, &[("me", 4)], obj(vec![("a", num("1"))]));
    let copy = c.duplicate();
    assert!(!c.merge(copy.duplicate()));
    assert!(c.data.same_as(&copy.data));
    assert_eq!(c.timestamp, copy.timestamp);
}

#[test]
fn deep_merge_prefers_as_asked() {
    let a = obj(vec![("k", num("1")), ("o", obj(vec![("x", num("1"))]))]);
    let b = obj(vec![("k", num("2")), ("o", obj(vec![("y", num("2"))]))]);
    let keep_a = deep_merge(a.deep_copy(), b.deep_copy(), true);
    assert!(keep_a.same_as(&obj(vec![("k", num("1")), ("o", obj(vec![("x", num("1")), ("y", num("2"))]))])));
    let take_b = deep_merge(a, b, false);
    assert!(take_b.same_as(&obj(vec![("k", num("2")), ("o", obj(vec![("x", num("1")), ("y", num("2"))]))])));
    assert!(deep_merge(num("1"), num("2"), true).same_as(&num("1")));
    assert!(deep_merge(num("1"), num("2"), false).same_as(&num("2")));
}

#[test]
fn same_as_ignores_member_order() {
    let a = obj(vec![("x", num("1")), ("y", JsonValue::Bool(true))]);
    let b = obj(vec![("y", JsonValue::Bool(true)), ("x", num("1"))]);
    assert!(a.same_as(&b));
    assert!(!a.same_as(&obj(vec![("x", num("1"))])));
    assert!(JsonValue::Array(vec![num("1")]).same_as(&JsonValue::Array(vec![num("1")])));
    assert!(!JsonValue::Array(vec![num("1")]).same_as(&JsonValue::Array(vec![num("2")])));
}

#[test]
fn merge_from_older_copy_with_only_conflicts_reports_no_change() {
    let mut mine = ctx("A", 1, &[("A", 2)], obj(vec![("x", num("1"))]));
    let theirs = ctx("A", 1, &[("A", 1)], obj(vec![("x", num("2"))]));
    assert!(!mine.merge(theirs));
    assert!(mine.data.same_as(&obj(vec![("x", num("1"))])));
    assert_eq!(mine.vector_clock.get("A"), 2);
}

#[test]
fn concurrent_merge_without_new_content_reports_no_change() {
    let mut mine = ctx("me", 10, &[("me", 1)], obj(vec![("a", num("1")), ("b", num("2"))]));
    let theirs = ctx("peer", 20, &[("peer", 1)], obj(vec![("a", num("9"))]));
    assert!(!mine.merge(theirs));
    assert!(mine.data.same_as(&obj(vec![("a", num("1")), ("b", num("2"))])));
    assert_eq!(mine.vector_clock.get("peer"), 1);
}
