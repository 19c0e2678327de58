use avi_device::error::AviP2pError;
use avi_device::json::JsonValue;
use avi_device::path::{delete_nested_value, get_nested_value, set_nested_value, split_path};

fn num(n: &str) -> JsonValue {
    JsonValue::Number(n.to_string())
}

fn text(s: &str) -> JsonValue {
    JsonValue::Str(s.to_string())
}

fn obj(members: Vec<(&str, JsonValue)>) -> JsonValue {
    JsonValue::Object(members.into_iter().map(|(k, v)| (k.to_string(), v)).collect())
}

fn member<'a>(v: &'a JsonValue, key: &str) -> Option<&'a JsonValue> {
    match v {
        JsonValue::Object(m) => m.iter().find(|(k, _)| k == key).map(|(_, v)| v),
        _ => None,
    }
}

fn invalid_path(r: Result<(), AviP2pError>) -> String {
    match r {
        Err(AviP2pError::InvalidPath(m)) => m,
        other => panic!("expected an invalid path, got {:?}", other),
    }
}

#[test]
fn split_path_keeps_empty_pieces() {
    assert_eq!(split_path("avi.device.caps"), vec!["avi", "device", "caps"]);
    assert_eq!(split_path(""), vec![""]);
    assert_eq!(split_path("a..b"), vec!["a", "", "b"]);
    assert_eq!(split_path("a."), vec!["a", ""]);
}

#[test]
fn set_creates_missing_objects() {
    let mut data = JsonValue::new_object();
    set_nested_value(&mut data, "avi.device.name", text("kitchen")).unwrap();
    let avi = member(&data, "avi").unwrap();
    let device = member(avi, "device").unwrap();
    assert!(matches!(member(device, "name"), Some(JsonValue::Str(s)) if s == "kitchen"));
}

#[test]
fn read_after_write_gives_the_written_value() {
    let mut data = obj(vec![("a", obj(vec![("b", num("1"))])), ("c", text("x"))]);
    set_nested_value(&mut data, "a.b", num("2")).unwrap();
    let got = get_nested_value(&data, "a.b").unwrap();
    assert!(got.same_as(&num("2")));
    let other = get_nested_value(&data, "c").unwrap();
    assert!(other.same_as(&text("x")));
}

#[test]
fn empty_path_replaces_the_whole_document() {
    let mut data = obj(vec![("a", num("1"))]);
    set_nested_value(&mut data, "", text("all")).unwrap();
    assert!(data.same_as(&text("all")));
    let whole = get_nested_value(&data, "").unwrap();
    assert!(whole.same_as(&text("all")));
}

#[test]
fn writing_into_a_non_object_document_starts_from_an_empty_object() {
    let mut data = num("5");
    set_nested_value(&mut data, "k", JsonValue::Bool(true)).unwrap();
    assert!(data.same_as(&obj(vec![("k", JsonValue::Bool(true))])));
}

#[test]
fn writing_below_a_scalar_is_refused() {
    let mut data = obj(vec![("a", obj(vec![("b", num("5"))]))]);
    let before = data.deep_copy();
    let msg = invalid_path(set_nested_value(&mut data, "a.b.c", num("1")));
    assert_eq!(msg, "Parent is not an object");
    assert!(data.same_as(&before));

    let mut data2 = obj(vec![("a", num("5"))]);
    let msg2 = invalid_path(set_nested_value(&mut data2, "a.b.c", num("1")));
    assert_eq!(msg2, "Failed to navigate to key: b");
    assert!(data2.same_as(&obj(vec![("a", num("5"))])));
}

#[test]
fn delete_removes_only_the_named_member() {
    let mut data = obj(vec![("a", obj(vec![("b", num("1")), ("c", num("2"))]))]);
    delete_nested_value(&mut data, "a.b").unwrap();
    assert!(get_nested_value(&data, "a.b").is_none());
    assert!(get_nested_value(&data, "a.c").unwrap().same_as(&num("2")));
}

#[test]
fn delete_of_a_missing_member_succeeds() {
    let mut data = obj(vec![("a", obj(vec![]))]);
    delete_nested_value(&mut data, "a.zzz").unwrap();
    assert!(data.same_as(&obj(vec![("a", obj(vec![]))])));
}

#[test]
fn delete_errors() {
    let mut data = obj(vec![("a", num("1"))]);
    assert_eq!(invalid_path(delete_nested_value(&mut data, "x.y")), "Failed to navigate to key: x");
    assert_eq!(invalid_path(delete_nested_value(&mut data, "a.y")), "Parent is not an object");
    assert!(data.same_as(&obj(vec![("a", num("1"))])));
}

#[test]
fn delete_of_empty_path_clears_the_document() {
    let mut data = obj(vec![("a", num("1"))]);
    delete_nested_value(&mut data, "").unwrap();
    assert!(data.same_as(&JsonValue::new_object()));
}

#[test]
fn get_missing_or_through_scalar_is_none() {
    let data = obj(vec![("a", num("1"))]);
    assert!(get_nested_value(&data, "b").is_none());
    assert!(get_nested_value(&data, "a.b").is_none());
}

#[test]
fn writing_a_fresh_member_then_deleting_it_restores_the_document() {
    let mut data = obj(vec![("a", obj(vec![("b", num("1"))])), ("c", text("x"))]);
    let before = data.deep_copy();
    set_nested_value(&mut data, "a.fresh", num("7")).unwrap();
    delete_nested_value(&mut data, "a.fresh").unwrap();
    assert!(data.same_as(&before));
}
