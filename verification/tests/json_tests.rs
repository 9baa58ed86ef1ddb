use csv_to_json::json::{parse_object, parse_string, JsonObject, JsonValue};

fn text(value: &str) -> JsonValue {
    JsonValue::String(value.to_string())
}

fn keys(object: &JsonObject) -> Vec<String> {
    object.get_entries().iter().map(|entry| entry.0.clone()).collect()
}

#[test]
fn new_object_has_no_members() {
    let object = JsonObject::new();
    assert!(object.get_entries().is_empty());
    assert!(object.inner().is_empty());
    assert_eq!(object.get("anything"), None);
}

#[test]
fn insert_appends_new_keys_in_order() {
    let mut object = JsonObject::new();
    object.insert("b".to_string(), text("1"));
    object.insert("a".to_string(), text("2"));
    object.insert("c".to_string(), JsonValue::Null);
    assert_eq!(keys(&object), vec!["b", "a", "c"]);
    assert_eq!(object.get("b"), Some(&text("1")));
    assert_eq!(object.get("a"), Some(&text("2")));
    assert_eq!(object.get("c"), Some(&JsonValue::Null));
}

#[test]
fn insert_replaces_value_and_keeps_place() {
    let mut object = JsonObject::new();
    object.insert("b".to_string(), text("1"));
    object.insert("a".to_string(), text("2"));
    object.insert("b".to_string(), text("3"));
    assert_eq!(keys(&object), vec!["b", "a"]);
    assert_eq!(object.get("b"), Some(&text("3")));
    assert_eq!(object.get("a"), Some(&text("2")));
    assert_eq!(object.get_entries().len(), 2);
}

#[test]
fn get_is_case_sensitive_and_exact() {
    let mut object = JsonObject::new();
    object.insert("Name".to_string(), text("x"));
    assert_eq!(object.get("name"), None);
    assert_eq!(object.get("Nam"), None);
    assert_eq!(object.get("Name "), None);
    assert_eq!(object.get("Name"), Some(&text("x")));
}

#[test]
fn get_string_only_answers_for_strings() {
    let mut object = JsonObject::new();
    object.insert("s".to_string(), text("hello"));
    object.insert("b".to_string(), JsonValue::Bool(true));
    object.insert("n".to_string(), JsonValue::Null);
    object.insert("d".to_string(), JsonValue::Number("12".to_string()));
    object.insert("o".to_string(), JsonValue::Object(JsonObject::new()));
    object.insert("a".to_string(), JsonValue::Array(vec![text("x")]));
    assert_eq!(object.get_string("s"), Some("hello".to_string()));
    assert_eq!(object.get_string("b"), None);
    assert_eq!(object.get_string("n"), None);
    assert_eq!(object.get_string("d"), None);
    assert_eq!(object.get_string("o"), None);
    assert_eq!(object.get_string("a"), None);
    assert_eq!(object.get_string("missing"), None);
}

#[test]
fn get_bool_only_answers_for_booleans() {
    let mut object = JsonObject::new();
    object.insert("t".to_string(), JsonValue::Bool(true));
    object.insert("f".to_string(), JsonValue::Bool(false));
    object.insert("s".to_string(), text("true"));
    assert_eq!(object.get_bool("t"), Some(true));
    assert_eq!(object.get_bool("f"), Some(false));
    assert_eq!(object.get_bool("s"), None);
    assert_eq!(object.get_bool("missing"), None);
}

#[test]
fn get_object_only_answers_for_objects() {
    let mut inner = JsonObject::new();
    inner.insert("k".to_string(), text("v"));
    let mut expected = JsonObject::new();
    expected.insert("k".to_string(), text("v"));
    let mut object = JsonObject::new();
    object.insert("o".to_string(), JsonValue::Object(inner));
    object.insert("s".to_string(), text("{}"));
    assert_eq!(object.get_object("o"), Some(&expected));
    assert_eq!(object.get_object("s"), None);
    assert_eq!(object.get_object("missing"), None);
}

#[test]
fn parse_string_and_parse_object_tell_kinds_apart() {
    let mut inner = JsonObject::new();
    inner.insert("k".to_string(), JsonValue::Null);
    let mut expected = JsonObject::new();
    expected.insert("k".to_string(), JsonValue::Null);
    let object = JsonValue::Object(inner);
    assert_eq!(parse_string(&text("abc")), Some("abc".to_string()));
    assert_eq!(parse_string(&JsonValue::Null), None);
    assert_eq!(parse_string(&JsonValue::Bool(true)), None);
    assert_eq!(parse_string(&object), None);
    assert_eq!(parse_object(&object), Some(&expected));
    assert_eq!(parse_object(&text("abc")), None);
    assert_eq!(parse_object(&JsonValue::Array(Vec::new())), None);
}

#[test]
fn insert_under_makes_and_extends_groups() {
    let mut groups = JsonObject::new();
    groups.insert_under("h1".to_string(), "a".to_string(), text("1"));
    groups.insert_under("h2".to_string(), "a".to_string(), text("2"));
    groups.insert_under("h1".to_string(), "b".to_string(), text("3"));
    groups.insert_under("h1".to_string(), "a".to_string(), text("4"));

    let mut first = JsonObject::new();
    first.insert("a".to_string(), text("4"));
    first.insert("b".to_string(), text("3"));
    let mut second = JsonObject::new();
    second.insert("a".to_string(), text("2"));
    let mut expected = JsonObject::new();
    expected.insert("h1".to_string(), JsonValue::Object(first));
    expected.insert("h2".to_string(), JsonValue::Object(second));
    assert_eq!(groups, expected);
}

#[test]
fn insert_under_replaces_what_is_no_object() {
    let mut groups = JsonObject::new();
    groups.insert("h".to_string(), text("plain"));
    groups.insert("z".to_string(), JsonValue::Null);
    groups.insert_under("h".to_string(), "a".to_string(), text("1"));
    let mut inner = JsonObject::new();
    inner.insert("a".to_string(), text("1"));
    assert_eq!(keys(&groups), vec!["h", "z"]);
    assert_eq!(groups.get("h"), Some(&JsonValue::Object(inner)));
}

#[test]
fn into_values_keeps_order_and_drops_keys() {
    let mut object = JsonObject::new();
    object.insert("x".to_string(), text("1"));
    object.insert("y".to_string(), JsonValue::Null);
    object.insert("z".to_string(), JsonValue::Bool(false));
    object.insert("x".to_string(), text("9"));
    assert_eq!(object.into_values(), vec![text("9"), JsonValue::Null, JsonValue::Bool(false)]);
    assert_eq!(JsonObject::new().into_values(), Vec::<JsonValue>::new());
}
