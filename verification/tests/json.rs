use webman::json::{merged, JsonValue};

fn text(s: &str) -> JsonValue {
    JsonValue::String(s.to_string())
}

fn number(s: &str) -> JsonValue {
    JsonValue::Number(s.to_string())
}

fn object(members: Vec<(&str, JsonValue)>) -> JsonValue {
    JsonValue::Object(members.into_iter().map(|(k, v)| (k.to_string(), v)).collect())
}

fn members(v: &JsonValue) -> Vec<String> {
    match v {
        JsonValue::Object(m) => m.iter().map(|(k, _)| k.clone()).collect(),
        _ => panic!("not an object"),
    }
}

fn member<'a>(v: &'a JsonValue, name: &str) -> &'a JsonValue {
    match v {
        JsonValue::Object(m) => &m.iter().find(|(k, _)| k == name).unwrap().1,
        _ => panic!("not an object"),
    }
}

#[test]
fn merge_adds_the_members_of_the_second_object() {
    let mut root = object(vec![("ip", text("10.0.0.1"))]);
    root.merge(&object(vec![("hostname", text("devserver")), ("provider", text("hetzner"))]));
    assert_eq!(members(&root), vec!["ip", "hostname", "provider"]);
    assert!(matches!(member(&root, "ip"), JsonValue::String(s) if s == "10.0.0.1"));
    assert!(matches!(member(&root, "provider"), JsonValue::String(s) if s == "hetzner"));
}

#[test]
fn merge_goes_into_nested_objects() {
    let a = object(vec![("db", object(vec![("user", text("root")), ("port", number("3306"))]))]);
    let b = object(vec![("db", object(vec![("port", number("3307"))]))]);
    let r = merged(a, &b);
    let db = member(&r, "db");
    assert_eq!(members(db), vec!["user", "port"]);
    assert!(matches!(member(db, "port"), JsonValue::Number(n) if n == "3307"));
    assert!(matches!(member(db, "user"), JsonValue::String(s) if s == "root"));
}

#[test]
fn merge_of_a_non_object_replaces() {
    let r = merged(object(vec![("a", JsonValue::Null)]), &JsonValue::Array(vec![JsonValue::Bool(true)]));
    assert!(matches!(r, JsonValue::Array(ref v) if v.len() == 1));
    let r = merged(text("x"), &object(vec![("a", number("1"))]));
    assert_eq!(members(&r), vec!["a"]);
    let r = merged(object(vec![("a", number("1"))]), &JsonValue::Null);
    assert!(matches!(r, JsonValue::Null));
}

#[test]
fn truthy_values() {
    assert!(text("1").as_boolean());
    assert!(text("true").as_boolean());
    assert!(!text("yes").as_boolean());
    assert!(number("1").as_boolean());
    assert!(!number("1.0").as_boolean());
    assert!(JsonValue::Bool(true).as_boolean());
    assert!(!JsonValue::Bool(false).as_boolean());
    assert!(!JsonValue::Null.as_boolean());
    assert!(!object(vec![]).as_boolean());
}

#[test]
fn duplicate_copies_deeply() {
    let a = object(vec![("list", JsonValue::Array(vec![number("2"), text("t")]))]);
    let b = a.duplicate();
    assert_eq!(members(&b), vec!["list"]);
    assert!(matches!(member(&b, "list"), JsonValue::Array(v) if v.len() == 2));
}
