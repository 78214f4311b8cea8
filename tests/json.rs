use ecs_logger::json::{copy_map, extend_json_map, write_json, write_map, Json, JsonMap, JsonNumber};

fn num(n: &str) -> Json {
    Json::Number(JsonNumber::new(n.to_string()).unwrap())
}

fn text(s: &str) -> Json {
    Json::Str(s.to_string())
}

fn map(entries: Vec<(&str, Json)>) -> JsonMap {
    JsonMap { entries: entries.into_iter().map(|(k, v)| (k.to_string(), v)).collect() }
}

fn obj(entries: Vec<(&str, Json)>) -> Json {
    Json::Object(map(entries))
}

fn render_map(m: &JsonMap) -> String {
    let mut out = String::new();
    write_map(m, &mut out);
    out
}

#[test]
fn merge_adds_new_keys_at_the_end() {
    let mut a = map(vec![("x", num("1"))]);
    let b = map(vec![("a", num("1")), ("b", obj(vec![("c", num("2"))]))]);
    extend_json_map(&mut a, &b);
    assert_eq!(render_map(&a), r#"{"x":1,"a":1,"b":{"c":2}}"#);
}

#[test]
fn merge_overlay_wins_on_scalars_and_mismatches() {
    let mut a = map(vec![
        ("s", num("1")),
        ("o", obj(vec![("k", num("1"))])),
        ("arr", Json::Array(vec![num("1"), num("2")])),
        ("keep", Json::Bool(true)),
    ]);
    let b = map(vec![
        ("s", text("two")),
        ("o", num("3")),
        ("arr", Json::Array(vec![num("3")])),
    ]);
    extend_json_map(&mut a, &b);
    assert_eq!(render_map(&a), r#"{"s":"two","o":3,"arr":[3],"keep":true}"#);
}

#[test]
fn merge_replaces_scalar_with_object() {
    let mut a = map(vec![("o", Json::Null)]);
    let b = map(vec![("o", obj(vec![("k", num("1"))]))]);
    extend_json_map(&mut a, &b);
    assert_eq!(render_map(&a), r#"{"o":{"k":1}}"#);
}

#[test]
fn merge_recurses_into_nested_objects() {
    let mut a = map(vec![(
        "l1",
        obj(vec![("l2", obj(vec![("l3", obj(vec![("a", num("1")), ("b", num("2"))]))]))]),
    )]);
    let b = map(vec![(
        "l1",
        obj(vec![("l2", obj(vec![("l3", obj(vec![("b", num("20")), ("c", num("30"))]))]))]),
    )]);
    extend_json_map(&mut a, &b);
    assert_eq!(render_map(&a), r#"{"l1":{"l2":{"l3":{"a":1,"b":20,"c":30}}}}"#);
}

#[test]
fn merge_twice_is_merge_once() {
    let base = map(vec![("a", num("0")), ("n", obj(vec![("x", num("1"))]))]);
    let overlay = map(vec![("n", obj(vec![("y", num("2"))])), ("z", Json::Array(vec![]))]);
    let mut once = copy_map(&base);
    extend_json_map(&mut once, &overlay);
    let mut twice = copy_map(&once);
    extend_json_map(&mut twice, &overlay);
    assert_eq!(render_map(&once), render_map(&twice));
    assert_eq!(render_map(&once), r#"{"a":0,"n":{"x":1,"y":2},"z":[]}"#);
}

#[test]
fn merge_of_empty_overlay_changes_nothing() {
    let mut a = map(vec![("a", num("1"))]);
    extend_json_map(&mut a, &map(vec![]));
    assert_eq!(render_map(&a), r#"{"a":1}"#);
}

#[test]
fn render_escapes_strings_and_keeps_numbers() {
    let v = obj(vec![
        ("q\"k", text("line\nbreak \"quoted\"")),
        ("f", num("1.5e3")),
        ("neg", num("-7")),
        ("b", Json::Bool(false)),
        ("n", Json::Null),
        ("arr", Json::Array(vec![num("1"), text("x"), Json::Array(vec![])])),
    ]);
    let mut out = String::new();
    write_json(&v, &mut out);
    assert_eq!(
        out,
        r#"{"q\"k":"line\nbreak \"quoted\"","f":1.5e3,"neg":-7,"b":false,"n":null,"arr":[1,"x",[]]}"#
    );
}

#[test]
fn number_text_is_checked() {
    assert!(JsonNumber::new("-12.5E+3".to_string()).is_some());
    assert!(JsonNumber::new("".to_string()).is_none());
    assert!(JsonNumber::new("1\n2".to_string()).is_none());
    assert!(JsonNumber::new("12a".to_string()).is_none());
    assert!(JsonNumber::new("١".to_string()).is_none());
    assert_eq!(JsonNumber::from_u32(4294967295).as_str(), "4294967295");
    assert_eq!(JsonNumber::from_u32(0).as_str(), "0");
}
