use jaesve::json::Json;
use jaesve::output::{BlockKind, Builder, JType, Output, OutputBuilder};
use jaesve::pointer::{flatten, JsonPointer};

fn parse(text: &str) -> Json {
    Json::parse(text.as_bytes()).unwrap()
}

fn fields(record: OutputBuilder) -> (usize, String, JType, Option<String>) {
    let out: Output = record.done();
    let ident = match out.identifer().unwrap() {
        BlockKind::Ident(i) => i,
        other => panic!("not an identifier: {:?}", other),
    };
    let pointer = match out.pointer().unwrap() {
        BlockKind::Pointer(p) => p,
        other => panic!("not a pointer: {:?}", other),
    };
    let jtype = match out.jtype().unwrap() {
        BlockKind::Type(t) => t,
        other => panic!("not a type: {:?}", other),
    };
    let value = match out.value().unwrap() {
        BlockKind::Value(v) => v,
        other => panic!("not a value: {:?}", other),
    };
    (ident, pointer, jtype, value)
}

fn rows(text: &str) -> Vec<(usize, String, JType, Option<String>)> {
    flatten(&parse(text), 1, String::new()).into_iter().map(fields).collect()
}

fn row(pointer: &str, jtype: JType, value: Option<&str>) -> (usize, String, JType, Option<String>) {
    (1, pointer.to_string(), jtype, value.map(|v| v.to_string()))
}

#[test]
fn empty_object_yields_nothing() {
    assert_eq!(rows("{}"), vec![]);
}

#[test]
fn empty_array_yields_nothing() {
    assert_eq!(rows("[]"), vec![]);
}

#[test]
fn nested_object_container_then_leaf() {
    assert_eq!(
        rows(r#"{"a": {"b": 1}}"#),
        vec![row("/a", JType::Object, None), row("/a/b", JType::Number, Some("1"))]
    );
}

#[test]
fn array_under_key_in_index_order() {
    assert_eq!(
        rows(r#"{"a": [1, "x", null]}"#),
        vec![
            row("/a", JType::Array, None),
            row("/a/0", JType::Number, Some("1")),
            row("/a/1", JType::String, Some("x")),
            row("/a/2", JType::Null, Some("null")),
        ]
    );
}

#[test]
fn array_elements_get_no_container_record() {
    // A container under an object key is announced; one under an array index is not.
    assert_eq!(
        rows(r#"[[1], {"k": true}]"#),
        vec![row("/0/0", JType::Number, Some("1")), row("/1/k", JType::Bool, Some("true"))]
    );
    assert_eq!(
        rows(r#"{"x": [[2]]}"#),
        vec![row("/x", JType::Array, None), row("/x/0/0", JType::Number, Some("2"))]
    );
}

#[test]
fn breadth_first_order() {
    assert_eq!(
        rows(r#"{"a": {"b": 1, "c": {"d": 2}}, "e": 3, "f": [4]}"#),
        vec![
            row("/a", JType::Object, None),
            row("/f", JType::Array, None),
            row("/a/c", JType::Object, None),
            row("/e", JType::Number, Some("3")),
            row("/a/b", JType::Number, Some("1")),
            row("/f/0", JType::Number, Some("4")),
            row("/a/c/d", JType::Number, Some("2")),
        ]
    );
}

#[test]
fn member_order_is_document_order() {
    assert_eq!(
        rows(r#"{"z": 1, "a": 2, "m": 3}"#),
        vec![
            row("/z", JType::Number, Some("1")),
            row("/a", JType::Number, Some("2")),
            row("/m", JType::Number, Some("3")),
        ]
    );
}

#[test]
fn root_leaf_is_one_record_at_the_base_path() {
    assert_eq!(rows("7"), vec![row("", JType::Number, Some("7"))]);
    assert_eq!(rows("false"), vec![row("", JType::Bool, Some("false"))]);
    assert_eq!(rows("null"), vec![row("", JType::Null, Some("null"))]);
    assert_eq!(rows(r#""s""#), vec![row("", JType::String, Some("s"))]);
}

#[test]
fn leaf_rendering() {
    assert_eq!(
        rows(r#"[true, false, null, "t e x t", 12, -3, 1.5, 1e3]"#),
        vec![
            row("/0", JType::Bool, Some("true")),
            row("/1", JType::Bool, Some("false")),
            row("/2", JType::Null, Some("null")),
            row("/3", JType::String, Some("t e x t")),
            row("/4", JType::Number, Some("12")),
            row("/5", JType::Number, Some("-3")),
            row("/6", JType::Number, Some("1.5")),
            row("/7", JType::Number, Some("1000.0")),
        ]
    );
}

#[test]
fn keys_are_not_escaped() {
    assert_eq!(
        rows(r#"{"a/b": 1, "c~d": 2}"#),
        vec![row("/a/b", JType::Number, Some("1")), row("/c~d", JType::Number, Some("2"))]
    );
}

#[test]
fn indices_beyond_nine() {
    let got = rows("[0,1,2,3,4,5,6,7,8,9,10,11]");
    assert_eq!(got.len(), 12);
    assert_eq!(got[10], row("/10", JType::Number, Some("10")));
    assert_eq!(got[11], row("/11", JType::Number, Some("11")));
}

#[test]
fn identifier_and_base_path_are_carried() {
    let json = parse(r#"{"a": [1]}"#);
    let got: Vec<_> = flatten(&json, 42, "/root".to_string()).into_iter().map(fields).collect();
    assert_eq!(
        got,
        vec![
            (42, "/root/a".to_string(), JType::Array, None),
            (42, "/root/a/0".to_string(), JType::Number, Some("1".to_string())),
        ]
    );
}

#[test]
fn flattening_twice_gives_the_same_records() {
    let json = parse(r#"{"a": {"b": [1, {"c": null}]}, "d": "x"}"#);
    assert_eq!(flatten(&json, 3, String::new()), flatten(&json, 3, String::new()));
}

#[test]
fn walk_hands_out_records_one_by_one() {
    let json = parse(r#"{"a": {"b": 1}}"#);
    let mut walk = JsonPointer::new(&json, (1, String::new(), Some(1)));
    assert_eq!(walk.parse_next().map(fields), Some(row("/a", JType::Object, None)));
    assert_eq!(walk.parse_next().map(fields), Some(row("/a/b", JType::Number, Some("1"))));
    assert_eq!(walk.parse_next(), None);
    assert_eq!(walk.parse_next(), None);
}

#[test]
fn walk_with_an_oversized_hint() {
    let json = parse("[1]");
    let mut walk = JsonPointer::new(&json, (1, String::new(), Some(usize::MAX)));
    assert_eq!(walk.parse_next().map(fields), Some(row("/0", JType::Number, Some("1"))));
    assert_eq!(walk.parse_next(), None);
}

#[test]
fn hand_built_document() {
    let json = Json::Object(vec![
        ("k".to_string(), Json::Array(vec![Json::Bool(true)])),
        ("n".to_string(), Json::Number("2".to_string())),
    ]);
    let got: Vec<_> = flatten(&json, 1, String::new()).into_iter().map(fields).collect();
    assert_eq!(
        got,
        vec![
            row("/k", JType::Array, None),
            row("/n", JType::Number, Some("2")),
            row("/k/0", JType::Bool, Some("true")),
        ]
    );
}

#[test]
fn parse_keeps_member_order_and_number_text() {
    assert_eq!(
        parse(r#"{"b": 1, "a": [2.50, "s", null, true]}"#),
        Json::Object(vec![
            ("b".to_string(), Json::Number("1".to_string())),
            (
                "a".to_string(),
                Json::Array(vec![
                    Json::Number("2.5".to_string()),
                    Json::String("s".to_string()),
                    Json::Null,
                    Json::Bool(true),
                ])
            ),
        ])
    );
}

#[test]
fn parse_refuses_malformed_input() {
    assert!(Json::parse(b"{\"a\": ").is_err());
    assert!(Json::parse(b"").is_err());
    assert!(Json::parse(b"1 2").is_err());
}

#[test]
fn pointers_are_distinct() {
    let got = rows(r#"{"a": {"b": [1, {"c": null}], "d": {}}, "e": [[], [true]], "a2": 0}"#);
    let mut pointers: Vec<&String> = got.iter().map(|r| &r.1).collect();
    let before = pointers.len();
    pointers.sort();
    pointers.dedup();
    assert_eq!(before, 8);
    assert_eq!(pointers.len(), before);
}

#[test]
fn a_slash_in_a_key_can_make_two_pointers_alike() {
    assert_eq!(
        rows(r#"{"a/b": 1, "a": {"b": 2}}"#),
        vec![
            row("/a", JType::Object, None),
            row("/a/b", JType::Number, Some("1")),
            row("/a/b", JType::Number, Some("2")),
        ]
    );
}

#[test]
fn type_names() {
    assert_eq!(JType::Object.to_string(), "Object");
    assert_eq!(JType::Null.name(), "Null");
    assert_eq!(JType::from(&Json::Bool(true)), JType::Bool);
    assert_eq!(JType::from(&Json::Array(vec![])), JType::Array);
    assert_eq!(JType::from(&Json::Object(vec![])), JType::Object);
    assert_eq!(JType::from(&Json::Number("1".to_string())), JType::Number);
    assert_eq!(JType::from(&Json::String(String::new())), JType::String);
    assert_eq!(JType::from(&Json::Null), JType::Null);
}

#[test]
fn deeply_nested_document() {
    let mut text = String::new();
    for _ in 0..100 {
        text.push_str("[");
    }
    text.push_str("7");
    for _ in 0..100 {
        text.push_str("]");
    }
    let got = rows(&text);
    assert_eq!(got.len(), 1);
    assert_eq!(got[0].1, "/0".repeat(100));
    assert_eq!(got[0].3, Some("7".to_string()));
}

#[test]
fn duplicate_keys_in_the_text_keep_the_last_value() {
    assert_eq!(rows(r#"{"a": 1, "a": 2}"#), vec![row("/a", JType::Number, Some("2"))]);
}
