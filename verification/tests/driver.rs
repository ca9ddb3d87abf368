use jaesve::driver::{document_lines, emit, to_csv, JsonPacket};
use jaesve::error::{Error, ErrorKind};
use jaesve::filter::{RegexOn, RegexOptions};
use jaesve::format::Options;
use jaesve::json::Json;
use jaesve::output::{JType, OutputBuilder};
use jaesve::pointer::flatten;

fn lines(options: &Options, filter: &Option<RegexOptions>, input: &str) -> Vec<String> {
    to_csv(options, filter, input.as_bytes()).unwrap()
}

#[test]
fn whole_document() {
    let got = lines(&Options::default(), &None, r#"{"a": {"b": 1}}"#);
    assert_eq!(got, vec!["\"Object\", \"/a\", \"NO_VALUE\"\n", "\"Number\", \"/a/b\", \"1\"\n"]);
}

#[test]
fn whole_document_may_span_lines() {
    let got = lines(&Options::default(), &None, "{\n  \"a\": [1,\n 2]\n}\n");
    assert_eq!(
        got,
        vec![
            "\"Array\", \"/a\", \"NO_VALUE\"\n",
            "\"Number\", \"/a/0\", \"1\"\n",
            "\"Number\", \"/a/1\", \"2\"\n",
        ]
    );
}

#[test]
fn whole_document_that_is_malformed() {
    match to_csv(&Options::default(), &None, b"{\"a\": ") {
        Err(Error { kind: ErrorKind::Io(m), context: None }) => assert!(!m.is_empty()),
        other => panic!("unexpected: {:?}", other),
    }
}

#[test]
fn empty_containers_give_no_lines() {
    assert_eq!(lines(&Options::default(), &None, "{}"), Vec::<String>::new());
    assert_eq!(lines(&Options::default(), &None, "[]"), Vec::<String>::new());
}

#[test]
fn line_mode_skips_a_malformed_line() {
    let mut o = Options::default();
    o.multi_documents = Some(1);
    let got = lines(&o, &None, "{\"a\": 1}\n{\"b\": \n{\"c\": [true]}\n");
    assert_eq!(
        got,
        vec![
            "\"1\", \"Number\", \"/a\", \"1\"\n",
            "\"3\", \"Array\", \"/c\", \"NO_VALUE\"\n",
            "\"3\", \"Bool\", \"/c/0\", \"true\"\n",
        ]
    );
}

#[test]
fn line_mode_with_an_unbalanced_quote_in_the_bad_line() {
    let mut o = Options::default();
    o.multi_documents = Some(1);
    let got = lines(&o, &None, "1\n{\"a\": \"x}\n3");
    assert_eq!(got, vec!["\"1\", \"Number\", \"\", \"1\"\n", "\"3\", \"Number\", \"\", \"3\"\n"]);
}

#[test]
fn line_mode_numbers_from_the_offset() {
    let mut o = Options::default();
    o.multi_documents = Some(10);
    o.hide_type = true;
    let got = lines(&o, &None, "\"x\"\n\n\"y\"\r\n\"z\"");
    assert_eq!(
        got,
        vec!["\"10\", \"\", \"x\"\n", "\"12\", \"\", \"y\"\n", "\"13\", \"\", \"z\"\n"]
    );
}

#[test]
fn line_mode_on_empty_input() {
    let mut o = Options::default();
    o.multi_documents = Some(1);
    assert_eq!(lines(&o, &None, ""), Vec::<String>::new());
    assert_eq!(lines(&o, &None, "\n\n"), Vec::<String>::new());
}

#[test]
fn value_filter_keeps_numeric_values_only() {
    let filter = Some(RegexOptions::new("^[0-9]+$", RegexOn::Value).unwrap());
    let doc = r#"{"n": 12, "s": "abc", "b": true, "z": null, "o": {"m": 7, "t": "7x"}, "d": "42"}"#;
    let got = lines(&Options::default(), &filter, doc);
    assert_eq!(
        got,
        vec![
            "\"Number\", \"/n\", \"12\"\n",
            "\"String\", \"/d\", \"42\"\n",
            "\"Number\", \"/o/m\", \"7\"\n",
        ]
    );
}

#[test]
fn filter_that_matches_nothing() {
    let filter = Some(RegexOptions::new("^never$", RegexOn::Entry).unwrap());
    assert_eq!(lines(&Options::default(), &filter, r#"{"a": 1, "b": [2]}"#), Vec::<String>::new());
}

#[test]
fn pointer_filter() {
    let filter = Some(RegexOptions::new("^/b", RegexOn::Entry).unwrap());
    let got = lines(&Options::default(), &filter, r#"{"a": 1, "b": [2]}"#);
    assert_eq!(got, vec!["\"Array\", \"/b\", \"NO_VALUE\"\n", "\"Number\", \"/b/0\", \"2\"\n"]);
}

#[test]
fn emit_one_record() {
    let o = Options::default();
    let rec = || {
        OutputBuilder::new()
            .ident(1)
            .pointer("/p".to_string())
            .value(Some("v".to_string()))
            .type_of(JType::String)
    };
    assert_eq!(emit(rec(), &o, &None), Ok(Some("\"String\", \"/p\", \"v\"\n".to_string())));
    let keep = Some(RegexOptions::new("v", RegexOn::Value).unwrap());
    assert_eq!(emit(rec(), &o, &keep), Ok(Some("\"String\", \"/p\", \"v\"\n".to_string())));
    let drop = Some(RegexOptions::new("w", RegexOn::Value).unwrap());
    assert_eq!(emit(rec(), &o, &drop), Ok(None));
    let bare = OutputBuilder::new().pointer("/p".to_string());
    assert_eq!(emit(bare, &o, &None), Err(ErrorKind::MissingField("type".to_string())));
    let bare = OutputBuilder::new().pointer("/p".to_string());
    assert_eq!(emit(bare, &o, &keep), Err(ErrorKind::MissingField("value".to_string())));
}

#[test]
fn document_lines_appends() {
    let json = Json::parse(b"[null]").unwrap();
    let mut out = vec!["first\n".to_string()];
    document_lines(&json, 5, "/base".to_string(), &Options::default(), &None, &mut out);
    assert_eq!(out, vec!["first\n", "\"Null\", \"/base/0\", \"null\"\n"]);
}

#[test]
fn packet_from_bytes() {
    let packet = JsonPacket::try_from((7, None, b"{\"a\": [1, 2]}".to_vec())).unwrap();
    let (json, (ident, base, hint)) = packet.into_inner();
    assert_eq!(ident, 7);
    assert_eq!(base, "");
    assert_eq!(hint, Some(1));
    assert_eq!(
        json,
        Json::Object(vec![(
            "a".to_string(),
            Json::Array(vec![Json::Number("1".to_string()), Json::Number("2".to_string())])
        )])
    );
}

#[test]
fn packet_with_a_base_path() {
    let packet = JsonPacket::try_from((2, Some(b"\"/root\"".to_vec()), b"[1, 2, 3]".to_vec()));
    let (json, (ident, base, hint)) = packet.unwrap().into_inner();
    assert_eq!((ident, base.as_str(), hint), (2, "/root", Some(3)));
    let pointers: Vec<String> =
        flatten(&json, ident, base).iter().map(|r| r.pointer_text()).collect();
    assert_eq!(pointers, vec!["/root/0", "/root/1", "/root/2"]);
}

#[test]
fn packet_failures() {
    assert!(matches!(JsonPacket::try_from((1, None, b"{".to_vec())), Err(ErrorKind::Io(_))));
    assert!(matches!(
        JsonPacket::try_from((1, Some(b"nonsense".to_vec()), b"{}".to_vec())),
        Err(ErrorKind::Io(_))
    ));
    assert_eq!(
        JsonPacket::try_from((1, Some(b"12".to_vec()), b"{}".to_vec())),
        Err(ErrorKind::Io("the base path is not a JSON string".to_string()))
    );
}

#[test]
fn packet_of_a_leaf_has_no_hint() {
    let (_, (ident, base, hint)) = JsonPacket::new(Json::Null).into_inner();
    assert_eq!((ident, base.as_str(), hint), (1, "", None));
    let (_, (_, _, hint)) = JsonPacket::new(Json::Array(vec![])).into_inner();
    assert_eq!(hint, Some(0));
}

#[test]
fn pointer_list() {
    let json = Json::parse(br#"{"a": {"b": 1}, "c": [null]}"#).unwrap();
    assert_eq!(JsonPacket::parse_json(&json), vec!["/a", "/c", "/a/b", "/c/0"]);
}

#[test]
fn packet_print() {
    let packet = JsonPacket::new(Json::parse(br#"{"k": "v"}"#).unwrap());
    let mut out = Vec::new();
    packet.print(&Options::default(), &None, &mut out);
    assert_eq!(out, vec!["\"String\", \"/k\", \"v\"\n"]);
}

fn rendered(value: &serde_json::Value) -> Option<String> {
    match value {
        serde_json::Value::String(s) => Some(s.clone()),
        serde_json::Value::Number(n) => Some(n.to_string()),
        serde_json::Value::Bool(b) => Some(b.to_string()),
        serde_json::Value::Null => Some("null".to_string()),
        _ => None,
    }
}

fn type_of(value: &serde_json::Value) -> &'static str {
    match value {
        serde_json::Value::Object(_) => "Object",
        serde_json::Value::Array(_) => "Array",
        serde_json::Value::String(_) => "String",
        serde_json::Value::Number(_) => "Number",
        serde_json::Value::Bool(_) => "Bool",
        serde_json::Value::Null => "Null",
    }
}

#[test]
fn every_pointer_leads_to_the_value_of_its_record() {
    let text = r#"{"a": {"b": [1, "x", null, {"c": false}]}, "d": 2.5, "e": [], "f": {"g": {}}}"#;
    let value: serde_json::Value = serde_json::from_str(text).unwrap();
    let json = Json::parse(text.as_bytes()).unwrap();
    let records = flatten(&json, 1, String::new());
    assert_eq!(records.len(), 10);
    for record in records {
        let out = record.done();
        let pointer = jaesve::output::Builder::pointer(&out).unwrap().to_string();
        let found = value.pointer(&pointer).unwrap();
        assert_eq!(jaesve::output::Builder::jtype(&out).unwrap().to_string(), type_of(found));
        match jaesve::output::Builder::value(&out).unwrap() {
            jaesve::output::BlockKind::Value(v) => assert_eq!(v, rendered(found)),
            other => panic!("not a value: {:?}", other),
        }
    }
}
