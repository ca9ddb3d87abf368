use jaesve::error::ErrorKind;
use jaesve::filter::{RegexOn, RegexOptions};
use jaesve::format::{field_string, format_record, Options};
use jaesve::output::{BlockKind, Builder, JType, Output, OutputBuilder};

fn record(ident: usize, pointer: &str, jtype: JType, value: Option<&str>) -> Output {
    OutputBuilder::new()
        .ident(ident)
        .pointer(pointer.to_string())
        .value(value.map(|v| v.to_string()))
        .type_of(jtype)
        .done()
}

#[test]
fn default_options() {
    let o = Options::default();
    assert!(!o.hide_type);
    assert_eq!(o.separator, ", ");
    assert_eq!(o.left_delimiter, "\"");
    assert_eq!(o.right_delimiter, "\"");
    assert_eq!(o.end_of_record, "\n");
    assert_eq!(o.beginning_of_record, "");
    assert_eq!(o.multi_documents, None);
    assert_eq!(o.regex, None);
    assert_eq!(o.column, None);
}

#[test]
fn line_with_default_options() {
    let line = format_record(&record(1, "/a/b", JType::Number, Some("1")), &Options::default());
    assert_eq!(line, Ok("\"Number\", \"/a/b\", \"1\"\n".to_string()));
}

#[test]
fn absent_value_and_null_are_told_apart() {
    let o = Options::default();
    let container = format_record(&record(1, "/a", JType::Object, None), &o).unwrap();
    let null = format_record(&record(1, "/a/2", JType::Null, Some("null")), &o).unwrap();
    assert_eq!(container, "\"Object\", \"/a\", \"NO_VALUE\"\n");
    assert_eq!(null, "\"Null\", \"/a/2\", \"null\"\n");
}

#[test]
fn hidden_type() {
    let mut o = Options::default();
    o.hide_type = true;
    let line = format_record(&record(1, "/k", JType::String, Some("v")), &o);
    assert_eq!(line, Ok("\"/k\", \"v\"\n".to_string()));
}

#[test]
fn identifier_column_in_line_mode() {
    let mut o = Options::default();
    o.multi_documents = Some(1);
    let line = format_record(&record(17, "/k", JType::Bool, Some("true")), &o);
    assert_eq!(line, Ok("\"17\", \"Bool\", \"/k\", \"true\"\n".to_string()));
}

#[test]
fn custom_delimiters() {
    let o = Options {
        hide_type: false,
        separator: "\t".to_string(),
        left_delimiter: "<".to_string(),
        right_delimiter: ">".to_string(),
        end_of_record: ";".to_string(),
        beginning_of_record: "#".to_string(),
        multi_documents: Some(0),
        regex: None,
        column: None,
    };
    let line = format_record(&record(3, "/p", JType::Array, None), &o);
    assert_eq!(line, Ok("#<3>\t<Array>\t</p>\t<NO_VALUE>;".to_string()));
}

#[test]
fn empty_guards() {
    let mut o = Options::default();
    o.left_delimiter = String::new();
    o.right_delimiter = String::new();
    o.separator = ",".to_string();
    let line = format_record(&record(3, "/p", JType::Number, Some("1.5")), &o);
    assert_eq!(line, Ok("Number,/p,1.5\n".to_string()));
}

#[test]
fn missing_fields_are_named() {
    let mut o = Options::default();
    let no_value = OutputBuilder::new().pointer("/p".to_string()).type_of(JType::Null).done();
    assert_eq!(format_record(&no_value, &o), Err(ErrorKind::MissingField("value".to_string())));
    let no_pointer = OutputBuilder::new().value(None).type_of(JType::Null).done();
    assert_eq!(format_record(&no_pointer, &o), Err(ErrorKind::MissingField("pointer".to_string())));
    let no_type = OutputBuilder::new().pointer("/p".to_string()).value(None).done();
    assert_eq!(format_record(&no_type, &o), Err(ErrorKind::MissingField("type".to_string())));
    o.hide_type = true;
    assert_eq!(format_record(&no_type, &o), Ok("\"/p\", \"NO_VALUE\"\n".to_string()));
    o.multi_documents = Some(1);
    assert_eq!(format_record(&no_type, &o), Err(ErrorKind::MissingField("ident".to_string())));
}

#[test]
fn builder_puts_blocks_in_position_order() {
    let out = OutputBuilder::new()
        .value(Some("v".to_string()))
        .pointer("/p".to_string())
        .type_of(JType::String)
        .delim(',')
        .ident(9)
        .done();
    assert_eq!(
        out.blocks(),
        &vec![
            BlockKind::Ident(9),
            BlockKind::Delimiter(','),
            BlockKind::Type(JType::String),
            BlockKind::Pointer("/p".to_string()),
            BlockKind::Value(Some("v".to_string())),
        ]
    );
}

#[test]
fn builder_keeps_the_last_setting_and_leaves_out_unset_fields() {
    let out = OutputBuilder::new().ident(1).ident(2).pointer("/p".to_string()).done();
    assert_eq!(out.blocks(), &vec![BlockKind::Ident(2), BlockKind::Pointer("/p".to_string())]);
    assert_eq!(OutputBuilder::new().done().blocks(), &vec![]);
}

#[test]
fn accessors_find_blocks_or_fail_generically() {
    let out = OutputBuilder::new().ident(4).delim(';').done();
    assert_eq!(out.identifer(), Ok(BlockKind::Ident(4)));
    assert_eq!(out.delimiter(), Ok(BlockKind::Delimiter(';')));
    assert_eq!(out.jtype(), Err(ErrorKind::Generic));
    assert_eq!(out.pointer(), Err(ErrorKind::Generic));
    assert_eq!(out.value(), Err(ErrorKind::Generic));
}

#[test]
fn block_texts() {
    assert_eq!(BlockKind::Ident(0).to_string(), "0");
    assert_eq!(BlockKind::Ident(1203).to_string(), "1203");
    assert_eq!(BlockKind::Ident(usize::MAX).to_string(), format!("{}", usize::MAX));
    assert_eq!(BlockKind::Delimiter(',').to_string(), ",");
    assert_eq!(BlockKind::Delimiter('é').to_string(), "é");
    assert_eq!(BlockKind::Type(JType::Object).to_string(), "Object");
    assert_eq!(BlockKind::Type(JType::Array).to_string(), "Array");
    assert_eq!(BlockKind::Type(JType::String).to_string(), "String");
    assert_eq!(BlockKind::Type(JType::Number).to_string(), "Number");
    assert_eq!(BlockKind::Type(JType::Bool).to_string(), "Bool");
    assert_eq!(BlockKind::Type(JType::Null).to_string(), "Null");
    assert_eq!(BlockKind::Pointer("/a".to_string()).to_string(), "/a");
    assert_eq!(BlockKind::Value(Some("v".to_string())).to_string(), "v");
    assert_eq!(BlockKind::Value(None).to_string(), "");
    assert_eq!(field_string(&BlockKind::Value(None)), "NO_VALUE");
    assert_eq!(field_string(&BlockKind::Value(Some("null".to_string()))), "null");
}

#[test]
fn column_names() {
    assert_eq!(RegexOn::from("key"), RegexOn::Entry);
    assert_eq!(RegexOn::from("type"), RegexOn::Type);
    assert_eq!(RegexOn::from("sep"), RegexOn::Separator);
    assert_eq!(RegexOn::from("value"), RegexOn::Value);
    assert_eq!(RegexOn::from("anything else"), RegexOn::Entry);
    assert_eq!(RegexOn::default(), RegexOn::Entry);
}

#[test]
fn pattern_that_does_not_compile() {
    match RegexOptions::new("foo(bar", RegexOn::Value) {
        Err(ErrorKind::Message(m)) => assert!(!m.is_empty()),
        other => panic!("compiled: {:?}", other.is_ok()),
    }
}

#[test]
fn compiled_pattern_is_kept() {
    let filter = RegexOptions::new("^[0-9]+$", RegexOn::Value).unwrap();
    assert_eq!(filter.get_regex().as_str(), "^[0-9]+$");
    assert_eq!(filter.get_column(), &RegexOn::Value);
}

#[test]
fn filter_looks_at_its_column() {
    let o = Options::default();
    let rec = record(1, "/count", JType::Number, Some("12"));
    let digits = |column| RegexOptions::new("^[0-9]+$", column).unwrap();
    assert_eq!(digits(RegexOn::Value).accepts(&rec, &o), Ok(true));
    assert_eq!(digits(RegexOn::Entry).accepts(&rec, &o), Ok(false));
    assert_eq!(digits(RegexOn::Type).accepts(&rec, &o), Ok(false));
    assert_eq!(digits(RegexOn::Separator).accepts(&rec, &o), Ok(false));
    let count = |column| RegexOptions::new("count", column).unwrap();
    assert_eq!(count(RegexOn::Entry).accepts(&rec, &o), Ok(true));
    assert_eq!(count(RegexOn::Value).accepts(&rec, &o), Ok(false));
    let number = RegexOptions::new("^Number$", RegexOn::Type).unwrap();
    assert_eq!(number.accepts(&rec, &o), Ok(true));
    let comma = RegexOptions::new("^, $", RegexOn::Separator).unwrap();
    assert_eq!(comma.accepts(&rec, &o), Ok(true));
}

#[test]
fn filter_sees_the_placeholder_of_an_absent_value() {
    let o = Options::default();
    let rec = record(1, "/a", JType::Object, None);
    let filter = RegexOptions::new("^NO_VALUE$", RegexOn::Value).unwrap();
    assert_eq!(filter.accepts(&rec, &o), Ok(true));
}

#[test]
fn filter_on_a_missing_column() {
    let o = Options::default();
    let rec = OutputBuilder::new().pointer("/p".to_string()).done();
    let filter = RegexOptions::new(".*", RegexOn::Value).unwrap();
    assert_eq!(filter.accepts(&rec, &o), Err(ErrorKind::MissingField("value".to_string())));
    let filter = RegexOptions::new(".*", RegexOn::Type).unwrap();
    assert_eq!(filter.accepts(&rec, &o), Err(ErrorKind::MissingField("type".to_string())));
    let filter = RegexOptions::new(".*", RegexOn::Entry).unwrap();
    assert_eq!(filter.accepts(&rec, &o), Ok(true));
}

#[test]
fn filter_from_options() {
    let mut o = Options::default();
    assert!(RegexOptions::from_options(&o).unwrap().is_none());
    o.regex = Some("a+".to_string());
    assert!(RegexOptions::from_options(&o).unwrap().is_none());
    o.column = Some(RegexOn::Type);
    let filter = RegexOptions::from_options(&o).unwrap().unwrap();
    assert_eq!(filter.get_regex().as_str(), "a+");
    assert_eq!(filter.get_column(), &RegexOn::Type);
    o.regex = None;
    assert!(RegexOptions::from_options(&o).unwrap().is_none());
}

#[test]
fn type_column_with_hidden_types_is_refused() {
    let mut o = Options::default();
    o.hide_type = true;
    o.regex = Some(".*".to_string());
    o.column = Some(RegexOn::Type);
    assert!(matches!(RegexOptions::from_options(&o), Err(ErrorKind::Message(_))));
    o.column = Some(RegexOn::Value);
    assert!(RegexOptions::from_options(&o).unwrap().is_some());
}

#[test]
fn bad_pattern_in_options_is_refused() {
    let mut o = Options::default();
    o.regex = Some("(".to_string());
    o.column = Some(RegexOn::Value);
    assert!(matches!(RegexOptions::from_options(&o), Err(ErrorKind::Message(_))));
}
