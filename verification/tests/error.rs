use jaesve::error::{formated_error, Context, ErrContext, Error, ErrorKind};

#[test]
fn kind_texts() {
    assert_eq!(ErrorKind::Generic.to_string(), "Generic Error");
    assert_eq!(ErrorKind::Message("as given".to_string()).to_string(), "as given");
    assert_eq!(
        ErrorKind::ThreadFailed("reader".to_string()).to_string(),
        "Thread: reader failed to return"
    );
    assert_eq!(
        ErrorKind::UnexpectedChannelClose("writer".to_string()).to_string(),
        "A channel quit unexpectedly: writer"
    );
    assert_eq!(
        ErrorKind::Io("broken pipe".to_string()).to_string(),
        "An underlying IO error occurred: broken pipe"
    );
    assert_eq!(
        ErrorKind::UTF8("bad byte".to_string()).to_string(),
        "Invalid or incomplete UTF-8: bad byte"
    );
    assert_eq!(
        ErrorKind::MissingField("value".to_string()).to_string(),
        "Missing required field: value"
    );
}

#[test]
fn io_error_on_a_full_line_buffer_names_the_buffer() {
    let text = Error::display_with_context(
        &ErrorKind::Io("eof".to_string()),
        &Context::DataLenEqualLineBufferLen(4096),
    );
    assert_eq!(
        text,
        "Input data size is >= input buffer, which likely lead to this error. Input buffer size is adjustable, try adding 'config --buf_in 4096' (error: eof)"
    );
}

#[test]
fn other_contexts_do_not_change_the_text() {
    let kind = ErrorKind::Io("eof".to_string());
    assert_eq!(
        Error::display_with_context(&kind, &Context::Overide("x".to_string())),
        kind.to_string()
    );
    let kind = ErrorKind::Generic;
    assert_eq!(
        Error::display_with_context(&kind, &Context::DataLenEqualLineBufferLen(1)),
        "Generic Error"
    );
}

#[test]
fn error_text_with_and_without_context() {
    let plain = Error::from(ErrorKind::Io("eof".to_string()));
    assert_eq!(plain.context, None);
    assert_eq!(plain.to_string(), "An underlying IO error occurred: eof");
    let full = Error::from((ErrorKind::Io("eof".to_string()), Context::DataLenEqualLineBufferLen(8)));
    assert_eq!(full.context, Some(Context::DataLenEqualLineBufferLen(8)));
    assert!(full.to_string().ends_with("'config --buf_in 8' (error: eof)"));
}

#[test]
fn exit_codes() {
    assert_eq!(i32::from(Error::from(ErrorKind::ThreadFailed("t".to_string()))), 2);
    assert_eq!(i32::from(Error::from(ErrorKind::UnexpectedChannelClose("c".to_string()))), 3);
    assert_eq!(i32::from(Error::from(ErrorKind::Generic)), 1);
    assert_eq!(i32::from(Error::from(ErrorKind::Message("m".to_string()))), 1);
    assert_eq!(i32::from(Error::from(ErrorKind::Io("m".to_string()))), 1);
    assert_eq!(i32::from(Error::from(ErrorKind::UTF8("m".to_string()))), 1);
    assert_eq!(i32::from(Error::from(ErrorKind::MissingField("m".to_string()))), 1);
}

#[test]
fn causes() {
    assert_eq!(ErrorKind::Io("a".to_string()).source(), Some(&"a".to_string()));
    assert_eq!(ErrorKind::UTF8("b".to_string()).source(), Some(&"b".to_string()));
    assert_eq!(ErrorKind::Generic.source(), None);
    assert_eq!(ErrorKind::Message("m".to_string()).source(), None);
    assert_eq!(Error::from(ErrorKind::Io("a".to_string())).source(), Some(&"a".to_string()));
}

#[test]
fn chain_appends_the_cause() {
    assert_eq!(
        formated_error(&Error::from(ErrorKind::Io("eof".to_string()))),
        "An underlying IO error occurred: eof: eof"
    );
    assert_eq!(formated_error(&Error::from(ErrorKind::Generic)), "Generic Error");
    assert_eq!(
        formated_error(&Error::from(ErrorKind::MissingField("value".to_string()))),
        "Missing required field: value"
    );
}

#[test]
fn context_from_text() {
    assert_eq!(Context::from("while reading"), Context::Overide("while reading".to_string()));
}

#[test]
fn result_with_context() {
    let ok: Result<u8, ErrorKind> = Ok(1);
    assert_eq!(ok.context("c"), Ok(1));
    let err: Result<u8, ErrorKind> = Err(ErrorKind::Generic);
    assert_eq!(err.context("c"), Err((ErrorKind::Generic, "c")));
}
