use jaesve::scan::JsonScan;

fn feed(scan: &mut JsonScan, bytes: &[u8]) {
    for b in bytes {
        let item: Option<Result<u8, String>> = Some(Ok(*b));
        assert_eq!(scan.next(item), Some(Ok(*b)));
    }
}

#[test]
fn starts_outside_quotes_with_zero_counters() {
    let scan = JsonScan::new();
    assert!(scan.outside_quotes());
    assert_eq!(scan.offsets(), (0, 0));
}

#[test]
fn quote_toggles_and_bytes_are_counted_on_their_side() {
    let mut scan = JsonScan::new();
    feed(&mut scan, b"ab");
    assert!(scan.outside_quotes());
    assert_eq!(scan.offsets(), (0, 2));
    feed(&mut scan, b"\"");
    assert!(!scan.outside_quotes());
    assert_eq!(scan.offsets(), (0, 2));
    feed(&mut scan, b"xyz");
    assert_eq!(scan.offsets(), (3, 2));
    feed(&mut scan, b"\"");
    assert!(scan.outside_quotes());
    assert_eq!(scan.offsets(), (3, 0));
    feed(&mut scan, b",");
    assert_eq!(scan.offsets(), (3, 1));
    feed(&mut scan, b"\"");
    assert!(!scan.outside_quotes());
    assert_eq!(scan.offsets(), (0, 1));
}

#[test]
fn escaped_quote_does_not_toggle() {
    // The document "a\"b"
    let mut scan = JsonScan::new();
    feed(&mut scan, b"\"a\\");
    assert!(!scan.outside_quotes());
    assert_eq!(scan.offsets(), (2, 0));
    feed(&mut scan, b"\"");
    assert!(!scan.outside_quotes());
    assert_eq!(scan.offsets(), (2, 0));
    feed(&mut scan, b"b");
    assert!(!scan.outside_quotes());
    assert_eq!(scan.offsets(), (3, 0));
    feed(&mut scan, b"\"");
    assert!(scan.outside_quotes());
    assert_eq!(scan.offsets(), (3, 0));
}

#[test]
fn escape_suppresses_exactly_one_toggle() {
    let mut scan = JsonScan::new();
    feed(&mut scan, b"\"\\\"");
    assert!(!scan.outside_quotes());
    feed(&mut scan, b"\"");
    assert!(scan.outside_quotes());
}

#[test]
fn escaped_backslash_does_not_escape_the_quote() {
    // The document "\\" : the second backslash is escaped, the quote after it closes.
    let mut scan = JsonScan::new();
    feed(&mut scan, b"\"\\\\");
    assert!(!scan.outside_quotes());
    feed(&mut scan, b"\"");
    assert!(scan.outside_quotes());
    assert_eq!(scan.offsets(), (2, 0));
}

#[test]
fn three_backslashes_escape_the_quote() {
    let mut scan = JsonScan::new();
    feed(&mut scan, b"\"\\\\\\\"");
    assert!(!scan.outside_quotes());
    assert_eq!(scan.offsets(), (3, 0));
}

#[test]
fn failure_passes_through_and_is_counted() {
    let mut scan = JsonScan::new();
    let item: Option<Result<u8, String>> = Some(Err("broken pipe".to_string()));
    assert_eq!(scan.next(item), Some(Err("broken pipe".to_string())));
    assert!(scan.outside_quotes());
    assert_eq!(scan.offsets(), (0, 1));
    feed(&mut scan, b"\"");
    let item: Option<Result<u8, String>> = Some(Err("again".to_string()));
    assert_eq!(scan.next(item), Some(Err("again".to_string())));
    assert_eq!(scan.offsets(), (1, 1));
}

#[test]
fn failure_forgets_a_pending_escape() {
    let mut scan = JsonScan::new();
    feed(&mut scan, b"\"\\");
    let item: Option<Result<u8, String>> = Some(Err("lost".to_string()));
    assert_eq!(scan.next(item), Some(Err("lost".to_string())));
    feed(&mut scan, b"\"");
    assert!(scan.outside_quotes());
}

#[test]
fn end_of_source_changes_nothing() {
    let mut scan = JsonScan::new();
    feed(&mut scan, b"\"ab");
    let item: Option<Result<u8, String>> = None;
    assert_eq!(scan.next(item), None);
    assert!(!scan.outside_quotes());
    assert_eq!(scan.offsets(), (2, 0));
}

#[test]
fn feeding_a_run_of_bytes() {
    let mut scan = JsonScan::new();
    scan.feed(b"{\"key\": \"va\\\"lue");
    assert!(!scan.outside_quotes());
    assert_eq!(scan.offsets(), (6, 2));
    scan.feed(b"\"}");
    assert!(scan.outside_quotes());
    assert_eq!(scan.offsets(), (6, 1));
    scan.feed(b"");
    assert_eq!(scan.offsets(), (6, 1));
}
