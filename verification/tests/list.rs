use b2::datetime::ParseErrorKind;
use b2::command::list::{
    is_note_entry, path_buf_to_line, preview_line, resolve_range, Args, EntryDecision, EntryFilter, FileName,
    IdLike, ListError, Order,
};

#[test]
fn test_id_like() {
    assert_eq!(
        IdLike::from_str("20231001T123456+0900").unwrap().to_string(),
        "20231001T033456Z"
    );
    assert_eq!(
        IdLike::from_str("20231001T123456Z").unwrap().to_string(),
        "20231001T123456Z"
    );
}

#[test]
fn id_like_negative_offset_and_errors() {
    assert_eq!(
        IdLike::from_str("20231001T233000-0900").unwrap().to_string(),
        "20231002T083000Z"
    );
    assert_eq!(
        IdLike::from_str("2023-10-01").unwrap_err(),
        ListError::InvalidIdLike("2023-10-01".to_string())
    );
    assert_eq!(IdLike::from_str("").unwrap_err(), ListError::InvalidIdLike(String::new()));
    assert!(IdLike::from_str("20231301T000000Z").is_err());
}

fn args(date: Option<&str>, since: Option<&str>, until: Option<&str>) -> Args {
    Args {
        date: date.map(|s| s.to_string()),
        limit: 20,
        order: Order::Desc,
        since: since.map(|s| s.to_string()),
        until: until.map(|s| s.to_string()),
    }
}

fn texts(r: (Option<IdLike>, Option<IdLike>)) -> (Option<String>, Option<String>) {
    (r.0.map(|x| x.to_string()), r.1.map(|x| x.to_string()))
}

#[test]
fn resolve_range_of_a_date_is_that_day() {
    let r = resolve_range(&args(Some("1970-01-01"), None, None)).unwrap();
    assert_eq!(
        texts(r),
        (Some("19700101T000000Z".to_string()), Some("19700102T000000Z".to_string()))
    );
    let r = resolve_range(&args(Some("2023-12-31"), None, None)).unwrap();
    assert_eq!(
        texts(r),
        (Some("20231231T000000Z".to_string()), Some("20240101T000000Z".to_string()))
    );
    let r = resolve_range(&args(Some("2024-02-28"), None, None)).unwrap();
    assert_eq!(
        texts(r),
        (Some("20240228T000000Z".to_string()), Some("20240229T000000Z".to_string()))
    );
}

#[test]
fn resolve_range_date_equals_since_until() {
    let by_date = texts(resolve_range(&args(Some("2023-10-01"), None, None)).unwrap());
    let by_ids = texts(
        resolve_range(&args(None, Some("20231001T000000Z"), Some("20231002T000000Z"))).unwrap(),
    );
    assert_eq!(by_date, by_ids);
}

#[test]
fn resolve_range_errors() {
    assert_eq!(
        resolve_range(&args(Some("2023-10-01"), Some("20231001T000000Z"), None)).unwrap_err(),
        ListError::DateWithSinceOrUntil
    );
    assert_eq!(
        resolve_range(&args(Some("2023-10-01"), None, Some("x"))).unwrap_err(),
        ListError::DateWithSinceOrUntil
    );
    assert_eq!(
        resolve_range(&args(Some("2023/10/01"), None, None)).unwrap_err(),
        ListError::InvalidDate(ParseErrorKind::Invalid)
    );
    assert_eq!(
        resolve_range(&args(Some("2023-02-30"), None, None)).unwrap_err(),
        ListError::InvalidDate(ParseErrorKind::OutOfRange)
    );
    assert_eq!(
        resolve_range(&args(None, Some("bad"), Some("worse"))).unwrap_err(),
        ListError::InvalidIdLike("bad".to_string())
    );
    assert_eq!(
        resolve_range(&args(None, None, Some("worse"))).unwrap_err(),
        ListError::InvalidIdLike("worse".to_string())
    );
    // the last representable date: its first moment is no id already
    assert_eq!(
        resolve_range(&args(Some("+262142-12-31"), None, None)).unwrap_err(),
        ListError::InvalidIdLike("+2621421231T000000Z".to_string())
    );
    let r = resolve_range(&args(None, None, None)).unwrap();
    assert_eq!(texts(r), (None, None));
}

fn name(s: &str) -> FileName {
    FileName::Utf8(s.to_string())
}

#[test]
fn entry_filter_range_is_since_inclusive_until_exclusive() {
    let since = IdLike::from_str("20250101T000002Z").unwrap();
    let until = IdLike::from_str("20250102T000005Z").unwrap();
    let mut f = EntryFilter::new(Some(since), Some(until), 20);
    assert_eq!(f.step(&name("20250102T000005Z.md")).unwrap(), EntryDecision::Skip);
    assert_eq!(f.step(&name("20250102T000004Z.md")).unwrap(), EntryDecision::Take);
    assert_eq!(f.step(&name("20250101T000002Z.md")).unwrap(), EntryDecision::Take);
    assert_eq!(f.step(&name("20250101T000001Z.md")).unwrap(), EntryDecision::Skip);
    assert_eq!(f.step(&FileName::Missing).unwrap(), EntryDecision::Take);
    assert_eq!(f.step(&FileName::NotUtf8).unwrap_err(), ListError::FileNameNotUtf8);
}

#[test]
fn entry_filter_limit() {
    let mut f = EntryFilter::new(None, None, 2);
    assert_eq!(f.step(&name("a")).unwrap(), EntryDecision::Take);
    assert_eq!(f.step(&name("b")).unwrap(), EntryDecision::TakeLast);
    assert!(f.is_finished());
    // with limit 0 the filter is finished before any entry
    let f = EntryFilter::new(None, None, 0);
    assert!(f.is_finished());
    assert!(!EntryFilter::new(None, None, 1).is_finished());
    let mut f = EntryFilter::new(None, None, 1);
    assert_eq!(f.step(&FileName::NotUtf8).unwrap(), EntryDecision::TakeLast);
}

#[test]
fn note_entries() {
    assert!(is_note_entry(4, Some("md")));
    assert!(!is_note_entry(4, Some("json")));
    assert!(!is_note_entry(3, Some("md")));
    assert!(!is_note_entry(4, None));
}

#[test]
fn entry_lines() {
    assert_eq!(path_buf_to_line("19700101T090000Z", b"note"), "19700101T090000Z note");
    assert_eq!(path_buf_to_line("id", b"a\nb\n"), "id a b ");
    assert_eq!(path_buf_to_line("id", b""), "id ");
    assert_eq!(
        path_buf_to_line("id", b"0123456789012345678901234567890123456789"),
        "id 012345678901234567890123456789"
    );
    // an invalid byte becomes U+FFFD; trailing ones are dropped
    assert_eq!(path_buf_to_line("id", b"ab\xff\xfe"), "id ab");
    assert_eq!(path_buf_to_line("id", b"a\xffb"), "id a\u{FFFD}b");
    // a multi-byte character cut at the end of the read
    assert_eq!(path_buf_to_line("id", "é".as_bytes().split_at(1).0), "id ");
    assert_eq!(path_buf_to_line("id", "日本".as_bytes()), "id 日本");
}

#[test]
fn preview_of_decoded_text() {
    assert_eq!(preview_line("id", "ab\u{FFFD}\u{FFFD}"), "id ab");
    assert_eq!(preview_line("id", "\u{FFFD}a\u{FFFD}"), "id \u{FFFD}a");
    assert_eq!(preview_line("id", "x\ny"), "id x y");
}

#[test]
fn canonical_ids_render_back_and_sort_by_time() {
    for id in ["00000101T000000Z", "20240229T235959Z", "99991231T235959Z", "19700101T090000Z"] {
        assert_eq!(IdLike::from_str(id).unwrap().to_string(), id);
    }
    let a = IdLike::from_str("20231001T123456+0900").unwrap().to_string();
    let b = IdLike::from_str("20231001T040000Z").unwrap().to_string();
    assert!(a < b);
    // a Z reads exactly as +0000
    assert_eq!(
        IdLike::from_str("20231001T123456Z").unwrap().to_string(),
        IdLike::from_str("20231001T123456+0000").unwrap().to_string()
    );
}
