use b2::datetime::ParseErrorKind;
use b2::command::new::{created_at, entry_path_at, time_zone_offset_seconds, NewError, Timestamp};

#[test]
fn test_fixed_offset_from_str() {
    assert_eq!(time_zone_offset_seconds("+09:00"), Ok(9 * 60 * 60));
}

#[test]
fn offsets() {
    assert_eq!(time_zone_offset_seconds("-05:30"), Ok(-(5 * 3600 + 30 * 60)));
    assert_eq!(time_zone_offset_seconds("nine"), Err(NewError::InvalidTimeZoneOffset(ParseErrorKind::Invalid)));
}

#[test]
fn new_note_path_is_utc() {
    let p = entry_path_at(Timestamp { secs: 0, nanos: 0 }).unwrap();
    assert_eq!(
        (p.year.as_str(), p.month.as_str(), p.day.as_str(), p.stem.as_str()),
        ("1970", "01", "01", "19700101T000000Z")
    );
    let p = entry_path_at(Timestamp { secs: 1_696_131_296, nanos: 5 }).unwrap();
    assert_eq!(p.stem, "20231001T033456Z");
    // years beyond 9999 carry a sign
    let p = entry_path_at(Timestamp { secs: 253_402_300_800, nanos: 0 }).unwrap();
    assert_eq!((p.year.as_str(), p.stem.as_str()), ("+10000", "+100000101T000000Z"));
    let p = entry_path_at(Timestamp { secs: -62_135_596_801, nanos: 0 }).unwrap();
    assert_eq!(p.stem, "00001231T235959Z");
    let p = entry_path_at(Timestamp { secs: -62_167_219_201, nanos: 0 }).unwrap();
    assert_eq!(p.stem, "-00011231T235959Z");
    assert_eq!(
        entry_path_at(Timestamp { secs: i64::MAX, nanos: 0 }).unwrap_err(),
        NewError::TimestampOutOfRange
    );
}

#[test]
fn new_note_created_at() {
    assert_eq!(
        created_at(Timestamp { secs: 0, nanos: 0 }, "+09:00").unwrap(),
        "1970-01-01T09:00:00+09:00"
    );
    assert_eq!(
        created_at(Timestamp { secs: 0, nanos: 0 }, "-05:30").unwrap(),
        "1969-12-31T18:30:00-05:30"
    );
    assert_eq!(
        created_at(Timestamp { secs: 0, nanos: 0 }, "Z").unwrap_err(),
        NewError::InvalidTimeZoneOffset(ParseErrorKind::Invalid)
    );
    assert_eq!(
        created_at(Timestamp { secs: i64::MAX, nanos: 0 }, "+09:00").unwrap_err(),
        NewError::TimestampOutOfRange
    );
}

#[test]
fn offsets_as_chrono_reads_them() {
    let ok = |s: &str| time_zone_offset_seconds(s).unwrap();
    let kind = |s: &str| match time_zone_offset_seconds(s) {
        Err(NewError::InvalidTimeZoneOffset(k)) => k,
        other => panic!("{:?}", other),
    };
    assert_eq!(ok("+09:00"), 32400);
    assert_eq!(ok("\u{2212}05:30"), -19800);
    assert_eq!(ok("+0900"), 32400);
    assert_eq!(ok("+09 00"), 32400);
    assert_eq!(ok("+09:: 00xyz"), 32400);
    assert_eq!(ok("+23:59"), 86340);
    assert_eq!(ok("-00:00"), 0);
    assert_eq!(kind(""), ParseErrorKind::TooShort);
    assert_eq!(kind("+"), ParseErrorKind::TooShort);
    assert_eq!(kind("+09"), ParseErrorKind::TooShort);
    assert_eq!(kind("+09:0"), ParseErrorKind::TooShort);
    assert_eq!(kind("Z"), ParseErrorKind::Invalid);
    assert_eq!(kind("+9:00"), ParseErrorKind::Invalid);
    assert_eq!(kind("+0\u{e9}"), ParseErrorKind::Invalid);
    assert_eq!(kind("+09:\u{e9}"), ParseErrorKind::Invalid);
    assert_eq!(kind("+09:6x"), ParseErrorKind::Invalid);
    assert_eq!(kind("+09:60"), ParseErrorKind::OutOfRange);
    assert_eq!(kind("+24:00"), ParseErrorKind::OutOfRange);
}

#[test]
fn timestamps_chrono_accepts() {
    // the first and last days that chrono holds
    let first = entry_path_at(Timestamp { secs: -8_334_601_228_800, nanos: 0 }).unwrap();
    assert_eq!(first.stem, "-2621430101T000000Z");
    assert_eq!(
        entry_path_at(Timestamp { secs: -8_334_601_228_801, nanos: 0 }).unwrap_err(),
        NewError::TimestampOutOfRange
    );
    let last = entry_path_at(Timestamp { secs: 8_210_266_876_799, nanos: 999_999_999 }).unwrap();
    assert_eq!(last.stem, "+2621421231T235959Z");
    assert_eq!(
        entry_path_at(Timestamp { secs: 8_210_266_876_800, nanos: 0 }).unwrap_err(),
        NewError::TimestampOutOfRange
    );
    // day numbering across a leap day
    assert_eq!(entry_path_at(Timestamp { secs: 951_782_400, nanos: 0 }).unwrap().stem, "20000229T000000Z");
    assert_eq!(entry_path_at(Timestamp { secs: 951_868_800, nanos: 0 }).unwrap().stem, "20000301T000000Z");
    assert_eq!(entry_path_at(Timestamp { secs: -1, nanos: 0 }).unwrap().stem, "19691231T235959Z");
    // a leap second only at second 59 of a minute
    let leap = entry_path_at(Timestamp { secs: 59, nanos: 1_500_000_000 }).unwrap();
    assert_eq!(leap.stem, "19700101T000060Z");
    assert_eq!(
        entry_path_at(Timestamp { secs: 58, nanos: 1_000_000_000 }).unwrap_err(),
        NewError::TimestampOutOfRange
    );
    assert_eq!(
        entry_path_at(Timestamp { secs: 59, nanos: 2_000_000_000 }).unwrap_err(),
        NewError::TimestampOutOfRange
    );
    assert_eq!(
        created_at(Timestamp { secs: 58, nanos: 1_000_000_000 }, "+00:00").unwrap_err(),
        NewError::TimestampOutOfRange
    );
}

#[test]
fn new_note_is_found_by_its_id() {
    for secs in [0i64, 59, 951_782_400, 1_696_131_296, 253_402_300_799, -62_135_596_800] {
        for nanos in [0u32, 999_999_999, 1_000_000_000] {
            if let Ok(p) = entry_path_at(Timestamp { secs, nanos }) {
                let found = b2::flow::entry_path_for_id(&p.stem).unwrap();
                assert_eq!(found, p);
            }
        }
    }
}
