use b2::datetime::ParseErrorKind;
use b2::flow::{entry_path_for_id, id_to_rfc3339, IdError};

#[test]
fn id_as_rfc3339() {
    assert_eq!(id_to_rfc3339("20231001T123456Z").unwrap(), "2023-10-01T12:34:56Z");
    // positions 8 and 15 are not looked at
    assert_eq!(id_to_rfc3339("20231001x123456y").unwrap(), "2023-10-01T12:34:56Z");
    assert_eq!(id_to_rfc3339("20231001T123456").unwrap_err(), IdError::WrongByteLength);
    assert_eq!(id_to_rfc3339("20231001T123456ZZ").unwrap_err(), IdError::WrongByteLength);
    // 16 bytes but 15 characters
    assert_eq!(id_to_rfc3339("2023100éT123456").unwrap_err(), IdError::WrongCharCount);
}

#[test]
fn entry_path_of_id() {
    let p = entry_path_for_id("20231001T123456Z").unwrap();
    assert_eq!(
        (p.year.as_str(), p.month.as_str(), p.day.as_str(), p.stem.as_str()),
        ("2023", "10", "01", "20231001T123456Z")
    );
    // a leap second keeps its 60
    let p = entry_path_for_id("20161231T235960Z").unwrap();
    assert_eq!(p.stem, "20161231T235960Z");
    assert_eq!(
        entry_path_for_id("20231301T123456Z").unwrap_err(),
        IdError::InvalidDateTime(ParseErrorKind::OutOfRange)
    );
    assert_eq!(
        entry_path_for_id("2023100aT123456Z").unwrap_err(),
        IdError::InvalidDateTime(ParseErrorKind::Invalid)
    );
    assert_eq!(
        entry_path_for_id("20230230T123456Z").unwrap_err(),
        IdError::InvalidDateTime(ParseErrorKind::OutOfRange)
    );
    assert_eq!(entry_path_for_id("short").unwrap_err(), IdError::WrongByteLength);
}
