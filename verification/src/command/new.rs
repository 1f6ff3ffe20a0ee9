//! `new`: a note stamped with the current time. Its file goes under the UTC
//! date; its metadata records the creation time in the configured offset.
use vstd::prelude::*;
use crate::datetime::{
    extended_string, extended_text, fields_at, offset_text, offset_parse, parse_offset, push_offset,
    timestamp_fields, timestamp_in_range, DateTimeFields, ParseErrorKind,
};
use crate::datetime::{is_digit, lemma_two_digits_value, number2, two_digits};
use crate::flow::{entry_path, entry_path_spec, EntryPath, EntryPathView};

verus! {

/// A moment as seconds and nanoseconds since the Unix epoch.
#[derive(Clone, Copy, Debug, PartialEq, Eq, Structural)]
pub struct Timestamp {
    pub secs: i64,
    pub nanos: u32,
}

/// Why `new` cannot stamp a note.
#[derive(Clone, Copy, Debug, PartialEq, Eq, Structural)]
pub enum NewError {
    /// chrono cannot represent the moment (or the moment shifted by the offset).
    TimestampOutOfRange,
    /// The configured time zone offset is not one that chrono reads (e.g. `+09:00`).
    InvalidTimeZoneOffset(ParseErrorKind),
}

/// The path of the note created at `now`: that of its UTC date and time (which
/// `now` names uniquely, `lemma_fields_at_unique`).
pub open spec fn is_entry_path_at(now: Timestamp, p: EntryPathView) -> bool {
    exists|f: DateTimeFields|
        #[trigger] fields_at(f, now.secs as int, now.nanos as int) && p == entry_path_spec(f)
}

/// The path components of a note created at `now`: its UTC date and time.
/// It fails exactly when chrono cannot represent the moment.
pub fn entry_path_at(now: Timestamp) -> (r: Result<EntryPath, NewError>)
    ensures
        match r {
            Ok(p) => is_entry_path_at(now, p@),
            Err(e) => e == NewError::TimestampOutOfRange && !timestamp_in_range(
                now.secs as int,
                now.nanos as int,
            ),
        },
        r is Ok <==> timestamp_in_range(now.secs as int, now.nanos as int),
{
    match timestamp_fields(now.secs, now.nanos) {
        Some(f) => {
            let p = entry_path(&f);
            assert(fields_at(f, now.secs as int, now.nanos as int));
            Ok(p)
        },
        None => Err(NewError::TimestampOutOfRange),
    }
}

/// The error `created_at` reports, if any: the offset must read, and the moment
/// shifted by it must fit an `i64` and lie in chrono's range.
pub open spec fn created_at_error(now: Timestamp, time_zone_offset: Seq<char>) -> Option<NewError> {
    match offset_parse(time_zone_offset) {
        Err(k) => Some(NewError::InvalidTimeZoneOffset(k)),
        Ok(o) => {
            let local = now.secs + o;
            if i64::MIN <= local <= i64::MAX && timestamp_in_range(local, now.nanos as int) {
                None
            } else {
                Some(NewError::TimestampOutOfRange)
            }
        },
    }
}

/// The creation time of a note: the date and time at the offset (the UTC
/// date and time of the moment shifted by the offset), then the offset, as
/// `%Y-%m-%dT%H:%M:%S%:z`.
pub open spec fn is_created_at_text(now: Timestamp, time_zone_offset: Seq<char>, s: Seq<char>) -> bool {
    offset_parse(time_zone_offset) matches Ok(o) && exists|f: DateTimeFields|
        #[trigger] fields_at(f, now.secs + o, now.nanos as int) && s == extended_text(f)
            + offset_text(o as int)
}

/// The offset in seconds east of UTC that a text `+HH:MM` or `-HH:MM` writes.
pub open spec fn written_offset(t: Seq<char>) -> int {
    let v = number2(t, 1) * 3600 + number2(t, 4) * 60;
    if t[0] == '-' {
        -v
    } else {
        v
    }
}

/// The creation time names the moment `now` in the configured offset: it ends
/// in `+HH:MM` or `-HH:MM`, which writes the offset read from the
/// configuration, and what comes before it is the date and time that, at that
/// offset, is `now` (its UTC reading lies the offset after `now`).
pub proof fn lemma_created_at_names_now(now: Timestamp, time_zone_offset: Seq<char>, s: Seq<char>)
    requires
        is_created_at_text(now, time_zone_offset, s),
    ensures
        s.len() >= 6,
        ({
            let t = s.skip(s.len() - 6);
            &&& t[0] == '+' || t[0] == '-'
            &&& is_digit(t[1]) && is_digit(t[2]) && t[3] == ':' && is_digit(t[4]) && is_digit(t[5])
            &&& offset_parse(time_zone_offset) matches Ok(o) && o == written_offset(t)
            &&& exists|f: DateTimeFields|
                #[trigger] fields_at(f, now.secs + written_offset(t), now.nanos as int) && s.take(
                    s.len() - 6,
                ) == extended_text(f)
        }),
{
    let o = offset_parse(time_zone_offset)->Ok_0;
    let f = choose|f: DateTimeFields|
        #[trigger] fields_at(f, now.secs + o, now.nanos as int) && s == extended_text(f)
            + offset_text(o as int);
    let a: int = if o < 0 {
        -o
    } else {
        o as int
    };
    assert(a % 60 == 0 && a < 86_400);
    let minutes = (a + 30) / 60;
    assert(minutes == a / 60);
    lemma_two_digits_value(minutes / 60);
    lemma_two_digits_value(minutes % 60);
    let ot = offset_text(o as int);
    assert(ot.len() == 6);
    let t = s.skip(s.len() - 6);
    assert(t =~= ot);
    assert(s.take(s.len() - 6) =~= extended_text(f));
    assert(number2(t, 1) == minutes / 60) by {
        assert(t.subrange(1, 3) =~= two_digits(minutes / 60));
    }
    assert(number2(t, 4) == minutes % 60) by {
        assert(t.subrange(4, 6) =~= two_digits(minutes % 60));
    }
    assert(written_offset(t) == o);
}

/// The creation time recorded in a new note's metadata.
pub fn created_at(now: Timestamp, time_zone_offset: &str) -> (r: Result<String, NewError>)
    ensures
        match r {
            Ok(s) => created_at_error(now, time_zone_offset@) is None && is_created_at_text(
                now,
                time_zone_offset@,
                s@,
            ),
            Err(e) => created_at_error(now, time_zone_offset@) == Some(e),
        },
{
    let o = match time_zone_offset_seconds(time_zone_offset) {
        Ok(o) => o,
        Err(e) => return Err(e),
    };
    let local = match now.secs.checked_add(o as i64) {
        Some(l) => l,
        None => return Err(NewError::TimestampOutOfRange),
    };
    match timestamp_fields(local, now.nanos) {
        Some(f) => {
            let mut s = extended_string(&f);
            push_offset(&mut s, o);
            assert(fields_at(f, now.secs + o, now.nanos as int));
            Ok(s)
        },
        None => Err(NewError::TimestampOutOfRange),
    }
}

/// The UTC offset in seconds east of UTC that a configured offset text denotes.
pub fn time_zone_offset_seconds(time_zone_offset: &str) -> (r: Result<i32, NewError>)
    ensures
        match r {
            Ok(o) => offset_parse(time_zone_offset@) == Ok::<i32, ParseErrorKind>(o),
            Err(e) => offset_parse(time_zone_offset@) matches Err(k) && e
                == NewError::InvalidTimeZoneOffset(k),
        },
        r matches Ok(o) ==> -86_400 < o < 86_400,
{
    match parse_offset(time_zone_offset) {
        Ok(o) => Ok(o),
        Err(k) => Err(NewError::InvalidTimeZoneOffset(k)),
    }
}

} // verus!
