//! Calendar values as plain fields, their textual forms (the `strftime`
//! renderings that the note keeper uses), and the calls into `chrono` that
//! parse text or convert timestamps.
use vstd::prelude::*;
use chrono::{Datelike, Timelike};
use chrono::format::ParseErrorKind as K;
use self::ParseErrorKind as P;
use crate::text::{
    decimal, digit, digit_char, lemma_seq_lt_concat, push_char, push_zero_padded, seq_lt, zero_padded,
};

verus! {

/// Smallest year a `chrono::NaiveDate` can hold.
pub const MIN_YEAR: i32 = -262143;

/// Largest year a `chrono::NaiveDate` can hold.
pub const MAX_YEAR: i32 = 262142;

/// A date and time of day as `chrono` reports it through its `Datelike` and
/// `Timelike` accessors. A leap second is a `nanosecond` of 1e9 or more.
#[derive(Clone, Copy, Debug, PartialEq, Eq, Structural)]
pub struct DateTimeFields {
    pub year: i32,
    pub month: u32,
    pub day: u32,
    pub hour: u32,
    pub minute: u32,
    pub second: u32,
    pub nanosecond: u32,
}

/// A calendar date (proleptic Gregorian).
#[derive(Clone, Copy, Debug, PartialEq, Eq, Structural)]
pub struct CalendarDate {
    pub year: i32,
    pub month: u32,
    pub day: u32,
}

impl DateTimeFields {
    /// The ranges that `chrono`'s accessors guarantee: a valid calendar date
    /// and a time of day, a leap second showing as a nanosecond of 1e9 or more.
    pub open spec fn wf(self) -> bool {
        &&& 1 <= self.month <= 12
        &&& 1 <= self.day <= days_in_month(self.year as int, self.month as int)
        &&& self.hour <= 23
        &&& self.minute <= 59
        &&& self.second <= 59
        &&& self.nanosecond < 2_000_000_000
    }

    /// The seconds value that `%S` prints: 60 during a leap second.
    pub open spec fn displayed_second(self) -> int {
        self.second + self.nanosecond / 1_000_000_000
    }
}

pub open spec fn is_leap_year(y: int) -> bool {
    y % 4 == 0 && (y % 100 != 0 || y % 400 == 0)
}

pub open spec fn days_in_month(y: int, m: int) -> int {
    if m == 2 {
        if is_leap_year(y) {
            29
        } else {
            28
        }
    } else if m == 4 || m == 6 || m == 9 || m == 11 {
        30
    } else {
        31
    }
}

/// A count of leap years that grows by one after each leap year: the leap
/// years in `1..y`, and for `y < 1` minus those in `y..1`.
pub open spec fn leap_years_before(y: int) -> int {
    (y - 1) / 4 - (y - 1) / 100 + (y - 1) / 400
}

/// The days of the months before month `m` of year `y`.
pub open spec fn days_before_month(y: int, m: int) -> int
    decreases m,
{
    if m <= 1 {
        0
    } else {
        days_before_month(y, m - 1) + days_in_month(y, m - 1)
    }
}

/// The number of days from 1970-01-01 to the date `y-m-d` (negative before it).
pub open spec fn days_from_epoch(y: int, m: int, d: int) -> int {
    365 * (y - 1970) + leap_years_before(y) - leap_years_before(1970) + days_before_month(y, m) + d
        - 1
}

impl DateTimeFields {
    /// The Unix timestamp of the fields read as UTC: whole seconds since
    /// 1970-01-01T00:00:00, a leap second counting as its second 59.
    pub open spec fn unix_seconds(self) -> int {
        days_from_epoch(self.year as int, self.month as int, self.day as int) * 86_400 + self.hour
            * 3600 + self.minute * 60 + self.second
    }
}

/// `f` is the UTC date and time `secs` seconds and `nanos` nanoseconds after
/// the Unix epoch, within the years that `chrono` can represent.
pub open spec fn fields_at(f: DateTimeFields, secs: int, nanos: int) -> bool {
    &&& f.wf()
    &&& MIN_YEAR <= f.year <= MAX_YEAR
    &&& f.unix_seconds() == secs
    &&& f.nanosecond == nanos
}

/// The days of a year before each month, month by month.
proof fn lemma_days_before_month_values(y: int)
    ensures
        ({
            let l = if is_leap_year(y) {
                1int
            } else {
                0
            };
            &&& days_before_month(y, 1) == 0
            &&& days_before_month(y, 2) == 31
            &&& days_before_month(y, 3) == 59 + l
            &&& days_before_month(y, 4) == 90 + l
            &&& days_before_month(y, 5) == 120 + l
            &&& days_before_month(y, 6) == 151 + l
            &&& days_before_month(y, 7) == 181 + l
            &&& days_before_month(y, 8) == 212 + l
            &&& days_before_month(y, 9) == 243 + l
            &&& days_before_month(y, 10) == 273 + l
            &&& days_before_month(y, 11) == 304 + l
            &&& days_before_month(y, 12) == 334 + l
        }),
{
    reveal_with_fuel(days_before_month, 13);
}

/// Going from year `y - 1` to `y`, `(y - 1) / k` grows by one exactly when `k` divides `y`.
proof fn lemma_floor_step(y: int, k: int)
    requires
        k == 4 || k == 100 || k == 400,
    ensures
        y / k - (y - 1) / k == if y % k == 0 {
            1int
        } else {
            0
        },
{
    if k == 4 {
        assert(y / 4 - (y - 1) / 4 == if y % 4 == 0 {
            1int
        } else {
            0
        });
    } else if k == 100 {
        assert(y / 100 - (y - 1) / 100 == if y % 100 == 0 {
            1int
        } else {
            0
        });
    } else {
        assert(y / 400 - (y - 1) / 400 == if y % 400 == 0 {
            1int
        } else {
            0
        });
    }
}

/// A year has 365 days, 366 in a leap year.
proof fn lemma_year_length(y: int)
    ensures
        days_from_epoch(y + 1, 1, 1) - days_from_epoch(y, 1, 1) == if is_leap_year(y) {
            366int
        } else {
            365
        },
{
    lemma_floor_step(y, 4);
    lemma_floor_step(y, 100);
    lemma_floor_step(y, 400);
    assert(days_before_month(y, 1) == 0);
    assert(days_before_month(y + 1, 1) == 0);
    assert(leap_years_before(y + 1) - leap_years_before(y) == if is_leap_year(y) {
        1int
    } else {
        0
    });
}

/// Later years start later: year `b` starts at least a day after each day of
/// an earlier year `a`.
proof fn lemma_year_start_after(a: int, b: int, m: int, d: int)
    requires
        a < b,
        1 <= m <= 12,
        1 <= d <= days_in_month(a, m),
    ensures
        days_from_epoch(a, m, d) < days_from_epoch(b, 1, 1),
    decreases b - a,
{
    lemma_year_length(a);
    if b == a + 1 {
        lemma_days_before_month_values(a);
    } else {
        lemma_year_start_after(a, b - 1, m, d);
        lemma_year_length(b - 1);
    }
}

/// Distinct valid dates have distinct day numbers.
proof fn lemma_days_from_epoch_injective(y1: int, m1: int, d1: int, y2: int, m2: int, d2: int)
    requires
        1 <= m1 <= 12,
        1 <= d1 <= days_in_month(y1, m1),
        1 <= m2 <= 12,
        1 <= d2 <= days_in_month(y2, m2),
        days_from_epoch(y1, m1, d1) == days_from_epoch(y2, m2, d2),
    ensures
        y1 == y2 && m1 == m2 && d1 == d2,
{
    if y1 < y2 {
        lemma_year_start_after(y1, y2, m1, d1);
        lemma_days_before_month_values(y2);
    } else if y2 < y1 {
        lemma_year_start_after(y2, y1, m2, d2);
        lemma_days_before_month_values(y1);
    } else {
        lemma_days_before_month_values(y1);
    }
}

/// A timestamp names one date and time: two sets of fields at the same
/// seconds and nanoseconds are the same.
pub proof fn lemma_fields_at_unique(f: DateTimeFields, g: DateTimeFields, secs: int, nanos: int)
    requires
        fields_at(f, secs, nanos),
        fields_at(g, secs, nanos),
    ensures
        f == g,
{
    let df = days_from_epoch(f.year as int, f.month as int, f.day as int);
    let dg = days_from_epoch(g.year as int, g.month as int, g.day as int);
    let tf = f.hour * 3600 + f.minute * 60 + f.second;
    let tg = g.hour * 3600 + g.minute * 60 + g.second;
    assert(df * 86_400 + tf == dg * 86_400 + tg);
    assert(df == dg) by (nonlinear_arith)
        requires
            df * 86_400 + tf == dg * 86_400 + tg,
            0 <= tf < 86_400,
            0 <= tg < 86_400,
    ;
    lemma_days_from_epoch_injective(
        f.year as int,
        f.month as int,
        f.day as int,
        g.year as int,
        g.month as int,
        g.day as int,
    );
}

/// The timestamps that `chrono::DateTime::from_timestamp` accepts: a day
/// from the first to the last that `NaiveDate` holds, and nanoseconds below
/// 1e9, or below 2e9 for a leap second (a second that is 59 in its minute).
pub open spec fn timestamp_in_range(secs: int, nanos: int) -> bool {
    &&& nanos < 2_000_000_000
    &&& nanos >= 1_000_000_000 ==> secs % 60 == 59
    &&& days_from_epoch(MIN_YEAR as int, 1, 1) <= secs / 86_400
    &&& secs / 86_400 <= days_from_epoch(MAX_YEAR as int, 12, 31)
}

impl CalendarDate {
    /// A date that `chrono::NaiveDate` can represent.
    pub open spec fn valid(self) -> bool {
        &&& MIN_YEAR <= self.year <= MAX_YEAR
        &&& 1 <= self.month <= 12
        &&& 1 <= self.day <= days_in_month(self.year as int, self.month as int)
    }

    /// The last date that `chrono::NaiveDate` can represent.
    pub open spec fn is_last(self) -> bool {
        self.year == MAX_YEAR && self.month == 12 && self.day == 31
    }

    /// The following calendar day.
    pub open spec fn next_day(self) -> CalendarDate {
        if (self.day as int) < days_in_month(self.year as int, self.month as int) {
            CalendarDate { year: self.year, month: self.month, day: (self.day + 1) as u32 }
        } else if self.month < 12 {
            CalendarDate { year: self.year, month: (self.month + 1) as u32, day: 1 }
        } else {
            CalendarDate { year: (self.year + 1) as i32, month: 1, day: 1 }
        }
    }
}

/// Two decimal digits of `v` (0..=99), as `%m`, `%d`, `%H`, `%M`, `%S` print them.
pub open spec fn two_digits(v: int) -> Seq<char> {
    seq![digit_char(v / 10), digit_char(v % 10)]
}

/// `%Y`: four digits for years 0..=9999, otherwise a sign and at least four digits.
pub open spec fn year_text(y: int) -> Seq<char> {
    if 0 <= y <= 9999 {
        zero_padded(y as nat, 4)
    } else if y < 0 {
        seq!['-'] + zero_padded((-y) as nat, 4)
    } else {
        seq!['+'] + zero_padded(y as nat, 4)
    }
}

/// `%Y%m%d`
pub open spec fn date_compact_text(year: int, month: int, day: int) -> Seq<char> {
    year_text(year) + two_digits(month) + two_digits(day)
}

/// `%Y%m%dT%H%M%SZ`: the form of a note id.
pub open spec fn compact_text(f: DateTimeFields) -> Seq<char> {
    date_compact_text(f.year as int, f.month as int, f.day as int) + seq!['T'] + two_digits(
        f.hour as int,
    ) + two_digits(f.minute as int) + two_digits(f.displayed_second()) + seq!['Z']
}

/// `%Y-%m-%dT%H:%M:%S`
pub open spec fn extended_text(f: DateTimeFields) -> Seq<char> {
    year_text(f.year as int) + seq!['-'] + two_digits(f.month as int) + seq!['-'] + two_digits(
        f.day as int,
    ) + seq!['T'] + two_digits(f.hour as int) + seq![':'] + two_digits(f.minute as int) + seq![
        ':',
    ] + two_digits(f.displayed_second())
}

/// `%:z`: sign, hours and minutes of an offset in seconds east of UTC,
/// rounded to the nearest minute.
pub open spec fn offset_text(offset: int) -> Seq<char> {
    let a = if offset < 0 {
        -offset
    } else {
        offset
    };
    let minutes = (a + 30) / 60;
    seq![if offset < 0 { '-' } else { '+' }] + two_digits(minutes / 60) + seq![':'] + two_digits(
        minutes % 60,
    )
}

/// Appends `two_digits(v)`.
pub fn push_two_digits(s: &mut String, v: u32)
    requires
        v < 100,
    ensures
        final(s)@ == old(s)@ + two_digits(v as int),
{
    let tens = digit((v / 10) as u8);
    let ones = digit((v % 10) as u8);
    push_char(s, tens);
    push_char(s, ones);
}

/// Appends `year_text(y)`.
pub fn push_year(s: &mut String, y: i32)
    ensures
        final(s)@ == old(s)@ + year_text(y as int),
{
    if 0 <= y && y <= 9999 {
        push_zero_padded(s, y as u64, 4);
    } else if y < 0 {
        push_char(s, '-');
        let a: i64 = -(y as i64);
        push_zero_padded(s, a as u64, 4);
    } else {
        push_char(s, '+');
        push_zero_padded(s, y as u64, 4);
    }
}

/// Appends `date_compact_text`.
pub fn push_date_compact(s: &mut String, year: i32, month: u32, day: u32)
    requires
        month < 100,
        day < 100,
    ensures
        final(s)@ == old(s)@ + date_compact_text(year as int, month as int, day as int),
{
    push_year(s, year);
    push_two_digits(s, month);
    push_two_digits(s, day);
}

/// `%S` of the fields: seconds plus one during a leap second.
fn displayed_second(f: &DateTimeFields) -> (r: u32)
    requires
        f.wf(),
    ensures
        r == f.displayed_second(),
        r <= 60,
{
    f.second + f.nanosecond / 1_000_000_000
}

/// Renders `%Y%m%dT%H%M%SZ`.
pub fn compact_string(f: &DateTimeFields) -> (r: String)
    requires
        f.wf(),
    ensures
        r@ == compact_text(*f),
{
    let mut s = String::new();
    push_date_compact(&mut s, f.year, f.month, f.day);
    push_char(&mut s, 'T');
    push_two_digits(&mut s, f.hour);
    push_two_digits(&mut s, f.minute);
    let sec = displayed_second(f);
    push_two_digits(&mut s, sec);
    push_char(&mut s, 'Z');
    s
}

/// Renders `%Y-%m-%dT%H:%M:%S`.
pub fn extended_string(f: &DateTimeFields) -> (r: String)
    requires
        f.wf(),
    ensures
        r@ == extended_text(*f),
{
    let mut s = String::new();
    push_year(&mut s, f.year);
    push_char(&mut s, '-');
    push_two_digits(&mut s, f.month);
    push_char(&mut s, '-');
    push_two_digits(&mut s, f.day);
    push_char(&mut s, 'T');
    push_two_digits(&mut s, f.hour);
    push_char(&mut s, ':');
    push_two_digits(&mut s, f.minute);
    push_char(&mut s, ':');
    let sec = displayed_second(f);
    push_two_digits(&mut s, sec);
    s
}

/// Appends `offset_text(offset)` for an offset that `chrono::FixedOffset` accepts.
pub fn push_offset(s: &mut String, offset: i32)
    requires
        -86_400 < offset < 86_400,
    ensures
        final(s)@ == old(s)@ + offset_text(offset as int),
{
    let a: u32 = if offset < 0 {
        (-offset) as u32
    } else {
        offset as u32
    };
    let minutes = (a + 30) / 60;
    if offset < 0 {
        push_char(s, '-');
    } else {
        push_char(s, '+');
    }
    push_two_digits(s, minutes / 60);
    push_char(s, ':');
    push_two_digits(s, minutes % 60);
}

/// Why chrono refused a text (the kinds of `chrono::format::ParseErrorKind`).
#[derive(Clone, Copy, Debug, PartialEq, Eq, Structural)]
pub enum ParseErrorKind {
    /// A field is out of its permitted range.
    OutOfRange,
    /// No date and time matches the fields.
    Impossible,
    /// The fields do not determine a unique date and time.
    NotEnough,
    /// The text has characters that the format does not admit.
    Invalid,
    /// The text ended too early.
    TooShort,
    /// Text is left over after the format.
    TooLong,
    /// The format itself is bad or unsupported.
    BadFormat,
}

pub open spec fn is_digit(c: char) -> bool {
    '0' <= c <= '9'
}

pub open spec fn digit_value(c: char) -> int {
    c as int - 48
}

/// The two-digit number at positions `i`, `i + 1`.
pub open spec fn number2(s: Seq<char>, i: int) -> int {
    10 * digit_value(s[i]) + digit_value(s[i + 1])
}

/// The four-digit number at positions `i` to `i + 3`.
pub open spec fn number4(s: Seq<char>, i: int) -> int {
    100 * number2(s, i) + number2(s, i + 2)
}

pub open spec fn all_digits(s: Seq<char>, from: int, to: int) -> bool {
    forall|i: int| from <= i < to ==> is_digit(#[trigger] s[i])
}

/// The date and time that a text starting with `YYYYMMDDTHHMMSS` (digits, `T`,
/// digits) spells, when the numbers name a valid date and a time without a leap second.
pub open spec fn stamp_fields(s: Seq<char>) -> Option<DateTimeFields> {
    if s.len() >= 15 && all_digits(s, 0, 8) && s[8] == 'T' && all_digits(s, 9, 15) {
        let f = DateTimeFields {
            year: number4(s, 0) as i32,
            month: number2(s, 4) as u32,
            day: number2(s, 6) as u32,
            hour: number2(s, 9) as u32,
            minute: number2(s, 11) as u32,
            second: number2(s, 13) as u32,
            nanosecond: 0,
        };
        if 1 <= f.month <= 12 && 1 <= f.day <= days_in_month(f.year as int, f.month as int)
            && f.hour <= 23 && f.minute <= 59 && f.second <= 59 {
            Some(f)
        } else {
            None
        }
    } else {
        None
    }
}

/// Whether a text ends in `Z`.
pub open spec fn ends_in_z(s: Seq<char>) -> bool {
    s.len() > 0 && s.last() == 'Z'
}

/// `YYYYMMDDTHHMMSS+0000`: a stamp in the form `%Y%m%dT%H%M%S%z` with offset zero.
pub open spec fn is_utc_offset_stamp(s: Seq<char>) -> bool {
    s.len() == 20 && s.subrange(15, 20) == seq!['+', '0', '0', '0', '0']
}

/// The fields of a `YYYYMMDDTHHMMSS+0000` text naming a valid date and time.
pub open spec fn utc_offset_stamp_fields(s: Seq<char>) -> Option<DateTimeFields> {
    if is_utc_offset_stamp(s) {
        stamp_fields(s)
    } else {
        None
    }
}

/// `utc_offset_stamp_fields` as a parse result.
pub open spec fn utc_offset_stamp_result(s: Seq<char>) -> Result<DateTimeFields, ParseErrorKind> {
    match utc_offset_stamp_fields(s) {
        Some(f) => Ok(f),
        None => Err(ParseErrorKind::Invalid),
    }
}

/// The date and time that an RFC 3339 text `YYYY-MM-DDTHH:MM:SSZ` spells (digits,
/// the separators `-`, `T`, `:`, and `Z` for UTC) when its numbers name a valid
/// date and time. A second of 60 is a leap second: second 59 and 1e9 nanoseconds.
pub open spec fn rfc3339_utc_fields(s: Seq<char>) -> Option<DateTimeFields> {
    if s.len() == 20 && all_digits(s, 0, 4) && s[4] == '-' && all_digits(s, 5, 7) && s[7] == '-'
        && all_digits(s, 8, 10) && s[10] == 'T' && all_digits(s, 11, 13) && s[13] == ':'
        && all_digits(s, 14, 16) && s[16] == ':' && all_digits(s, 17, 19) && s[19] == 'Z' {
        let year = number4(s, 0);
        let month = number2(s, 5);
        let day = number2(s, 8);
        let second = number2(s, 17);
        if 1 <= month <= 12 && 1 <= day <= days_in_month(year, month) && number2(s, 11) <= 23
            && number2(s, 14) <= 59 && second <= 60 {
            Some(
                DateTimeFields {
                    year: year as i32,
                    month: month as u32,
                    day: day as u32,
                    hour: number2(s, 11) as u32,
                    minute: number2(s, 14) as u32,
                    second: (if second == 60 {
                        59
                    } else {
                        second
                    }) as u32,
                    nanosecond: if second == 60 {
                        1_000_000_000
                    } else {
                        0
                    },
                },
            )
        } else {
            None
        }
    } else {
        None
    }
}

/// `rfc3339_utc_fields` as a parse result.
pub open spec fn rfc3339_utc_result(s: Seq<char>) -> Result<DateTimeFields, ParseErrorKind> {
    match rfc3339_utc_fields(s) {
        Some(f) => Ok(f),
        None => Err(ParseErrorKind::Invalid),
    }
}

/// The shape of a note id, `YYYYMMDDTHHMMSSZ`: digits but for the `T` and the `Z`.
pub open spec fn is_id_shape(s: Seq<char>) -> bool {
    s.len() == 16 && all_digits(s, 0, 8) && s[8] == 'T' && all_digits(s, 9, 15) && s[15] == 'Z'
}

/// What `chrono::DateTime::parse_from_str(s, "%Y%m%dT%H%M%S%z")` yields for `s`,
/// read as the fields of its UTC date and time (`naive_utc`), or the kind of error.
pub uninterp spec fn id_parse(s: Seq<char>) -> Result<DateTimeFields, ParseErrorKind>;

/// What `chrono::DateTime::parse_from_rfc3339(s)` yields for `s`, read as the
/// fields of its local date and time (`naive_local`), or the kind of error.
pub uninterp spec fn rfc3339_parse(s: Seq<char>) -> Result<DateTimeFields, ParseErrorKind>;

/// What `chrono::NaiveDate::parse_from_str(s, "%Y-%m-%d")` yields for `s`, or
/// the kind of error.
pub uninterp spec fn date_parse(s: Seq<char>) -> Result<CalendarDate, ParseErrorKind>;

/// `char::is_whitespace`: the Unicode White_Space characters.
pub open spec fn is_whitespace(c: char) -> bool {
    ||| '\u{9}' <= c <= '\u{D}'
    ||| c == ' ' || c == '\u{85}' || c == '\u{A0}' || c == '\u{1680}'
    ||| '\u{2000}' <= c <= '\u{200A}'
    ||| c == '\u{2028}' || c == '\u{2029}' || c == '\u{202F}' || c == '\u{205F}' || c == '\u{3000}'
}

/// The text after any leading colons and white space.
pub open spec fn skip_colons_and_spaces(s: Seq<char>) -> Seq<char>
    decreases s.len(),
{
    if s.len() > 0 && (s[0] == ':' || is_whitespace(s[0])) {
        skip_colons_and_spaces(s.drop_first())
    } else {
        s
    }
}

/// The text is shorter than two bytes in UTF-8.
pub open spec fn under_two_bytes(s: Seq<char>) -> bool {
    s.len() == 0 || (s.len() == 1 && (s[0] as u32) < 0x80)
}

/// Two digits at the start of the text.
pub open spec fn starts_with_two_digits(s: Seq<char>) -> bool {
    s.len() >= 2 && is_digit(s[0]) && is_digit(s[1])
}

/// What `<chrono::FixedOffset as FromStr>::from_str(s)` yields for `s`, as seconds
/// east of UTC: a sign (`+`, `-` or U+2212), two hour digits, any colons or white
/// space, two minute digits (00 to 59), and anything after; the offset must lie
/// strictly within a day. Otherwise the kind of error that chrono reports.
pub open spec fn offset_parse(s: Seq<char>) -> Result<i32, ParseErrorKind> {
    if s.len() == 0 {
        Err(ParseErrorKind::TooShort)
    } else if !(s[0] == '+' || s[0] == '-' || s[0] == '\u{2212}') {
        Err(ParseErrorKind::Invalid)
    } else {
        let t = s.drop_first();
        if under_two_bytes(t) {
            Err(ParseErrorKind::TooShort)
        } else if !starts_with_two_digits(t) {
            Err(ParseErrorKind::Invalid)
        } else {
            let u = skip_colons_and_spaces(t.skip(2));
            if under_two_bytes(u) {
                Err(ParseErrorKind::TooShort)
            } else if !starts_with_two_digits(u) {
                Err(ParseErrorKind::Invalid)
            } else if digit_value(u[0]) > 5 {
                Err(ParseErrorKind::OutOfRange)
            } else {
                let secs = number2(t, 0) * 3600 + number2(u, 0) * 60;
                if secs >= 86_400 {
                    Err(ParseErrorKind::OutOfRange)
                } else {
                    Ok((if s[0] == '+' { secs } else { -secs }) as i32)
                }
            }
        }
    }
}

/// Calls `chrono::DateTime::parse_from_str(s, "%Y%m%dT%H%M%S%z")` and reads the
/// UTC date and time of the result, or the error's kind. Trusted: the result is
/// the value named by `id_parse`; its fields lie in the ranges that chrono's
/// `Datelike` and `Timelike` accessors document (`wf`); a text that ends in `Z`
/// is refused (`%z` admits no `Z`, and must end the text); and a text
/// `YYYYMMDDTHHMMSS+0000` naming a valid date and time reads as exactly those
/// fields. Which other texts are accepted is not stated.
#[verifier::external_body]
pub(crate) fn parse_id_fields(s: &str) -> (r: Result<DateTimeFields, ParseErrorKind>)
    ensures
        r == id_parse(s@),
        r matches Ok(f) ==> f.wf(),
        ends_in_z(s@) ==> r is Err,
        utc_offset_stamp_fields(s@) is Some ==> r == utc_offset_stamp_result(s@),
{
    match chrono::DateTime::parse_from_str(s, "%Y%m%dT%H%M%S%z") {
        Ok(dt) => { let n = dt.naive_utc();
            Ok(DateTimeFields { year: n.year(), month: n.month(), day: n.day(), hour: n.hour(),
                minute: n.minute(), second: n.second(), nanosecond: n.nanosecond() }) },
        Err(e) => Err(match e.kind() { K::OutOfRange => P::OutOfRange, K::Impossible => P::Impossible,
            K::NotEnough => P::NotEnough, K::Invalid => P::Invalid, K::TooShort => P::TooShort,
            K::TooLong => P::TooLong, _ => P::BadFormat }),
    }
}

/// Calls `chrono::DateTime::parse_from_rfc3339(s)` and reads the local date and
/// time of the result, or the error's kind. Trusted: the result is the value
/// named by `rfc3339_parse`, with fields in the documented accessor ranges; and
/// a text `YYYY-MM-DDTHH:MM:SSZ` naming a valid date and time reads as exactly
/// those fields (a `Z` offset leaves the local time equal to UTC). Which other
/// texts are accepted is not stated.
#[verifier::external_body]
pub(crate) fn parse_rfc3339_fields(s: &str) -> (r: Result<DateTimeFields, ParseErrorKind>)
    ensures
        r == rfc3339_parse(s@),
        r matches Ok(f) ==> f.wf(),
        rfc3339_utc_fields(s@) is Some ==> r == rfc3339_utc_result(s@),
{
    match chrono::DateTime::parse_from_rfc3339(s) {
        Ok(dt) => { let n = dt.naive_local();
            Ok(DateTimeFields { year: n.year(), month: n.month(), day: n.day(), hour: n.hour(),
                minute: n.minute(), second: n.second(), nanosecond: n.nanosecond() }) },
        Err(e) => Err(match e.kind() { K::OutOfRange => P::OutOfRange, K::Impossible => P::Impossible,
            K::NotEnough => P::NotEnough, K::Invalid => P::Invalid, K::TooShort => P::TooShort,
            K::TooLong => P::TooLong, _ => P::BadFormat }),
    }
}

/// Calls `chrono::NaiveDate::parse_from_str(s, "%Y-%m-%d")`. Trusted: the result
/// is the value named by `date_parse`, and a date that `NaiveDate` can
/// represent. Which texts are accepted is not stated.
#[verifier::external_body]
pub(crate) fn parse_date(s: &str) -> (r: Result<CalendarDate, ParseErrorKind>)
    ensures
        r == date_parse(s@),
        r matches Ok(d) ==> d.valid(),
{
    match chrono::NaiveDate::parse_from_str(s, "%Y-%m-%d") {
        Ok(d) => Ok(CalendarDate { year: d.year(), month: d.month(), day: d.day() }),
        Err(e) => Err(match e.kind() { K::OutOfRange => P::OutOfRange, K::Impossible => P::Impossible,
            K::NotEnough => P::NotEnough, K::Invalid => P::Invalid, K::TooShort => P::TooShort,
            K::TooLong => P::TooLong, _ => P::BadFormat }),
    }
}

/// Calls `chrono::NaiveDate::checked_add_days` with one day on the date (built
/// by `NaiveDate::from_ymd_opt`, which accepts every valid date). Trusted: the
/// result is the following calendar day, and `None` exactly on the last date
/// that `NaiveDate` can represent.
#[verifier::external_body]
pub(crate) fn checked_next_day(d: CalendarDate) -> (r: Option<CalendarDate>)
    requires
        d.valid(),
    ensures
        r == (if d.is_last() { None } else { Some(d.next_day()) }),
{
    match chrono::NaiveDate::from_ymd_opt(d.year, d.month, d.day) {
        Some(nd) => match nd.checked_add_days(chrono::Days::new(1)) {
            Some(n) => Some(CalendarDate { year: n.year(), month: n.month(), day: n.day() }),
            None => None,
        },
        None => None,
    }
}

/// Calls `<chrono::FixedOffset as FromStr>::from_str(s)` and reads the offset in
/// seconds east of UTC, or the error's kind. Trusted: the result is `offset_parse(s)`,
/// which restates chrono's `scan::timezone_offset` (sign, hours, `colon_or_space`,
/// minutes, the rest ignored) and the range check of `FixedOffset::east_opt`.
#[verifier::external_body]
pub(crate) fn parse_offset(s: &str) -> (r: Result<i32, ParseErrorKind>)
    ensures
        r == offset_parse(s@),
{
    match <chrono::FixedOffset as std::str::FromStr>::from_str(s) {
        Ok(o) => Ok(o.local_minus_utc()),
        Err(e) => Err(match e.kind() { K::OutOfRange => P::OutOfRange, K::Impossible => P::Impossible,
            K::NotEnough => P::NotEnough, K::Invalid => P::Invalid, K::TooShort => P::TooShort,
            K::TooLong => P::TooLong, _ => P::BadFormat }),
    }
}

/// Calls `chrono::DateTime::from_timestamp(secs, nanos)` and reads the UTC date
/// and time of the result. Trusted: chrono returns a value exactly for the
/// timestamps in range (`timestamp_in_range`), and that value is the date and
/// time `secs` seconds after 1970-01-01T00:00:00 UTC with `nanos` nanoseconds,
/// as its accessors report them (`fields_at`).
#[verifier::external_body]
pub(crate) fn timestamp_fields(secs: i64, nanos: u32) -> (r: Option<DateTimeFields>)
    ensures
        r is Some <==> timestamp_in_range(secs as int, nanos as int),
        r matches Some(f) ==> fields_at(f, secs as int, nanos as int),
{
    match chrono::DateTime::from_timestamp(secs, nanos) {
        Some(dt) => {
            let n = dt.naive_utc();
            Some(DateTimeFields { year: n.year(), month: n.month(), day: n.day(), hour: n.hour(),
                minute: n.minute(), second: n.second(), nanosecond: n.nanosecond() })
        },
        None => None,
    }
}



proof fn lemma_digit_char_value(d: int)
    requires
        0 <= d <= 9,
    ensures
        digit_char(d) as u32 == 48 + d,
        is_digit(digit_char(d)),
        digit_value(digit_char(d)) == d,
{
}

proof fn lemma_digit_char_of_value(c: char)
    requires
        is_digit(c),
    ensures
        digit_char(digit_value(c)) == c,
{
}

/// The four digits of a year in 0..=9999 as `%Y` prints them.
proof fn lemma_year_text_digits(y: int)
    requires
        0 <= y <= 9999,
    ensures
        year_text(y) == seq![
            digit_char(y / 1000),
            digit_char((y / 100) % 10),
            digit_char((y / 10) % 10),
            digit_char(y % 10),
        ],
{
    reveal_with_fuel(decimal, 5);
    let n = y as nat;
    if y < 10 {
        assert(decimal(n) == seq![digit_char(y)]);
        assert(zero_padded(n, 4) =~= Seq::new(3, |i: int| '0') + seq![digit_char(y)]);
    } else if y < 100 {
        assert(decimal(n) == seq![digit_char(y / 10), digit_char(y % 10)]);
        assert(zero_padded(n, 4) =~= Seq::new(2, |i: int| '0') + decimal(n));
    } else if y < 1000 {
        assert(decimal(n / 10) == seq![digit_char(y / 100), digit_char((y / 10) % 10)]);
        assert(decimal(n) == seq![digit_char(y / 100), digit_char((y / 10) % 10), digit_char(y % 10)]);
        assert(zero_padded(n, 4) =~= Seq::new(1, |i: int| '0') + decimal(n));
    } else {
        assert(decimal(n / 100) == seq![digit_char(y / 1000), digit_char((y / 100) % 10)]);
        assert(decimal(n / 10) == seq![
            digit_char(y / 1000),
            digit_char((y / 100) % 10),
            digit_char((y / 10) % 10),
        ]);
        assert(decimal(n) =~= seq![
            digit_char(y / 1000),
            digit_char((y / 100) % 10),
            digit_char((y / 10) % 10),
            digit_char(y % 10),
        ]);
    }
}

/// Two-digit renderings read back as their numbers.
pub proof fn lemma_two_digits_value(v: int)
    requires
        0 <= v <= 99,
    ensures
        two_digits(v).len() == 2,
        is_digit(two_digits(v)[0]),
        is_digit(two_digits(v)[1]),
        number2(two_digits(v), 0) == v,
{
    lemma_digit_char_value(v / 10);
    lemma_digit_char_value(v % 10);
}

/// The four digits of a year in 0..=9999 read back as the year.
pub proof fn lemma_year_text_value(y: int)
    requires
        0 <= y <= 9999,
    ensures
        year_text(y).len() == 4,
        all_digits(year_text(y), 0, 4),
        number4(year_text(y), 0) == y,
{
    lemma_year_text_digits(y);
    lemma_digit_char_value(y / 1000);
    lemma_digit_char_value((y / 100) % 10);
    lemma_digit_char_value((y / 10) % 10);
    lemma_digit_char_value(y % 10);
    assert(100 * (10 * (y / 1000) + (y / 100) % 10) + 10 * ((y / 10) % 10) + y % 10 == y)
        by (nonlinear_arith)
        requires
            0 <= y <= 9999,
    ;
}

/// The characters of an id (years 0 to 9999), one by one: an id has the shape
/// `YYYYMMDDTHHMMSSZ`.
proof fn lemma_compact_text_chars(f: DateTimeFields)
    requires
        f.wf(),
        0 <= f.year <= 9999,
    ensures
        compact_text(f) == seq![
            digit_char((f.year as int) / 1000),
            digit_char(((f.year as int) / 100) % 10),
            digit_char(((f.year as int) / 10) % 10),
            digit_char((f.year as int) % 10),
            digit_char((f.month as int) / 10),
            digit_char((f.month as int) % 10),
            digit_char((f.day as int) / 10),
            digit_char((f.day as int) % 10),
            'T',
            digit_char((f.hour as int) / 10),
            digit_char((f.hour as int) % 10),
            digit_char((f.minute as int) / 10),
            digit_char((f.minute as int) % 10),
            digit_char(f.displayed_second() / 10),
            digit_char(f.displayed_second() % 10),
            'Z',
        ],
        is_id_shape(compact_text(f)),
{
    let y = f.year as int;
    let sec = f.displayed_second();
    lemma_year_text_digits(y);
    assert(compact_text(f) =~= seq![
        digit_char(y / 1000),
        digit_char((y / 100) % 10),
        digit_char((y / 10) % 10),
        digit_char(y % 10),
        digit_char((f.month as int) / 10),
        digit_char((f.month as int) % 10),
        digit_char((f.day as int) / 10),
        digit_char((f.day as int) % 10),
        'T',
        digit_char((f.hour as int) / 10),
        digit_char((f.hour as int) % 10),
        digit_char((f.minute as int) / 10),
        digit_char((f.minute as int) % 10),
        digit_char(sec / 10),
        digit_char(sec % 10),
        'Z',
    ]);
    lemma_digit_char_value(y / 1000);
    lemma_digit_char_value((y / 100) % 10);
    lemma_digit_char_value((y / 10) % 10);
    lemma_digit_char_value(y % 10);
    lemma_digit_char_value((f.month as int) / 10);
    lemma_digit_char_value((f.month as int) % 10);
    lemma_digit_char_value((f.day as int) / 10);
    lemma_digit_char_value((f.day as int) % 10);
    lemma_digit_char_value((f.hour as int) / 10);
    lemma_digit_char_value((f.hour as int) % 10);
    lemma_digit_char_value((f.minute as int) / 10);
    lemma_digit_char_value((f.minute as int) % 10);
    lemma_digit_char_value(sec / 10);
    lemma_digit_char_value(sec % 10);
}

/// The RFC 3339 rendering of a date and time (years 0 to 9999), with `Z`
/// appended, reads back as the same date and time to the second: the fields an
/// id shows are kept, a displayed second of 60 coming back as a leap second.
pub proof fn lemma_extended_text_reads_back(f: DateTimeFields)
    requires
        f.wf(),
        0 <= f.year <= 9999,
    ensures
        rfc3339_utc_fields(extended_text(f) + seq!['Z']) matches Some(g) && moment_eq(g, f),
{
    let y = f.year as int;
    let sec = f.displayed_second();
    lemma_year_text_digits(y);
    let u = extended_text(f) + seq!['Z'];
    assert(u =~= seq![
        digit_char(y / 1000),
        digit_char((y / 100) % 10),
        digit_char((y / 10) % 10),
        digit_char(y % 10),
        '-',
        digit_char((f.month as int) / 10),
        digit_char((f.month as int) % 10),
        '-',
        digit_char((f.day as int) / 10),
        digit_char((f.day as int) % 10),
        'T',
        digit_char((f.hour as int) / 10),
        digit_char((f.hour as int) % 10),
        ':',
        digit_char((f.minute as int) / 10),
        digit_char((f.minute as int) % 10),
        ':',
        digit_char(sec / 10),
        digit_char(sec % 10),
        'Z',
    ]);
    lemma_digit_char_value(y / 1000);
    lemma_digit_char_value((y / 100) % 10);
    lemma_digit_char_value((y / 10) % 10);
    lemma_digit_char_value(y % 10);
    lemma_digit_char_value((f.month as int) / 10);
    lemma_digit_char_value((f.month as int) % 10);
    lemma_digit_char_value((f.day as int) / 10);
    lemma_digit_char_value((f.day as int) % 10);
    lemma_digit_char_value((f.hour as int) / 10);
    lemma_digit_char_value((f.hour as int) % 10);
    lemma_digit_char_value((f.minute as int) / 10);
    lemma_digit_char_value((f.minute as int) % 10);
    lemma_digit_char_value(sec / 10);
    lemma_digit_char_value(sec % 10);
    assert(number4(u, 0) == y) by {
        assert(100 * (10 * (y / 1000) + (y / 100) % 10) + 10 * ((y / 10) % 10) + y % 10 == y)
            by (nonlinear_arith)
            requires
                0 <= y <= 9999,
        ;
    }
    assert(number2(u, 5) == f.month);
    assert(number2(u, 8) == f.day);
    assert(number2(u, 11) == f.hour);
    assert(number2(u, 14) == f.minute);
    assert(number2(u, 17) == sec);
}

/// The date and time of a canonical id `YYYYMMDDTHHMMSSZ` (digits, `T`, digits,
/// `Z`) whose numbers name a valid date and a time without a leap second.
pub open spec fn canonical_id_fields(s: Seq<char>) -> Option<DateTimeFields> {
    if s.len() == 16 && s[15] == 'Z' {
        stamp_fields(s)
    } else {
        None
    }
}

/// Two digit characters render back from their number.
proof fn lemma_two_digits_of_number(s: Seq<char>, i: int)
    requires
        0 <= i,
        i + 2 <= s.len(),
        is_digit(s[i]),
        is_digit(s[i + 1]),
    ensures
        two_digits(number2(s, i)) == s.subrange(i, i + 2),
        0 <= number2(s, i) <= 99,
{
    let a = digit_value(s[i]);
    let b = digit_value(s[i + 1]);
    assert((10 * a + b) / 10 == a);
    assert((10 * a + b) % 10 == b);
    lemma_digit_char_of_value(s[i]);
    lemma_digit_char_of_value(s[i + 1]);
    assert(two_digits(number2(s, i)) =~= s.subrange(i, i + 2));
}

/// A canonical id is the rendering (`%Y%m%dT%H%M%SZ`) of its own date and time,
/// and with its `Z` read as `+0000` it is the stamp of that date and time.
#[verifier::rlimit(40)]
pub proof fn lemma_canonical_id_renders_back(s: Seq<char>)
    requires
        canonical_id_fields(s) is Some,
    ensures
        canonical_id_fields(s)->0.wf(),
        compact_text(canonical_id_fields(s)->0) == s,
        utc_offset_stamp_fields(s.drop_last() + seq!['+', '0', '0', '0', '0'])
            == canonical_id_fields(s),
{
    let f = canonical_id_fields(s)->0;
    lemma_two_digits_of_number(s, 0);
    lemma_two_digits_of_number(s, 2);
    lemma_two_digits_of_number(s, 4);
    lemma_two_digits_of_number(s, 6);
    lemma_two_digits_of_number(s, 9);
    lemma_two_digits_of_number(s, 11);
    lemma_two_digits_of_number(s, 13);
    let y = number4(s, 0);
    lemma_year_text_digits(y);
    let (a, b, c, d) = (
        digit_value(s[0]),
        digit_value(s[1]),
        digit_value(s[2]),
        digit_value(s[3]),
    );
    assert(y == 1000 * a + 100 * b + 10 * c + d);
    assert(y / 1000 == a);
    assert((y / 100) % 10 == b);
    assert((y / 10) % 10 == c);
    assert(y % 10 == d);
    lemma_digit_char_of_value(s[0]);
    lemma_digit_char_of_value(s[1]);
    lemma_digit_char_of_value(s[2]);
    lemma_digit_char_of_value(s[3]);
    assert(year_text(f.year as int) =~= s.subrange(0, 4));
    assert(f.displayed_second() == f.second);
    assert(compact_text(f) =~= s);
    let t = s.drop_last() + seq!['+', '0', '0', '0', '0'];
    assert(t.subrange(15, 20) =~= seq!['+', '0', '0', '0', '0']);
    assert forall|i: int| 0 <= i < 15 implies t[i] == s[i] by {}
    assert(stamp_fields(t) == stamp_fields(s));
}

/// Two-digit renderings order and compare as their numbers.
proof fn lemma_two_digits_order(v: int, w: int)
    requires
        0 <= v <= 99,
        0 <= w <= 99,
    ensures
        seq_lt(two_digits(v), two_digits(w)) == (v < w),
        (two_digits(v) == two_digits(w)) == (v == w),
{
    reveal_with_fuel(seq_lt, 3);
    lemma_digit_char_value(v / 10);
    lemma_digit_char_value(v % 10);
    lemma_digit_char_value(w / 10);
    lemma_digit_char_value(w % 10);
    let x = two_digits(v);
    let y = two_digits(w);
    assert(x.drop_first() =~= seq![digit_char(v % 10)]);
    assert(y.drop_first() =~= seq![digit_char(w % 10)]);
    if x == y {
        assert(x[0] == y[0] && x[1] == y[1]);
    }
}

/// A four-digit year renders as its hundreds and its remainder, two digits each.
proof fn lemma_year_text_split(v: int)
    requires
        0 <= v <= 9999,
    ensures
        year_text(v) == two_digits(v / 100) + two_digits(v % 100),
{
    lemma_year_text_digits(v);
    assert((v / 100) / 10 == v / 1000) by (nonlinear_arith)
        requires
            0 <= v <= 9999,
    ;
    assert((v % 100) / 10 == (v / 10) % 10) by (nonlinear_arith)
        requires
            0 <= v <= 9999,
    ;
    assert((v % 100) % 10 == v % 10) by (nonlinear_arith)
        requires
            0 <= v <= 9999,
    ;
    assert(year_text(v) =~= two_digits(v / 100) + two_digits(v % 100));
}

/// Four-digit year renderings order and compare as the years.
proof fn lemma_year_text_order(v: int, w: int)
    requires
        0 <= v <= 9999,
        0 <= w <= 9999,
    ensures
        seq_lt(year_text(v), year_text(w)) == (v < w),
        (year_text(v) == year_text(w)) == (v == w),
{
    lemma_year_text_split(v);
    lemma_year_text_split(w);
    lemma_seq_lt_concat(two_digits(v / 100), two_digits(v % 100), two_digits(w / 100), two_digits(w % 100));
    lemma_two_digits_order(v / 100, w / 100);
    lemma_two_digits_order(v % 100, w % 100);
}

/// The moment `a` comes before `b`, field by field as an id shows them
/// (year, month, day, hour, minute, second as `%S` prints it).
pub open spec fn moment_lt(a: DateTimeFields, b: DateTimeFields) -> bool {
    a.year < b.year || (a.year == b.year && (a.month < b.month || (a.month == b.month && (a.day
        < b.day || (a.day == b.day && (a.hour < b.hour || (a.hour == b.hour && (a.minute
        < b.minute || (a.minute == b.minute && a.displayed_second() < b.displayed_second())))))))))
}

/// The moments agree in every field an id shows.
pub open spec fn moment_eq(a: DateTimeFields, b: DateTimeFields) -> bool {
    a.year == b.year && a.month == b.month && a.day == b.day && a.hour == b.hour && a.minute
        == b.minute && a.displayed_second() == b.displayed_second()
}

/// Ids (years 0 to 9999) have the shape `YYYYMMDDTHHMMSSZ` and sort as the
/// moments they name: one id sorts before another exactly when its moment is
/// earlier, and two ids are equal exactly when their moments agree to the second.
pub proof fn lemma_id_order_is_time_order(a: DateTimeFields, b: DateTimeFields)
    requires
        a.wf(),
        b.wf(),
        0 <= a.year <= 9999,
        0 <= b.year <= 9999,
    ensures
        is_id_shape(compact_text(a)),
        is_id_shape(compact_text(b)),
        seq_lt(compact_text(a), compact_text(b)) == moment_lt(a, b),
        (compact_text(a) == compact_text(b)) == moment_eq(a, b),
{
    lemma_compact_text_chars(a);
    lemma_compact_text_chars(b);
    lemma_year_text_digits(a.year as int);
    lemma_year_text_digits(b.year as int);
    lemma_year_text_order(a.year as int, b.year as int);
    lemma_two_digits_order(a.month as int, b.month as int);
    lemma_two_digits_order(a.day as int, b.day as int);
    lemma_two_digits_order(a.hour as int, b.hour as int);
    lemma_two_digits_order(a.minute as int, b.minute as int);
    lemma_two_digits_order(a.displayed_second(), b.displayed_second());
    let (y1, y2) = (year_text(a.year as int), year_text(b.year as int));
    let (m1, m2) = (two_digits(a.month as int), two_digits(b.month as int));
    let (d1, d2) = (two_digits(a.day as int), two_digits(b.day as int));
    let (h1, h2) = (two_digits(a.hour as int), two_digits(b.hour as int));
    let (i1, i2) = (two_digits(a.minute as int), two_digits(b.minute as int));
    let (s1, s2) = (two_digits(a.displayed_second()), two_digits(b.displayed_second()));
    let t = seq!['T'];
    let z = seq!['Z'];
    let p2a = y1 + m1;
    let p2b = y2 + m2;
    let p3a = p2a + d1;
    let p3b = p2b + d2;
    let p4a = p3a + t;
    let p4b = p3b + t;
    let p5a = p4a + h1;
    let p5b = p4b + h2;
    let p6a = p5a + i1;
    let p6b = p5b + i2;
    let p7a = p6a + s1;
    let p7b = p6b + s2;
    lemma_seq_lt_concat(y1, m1, y2, m2);
    lemma_seq_lt_concat(p2a, d1, p2b, d2);
    lemma_seq_lt_concat(p3a, t, p3b, t);
    lemma_seq_lt_concat(p4a, h1, p4b, h2);
    lemma_seq_lt_concat(p5a, i1, p5b, i2);
    lemma_seq_lt_concat(p6a, s1, p6b, s2);
    lemma_seq_lt_concat(p7a, z, p7b, z);
    reveal_with_fuel(seq_lt, 2);
    assert(!seq_lt(t, t));
    assert(!seq_lt(z, z));
    assert(compact_text(a) == p7a + z);
    assert(compact_text(b) == p7b + z);
}

} // verus!
