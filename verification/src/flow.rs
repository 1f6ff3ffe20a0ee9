//! Where a note lives: `flow/YYYY/MM/DD/YYYYMMDDTHHMMSSZ.<ext>` under the data
//! directory, and how a note id (`YYYYMMDDTHHMMSSZ`) names that place.
use vstd::prelude::*;
use crate::datetime::{
    compact_string, compact_text, parse_rfc3339_fields, push_two_digits, push_year, rfc3339_parse,
    two_digits, year_text, DateTimeFields, ParseErrorKind,
};
use crate::datetime::{
    extended_text, lemma_extended_text_reads_back, lemma_two_digits_value, lemma_year_text_value,
    number2, number4, rfc3339_utc_fields,
};
use crate::text::{lemma_decimal_digits, lemma_decimal_len_bound, pow10, push_char, push_chars};
use vstd::utf8::{encode_utf8, is_ascii_chars, is_ascii_chars_encode_utf8};

verus! {

/// The directories and the file stem of a note, below `<data_dir>/flow`.
#[derive(Debug, PartialEq, Eq)]
pub struct EntryPath {
    /// `%Y`
    pub year: String,
    /// `%m`
    pub month: String,
    /// `%d`
    pub day: String,
    /// `%Y%m%dT%H%M%SZ`, the note id; the file adds an extension to it.
    pub stem: String,
}

/// The view of an `EntryPath`: its four components.
pub struct EntryPathView {
    pub year: Seq<char>,
    pub month: Seq<char>,
    pub day: Seq<char>,
    pub stem: Seq<char>,
}

impl View for EntryPath {
    type V = EntryPathView;

    open spec fn view(&self) -> EntryPathView {
        EntryPathView { year: self.year@, month: self.month@, day: self.day@, stem: self.stem@ }
    }
}

/// The path components of the note stamped with `f` (`%Y`, `%m`, `%d`, `%Y%m%dT%H%M%SZ`).
pub open spec fn entry_path_spec(f: DateTimeFields) -> EntryPathView {
    EntryPathView {
        year: year_text(f.year as int),
        month: two_digits(f.month as int),
        day: two_digits(f.day as int),
        stem: compact_text(f),
    }
}

/// A note's directories are the date of its own stamp: the month and day
/// directories are two digits that read as the month and the day; the stem
/// starts with the year, month and day directories, in that order; and for the
/// years 0 to 9999 the year directory reads as the year, so the directories
/// are the characters 0..4, 4..6 and 6..8 of the id.
pub proof fn lemma_entry_path_is_date_of_id(f: DateTimeFields)
    requires
        f.wf(),
    ensures
        ({
            let p = entry_path_spec(f);
            &&& p.month.len() == 2 && number2(p.month, 0) == f.month
            &&& p.day.len() == 2 && number2(p.day, 0) == f.day
            &&& p.stem.take(p.year.len() + 4int) == p.year + p.month + p.day
            &&& 0 <= f.year <= 9999 ==> {
                &&& p.year.len() == 4 && number4(p.year, 0) == f.year
                &&& p.year == p.stem.subrange(0, 4)
                &&& p.month == p.stem.subrange(4, 6)
                &&& p.day == p.stem.subrange(6, 8)
            }
        }),
{
    let p = entry_path_spec(f);
    lemma_two_digits_value(f.month as int);
    lemma_two_digits_value(f.day as int);
    let ymd = p.year + p.month + p.day;
    assert(p.stem == ymd + (seq!['T'] + two_digits(f.hour as int) + two_digits(f.minute as int)
        + two_digits(f.displayed_second()) + seq!['Z'])) by {
        assert(p.stem =~= ymd + (seq!['T'] + two_digits(f.hour as int) + two_digits(
            f.minute as int,
        ) + two_digits(f.displayed_second()) + seq!['Z']));
    }
    assert(p.stem.take(p.year.len() + 4int) =~= ymd);
    if 0 <= f.year <= 9999 {
        lemma_year_text_value(f.year as int);
        assert(p.year =~= p.stem.subrange(0, 4));
        assert(p.month =~= p.stem.subrange(4, 6));
        assert(p.day =~= p.stem.subrange(6, 8));
    }
}

/// Why an id names no note.
#[derive(Clone, Copy, Debug, PartialEq, Eq, Structural)]
pub enum IdError {
    /// The id is not 16 bytes long.
    WrongByteLength,
    /// The id is 16 bytes but not 16 characters long.
    WrongCharCount,
    /// The id does not spell a date and time that chrono accepts.
    InvalidDateTime(ParseErrorKind),
}

/// An id of 16 bytes and 16 characters, read as RFC 3339:
/// `YYYYMMDDxHHMMSSx` becomes `YYYY-MM-DDTHH:MM:SSZ`.
/// The characters at positions 8 and 15 are not looked at.
pub open spec fn id_rfc3339_text(id: Seq<char>) -> Seq<char> {
    id.subrange(0, 4) + seq!['-'] + id.subrange(4, 6) + seq!['-'] + id.subrange(6, 8) + seq!['T']
        + id.subrange(9, 11) + seq![':'] + id.subrange(11, 13) + seq![':'] + id.subrange(13, 15)
        + seq!['Z']
}

/// Whether `id` has the length a note id has: `str::len` (bytes) 16 and 16 characters.
pub open spec fn id_has_note_length(id: &str) -> bool {
    id.len() == 16 && id@.len() == 16
}

/// The length error of an id, if any: bytes are checked first, then characters.
pub open spec fn id_length_check(id: &str) -> Option<IdError> {
    if id.len() != 16 {
        Some(IdError::WrongByteLength)
    } else if id@.len() != 16 {
        Some(IdError::WrongCharCount)
    } else {
        None
    }
}

/// What `entry_path_for_id` gives for `id`.
pub open spec fn entry_path_for_id_spec(id: &str) -> Result<EntryPathView, IdError> {
    match id_length_check(id) {
        Some(e) => Err(e),
        None => match rfc3339_parse(id_rfc3339_text(id@)) {
            Ok(f) => Ok(entry_path_spec(f)),
            Err(k) => Err(IdError::InvalidDateTime(k)),
        },
    }
}

/// Checks the length of a note id and rewrites it as RFC 3339 text.
pub fn id_to_rfc3339(id: &str) -> (r: Result<String, IdError>)
    ensures
        match r {
            Ok(s) => id_has_note_length(id) && s@ == id_rfc3339_text(id@),
            Err(e) => id_length_check(id) == Some(e),
        },
{
    if id.len() != 16 {
        return Err(IdError::WrongByteLength);
    }
    if id.unicode_len() != 16 {
        return Err(IdError::WrongCharCount);
    }
    let mut s = String::new();
    push_chars(&mut s, id, 0, 4);
    push_char(&mut s, '-');
    push_chars(&mut s, id, 4, 6);
    push_char(&mut s, '-');
    push_chars(&mut s, id, 6, 8);
    push_char(&mut s, 'T');
    push_chars(&mut s, id, 9, 11);
    push_char(&mut s, ':');
    push_chars(&mut s, id, 11, 13);
    push_char(&mut s, ':');
    push_chars(&mut s, id, 13, 15);
    push_char(&mut s, 'Z');
    Ok(s)
}

/// The path components of the note stamped with the (local) date and time `f`.
pub fn entry_path(f: &DateTimeFields) -> (r: EntryPath)
    requires
        f.wf(),
    ensures
        r@ == entry_path_spec(*f),
{
    let mut year = String::new();
    push_year(&mut year, f.year);
    let mut month = String::new();
    push_two_digits(&mut month, f.month);
    let mut day = String::new();
    push_two_digits(&mut day, f.day);
    let stem = compact_string(f);
    EntryPath { year, month, day, stem }
}

/// The path components of the note with id `id`: the id is checked for length,
/// read as RFC 3339 by chrono, and the result is rendered back as a path.
pub fn entry_path_for_id(id: &str) -> (r: Result<EntryPath, IdError>)
    ensures
        match (r, entry_path_for_id_spec(id)) {
            (Ok(p), Ok(v)) => p@ == v,
            (Err(e), Err(f)) => e == f,
            _ => false,
        },
        id_has_note_length(id) && rfc3339_utc_fields(id_rfc3339_text(id@)) is Some ==> (r matches Ok(p)
            && p@ == entry_path_spec(rfc3339_utc_fields(id_rfc3339_text(id@))->0)),
{
    let text = match id_to_rfc3339(id) {
        Ok(t) => t,
        Err(e) => return Err(e),
    };
    match parse_rfc3339_fields(text.as_str()) {
        Ok(f) => Ok(entry_path(&f)),
        Err(k) => Err(IdError::InvalidDateTime(k)),
    }
}

/// A note's id leads back to the note: the id `compact_text(f)` of the note
/// stamped at `f` (years 0 to 9999) is 16 ASCII characters and 16 bytes, so
/// `edit` and `show` accept it; they read it as the RFC 3339 text of the same
/// date and time (`%Y-%m-%dT%H:%M:%S` and `Z`), which chrono reads back to the
/// second; and the path they then build is the path of the note stamped at `f`.
pub proof fn lemma_note_id_round_trip(f: DateTimeFields, id: &str)
    requires
        f.wf(),
        0 <= f.year <= 9999,
        id@ == compact_text(f),
    ensures
        is_ascii_chars(id@),
        id_has_note_length(id),
        id_rfc3339_text(id@) == extended_text(f) + seq!['Z'],
        rfc3339_utc_fields(id_rfc3339_text(id@)) is Some,
        entry_path_spec(rfc3339_utc_fields(id_rfc3339_text(id@))->0) == entry_path_spec(f),
{
    let y = f.year as nat;
    assert(pow10(4) == 10000) by {
        reveal_with_fuel(pow10, 5);
    }
    lemma_decimal_len_bound(y, 4);
    lemma_decimal_digits(y);
    let yt = year_text(f.year as int);
    assert(yt.len() == 4);
    assert(is_ascii_chars(yt));
    let t = compact_text(f);
    assert(t.len() == 16);
    assert(is_ascii_chars(t)) by {
        assert forall|i: int| 0 <= i < t.len() implies '\0' <= #[trigger] t[i] <= '\u{7f}' by {
            if i < 4 {
                assert(t[i] == yt[i]);
            }
        }
    }
    is_ascii_chars_encode_utf8(t);
    assert(encode_utf8(t).len() == 16);
    assert(id_rfc3339_text(t) =~= extended_text(f) + seq!['Z']);
    lemma_extended_text_reads_back(f);
    let g = rfc3339_utc_fields(extended_text(f) + seq!['Z'])->0;
    assert(compact_text(g) == compact_text(f));
}

} // verus!
