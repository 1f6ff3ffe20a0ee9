//! `list`: the notes, newest or oldest first, optionally restricted to an id
//! range or to one day, each shown as its id and the start of its text.
use vstd::prelude::*;
use crate::datetime::{
    checked_next_day, compact_string, compact_text, date_compact_text, date_parse, id_parse,
    parse_date, parse_id_fields, push_date_compact, CalendarDate, DateTimeFields, ParseErrorKind,
    canonical_id_fields, ends_in_z, lemma_canonical_id_renders_back,
};
use crate::text::{
    from_utf8_lossy, opt_view, push_char, push_chars, seq_lt, str_eq, str_lt, utf8_lossy,
};

verus! {

/// The order in which notes are listed.
#[derive(Clone, Copy, Debug, PartialEq, Eq, Structural)]
pub enum Order {
    Asc,
    Desc,
}

/// Arguments of `list`.
pub struct Args {
    /// Date to list (`YYYY-MM-DD`), equivalent to `--since {date} --until {date+1d}`.
    pub date: Option<String>,
    /// Limit the number of results.
    pub limit: usize,
    /// Sort the results.
    pub order: Order,
    /// List entries since this id (inclusive).
    pub since: Option<String>,
    /// List entries until this id (exclusive).
    pub until: Option<String>,
}

/// A string that looks like an id, e.g. `20231001T123456Z`,
/// `20231001T123456+0900` or `20231001T123456-0900`, held as its UTC date and time.
#[derive(Clone, Copy, Debug)]
pub struct IdLike {
    utc: DateTimeFields,
}

impl View for IdLike {
    type V = DateTimeFields;

    closed spec fn view(&self) -> DateTimeFields {
        self.utc
    }
}

/// Why `list` cannot run.
#[derive(Debug, PartialEq, Eq)]
pub enum ListError {
    /// A date was given together with `--since` or `--until`.
    DateWithSinceOrUntil,
    /// The date is not `YYYY-MM-DD` as chrono reads it.
    InvalidDate(ParseErrorKind),
    /// The date is the last one chrono can represent: it has no following day.
    DateOutOfRange,
    /// The text does not look like an id.
    InvalidIdLike(String),
    /// A file name is not UTF-8 and so cannot be compared with an id.
    FileNameNotUtf8,
}

/// The view of a `ListError`.
pub enum ListErrorView {
    DateWithSinceOrUntil,
    InvalidDate(ParseErrorKind),
    DateOutOfRange,
    InvalidIdLike(Seq<char>),
    FileNameNotUtf8,
}

impl View for ListError {
    type V = ListErrorView;

    open spec fn view(&self) -> ListErrorView {
        match self {
            ListError::DateWithSinceOrUntil => ListErrorView::DateWithSinceOrUntil,
            ListError::InvalidDate(k) => ListErrorView::InvalidDate(*k),
            ListError::DateOutOfRange => ListErrorView::DateOutOfRange,
            ListError::InvalidIdLike(s) => ListErrorView::InvalidIdLike(s@),
            ListError::FileNameNotUtf8 => ListErrorView::FileNameNotUtf8,
        }
    }
}

/// An id-like text ending in `Z`, with that `Z` written as the offset `+0000`.
pub open spec fn zulu_as_utc_offset(s: Seq<char>) -> Seq<char> {
    s.drop_last() + seq!['+', '0', '0', '0', '0']
}

/// The UTC date and time that an id-like text denotes: read with offset
/// (`%Y%m%dT%H%M%S%z`), or else, when it ends in `Z`, with that `Z` read as `+0000`.
pub open spec fn id_like_parse(s: Seq<char>) -> Option<DateTimeFields> {
    match id_parse(s) {
        Ok(f) => Some(f),
        Err(_) => if s.len() > 0 && s.last() == 'Z' {
            match id_parse(zulu_as_utc_offset(s)) {
                Ok(f) => Some(f),
                Err(_) => None,
            }
        } else {
            None
        },
    }
}

/// What `id_like_parse` gives when the text is read only with its `Z` as `+0000`.
pub open spec fn zulu_read_as_offset(s: Seq<char>) -> Option<DateTimeFields> {
    match id_parse(zulu_as_utc_offset(s)) {
        Ok(f) => Some(f),
        Err(_) => None,
    }
}

impl IdLike {
    #[verifier::type_invariant]
    spec fn inv(self) -> bool {
        self.utc.wf()
    }

    /// Reads an id-like text (see `id_like_parse`) into a valid UTC date and
    /// time (`wf`, so the order of `to_string` ids is the order of time, see
    /// `lemma_id_order_is_time_order`). A text ending in `Z` reads
    /// exactly as with `+0000` in place of the `Z`; a canonical id
    /// `YYYYMMDDTHHMMSSZ` naming a valid date and time always reads, as that
    /// date and time, and `to_string` gives the same id back.
    pub fn from_str(s: &str) -> (r: Result<IdLike, ListError>)
        ensures
            match r {
                Ok(x) => id_like_parse(s@) == Some(x@),
                Err(e) => id_like_parse(s@) is None && e@ == ListErrorView::InvalidIdLike(s@),
            },
            ends_in_z(s@) ==> (id_like_parse(s@) == zulu_read_as_offset(s@)),
            canonical_id_fields(s@) is Some ==> (r is Ok && id_like_parse(s@) == canonical_id_fields(s@)),
            r matches Ok(x) ==> x@.wf(),
            r matches Ok(x) ==> (canonical_id_fields(s@) is Some ==> compact_text(x@) == s@),
    {
        if let Ok(f) = parse_id_fields(s) {
            return Ok(IdLike { utc: f });
        }
        proof {
            if canonical_id_fields(s@) is Some {
                lemma_canonical_id_renders_back(s@);
            }
        }
        let n = s.unicode_len();
        if n > 0 && s.get_char(n - 1) == 'Z' {
            let mut t = String::new();
            push_chars(&mut t, s, 0, n - 1);
            t.append("+0000");
            proof {
                reveal_strlit("+0000");
                assert(s@.subrange(0, n - 1) == s@.drop_last());
                assert(t@ == s@.drop_last() + seq!['+', '0', '0', '0', '0']);
            }
            if let Ok(f) = parse_id_fields(t.as_str()) {
                return Ok(IdLike { utc: f });
            }
        }
        let mut e = String::new();
        e.append(s);
        Err(ListError::InvalidIdLike(e))
    }

    /// The id form of the UTC date and time, `%Y%m%dT%H%M%SZ` (an offset becomes `Z`).
    pub fn to_string(&self) -> (r: String)
        ensures
            r@ == compact_text(self@),
    {
        proof {
            use_type_invariant(self);
        }
        compact_string(&self.utc)
    }
}

/// The id text of the first moment of a day: `%Y%m%d` then `T000000Z`.
pub open spec fn day_start_text(d: CalendarDate) -> Seq<char> {
    date_compact_text(d.year as int, d.month as int, d.day as int) + seq![
        'T',
        '0',
        '0',
        '0',
        '0',
        '0',
        '0',
        'Z',
    ]
}

/// One end of the range: absent, or the UTC moment of an id-like text.
pub open spec fn bound_spec(s: Option<Seq<char>>) -> Result<Option<DateTimeFields>, ListErrorView> {
    match s {
        None => Ok(None),
        Some(t) => match id_like_parse(t) {
            Some(f) => Ok(Some(f)),
            None => Err(ListErrorView::InvalidIdLike(t)),
        },
    }
}

/// The `since`/`until` range that `list` filters by, from its arguments: a
/// date stands for its first moment and the first moment of the next day;
/// otherwise `since` and `until` are read as ids. The first failure is reported.
pub open spec fn range_spec(
    date: Option<Seq<char>>,
    since: Option<Seq<char>>,
    until: Option<Seq<char>>,
) -> Result<(Option<DateTimeFields>, Option<DateTimeFields>), ListErrorView> {
    match date {
        Some(d) => if since is Some || until is Some {
            Err(ListErrorView::DateWithSinceOrUntil)
        } else {
            match date_parse(d) {
                Err(k) => Err(ListErrorView::InvalidDate(k)),
                Ok(cd) => match bound_spec(Some(day_start_text(cd))) {
                    Err(e) => Err(e),
                    Ok(lo) => if cd.is_last() {
                        Err(ListErrorView::DateOutOfRange)
                    } else {
                        match bound_spec(Some(day_start_text(cd.next_day()))) {
                            Err(e) => Err(e),
                            Ok(hi) => Ok((lo, hi)),
                        }
                    },
                },
            }
        },
        None => match bound_spec(since) {
            Err(e) => Err(e),
            Ok(lo) => match bound_spec(until) {
                Err(e) => Err(e),
                Ok(hi) => Ok((lo, hi)),
            },
        },
    }
}

pub open spec fn id_like_view(o: Option<IdLike>) -> Option<DateTimeFields> {
    match o {
        Some(x) => Some(x@),
        None => None,
    }
}

/// Reads one end of the range.
fn parse_bound(s: &Option<String>) -> (r: Result<Option<IdLike>, ListError>)
    ensures
        match (r, bound_spec(opt_view(*s))) {
            (Ok(x), Ok(y)) => id_like_view(x) == y,
            (Err(e), Err(f)) => e@ == f,
            _ => false,
        },
{
    match s {
        None => Ok(None),
        Some(t) => match IdLike::from_str(t.as_str()) {
            Ok(x) => Ok(Some(x)),
            Err(e) => Err(e),
        },
    }
}

/// The id text of the first moment of the day `d`.
fn day_start_string(d: &CalendarDate) -> (r: String)
    requires
        d.valid(),
    ensures
        r@ == day_start_text(*d),
{
    let mut s = String::new();
    push_date_compact(&mut s, d.year, d.month, d.day);
    s.append("T000000Z");
    proof {
        reveal_strlit("T000000Z");
    }
    s
}

/// The `since`/`until` range of `list` (see `range_spec`).
pub fn resolve_range(args: &Args) -> (r: Result<(Option<IdLike>, Option<IdLike>), ListError>)
    ensures
        match (r, range_spec(opt_view(args.date), opt_view(args.since), opt_view(args.until))) {
            (Ok((a, b)), Ok((x, y))) => id_like_view(a) == x && id_like_view(b) == y,
            (Err(e), Err(f)) => e@ == f,
            _ => false,
        },
{
    match &args.date {
        Some(date) => {
            if args.since.is_some() || args.until.is_some() {
                return Err(ListError::DateWithSinceOrUntil);
            }
            let day = match parse_date(date.as_str()) {
                Ok(d) => d,
                Err(k) => return Err(ListError::InvalidDate(k)),
            };
            let since = match IdLike::from_str(day_start_string(&day).as_str()) {
                Ok(x) => x,
                Err(e) => return Err(e),
            };
            let next = match checked_next_day(day) {
                Some(n) => n,
                None => return Err(ListError::DateOutOfRange),
            };
            let until = match IdLike::from_str(day_start_string(&next).as_str()) {
                Ok(x) => x,
                Err(e) => return Err(e),
            };
            Ok((Some(since), Some(until)))
        },
        None => {
            let since = match parse_bound(&args.since) {
                Ok(x) => x,
                Err(e) => return Err(e),
            };
            let until = match parse_bound(&args.until) {
                Ok(x) => x,
                Err(e) => return Err(e),
            };
            Ok((since, until))
        },
    }
}

/// Listing one day is listing from its first moment (inclusive) to the first
/// moment of the next day (exclusive): `list D` and
/// `list --since DT000000Z --until (D+1)T000000Z` resolve to the same range.
pub proof fn lemma_date_is_day_range(d: Seq<char>)
    requires
        date_parse(d) is Ok,
        !date_parse(d)->Ok_0.is_last(),
    ensures
        ({
            let cd = date_parse(d)->Ok_0;
            range_spec(Some(d), None, None) == range_spec(
                None,
                Some(day_start_text(cd)),
                Some(day_start_text(cd.next_day())),
            )
        }),
{
}

/// The file name of a walked entry, as far as `list` can read it.
#[derive(Debug)]
pub enum FileName {
    /// The path has no file name.
    Missing,
    /// The file name is not UTF-8.
    NotUtf8,
    Utf8(String),
}

pub enum FileNameView {
    Missing,
    NotUtf8,
    Utf8(Seq<char>),
}

impl View for FileName {
    type V = FileNameView;

    open spec fn view(&self) -> FileNameView {
        match self {
            FileName::Missing => FileNameView::Missing,
            FileName::NotUtf8 => FileNameView::NotUtf8,
            FileName::Utf8(s) => FileNameView::Utf8(s@),
        }
    }
}

/// What to do with a walked entry.
#[derive(Clone, Copy, Debug, PartialEq, Eq, Structural)]
pub enum EntryDecision {
    /// Not listed.
    Skip,
    /// Listed; more may follow.
    Take,
    /// Listed, and the limit is reached: the walk stops.
    TakeLast,
}

/// The entry selection of `list`: the range as id texts, the limit, and how
/// many entries were taken so far.
pub struct EntryFilter {
    since: Option<String>,
    until: Option<String>,
    limit: usize,
    taken: usize,
}

pub struct EntryFilterView {
    pub since: Option<Seq<char>>,
    pub until: Option<Seq<char>>,
    pub limit: nat,
    pub taken: nat,
}

impl EntryFilterView {
    /// The limit is reached: `limit` entries were taken (at once when `limit` is 0).
    pub open spec fn finished(self) -> bool {
        self.taken >= self.limit
    }
}

impl View for EntryFilter {
    type V = EntryFilterView;

    closed spec fn view(&self) -> EntryFilterView {
        EntryFilterView {
            since: opt_view(self.since),
            until: opt_view(self.until),
            limit: self.limit as nat,
            taken: self.taken as nat,
        }
    }
}

pub open spec fn id_text_view(o: Option<IdLike>) -> Option<Seq<char>> {
    match o {
        Some(x) => Some(compact_text(x@)),
        None => None,
    }
}

/// Whether the entry lies before `since` (an error when its name cannot be compared).
pub open spec fn below_since(since: Option<Seq<char>>, name: FileNameView) -> Result<bool, ListErrorView> {
    match since {
        None => Ok(false),
        Some(s) => match name {
            FileNameView::Missing => Ok(false),
            FileNameView::NotUtf8 => Err(ListErrorView::FileNameNotUtf8),
            FileNameView::Utf8(n) => Ok(seq_lt(n, s)),
        },
    }
}

/// Whether the entry lies at or after `until` (an error when its name cannot be compared).
pub open spec fn from_until(until: Option<Seq<char>>, name: FileNameView) -> Result<bool, ListErrorView> {
    match until {
        None => Ok(false),
        Some(u) => match name {
            FileNameView::Missing => Ok(false),
            FileNameView::NotUtf8 => Err(ListErrorView::FileNameNotUtf8),
            FileNameView::Utf8(n) => Ok(!seq_lt(n, u)),
        },
    }
}

/// The decision on one entry: skipped when its name sorts before `since` or
/// not before `until`; otherwise taken, the last one once `limit` entries are taken.
pub open spec fn decide(f: EntryFilterView, name: FileNameView) -> Result<EntryDecision, ListErrorView> {
    match below_since(f.since, name) {
        Err(e) => Err(e),
        Ok(true) => Ok(EntryDecision::Skip),
        Ok(false) => match from_until(f.until, name) {
            Err(e) => Err(e),
            Ok(true) => Ok(EntryDecision::Skip),
            Ok(false) => Ok(
                if f.taken + 1 >= f.limit {
                    EntryDecision::TakeLast
                } else {
                    EntryDecision::Take
                },
            ),
        },
    }
}

/// Whether `name` is below the bound `b` (the `since` test).
fn name_below(b: &Option<String>, name: &FileName) -> (r: Result<bool, ListError>)
    ensures
        match (r, below_since(opt_view(*b), name@)) {
            (Ok(x), Ok(y)) => x == y,
            (Err(e), Err(f)) => e@ == f,
            _ => false,
        },
{
    match b {
        None => Ok(false),
        Some(s) => match name {
            FileName::Missing => Ok(false),
            FileName::NotUtf8 => Err(ListError::FileNameNotUtf8),
            FileName::Utf8(n) => Ok(str_lt(n.as_str(), s.as_str())),
        },
    }
}

/// Whether `name` is at or above the bound `b` (the `until` test).
fn name_at_or_above(b: &Option<String>, name: &FileName) -> (r: Result<bool, ListError>)
    ensures
        match (r, from_until(opt_view(*b), name@)) {
            (Ok(x), Ok(y)) => x == y,
            (Err(e), Err(f)) => e@ == f,
            _ => false,
        },
{
    match b {
        None => Ok(false),
        Some(s) => match name {
            FileName::Missing => Ok(false),
            FileName::NotUtf8 => Err(ListError::FileNameNotUtf8),
            FileName::Utf8(n) => Ok(!str_lt(n.as_str(), s.as_str())),
        },
    }
}

fn id_text(o: Option<IdLike>) -> (r: Option<String>)
    ensures
        opt_view(r) == id_text_view(o),
{
    match o {
        Some(x) => Some(x.to_string()),
        None => None,
    }
}

impl EntryFilter {
    /// A filter over the range `since..until` taking at most `limit` entries.
    pub fn new(since: Option<IdLike>, until: Option<IdLike>, limit: usize) -> (r: EntryFilter)
        ensures
            r@ == (EntryFilterView {
                since: id_text_view(since),
                until: id_text_view(until),
                limit: limit as nat,
                taken: 0,
            }),
    {
        EntryFilter { since: id_text(since), until: id_text(until), limit, taken: 0 }
    }

    /// Whether the limit is reached; the walk stops (or does not begin) then.
    pub fn is_finished(&self) -> (r: bool)
        ensures
            r == self@.finished(),
    {
        self.taken >= self.limit
    }

    /// Decides on the next walked entry, in walk order.
    pub fn step(&mut self, name: &FileName) -> (r: Result<EntryDecision, ListError>)
        requires
            !old(self)@.finished(),
        ensures
            match (r, decide(old(self)@, name@)) {
                (Ok(x), Ok(y)) => x == y,
                (Err(e), Err(f)) => e@ == f,
                _ => false,
            },
            final(self)@.since == old(self)@.since,
            final(self)@.until == old(self)@.until,
            final(self)@.limit == old(self)@.limit,
            final(self)@.taken == old(self)@.taken + (if r matches Ok(d) && d != EntryDecision::Skip {
                1int
            } else {
                0int
            }),
            final(self)@.finished() <==> r == Ok::<EntryDecision, ListError>(EntryDecision::TakeLast),
    {
        match name_below(&self.since, name) {
            Err(e) => return Err(e),
            Ok(true) => return Ok(EntryDecision::Skip),
            Ok(false) => {},
        }
        match name_at_or_above(&self.until, name) {
            Err(e) => return Err(e),
            Ok(true) => return Ok(EntryDecision::Skip),
            Ok(false) => {},
        }
        self.taken = self.taken + 1;
        if self.taken >= self.limit {
            Ok(EntryDecision::TakeLast)
        } else {
            Ok(EntryDecision::Take)
        }
    }
}

/// A listed entry lies in the range: its name does not sort before `since`
/// (inclusive) and sorts before `until` (exclusive).
pub proof fn lemma_taken_entry_in_range(f: EntryFilterView, name: Seq<char>)
    requires
        decide(f, FileNameView::Utf8(name)) matches Ok(d) && d != EntryDecision::Skip,
    ensures
        f.since matches Some(s) ==> !seq_lt(name, s),
        f.until matches Some(u) ==> seq_lt(name, u),
{
}

/// Whether an entry's name lies in the filter's range.
pub open spec fn in_range(f: EntryFilterView, name: FileNameView) -> bool {
    below_since(f.since, name) == Ok::<bool, ListErrorView>(false) && from_until(f.until, name)
        == Ok::<bool, ListErrorView>(false)
}

/// The entries that a walk over `names` (in walk order) lists: none once the
/// filter is finished; otherwise the filter is stepped on each name, and the
/// walk stops after `TakeLast`; or the first error.
pub open spec fn listed(f: EntryFilterView, names: Seq<FileNameView>) -> Result<
    Seq<FileNameView>,
    ListErrorView,
>
    decreases names.len(),
{
    if f.finished() || names.len() == 0 {
        Ok(seq![])
    } else {
        match decide(f, names[0]) {
            Err(e) => Err(e),
            Ok(EntryDecision::Skip) => listed(f, names.drop_first()),
            Ok(EntryDecision::Take) => match listed(
                EntryFilterView { taken: f.taken + 1, ..f },
                names.drop_first(),
            ) {
                Ok(rest) => Ok(seq![names[0]] + rest),
                Err(e) => Err(e),
            },
            Ok(EntryDecision::TakeLast) => Ok(seq![names[0]]),
        }
    }
}

/// A listing holds at most `limit` entries (none when `limit` is 0), each in
/// the range: at or after `since`, before `until`.
pub proof fn lemma_listing_bounded_and_in_range(f: EntryFilterView, names: Seq<FileNameView>)
    requires
        f.taken <= f.limit,
    ensures
        listed(f, names) matches Ok(l) ==> {
            &&& f.taken + l.len() <= f.limit
            &&& forall|i: int| 0 <= i < l.len() ==> in_range(f, #[trigger] l[i])
        },
    decreases names.len(),
{
    if !f.finished() && names.len() > 0 {
        let g = EntryFilterView { taken: f.taken + 1, ..f };
        match decide(f, names[0]) {
            Ok(EntryDecision::Skip) => {
                lemma_listing_bounded_and_in_range(f, names.drop_first());
            },
            Ok(EntryDecision::Take) => {
                lemma_listing_bounded_and_in_range(g, names.drop_first());
                if let Ok(l) = listed(f, names) {
                    let rest = listed(g, names.drop_first())->Ok_0;
                    assert(l == seq![names[0]] + rest);
                    assert forall|i: int| 0 <= i < l.len() implies in_range(f, #[trigger] l[i]) by {
                        if i > 0 {
                            assert(l[i] == rest[i - 1]);
                        }
                    }
                }
            },
            _ => {},
        }
    }
}

/// A walk lists every entry in the range until the limit: over names that all
/// lie in the range, it lists the first `limit - taken` of them, or all of them
/// when there are fewer (a new filter has taken none, so `min(n, limit)`).
pub proof fn lemma_listing_takes_up_to_limit(f: EntryFilterView, names: Seq<FileNameView>)
    requires
        f.taken <= f.limit,
        forall|i: int| 0 <= i < names.len() ==> in_range(f, #[trigger] names[i]),
    ensures
        listed(f, names) == Ok::<Seq<FileNameView>, ListErrorView>(
            names.take(
                if names.len() < f.limit - f.taken {
                    names.len() as int
                } else {
                    f.limit - f.taken
                },
            ),
        ),
    decreases names.len(),
{
    if f.taken >= f.limit || names.len() == 0 {
        assert(names.take(0) =~= Seq::<FileNameView>::empty());
    } else {
        assert(in_range(f, names[0]));
        let g = EntryFilterView { taken: f.taken + 1, ..f };
        let rest = names.drop_first();
        if f.taken + 1 >= f.limit {
            assert(names.take(1) =~= seq![names[0]]);
        } else {
            assert forall|i: int| 0 <= i < rest.len() implies in_range(g, #[trigger] rest[i]) by {
                assert(in_range(f, names[i + 1]));
            }
            lemma_listing_takes_up_to_limit(g, rest);
            let m = if names.len() < f.limit - f.taken {
                names.len() as int
            } else {
                f.limit - f.taken
            };
            assert(seq![names[0]] + rest.take(m - 1) =~= names.take(m));
        }
    }
}

/// Whether a walked entry is a note: four levels below `flow` (`YYYY/MM/DD/file`)
/// with the extension `md`.
pub fn is_note_entry(depth: usize, extension: Option<&str>) -> (r: bool)
    ensures
        r == (depth == 4 && (extension matches Some(e) && e@ == "md"@)),
{
    if depth != 4 {
        return false;
    }
    match extension {
        Some(e) => str_eq(e, "md"),
        None => false,
    }
}

/// U+FFFD, what lossy UTF-8 decoding puts in place of invalid bytes.
pub open spec fn replacement_char() -> char {
    '\u{FFFD}'
}

/// The text without its trailing replacement characters.
pub open spec fn trim_end_replacement(s: Seq<char>) -> Seq<char>
    decreases s.len(),
{
    if s.len() > 0 && s.last() == replacement_char() {
        trim_end_replacement(s.drop_last())
    } else {
        s
    }
}

pub open spec fn newline_as_space(c: char) -> char {
    if c == '\n' {
        ' '
    } else {
        c
    }
}

/// The first 30 characters of the text without trailing replacement
/// characters, with each newline shown as a space.
pub open spec fn preview(s: Seq<char>) -> Seq<char> {
    let t = trim_end_replacement(s);
    let k = if t.len() < 30 {
        t.len()
    } else {
        30
    };
    t.take(k as int).map_values(|c: char| newline_as_space(c))
}

/// A preview is one line of at most 30 characters.
pub proof fn lemma_preview_is_one_line(s: Seq<char>)
    ensures
        preview(s).len() <= 30,
        forall|i: int| 0 <= i < preview(s).len() ==> #[trigger] preview(s)[i] != '\n',
{
}

/// Trimming drops exactly the trailing replacement characters: what is left
/// is a start of the text that does not end in one, and every character after
/// it is one.
pub proof fn lemma_trim_end_replacement_is_start(s: Seq<char>)
    ensures
        trim_end_replacement(s).len() <= s.len(),
        trim_end_replacement(s) == s.take(trim_end_replacement(s).len() as int),
        trim_end_replacement(s).len() == 0 || trim_end_replacement(s).last() != replacement_char(),
        forall|j: int|
            trim_end_replacement(s).len() <= j < s.len() ==> #[trigger] s[j] == replacement_char(),
    decreases s.len(),
{
    if s.len() > 0 && s.last() == replacement_char() {
        let d = s.drop_last();
        lemma_trim_end_replacement_is_start(d);
        let n = trim_end_replacement(d).len() as int;
        assert(d.take(n) =~= s.take(n));
        assert forall|j: int| n <= j < s.len() implies #[trigger] s[j] == replacement_char() by {
            if j < s.len() - 1 {
                assert(s[j] == d[j]);
            }
        }
    } else {
        assert(s.take(s.len() as int) =~= s);
    }
}

/// A preview is the start of the text: its first 30 characters, or all of them
/// when the text without trailing replacement characters is shorter, in order,
/// each newline shown as a space.
pub proof fn lemma_preview_is_start_of_text(s: Seq<char>)
    ensures
        preview(s).len() == if trim_end_replacement(s).len() < 30 {
            trim_end_replacement(s).len()
        } else {
            30
        },
        forall|i: int| 0 <= i < preview(s).len() ==> #[trigger] preview(s)[i] == (if s[i] == '\n' {
            ' '
        } else {
            s[i]
        }),
{
    lemma_trim_end_replacement_is_start(s);
    let t = trim_end_replacement(s);
    assert forall|i: int| 0 <= i < preview(s).len() implies #[trigger] preview(s)[i] == (if s[i]
        == '\n' {
        ' '
    } else {
        s[i]
    }) by {
        assert(t[i] == s.take(t.len() as int)[i]);
    }
}

/// The listing line of a note: its id, a space, and a preview of the
/// bytes read from its file.
pub open spec fn entry_line(id: Seq<char>, content: Seq<u8>) -> Seq<char> {
    id + seq![' '] + preview(utf8_lossy(content))
}

/// The listing line of a note from the decoded text of its file's start:
/// the id, a space, and the preview of the text.
pub fn preview_line(id: &str, t: &str) -> (r: String)
    ensures
        r@ == id@ + seq![' '] + preview(t@),
{
    let n = t.unicode_len();
    let mut end = n;
    assert(t@.subrange(0, n as int) == t@);
    while end > 0 && t.get_char(end - 1) == '\u{FFFD}'
        invariant
            n == t@.len(),
            end <= n,
            trim_end_replacement(t@) == trim_end_replacement(t@.subrange(0, end as int)),
        decreases end,
    {
        assert(t@.subrange(0, end as int).drop_last() == t@.subrange(0, end - 1));
        end = end - 1;
    }
    assert(trim_end_replacement(t@.subrange(0, end as int)) == t@.subrange(0, end as int));
    let k = if end < 30 {
        end
    } else {
        30
    };
    let ghost trimmed = t@.subrange(0, end as int);
    let mut r = String::new();
    r.append(id);
    push_char(&mut r, ' ');
    let ghost head = r@;
    let mut i: usize = 0;
    while i < k
        invariant
            k <= end <= n,
            n == t@.len(),
            trimmed == t@.subrange(0, end as int),
            i <= k,
            r@ == head + trimmed.take(i as int).map_values(|c: char| newline_as_space(c)),
        decreases k - i,
    {
        let c = t.get_char(i);
        let shown = if c == '\n' {
            ' '
        } else {
            c
        };
        push_char(&mut r, shown);
        assert(trimmed.take(i + 1).map_values(|c: char| newline_as_space(c)) == trimmed.take(
            i as int,
        ).map_values(|c: char| newline_as_space(c)).push(shown));
        i = i + 1;
    }
    r
}

/// The listing line of the note with id `id` (the file stem) whose file
/// starts with `content` (what one read of at most 1024 bytes gave): the
/// bytes are decoded lossily, then previewed.
pub fn path_buf_to_line(id: &str, content: &[u8]) -> (r: String)
    ensures
        r@ == entry_line(id@, content@),
{
    let text = from_utf8_lossy(content);
    preview_line(id, text.as_str())
}

} // verus!
