use vstd::prelude::*;

use crate::cli::ListArgs;
use crate::dates::{
    chrono_parse_ymd, chrono_rfc3339, chrono_ymd_error, date_midnight_utc, instant_before, midnight_utc,
    is_before, rfc3339_parse, ymd_parse, Instant,
};
use crate::models::{opt_view, CalendarEvent, EventDateTime};
use crate::text::{contains, seq_views, lemma_lex_irreflexive, lemma_lex_total, lemma_lex_transitive, lex_less, seq_contains, std_lowercase, str_eq, str_less, to_lowercase};

verus! {

// ---------------------------------------------------------------------------
// Dates of the filters
// ---------------------------------------------------------------------------

/// A filter date that is neither RFC 3339 nor `YYYY-MM-DD`, with the date parser's own
/// account of why.
#[derive(Debug)]
pub struct FilterDateError {
    pub input: String,
    pub cause: String,
}

impl FilterDateError {
    /// The lines that report the error: the message, then its cause.
    pub fn chain(&self) -> (r: Vec<String>)
        ensures
            seq_views(r@) == seq!["cannot parse '"@ + self.input@ + "' as RFC3339 or YYYY-MM-DD"@, self.cause@],
    {
        let mut out: Vec<String> = Vec::new();
        out.push(self.message());
        out.push(self.cause.clone());
        assert(seq_views(out@) =~= seq!["cannot parse '"@ + self.input@ + "' as RFC3339 or YYYY-MM-DD"@, self.cause@]);
        out
    }

    /// The message that reports the error.
    pub fn message(&self) -> (r: String)
        ensures
            r@ == "cannot parse '"@ + self.input@ + "' as RFC3339 or YYYY-MM-DD"@,
    {
        let mut m = String::from_str("cannot parse '");
        m.append(self.input.as_str());
        m.append("' as RFC3339 or YYYY-MM-DD");
        m
    }
}

/// The instant that a filter date names: an RFC 3339 date-time, or midnight UTC at the
/// start of a `YYYY-MM-DD` date.
pub open spec fn filter_date_instant(s: Seq<char>) -> Option<Instant> {
    match chrono_rfc3339(s) {
        Some(p) => Some(p.1),
        None => match chrono_parse_ymd(s) {
            Some(d) => Some(midnight_utc(d)),
            None => None,
        },
    }
}

/// Parse a filter date (RFC 3339, or `YYYY-MM-DD` taken as midnight UTC).
pub fn parse_filter_date(s: &str) -> (r: Result<Instant, FilterDateError>)
    ensures
        match r {
            Ok(t) => filter_date_instant(s@) == Some(t),
            Err(e) => filter_date_instant(s@) is None && e.input@ == s@ && e.cause@ == chrono_ymd_error(s@),
        },
{
    if let Some(t) = rfc3339_parse(s) {
        return Ok(t.instant);
    }
    match ymd_parse(s) {
        Ok(d) => Ok(date_midnight_utc(&d)),
        Err(cause) => Err(FilterDateError { input: String::from_str(s), cause }),
    }
}

/// The instant at which an event starts: its date-time if that parses as RFC 3339,
/// otherwise midnight UTC of its date if that parses, otherwise none.
pub open spec fn start_instant(e: EventDateTime) -> Option<Instant> {
    let from_date_time = match e.date_time {
        Some(t) => match chrono_rfc3339(t@) {
            Some(p) => Some(p.1),
            None => None,
        },
        None => None,
    };
    match from_date_time {
        Some(i) => Some(i),
        None => match e.date {
            Some(d) => match chrono_parse_ymd(d@) {
                Some(day) => Some(midnight_utc(day)),
                None => None,
            },
            None => None,
        },
    }
}

/// The instant at which an event starts, for comparing with filter dates.
pub fn event_start_to_datetime(edt: &EventDateTime) -> (r: Option<Instant>)
    ensures
        r == start_instant(*edt),
{
    if let Some(dt_str) = &edt.date_time {
        if let Some(t) = rfc3339_parse(dt_str.as_str()) {
            return Some(t.instant);
        }
    }
    if let Some(d_str) = &edt.date {
        if let Ok(d) = ymd_parse(d_str.as_str()) {
            return Some(date_midnight_utc(&d));
        }
    }
    None
}

// ---------------------------------------------------------------------------
// The filters of `list`
// ---------------------------------------------------------------------------

/// The text before the first `=` and, if there is one, the text after it.
pub open spec fn split_at_equals(s: Seq<char>) -> (Seq<char>, Option<Seq<char>>) {
    if exists|i: int| 0 <= i < s.len() && s[i] == '=' {
        let i = choose|i: int|
            0 <= i < s.len() && s[i] == '=' && forall|j: int| 0 <= j < i ==> s[j] != '=';
        (s.take(i), Some(s.skip(i + 1)))
    } else {
        (s, None)
    }
}

/// Read `--has-property`: `KEY=VALUE` asks for that value, a bare `KEY` for any value.
pub fn parse_has_property(s: &str) -> (r: (String, Option<String>))
    ensures
        (r.0@, opt_view(r.1)) == split_at_equals(s@),
{
    let n = s.unicode_len();
    let mut i: usize = 0;
    while i < n
        invariant
            n == s@.len(),
            i <= n,
            forall|j: int| 0 <= j < i ==> s@[j] != '=',
        decreases n - i,
    {
        if s.get_char(i) == '=' {
            proof {
                let k = choose|k: int|
                    0 <= k < s@.len() && s@[k] == '=' && forall|j: int| 0 <= j < k ==> s@[j] != '=';
                assert(k == i);
            }
            let key = String::from_str(s.substring_char(0, i));
            let value = String::from_str(s.substring_char(i + 1, n));
            assert(s@.skip(i + 1) =~= s@.subrange(i + 1, n as int));
            assert(s@.take(i as int) =~= s@.subrange(0, i as int));
            return (key, Some(value));
        }
        i = i + 1;
    }
    (String::from_str(s), None)
}

/// The filters of `list`, read once from its arguments.
#[derive(Debug)]
pub struct ListFilter {
    /// Keep events that start strictly after this instant.
    pub starts_after: Option<Instant>,
    /// Keep events that start strictly before this instant.
    pub starts_before: Option<Instant>,
    /// Keep events whose lower-cased summary or description contains this text.
    pub search: Option<String>,
    /// Keep events that have this property (with this value, if given).
    pub has_property: Option<(String, Option<String>)>,
}

/// A filter date of `list` that does not parse.
#[derive(Debug)]
pub enum ListFilterError {
    StartsAfter(FilterDateError),
    StartsBefore(FilterDateError),
}

impl ListFilterError {
    /// The message that reports the error: which filter date is invalid.
    pub fn message(&self) -> (r: String)
        ensures
            r@ == (match self {
                ListFilterError::StartsAfter(_) => "invalid --starts-after date"@,
                ListFilterError::StartsBefore(_) => "invalid --starts-before date"@,
            }),
    {
        match self {
            ListFilterError::StartsAfter(_) => String::from_str("invalid --starts-after date"),
            ListFilterError::StartsBefore(_) => String::from_str("invalid --starts-before date"),
        }
    }

    /// The lines that report the error: the message, then the date's own error and its
    /// cause.
    pub fn chain(&self) -> (r: Vec<String>)
        ensures
            seq_views(r@) == (match self {
                ListFilterError::StartsAfter(e) => seq![
                    "invalid --starts-after date"@,
                    "cannot parse '"@ + e.input@ + "' as RFC3339 or YYYY-MM-DD"@,
                    e.cause@,
                ],
                ListFilterError::StartsBefore(e) => seq![
                    "invalid --starts-before date"@,
                    "cannot parse '"@ + e.input@ + "' as RFC3339 or YYYY-MM-DD"@,
                    e.cause@,
                ],
            }),
    {
        let e = match self {
            ListFilterError::StartsAfter(e) => e,
            ListFilterError::StartsBefore(e) => e,
        };
        let mut out: Vec<String> = Vec::new();
        out.push(self.message());
        out.push(e.message());
        out.push(e.cause.clone());
        assert(seq_views(out@) =~= seq![out@[0]@, out@[1]@, out@[2]@]);
        out
    }
}

/// The optional arguments of `list`, as views.
pub open spec fn opt_seq(o: Option<String>) -> Option<Seq<char>> {
    opt_view(o)
}

/// What a `ListFilter` holds, in terms of views.
pub struct FilterView {
    pub starts_after: Option<Instant>,
    pub starts_before: Option<Instant>,
    pub search: Option<Seq<char>>,
    pub has_property: Option<(Seq<char>, Option<Seq<char>>)>,
}

impl ListFilter {
    pub open spec fn filter_view(self) -> FilterView {
        FilterView {
            starts_after: self.starts_after,
            starts_before: self.starts_before,
            search: opt_view(self.search),
            has_property: match self.has_property {
                Some((k, v)) => Some((k@, opt_view(v))),
                None => None,
            },
        }
    }

    /// Read the filters from the arguments of `list`: the dates parsed (the lower bound
    /// first), the search text lower-cased, the property test split at its first `=`.
    pub fn from_args(args: &ListArgs) -> (r: Result<ListFilter, ListFilterError>)
        ensures
            match (args.starts_after, args.starts_before) {
                (Some(a), _) if filter_date_instant(a@) is None => r matches Err(ListFilterError::StartsAfter(e)) && e.input@ == a@ && e.cause@ == chrono_ymd_error(a@),
                (_, Some(b)) if (args.starts_after matches Some(a) ==> filter_date_instant(a@) is Some)
                    && filter_date_instant(b@) is None => r matches Err(ListFilterError::StartsBefore(e)) && e.input@ == b@ && e.cause@ == chrono_ymd_error(b@),
                _ => r matches Ok(f) && f.filter_view() == (FilterView {
                    starts_after: match args.starts_after {
                        Some(a) => filter_date_instant(a@),
                        None => None,
                    },
                    starts_before: match args.starts_before {
                        Some(b) => filter_date_instant(b@),
                        None => None,
                    },
                    search: match args.search {
                        Some(s) => Some(std_lowercase(s@)),
                        None => None,
                    },
                    has_property: match args.has_property {
                        Some(p) => Some(split_at_equals(p@)),
                        None => None,
                    },
                }),
            },
    {
        let starts_after = match &args.starts_after {
            Some(a) => match parse_filter_date(a.as_str()) {
                Ok(t) => Some(t),
                Err(e) => {
                    return Err(ListFilterError::StartsAfter(e));
                },
            },
            None => None,
        };
        let starts_before = match &args.starts_before {
            Some(b) => match parse_filter_date(b.as_str()) {
                Ok(t) => Some(t),
                Err(e) => {
                    return Err(ListFilterError::StartsBefore(e));
                },
            },
            None => None,
        };
        let search = match &args.search {
            Some(s) => Some(to_lowercase(s.as_str())),
            None => None,
        };
        let has_property = match &args.has_property {
            Some(p) => Some(parse_has_property(p.as_str())),
            None => None,
        };
        Ok(ListFilter { starts_after, starts_before, search, has_property })
    }

    /// Whether `list` keeps the event.
    pub fn matches(&self, event: &CalendarEvent) -> (r: bool)
        ensures
            r == passes_filter(self.filter_view(), *event),
            r && self.search is Some ==> ((event.summary is Some && seq_contains(
                std_lowercase(event.summary->0@),
                self.search->0@,
            )) || (event.description is Some && seq_contains(
                std_lowercase(event.description->0@),
                self.search->0@,
            ))),
            r ==> match self.has_property {
                Some((k, v)) => event.shared_map().contains_key(k@) && (v is Some ==> event.shared_map()[k@]
                    == v->0@),
                None => true,
            },
    {
        proof {
            law_search_reads_summary_and_description(self.filter_view(), *event);
            law_has_property_needs_the_key(self.filter_view(), *event);
        }
        if let Some(after) = &self.starts_after {
            if let Some(start) = &event.start {
                if let Some(evt) = event_start_to_datetime(start) {
                    if !is_before(after, &evt) {
                        return false;
                    }
                }
            }
        }
        if let Some(before) = &self.starts_before {
            if let Some(start) = &event.start {
                if let Some(evt) = event_start_to_datetime(start) {
                    if !is_before(&evt, before) {
                        return false;
                    }
                }
            }
        }
        if let Some(pattern) = &self.search {
            let summary_match = match &event.summary {
                Some(s) => {
                    let lower = to_lowercase(s.as_str());
                    contains(lower.as_str(), pattern.as_str())
                },
                None => false,
            };
            let desc_match = match &event.description {
                Some(d) => {
                    let lower = to_lowercase(d.as_str());
                    contains(lower.as_str(), pattern.as_str())
                },
                None => false,
            };
            if !summary_match && !desc_match {
                return false;
            }
        }
        if let Some((key, val)) = &self.has_property {
            let found = match event.shared() {
                Some(s) => s.get(key.as_str()),
                None => None,
            };
            match val {
                Some(expected) => match found {
                    Some(v) => if !crate::text::str_eq(v.as_str(), expected.as_str()) {
                        return false;
                    },
                    None => {
                        return false;
                    },
                },
                None => if found.is_none() {
                    return false;
                },
            }
        }
        true
    }
}

/// The event passes a start bound when it has no start, or its start has no instant, or
/// the instant lies strictly on the right side of the bound.
pub open spec fn start_ok(start: Option<EventDateTime>, bound: Option<Instant>, after: bool) -> bool {
    match bound {
        None => true,
        Some(b) => match start {
            None => true,
            Some(s) => match start_instant(s) {
                None => true,
                Some(t) => if after {
                    instant_before(b, t)
                } else {
                    instant_before(t, b)
                },
            },
        },
    }
}

/// `list` keeps an event: its start lies within the bounds, its lower-cased summary or
/// description contains the search text, and it has the asked-for property.
pub open spec fn passes_filter(f: FilterView, e: CalendarEvent) -> bool {
    &&& start_ok(e.start, f.starts_after, true)
    &&& start_ok(e.start, f.starts_before, false)
    &&& match f.search {
        None => true,
        Some(p) => (e.summary matches Some(s) && seq_contains(std_lowercase(s@), p)) || (
        e.description matches Some(d) && seq_contains(std_lowercase(d@), p)),
    }
    &&& match f.has_property {
        None => true,
        Some((k, None)) => e.shared_map().contains_key(k),
        Some((k, Some(v))) => e.shared_map().contains_key(k) && e.shared_map()[k] == v,
    }
}

/// No filter set but `search`.
pub open spec fn only_search(f: FilterView) -> bool {
    f.starts_after is None && f.starts_before is None && f.has_property is None && f.search is Some
}

/// No filter set but `has_property`.
pub open spec fn only_has_property(f: FilterView) -> bool {
    f.starts_after is None && f.starts_before is None && f.search is None && f.has_property is Some
}

/// `--search` looks in both the summary and the description: a kept event has the
/// (lower-cased) search text in its lower-cased summary or in its lower-cased description,
/// and with no other filter every such event is kept, whichever of the two holds it.
pub proof fn law_search_reads_summary_and_description(f: FilterView, e: CalendarEvent)
    ensures
        passes_filter(f, e) && f.search is Some ==> ((e.summary is Some && seq_contains(
            std_lowercase(e.summary->0@),
            f.search->0,
        )) || (e.description is Some && seq_contains(std_lowercase(e.description->0@), f.search->0))),
        only_search(f) && e.description is Some && seq_contains(std_lowercase(e.description->0@), f.search->0)
            ==> passes_filter(f, e),
        only_search(f) && e.summary is Some && seq_contains(std_lowercase(e.summary->0@), f.search->0)
            ==> passes_filter(f, e),
{
}

/// `--has-property KEY` keeps only events that have `KEY`, and `KEY=VALUE` only those
/// where `KEY` holds `VALUE`; with no other filter every such event is kept.
pub proof fn law_has_property_needs_the_key(f: FilterView, e: CalendarEvent)
    ensures
        passes_filter(f, e) ==> match f.has_property {
            Some((k, v)) => e.shared_map().contains_key(k) && (v is Some ==> e.shared_map()[k] == v->0),
            None => true,
        },
        only_has_property(f) ==> match f.has_property {
            Some((k, v)) => (e.shared_map().contains_key(k) && (v is None || e.shared_map()[k] == v->0))
                ==> passes_filter(f, e),
            None => true,
        },
{
}

/// `g` keeps every filter that `f` sets, with the same value, and may set more.
pub open spec fn keeps_filters(g: FilterView, f: FilterView) -> bool {
    &&& (f.starts_after is Some ==> g.starts_after == f.starts_after)
    &&& (f.starts_before is Some ==> g.starts_before == f.starts_before)
    &&& (f.search is Some ==> g.search == f.search)
    &&& (f.has_property is Some ==> g.has_property == f.has_property)
}

proof fn lemma_filter_len_implied<A>(s: Seq<A>, p: spec_fn(A) -> bool, q: spec_fn(A) -> bool)
    requires
        forall|x: A| #[trigger] p(x) ==> q(x),
    ensures
        s.filter(p).len() <= s.filter(q).len(),
    decreases s.len(),
{
    reveal(Seq::filter);
    if s.len() > 0 {
        lemma_filter_len_implied(s.drop_last(), p, q);
        assert(p(s.last()) ==> q(s.last()));
    }
}

/// Adding a filter to `list` never lets more events through: with the filters of `f` and
/// more (`g`), every event that `g` keeps is kept by `f`, so `list --count` prints no
/// larger number.
pub proof fn law_more_filters_keep_fewer(events: Seq<CalendarEvent>, f: FilterView, g: FilterView)
    requires
        keeps_filters(g, f),
    ensures
        forall|e: CalendarEvent| #[trigger] passes_filter(g, e) ==> passes_filter(f, e),
        events.filter(|e: CalendarEvent| passes_filter(g, e)).len() <= events.filter(
            |e: CalendarEvent| passes_filter(f, e),
        ).len(),
{
    lemma_filter_len_implied(
        events,
        |e: CalendarEvent| passes_filter(g, e),
        |e: CalendarEvent| passes_filter(f, e),
    );
}

/// The positions of the events that `list` keeps, in increasing order.
pub fn filter_events(events: &Vec<CalendarEvent>, filter: &ListFilter) -> (r: Vec<usize>)
    ensures
        r@.map_values(|i: usize| events@[i as int]) == events@.filter(
            |e: CalendarEvent| passes_filter(filter.filter_view(), e),
        ),
        forall|k: int| 0 <= k < r@.len() ==> #[trigger] r@[k] < events@.len(),
        forall|a: int, b: int| 0 <= a < b < r@.len() ==> #[trigger] r@[a] < #[trigger] r@[b],
{
    let ghost pred = |e: CalendarEvent| passes_filter(filter.filter_view(), e);
    let mut out: Vec<usize> = Vec::new();
    let n = events.len();
    let mut i: usize = 0;
    while i < n
        invariant
            n == events@.len(),
            i <= n,
            pred == (|e: CalendarEvent| passes_filter(filter.filter_view(), e)),
            out@.map_values(|j: usize| events@[j as int]) == events@.take(i as int).filter(pred),
            forall|k: int| 0 <= k < out@.len() ==> #[trigger] out@[k] < i,
            forall|a: int, b: int| 0 <= a < b < out@.len() ==> #[trigger] out@[a] < #[trigger] out@[b],
        decreases n - i,
    {
        let keep = filter.matches(&events[i]);
        proof {
            assert(events@.take(i + 1) =~= events@.take(i as int).push(events@[i as int]));
            events@.take(i as int).lemma_filter_push(events@[i as int], pred);
        }
        if keep {
            out.push(i);
            assert(out@.map_values(|j: usize| events@[j as int]) =~= events@.take(i as int).filter(pred).push(events@[i as int]));
        }
        i = i + 1;
    }
    assert(events@.take(n as int) =~= events@);
    out
}

// ---------------------------------------------------------------------------
// Table cells
// ---------------------------------------------------------------------------

/// A table cell of at most `max` bytes: the text itself when it fits, otherwise its first
/// `max - 3` bytes and `...`.
pub open spec fn truncated(s: Seq<char>, max: int) -> Seq<char> {
    let bytes = vstd::utf8::encode_utf8(s);
    if bytes.len() <= max {
        s
    } else {
        vstd::utf8::decode_utf8(bytes.subrange(0, max - 3)) + "..."@
    }
}

/// Whether cutting `s` to `max - 3` bytes keeps whole characters (or no cut is needed).
pub open spec fn can_truncate(s: Seq<char>, max: int) -> bool {
    vstd::utf8::encode_utf8(s).len() > max ==> vstd::utf8::is_char_boundary(
        vstd::utf8::encode_utf8(s),
        max - 3,
    )
}

/// Cut a table cell to `max` bytes.
pub fn truncate_cell(s: &str, max: usize) -> (r: String)
    requires
        3 <= max,
        can_truncate(s@, max as int),
        vstd::utf8::encode_utf8(s@).len() <= usize::MAX,
    ensures
        r@ == truncated(s@, max as int),
{
    if s.len() > max {
        let (head, _tail) = s.split_at(max - 3);
        proof {
            vstd::utf8::encode_utf8_decode_utf8(head@);
            assert(vstd::utf8::encode_utf8(head@) =~= vstd::utf8::encode_utf8(s@).subrange(0, max - 3));
            assert(head@ == vstd::utf8::decode_utf8(vstd::utf8::encode_utf8(s@).subrange(0, max - 3)));
        }
        let mut r = String::from_str(head);
        r.append("...");
        assert(vstd::utf8::encode_utf8(s@).len() > max);
        assert(r@ == head@ + "..."@);
        r
    } else {
        assert(vstd::utf8::encode_utf8(s@).len() <= max);
        String::from_str(s)
    }
}

/// The value of a property of the event, or an empty text.
pub open spec fn property_or_empty(e: CalendarEvent, key: Seq<char>) -> Seq<char> {
    if e.shared_map().contains_key(key) {
        e.shared_map()[key]
    } else {
        Seq::empty()
    }
}

/// The value of a property of the event, or an empty text (the `type` and `client` columns).
pub fn property_cell(event: &CalendarEvent, key: &str) -> (r: String)
    ensures
        r@ == property_or_empty(*event, key@),
{
    let found = match event.shared() {
        Some(s) => s.get(key),
        None => None,
    };
    match found {
        Some(v) => v.clone(),
        None => String::new(),
    }
}


// ---------------------------------------------------------------------------
// stats
// ---------------------------------------------------------------------------

/// The first seven bytes of a text (`YYYY-MM` of a date), when they end on a character
/// boundary (as `str::get(..7)` gives them).
pub open spec fn month_prefix(s: Seq<char>) -> Option<Seq<char>> {
    let bytes = vstd::utf8::encode_utf8(s);
    if vstd::utf8::is_char_boundary(bytes, 7) {
        Some(vstd::utf8::decode_utf8(bytes.subrange(0, 7)))
    } else {
        None
    }
}

fn prefix7(s: &str) -> (r: Option<String>)
    ensures
        opt_view(r) == month_prefix(s@),
{
    if s.is_char_boundary(7) {
        let (head, _tail) = s.split_at(7);
        proof {
            vstd::utf8::encode_utf8_decode_utf8(head@);
            assert(vstd::utf8::encode_utf8(head@) =~= vstd::utf8::encode_utf8(s@).subrange(0, 7));
        }
        Some(String::from_str(head))
    } else {
        None
    }
}

/// The month an event counts for in `stats`: the first seven bytes of its start's
/// date-time, or of its date when it has no date-time.
pub open spec fn month_of(e: CalendarEvent) -> Option<Seq<char>> {
    match e.start {
        Some(s) => match s.date_time {
            Some(t) => month_prefix(t@),
            None => match s.date {
                Some(d) => month_prefix(d@),
                None => None,
            },
        },
        None => None,
    }
}

/// What `stats` counts an event under.
#[derive(Clone, Copy, Debug, PartialEq, Eq, Structural)]
pub enum StatKind {
    /// Its `type` property, or `(no type)`.
    Type,
    /// Its `client` property, or `(no client)`.
    Client,
    /// The month it starts in, if known.
    Month,
}

/// The key an event counts under.
pub open spec fn stat_key(kind: StatKind, e: CalendarEvent) -> Option<Seq<char>> {
    match kind {
        StatKind::Type => Some(
            if e.shared_map().contains_key("type"@) {
                e.shared_map()["type"@]
            } else {
                "(no type)"@
            },
        ),
        StatKind::Client => Some(
            if e.shared_map().contains_key("client"@) {
                e.shared_map()["client"@]
            } else {
                "(no client)"@
            },
        ),
        StatKind::Month => month_of(e),
    }
}

/// The key an event counts under.
pub fn event_stat_key(kind: StatKind, event: &CalendarEvent) -> (r: Option<String>)
    ensures
        opt_view(r) == stat_key(kind, *event),
{
    match kind {
        StatKind::Type | StatKind::Client => {
            let (key, default) = match kind {
                StatKind::Type => ("type", "(no type)"),
                _ => ("client", "(no client)"),
            };
            let found = match event.shared() {
                Some(s) => s.get(key),
                None => None,
            };
            match found {
                Some(v) => Some(v.clone()),
                None => Some(String::from_str(default)),
            }
        },
        StatKind::Month => match &event.start {
            Some(start) => match &start.date_time {
                Some(t) => prefix7(t.as_str()),
                None => match &start.date {
                    Some(d) => prefix7(d.as_str()),
                    None => None,
                },
            },
            None => None,
        },
    }
}

/// The number of events that count under `k`.
pub open spec fn count_under(es: Seq<CalendarEvent>, kind: StatKind, k: Seq<char>) -> nat
    decreases es.len(),
{
    if es.len() == 0 {
        0
    } else {
        count_under(es.drop_last(), kind, k) + if stat_key(kind, es.last()) == Some(k) {
            1nat
        } else {
            0nat
        }
    }
}

proof fn lemma_count_bounded(es: Seq<CalendarEvent>, kind: StatKind, k: Seq<char>)
    ensures
        count_under(es, kind, k) <= es.len(),
    decreases es.len(),
{
    if es.len() > 0 {
        lemma_count_bounded(es.drop_last(), kind, k);
    }
}

/// Counts per key, in increasing key order (the order of a `BTreeMap` of strings).
#[derive(Debug)]
pub struct CountTable {
    entries: Vec<(String, u32)>,
}

impl CountTable {
    /// The keys and counts, in order.
    pub closed spec fn rows(self) -> Seq<(Seq<char>, nat)> {
        self.entries@.map_values(|p: (String, u32)| (p.0@, p.1 as nat))
    }

    /// The number of rows.
    pub fn len(&self) -> (r: usize)
        ensures
            r == self.rows().len(),
    {
        self.entries.len()
    }

    /// The row at position `i`.
    pub fn row(&self, i: usize) -> (r: (&String, u32))
        requires
            i < self.rows().len(),
        ensures
            r.0@ == self.rows()[i as int].0,
            r.1 as nat == self.rows()[i as int].1,
    {
        (&self.entries[i].0, self.entries[i].1)
    }
}

/// The rows count the events exactly: keys in strictly increasing order, each with the
/// number of events under it, and every key that some event counts under present.
pub open spec fn counts_exactly(rows: Seq<(Seq<char>, nat)>, es: Seq<CalendarEvent>, kind: StatKind) -> bool {
    &&& forall|a: int, b: int| 0 <= a < b < rows.len() ==> lex_less(#[trigger] rows[a].0, #[trigger] rows[b].0)
    &&& forall|a: int| 0 <= a < rows.len() ==> #[trigger] rows[a].1 == count_under(es, kind, rows[a].0) && rows[a].1 > 0
    &&& forall|k: Seq<char>| #[trigger] count_under(es, kind, k) > 0 ==> exists|a: int| 0 <= a < rows.len() && #[trigger] rows[a].0 == k
}

/// Count the events by type, by client or by month, as `stats` prints them.
pub fn tally(events: &Vec<CalendarEvent>, kind: StatKind) -> (r: CountTable)
    requires
        events@.len() <= u32::MAX,
    ensures
        counts_exactly(r.rows(), events@, kind),
{
    let mut entries: Vec<(String, u32)> = Vec::new();
    let n = events.len();
    let mut i: usize = 0;
    while i < n
        invariant
            n == events@.len(),
            n <= u32::MAX,
            i <= n,
            counts_exactly(entries@.map_values(|p: (String, u32)| (p.0@, p.1 as nat)), events@.take(i as int), kind),
        decreases n - i,
    {
        let ghost rows = entries@.map_values(|p: (String, u32)| (p.0@, p.1 as nat));
        let ghost before = events@.take(i as int);
        let ghost after = events@.take(i + 1);
        assert(after.drop_last() =~= before);
        assert(after.last() == events@[i as int]);
        match event_stat_key(kind, &events[i]) {
            None => {
                assert forall|k: Seq<char>| count_under(after, kind, k) == count_under(before, kind, k) by {}
                assert(counts_exactly(rows, after, kind));
            },
            Some(key) => {
                let m = entries.len();
                let mut p: usize = 0;
                while p < m && str_less(entries[p].0.as_str(), key.as_str())
                    invariant
                        m == entries@.len(),
                        p <= m,
                        rows == entries@.map_values(|p: (String, u32)| (p.0@, p.1 as nat)),
                        forall|j: int| 0 <= j < p ==> lex_less(#[trigger] rows[j].0, key@),
                    decreases m - p,
                {
                    p = p + 1;
                }
                assert forall|k: Seq<char>| #[trigger] count_under(after, kind, k) == count_under(before, kind, k) + if k == key@ { 1nat } else { 0nat } by {}
                proof {
                    lemma_count_bounded(before, kind, key@);
                    // Rows before p come before the key; rows from p on do not.
                    assert forall|j: int| 0 <= j < p implies #[trigger] rows[j].0 != key@ by {
                        lemma_lex_irreflexive(key@);
                    }
                }
                if p < m && str_eq(entries[p].0.as_str(), key.as_str()) {
                    let c = entries[p].1;
                    proof {
                        assert(rows[p as int].1 == count_under(before, kind, key@));
                    }
                    let k2 = entries[p].0.clone();
                    entries.set(p, (k2, c + 1));
                    let ghost new_rows = entries@.map_values(|p: (String, u32)| (p.0@, p.1 as nat));
                    proof {
                        assert(new_rows =~= rows.update(p as int, (key@, rows[p as int].1 + 1)));
                        assert forall|a: int| 0 <= a < new_rows.len() implies #[trigger] new_rows[a].1 == count_under(after, kind, new_rows[a].0) && new_rows[a].1 > 0 by {
                            if a != p {
                                if rows[a].0 == key@ {
                                    if a < p {
                                    } else {
                                        lemma_lex_irreflexive(key@);
                                    }
                                }
                                assert(rows[a].0 != key@);
                            }
                        }
                        assert forall|k: Seq<char>| #[trigger] count_under(after, kind, k) > 0 implies exists|a: int| 0 <= a < new_rows.len() && #[trigger] new_rows[a].0 == k by {
                            if k == key@ {
                                assert(new_rows[p as int].0 == k);
                            } else {
                                let a = choose|a: int| 0 <= a < rows.len() && #[trigger] rows[a].0 == k;
                                assert(new_rows[a].0 == k);
                            }
                        }
                    }
                } else {
                    proof {
                        if p < m {
                            lemma_lex_total(rows[p as int].0, key@);
                            assert(lex_less(key@, rows[p as int].0));
                        }
                        assert forall|j: int| 0 <= j < rows.len() implies #[trigger] rows[j].0 != key@ by {
                            if j >= p {
                                if j > p {
                                    lemma_lex_transitive(key@, rows[p as int].0, rows[j].0);
                                }
                                lemma_lex_irreflexive(key@);
                            }
                        }
                        assert(count_under(before, kind, key@) == 0);
                    }
                    entries.insert(p, (key, 1));
                    let ghost new_rows = entries@.map_values(|p: (String, u32)| (p.0@, p.1 as nat));
                    proof {
                        assert(new_rows =~= rows.insert(p as int, (key@, 1nat)));
                        assert forall|a: int, b: int| 0 <= a < b < new_rows.len() implies lex_less(#[trigger] new_rows[a].0, #[trigger] new_rows[b].0) by {
                            if a < p && b < p {
                            } else if a < p && b == p {
                            } else if a < p && b > p {
                                assert(new_rows[b] == rows[b - 1]);
                            } else if a == p {
                                assert(new_rows[b] == rows[b - 1]);
                                if b - 1 > p {
                                    lemma_lex_transitive(key@, rows[p as int].0, rows[b - 1].0);
                                }
                            } else {
                                assert(new_rows[a] == rows[a - 1]);
                                assert(new_rows[b] == rows[b - 1]);
                            }
                        }
                        assert forall|a: int| 0 <= a < new_rows.len() implies #[trigger] new_rows[a].1 == count_under(after, kind, new_rows[a].0) && new_rows[a].1 > 0 by {
                            if a < p {
                                assert(new_rows[a] == rows[a]);
                            } else if a > p {
                                assert(new_rows[a] == rows[a - 1]);
                            }
                        }
                        assert forall|k: Seq<char>| #[trigger] count_under(after, kind, k) > 0 implies exists|a: int| 0 <= a < new_rows.len() && #[trigger] new_rows[a].0 == k by {
                            if k == key@ {
                                assert(new_rows[p as int].0 == k);
                            } else {
                                let a = choose|a: int| 0 <= a < rows.len() && #[trigger] rows[a].0 == k;
                                if a < p {
                                    assert(new_rows[a].0 == k);
                                } else {
                                    assert(new_rows[a + 1].0 == k);
                                }
                            }
                        }
                    }
                }
            },
        }
        i = i + 1;
    }
    assert(events@.take(n as int) =~= events@);
    CountTable { entries }
}

} // verus!
