use vstd::prelude::*;

use crate::dates::{
    Date, chrono_parse_ymd, chrono_rfc3339, date_add_one_day, date_format, date_of_shape, date_text,
    chrono_ymd_error, is_date_text, lemma_date_text_of_shape, next_date, rfc3339_parse, valid_date,
    ymd_parse,
};
use crate::models::{opt_view, EventDateTime};
use crate::text::{parse_usize, spec_parse_usize, std_lowercase, str_eq, to_lowercase, trim, trim_seq};

verus! {

/// Why a user-supplied time could not be used.
#[derive(Clone, Copy, Debug, PartialEq, Eq, Structural)]
pub enum TimeFailure {
    /// The text is neither RFC 3339 nor `YYYY-MM-DD`.
    Unparsable,
    /// The day after an all-day end date is past the last representable day.
    DateOverflow,
}

/// A time that could not be used, with the text it came from and, for a text that does
/// not parse, the parser's own account of why.
#[derive(Debug)]
pub struct TimeError {
    pub kind: TimeFailure,
    pub input: String,
    pub cause: Option<String>,
}

impl TimeError {
    /// The cause fits the failure: the date parser's error text for a text that does not
    /// parse, and none for a date that cannot be moved on.
    pub open spec fn cause_fits(self) -> bool {
        match self.kind {
            TimeFailure::Unparsable => opt_view(self.cause) == Some(chrono_ymd_error(self.input@)),
            TimeFailure::DateOverflow => self.cause is None,
        }
    }

    /// The lines that report the error, the message first and then its cause.
    pub fn chain(&self) -> (r: Vec<String>)
        ensures
            crate::text::seq_views(r@) == seq![self.message_text()] + match self.cause {
                Some(c) => seq![c@],
                None => Seq::empty(),
            },
    {
        let mut out: Vec<String> = Vec::new();
        out.push(self.message());
        if let Some(c) = &self.cause {
            out.push(c.clone());
        }
        assert(crate::text::seq_views(out@) =~= seq![self.message_text()] + match self.cause {
            Some(c) => seq![c@],
            None => Seq::<Seq<char>>::empty(),
        });
        out
    }

    /// The text of the message.
    pub open spec fn message_text(self) -> Seq<char> {
        match self.kind {
            TimeFailure::Unparsable => "failed to parse '"@ + self.input@ + "' as RFC3339 or YYYY-MM-DD"@,
            TimeFailure::DateOverflow => "date overflow while adjusting all-day event end date"@,
        }
    }

    /// The message that reports the error.
    pub fn message(&self) -> (r: String)
        ensures
            r@ == self.message_text(),
    {
        match self.kind {
            TimeFailure::Unparsable => {
                let mut m = String::from_str("failed to parse '");
                m.append(self.input.as_str());
                m.append("' as RFC3339 or YYYY-MM-DD");
                m
            },
            TimeFailure::DateOverflow => String::from_str(
                "date overflow while adjusting all-day event end date",
            ),
        }
    }
}

impl View for EventDateTime {
    type V = (Option<Seq<char>>, Option<Seq<char>>);

    open spec fn view(&self) -> (Option<Seq<char>>, Option<Seq<char>>) {
        (opt_view(self.date_time), opt_view(self.date))
    }
}

/// The date-time and date fields of a start or end.
pub type TimeView = (Option<Seq<char>>, Option<Seq<char>>);

/// What `parse_event_time` makes of a text: an RFC 3339 date-time as `chrono` writes it
/// back; otherwise a `YYYY-MM-DD` date, moved one day on when it ends an all-day event
/// (the end given is inclusive, the end stored is exclusive).
pub open spec fn event_time_outcome(input: Seq<char>, end_of_all_day_event: bool) -> Result<TimeView, TimeFailure> {
    match chrono_rfc3339(input) {
        Some(p) => Ok((Some(p.0), None)),
        None => match chrono_parse_ymd(input) {
            None => Err(TimeFailure::Unparsable),
            Some(d) => {
                let day = if end_of_all_day_event {
                    next_date(d)
                } else {
                    Some(d)
                };
                match day {
                    None => Err(TimeFailure::DateOverflow),
                    Some(e) => Ok((None, Some(date_text(e)))),
                }
            },
        },
    }
}

/// Parse a user-supplied time: RFC 3339 (a date-time with an offset) or `YYYY-MM-DD`
/// (an all-day date, taken as is with no time zone). With `end_of_all_day_event`, a date
/// is the inclusive last day and the day after it is returned.
pub fn parse_event_time(input: &str, end_of_all_day_event: bool) -> (r: Result<
    EventDateTime,
    TimeError,
>)
    ensures
        match r {
            Ok(t) => event_time_outcome(input@, end_of_all_day_event) == Ok::<TimeView, TimeFailure>(t@),
            Err(e) => event_time_outcome(input@, end_of_all_day_event) == Err::<TimeView, TimeFailure>(e.kind) && e.input@ == input@
                && e.cause_fits(),
        },
        is_date_text(input@) ==> (r matches Ok(t) && t.date_time is None && opt_view(t.date)
            == Some(
            if end_of_all_day_event {
                date_text(next_date(date_of_shape(input@))->0)
            } else {
                input@
            },
        )),
{
    proof {
        if is_date_text(input@) {
            lemma_date_text_of_shape(input@);
            vstd::utf8::is_ascii_chars_encode_utf8(input@);
        }
    }
    if let Some(t) = rfc3339_parse(input) {
        return Ok(EventDateTime { date_time: Some(t.text), date: None });
    }
    let date = match ymd_parse(input) {
        Ok(d) => d,
        Err(cause) => {
            return Err(
                TimeError { kind: TimeFailure::Unparsable, input: String::from_str(input), cause: Some(cause) },
            );
        },
    };
    let date = if end_of_all_day_event {
        match date_add_one_day(&date) {
            Some(n) => n,
            None => {
                return Err(
                    TimeError { kind: TimeFailure::DateOverflow, input: String::from_str(input), cause: None },
                );
            },
        }
    } else {
        date
    };
    proof {
        crate::dates::lemma_next_date_valid(date);
    }
    Ok(EventDateTime { date_time: None, date: Some(date_format(&date)) })
}


/// The characters of an optional string slice.
pub open spec fn opt_str_view(o: Option<&str>) -> Option<Seq<char>> {
    match o {
        Some(s) => Some(s@),
        None => None,
    }
}

/// An optional string slice as an owned string.
pub fn to_owned_opt(o: Option<&str>) -> (r: Option<String>)
    ensures
        opt_view(r) == opt_str_view(o),
{
    match o {
        Some(s) => Some(String::from_str(s)),
        None => None,
    }
}

/// A given time parses (or none was given).
pub open spec fn time_given_ok(input: Option<Seq<char>>, end_of_all_day_event: bool) -> bool {
    match input {
        None => true,
        Some(s) => event_time_outcome(s, end_of_all_day_event) is Ok,
    }
}

/// The parsed form of an optional time.
pub open spec fn time_field(input: Option<Seq<char>>, end_of_all_day_event: bool) -> Option<TimeView> {
    match input {
        None => None,
        Some(s) => match event_time_outcome(s, end_of_all_day_event) {
            Ok(v) => Some(v),
            Err(_) => None,
        },
    }
}

/// A date given where no RFC 3339 date-time is read is written back as the date the
/// parser read: as it is for a start, and as the next day for the end of an all-day event
/// (which fails past the last representable day). So a start date is never moved, and an
/// end date always is.
pub proof fn law_start_date_taken_as_is(s: Seq<char>, d: Date)
    requires
        chrono_rfc3339(s) is None,
        chrono_parse_ymd(s) == Some(d),
    ensures
        time_field(Some(s), false) == Some((None::<Seq<char>>, Some(date_text(d)))),
        next_date(d) matches Some(n) ==> time_field(Some(s), true) == Some((None::<Seq<char>>, Some(date_text(n)))),
        next_date(d) is None ==> time_field(Some(s), true) is None,
        time_given_ok(Some(s), false),
{
}

/// The fields of an optional start or end.
pub open spec fn opt_time_view(e: Option<EventDateTime>) -> Option<TimeView> {
    match e {
        Some(t) => Some(t@),
        None => None,
    }
}

/// A sparse change to an event: a field is sent only when it is set.
#[derive(Debug)]
pub struct EventPatch {
    pub summary: Option<String>,
    pub start: Option<EventDateTime>,
    pub end: Option<EventDateTime>,
    pub description: Option<String>,
    pub location: Option<String>,
}

impl EventPatch {
    /// Whether the patch changes nothing.
    pub fn is_empty(&self) -> (r: bool)
        ensures
            r == (self.summary is None && self.start is None && self.end is None
                && self.description is None && self.location is None),
    {
        self.summary.is_none() && self.start.is_none() && self.end.is_none()
            && self.description.is_none() && self.location.is_none()
    }
}

/// The error that a pair of optional start and end texts gives: the start's first.
pub open spec fn first_time_failure(start: Option<Seq<char>>, end: Option<Seq<char>>) -> (TimeFailure, Seq<char>) {
    if !time_given_ok(start, false) {
        (event_time_outcome(start->0, false)->Err_0, start->0)
    } else {
        (event_time_outcome(end->0, true)->Err_0, end->0)
    }
}

fn parse_opt_time(input: Option<&str>, end_of_all_day_event: bool) -> (r: Result<Option<EventDateTime>, TimeError>)
    ensures
        match r {
            Ok(v) => time_given_ok(opt_str_view(input), end_of_all_day_event)
                && opt_time_view(v) == time_field(opt_str_view(input), end_of_all_day_event),
            Err(e) => !time_given_ok(opt_str_view(input), end_of_all_day_event)
                && e.input@ == opt_str_view(input)->0
                && event_time_outcome(e.input@, end_of_all_day_event) == Err::<TimeView, TimeFailure>(e.kind)
                && e.cause_fits(),
        },
        input is Some && is_date_text(input->0@) && !end_of_all_day_event ==> (r matches Ok(Some(t))
            && t.date_time is None && opt_view(t.date) == Some(input->0@)),
{
    match input {
        Some(s) => match parse_event_time(s, end_of_all_day_event) {
            Ok(t) => Ok(Some(t)),
            Err(e) => Err(e),
        },
        None => Ok(None),
    }
}

/// Build the sparse change for `event update`: each field given is set, the start and
/// end parsed by `parse_event_time` (the end as the inclusive last day of an all-day
/// event), and no other field is present.
pub fn build_event_patch_payload(
    summary: Option<&str>,
    start: Option<&str>,
    end: Option<&str>,
    description: Option<&str>,
    location: Option<&str>,
) -> (r: Result<EventPatch, TimeError>)
    ensures
        r is Ok <==> time_given_ok(opt_str_view(start), false) && time_given_ok(opt_str_view(end), true),
        r matches Ok(p) ==> {
            &&& opt_view(p.summary) == opt_str_view(summary)
            &&& opt_time_view(p.start) == time_field(opt_str_view(start), false)
            &&& opt_time_view(p.end) == time_field(opt_str_view(end), true)
            &&& opt_view(p.description) == opt_str_view(description)
            &&& opt_view(p.location) == opt_str_view(location)
        },
        r matches Err(e) ==> (e.kind, e.input@) == first_time_failure(opt_str_view(start), opt_str_view(end))
            && e.cause_fits(),
        start is Some && is_date_text(start->0@) ==> (r matches Ok(p) ==> (p.start matches Some(t)
            && t.date_time is None && opt_view(t.date) == Some(start->0@))),
{
    let start = parse_opt_time(start, false)?;
    let end = parse_opt_time(end, true)?;
    Ok(EventPatch {
        summary: to_owned_opt(summary),
        start,
        end,
        description: to_owned_opt(description),
        location: to_owned_opt(location),
    })
}

/// The body of a new event.
#[derive(Debug)]
pub struct EventInsert {
    pub summary: String,
    pub start: EventDateTime,
    pub end: EventDateTime,
    pub description: Option<String>,
    pub location: Option<String>,
}

/// Build the body of a new event: the summary, the start and the end (the end as the
/// inclusive last day of an all-day event), and the description and location if given.
pub fn build_event_insert_payload(
    summary: &str,
    start: &str,
    end: &str,
    description: Option<&str>,
    location: Option<&str>,
) -> (r: Result<EventInsert, TimeError>)
    ensures
        r is Ok <==> event_time_outcome(start@, false) is Ok && event_time_outcome(end@, true) is Ok,
        r matches Ok(p) ==> {
            &&& p.summary@ == summary@
            &&& event_time_outcome(start@, false) == Ok::<TimeView, TimeFailure>(p.start@)
            &&& event_time_outcome(end@, true) == Ok::<TimeView, TimeFailure>(p.end@)
            &&& opt_view(p.description) == opt_str_view(description)
            &&& opt_view(p.location) == opt_str_view(location)
        },
        r matches Err(e) ==> (e.kind, e.input@) == first_time_failure(Some(start@), Some(end@))
            && e.cause_fits(),
        is_date_text(start@) ==> (r matches Ok(p) ==> p.start.date_time is None && opt_view(p.start.date)
            == Some(start@)),
{
    let start = parse_event_time(start, false)?;
    let end = parse_event_time(end, true)?;
    Ok(EventInsert {
        summary: String::from_str(summary),
        start,
        end,
        description: to_owned_opt(description),
        location: to_owned_opt(location),
    })
}

// ---------------------------------------------------------------------------
// Answers to prompts
// ---------------------------------------------------------------------------

/// An answer to a yes/no/quit prompt.
#[derive(Clone, Copy, Debug, PartialEq, Eq, Structural)]
pub enum YesNoQuit {
    Yes,
    No,
    Quit,
    /// Anything else: the prompt is asked again.
    Invalid,
}

/// The answer that an input line gives, read trimmed and in lower case.
pub open spec fn yes_no_quit_of(line: Seq<char>) -> YesNoQuit {
    let a = std_lowercase(trim_seq(line));
    if a == "y"@ || a == "yes"@ {
        YesNoQuit::Yes
    } else if a == "n"@ || a == "no"@ {
        YesNoQuit::No
    } else if a == "q"@ || a == "quit"@ {
        YesNoQuit::Quit
    } else {
        YesNoQuit::Invalid
    }
}

/// Read an answer to a `[y/n/q]` prompt: `y`/`yes`, `n`/`no`, `q`/`quit`, in any case
/// and with surrounding white space.
pub fn interpret_yes_no_quit(line: &str) -> (r: YesNoQuit)
    ensures
        r == yes_no_quit_of(line@),
{
    let lower = to_lowercase(trim(line));
    let a = lower.as_str();
    if str_eq(a, "y") || str_eq(a, "yes") {
        YesNoQuit::Yes
    } else if str_eq(a, "n") || str_eq(a, "no") {
        YesNoQuit::No
    } else if str_eq(a, "q") || str_eq(a, "quit") {
        YesNoQuit::Quit
    } else {
        YesNoQuit::Invalid
    }
}

/// Read an answer to a `[y/n]` confirmation: only `y` or `yes` (any case, trimmed)
/// confirms.
pub fn interpret_yes_no(line: &str) -> (r: bool)
    ensures
        r == (yes_no_quit_of(line@) == YesNoQuit::Yes),
{
    interpret_yes_no_quit(line) == YesNoQuit::Yes
}

/// An answer to a numbered choice among options.
#[derive(Clone, Copy, Debug, PartialEq, Eq, Structural)]
pub enum SelectChoice {
    /// `s` or `skip`.
    Skip,
    /// The option at this index (counted from zero).
    Chosen(usize),
    /// Anything else.
    Invalid,
}

/// The choice that an input line makes among `n` options numbered from 1.
pub open spec fn select_choice_of(line: Seq<char>, n: nat) -> SelectChoice {
    let a = std_lowercase(trim_seq(line));
    if a == "s"@ || a == "skip"@ {
        SelectChoice::Skip
    } else {
        match spec_parse_usize(a) {
            Some(k) => if 1 <= k <= n {
                SelectChoice::Chosen((k - 1) as usize)
            } else {
                SelectChoice::Invalid
            },
            None => SelectChoice::Invalid,
        }
    }
}

/// Read a choice among `n_options` numbered options: `s`/`skip`, or a number from 1 to
/// `n_options`.
pub fn interpret_select(line: &str, n_options: usize) -> (r: SelectChoice)
    ensures
        r == select_choice_of(line@, n_options as nat),
        r matches SelectChoice::Chosen(i) ==> i < n_options,
{
    let lower = to_lowercase(trim(line));
    let a = lower.as_str();
    if str_eq(a, "s") || str_eq(a, "skip") {
        return SelectChoice::Skip;
    }
    match parse_usize(a) {
        Some(k) => if 1 <= k && k <= n_options {
            SelectChoice::Chosen(k - 1)
        } else {
            SelectChoice::Invalid
        },
        None => SelectChoice::Invalid,
    }
}

} // verus!
