use vstd::prelude::*;

use chrono::{Datelike, NaiveDate};

use crate::text::{all_digits, digit_value, is_digit};

verus! {

// ---------------------------------------------------------------------------
// Calendar dates
// ---------------------------------------------------------------------------

/// A day of the proleptic Gregorian calendar.
#[derive(Clone, Copy, Debug, PartialEq, Eq, Structural)]
pub struct Date {
    pub year: i32,
    pub month: u32,
    pub day: u32,
}

/// The earliest year that `chrono` represents.
pub open spec fn min_year() -> int {
    -262143
}

/// The latest year that `chrono` represents.
pub open spec fn max_year() -> int {
    262142
}

/// Leap years of the proleptic Gregorian calendar.
pub open spec fn is_leap_year(y: int) -> bool {
    (y % 4 == 0 && y % 100 != 0) || y % 400 == 0
}

/// The number of days of month `m` of year `y`.
pub open spec fn days_in_month(y: int, m: int) -> int {
    if m == 2 {
        if is_leap_year(y) {
            29
        } else {
            28
        }
    } else if m == 4 || m == 6 || m == 9 || m == 11 {
        30
    } else {
        31
    }
}

/// `d` names a day that exists and that `chrono` can represent.
pub open spec fn valid_date(d: Date) -> bool {
    &&& min_year() <= d.year <= max_year()
    &&& 1 <= d.month <= 12
    &&& 1 <= d.day <= days_in_month(d.year as int, d.month as int)
}

/// The day after `d`, or nothing where that day is past the last one that `chrono`
/// represents.
pub open spec fn next_date(d: Date) -> Option<Date> {
    if (d.day as int) < days_in_month(d.year as int, d.month as int) {
        Some(Date { year: d.year, month: d.month, day: (d.day + 1) as u32 })
    } else if d.month < 12 {
        Some(Date { year: d.year, month: (d.month + 1) as u32, day: 1 })
    } else if d.year < max_year() {
        Some(Date { year: (d.year + 1) as i32, month: 1, day: 1 })
    } else {
        None
    }
}

/// The day after a valid day is valid.
pub proof fn lemma_next_date_valid(d: Date)
    requires
        valid_date(d),
    ensures
        next_date(d) matches Some(e) ==> valid_date(e),
{
}

// ---------------------------------------------------------------------------
// Text of dates
// ---------------------------------------------------------------------------

/// The ASCII digit for `n` (0 to 9).
pub open spec fn digit_char(n: int) -> char {
    (n + ('0' as int)) as char
}

/// `n` (0 to 99) as two digits.
pub open spec fn two_digits(n: int) -> Seq<char> {
    seq![digit_char(n / 10), digit_char(n % 10)]
}

/// `n` (0 to 9999) as four digits.
pub open spec fn four_digits(n: int) -> Seq<char> {
    seq![digit_char(n / 1000), digit_char((n / 100) % 10), digit_char((n / 10) % 10), digit_char(n % 10)]
}

/// The decimal digits of `n`, without leading zeros.
pub open spec fn decimal(n: nat) -> Seq<char>
    decreases n,
{
    if n < 10 {
        seq![digit_char(n as int)]
    } else {
        decimal(n / 10) + seq![digit_char((n % 10) as int)]
    }
}

/// A year as `%Y` writes it: four digits from 0 to 9999, otherwise a sign and at
/// least four digits.
pub open spec fn year_text(y: int) -> Seq<char> {
    if 0 <= y <= 9999 {
        four_digits(y)
    } else {
        let sign = if y < 0 {
            '-'
        } else {
            '+'
        };
        let a = if y < 0 {
            -y
        } else {
            y
        };
        if a <= 9999 {
            seq![sign] + four_digits(a)
        } else {
            seq![sign] + decimal(a as nat)
        }
    }
}

/// A date written as `%Y-%m-%d`.
pub open spec fn date_text(d: Date) -> Seq<char> {
    year_text(d.year as int) + seq!['-'] + two_digits(d.month as int) + seq!['-'] + two_digits(
        d.day as int,
    )
}

/// `s` has the shape `DDDD-DD-DD` of ten ASCII characters.
pub open spec fn is_date_shaped(s: Seq<char>) -> bool {
    &&& s.len() == 10
    &&& is_digit(s[0]) && is_digit(s[1]) && is_digit(s[2]) && is_digit(s[3])
    &&& s[4] == '-'
    &&& is_digit(s[5]) && is_digit(s[6])
    &&& s[7] == '-'
    &&& is_digit(s[8]) && is_digit(s[9])
}

/// The date that a `DDDD-DD-DD` text spells out digit by digit.
pub open spec fn date_of_shape(s: Seq<char>) -> Date {
    Date {
        year: (digit_value(s[0]) * 1000 + digit_value(s[1]) * 100 + digit_value(s[2]) * 10
            + digit_value(s[3])) as i32,
        month: (digit_value(s[5]) * 10 + digit_value(s[6])) as u32,
        day: (digit_value(s[8]) * 10 + digit_value(s[9])) as u32,
    }
}

/// `s` is the `YYYY-MM-DD` text of an existing day.
pub open spec fn is_date_text(s: Seq<char>) -> bool {
    is_date_shaped(s) && valid_date(date_of_shape(s))
}

proof fn lemma_digit_char_value(c: char)
    requires
        is_digit(c),
    ensures
        digit_char(digit_value(c) as int) == c,
        0 <= digit_value(c) <= 9,
{
}

proof fn lemma_four_digits_of(a: int, b: int, c: int, d: int)
    requires
        0 <= a <= 9,
        0 <= b <= 9,
        0 <= c <= 9,
        0 <= d <= 9,
    ensures
        (a * 1000 + b * 100 + c * 10 + d) / 1000 == a,
        ((a * 1000 + b * 100 + c * 10 + d) / 100) % 10 == b,
        ((a * 1000 + b * 100 + c * 10 + d) / 10) % 10 == c,
        (a * 1000 + b * 100 + c * 10 + d) % 10 == d,
        0 <= a * 1000 + b * 100 + c * 10 + d <= 9999,
{
    assert((a * 1000 + b * 100 + c * 10 + d) / 1000 == a) by (nonlinear_arith)
        requires
            0 <= a <= 9,
            0 <= b <= 9,
            0 <= c <= 9,
            0 <= d <= 9,
    ;
    assert(((a * 1000 + b * 100 + c * 10 + d) / 100) % 10 == b) by (nonlinear_arith)
        requires
            0 <= a <= 9,
            0 <= b <= 9,
            0 <= c <= 9,
            0 <= d <= 9,
    ;
    assert(((a * 1000 + b * 100 + c * 10 + d) / 10) % 10 == c) by (nonlinear_arith)
        requires
            0 <= a <= 9,
            0 <= b <= 9,
            0 <= c <= 9,
            0 <= d <= 9,
    ;
    assert((a * 1000 + b * 100 + c * 10 + d) % 10 == d) by (nonlinear_arith)
        requires
            0 <= a <= 9,
            0 <= b <= 9,
            0 <= c <= 9,
            0 <= d <= 9,
    ;
}

proof fn lemma_two_digits_of(a: int, b: int)
    requires
        0 <= a <= 9,
        0 <= b <= 9,
    ensures
        (a * 10 + b) / 10 == a,
        (a * 10 + b) % 10 == b,
{
}

/// Writing the date that a date-shaped text spells gives the text back.
pub proof fn lemma_date_text_of_shape(s: Seq<char>)
    requires
        is_date_shaped(s),
    ensures
        date_text(date_of_shape(s)) == s,
        0 <= date_of_shape(s).year <= 9999,
{
    let d = date_of_shape(s);
    lemma_digit_char_value(s[0]);
    lemma_digit_char_value(s[1]);
    lemma_digit_char_value(s[2]);
    lemma_digit_char_value(s[3]);
    lemma_digit_char_value(s[5]);
    lemma_digit_char_value(s[6]);
    lemma_digit_char_value(s[8]);
    lemma_digit_char_value(s[9]);
    let (a, b, c, e) = (
        digit_value(s[0]) as int,
        digit_value(s[1]) as int,
        digit_value(s[2]) as int,
        digit_value(s[3]) as int,
    );
    lemma_four_digits_of(a, b, c, e);
    lemma_two_digits_of(digit_value(s[5]) as int, digit_value(s[6]) as int);
    lemma_two_digits_of(digit_value(s[8]) as int, digit_value(s[9]) as int);
    assert(date_text(d) =~= s);
}

// ---------------------------------------------------------------------------
// Instants
// ---------------------------------------------------------------------------

/// A point in time: whole seconds since 1970-01-01T00:00:00Z and the nanoseconds past
/// them (above 999,999,999 only within a leap second).
#[derive(Clone, Copy, Debug, PartialEq, Eq, Structural)]
pub struct Instant {
    pub seconds: i64,
    pub nanos: u32,
}

/// `a` is strictly earlier than `b`.
pub open spec fn instant_before(a: Instant, b: Instant) -> bool {
    a.seconds < b.seconds || (a.seconds == b.seconds && a.nanos < b.nanos)
}

/// Whether `a` is strictly earlier than `b`.
pub fn is_before(a: &Instant, b: &Instant) -> (r: bool)
    ensures
        r == instant_before(*a, *b),
{
    a.seconds < b.seconds || (a.seconds == b.seconds && a.nanos < b.nanos)
}

/// An RFC 3339 date-time as `chrono` reads it: the text `chrono` writes back for it
/// and the instant it names.
#[derive(Debug)]
pub struct Rfc3339Time {
    pub text: String,
    pub instant: Instant,
}

impl View for Rfc3339Time {
    type V = (Seq<char>, Instant);

    open spec fn view(&self) -> (Seq<char>, Instant) {
        (self.text@, self.instant)
    }
}

// ---------------------------------------------------------------------------
// What `chrono` computes
// ---------------------------------------------------------------------------

/// What `DateTime::parse_from_rfc3339` makes of a text, given as the text that
/// `to_rfc3339` writes for the parsed value and the instant it names.
pub uninterp spec fn chrono_rfc3339(s: Seq<char>) -> Option<(Seq<char>, Instant)>;

/// What `NaiveDate::parse_from_str` with the format `%Y-%m-%d` makes of a text.
pub uninterp spec fn chrono_parse_ymd(s: Seq<char>) -> Option<Date>;

/// The number of days from 1970-01-01 to the day `d` of the proleptic Gregorian
/// calendar (negative before it), counted in 400-year cycles of 146,097 days from a year
/// that starts in March.
pub open spec fn days_from_civil(d: Date) -> int {
    let y: int = if d.month <= 2 { d.year - 1 } else { d.year as int };
    let era = y / 400;
    let yoe = y - era * 400;
    let mp: int = if d.month > 2 { d.month - 3 } else { d.month + 9 };
    let doy = (153 * mp + 2) / 5 + d.day - 1;
    let doe = yoe * 365 + yoe / 4 - yoe / 100 + doy;
    era * 146097 + doe - 719468
}

/// The instant of midnight UTC at the start of the day `d`: 86,400 seconds for each
/// day since 1970-01-01 (within `chrono`'s dates the count fits an `i64`).
pub open spec fn midnight_utc(d: Date) -> Instant {
    Instant { seconds: (days_from_civil(d) * 86400) as i64, nanos: 0 }
}

/// Calls `chrono::DateTime::parse_from_rfc3339` and, on success, reads back the value's
/// `to_rfc3339` text, `timestamp` and `timestamp_subsec_nanos`.
///
/// Claimed: the result is the named function of the text; and `chrono`'s parser gives
/// up on any input shorter than 19 bytes (its source checks that length first).
/// Unsaid: which texts parse and what text comes back.
#[verifier::external_body]
pub(crate) fn rfc3339_parse(s: &str) -> (r: Option<Rfc3339Time>)
    ensures
        match r {
            Some(t) => chrono_rfc3339(s@) == Some(t@),
            None => chrono_rfc3339(s@) is None,
        },
        vstd::utf8::encode_utf8(s@).len() < 19 ==> r is None,
{
    chrono::DateTime::parse_from_rfc3339(s).ok().map(
        |dt| Rfc3339Time {
            text: dt.to_rfc3339(),
            instant: Instant { seconds: dt.timestamp(), nanos: dt.timestamp_subsec_nanos() },
        },
    )
}

/// The text of the error that `NaiveDate::parse_from_str` with `%Y-%m-%d` gives for a text
/// it refuses, as the error's `Display` writes it.
pub uninterp spec fn chrono_ymd_error(s: Seq<char>) -> Seq<char>;

/// Calls `chrono::NaiveDate::parse_from_str(s, "%Y-%m-%d")` and reads back the year,
/// month and day of the parsed date, or the text of the parse error.
///
/// Claimed: the result is the named function of the text; a parsed date exists and
/// lies in `chrono`'s range; a text of exactly four digits, a dash, two digits, a
/// dash and two digits parses to the date it spells whenever that date exists (and to
/// nothing otherwise), as the format's `%Y`, `%m` and `%d` read those digits; and the
/// error's text is a function of the text alone (its kind is what the parser met).
/// Unsaid: what other texts (signs, shorter fields, white space) parse to, and which
/// error text comes for which text.
#[verifier::external_body]
pub(crate) fn ymd_parse(s: &str) -> (r: Result<Date, String>)
    ensures
        match r {
            Ok(d) => chrono_parse_ymd(s@) == Some(d) && valid_date(d),
            Err(e) => chrono_parse_ymd(s@) is None && e@ == chrono_ymd_error(s@),
        },
        is_date_shaped(s@) ==> ((r is Ok) == valid_date(date_of_shape(s@)) && (r matches Ok(d)
            ==> d == date_of_shape(s@))),
{
    match NaiveDate::parse_from_str(s, "%Y-%m-%d") {
        Ok(d) => Ok(Date { year: d.year(), month: d.month(), day: d.day() }),
        Err(e) => Err(e.to_string()),
    }
}

/// Calls `NaiveDate::checked_add_signed` with one day.
///
/// Claimed: the result is the next calendar day, or nothing past `chrono`'s last date
/// (December 31 of year 262142).
#[verifier::external_body]
pub(crate) fn date_add_one_day(d: &Date) -> (r: Option<Date>)
    requires
        valid_date(*d),
    ensures
        r == next_date(*d),
{
    NaiveDate::from_ymd_opt(d.year, d.month, d.day).unwrap().checked_add_signed(
        chrono::Duration::days(1),
    ).map(|n| Date { year: n.year(), month: n.month(), day: n.day() })
}

/// Calls `NaiveDate::format` with `%Y-%m-%d` and collects the text.
///
/// Claimed: the exact text that `chrono`'s source writes: the year as four digits
/// from 0 to 9999 and with a sign and at least four digits otherwise, then the month and
/// the day as two digits each, joined by dashes.
#[verifier::external_body]
pub(crate) fn date_format(d: &Date) -> (r: String)
    requires
        valid_date(*d),
    ensures
        r@ == date_text(*d),
{
    NaiveDate::from_ymd_opt(d.year, d.month, d.day).unwrap().format("%Y-%m-%d").to_string()
}

/// Calls `NaiveDate::and_hms_opt(0, 0, 0)` and reads the `timestamp` of that time taken
/// as UTC.
///
/// Claimed: `timestamp` counts the non-leap seconds since 1970-01-01T00:00:00Z, as its
/// documentation says, so at midnight it is 86,400 times the days since that date; there
/// are no nanoseconds.
#[verifier::external_body]
pub(crate) fn date_midnight_utc(d: &Date) -> (r: Instant)
    requires
        valid_date(*d),
    ensures
        r == midnight_utc(*d),
{
    let t = NaiveDate::from_ymd_opt(d.year, d.month, d.day).unwrap().and_hms_opt(0, 0, 0).unwrap().and_utc();
    Instant { seconds: t.timestamp(), nanos: 0 }
}

} // verus!
