//! Calendar dates, instants and durations.
//!
//! The values are plain numbers. Calendar arithmetic, parsing and formatting
//! are chrono's; the items below that call chrono say what they rely on.

use chrono::{Datelike, DateTime, FixedOffset, Local, NaiveDate};
use vstd::prelude::*;

use crate::error::Error;
use crate::text::{debug_str, spec_debug_str, trim, trim_vec, chars_of, string_of};

verus! {

/// Smallest year chrono represents.
pub const MIN_YEAR: i32 = -262143;

/// Largest year chrono represents.
pub const MAX_YEAR: i32 = 262142;

/// A calendar date (proleptic Gregorian).
#[derive(Debug, Clone, Copy, PartialEq, Eq, Structural, PartialOrd, Ord, Hash)]
pub struct Date {
    pub year: i32,
    pub month: u32,
    pub day: u32,
}

/// An instant with the UTC offset it was written with: seconds and
/// nanoseconds since the Unix epoch (a leap second has `nanos` of one
/// second or more), and the offset east of UTC in seconds.
#[derive(Debug, Clone, Copy, PartialEq, Eq, Structural)]
pub struct Timestamp {
    pub secs: i64,
    pub nanos: u32,
    pub offset: i32,
}

pub open spec fn is_leap_year(y: int) -> bool {
    y % 4 == 0 && (y % 100 != 0 || y % 400 == 0)
}

pub open spec fn days_in_month(y: int, m: int) -> int {
    if m == 2 {
        if is_leap_year(y) {
            29
        } else {
            28
        }
    } else if m == 4 || m == 6 || m == 9 || m == 11 {
        30
    } else {
        31
    }
}

/// A date that exists and that chrono can represent.
pub open spec fn valid_date(y: int, m: int, d: int) -> bool {
    MIN_YEAR <= y <= MAX_YEAR && 1 <= m <= 12 && 1 <= d <= days_in_month(y, m)
}

pub open spec fn date_is_valid(d: Date) -> bool {
    valid_date(d.year as int, d.month as int, d.day as int)
}

// ---------------------------------------------------------------------------
// Decimal digits
// ---------------------------------------------------------------------------

pub open spec fn digit_char(n: int) -> char {
    (48 + n) as char
}

pub open spec fn digit_value(c: char) -> int {
    c as int - 48
}

pub open spec fn all_digits(s: Seq<char>) -> bool {
    forall|i: int| 0 <= i < s.len() ==> crate::text::is_digit(#[trigger] s[i])
}

/// Value of a string of decimal digits.
pub open spec fn digits_value(s: Seq<char>) -> int
    decreases s.len(),
{
    if s.len() == 0 {
        0
    } else {
        digits_value(s.drop_last()) * 10 + digit_value(s.last())
    }
}

/// `n` as two digits (`n < 100`).
pub open spec fn pad2(n: int) -> Seq<char> {
    seq![digit_char(n / 10), digit_char(n % 10)]
}

/// `n` as four digits (`n < 10000`).
pub open spec fn pad4(n: int) -> Seq<char> {
    seq![digit_char(n / 1000), digit_char((n / 100) % 10), digit_char((n / 10) % 10), digit_char(n % 10)]
}

/// `YYYY-MM-DD`.
pub open spec fn dashed_form(d: Date) -> Seq<char> {
    pad4(d.year as int) + seq!['-'] + pad2(d.month as int) + seq!['-'] + pad2(d.day as int)
}

/// `YYYYMMDD`.
pub open spec fn compact_form(d: Date) -> Seq<char> {
    pad4(d.year as int) + pad2(d.month as int) + pad2(d.day as int)
}

pub open spec fn date_of_parts(y: int, m: int, d: int) -> Option<Date> {
    if valid_date(y, m, d) {
        Some(Date { year: y as i32, month: m as u32, day: d as u32 })
    } else {
        None
    }
}

/// The date written as eight digits `YYYYMMDD`, if it exists.
pub open spec fn compact_date_of(s: Seq<char>) -> Option<Date> {
    date_of_parts(
        digits_value(s.subrange(0, 4)),
        digits_value(s.subrange(4, 6)),
        digits_value(s.subrange(6, 8)),
    )
}

/// The date written as `YYYY-MM-DD` (four, two and two digits), if it exists.
pub open spec fn dashed_date_of(s: Seq<char>) -> Option<Date> {
    date_of_parts(
        digits_value(s.subrange(0, 4)),
        digits_value(s.subrange(5, 7)),
        digits_value(s.subrange(8, 10)),
    )
}

pub open spec fn compact_shape(s: Seq<char>) -> bool {
    s.len() == 8 && all_digits(s)
}

pub open spec fn dashed_shape(s: Seq<char>) -> bool {
    s.len() == 10 && s[4] == '-' && s[7] == '-' && all_digits(s.subrange(0, 4)) && all_digits(
        s.subrange(5, 7),
    ) && all_digits(s.subrange(8, 10))
}

pub open spec fn date_result(r: Result<(i32, u32, u32), Seq<char>>) -> Result<Date, Seq<char>> {
    match r {
        Ok(t) => Ok(Date { year: t.0, month: t.1, day: t.2 }),
        Err(m) => Err(m),
    }
}

pub open spec fn string_result<T>(r: Result<T, String>) -> Result<T, Seq<char>> {
    match r {
        Ok(t) => Ok(t),
        Err(m) => Err(m@),
    }
}

/// A date read from a canonical form is the one it writes down.
pub open spec fn agrees_with(r: Result<Date, Seq<char>>, expected: Option<Date>) -> bool {
    match expected {
        Some(d) => r == Ok::<Date, Seq<char>>(d),
        None => r is Err,
    }
}

proof fn lemma_digits2(a: char, b: char)
    ensures
        digits_value(seq![a, b]) == digit_value(a) * 10 + digit_value(b),
{
    reveal_with_fuel(digits_value, 3);
    assert(seq![a, b].drop_last() =~= seq![a]);
    assert(seq![a].drop_last() =~= Seq::<char>::empty());
}

proof fn lemma_digits4(a: char, b: char, c: char, d: char)
    ensures
        digits_value(seq![a, b, c, d]) == ((digit_value(a) * 10 + digit_value(b)) * 10
            + digit_value(c)) * 10 + digit_value(d),
{
    reveal_with_fuel(digits_value, 5);
    assert(seq![a, b, c, d].drop_last() =~= seq![a, b, c]);
    assert(seq![a, b, c].drop_last() =~= seq![a, b]);
    assert(seq![a, b].drop_last() =~= seq![a]);
    assert(seq![a].drop_last() =~= Seq::<char>::empty());
}

proof fn lemma_pad2(n: int)
    requires
        0 <= n < 100,
    ensures
        digits_value(pad2(n)) == n,
        all_digits(pad2(n)),
{
    lemma_digits2(digit_char(n / 10), digit_char(n % 10));
}

proof fn lemma_pad4(n: int)
    requires
        0 <= n < 10000,
    ensures
        digits_value(pad4(n)) == n,
        all_digits(pad4(n)),
{
    lemma_digits4(
        digit_char(n / 1000),
        digit_char((n / 100) % 10),
        digit_char((n / 10) % 10),
        digit_char(n % 10),
    );
    assert(((n / 1000 * 10 + (n / 100) % 10) * 10 + (n / 10) % 10) * 10 + n % 10 == n)
        by (nonlinear_arith)
        requires
            0 <= n < 10000,
    ;
}

/// Reading back the written forms of a date gives the date.
pub proof fn lemma_date_forms(d: Date)
    requires
        date_is_valid(d),
        0 <= d.year <= 9999,
    ensures
        compact_shape(compact_form(d)),
        compact_date_of(compact_form(d)) == Some(d),
        dashed_shape(dashed_form(d)),
        dashed_date_of(dashed_form(d)) == Some(d),
{
    lemma_pad4(d.year as int);
    lemma_pad2(d.month as int);
    lemma_pad2(d.day as int);
    let c = compact_form(d);
    assert(c.subrange(0, 4) =~= pad4(d.year as int));
    assert(c.subrange(4, 6) =~= pad2(d.month as int));
    assert(c.subrange(6, 8) =~= pad2(d.day as int));
    let s = dashed_form(d);
    assert(s.subrange(0, 4) =~= pad4(d.year as int));
    assert(s.subrange(5, 7) =~= pad2(d.month as int));
    assert(s.subrange(8, 10) =~= pad2(d.day as int));
    assert forall|i: int| 0 <= i < c.len() implies crate::text::is_digit(#[trigger] c[i]) by {
        if i < 4 {
            assert(c[i] == pad4(d.year as int)[i]);
        } else if i < 6 {
            assert(c[i] == pad2(d.month as int)[i - 4]);
        } else {
            assert(c[i] == pad2(d.day as int)[i - 6]);
        }
    }
}

// ---------------------------------------------------------------------------
// chrono
// ---------------------------------------------------------------------------

/// What `NaiveDate::format(fmt)` writes for the date `(y, m, d)`.
pub uninterp spec fn chrono_date_text(fmt: Seq<char>, y: i32, m: u32, d: u32) -> Seq<char>;

/// What `NaiveDate::parse_from_str(s, fmt)` gives: the date, or the
/// `Display` text of the parse error.
pub uninterp spec fn chrono_date_parse(s: Seq<char>, fmt: Seq<char>) -> Result<(i32, u32, u32), Seq<char>>;

/// What `DateTime::<FixedOffset>::to_rfc3339` writes for an instant.
pub uninterp spec fn chrono_rfc3339_text(secs: i64, nanos: u32, offset: i32) -> Seq<char>;

/// What `DateTime::parse_from_rfc3339` gives: `(secs, nanos, offset)`, or
/// the `Display` text of the parse error.
pub uninterp spec fn chrono_rfc3339_parse(s: Seq<char>) -> Result<(i64, u32, i32), Seq<char>>;

/// `later.signed_duration_since(earlier)` as `(secs, nanos)`.
pub uninterp spec fn chrono_duration_between(
    later_secs: i64,
    later_nanos: u32,
    earlier_secs: i64,
    earlier_nanos: u32,
) -> (i64, i32);

/// The local calendar date of an instant (`DateTime::date_naive`).
pub uninterp spec fn chrono_local_date(secs: i64, nanos: u32, offset: i32) -> (i32, u32, u32);

/// `NaiveDate::from_ymd_opt`: `Some` exactly for the dates that exist in
/// chrono's year range, as its documentation says.
#[verifier::external_body]
fn naive_ymd(year: i32, month: u32, day: u32) -> (r: Option<Date>)
    ensures
        r == date_of_parts(year as int, month as int, day as int),
{
    NaiveDate::from_ymd_opt(year, month, day).map(|_| Date { year, month, day })
}

/// The date `year-month-day`, when it exists.
pub fn date_from_ymd(year: i32, month: u32, day: u32) -> (r: Option<Date>)
    ensures
        r == date_of_parts(year as int, month as int, day as int),
{
    naive_ymd(year, month, day)
}

/// `NaiveDate::format("%Y%m%d")`. For years 0 to 9999 it writes four, two
/// and two zero-padded digits (chrono's `write_hundreds` for `%Y`, `%m`, `%d`).
#[verifier::external_body]
fn date_compact_text(d: Date) -> (r: String)
    requires
        date_is_valid(d),
    ensures
        r@ == chrono_date_text("%Y%m%d"@, d.year, d.month, d.day),
        0 <= d.year <= 9999 ==> r@ == compact_form(d),
{
    match NaiveDate::from_ymd_opt(d.year, d.month, d.day) {
        Some(n) => n.format("%Y%m%d").to_string(),
        None => String::new(),
    }
}

/// `NaiveDate::format("%Y-%m-%d")`, like [`date_compact_text`] with dashes.
#[verifier::external_body]
fn date_dashed_text(d: Date) -> (r: String)
    requires
        date_is_valid(d),
    ensures
        r@ == chrono_date_text("%Y-%m-%d"@, d.year, d.month, d.day),
        0 <= d.year <= 9999 ==> r@ == dashed_form(d),
{
    match NaiveDate::from_ymd_opt(d.year, d.month, d.day) {
        Some(n) => n.format("%Y-%m-%d").to_string(),
        None => String::new(),
    }
}

/// `NaiveDate::parse_from_str(s, "%Y%m%d")`. Without a sign `%Y` reads at
/// most four digits and `%m`, `%d` at most two, so eight digits are read as
/// `YYYYMMDD`, and the date must exist.
#[verifier::external_body]
fn date_parse_compact(s: &str) -> (r: Result<Date, String>)
    ensures
        string_result(r) == date_result(chrono_date_parse(s@, "%Y%m%d"@)),
        compact_shape(s@) ==> agrees_with(string_result(r), compact_date_of(s@)),
        r matches Ok(d) ==> date_is_valid(d),
{
    match NaiveDate::parse_from_str(s, "%Y%m%d") {
        Ok(n) => Ok(Date { year: n.year(), month: n.month(), day: n.day() }),
        Err(e) => Err(e.to_string()),
    }
}

/// `NaiveDate::parse_from_str(s, "%Y-%m-%d")`, read like [`date_parse_compact`].
#[verifier::external_body]
fn date_parse_dashed(s: &str) -> (r: Result<Date, String>)
    ensures
        string_result(r) == date_result(chrono_date_parse(s@, "%Y-%m-%d"@)),
        dashed_shape(s@) ==> agrees_with(string_result(r), dashed_date_of(s@)),
        r matches Ok(d) ==> date_is_valid(d),
{
    match NaiveDate::parse_from_str(s, "%Y-%m-%d") {
        Ok(n) => Ok(Date { year: n.year(), month: n.month(), day: n.day() }),
        Err(e) => Err(e.to_string()),
    }
}

/// `YYYYMMDD` of a date (`format("%Y%m%d")`).
pub fn compact_date_text(d: Date) -> (r: String)
    requires
        date_is_valid(d),
    ensures
        r@ == chrono_date_text("%Y%m%d"@, d.year, d.month, d.day),
        0 <= d.year <= 9999 ==> r@ == compact_form(d),
{
    date_compact_text(d)
}

/// `YYYY-MM-DD` of a date (`format("%Y-%m-%d")`).
pub fn dashed_date_text(d: Date) -> (r: String)
    requires
        date_is_valid(d),
    ensures
        r@ == chrono_date_text("%Y-%m-%d"@, d.year, d.month, d.day),
        0 <= d.year <= 9999 ==> r@ == dashed_form(d),
{
    date_dashed_text(d)
}

/// Reads `YYYYMMDD`; the error is chrono's message.
pub fn parse_compact_date(s: &str) -> (r: Result<Date, String>)
    ensures
        string_result(r) == date_result(chrono_date_parse(s@, "%Y%m%d"@)),
        compact_shape(s@) ==> agrees_with(string_result(r), compact_date_of(s@)),
        r matches Ok(d) ==> date_is_valid(d),
{
    date_parse_compact(s)
}

/// Reads `YYYY-MM-DD`; the error is chrono's message.
pub fn parse_dashed_date(s: &str) -> (r: Result<Date, String>)
    ensures
        string_result(r) == date_result(chrono_date_parse(s@, "%Y-%m-%d"@)),
        dashed_shape(s@) ==> agrees_with(string_result(r), dashed_date_of(s@)),
        r matches Ok(d) ==> date_is_valid(d),
{
    date_parse_dashed(s)
}

pub open spec fn timestamp_result(r: Result<(i64, u32, i32), Seq<char>>) -> Result<Timestamp, Seq<char>> {
    match r {
        Ok(t) => Ok(Timestamp { secs: t.0, nanos: t.1, offset: t.2 }),
        Err(m) => Err(m),
    }
}

/// The text `to_rfc3339` writes for `t`.
pub open spec fn rfc3339_of(t: Timestamp) -> Seq<char> {
    chrono_rfc3339_text(t.secs, t.nanos, t.offset)
}

/// Whether writing `t` and reading it back gives `t`.
pub open spec fn rfc3339_stable(t: Timestamp) -> bool {
    timestamp_result(chrono_rfc3339_parse(rfc3339_of(t))) == Ok::<Timestamp, Seq<char>>(t)
}

/// First second of chrono's range of date-times (`-262143-01-01T00:00:00`),
/// in seconds since the Unix epoch.
pub const MIN_LOCAL_SECS: i64 = -8334601315200;

/// Last second of chrono's range of date-times (`262142-12-31T23:59:59`).
pub const MAX_LOCAL_SECS: i64 = 8210266876799;

/// The wall-clock time of `t` at its own offset is one chrono can hold.
pub open spec fn local_in_range(t: Timestamp) -> bool {
    MIN_LOCAL_SECS <= t.secs + t.offset <= MAX_LOCAL_SECS
}

/// Whether the wall-clock time of `t` at its own offset is one chrono can
/// hold (what `local_date` needs).
pub fn local_date_in_range(t: Timestamp) -> (r: bool)
    ensures
        r == local_in_range(t),
{
    let local: i128 = t.secs as i128 + t.offset as i128;
    MIN_LOCAL_SECS as i128 <= local && local <= MAX_LOCAL_SECS as i128
}

/// `DateTime::parse_from_rfc3339`. An instant it reads is written back by
/// `to_rfc3339` as text that it reads as the same instant and offset: the
/// offset is whole minutes, the year has four digits and the fraction keeps
/// every non-zero digit (chrono's `write_rfc3339` with `SecondsFormat::AutoSi`).
/// The text gives the wall-clock time with a four-digit year and an offset
/// below a day (`parse_rfc3339`, then `Parsed::to_datetime`), so that time is
/// in chrono's range.
#[verifier::external_body]
fn rfc3339_parse(s: &str) -> (r: Result<Timestamp, String>)
    ensures
        string_result(r) == timestamp_result(chrono_rfc3339_parse(s@)),
        r matches Ok(t) ==> rfc3339_stable(t) && local_in_range(t),
{
    match DateTime::parse_from_rfc3339(s) {
        Ok(t) => Ok(Timestamp {
            secs: t.timestamp(),
            nanos: t.timestamp_subsec_nanos(),
            offset: t.offset().local_minus_utc(),
        }),
        Err(e) => Err(e.to_string()),
    }
}

/// A character of an RFC 3339 time as chrono writes it: a digit, `-`, `+`,
/// `:`, `T`, `.` or `Z`.
pub open spec fn rfc3339_char(c: char) -> bool {
    crate::text::is_digit(c) || c == '-' || c == '+' || c == ':' || c == 'T' || c == '.' || c == 'Z'
}

/// `DateTime::<FixedOffset>::to_rfc3339` of the instant `t` seen at its
/// offset. An instant chrono cannot hold gives the empty string. chrono's
/// `write_rfc3339` writes only digits, signs, `T`, `:`, `.` (and `Z`).
#[verifier::external_body]
fn rfc3339_write(t: Timestamp) -> (r: String)
    ensures
        r@ == chrono_rfc3339_text(t.secs, t.nanos, t.offset),
        forall|i: int| 0 <= i < r@.len() ==> rfc3339_char(#[trigger] r@[i]),
{
    match (DateTime::from_timestamp(t.secs, t.nanos), FixedOffset::east_opt(t.offset)) {
        (Some(utc), Some(offset)) => utc.with_timezone(&offset).to_rfc3339(),
        _ => String::new(),
    }
}

/// Reads an RFC 3339 time; the error is chrono's message.
pub fn parse_rfc3339(s: &str) -> (r: Result<Timestamp, String>)
    ensures
        string_result(r) == timestamp_result(chrono_rfc3339_parse(s@)),
        r matches Ok(t) ==> rfc3339_stable(t) && local_in_range(t),
{
    rfc3339_parse(s)
}

/// The RFC 3339 text of an instant.
pub fn rfc3339(t: Timestamp) -> (r: String)
    ensures
        r@ == rfc3339_of(t),
        forall|i: int| 0 <= i < r@.len() ==> rfc3339_char(#[trigger] r@[i]),
{
    rfc3339_write(t)
}

/// The current local time (`Local::now`). Nothing is known of it.
#[verifier::external_body]
fn local_now() -> Timestamp {
    let t = Local::now().fixed_offset();
    Timestamp {
        secs: t.timestamp(),
        nanos: t.timestamp_subsec_nanos(),
        offset: t.offset().local_minus_utc(),
    }
}

/// `DateTime::date_naive`: the calendar date at the instant's own offset.
/// chrono panics (`naive_local`) when that wall-clock time is outside its
/// range, which `requires` leaves out.
#[verifier::external_body]
fn naive_date(t: Timestamp) -> (r: Date)
    requires
        local_in_range(t),
    ensures
        (r.year, r.month, r.day) == chrono_local_date(t.secs, t.nanos, t.offset),
        date_is_valid(r),
{
    let n = match (DateTime::from_timestamp(t.secs, t.nanos), FixedOffset::east_opt(t.offset)) {
        (Some(utc), Some(offset)) => utc.with_timezone(&offset).date_naive(),
        _ => NaiveDate::default(),
    };
    Date { year: n.year(), month: n.month(), day: n.day() }
}

/// The local date of an instant whose wall-clock time chrono can hold.
pub fn local_date(t: Timestamp) -> (r: Date)
    requires
        local_in_range(t),
    ensures
        (r.year, r.month, r.day) == chrono_local_date(t.secs, t.nanos, t.offset),
        date_is_valid(r),
{
    naive_date(t)
}

/// Environment variable that fixes the current time (RFC 3339).
pub const NOW_ENV: &'static str = "CTX_SYNC_NOW";

/// The time given as RFC 3339 text (after trimming), or the local time when
/// none is given.
pub fn parse_now(value: Option<&str>) -> (r: Result<Timestamp, Error>)
    ensures
        value is None ==> r is Ok,
        value is Some && r is Ok ==> local_in_range(r->Ok_0),
        value matches Some(v) ==> match r {
            Ok(t) => timestamp_result(chrono_rfc3339_parse(trim(v@))) == Ok::<Timestamp, Seq<char>>(t),
            Err(e) => chrono_rfc3339_parse(trim(v@)) matches Err(ce) && (e matches Error::InvalidConfig(m)
                && m@ == "CTX_SYNC_NOW must be an RFC 3339 time: "@ + spec_debug_str(v@) + " ("@ + ce
                + ")"@),
        },
{
    match value {
        None => Ok(local_now()),
        Some(v) => {
            let t = string_of(&trim_vec(&chars_of(v)));
            match parse_rfc3339(t.as_str()) {
                Ok(ts) => Ok(ts),
                Err(ce) => {
                    let mut m = String::new();
                    m.append("CTX_SYNC_NOW must be an RFC 3339 time: ");
                    let d = debug_str(v);
                    m.append(d.as_str());
                    m.append(" (");
                    m.append(ce.as_str());
                    m.append(")");
                    Err(Error::InvalidConfig(m))
                },
            }
        },
    }
}

// ---------------------------------------------------------------------------
// Durations
// ---------------------------------------------------------------------------

/// A signed duration of `secs` seconds plus `nanos` (below one second)
/// nanoseconds, bounded by `i64::MAX` milliseconds either way.
#[derive(Debug, Clone, Copy, PartialEq, Eq, Structural)]
pub struct TimeDelta {
    pub secs: i64,
    pub nanos: u32,
}

/// Largest whole number of seconds in a duration.
pub const MAX_DELTA_SECS: i64 = 9223372036854775;

pub open spec fn total_nanos(d: TimeDelta) -> int {
    d.secs * 1_000_000_000 + d.nanos
}

pub open spec fn delta_well_formed(d: TimeDelta) -> bool {
    d.nanos < 1_000_000_000
}

/// `TimeDelta::try_seconds`: the duration exists within the bounds.
pub open spec fn seconds_delta(s: int) -> Option<TimeDelta> {
    if -MAX_DELTA_SECS <= s <= MAX_DELTA_SECS {
        Some(TimeDelta { secs: s as i64, nanos: 0 })
    } else {
        None
    }
}

impl TimeDelta {
    /// `TimeDelta::try_seconds`.
    pub fn try_seconds(seconds: i64) -> (r: Option<TimeDelta>)
        ensures
            r == seconds_delta(seconds as int),
    {
        if -MAX_DELTA_SECS <= seconds && seconds <= MAX_DELTA_SECS {
            Some(TimeDelta { secs: seconds, nanos: 0 })
        } else {
            None
        }
    }

    /// `seconds * unit` seconds, `None` when out of range.
    fn try_scaled(amount: i64, unit: i64) -> (r: Option<TimeDelta>)
        requires
            0 < unit <= 604800,
        ensures
            r == seconds_delta(amount * unit),
    {
        let limit: i64 = MAX_DELTA_SECS / unit;
        if -limit <= amount && amount <= limit {
            assert(-MAX_DELTA_SECS <= amount * unit <= MAX_DELTA_SECS) by (nonlinear_arith)
                requires
                    -limit <= amount <= limit,
                    limit == MAX_DELTA_SECS / unit,
                    0 < unit,
            ;
            TimeDelta::try_seconds(amount * unit)
        } else {
            assert(amount * unit < -MAX_DELTA_SECS || amount * unit > MAX_DELTA_SECS)
                by (nonlinear_arith)
                requires
                    amount < -limit || amount > limit,
                    limit == MAX_DELTA_SECS / unit,
                    0 < unit,
            ;
            None
        }
    }

    /// `TimeDelta::try_minutes`.
    pub fn try_minutes(minutes: i64) -> (r: Option<TimeDelta>)
        ensures
            r == seconds_delta(minutes * 60),
    {
        TimeDelta::try_scaled(minutes, 60)
    }

    /// `TimeDelta::try_hours`.
    pub fn try_hours(hours: i64) -> (r: Option<TimeDelta>)
        ensures
            r == seconds_delta(hours * 3600),
    {
        TimeDelta::try_scaled(hours, 3600)
    }

    /// `TimeDelta::try_days`.
    pub fn try_days(days: i64) -> (r: Option<TimeDelta>)
        ensures
            r == seconds_delta(days * 86400),
    {
        TimeDelta::try_scaled(days, 86400)
    }

    /// `TimeDelta::try_weeks`.
    pub fn try_weeks(weeks: i64) -> (r: Option<TimeDelta>)
        ensures
            r == seconds_delta(weeks * 604800),
    {
        TimeDelta::try_scaled(weeks, 604800)
    }

    /// Whole seconds, rounded toward zero (`num_seconds`).
    pub fn num_seconds(&self) -> (r: i64)
        requires
            delta_well_formed(*self),
        ensures
            r == (if self.secs < 0 && self.nanos > 0 {
                self.secs + 1
            } else {
                self.secs as int
            }),
    {
        if self.secs < 0 && self.nanos > 0 {
            self.secs + 1
        } else {
            self.secs
        }
    }

    /// Whether `self` is longer than `other` (chrono orders by `(secs, nanos)`).
    pub fn longer_than(&self, other: &TimeDelta) -> (r: bool)
        ensures
            r == (self.secs > other.secs || (self.secs == other.secs && self.nanos
                > other.nanos)),
    {
        self.secs > other.secs || (self.secs == other.secs && self.nanos > other.nanos)
    }
}

/// `DateTime::signed_duration_since` of two instants, as chrono reports it:
/// `(num_seconds, subsec_nanos)`, whose sum in nanoseconds is the duration.
/// A duration is at most `i64::MAX` milliseconds either way. Away from leap
/// seconds it is the plain difference (chrono subtracts the dates and the
/// times of day).
#[verifier::external_body]
fn signed_duration(later: Timestamp, earlier: Timestamp) -> (r: (i64, i32))
    ensures
        r == chrono_duration_between(later.secs, later.nanos, earlier.secs, earlier.nanos),
        -MAX_DELTA_SECS <= r.0 <= MAX_DELTA_SECS,
        -1_000_000_000 < r.1 < 1_000_000_000,
        later.nanos < 1_000_000_000 && earlier.nanos < 1_000_000_000 && -0x100_0000_0000
            <= later.secs <= 0x100_0000_0000 && -0x100_0000_0000 <= earlier.secs
            <= 0x100_0000_0000 ==> r.0 * 1_000_000_000 + r.1 == (later.secs - earlier.secs)
            * 1_000_000_000 + later.nanos - earlier.nanos,
{
    match (DateTime::from_timestamp(later.secs, later.nanos), DateTime::from_timestamp(earlier.secs, earlier.nanos)) {
        (Some(a), Some(b)) => {
            let d = a.signed_duration_since(b);
            (d.num_seconds(), d.subsec_nanos())
        },
        _ => (0, 0),
    }
}

/// Time elapsed from `earlier` to `later`.
pub fn duration_since(later: Timestamp, earlier: Timestamp) -> (r: TimeDelta)
    ensures
        delta_well_formed(r),
        total_nanos(r) == chrono_duration_between(later.secs, later.nanos, earlier.secs, earlier.nanos).0
            * 1_000_000_000 + chrono_duration_between(later.secs, later.nanos, earlier.secs, earlier.nanos).1,
        -1_000_000_000 < chrono_duration_between(later.secs, later.nanos, earlier.secs, earlier.nanos).1
            < 1_000_000_000,
        -MAX_DELTA_SECS <= chrono_duration_between(later.secs, later.nanos, earlier.secs, earlier.nanos).0
            <= MAX_DELTA_SECS,
{
    let (s, n) = signed_duration(later, earlier);
    if n < 0 {
        TimeDelta { secs: s - 1, nanos: (n + 1_000_000_000) as u32 }
    } else {
        TimeDelta { secs: s, nanos: n as u32 }
    }
}

} // verus!
