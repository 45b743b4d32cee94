//! Times for plugins: parsing the common textual forms into Unix timestamps (with the
//! `chrono` crate), and phrasing a time difference in words ("47 minutes ago",
//! "tomorrow").

use vstd::prelude::*;
use vstd::string::*;
use crate::text::from_chars;

verus! {

broadcast use vstd::seq_lib::group_seq_properties;

/// The decimal digit for `n` (below 10).
pub open spec fn digit_char(n: int) -> char {
    ('0' as int + n) as char
}

/// The decimal notation of `n`.
pub open spec fn decimal(n: nat) -> Seq<char>
    decreases n,
{
    if n < 10 {
        seq![digit_char(n as int)]
    } else {
        decimal(n / 10).push(digit_char((n % 10) as int))
    }
}

fn decimal_chars(n: u128) -> (v: Vec<char>)
    ensures
        v@ == decimal(n as nat),
    decreases n,
{
    if n < 10 {
        let mut v: Vec<char> = Vec::new();
        v.push(((48u8 + n as u8) as char));
        v
    } else {
        let mut v = decimal_chars(n / 10);
        v.push(((48u8 + (n % 10) as u8) as char));
        v
    }
}

/// The decimal notation of `n`.
pub fn decimal_string(n: u128) -> (s: String)
    ensures
        s@ == decimal(n as nat),
{
    let v = decimal_chars(n);
    from_chars(v.as_slice())
}

/// `n` followed by a space and `unit`.
pub open spec fn counted(n: int, unit: Seq<char>) -> Seq<char> {
    decimal(n as nat) + seq![' '] + unit
}

/// A phrase placed in the future ("in …") or in the past ("… ago").
pub open spec fn around(future: bool, p: Seq<char>) -> Seq<char> {
    if future {
        "in "@ + p
    } else {
        p + " ago"@
    }
}

/// A time difference of `delta` seconds in words: minutes under an hour, hours under a day,
/// then "yesterday"/"tomorrow" up to a day and a half, days under a week, "last/next week"
/// under two weeks, weeks under thirty days, "last/next month" under forty-five days,
/// months (of thirty days) under a year, "last/next year" under 545 days, else years. A
/// positive difference lies in the future.
pub open spec fn relative_phrase_spec(delta: int) -> Seq<char> {
    let a = if delta < 0 {
        -delta
    } else {
        delta
    };
    let f = delta > 0;
    if a < 60 {
        around(f, "1 minute"@)
    } else if a < 3600 {
        around(f, counted(a / 60, "minutes"@))
    } else if a < 86400 {
        if a / 3600 <= 1 {
            around(f, "1 hour"@)
        } else {
            around(f, counted(a / 3600, "hours"@))
        }
    } else if a < 129600 {
        if f {
            "tomorrow"@
        } else {
            "yesterday"@
        }
    } else if a < 604800 {
        around(f, counted(a / 86400, "days"@))
    } else if a < 1209600 {
        if f {
            "next week"@
        } else {
            "last week"@
        }
    } else if a < 2592000 {
        around(f, counted(a / 604800, "weeks"@))
    } else if a < 3888000 {
        if f {
            "next month"@
        } else {
            "last month"@
        }
    } else if a < 31536000 {
        around(f, counted(a / 2592000, "months"@))
    } else if a < 47088000 {
        if f {
            "next year"@
        } else {
            "last year"@
        }
    } else {
        around(f, counted(a / 31536000, "years"@))
    }
}

fn counted_string(n: u64, unit: &str) -> (s: String)
    ensures
        s@ == counted(n as int, unit@),
{
    let mut s = decimal_string(n as u128);
    proof {
        reveal_strlit(" ");
    }
    s.append(" ");
    s.append(unit);
    s
}

fn around_string(future: bool, p: String) -> (s: String)
    ensures
        s@ == around(future, p@),
{
    if future {
        let mut s = String::from_str("in ");
        s.append(p.as_str());
        s
    } else {
        let mut s = p;
        s.append(" ago");
        s
    }
}

/// A time difference of `delta_seconds` in words (see `relative_phrase_spec`).
pub fn relative_phrase(delta_seconds: i64) -> (s: String)
    ensures
        s@ == relative_phrase_spec(delta_seconds as int),
{
    let future = delta_seconds > 0;
    let a: u64 = if delta_seconds < 0 {
        if delta_seconds == i64::MIN {
            9223372036854775808u64
        } else {
            (-delta_seconds) as u64
        }
    } else {
        delta_seconds as u64
    };
    if a < 60 {
        around_string(future, String::from_str("1 minute"))
    } else if a < 3600 {
        around_string(future, counted_string(a / 60, "minutes"))
    } else if a < 86400 {
        if a / 3600 <= 1 {
            around_string(future, String::from_str("1 hour"))
        } else {
            around_string(future, counted_string(a / 3600, "hours"))
        }
    } else if a < 129600 {
        if future {
            String::from_str("tomorrow")
        } else {
            String::from_str("yesterday")
        }
    } else if a < 604800 {
        around_string(future, counted_string(a / 86400, "days"))
    } else if a < 1209600 {
        if future {
            String::from_str("next week")
        } else {
            String::from_str("last week")
        }
    } else if a < 2592000 {
        around_string(future, counted_string(a / 604800, "weeks"))
    } else if a < 3888000 {
        if future {
            String::from_str("next month")
        } else {
            String::from_str("last month")
        }
    } else if a < 31536000 {
        around_string(future, counted_string(a / 2592000, "months"))
    } else if a < 47088000 {
        if future {
            String::from_str("next year")
        } else {
            String::from_str("last year")
        }
    } else {
        around_string(future, counted_string(a / 31536000, "years"))
    }
}

/// The size of a time difference, whatever its direction.
pub open spec fn magnitude(delta: int) -> int {
    if delta < 0 {
        -delta
    } else {
        delta
    }
}

/// `n` units of time ahead ("in 3 days") or gone by ("3 days ago").
pub open spec fn units_phrase(future: bool, n: nat, unit: Seq<char>) -> Seq<char> {
    if future {
        "in "@ + decimal(n) + seq![' '] + unit
    } else {
        decimal(n) + seq![' '] + unit + " ago"@
    }
}

proof fn lemma_whole_units(a: int, u: int, n: nat)
    requires
        u > 0,
        n * u <= a < (n + 1) * u,
    ensures
        a / u == n,
{
    assert(a / u == n) by (nonlinear_arith)
        requires
            u > 0,
            n * u <= a < (n + 1) * u,
    {
        let q = a / u;
        let r = a % u;
        assert(a == q * u + r && 0 <= r < u);
        if q < n {
            assert(q + 1 <= n);
            assert((q + 1) * u <= n * u);
        } else if q > n {
            assert(n + 1 <= q);
            assert((n + 1) * u <= q * u);
        }
    }
}

proof fn lemma_units_phrase(future: bool, n: nat, unit: Seq<char>)
    ensures
        around(future, counted(n as int, unit)) == units_phrase(future, n, unit),
{
    assert(("in "@ + (decimal(n) + seq![' '] + unit)) =~= ("in "@ + decimal(n) + seq![' '] + unit));
}

/// A difference told in units of time names how many whole units it spans: `n` when it is
/// at least `n` and less than `n + 1` units, in minutes under an hour, hours from two hours
/// to a day, days from a day and a half to a week, weeks from two weeks to thirty days,
/// months of thirty days from forty-five days to a year, and years of 365 days from 545 days
/// on; "in …" when it lies ahead, "… ago" when it has passed.
pub proof fn law_counted_phrases(delta: int, n: nat)
    ensures
        60 <= magnitude(delta) < 3600 && n * 60 <= magnitude(delta) < (n + 1) * 60 ==> relative_phrase_spec(delta)
            == units_phrase(delta > 0, n, "minutes"@),
        7200 <= magnitude(delta) < 86400 && n * 3600 <= magnitude(delta) < (n + 1) * 3600
            ==> relative_phrase_spec(delta) == units_phrase(delta > 0, n, "hours"@),
        129600 <= magnitude(delta) < 604800 && n * 86400 <= magnitude(delta) < (n + 1) * 86400
            ==> relative_phrase_spec(delta) == units_phrase(delta > 0, n, "days"@),
        1209600 <= magnitude(delta) < 2592000 && n * 604800 <= magnitude(delta) < (n + 1) * 604800
            ==> relative_phrase_spec(delta) == units_phrase(delta > 0, n, "weeks"@),
        3888000 <= magnitude(delta) < 31536000 && n * 2592000 <= magnitude(delta) < (n + 1) * 2592000
            ==> relative_phrase_spec(delta) == units_phrase(delta > 0, n, "months"@),
        47088000 <= magnitude(delta) && n * 31536000 <= magnitude(delta) < (n + 1) * 31536000
            ==> relative_phrase_spec(delta) == units_phrase(delta > 0, n, "years"@),
{
    let a = magnitude(delta);
    let f = delta > 0;
    if 60 <= a < 3600 && n * 60 <= a < (n + 1) * 60 {
        lemma_whole_units(a, 60, n);
        lemma_units_phrase(f, n, "minutes"@);
    }
    if 7200 <= a < 86400 && n * 3600 <= a < (n + 1) * 3600 {
        lemma_whole_units(a, 3600, n);
        lemma_units_phrase(f, n, "hours"@);
    }
    if 129600 <= a < 604800 && n * 86400 <= a < (n + 1) * 86400 {
        lemma_whole_units(a, 86400, n);
        lemma_units_phrase(f, n, "days"@);
    }
    if 1209600 <= a < 2592000 && n * 604800 <= a < (n + 1) * 604800 {
        lemma_whole_units(a, 604800, n);
        lemma_units_phrase(f, n, "weeks"@);
    }
    if 3888000 <= a < 31536000 && n * 2592000 <= a < (n + 1) * 2592000 {
        lemma_whole_units(a, 2592000, n);
        lemma_units_phrase(f, n, "months"@);
    }
    if 47088000 <= a && n * 31536000 <= a < (n + 1) * 31536000 {
        lemma_whole_units(a, 31536000, n);
        lemma_units_phrase(f, n, "years"@);
    }
}

/// The differences told in words: under a minute "1 minute", from one to two hours
/// "1 hour", then, by direction, "tomorrow"/"yesterday" from a day to a day and a half,
/// "next week"/"last week" from a week to two, "next month"/"last month" from thirty to
/// forty-five days, and "next year"/"last year" from 365 to 545 days.
pub proof fn law_worded_phrases(delta: int)
    ensures
        magnitude(delta) < 60 ==> relative_phrase_spec(delta) == (if delta > 0 {
            "in 1 minute"@
        } else {
            "1 minute ago"@
        }),
        3600 <= magnitude(delta) < 7200 ==> relative_phrase_spec(delta) == (if delta > 0 {
            "in 1 hour"@
        } else {
            "1 hour ago"@
        }),
        86400 <= magnitude(delta) < 129600 ==> relative_phrase_spec(delta) == (if delta > 0 {
            "tomorrow"@
        } else {
            "yesterday"@
        }),
        604800 <= magnitude(delta) < 1209600 ==> relative_phrase_spec(delta) == (if delta > 0 {
            "next week"@
        } else {
            "last week"@
        }),
        2592000 <= magnitude(delta) < 3888000 ==> relative_phrase_spec(delta) == (if delta > 0 {
            "next month"@
        } else {
            "last month"@
        }),
        31536000 <= magnitude(delta) < 47088000 ==> relative_phrase_spec(delta) == (if delta > 0 {
            "next year"@
        } else {
            "last year"@
        }),
{
    reveal_strlit("in 1 minute");
    reveal_strlit("1 minute ago");
    reveal_strlit("1 minute");
    reveal_strlit("in 1 hour");
    reveal_strlit("1 hour ago");
    reveal_strlit("1 hour");
    reveal_strlit("in ");
    reveal_strlit(" ago");
    let a = magnitude(delta);
    if 3600 <= a < 7200 {
        assert(a / 3600 == 1);
    }
    assert("in "@ + "1 minute"@ =~= "in 1 minute"@);
    assert("1 minute"@ + " ago"@ =~= "1 minute ago"@);
    assert("in "@ + "1 hour"@ =~= "in 1 hour"@);
    assert("1 hour"@ + " ago"@ =~= "1 hour ago"@);
}

/// The timestamp of an RFC 3339 date and time (`DateTime::parse_from_rfc3339`), if it is one.
pub uninterp spec fn rfc3339_timestamp(s: Seq<char>) -> Option<i64>;

/// The timestamp of a date and time with an offset in the layout `fmt`
/// (`DateTime::parse_from_str`), if it is one.
pub uninterp spec fn offset_timestamp(s: Seq<char>, fmt: Seq<char>) -> Option<i64>;

/// The timestamp of a date and time without offset in the layout `fmt`, taken as UTC
/// (`NaiveDateTime::parse_from_str`), if it is one.
pub uninterp spec fn naive_timestamp(s: Seq<char>, fmt: Seq<char>) -> Option<i64>;

/// The timestamp of the start (UTC) of a date in the layout `fmt`
/// (`NaiveDate::parse_from_str`), if it is one.
pub uninterp spec fn date_timestamp(s: Seq<char>, fmt: Seq<char>) -> Option<i64>;

/// The timestamp of an RFC 2822 date and time (`DateTime::parse_from_rfc2822`), if it is one.
pub uninterp spec fn rfc2822_timestamp(s: Seq<char>) -> Option<i64>;

/// Calls `chrono::DateTime::parse_from_rfc3339` and keeps the Unix timestamp of what it
/// parsed. The contract only names the result (`rfc3339_timestamp`); it claims nothing of
/// which texts parse.
#[verifier::external_body]
fn parse_rfc3339(s: &str) -> (r: Option<i64>)
    ensures
        r == rfc3339_timestamp(s@),
{
    match chrono::DateTime::parse_from_rfc3339(s) {
        Ok(dt) => Some(dt.timestamp()),
        Err(_) => None,
    }
}

/// Calls `chrono::DateTime::parse_from_str` with the layout `fmt` and keeps the Unix
/// timestamp. The contract only names the result (`offset_timestamp`).
#[verifier::external_body]
fn parse_with_offset(s: &str, fmt: &str) -> (r: Option<i64>)
    ensures
        r == offset_timestamp(s@, fmt@),
{
    match chrono::DateTime::parse_from_str(s, fmt) {
        Ok(dt) => Some(dt.timestamp()),
        Err(_) => None,
    }
}

/// Calls `chrono::NaiveDateTime::parse_from_str` with the layout `fmt` and takes the time as
/// UTC. The contract only names the result (`naive_timestamp`).
#[verifier::external_body]
fn parse_naive(s: &str, fmt: &str) -> (r: Option<i64>)
    ensures
        r == naive_timestamp(s@, fmt@),
{
    match chrono::NaiveDateTime::parse_from_str(s, fmt) {
        Ok(dt) => Some(dt.and_utc().timestamp()),
        Err(_) => None,
    }
}

/// Calls `chrono::NaiveDate::parse_from_str` with the layout `fmt` and takes midnight UTC of
/// that day. The contract only names the result (`date_timestamp`).
#[verifier::external_body]
fn parse_date(s: &str, fmt: &str) -> (r: Option<i64>)
    ensures
        r == date_timestamp(s@, fmt@),
{
    match chrono::NaiveDate::parse_from_str(s, fmt) {
        Ok(d) => match d.and_hms_opt(0, 0, 0) {
            Some(dt) => Some(dt.and_utc().timestamp()),
            None => None,
        },
        Err(_) => None,
    }
}

/// Calls `chrono::DateTime::parse_from_rfc2822` and keeps the Unix timestamp. The contract
/// only names the result (`rfc2822_timestamp`).
#[verifier::external_body]
fn parse_rfc2822(s: &str) -> (r: Option<i64>)
    ensures
        r == rfc2822_timestamp(s@),
{
    match chrono::DateTime::parse_from_rfc2822(s) {
        Ok(dt) => Some(dt.timestamp()),
        Err(_) => None,
    }
}

/// The first of the two that is there.
pub open spec fn or_else(a: Option<i64>, b: Option<i64>) -> Option<i64> {
    match a {
        Some(x) => Some(x),
        None => b,
    }
}

/// The timestamp a time string stands for: RFC 3339 first, then the layouts with an offset,
/// then the layouts without one (as UTC, each also as a bare date), then RFC 2822.
pub open spec fn parse_time_spec(s: Seq<char>) -> Option<i64> {
    or_else(
        rfc3339_timestamp(s),
        or_else(
            offset_timestamp(s, "%Y-%m-%dT%H:%M:%SZ"@),
            or_else(
                offset_timestamp(s, "%Y-%m-%dT%H:%M:%S%z"@),
                or_else(
                    offset_timestamp(s, "%Y-%m-%d %H:%M:%S%z"@),
                    or_else(
                        offset_timestamp(s, "%Y-%m-%d %H:%M%z"@),
                        or_else(
                            naive_timestamp(s, "%Y-%m-%dT%H:%M:%S"@),
                            or_else(
                                date_timestamp(s, "%Y-%m-%dT%H:%M:%S"@),
                                or_else(
                                    naive_timestamp(s, "%Y-%m-%d %H:%M:%S"@),
                                    or_else(
                                        date_timestamp(s, "%Y-%m-%d %H:%M:%S"@),
                                        or_else(
                                            naive_timestamp(s, "%Y-%m-%d"@),
                                            or_else(
                                                date_timestamp(s, "%Y-%m-%d"@),
                                                rfc2822_timestamp(s),
                                            ),
                                        ),
                                    ),
                                ),
                            ),
                        ),
                    ),
                ),
            ),
        ),
    )
}

/// Parses a time string into a Unix timestamp (see `parse_time_spec`).
pub fn parse_time(s: &str) -> (r: Option<i64>)
    ensures
        r == parse_time_spec(s@),
{
    if let Some(t) = parse_rfc3339(s) {
        return Some(t);
    }
    if let Some(t) = parse_with_offset(s, "%Y-%m-%dT%H:%M:%SZ") {
        return Some(t);
    }
    if let Some(t) = parse_with_offset(s, "%Y-%m-%dT%H:%M:%S%z") {
        return Some(t);
    }
    if let Some(t) = parse_with_offset(s, "%Y-%m-%d %H:%M:%S%z") {
        return Some(t);
    }
    if let Some(t) = parse_with_offset(s, "%Y-%m-%d %H:%M%z") {
        return Some(t);
    }
    if let Some(t) = parse_naive(s, "%Y-%m-%dT%H:%M:%S") {
        return Some(t);
    }
    if let Some(t) = parse_date(s, "%Y-%m-%dT%H:%M:%S") {
        return Some(t);
    }
    if let Some(t) = parse_naive(s, "%Y-%m-%d %H:%M:%S") {
        return Some(t);
    }
    if let Some(t) = parse_date(s, "%Y-%m-%d %H:%M:%S") {
        return Some(t);
    }
    if let Some(t) = parse_naive(s, "%Y-%m-%d") {
        return Some(t);
    }
    if let Some(t) = parse_date(s, "%Y-%m-%d") {
        return Some(t);
    }
    parse_rfc2822(s)
}

/// The layout of the compact form of a local time: the time of day for today, month and
/// day for another day of this year, year and month otherwise.
pub fn compact_layout(is_today: bool, same_year: bool) -> (layout: &'static str)
    ensures
        layout@ == if is_today {
            "%H:%M"@
        } else if !same_year {
            "%Y/%m"@
        } else {
            "%m/%d"@
        },
{
    if is_today {
        "%H:%M"
    } else if !same_year {
        "%Y/%m"
    } else {
        "%m/%d"
    }
}

} // verus!
