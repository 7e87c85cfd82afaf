//! Calendar arithmetic for HTTP dates (`Last-Modified`) and log timestamps.
use vstd::prelude::*;

use crate::text::{decimal, decimal2, push_decimal, push_decimal2, push_str};

verus! {

// ---------------------------------------------------------------------------
// The proleptic Gregorian calendar from 1970 on
// ---------------------------------------------------------------------------

/// Gregorian leap years: divisible by 4, except centuries not divisible by 400.
pub open spec fn is_leap_spec(year: int) -> bool {
    (year % 4 == 0 && year % 100 != 0) || year % 400 == 0
}

/// The number of days of a year.
pub open spec fn year_days(year: int) -> int {
    if is_leap_spec(year) {
        366
    } else {
        365
    }
}

/// The number of days from 1 January 1970 to 1 January of `year`.
pub open spec fn days_before_year(year: int) -> int
    decreases year - 1970,
{
    if year <= 1970 {
        0
    } else {
        days_before_year(year - 1) + year_days(year - 1)
    }
}

/// The length of month `month` (0 for January) of `year`.
pub open spec fn month_days(year: int, month: int) -> int {
    if month == 1 {
        if is_leap_spec(year) {
            29
        } else {
            28
        }
    } else if month == 3 || month == 5 || month == 8 || month == 10 {
        30
    } else {
        31
    }
}

/// The number of days of `year` before month `month` (0 for January).
pub open spec fn days_before_month(year: int, month: int) -> int
    decreases month,
{
    if month <= 0 {
        0
    } else {
        days_before_month(year, month - 1) + month_days(year, month - 1)
    }
}

/// `day` (from 1) of month `month` (from 0) of `year` is the day that lies
/// `days` days after 1 January 1970.
pub open spec fn is_civil_date(days: int, year: int, month: int, day: int) -> bool {
    &&& year >= 1970
    &&& 0 <= month < 12
    &&& 1 <= day <= month_days(year, month)
    &&& days_before_year(year) + days_before_month(year, month) + day - 1 == days
}

pub open spec fn weekday_name(k: int) -> Seq<char> {
    if k == 0 {
        "Thu"@
    } else if k == 1 {
        "Fri"@
    } else if k == 2 {
        "Sat"@
    } else if k == 3 {
        "Sun"@
    } else if k == 4 {
        "Mon"@
    } else if k == 5 {
        "Tue"@
    } else {
        "Wed"@
    }
}

pub open spec fn month_name(m: int) -> Seq<char> {
    if m == 0 {
        "Jan"@
    } else if m == 1 {
        "Feb"@
    } else if m == 2 {
        "Mar"@
    } else if m == 3 {
        "Apr"@
    } else if m == 4 {
        "May"@
    } else if m == 5 {
        "Jun"@
    } else if m == 6 {
        "Jul"@
    } else if m == 7 {
        "Aug"@
    } else if m == 8 {
        "Sep"@
    } else if m == 9 {
        "Oct"@
    } else if m == 10 {
        "Nov"@
    } else {
        "Dec"@
    }
}

/// `hh:mm:ss` of the time of day `secs` seconds after midnight.
pub open spec fn clock_text(secs: nat) -> Seq<char> {
    decimal2(secs / 3600) + ":"@ + decimal2((secs % 3600) / 60) + ":"@ + decimal2(secs % 60)
}

/// An HTTP date as `Thu, 01 Jan 1970 00:00:00 GMT` writes it. Day 0, 1
/// January 1970, was a Thursday, so the weekday is the day number modulo 7
/// counted from Thursday.
pub open spec fn date_text(ts: nat, year: int, month: int, day: int) -> Seq<char> {
    let days = ts / 86400;
    weekday_name((days % 7) as int) + ", "@ + decimal2(day as nat) + " "@ + month_name(month)
        + " "@ + decimal(year as nat) + " "@ + clock_text(ts % 86400) + " GMT"@
}

/// The date (year, month from 0, day from 1) that lies `days` days after
/// 1 January 1970.
pub open spec fn civil_date(days: int) -> (int, int, int) {
    choose|d: (int, int, int)| is_civil_date(days, d.0, d.1, d.2)
}

/// The HTTP date of UNIX time `ts`.
pub open spec fn http_date_spec(ts: nat) -> Seq<char> {
    let d = civil_date((ts / 86400) as int);
    date_text(ts, d.0, d.1, d.2)
}

// ---------------------------------------------------------------------------
// Lemmas
// ---------------------------------------------------------------------------

pub proof fn lemma_days_before_year_grows(y1: int, y2: int)
    requires
        1970 <= y1 <= y2,
    ensures
        days_before_year(y1) + 365 * (y2 - y1) <= days_before_year(y2),
        y1 < y2 ==> days_before_year(y1) + year_days(y1) <= days_before_year(y2),
    decreases y2 - y1,
{
    if y1 < y2 {
        lemma_days_before_year_grows(y1, y2 - 1);
    }
}

pub proof fn lemma_days_before_month_grows(year: int, m1: int, m2: int)
    requires
        0 <= m1 <= m2,
    ensures
        days_before_month(year, m1) <= days_before_month(year, m2),
        m1 < m2 ==> days_before_month(year, m1) + month_days(year, m1) <= days_before_month(
            year,
            m2,
        ),
    decreases m2 - m1,
{
    if m1 < m2 {
        lemma_days_before_month_grows(year, m1, m2 - 1);
    }
}

pub proof fn lemma_months_fill_year(year: int)
    ensures
        days_before_month(year, 12) == year_days(year),
{
    reveal_with_fuel(days_before_month, 13);
}

/// A day number names exactly one date.
pub proof fn lemma_civil_date_unique(days: int, y1: int, m1: int, d1: int, y2: int, m2: int, d2: int)
    requires
        is_civil_date(days, y1, m1, d1),
        is_civil_date(days, y2, m2, d2),
    ensures
        y1 == y2 && m1 == m2 && d1 == d2,
{
    lemma_months_fill_year(y1);
    lemma_months_fill_year(y2);
    lemma_days_before_month_grows(y1, m1, 12);
    lemma_days_before_month_grows(y2, m2, 12);
    lemma_days_before_month_grows(y1, 0, m1);
    lemma_days_before_month_grows(y2, 0, m2);
    if m1 < 12 {
        assert(days_before_month(y1, m1) + month_days(y1, m1) <= days_before_month(y1, 12));
    }
    assert(days < days_before_year(y1) + year_days(y1));
    assert(days < days_before_year(y2) + year_days(y2));
    if y1 < y2 {
        lemma_days_before_year_grows(y1, y2);
        assert(false);
    } else if y2 < y1 {
        lemma_days_before_year_grows(y2, y1);
        assert(false);
    }
    assert(y1 == y2);
    if m1 < m2 {
        lemma_days_before_month_grows(y1, m1, m2);
    } else if m2 < m1 {
        lemma_days_before_month_grows(y1, m2, m1);
    }
}

// ---------------------------------------------------------------------------
// Implementation
// ---------------------------------------------------------------------------

/// Whether `year` is a leap year.
pub fn is_leap(year: i64) -> (r: bool)
    ensures
        r == is_leap_spec(year as int),
{
    (year % 4 == 0 && year % 100 != 0) || year % 400 == 0
}

fn month_length(leap: bool, month: usize) -> (r: u64)
    requires
        month < 12,
    ensures
        leap ==> r == month_days(2000, month as int),
        !leap ==> r == month_days(1970, month as int),
{
    if month == 1 {
        if leap {
            29
        } else {
            28
        }
    } else if month == 3 || month == 5 || month == 8 || month == 10 {
        30
    } else {
        31
    }
}

/// The year, month (from 0) and day (from 1) that lie `days` days after
/// 1 January 1970.
fn civil_from_days(days: u64) -> (r: (u64, usize, u64))
    ensures
        is_civil_date(days as int, r.0 as int, r.1 as int, r.2 as int),
{
    let mut remaining: u64 = days;
    let mut year: u64 = 1970;
    loop
        invariant
            1970 <= year,
            days_before_year(year as int) + remaining == days,
            days_before_year(year as int) >= 365 * (year - 1970),
        ensures
            1970 <= year,
            days_before_year(year as int) + remaining == days,
            remaining < year_days(year as int),
        decreases remaining,
    {
        let days_in_year: u64 = if is_leap(year as i64) {
            366
        } else {
            365
        };
        if remaining < days_in_year {
            break;
        }
        remaining = remaining - days_in_year;
        proof {
            lemma_days_before_year_grows(year as int, year as int + 1);
        }
        year = year + 1;
    }
    let leap = is_leap(year as i64);
    proof {
        lemma_months_fill_year(year as int);
        assert forall|m: int| 0 <= m < 12 implies month_days(year as int, m) == (if leap {
            month_days(2000, m)
        } else {
            month_days(1970, m)
        }) by {}
    }
    let mut month: usize = 0;
    loop
        invariant
            month < 12,
            days_before_month(year as int, month as int) + remaining < year_days(year as int),
            days_before_year(year as int) + days_before_month(year as int, month as int)
                + remaining == days,
            leap == is_leap_spec(year as int),
            forall|m: int| 0 <= m < 12 ==> month_days(year as int, m) == (if leap {
                month_days(2000, m)
            } else {
                month_days(1970, m)
            }),
            days_before_month(year as int, 12) == year_days(year as int),
        ensures
            month < 12,
            remaining < month_days(year as int, month as int),
            days_before_year(year as int) + days_before_month(year as int, month as int)
                + remaining == days,
        decreases 12 - month,
    {
        let ml = month_length(leap, month);
        if remaining < ml {
            break;
        }
        remaining = remaining - ml;
        proof {
            if month == 11 {
                assert(days_before_month(year as int, 12) == days_before_month(year as int, 11)
                    + month_days(year as int, 11));
            }
        }
        month = month + 1;
    }
    (year, month, remaining + 1)
}

fn weekday_str(k: u64) -> (r: &'static str)
    ensures
        r@ == weekday_name(k as int),
{
    if k == 0 {
        "Thu"
    } else if k == 1 {
        "Fri"
    } else if k == 2 {
        "Sat"
    } else if k == 3 {
        "Sun"
    } else if k == 4 {
        "Mon"
    } else if k == 5 {
        "Tue"
    } else {
        "Wed"
    }
}

fn month_str(m: usize) -> (r: &'static str)
    ensures
        r@ == month_name(m as int),
{
    if m == 0 {
        "Jan"
    } else if m == 1 {
        "Feb"
    } else if m == 2 {
        "Mar"
    } else if m == 3 {
        "Apr"
    } else if m == 4 {
        "May"
    } else if m == 5 {
        "Jun"
    } else if m == 6 {
        "Jul"
    } else if m == 7 {
        "Aug"
    } else if m == 8 {
        "Sep"
    } else if m == 9 {
        "Oct"
    } else if m == 10 {
        "Nov"
    } else {
        "Dec"
    }
}

fn push_clock(s: &mut String, secs: u64)
    requires
        secs < 86400,
    ensures
        final(s)@ == old(s)@ + clock_text(secs as nat),
{
    push_decimal2(s, secs / 3600);
    push_str(s, ":");
    push_decimal2(s, (secs % 3600) / 60);
    push_str(s, ":");
    push_decimal2(s, secs % 60);
    assert(final(s)@ =~= old(s)@ + clock_text(secs as nat));
}

/// Simple timestamp for logging: the time of day of the UNIX time
/// `now_secs` as `hh:mm:ss`.
pub fn chrono_now(now_secs: u64) -> (r: String)
    ensures
        r@ == clock_text((now_secs % 86400) as nat),
{
    let mut r = String::new();
    push_clock(&mut r, now_secs % 86400);
    assert(r@ =~= clock_text((now_secs % 86400) as nat));
    r
}

/// Format a UNIX timestamp as an HTTP date.
pub fn httpdate(ts: u64) -> (r: String)
    ensures
        r@ == http_date_spec(ts as nat),
        is_civil_date(
            (ts / 86400) as int,
            civil_date((ts / 86400) as int).0,
            civil_date((ts / 86400) as int).1,
            civil_date((ts / 86400) as int).2,
        ),
{
    let days = ts / 86400;
    let (year, month, day) = civil_from_days(days);
    let mut r = String::new();
    push_str(&mut r, weekday_str(days % 7));
    push_str(&mut r, ", ");
    push_decimal2(&mut r, day);
    push_str(&mut r, " ");
    push_str(&mut r, month_str(month));
    push_str(&mut r, " ");
    push_decimal(&mut r, year);
    push_str(&mut r, " ");
    push_clock(&mut r, ts % 86400);
    push_str(&mut r, " GMT");
    assert(r@ =~= date_text(ts as nat, year as int, month as int, day as int));
    proof {
        let w = (year as int, month as int, day as int);
        assert(is_civil_date(days as int, w.0, w.1, w.2));
        let c = civil_date(days as int);
        assert(is_civil_date(days as int, c.0, c.1, c.2));
        lemma_civil_date_unique(days as int, w.0, w.1, w.2, c.0, c.1, c.2);
    }
    r
}

} // verus!
