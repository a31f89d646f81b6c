use vstd::prelude::*;

use crate::strutil::{dec2, dec_str, u64_to_dec, u64_to_dec2};

verus! {

/// Whether a year of the proleptic Gregorian calendar is a leap year.
pub open spec fn spec_is_leap(y: int) -> bool {
    y % 4 == 0 && (y % 100 != 0 || y % 400 == 0)
}

/// The number of days in a year.
pub open spec fn days_in_year(y: int) -> int {
    if spec_is_leap(y) {
        366
    } else {
        365
    }
}

/// The number of days in a month; months outside 1 to 12 never arise for
/// day counts below the length of the year.
pub open spec fn days_in_month(y: int, m: int) -> int {
    if m == 2 {
        if spec_is_leap(y) {
            29
        } else {
            28
        }
    } else if m == 4 || m == 6 || m == 9 || m == 11 {
        30
    } else {
        31
    }
}

/// The year holding the day `days` days after the start of year `y`, and
/// the remaining day count into that year.
pub open spec fn spec_year_of(days: int, y: int) -> (int, int)
    decreases days,
{
    if days < days_in_year(y) {
        (y, days)
    } else {
        spec_year_of(days - days_in_year(y), y + 1)
    }
}

/// The month holding the day `doy` days after the start of month `m` of
/// year `y`, and the remaining zero-based day of that month.
pub open spec fn spec_month_of(doy: int, y: int, m: int) -> (int, int)
    decreases doy,
{
    if doy < days_in_month(y, m) {
        (m, doy)
    } else {
        spec_month_of(doy - days_in_month(y, m), y, m + 1)
    }
}

/// The fixed weekday abbreviation; day 0 is Sunday.
pub open spec fn weekday_name(wd: int) -> Seq<char> {
    if wd == 0 {
        "Sun"@
    } else if wd == 1 {
        "Mon"@
    } else if wd == 2 {
        "Tue"@
    } else if wd == 3 {
        "Wed"@
    } else if wd == 4 {
        "Thu"@
    } else if wd == 5 {
        "Fri"@
    } else if wd == 6 {
        "Sat"@
    } else {
        ""@
    }
}

/// The fixed month abbreviation.
pub open spec fn month_name(m: int) -> Seq<char> {
    if m == 1 {
        "Jan"@
    } else if m == 2 {
        "Feb"@
    } else if m == 3 {
        "Mar"@
    } else if m == 4 {
        "Apr"@
    } else if m == 5 {
        "May"@
    } else if m == 6 {
        "Jun"@
    } else if m == 7 {
        "Jul"@
    } else if m == 8 {
        "Aug"@
    } else if m == 9 {
        "Sep"@
    } else if m == 10 {
        "Oct"@
    } else if m == 11 {
        "Nov"@
    } else {
        "Dec"@
    }
}

/// The RFC-2822 timestamp of a moment `t` whole seconds after the Unix
/// epoch, in UTC, with a two-digit zero-padded day of month.
pub open spec fn spec_rfc2822(t: int) -> Seq<char>
    recommends
        t >= 0,
{
    let days = t / 86400;
    let secs = t % 86400;
    let wd = (days + 4) % 7;
    let yd = spec_year_of(days, 1970);
    let md = spec_month_of(yd.1, yd.0, 1);
    weekday_name(wd) + ", "@ + dec2(md.1 + 1) + " "@ + month_name(md.0) + " "@ + dec_str(yd.0)
        + " "@ + dec2(secs / 3600) + ":"@ + dec2((secs / 60) % 60) + ":"@ + dec2(secs % 60)
        + " +0000"@
}

/// Whether a year is a leap year.
pub fn is_leap(y: u64) -> (r: bool)
    ensures
        r == spec_is_leap(y as int),
{
    y % 4 == 0 && (y % 100 != 0 || y % 400 == 0)
}

/// The number of days in year `y`.
fn days_in_year_x(y: u64) -> (r: u64)
    ensures
        r as int == days_in_year(y as int),
{
    if is_leap(y) {
        366
    } else {
        365
    }
}

/// The number of days in month `m` of year `y`.
fn days_in_month_x(y: u64, m: u64) -> (r: u64)
    ensures
        r as int == days_in_month(y as int, m as int),
{
    if m == 2 {
        if is_leap(y) {
            29
        } else {
            28
        }
    } else if m == 4 || m == 6 || m == 9 || m == 11 {
        30
    } else {
        31
    }
}

/// The fixed weekday abbreviation; day 0 is Sunday.
fn weekday_name_x(wd: u64) -> (r: &'static str)
    ensures
        r@ == weekday_name(wd as int),
{
    if wd == 0 {
        "Sun"
    } else if wd == 1 {
        "Mon"
    } else if wd == 2 {
        "Tue"
    } else if wd == 3 {
        "Wed"
    } else if wd == 4 {
        "Thu"
    } else if wd == 5 {
        "Fri"
    } else if wd == 6 {
        "Sat"
    } else {
        ""
    }
}

/// The fixed month abbreviation.
fn month_name_x(m: u64) -> (r: &'static str)
    ensures
        r@ == month_name(m as int),
{
    if m == 1 {
        "Jan"
    } else if m == 2 {
        "Feb"
    } else if m == 3 {
        "Mar"
    } else if m == 4 {
        "Apr"
    } else if m == 5 {
        "May"
    } else if m == 6 {
        "Jun"
    } else if m == 7 {
        "Jul"
    } else if m == 8 {
        "Aug"
    } else if m == 9 {
        "Sep"
    } else if m == 10 {
        "Oct"
    } else if m == 11 {
        "Nov"
    } else {
        "Dec"
    }
}

/// Formats `t` whole seconds after the Unix epoch as an RFC-2822 timestamp
/// in UTC, exactly as `spec_rfc2822` says.
pub fn rfc2822_from_epoch(t: u64) -> (r: String)
    ensures
        r@ == spec_rfc2822(t as int),
{
    let days: u64 = t / 86400;
    let secs: u64 = t % 86400;
    let wd: u64 = (days + 4) % 7;
    let mut y: u64 = 1970;
    let mut rem: u64 = days;
    while rem >= days_in_year_x(y)
        invariant
            spec_year_of(days as int, 1970) == spec_year_of(rem as int, y as int),
            1970 <= y,
            rem <= days,
            days <= 213503982334601,
            y - 1970 <= days - rem,
        decreases rem,
    {
        rem = rem - days_in_year_x(y);
        y = y + 1;
    }
    proof {
        assert(spec_year_of(rem as int, y as int) == (y as int, rem as int));
    }
    let mut m: u64 = 1;
    let mut dom: u64 = rem;
    let ghost doy = rem;
    while dom >= days_in_month_x(y, m)
        invariant
            spec_month_of(doy as int, y as int, 1) == spec_month_of(dom as int, y as int, m as int),
            1 <= m,
            dom <= doy,
            doy <= 213503982334601,
            m - 1 <= doy - dom,
        decreases dom,
    {
        dom = dom - days_in_month_x(y, m);
        m = m + 1;
    }
    proof {
        assert(spec_month_of(dom as int, y as int, m as int) == (m as int, dom as int));
        assert(dom < days_in_month(y as int, m as int));
        assert(dom + 1 < 100);
        assert(secs / 3600 < 100);
    }
    let mut out = String::from_str(weekday_name_x(wd));
    out.append(", ");
    out.append(u64_to_dec2(dom + 1).as_str());
    out.append(" ");
    out.append(month_name_x(m));
    out.append(" ");
    out.append(u64_to_dec(y).as_str());
    out.append(" ");
    out.append(u64_to_dec2(secs / 3600).as_str());
    out.append(":");
    out.append(u64_to_dec2((secs / 60) % 60).as_str());
    out.append(":");
    out.append(u64_to_dec2(secs % 60).as_str());
    out.append(" +0000");
    proof {
        assert(out@ =~= spec_rfc2822(t as int));
    }
    out
}

} // verus!
