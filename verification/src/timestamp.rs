//! Creation timestamps: the current UTC time rendered as
//! `YYYY-MM-DD HH:MM:SS`, the form a SQL `CURRENT_TIMESTAMP` takes.
use vstd::prelude::*;
use vstd::string::*;
use crate::text::{decimal_padded, spec_decimal, spec_zero_pad};

verus! {

#[verifier::external_type_specification]
#[verifier::external_body]
pub struct ExSystemTime(std::time::SystemTime);

/// The current time of the system clock.
///
/// Calls `std::time::SystemTime::now`; the value depends on the clock, so
/// nothing is stated of it.
#[verifier::external_body]
pub(crate) fn system_now() -> (r: std::time::SystemTime) {
    std::time::SystemTime::now()
}

/// The time elapsed from the Unix epoch to `t`, or `None` when `t` lies
/// before the epoch.
///
/// Calls `std::time::SystemTime::duration_since` with `UNIX_EPOCH`; the
/// duration is opaque here, so nothing is stated of it.
#[verifier::external_body]
pub(crate) fn since_epoch(t: &std::time::SystemTime) -> (r: Option<std::time::Duration>) {
    t.duration_since(std::time::UNIX_EPOCH).ok()
}

/// The whole seconds of a duration.
///
/// Calls `std::time::Duration::as_secs`; the duration is opaque here, so
/// nothing is stated of the value.
#[verifier::external_body]
pub(crate) fn whole_seconds(d: &std::time::Duration) -> (r: u64) {
    d.as_secs()
}

/// Gregorian leap years.
pub open spec fn is_leap(y: int) -> bool {
    (y % 4 == 0 && y % 100 != 0) || y % 400 == 0
}

/// Number of days in year `y`.
pub open spec fn year_days(y: int) -> int {
    if is_leap(y) { 366 } else { 365 }
}

/// Days from 1970-01-01 to the first day of year `y` (for `y >= 1970`).
pub open spec fn days_before_year(y: int) -> int
    decreases y - 1970,
{
    if y <= 1970 { 0 } else { days_before_year(y - 1) + year_days(y - 1) }
}

/// Number of days in month `m` (1-based) of year `y`.
pub open spec fn month_days(y: int, m: int) -> int {
    if m == 2 {
        if is_leap(y) { 29 } else { 28 }
    } else if m == 4 || m == 6 || m == 9 || m == 11 {
        30
    } else {
        31
    }
}

/// Days from the first of the year to the first of month `m` (1-based).
pub open spec fn days_before_month(y: int, m: int) -> int
    decreases m,
{
    if m <= 1 { 0 } else { days_before_month(y, m - 1) + month_days(y, m - 1) }
}

/// The twelve months fill the year exactly: each has 28 to 31 days, and
/// together they have the year's days.
pub proof fn law_months_fill_year(y: int)
    ensures
        days_before_month(y, 13) == year_days(y),
        forall|m: int| 1 <= m <= 12 ==> 28 <= #[trigger] month_days(y, m) <= 31,
{
    reveal_with_fuel(days_before_month, 13);
}

/// `(y, mo, d, h, mi, s)` is the UTC civil time `secs` seconds after the epoch.
pub open spec fn is_civil_time(secs: int, y: int, mo: int, d: int, h: int, mi: int, s: int) -> bool {
    &&& y >= 1970
    &&& 1 <= mo <= 12
    &&& 1 <= d <= month_days(y, mo)
    &&& 0 <= h < 24
    &&& 0 <= mi < 60
    &&& 0 <= s < 60
    &&& secs == (days_before_year(y) + days_before_month(y, mo) + d - 1) * 86400 + h * 3600 + mi * 60 + s
}

/// Each year starts after all the days of the years before it.
proof fn lemma_days_before_year_grows(a: int, b: int)
    requires
        1970 <= a < b,
    ensures
        days_before_year(b) >= days_before_year(a) + year_days(a),
    decreases b - a,
{
    if b - 1 > a {
        lemma_days_before_year_grows(a, b - 1);
    }
}

/// Each month starts after all the days of the months before it.
proof fn lemma_days_before_month_grows(y: int, a: int, b: int)
    requires
        1 <= a < b,
    ensures
        days_before_month(y, b) >= days_before_month(y, a) + month_days(y, a),
    decreases b - a,
{
    if b - 1 > a {
        lemma_days_before_month_grows(y, a, b - 1);
        assert(month_days(y, b - 1) >= 28);
    }
}

/// A second count has one civil time: two readings of the same number of
/// seconds after the epoch agree on the year, month, day, hour, minute and
/// second, so the rendered timestamp is determined by the seconds alone.
pub proof fn law_civil_time_unique(
    secs: int,
    y: int, mo: int, d: int, h: int, mi: int, s: int,
    y2: int, mo2: int, d2: int, h2: int, mi2: int, s2: int,
)
    requires
        is_civil_time(secs, y, mo, d, h, mi, s),
        is_civil_time(secs, y2, mo2, d2, h2, mi2, s2),
    ensures
        y == y2 && mo == mo2 && d == d2 && h == h2 && mi == mi2 && s == s2,
{
    let in_year = days_before_month(y, mo) + d - 1;
    let in_year2 = days_before_month(y2, mo2) + d2 - 1;
    let days = days_before_year(y) + in_year;
    let days2 = days_before_year(y2) + in_year2;
    let rem = h * 3600 + mi * 60 + s;
    let rem2 = h2 * 3600 + mi2 * 60 + s2;
    assert(0 <= rem < 86400 && 0 <= rem2 < 86400) by (nonlinear_arith)
        requires 0 <= h < 24, 0 <= mi < 60, 0 <= s < 60, 0 <= h2 < 24, 0 <= mi2 < 60, 0 <= s2 < 60,
            rem == h * 3600 + mi * 60 + s, rem2 == h2 * 3600 + mi2 * 60 + s2;
    assert(days == days2 && rem == rem2) by (nonlinear_arith)
        requires days * 86400 + rem == days2 * 86400 + rem2, 0 <= rem < 86400, 0 <= rem2 < 86400;
    assert(h == h2 && mi == mi2 && s == s2) by (nonlinear_arith)
        requires rem == rem2, rem == h * 3600 + mi * 60 + s, rem2 == h2 * 3600 + mi2 * 60 + s2,
            0 <= h < 24, 0 <= mi < 60, 0 <= s < 60, 0 <= h2 < 24, 0 <= mi2 < 60, 0 <= s2 < 60;
    // The day within the year lies inside the year.
    law_months_fill_year(y);
    law_months_fill_year(y2);
    lemma_days_before_month_grows(y, mo, 13);
    lemma_days_before_month_grows(y2, mo2, 13);
    if mo > 1 {
        lemma_days_before_month_grows(y, 1, mo);
    }
    if mo2 > 1 {
        lemma_days_before_month_grows(y2, 1, mo2);
    }
    assert(0 <= in_year < year_days(y));
    assert(0 <= in_year2 < year_days(y2));
    if y < y2 {
        lemma_days_before_year_grows(y, y2);
    } else if y2 < y {
        lemma_days_before_year_grows(y2, y);
    }
    assert(y == y2);
    if mo < mo2 {
        lemma_days_before_month_grows(y, mo, mo2);
    } else if mo2 < mo {
        lemma_days_before_month_grows(y, mo2, mo);
    }
    assert(mo == mo2);
}

/// Zero-padded decimal rendering of a non-negative number.
pub open spec fn padded(n: int, width: nat) -> Seq<char> {
    spec_zero_pad(spec_decimal(n as nat), width)
}

/// The text `YYYY-MM-DD HH:MM:SS`.
pub open spec fn render_timestamp(y: int, mo: int, d: int, h: int, mi: int, s: int) -> Seq<char> {
    padded(y, 4) + "-"@ + padded(mo, 2) + "-"@ + padded(d, 2) + " "@ + padded(h, 2) + ":"@
        + padded(mi, 2) + ":"@ + padded(s, 2)
}

/// Renders `secs` seconds after the Unix epoch as `YYYY-MM-DD HH:MM:SS` in UTC.
pub fn format_timestamp(secs: u64) -> (r: String)
    ensures
        exists|y: int, mo: int, d: int, h: int, mi: int, s: int|
            is_civil_time(secs as int, y, mo, d, h, mi, s) && r@ == render_timestamp(y, mo, d, h, mi, s),
{
    let days = secs / 86400;
    let rem = secs % 86400;
    let h = rem / 3600;
    let mi = (rem % 3600) / 60;
    let s = rem % 60;
    assert(secs == days * 86400 + rem) by (nonlinear_arith)
        requires days == secs / 86400, rem == secs % 86400;
    assert(rem == h * 3600 + mi * 60 + s) by (nonlinear_arith)
        requires rem < 86400, h == rem / 3600, mi == (rem % 3600) / 60, s == rem % 60;

    let mut y: u64 = 1970;
    let mut left: u64 = days;
    loop
        invariant
            1970 <= y,
            y - 1970 <= days - left,
            left <= days,
            days <= u64::MAX / 86400,
            left == days - days_before_year(y as int),
        ensures
            1970 <= y,
            left == days - days_before_year(y as int),
            left < year_days(y as int),
        decreases left,
    {
        let leap = (y % 4 == 0 && y % 100 != 0) || y % 400 == 0;
        let len: u64 = if leap { 366 } else { 365 };
        if left < len {
            break;
        }
        left = left - len;
        y = y + 1;
    }
    let mut mo: u64 = 1;
    loop
        invariant
            1 <= mo <= 12,
            left + days_before_month(y as int, mo as int) == days - days_before_year(y as int),
            left < year_days(y as int) - days_before_month(y as int, mo as int),
            days - days_before_year(y as int) < year_days(y as int),
        ensures
            1 <= mo <= 12,
            left + days_before_month(y as int, mo as int) == days - days_before_year(y as int),
            left < month_days(y as int, mo as int),
        decreases 12 - mo,
    {
        let leap = (y % 4 == 0 && y % 100 != 0) || y % 400 == 0;
        let len: u64 = if mo == 2 {
            if leap { 29 } else { 28 }
        } else if mo == 4 || mo == 6 || mo == 9 || mo == 11 {
            30
        } else {
            31
        };
        if left < len {
            break;
        }
        if mo == 12 {
            assert(days_before_month(y as int, 12) + month_days(y as int, 12) == year_days(y as int)) by {
                reveal_with_fuel(days_before_month, 13);
            }
            assert(false);
            break;
        }
        left = left - len;
        mo = mo + 1;
    }
    let d = left + 1;

    let mut r = decimal_padded(y, 4);
    r.append("-");
    let t = decimal_padded(mo, 2);
    r.append(t.as_str());
    r.append("-");
    let t = decimal_padded(d, 2);
    r.append(t.as_str());
    r.append(" ");
    let t = decimal_padded(h, 2);
    r.append(t.as_str());
    r.append(":");
    let t = decimal_padded(mi, 2);
    r.append(t.as_str());
    r.append(":");
    let t = decimal_padded(s, 2);
    r.append(t.as_str());
    proof {
        reveal_strlit("-");
        reveal_strlit(" ");
        reveal_strlit(":");
        assert(r@ =~= render_timestamp(y as int, mo as int, d as int, h as int, mi as int, s as int));
        assert(is_civil_time(secs as int, y as int, mo as int, d as int, h as int, mi as int, s as int));
    }
    r
}

/// The current UTC time as `YYYY-MM-DD HH:MM:SS`; a clock set before the
/// epoch reads as the epoch.
pub fn current_timestamp() -> (r: String)
    ensures
        exists|secs: int, y: int, mo: int, d: int, h: int, mi: int, s: int|
            0 <= secs && is_civil_time(secs, y, mo, d, h, mi, s) && r@ == render_timestamp(y, mo, d, h, mi, s),
{
    let now = system_now();
    let secs = match since_epoch(&now) {
        Some(d) => whole_seconds(&d),
        None => 0,
    };
    format_timestamp(secs)
}

} // verus!
