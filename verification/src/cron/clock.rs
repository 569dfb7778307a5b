//! Instants, wall-clock fields and the time-zone conversions behind them.

use chrono::{Datelike, TimeZone, Timelike};
use vstd::prelude::*;
use vstd::arithmetic::div_mod::{
    lemma_fundamental_div_mod, lemma_fundamental_div_mod_converse, lemma_mod_bound,
};

verus! {

/// Earliest second that `chrono` represents (`DateTime::<Utc>::MIN_UTC`).
pub const MIN_SECS: i64 = -8_334_601_228_800;

/// Latest second that `chrono` represents (`DateTime::<Utc>::MAX_UTC`).
pub const MAX_SECS: i64 = 8_210_266_876_799;

/// An instant: whole seconds since 1970-01-01T00:00:00Z and the
/// nanoseconds within that second.
#[derive(Debug, Clone, Copy, PartialEq, Eq)]
pub struct UtcTime {
    pub secs: i64,
    pub nanos: u32,
}

impl UtcTime {
    /// Within the range of `chrono`, without a leap second.
    pub open spec fn wf(self) -> bool {
        MIN_SECS <= self.secs <= MAX_SECS && self.nanos < 1_000_000_000
    }

    /// Strictly later than `other`.
    pub open spec fn after(self, other: UtcTime) -> bool {
        self.secs > other.secs || (self.secs == other.secs && self.nanos > other.nanos)
    }

    /// Strictly later than `other`.
    pub fn is_after(&self, other: &UtcTime) -> (b: bool)
        ensures
            b == self.after(*other),
    {
        self.secs > other.secs || (self.secs == other.secs && self.nanos > other.nanos)
    }
}

/// The wall-clock reading of an instant in a time zone.
#[derive(Debug, Clone, Copy, PartialEq, Eq)]
pub struct LocalFields {
    pub year: i32,
    pub month: u32,
    pub day: u32,
    pub hour: u32,
    pub minute: u32,
    pub second: u32,
    /// Days since Sunday: 0 is Sunday, 6 is Saturday.
    pub weekday: u32,
}

/// Days from 1970-01-01 to the date `y-m-d` of the proleptic Gregorian
/// calendar.
pub open spec fn days_from_civil(y: int, m: int, d: int) -> int {
    let y1 = if m <= 2 {
        y - 1
    } else {
        y
    };
    let era = y1 / 400;
    let yoe = y1 - era * 400;
    let mp = if m > 2 {
        m - 3
    } else {
        m + 9
    };
    let doy = (153 * mp + 2) / 5 + d - 1;
    let doe = yoe * 365 + yoe / 4 - yoe / 100 + doy;
    era * 146097 + doe - 719468
}

/// The weekday of a date, counted from Sunday (1970-01-01 was a Thursday).
pub open spec fn weekday_of(y: int, m: int, d: int) -> int {
    (days_from_civil(y, m, d) + 4) % 7
}

/// The zone name `UTC`.
pub open spec fn utc_zone() -> Seq<char> {
    seq!['U', 'T', 'C']
}

/// Earliest year of `chrono`'s dates.
pub const MIN_YEAR: i32 = -262143;

/// Latest year of `chrono`'s dates.
pub const MAX_YEAR: i32 = 262142;

/// Leap years of the Gregorian calendar.
pub open spec fn is_leap(y: int) -> bool {
    y % 4 == 0 && (y % 100 != 0 || y % 400 == 0)
}

pub open spec fn days_in_month(y: int, m: int) -> int {
    if m == 2 {
        if is_leap(y) {
            29
        } else {
            28
        }
    } else if m == 4 || m == 6 || m == 9 || m == 11 {
        30
    } else {
        31
    }
}

/// A date of the proleptic Gregorian calendar.
pub open spec fn valid_date(y: int, m: int, d: int) -> bool {
    1 <= m <= 12 && 1 <= d <= days_in_month(y, m)
}

/// Seconds from 1970-01-01T00:00:00 to `y-m-d h:mi:s`, leap seconds aside.
pub open spec fn civil_secs(y: int, m: int, d: int, h: int, mi: int, s: int) -> int {
    days_from_civil(y, m, d) * 86400 + h * 3600 + mi * 60 + s
}

/// `f` is the UTC reading of the second `secs`.
pub open spec fn utc_reading(secs: int, f: LocalFields) -> bool {
    &&& valid_date(f.year as int, f.month as int, f.day as int)
    &&& f.hour < 24 && f.minute < 60 && f.second < 60
    &&& secs == civil_secs(
        f.year as int,
        f.month as int,
        f.day as int,
        f.hour as int,
        f.minute as int,
        f.second as int,
    )
}

/// The second at which UTC reads `y-m-d h:mi:s`, when that is a valid
/// wall-clock time within `chrono`'s years.
pub open spec fn utc_instant(y: i32, m: u32, d: u32, h: u32, mi: u32, s: u32) -> Option<i64> {
    if valid_date(y as int, m as int, d as int) && h < 24 && mi < 60 && s < 60 && MIN_YEAR <= y
        <= MAX_YEAR {
        Some(civil_secs(y as int, m as int, d as int, h as int, mi as int, s as int) as i64)
    } else {
        None
    }
}

/// Days from 1970-01-01 to March 1st of the year `y1 + 1`'s calendar,
/// i.e. the start of the March-to-February year `y1`.
pub open spec fn march_start(y1: int) -> int {
    let era = y1 / 400;
    let yoe = y1 - era * 400;
    era * 146097 + yoe * 365 + yoe / 4 - yoe / 100 - 719468
}

/// Days from March 1st to the first day of month `m` (`m` from 1 to 12).
pub open spec fn month_offset(m: int) -> int {
    let mp = if m > 2 {
        m - 3
    } else {
        m + 9
    };
    (153 * mp + 2) / 5
}

proof fn lemma_days_split(y: int, m: int, d: int)
    ensures
        days_from_civil(y, m, d) == march_start(
            if m <= 2 {
                y - 1
            } else {
                y
            },
        ) + month_offset(m) + d - 1,
{
}

proof fn lemma_month_offsets()
    ensures
        month_offset(3) == 0,
        month_offset(4) == 31,
        month_offset(5) == 61,
        month_offset(6) == 92,
        month_offset(7) == 122,
        month_offset(8) == 153,
        month_offset(9) == 184,
        month_offset(10) == 214,
        month_offset(11) == 245,
        month_offset(12) == 275,
        month_offset(1) == 306,
        month_offset(2) == 337,
{
}

proof fn lemma_step_div(n: int, k: int)
    requires
        1 <= n,
        k > 0,
    ensures
        n / k - (n - 1) / k == (if n % k == 0 {
            1int
        } else {
            0int
        }),
        n / k >= (n - 1) / k,
{
    lemma_fundamental_div_mod(n - 1, k);
    let q = (n - 1) / k;
    let r = (n - 1) % k;
    assert(0 <= r < k) by {
        lemma_mod_bound(n - 1, k);
    }
    assert(n == q * k + (r + 1)) by (nonlinear_arith)
        requires
            n - 1 == k * q + r,
    ;
    if r + 1 < k {
        lemma_fundamental_div_mod_converse(n, k, q, r + 1);
    } else {
        assert(n == (q + 1) * k + 0) by (nonlinear_arith)
            requires
                n == q * k + (r + 1),
                r + 1 == k,
        ;
        lemma_fundamental_div_mod_converse(n, k, q + 1, 0);
    }
}

/// A March-to-February year has 365 days, 366 when its February is in a
/// leap year.
proof fn lemma_year_length(y1: int)
    ensures
        march_start(y1 + 1) - march_start(y1) == 365 + (if is_leap(y1 + 1) {
            1int
        } else {
            0int
        }),
{
    let era = y1 / 400;
    lemma_fundamental_div_mod(y1, 400);
    let yoe = y1 - era * 400;
    assert(0 <= yoe < 400) by {
        lemma_mod_bound(y1, 400);
    }
    let n = y1 + 1;
    if yoe < 399 {
        lemma_fundamental_div_mod_converse(n, 400, era, yoe + 1);
        lemma_step_div(yoe + 1, 4);
        lemma_step_div(yoe + 1, 100);
        lemma_fundamental_div_mod_converse(n, 4, era * 100 + (yoe + 1) / 4, (yoe + 1) % 4);
        lemma_fundamental_div_mod_converse(n, 100, era * 4 + (yoe + 1) / 100, (yoe + 1) % 100);
        lemma_fundamental_div_mod(yoe + 1, 4);
        lemma_fundamental_div_mod(yoe + 1, 100);
        assert(0 <= (yoe + 1) % 4 < 4) by {
            lemma_mod_bound(yoe + 1, 4);
        }
        assert(0 <= (yoe + 1) % 100 < 100) by {
            lemma_mod_bound(yoe + 1, 100);
        }
        if (yoe + 1) % 100 == 0 {
            assert((yoe + 1) % 4 == 0) by {
                lemma_fundamental_div_mod_converse(yoe + 1, 4, ((yoe + 1) / 100) * 25, 0);
            }
        }
    } else {
        lemma_fundamental_div_mod_converse(n, 400, era + 1, 0);
        lemma_fundamental_div_mod_converse(n, 4, (era + 1) * 100, 0);
        lemma_fundamental_div_mod_converse(n, 100, (era + 1) * 4, 0);
    }
}

/// Dates in calendar order have their day numbers in the same order: a
/// date comes before the first of a later month of its year, and before
/// every first of a month of the next year.
pub proof fn lemma_date_order(y: int, m: int, d: int, y2: int, m2: int)
    requires
        valid_date(y, m, d),
        1 <= m2 <= 12,
        (y2 == y && m2 > m) || y2 == y + 1,
    ensures
        days_from_civil(y, m, d) < days_from_civil(y2, m2, 1),
{
    lemma_days_split(y, m, d);
    lemma_days_split(y2, m2, 1);
    lemma_month_offsets();
    lemma_year_length(y - 1);
    lemma_year_length(y);
}

/// The first second of the first of a later month, or of a month of the
/// next year, comes after the second that `f` reads in UTC.
pub proof fn lemma_later_month_later_secs(secs: int, f: LocalFields, y2: int, m2: int)
    requires
        utc_reading(secs, f),
        1 <= m2 <= 12,
        (y2 == f.year && m2 > f.month) || y2 == f.year + 1,
    ensures
        civil_secs(y2, m2, 1, 0, 0, 0) > secs,
{
    lemma_date_order(f.year as int, f.month as int, f.day as int, y2, m2);
    let d1 = days_from_civil(f.year as int, f.month as int, f.day as int);
    let d2 = days_from_civil(y2, m2, 1);
    assert(d2 * 86400 >= (d1 + 1) * 86400) by (nonlinear_arith)
        requires
            d2 >= d1 + 1,
    ;
}

/// `a` reads an earlier wall-clock time than `b`: year, month, day, hour,
/// minute and second compared in that order.
pub open spec fn earlier(a: LocalFields, b: LocalFields) -> bool {
    ||| a.year < b.year
    ||| a.year == b.year && a.month < b.month
    ||| a.year == b.year && a.month == b.month && a.day < b.day
    ||| a.year == b.year && a.month == b.month && a.day == b.day && a.hour < b.hour
    ||| a.year == b.year && a.month == b.month && a.day == b.day && a.hour == b.hour
        && a.minute < b.minute
    ||| a.year == b.year && a.month == b.month && a.day == b.day && a.hour == b.hour
        && a.minute == b.minute && a.second < b.second
}

/// Wall-clock order is transitive, with ties on either side.
pub proof fn lemma_earlier_trans(a: LocalFields, b: LocalFields, c: LocalFields)
    ensures
        earlier(a, b) && earlier(b, c) ==> earlier(a, c),
        !earlier(b, a) && earlier(b, c) ==> earlier(a, c),
        earlier(a, b) && !earlier(c, b) ==> earlier(a, c),
        !earlier(b, a) && !earlier(c, b) ==> !earlier(c, a),
        earlier(a, b) ==> !earlier(b, a),
{
}

/// `a` and `b` read the same date and time of day.
pub open spec fn same_reading(a: LocalFields, b: LocalFields) -> bool {
    a.year == b.year && a.month == b.month && a.day == b.day && a.hour == b.hour && a.minute
        == b.minute && a.second == b.second
}

/// `f` is the full UTC reading of the second `secs`, weekday included.
pub open spec fn utc_clock(secs: int, f: LocalFields) -> bool {
    utc_reading(secs, f) && f.weekday == weekday_of(f.year as int, f.month as int, f.day as int)
}

/// Days from 1970-01-01 to the date that `f` reads.
pub open spec fn day_number(f: LocalFields) -> int {
    days_from_civil(f.year as int, f.month as int, f.day as int)
}

/// Seconds since midnight of the time of day that `f` reads.
pub open spec fn time_of_day(f: LocalFields) -> int {
    f.hour * 3600 + f.minute * 60 + f.second
}

/// The first of January of a year comes no later than any date of that
/// year or of a later one.
proof fn lemma_new_year_first(y: int, y2: int, m2: int, d2: int)
    requires
        y <= y2,
        valid_date(y2, m2, d2),
    ensures
        days_from_civil(y, 1, 1) <= days_from_civil(y2, m2, d2),
    decreases y2 - y,
{
    if y < y2 {
        lemma_date_order(y, 1, 1, y + 1, 1);
        lemma_new_year_first(y + 1, y2, m2, d2);
    } else {
        lemma_days_split(y2, 1, 1);
        lemma_days_split(y2, m2, d2);
        if m2 > 1 {
            lemma_date_order(y2, 1, 1, y2, m2);
            lemma_days_split(y2, m2, 1);
        }
    }
}

/// Day numbers follow calendar order.
pub proof fn lemma_days_lt(y1: int, m1: int, d1: int, y2: int, m2: int, d2: int)
    requires
        valid_date(y1, m1, d1),
        valid_date(y2, m2, d2),
        y1 < y2 || (y1 == y2 && m1 < m2) || (y1 == y2 && m1 == m2 && d1 < d2),
    ensures
        days_from_civil(y1, m1, d1) < days_from_civil(y2, m2, d2),
{
    lemma_days_split(y1, m1, d1);
    lemma_days_split(y2, m2, d2);
    if y1 < y2 {
        lemma_date_order(y1, m1, d1, y1 + 1, 1);
        lemma_new_year_first(y1 + 1, y2, m2, d2);
    } else if m1 < m2 {
        lemma_date_order(y1, m1, d1, y2, m2);
        lemma_days_split(y2, m2, 1);
    }
}

/// Seconds follow the order of their UTC readings, and two seconds with
/// the same reading are the same second.
pub proof fn lemma_reading_order(s1: int, f1: LocalFields, s2: int, f2: LocalFields)
    requires
        utc_reading(s1, f1),
        utc_reading(s2, f2),
    ensures
        (s1 < s2) == earlier(f1, f2),
        (s1 == s2) == same_reading(f1, f2),
{
    let d1 = day_number(f1);
    let d2 = day_number(f2);
    let t1 = time_of_day(f1);
    let t2 = time_of_day(f2);
    assert(s1 == d1 * 86400 + t1 && s2 == d2 * 86400 + t2);
    assert(0 <= t1 < 86400 && 0 <= t2 < 86400);
    let (y1, m1, dd1) = (f1.year as int, f1.month as int, f1.day as int);
    let (y2, m2, dd2) = (f2.year as int, f2.month as int, f2.day as int);
    if y1 < y2 || (y1 == y2 && m1 < m2) || (y1 == y2 && m1 == m2 && dd1 < dd2) {
        lemma_days_lt(y1, m1, dd1, y2, m2, dd2);
        assert(d1 * 86400 + 86400 <= d2 * 86400) by (nonlinear_arith)
            requires
                d1 < d2,
        ;
    } else if y2 < y1 || (y1 == y2 && m2 < m1) || (y1 == y2 && m1 == m2 && dd2 < dd1) {
        lemma_days_lt(y2, m2, dd2, y1, m1, dd1);
        assert(d2 * 86400 + 86400 <= d1 * 86400) by (nonlinear_arith)
            requires
                d2 < d1,
        ;
    } else {
        assert(d1 == d2);
    }
}

/// The first and the last second that `chrono` represents read
/// `MIN_YEAR-01-01 00:00:00` and `MAX_YEAR-12-31 23:59:59`.
pub proof fn lemma_range_ends()
    ensures
        civil_secs(MIN_YEAR as int, 1, 1, 0, 0, 0) == MIN_SECS,
        civil_secs(MAX_YEAR as int, 12, 31, 23, 59, 59) == MAX_SECS,
{
    assert((-262144int) / 400 == -656);
    assert(days_from_civil(-262143, 1, 1) == -96465292);
    assert(262142int / 400 == 655);
    assert(days_from_civil(262142, 12, 31) == 95026236);
}

/// A second within `chrono`'s range reads a year of `chrono`'s range.
pub proof fn lemma_reading_year(s: int, f: LocalFields)
    requires
        utc_reading(s, f),
        MIN_SECS <= s <= MAX_SECS,
    ensures
        MIN_YEAR <= f.year <= MAX_YEAR,
{
    lemma_range_ends();
    let lo = LocalFields { year: MIN_YEAR, month: 1, day: 1, hour: 0, minute: 0, second: 0, weekday: 0 };
    let hi = LocalFields {
        year: MAX_YEAR,
        month: 12,
        day: 31,
        hour: 23,
        minute: 59,
        second: 59,
        weekday: 0,
    };
    lemma_reading_order(MIN_SECS as int, lo, s, f);
    lemma_reading_order(s, f, MAX_SECS as int, hi);
}

/// A wall-clock time in a year after `MAX_YEAR` reads a second past
/// `MAX_SECS`.
pub proof fn lemma_past_last_year(f: LocalFields)
    requires
        valid_date(f.year as int, f.month as int, f.day as int),
        f.hour < 24 && f.minute < 60 && f.second < 60,
        f.year > MAX_YEAR,
    ensures
        civil_secs(
            f.year as int,
            f.month as int,
            f.day as int,
            f.hour as int,
            f.minute as int,
            f.second as int,
        ) > MAX_SECS,
{
    lemma_range_ends();
    let hi = LocalFields {
        year: MAX_YEAR,
        month: 12,
        day: 31,
        hour: 23,
        minute: 59,
        second: 59,
        weekday: 0,
    };
    let t = civil_secs(
        f.year as int,
        f.month as int,
        f.day as int,
        f.hour as int,
        f.minute as int,
        f.second as int,
    );
    lemma_reading_order(MAX_SECS as int, hi, t, f);
}

/// The calendar date after `y-m-d`, or `None` past the last `i32` year.
pub open spec fn following_day(y: i32, m: u32, d: u32) -> Option<(i32, u32, u32)> {
    if (d as int) < days_in_month(y as int, m as int) {
        Some((y, m, (d + 1) as u32))
    } else if m < 12 {
        Some((y, (m + 1) as u32, 1))
    } else if y < i32::MAX {
        Some(((y + 1) as i32, 1, 1))
    } else {
        None
    }
}

/// The date after `y-m-d`; see [`following_day`].
pub fn next_date(y: i32, m: u32, d: u32) -> (r: Option<(i32, u32, u32)>)
    ensures
        r == following_day(y, m, d),
{
    let leap = y % 4 == 0 && (y % 100 != 0 || y % 400 == 0);
    let dim: u32 = if m == 2 {
        if leap {
            29
        } else {
            28
        }
    } else if m == 4 || m == 6 || m == 9 || m == 11 {
        30
    } else {
        31
    };
    assert(dim == days_in_month(y as int, m as int)) by {
        assert(leap == is_leap(y as int));
    }
    if d < dim {
        Some((y, m, d + 1))
    } else if m < 12 {
        Some((y, m + 1, 1))
    } else if y < i32::MAX {
        Some((y + 1, 1, 1))
    } else {
        None
    }
}

/// The calendar date before `y-m-d`, or `None` before the first `i32`
/// year.
pub open spec fn preceding_day(y: i32, m: u32, d: u32) -> Option<(i32, u32, u32)> {
    if d > 1 {
        Some((y, m, (d - 1) as u32))
    } else if m > 1 {
        Some((y, (m - 1) as u32, days_in_month(y as int, m - 1) as u32))
    } else if y > i32::MIN {
        Some(((y - 1) as i32, 12, 31))
    } else {
        None
    }
}

/// The date before `y-m-d`; see [`preceding_day`].
pub fn previous_date(y: i32, m: u32, d: u32) -> (r: Option<(i32, u32, u32)>)
    ensures
        r == preceding_day(y, m, d),
{
    if d > 1 {
        Some((y, m, d - 1))
    } else if m > 1 {
        let pm = m - 1;
        let leap = y % 4 == 0 && (y % 100 != 0 || y % 400 == 0);
        let dim: u32 = if pm == 2 {
            if leap {
                29
            } else {
                28
            }
        } else if pm == 4 || pm == 6 || pm == 9 || pm == 11 {
            30
        } else {
            31
        };
        assert(dim == days_in_month(y as int, pm as int)) by {
            assert(leap == is_leap(y as int));
        }
        Some((y, pm, dim))
    } else if y > i32::MIN {
        Some((y - 1, 12, 31))
    } else {
        None
    }
}

/// The date before a valid date is valid, and the date after it is the
/// one we started from.
pub proof fn lemma_preceding_day(y: i32, m: u32, d: u32)
    requires
        valid_date(y as int, m as int, d as int),
        y > i32::MIN,
    ensures
        preceding_day(y, m, d) matches Some((py, pm, pd)) && valid_date(
            py as int,
            pm as int,
            pd as int,
        ) && following_day(py, pm, pd) == Some((y, m, d)) && py >= y - 1,
{
}

/// The seven dates ending with `y-m-d`, oldest first, each the day after
/// the one before.
pub fn last_seven_days(y: i32, m: u32, d: u32) -> (r: Vec<(i32, u32, u32)>)
    requires
        valid_date(y as int, m as int, d as int),
        y > i32::MIN + 1,
    ensures
        r@.len() == 7,
        r@[6] == (y, m, d),
        forall|i: int|
            1 <= i < 7 ==> following_day(r@[i - 1].0, r@[i - 1].1, r@[i - 1].2) == Some(#[trigger] r@[i]),
{
    let mut days: Vec<(i32, u32, u32)> = Vec::new();
    days.push((y, m, d));
    let mut cur = (y, m, d);
    let mut k: usize = 0;
    while k < 6
        invariant
            k <= 6,
            days@.len() == k + 1,
            days@[0] == cur,
            days@[k as int] == (y, m, d),
            valid_date(cur.0 as int, cur.1 as int, cur.2 as int),
            cur.0 == y || (cur.0 == y - 1 && cur.1 == 12 && cur.2 >= 31 - k),
            y > i32::MIN + 1,
            forall|i: int|
                1 <= i <= k ==> following_day(days@[i - 1].0, days@[i - 1].1, days@[i - 1].2) == Some(
                    #[trigger] days@[i],
                ),
        decreases 6 - k,
    {
        proof {
            lemma_preceding_day(cur.0, cur.1, cur.2);
        }
        let prev = previous_date(cur.0, cur.1, cur.2).unwrap();
        let ghost old_days = days@;
        days.insert(0, prev);
        assert forall|i: int| 1 <= i <= k + 1 implies following_day(
            days@[i - 1].0,
            days@[i - 1].1,
            days@[i - 1].2,
        ) == Some(#[trigger] days@[i]) by {
            if i > 1 {
                assert(days@[i] == old_days[i - 1]);
                assert(days@[i - 1] == old_days[i - 2]);
                assert(following_day(old_days[i - 2].0, old_days[i - 2].1, old_days[i - 2].2) == Some(
                    old_days[i - 1],
                ));
            } else {
                assert(days@[1] == old_days[0]);
            }
        }
        cur = prev;
        k = k + 1;
    }
    days
}

/// The date after a valid date is valid and has the next day number.
pub proof fn lemma_following_day(y: i32, m: u32, d: u32)
    requires
        valid_date(y as int, m as int, d as int),
        following_day(y, m, d) is Some,
    ensures
        following_day(y, m, d) matches Some((y2, m2, d2)) && valid_date(
            y2 as int,
            m2 as int,
            d2 as int,
        ) && days_from_civil(y2 as int, m2 as int, d2 as int) == days_from_civil(
            y as int,
            m as int,
            d as int,
        ) + 1,
{
    let (yi, mi, di) = (y as int, m as int, d as int);
    lemma_days_split(yi, mi, di);
    lemma_month_offsets();
    match following_day(y, m, d) {
        Some((y2, m2, d2)) => {
            lemma_days_split(y2 as int, m2 as int, d2 as int);
            if m == 2 && d as int == days_in_month(yi, 2) {
                lemma_year_length(yi - 1);
            }
        },
        None => {},
    }
}

/// The wall-clock reading of the second `secs` in the IANA zone named
/// `tz` (a name that `chrono-tz` does not know is read as UTC).
pub uninterp spec fn zone_fields(tz: Seq<char>, secs: int) -> LocalFields;

/// The second at which the zone named `tz` reads `y-m-d h:mi:s`, when
/// there is exactly one (none for an invalid date or a daylight-saving
/// gap, none for an overlap either).
pub uninterp spec fn zone_instant(
    tz: Seq<char>,
    y: i32,
    m: u32,
    d: u32,
    h: u32,
    mi: u32,
    s: u32,
) -> Option<i64>;

/// Whether `chrono-tz` knows a zone of this name (`Tz::from_str` accepts
/// it).
pub uninterp spec fn known_zone(tz: Seq<char>) -> bool;

/// The zone that a name stands for in this crate: itself when `chrono-tz`
/// knows it, UTC otherwise.
pub open spec fn effective_zone(tz: Seq<char>) -> Seq<char> {
    if known_zone(tz) {
        tz
    } else {
        utc_zone()
    }
}

/// Asks `chrono_tz::Tz::from_str` whether it knows the zone name. Claimed:
/// the answer is the named `known_zone` of the name.
#[verifier::external_body]
pub(crate) fn zone_is_known(tz: &str) -> (b: bool)
    ensures
        b == known_zone(tz@),
{
    tz.parse::<chrono_tz::Tz>().is_ok()
}

/// Reads the wall clock of the zone named `tz` at second `secs`, through
/// `chrono`'s `DateTime::from_timestamp` and `with_timezone`, with the zone
/// looked up by `chrono_tz::Tz::from_str` (UTC when the name is unknown).
/// Claimed: the fields are the named `zone_fields`, read a valid calendar
/// date (a `NaiveDate` is one by construction), and lie in the ranges that
/// `chrono`'s `Datelike`/`Timelike` accessors document.
#[verifier::external_body]
pub(crate) fn local_fields(tz: &str, secs: i64) -> (f: LocalFields)
    requires
        MIN_SECS <= secs <= MAX_SECS,
    ensures
        f == zone_fields(tz@, secs as int),
        valid_date(f.year as int, f.month as int, f.day as int),
        f.weekday == weekday_of(f.year as int, f.month as int, f.day as int),
        tz@ == utc_zone() ==> utc_reading(secs as int, f),
        1 <= f.month <= 12,
        1 <= f.day <= 31,
        f.hour < 24,
        f.minute < 60,
        f.second < 60,
        f.weekday < 7,
{
    let zone: chrono_tz::Tz = tz.parse().unwrap_or(chrono_tz::UTC);
    let dt = chrono::DateTime::from_timestamp(secs, 0).unwrap().with_timezone(&zone);
    LocalFields {
        year: dt.year(),
        month: dt.month(),
        day: dt.day(),
        hour: dt.hour(),
        minute: dt.minute(),
        second: dt.second(),
        weekday: dt.weekday().num_days_from_sunday(),
    }
}

/// The second at which the zone named `tz` reads the given wall-clock time,
/// through `TimeZone::with_ymd_and_hms(..).single()` of `chrono_tz::Tz`
/// (the zone looked up as in [`local_fields`]). Claimed: the result is the
/// named `zone_instant`; an instant found is within `chrono`'s range and
/// reads, in that zone, exactly the wall-clock time that was asked for; in
/// the zone `UTC` (offset zero) it is the [`utc_instant`] of the time.
#[verifier::external_body]
pub(crate) fn local_instant(tz: &str, y: i32, m: u32, d: u32, h: u32, mi: u32, s: u32) -> (r: Option<i64>)
    ensures
        r == zone_instant(tz@, y, m, d, h, mi, s),
        r matches Some(t) ==> MIN_SECS <= t <= MAX_SECS,
        tz@ == utc_zone() ==> r == utc_instant(y, m, d, h, mi, s),
        r matches Some(t) ==> ({
            let f = zone_fields(tz@, t as int);
            f.year == y && f.month == m && f.day == d && f.hour == h && f.minute == mi && f.second
                == s && f.weekday == weekday_of(y as int, m as int, d as int)
        }),
{
    let zone: chrono_tz::Tz = tz.parse().unwrap_or(chrono_tz::UTC);
    match zone.with_ymd_and_hms(y, m, d, h, mi, s).single() {
        Some(dt) => Some(dt.timestamp()),
        None => None,
    }
}


/// The RFC 3339 text of an instant as `chrono` writes it for a UTC
/// `DateTime` (`to_rfc3339`).
pub uninterp spec fn rfc3339_text(secs: int, nanos: int) -> Seq<char>;

/// Formats an instant with `chrono::DateTime::<Utc>::to_rfc3339`. Claimed:
/// the text is the named `rfc3339_text` of the instant.
#[verifier::external_body]
pub(crate) fn to_rfc3339(t: UtcTime) -> (s: String)
    requires
        t.wf(),
    ensures
        s@ == rfc3339_text(t.secs as int, t.nanos as int),
{
    chrono::DateTime::from_timestamp(t.secs, t.nanos).unwrap().to_rfc3339()
}

} // verus!
