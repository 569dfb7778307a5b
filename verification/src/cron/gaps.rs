//! Why the search for the next run skips no run: each of its moves jumps
//! over wall-clock times that cannot be runs (the `span_*` lemmas, which
//! hold in any zone). On the UTC wall clock, where readings follow the
//! order of the seconds, this means that the seconds jumped over are no
//! runs (the `gap_*` lemmas).

use vstd::prelude::*;
use crate::cron::clock::{
    civil_secs, day_number, earlier, lemma_days_lt, lemma_reading_order, same_reading,
    utc_clock, utc_reading, valid_date, weekday_of, LocalFields,
};
use crate::cron::cron_parser::{allows, day_matches, fields_match, CronSpecView};

verus! {

/// No second in `a..b` is a run of `c` on the UTC wall clock.
pub open spec fn no_run_in(c: CronSpecView, a: int, b: int) -> bool {
    forall|s: int, k: LocalFields| a <= s < b && #[trigger] utc_clock(s, k) ==> !fields_match(c, k)
}

/// `k` is a well-formed wall-clock reading.
pub open spec fn clock_ok(k: LocalFields) -> bool {
    &&& valid_date(k.year as int, k.month as int, k.day as int)
    &&& k.hour < 24 && k.minute < 60 && k.second < 60
    &&& k.weekday == weekday_of(k.year as int, k.month as int, k.day as int)
}

/// No well-formed reading from `fa` (included) to `fb` (excluded) is a run.
pub open spec fn readings_gap(c: CronSpecView, fa: LocalFields, fb: LocalFields) -> bool {
    forall|k: LocalFields|
        clock_ok(k) && !earlier(k, fa) && earlier(k, fb) ==> !#[trigger] fields_match(c, k)
}

/// The reading of `y-m-d h:mi:s`, weekday aside.
pub open spec fn reading_at(y: i32, m: u32, d: u32, h: u32, mi: u32, s: u32) -> LocalFields {
    LocalFields { year: y, month: m, day: d, hour: h, minute: mi, second: s, weekday: 0 }
}

/// Gaps chain: no run in `a..b` and none in `b..c` means none in `a..c`.
pub proof fn lemma_gap_chain(c: CronSpecView, a: int, b: int, d: int)
    requires
        no_run_in(c, a, b),
        no_run_in(c, b, d),
    ensures
        no_run_in(c, a, d),
{
    assert forall|s: int, k: LocalFields| a <= s < d && #[trigger] utc_clock(s, k) implies !fields_match(
        c,
        k,
    ) by {
        if s < b {
            assert(a <= s < b && utc_clock(s, k));
        } else {
            assert(b <= s < d && utc_clock(s, k));
        }
    }
}

/// A gap holds on any shorter stretch from the same start.
pub proof fn lemma_gap_shrink(c: CronSpecView, a: int, b: int, b2: int)
    requires
        no_run_in(c, a, b),
        b2 <= b,
    ensures
        no_run_in(c, a, b2),
{
    assert forall|s: int, k: LocalFields| a <= s < b2 && #[trigger] utc_clock(s, k) implies !fields_match(
        c,
        k,
    ) by {
        assert(a <= s < b && utc_clock(s, k));
    }
}

/// A gap between two readings is a gap between their seconds.
pub proof fn lemma_gap_by_readings(c: CronSpecView, a: int, fa: LocalFields, b: int, fb: LocalFields)
    requires
        utc_reading(a, fa),
        utc_reading(b, fb),
        readings_gap(c, fa, fb),
    ensures
        no_run_in(c, a, b),
{
    assert forall|s: int, k: LocalFields| a <= s < b && #[trigger] utc_clock(s, k) implies !fields_match(
        c,
        k,
    ) by {
        lemma_reading_order(a, fa, s, k);
        lemma_reading_order(s, k, b, fb);
        assert(clock_ok(k));
    }
}

/// A date not before `f`'s and not after `g`'s, where `g`'s is the day
/// after `f`'s, is one of the two.
proof fn lemma_two_dates(f: LocalFields, k: LocalFields, g: LocalFields)
    requires
        valid_date(f.year as int, f.month as int, f.day as int),
        valid_date(k.year as int, k.month as int, k.day as int),
        valid_date(g.year as int, g.month as int, g.day as int),
        day_number(g) == day_number(f) + 1,
        !(k.year < f.year || (k.year == f.year && k.month < f.month) || (k.year == f.year
            && k.month == f.month && k.day < f.day)),
        !(g.year < k.year || (g.year == k.year && g.month < k.month) || (g.year == k.year
            && g.month == k.month && g.day < k.day)),
    ensures
        (k.year == f.year && k.month == f.month && k.day == f.day) || (k.year == g.year && k.month
            == g.month && k.day == g.day),
{
    let (fy, fm, fd) = (f.year as int, f.month as int, f.day as int);
    let (ky, km, kd) = (k.year as int, k.month as int, k.day as int);
    let (gy, gm, gd) = (g.year as int, g.month as int, g.day as int);
    if !(ky == fy && km == fm && kd == fd) && !(ky == gy && km == gm && kd == gd) {
        lemma_days_lt(fy, fm, fd, ky, km, kd);
        lemma_days_lt(ky, km, kd, gy, gm, gd);
    }
}

/// The day after a date comes later in calendar order.
proof fn lemma_next_date_later(f: LocalFields, g: LocalFields)
    requires
        valid_date(f.year as int, f.month as int, f.day as int),
        valid_date(g.year as int, g.month as int, g.day as int),
        day_number(g) == day_number(f) + 1,
    ensures
        f.year < g.year || (f.year == g.year && f.month < g.month) || (f.year == g.year && f.month
            == g.month && f.day < g.day),
{
    let (fy, fm, fd) = (f.year as int, f.month as int, f.day as int);
    let (gy, gm, gd) = (g.year as int, g.month as int, g.day as int);
    if gy < fy || (gy == fy && gm < fm) || (gy == fy && gm == fm && gd < fd) {
        lemma_days_lt(gy, gm, gd, fy, fm, fd);
    }
}

/// Gaps between readings chain, whatever the order of the three.
pub proof fn lemma_readings_chain(c: CronSpecView, fa: LocalFields, fb: LocalFields, fc: LocalFields)
    requires
        readings_gap(c, fa, fb),
        readings_gap(c, fb, fc),
    ensures
        readings_gap(c, fa, fc),
{
    assert forall|k: LocalFields| clock_ok(k) && !earlier(k, fa) && earlier(k, fc) implies !#[trigger] fields_match(
        c,
        k,
    ) by {
        if earlier(k, fb) {
            assert(clock_ok(k) && !earlier(k, fa) && earlier(k, fb));
        } else {
            assert(clock_ok(k) && !earlier(k, fb) && earlier(k, fc));
        }
    }
}

/// A gap holds up to any reading of the same date and time as its end.
pub proof fn lemma_readings_same_end(c: CronSpecView, fa: LocalFields, fb: LocalFields, g: LocalFields)
    requires
        readings_gap(c, fa, fb),
        same_reading(fb, g),
    ensures
        readings_gap(c, fa, g),
        earlier(fa, fb) ==> earlier(fa, g),
{
    assert forall|k: LocalFields| clock_ok(k) && !earlier(k, fa) && earlier(k, g) implies !#[trigger] fields_match(
        c,
        k,
    ) by {
        assert(earlier(k, fb));
    }
}

/// Month step within the year, on the wall clock alone.
pub proof fn span_month_same_year(c: CronSpecView, f: LocalFields, nm: u32)
    requires
        f.month < nm <= 12,
        forall|x: u32| f.month <= x < nm ==> !allows(c.mon, x),
    ensures
        readings_gap(c, f, reading_at(f.year, nm, 1, 0, 0, 0)),
        earlier(f, reading_at(f.year, nm, 1, 0, 0, 0)),
{
}

/// Month step into the next year, on the wall clock alone.
pub proof fn span_month_next_year(c: CronSpecView, f: LocalFields, m1: u32)
    requires
        1 <= m1 <= 12,
        f.year + 1 <= i32::MAX,
        forall|x: u32| f.month <= x <= 12 ==> !allows(c.mon, x),
        forall|x: u32| 1 <= x < m1 ==> !allows(c.mon, x),
    ensures
        readings_gap(c, f, reading_at((f.year + 1) as i32, m1, 1, 0, 0, 0)),
        earlier(f, reading_at((f.year + 1) as i32, m1, 1, 0, 0, 0)),
{
}

/// Day step, on the wall clock alone: `f`'s date is not a run day, and
/// `g`'s is the next date.
pub proof fn span_day(c: CronSpecView, f: LocalFields, g: LocalFields)
    requires
        valid_date(f.year as int, f.month as int, f.day as int),
        f.weekday == weekday_of(f.year as int, f.month as int, f.day as int),
        valid_date(g.year as int, g.month as int, g.day as int),
        day_number(g) == day_number(f) + 1,
        !day_matches(c, f.day, f.weekday),
    ensures
        readings_gap(c, f, reading_at(g.year, g.month, g.day, 0, 0, 0)),
        earlier(f, reading_at(g.year, g.month, g.day, 0, 0, 0)),
{
    let ft = reading_at(g.year, g.month, g.day, 0, 0, 0);
    assert forall|k: LocalFields| clock_ok(k) && !earlier(k, f) && earlier(k, ft) implies !#[trigger] fields_match(
        c,
        k,
    ) by {
        lemma_two_dates(f, k, g);
    }
    lemma_next_date_later(f, g);
}

/// Hour step within the day, on the wall clock alone.
pub proof fn span_hour_same_day(c: CronSpecView, f: LocalFields, nh: u32)
    requires
        f.hour < nh < 24,
        forall|x: u32| f.hour <= x < nh ==> !allows(c.hour, x),
    ensures
        readings_gap(c, f, reading_at(f.year, f.month, f.day, nh, 0, 0)),
        earlier(f, reading_at(f.year, f.month, f.day, nh, 0, 0)),
{
}

/// Hour step into the next day, on the wall clock alone.
pub proof fn span_hour_next_day(c: CronSpecView, f: LocalFields, g: LocalFields, h1: u32)
    requires
        valid_date(f.year as int, f.month as int, f.day as int),
        valid_date(g.year as int, g.month as int, g.day as int),
        day_number(g) == day_number(f) + 1,
        h1 < 24,
        forall|x: u32| f.hour <= x < 24 ==> !allows(c.hour, x),
        forall|x: u32| x < h1 ==> !allows(c.hour, x),
    ensures
        readings_gap(c, f, reading_at(g.year, g.month, g.day, h1, 0, 0)),
        earlier(f, reading_at(g.year, g.month, g.day, h1, 0, 0)),
{
    let ft = reading_at(g.year, g.month, g.day, h1, 0, 0);
    assert forall|k: LocalFields| clock_ok(k) && !earlier(k, f) && earlier(k, ft) implies !#[trigger] fields_match(
        c,
        k,
    ) by {
        lemma_two_dates(f, k, g);
    }
    lemma_next_date_later(f, g);
}

/// Minute step within the hour, on the wall clock alone.
pub proof fn span_minute_same_hour(c: CronSpecView, f: LocalFields, nm: u32)
    requires
        f.minute < nm < 60,
        forall|x: u32| f.minute <= x < nm ==> !allows(c.min, x),
    ensures
        readings_gap(c, f, reading_at(f.year, f.month, f.day, f.hour, nm, 0)),
        earlier(f, reading_at(f.year, f.month, f.day, f.hour, nm, 0)),
{
}

/// Minute step to a later hour of the day, on the wall clock alone.
pub proof fn span_minute_later_hour(c: CronSpecView, f: LocalFields, nh: u32, m1: u32)
    requires
        f.hour < nh < 24,
        m1 < 60,
        forall|x: u32| f.minute <= x < 60 ==> !allows(c.min, x),
        forall|x: u32| f.hour < x < nh ==> !allows(c.hour, x),
        forall|x: u32| x < m1 ==> !allows(c.min, x),
    ensures
        readings_gap(c, f, reading_at(f.year, f.month, f.day, nh, m1, 0)),
        earlier(f, reading_at(f.year, f.month, f.day, nh, m1, 0)),
{
}

/// Minute step into the next day, on the wall clock alone.
pub proof fn span_minute_next_day(c: CronSpecView, f: LocalFields, g: LocalFields, h1: u32, m1: u32)
    requires
        valid_date(f.year as int, f.month as int, f.day as int),
        valid_date(g.year as int, g.month as int, g.day as int),
        day_number(g) == day_number(f) + 1,
        h1 < 24,
        m1 < 60,
        forall|x: u32| f.minute <= x < 60 ==> !allows(c.min, x),
        forall|x: u32| f.hour < x < 24 ==> !allows(c.hour, x),
        forall|x: u32| x < h1 ==> !allows(c.hour, x),
        forall|x: u32| x < m1 ==> !allows(c.min, x),
    ensures
        readings_gap(c, f, reading_at(g.year, g.month, g.day, h1, m1, 0)),
        earlier(f, reading_at(g.year, g.month, g.day, h1, m1, 0)),
{
    let ft = reading_at(g.year, g.month, g.day, h1, m1, 0);
    assert forall|k: LocalFields| clock_ok(k) && !earlier(k, f) && earlier(k, ft) implies !#[trigger] fields_match(
        c,
        k,
    ) by {
        lemma_two_dates(f, k, g);
    }
    lemma_next_date_later(f, g);
}

/// Second step within the minute, on the wall clock alone.
pub proof fn span_second_same_minute(c: CronSpecView, f: LocalFields, ns: u32)
    requires
        f.second < ns < 60,
        forall|x: u32| f.second <= x < ns ==> !allows(c.sec, x),
    ensures
        readings_gap(c, f, reading_at(f.year, f.month, f.day, f.hour, f.minute, ns)),
        earlier(f, reading_at(f.year, f.month, f.day, f.hour, f.minute, ns)),
{
}

/// Second step to a later minute of the hour, on the wall clock alone.
pub proof fn span_second_later_minute(c: CronSpecView, f: LocalFields, nm: u32, s1: u32)
    requires
        f.minute < nm < 60,
        s1 < 60,
        forall|x: u32| f.second <= x < 60 ==> !allows(c.sec, x),
        forall|x: u32| f.minute < x < nm ==> !allows(c.min, x),
        forall|x: u32| x < s1 ==> !allows(c.sec, x),
    ensures
        readings_gap(c, f, reading_at(f.year, f.month, f.day, f.hour, nm, s1)),
        earlier(f, reading_at(f.year, f.month, f.day, f.hour, nm, s1)),
{
}

/// Second step to a later hour of the day, on the wall clock alone.
pub proof fn span_second_later_hour(c: CronSpecView, f: LocalFields, nh: u32, m1: u32, s1: u32)
    requires
        f.hour < nh < 24,
        m1 < 60,
        s1 < 60,
        forall|x: u32| f.second <= x < 60 ==> !allows(c.sec, x),
        forall|x: u32| f.minute < x < 60 ==> !allows(c.min, x),
        forall|x: u32| f.hour < x < nh ==> !allows(c.hour, x),
        forall|x: u32| x < m1 ==> !allows(c.min, x),
        forall|x: u32| x < s1 ==> !allows(c.sec, x),
    ensures
        readings_gap(c, f, reading_at(f.year, f.month, f.day, nh, m1, s1)),
        earlier(f, reading_at(f.year, f.month, f.day, nh, m1, s1)),
{
}

/// Second step into the next day, on the wall clock alone.
pub proof fn span_second_next_day(
    c: CronSpecView,
    f: LocalFields,
    g: LocalFields,
    h1: u32,
    m1: u32,
    s1: u32,
)
    requires
        valid_date(f.year as int, f.month as int, f.day as int),
        valid_date(g.year as int, g.month as int, g.day as int),
        day_number(g) == day_number(f) + 1,
        h1 < 24,
        m1 < 60,
        s1 < 60,
        forall|x: u32| f.second <= x < 60 ==> !allows(c.sec, x),
        forall|x: u32| f.minute < x < 60 ==> !allows(c.min, x),
        forall|x: u32| f.hour < x < 24 ==> !allows(c.hour, x),
        forall|x: u32| x < h1 ==> !allows(c.hour, x),
        forall|x: u32| x < m1 ==> !allows(c.min, x),
        forall|x: u32| x < s1 ==> !allows(c.sec, x),
    ensures
        readings_gap(c, f, reading_at(g.year, g.month, g.day, h1, m1, s1)),
        earlier(f, reading_at(g.year, g.month, g.day, h1, m1, s1)),
{
    let ft = reading_at(g.year, g.month, g.day, h1, m1, s1);
    assert forall|k: LocalFields| clock_ok(k) && !earlier(k, f) && earlier(k, ft) implies !#[trigger] fields_match(
        c,
        k,
    ) by {
        lemma_two_dates(f, k, g);
    }
    lemma_next_date_later(f, g);
}

/// Month step within the year: the months from `f`'s up to `nm` are not
/// allowed, so nothing before the first of `nm` runs.
pub proof fn gap_month_same_year(c: CronSpecView, dt: int, f: LocalFields, t: int, nm: u32)
    requires
        utc_reading(dt, f),
        f.month < nm <= 12,
        t == civil_secs(f.year as int, nm as int, 1, 0, 0, 0),
        forall|x: u32| f.month <= x < nm ==> !allows(c.mon, x),
    ensures
        no_run_in(c, dt, t),
{
    let ft = reading_at(f.year, nm, 1, 0, 0, 0);
    lemma_gap_by_readings(c, dt, f, t, ft);
}

/// Month step into the next year: no month from `f`'s on is allowed, nor
/// one before `m1`.
pub proof fn gap_month_next_year(c: CronSpecView, dt: int, f: LocalFields, t: int, m1: u32)
    requires
        utc_reading(dt, f),
        1 <= m1 <= 12,
        f.year + 1 <= i32::MAX,
        t == civil_secs(f.year + 1, m1 as int, 1, 0, 0, 0),
        forall|x: u32| f.month <= x <= 12 ==> !allows(c.mon, x),
        forall|x: u32| 1 <= x < m1 ==> !allows(c.mon, x),
    ensures
        no_run_in(c, dt, t),
{
    let ft = reading_at((f.year + 1) as i32, m1, 1, 0, 0, 0);
    lemma_gap_by_readings(c, dt, f, t, ft);
}

/// Day step: `f`'s date is not a run day, and the next run can only start
/// at midnight of the next date `g`.
pub proof fn gap_day(c: CronSpecView, dt: int, f: LocalFields, g: LocalFields, t: int)
    requires
        utc_clock(dt, f),
        valid_date(g.year as int, g.month as int, g.day as int),
        day_number(g) == day_number(f) + 1,
        t == civil_secs(g.year as int, g.month as int, g.day as int, 0, 0, 0),
        !day_matches(c, f.day, f.weekday),
    ensures
        no_run_in(c, dt, t),
        dt < t,
{
    let ft = reading_at(g.year, g.month, g.day, 0, 0, 0);
    span_day(c, f, g);
    lemma_reading_order(dt, f, t, ft);
    lemma_gap_by_readings(c, dt, f, t, ft);
}

/// Hour step within the day.
pub proof fn gap_hour_same_day(c: CronSpecView, dt: int, f: LocalFields, t: int, nh: u32)
    requires
        utc_reading(dt, f),
        f.hour < nh < 24,
        t == civil_secs(f.year as int, f.month as int, f.day as int, nh as int, 0, 0),
        forall|x: u32| f.hour <= x < nh ==> !allows(c.hour, x),
    ensures
        no_run_in(c, dt, t),
        dt < t,
{
    let ft = reading_at(f.year, f.month, f.day, nh, 0, 0);
    lemma_reading_order(dt, f, t, ft);
    lemma_gap_by_readings(c, dt, f, t, ft);
}

/// Hour step into the next day.
pub proof fn gap_hour_next_day(
    c: CronSpecView,
    dt: int,
    f: LocalFields,
    g: LocalFields,
    t: int,
    h1: u32,
)
    requires
        utc_reading(dt, f),
        valid_date(g.year as int, g.month as int, g.day as int),
        day_number(g) == day_number(f) + 1,
        h1 < 24,
        t == civil_secs(g.year as int, g.month as int, g.day as int, h1 as int, 0, 0),
        forall|x: u32| f.hour <= x < 24 ==> !allows(c.hour, x),
        forall|x: u32| x < h1 ==> !allows(c.hour, x),
    ensures
        no_run_in(c, dt, t),
        dt < t,
{
    let ft = reading_at(g.year, g.month, g.day, h1, 0, 0);
    span_hour_next_day(c, f, g, h1);
    lemma_reading_order(dt, f, t, ft);
    lemma_gap_by_readings(c, dt, f, t, ft);
}

/// Minute step within the hour.
pub proof fn gap_minute_same_hour(c: CronSpecView, dt: int, f: LocalFields, t: int, nm: u32)
    requires
        utc_reading(dt, f),
        f.minute < nm < 60,
        t == civil_secs(
            f.year as int,
            f.month as int,
            f.day as int,
            f.hour as int,
            nm as int,
            0,
        ),
        forall|x: u32| f.minute <= x < nm ==> !allows(c.min, x),
    ensures
        no_run_in(c, dt, t),
        dt < t,
{
    let ft = reading_at(f.year, f.month, f.day, f.hour, nm, 0);
    lemma_reading_order(dt, f, t, ft);
    lemma_gap_by_readings(c, dt, f, t, ft);
}

/// Minute step to a later hour of the day.
pub proof fn gap_minute_later_hour(
    c: CronSpecView,
    dt: int,
    f: LocalFields,
    t: int,
    nh: u32,
    m1: u32,
)
    requires
        utc_reading(dt, f),
        f.hour < nh < 24,
        m1 < 60,
        t == civil_secs(f.year as int, f.month as int, f.day as int, nh as int, m1 as int, 0),
        forall|x: u32| f.minute <= x < 60 ==> !allows(c.min, x),
        forall|x: u32| f.hour < x < nh ==> !allows(c.hour, x),
        forall|x: u32| x < m1 ==> !allows(c.min, x),
    ensures
        no_run_in(c, dt, t),
        dt < t,
{
    let ft = reading_at(f.year, f.month, f.day, nh, m1, 0);
    lemma_reading_order(dt, f, t, ft);
    lemma_gap_by_readings(c, dt, f, t, ft);
}

/// Minute step into the next day.
pub proof fn gap_minute_next_day(
    c: CronSpecView,
    dt: int,
    f: LocalFields,
    g: LocalFields,
    t: int,
    h1: u32,
    m1: u32,
)
    requires
        utc_reading(dt, f),
        valid_date(g.year as int, g.month as int, g.day as int),
        day_number(g) == day_number(f) + 1,
        h1 < 24,
        m1 < 60,
        t == civil_secs(g.year as int, g.month as int, g.day as int, h1 as int, m1 as int, 0),
        forall|x: u32| f.minute <= x < 60 ==> !allows(c.min, x),
        forall|x: u32| f.hour < x < 24 ==> !allows(c.hour, x),
        forall|x: u32| x < h1 ==> !allows(c.hour, x),
        forall|x: u32| x < m1 ==> !allows(c.min, x),
    ensures
        no_run_in(c, dt, t),
        dt < t,
{
    let ft = reading_at(g.year, g.month, g.day, h1, m1, 0);
    span_minute_next_day(c, f, g, h1, m1);
    lemma_reading_order(dt, f, t, ft);
    lemma_gap_by_readings(c, dt, f, t, ft);
}

/// Second step within the minute.
pub proof fn gap_second_same_minute(c: CronSpecView, dt: int, f: LocalFields, t: int, ns: u32)
    requires
        utc_reading(dt, f),
        f.second < ns < 60,
        t == civil_secs(
            f.year as int,
            f.month as int,
            f.day as int,
            f.hour as int,
            f.minute as int,
            ns as int,
        ),
        forall|x: u32| f.second <= x < ns ==> !allows(c.sec, x),
    ensures
        no_run_in(c, dt, t),
        dt < t,
{
    let ft = reading_at(f.year, f.month, f.day, f.hour, f.minute, ns);
    lemma_reading_order(dt, f, t, ft);
    lemma_gap_by_readings(c, dt, f, t, ft);
}

/// Second step to a later minute of the hour.
pub proof fn gap_second_later_minute(
    c: CronSpecView,
    dt: int,
    f: LocalFields,
    t: int,
    nm: u32,
    s1: u32,
)
    requires
        utc_reading(dt, f),
        f.minute < nm < 60,
        s1 < 60,
        t == civil_secs(
            f.year as int,
            f.month as int,
            f.day as int,
            f.hour as int,
            nm as int,
            s1 as int,
        ),
        forall|x: u32| f.second <= x < 60 ==> !allows(c.sec, x),
        forall|x: u32| f.minute < x < nm ==> !allows(c.min, x),
        forall|x: u32| x < s1 ==> !allows(c.sec, x),
    ensures
        no_run_in(c, dt, t),
        dt < t,
{
    let ft = reading_at(f.year, f.month, f.day, f.hour, nm, s1);
    lemma_reading_order(dt, f, t, ft);
    lemma_gap_by_readings(c, dt, f, t, ft);
}

/// Second step to a later hour of the day.
pub proof fn gap_second_later_hour(
    c: CronSpecView,
    dt: int,
    f: LocalFields,
    t: int,
    nh: u32,
    m1: u32,
    s1: u32,
)
    requires
        utc_reading(dt, f),
        f.hour < nh < 24,
        m1 < 60,
        s1 < 60,
        t == civil_secs(
            f.year as int,
            f.month as int,
            f.day as int,
            nh as int,
            m1 as int,
            s1 as int,
        ),
        forall|x: u32| f.second <= x < 60 ==> !allows(c.sec, x),
        forall|x: u32| f.minute < x < 60 ==> !allows(c.min, x),
        forall|x: u32| f.hour < x < nh ==> !allows(c.hour, x),
        forall|x: u32| x < m1 ==> !allows(c.min, x),
        forall|x: u32| x < s1 ==> !allows(c.sec, x),
    ensures
        no_run_in(c, dt, t),
        dt < t,
{
    let ft = reading_at(f.year, f.month, f.day, nh, m1, s1);
    lemma_reading_order(dt, f, t, ft);
    lemma_gap_by_readings(c, dt, f, t, ft);
}

/// Second step into the next day.
pub proof fn gap_second_next_day(
    c: CronSpecView,
    dt: int,
    f: LocalFields,
    g: LocalFields,
    t: int,
    h1: u32,
    m1: u32,
    s1: u32,
)
    requires
        utc_reading(dt, f),
        valid_date(g.year as int, g.month as int, g.day as int),
        day_number(g) == day_number(f) + 1,
        h1 < 24,
        m1 < 60,
        s1 < 60,
        t == civil_secs(
            g.year as int,
            g.month as int,
            g.day as int,
            h1 as int,
            m1 as int,
            s1 as int,
        ),
        forall|x: u32| f.second <= x < 60 ==> !allows(c.sec, x),
        forall|x: u32| f.minute < x < 60 ==> !allows(c.min, x),
        forall|x: u32| f.hour < x < 24 ==> !allows(c.hour, x),
        forall|x: u32| x < h1 ==> !allows(c.hour, x),
        forall|x: u32| x < m1 ==> !allows(c.min, x),
        forall|x: u32| x < s1 ==> !allows(c.sec, x),
    ensures
        no_run_in(c, dt, t),
        dt < t,
{
    let ft = reading_at(g.year, g.month, g.day, h1, m1, s1);
    span_second_next_day(c, f, g, h1, m1, s1);
    lemma_reading_order(dt, f, t, ft);
    lemma_gap_by_readings(c, dt, f, t, ft);
}

} // verus!
