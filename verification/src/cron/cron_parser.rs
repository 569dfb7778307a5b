//! A cron parser and next-run finder.
//!
//! Expressions have six fields, `sec min hour dom mon dow`, or five,
//! `min hour dom mon dow`, in which case the seconds are `0`.
//!
//! Tokens per field:
//! ```text
//! *         -> any
//! a         -> exact
//! a,b,c     -> list
//! a-b       -> range inclusive
//! */n       -> step over the full range
//! a-b/n     -> stepped range
//! Names:
//!   Months:   JAN..DEC
//!   Weekdays: SUN,MON,TUE,WED,THU,FRI,SAT  (0 and 7 are Sunday)
//! ```

use std::collections::HashSet;
use vstd::std_specs::iter::IteratorSpec;
use vstd::prelude::*;
use vstd::string::*;
use crate::cron::clock::{
    lemma_past_last_year, lemma_reading_year, MIN_SECS, effective_zone, zone_is_known, following_day, lemma_following_day, next_date, civil_secs, local_fields, local_instant, utc_clock, utc_reading, utc_zone, valid_date, zone_fields,
    zone_instant, earlier, same_reading, day_number, LocalFields, UtcTime, MAX_SECS,
};
use crate::cron::gaps::{
    gap_day, gap_hour_next_day, gap_hour_same_day, gap_minute_later_hour, gap_minute_next_day,
    gap_minute_same_hour, gap_month_next_year, gap_month_same_year, gap_second_later_hour,
    gap_second_later_minute, gap_second_next_day, gap_second_same_minute, lemma_gap_chain, clock_ok,
    lemma_gap_shrink, lemma_readings_chain, lemma_readings_same_end, no_run_in, readings_gap,
    reading_at, span_day, span_hour_next_day, span_hour_same_day, span_minute_later_hour,
    span_minute_next_day, span_minute_same_hour, span_month_next_year, span_month_same_year,
    span_second_later_hour, span_second_later_minute, span_second_next_day,
    span_second_same_minute,
};
use crate::text::{
    ascii_upper, char_pos, chars_of, find_char, lemma_char_pos, lemma_upper_char_pos,
    lemma_upper_char_to, lemma_upper_parse_u32, lemma_upper_seq, lemma_upper_trim,
    lemma_trim_ends, lemma_upper_words, lemma_words_trim, lemma_words_zero_prefix, parse_u32, parse_u32_spec, slice_chars,
    split_once, split_words, string_from_chars, to_ascii_upper, trim, trim_chars, words, int_text, push_int, push_str,
};

verus! {

broadcast use vstd::std_specs::hash::group_hash_axioms;

/// A field, or a whole expression, that does not parse.
#[derive(Debug, Clone, Copy, PartialEq, Eq)]
pub struct InvalidField;

/// Why a cron expression gave no next run.
#[derive(Debug, Clone, PartialEq, Eq)]
pub enum CronError {
    /// The expression, kept as it was given, does not parse.
    InvalidExpression(String),
    /// No run was found within five years of the start.
    NotFound,
    /// The wall-clock time `year-month-day hour:minute:second` that the
    /// search had to place does not exist, or exists twice, in the time
    /// zone (a daylight-saving gap or overlap), or falls where the zone's
    /// clock had gone back, behind the search.
    InvalidLocalTime { year: i32, month: u32, day: u32, hour: u32, minute: u32, second: u32 },
    /// The search ran past the range of representable instants.
    OutOfRange,
}

/// The error for a wall-clock time that the search could not place.
pub open spec fn local_time_error(f: LocalFields) -> CronError {
    CronError::InvalidLocalTime {
        year: f.year,
        month: f.month,
        day: f.day,
        hour: f.hour,
        minute: f.minute,
        second: f.second,
    }
}

/// The message that goes with each error.
pub open spec fn cron_error_text(e: CronError) -> Seq<char> {
    match e {
        CronError::InvalidExpression(x) => "Invalid cron expression: "@ + x@,
        CronError::NotFound => "Could not find next occurrence within 5 years"@,
        CronError::InvalidLocalTime { year, month, day, hour, minute, second } => "Invalid local time (DST gap/overlap): "@
            + int_text(year as int) + "-"@ + int_text(month as int) + "-"@ + int_text(day as int)
            + " "@ + int_text(hour as int) + ":"@ + int_text(minute as int) + ":"@ + int_text(
            second as int,
        ),
        CronError::OutOfRange => "Time out of range"@,
    }
}

impl CronError {
    /// The error's message; see [`cron_error_text`].
    pub fn message(&self) -> (s: String)
        ensures
            s@ == cron_error_text(*self),
    {
        let mut out: Vec<char> = Vec::new();
        match self {
            CronError::InvalidExpression(x) => {
                push_str(&mut out, "Invalid cron expression: ");
                push_str(&mut out, x.as_str());
            },
            CronError::NotFound => push_str(&mut out, "Could not find next occurrence within 5 years"),
            CronError::InvalidLocalTime { year, month, day, hour, minute, second } => {
                push_str(&mut out, "Invalid local time (DST gap/overlap): ");
                push_int(&mut out, *year as i64);
                push_str(&mut out, "-");
                push_int(&mut out, *month as i64);
                push_str(&mut out, "-");
                push_int(&mut out, *day as i64);
                push_str(&mut out, " ");
                push_int(&mut out, *hour as i64);
                push_str(&mut out, ":");
                push_int(&mut out, *minute as i64);
                push_str(&mut out, ":");
                push_int(&mut out, *second as i64);
            },
            CronError::OutOfRange => push_str(&mut out, "Time out of range"),
        }
        string_from_chars(&out)
    }
}

/// A table of names for the values of a field.
#[derive(Debug, Clone, Copy, PartialEq, Eq)]
pub enum NameMap {
    /// `JAN`..`DEC` for 1..12.
    Months,
    /// `SUN`..`SAT` for 0..6.
    Weekdays,
}

pub open spec fn s3(a: char, b: char, c: char) -> Seq<char> {
    seq![a, b, c]
}

fn is3(k: &Vec<char>, a: char, b: char, c: char) -> (r: bool)
    ensures
        r == (k@ == s3(a, b, c)),
{
    if k.len() == 3 && k[0] == a && k[1] == b && k[2] == c {
        assert(k@ =~= s3(a, b, c));
        true
    } else {
        false
    }
}

impl NameMap {
    /// The value that this table gives a name, if it has the name.
    pub open spec fn lookup(self, k: Seq<char>) -> Option<u32> {
        match self {
            NameMap::Months => {
                if k == s3('J', 'A', 'N') {
                    Some(1)
                } else if k == s3('F', 'E', 'B') {
                    Some(2)
                } else if k == s3('M', 'A', 'R') {
                    Some(3)
                } else if k == s3('A', 'P', 'R') {
                    Some(4)
                } else if k == s3('M', 'A', 'Y') {
                    Some(5)
                } else if k == s3('J', 'U', 'N') {
                    Some(6)
                } else if k == s3('J', 'U', 'L') {
                    Some(7)
                } else if k == s3('A', 'U', 'G') {
                    Some(8)
                } else if k == s3('S', 'E', 'P') {
                    Some(9)
                } else if k == s3('O', 'C', 'T') {
                    Some(10)
                } else if k == s3('N', 'O', 'V') {
                    Some(11)
                } else if k == s3('D', 'E', 'C') {
                    Some(12)
                } else {
                    None
                }
            },
            NameMap::Weekdays => {
                if k == s3('S', 'U', 'N') {
                    Some(0)
                } else if k == s3('M', 'O', 'N') {
                    Some(1)
                } else if k == s3('T', 'U', 'E') {
                    Some(2)
                } else if k == s3('W', 'E', 'D') {
                    Some(3)
                } else if k == s3('T', 'H', 'U') {
                    Some(4)
                } else if k == s3('F', 'R', 'I') {
                    Some(5)
                } else if k == s3('S', 'A', 'T') {
                    Some(6)
                } else {
                    None
                }
            },
        }
    }

    /// Looks a name up; names are upper case here.
    pub fn get(&self, k: &Vec<char>) -> (r: Option<u32>)
        ensures
            r == self.lookup(k@),
    {
        match self {
            NameMap::Months => {
                if is3(k, 'J', 'A', 'N') {
                    Some(1)
                } else if is3(k, 'F', 'E', 'B') {
                    Some(2)
                } else if is3(k, 'M', 'A', 'R') {
                    Some(3)
                } else if is3(k, 'A', 'P', 'R') {
                    Some(4)
                } else if is3(k, 'M', 'A', 'Y') {
                    Some(5)
                } else if is3(k, 'J', 'U', 'N') {
                    Some(6)
                } else if is3(k, 'J', 'U', 'L') {
                    Some(7)
                } else if is3(k, 'A', 'U', 'G') {
                    Some(8)
                } else if is3(k, 'S', 'E', 'P') {
                    Some(9)
                } else if is3(k, 'O', 'C', 'T') {
                    Some(10)
                } else if is3(k, 'N', 'O', 'V') {
                    Some(11)
                } else if is3(k, 'D', 'E', 'C') {
                    Some(12)
                } else {
                    None
                }
            },
            NameMap::Weekdays => {
                if is3(k, 'S', 'U', 'N') {
                    Some(0)
                } else if is3(k, 'M', 'O', 'N') {
                    Some(1)
                } else if is3(k, 'T', 'U', 'E') {
                    Some(2)
                } else if is3(k, 'W', 'E', 'D') {
                    Some(3)
                } else if is3(k, 'T', 'H', 'U') {
                    Some(4)
                } else if is3(k, 'F', 'R', 'I') {
                    Some(5)
                } else if is3(k, 'S', 'A', 'T') {
                    Some(6)
                } else {
                    None
                }
            },
        }
    }
}

/// The month names: `JAN` is 1 and `DEC` is 12.
pub fn month_name_map() -> (m: NameMap)
    ensures
        m == NameMap::Months,
        m.lookup(s3('J', 'A', 'N')) == Some(1u32),
        m.lookup(s3('D', 'E', 'C')) == Some(12u32),
{
    NameMap::Months
}

/// The weekday names: `SUN` is 0 and `SAT` is 6.
pub fn weekday_name_map() -> (m: NameMap)
    ensures
        m == NameMap::Weekdays,
        m.lookup(s3('S', 'U', 'N')) == Some(0u32),
        m.lookup(s3('S', 'A', 'T')) == Some(6u32),
{
    NameMap::Weekdays
}

/// The name, upper-cased, when `t` is one in `names`.
pub open spec fn name_value(t: Seq<char>, names: Option<NameMap>) -> Option<u32> {
    match names {
        Some(m) => m.lookup(ascii_upper(t)),
        None => None,
    }
}

/// The month names in calendar order, January first.
pub open spec fn calendar_months() -> Seq<Seq<char>> {
    seq![seq!['J', 'A', 'N'], seq!['F', 'E', 'B'], seq!['M', 'A', 'R'], seq!['A', 'P', 'R'], seq!['M', 'A', 'Y'], seq!['J', 'U', 'N'], seq!['J', 'U', 'L'], seq!['A', 'U', 'G'], seq!['S', 'E', 'P'], seq!['O', 'C', 'T'], seq!['N', 'O', 'V'], seq!['D', 'E', 'C']]
}

/// The weekday names from Sunday to Saturday.
pub open spec fn week_days() -> Seq<Seq<char>> {
    seq![seq!['S', 'U', 'N'], seq!['M', 'O', 'N'], seq!['T', 'U', 'E'], seq!['W', 'E', 'D'], seq!['T', 'H', 'U'], seq!['F', 'R', 'I'], seq!['S', 'A', 'T']]
}

/// A field token that is a three-letter upper-case name of the table
/// allows exactly the value that the table gives the name.
proof fn lemma_name_field(
    a: char,
    b: char,
    c: char,
    min: u32,
    max: u32,
    m: NameMap,
    is_dow: bool,
    n: u32,
)
    requires
        'A' <= a <= 'Z',
        'A' <= b <= 'Z',
        'A' <= c <= 'Z',
        m.lookup(s3(a, b, c)) == Some(n),
        min <= n <= max,
        !(is_dow && n == 7),
    ensures
        m.lookup(seq![a, b, c]) == Some(n),
        field_spec(seq![a, b, c], min, max, Some(m), is_dow) == Some(set![n]),
{
    let t = seq![a, b, c];
    assert(t == s3(a, b, c));
    assert(!crate::text::is_ws(a) && !crate::text::is_ws(c));
    assert(crate::text::trim_start(t) == t);
    assert(crate::text::trim_end(t) == t);
    assert(trim(t) == t);
    assert(t != seq!['*']);
    crate::text::lemma_char_pos(t, ',');
    assert(!t.contains(',')) by {
        if t.contains(',') {
            let k = choose|k: int| 0 <= k < t.len() && t[k] == ',';
            assert(t[k] == a || t[k] == b || t[k] == c);
        }
    }
    assert(char_pos(t, ',') == 3);
    assert(t.take(3) =~= t);
    assert(ascii_upper(t) =~= t);
    assert(name_value(t, Some(m)) == Some(n));
}

/// Month names denote the months in calendar order, `JAN` 1 to `DEC` 12,
/// and a month field that names a month allows exactly that month.
pub proof fn law_month_names(i: int)
    requires
        0 <= i < 12,
    ensures
        NameMap::Months.lookup(calendar_months()[i]) == Some((i + 1) as u32),
        field_spec(calendar_months()[i], 1, 12, Some(NameMap::Months), false) == Some(
            set![(i + 1) as u32],
        ),
{
    if i == 0 {
        assert(calendar_months()[0] == seq!['J', 'A', 'N']);
        lemma_name_field('J', 'A', 'N', 1, 12, NameMap::Months, false, 1u32);
    } else if i == 1 {
        assert(calendar_months()[1] == seq!['F', 'E', 'B']);
        lemma_name_field('F', 'E', 'B', 1, 12, NameMap::Months, false, 2u32);
    } else if i == 2 {
        assert(calendar_months()[2] == seq!['M', 'A', 'R']);
        lemma_name_field('M', 'A', 'R', 1, 12, NameMap::Months, false, 3u32);
    } else if i == 3 {
        assert(calendar_months()[3] == seq!['A', 'P', 'R']);
        lemma_name_field('A', 'P', 'R', 1, 12, NameMap::Months, false, 4u32);
    } else if i == 4 {
        assert(calendar_months()[4] == seq!['M', 'A', 'Y']);
        lemma_name_field('M', 'A', 'Y', 1, 12, NameMap::Months, false, 5u32);
    } else if i == 5 {
        assert(calendar_months()[5] == seq!['J', 'U', 'N']);
        lemma_name_field('J', 'U', 'N', 1, 12, NameMap::Months, false, 6u32);
    } else if i == 6 {
        assert(calendar_months()[6] == seq!['J', 'U', 'L']);
        lemma_name_field('J', 'U', 'L', 1, 12, NameMap::Months, false, 7u32);
    } else if i == 7 {
        assert(calendar_months()[7] == seq!['A', 'U', 'G']);
        lemma_name_field('A', 'U', 'G', 1, 12, NameMap::Months, false, 8u32);
    } else if i == 8 {
        assert(calendar_months()[8] == seq!['S', 'E', 'P']);
        lemma_name_field('S', 'E', 'P', 1, 12, NameMap::Months, false, 9u32);
    } else if i == 9 {
        assert(calendar_months()[9] == seq!['O', 'C', 'T']);
        lemma_name_field('O', 'C', 'T', 1, 12, NameMap::Months, false, 10u32);
    } else if i == 10 {
        assert(calendar_months()[10] == seq!['N', 'O', 'V']);
        lemma_name_field('N', 'O', 'V', 1, 12, NameMap::Months, false, 11u32);
    } else if i == 11 {
        assert(calendar_months()[11] == seq!['D', 'E', 'C']);
        lemma_name_field('D', 'E', 'C', 1, 12, NameMap::Months, false, 12u32);
    }
}

/// Weekday names denote the days from Sunday 0 to Saturday 6, and a
/// day-of-week field that names a day allows exactly that day.
pub proof fn law_weekday_names(i: int)
    requires
        0 <= i < 7,
    ensures
        NameMap::Weekdays.lookup(week_days()[i]) == Some(i as u32),
        field_spec(week_days()[i], 0, 6, Some(NameMap::Weekdays), true) == Some(set![i as u32]),
{
    if i == 0 {
        assert(week_days()[0] == seq!['S', 'U', 'N']);
        lemma_name_field('S', 'U', 'N', 0, 6, NameMap::Weekdays, true, 0u32);
    } else if i == 1 {
        assert(week_days()[1] == seq!['M', 'O', 'N']);
        lemma_name_field('M', 'O', 'N', 0, 6, NameMap::Weekdays, true, 1u32);
    } else if i == 2 {
        assert(week_days()[2] == seq!['T', 'U', 'E']);
        lemma_name_field('T', 'U', 'E', 0, 6, NameMap::Weekdays, true, 2u32);
    } else if i == 3 {
        assert(week_days()[3] == seq!['W', 'E', 'D']);
        lemma_name_field('W', 'E', 'D', 0, 6, NameMap::Weekdays, true, 3u32);
    } else if i == 4 {
        assert(week_days()[4] == seq!['T', 'H', 'U']);
        lemma_name_field('T', 'H', 'U', 0, 6, NameMap::Weekdays, true, 4u32);
    } else if i == 5 {
        assert(week_days()[5] == seq!['F', 'R', 'I']);
        lemma_name_field('F', 'R', 'I', 0, 6, NameMap::Weekdays, true, 5u32);
    } else if i == 6 {
        assert(week_days()[6] == seq!['S', 'A', 'T']);
        lemma_name_field('S', 'A', 'T', 0, 6, NameMap::Weekdays, true, 6u32);
    }
}

/// One value of a field: a name, or a number that is then held to
/// `min..=max` (for the day of week, 7 is first read as 0).
pub open spec fn parse_num_spec(
    token: Seq<char>,
    min: u32,
    max: u32,
    names: Option<NameMap>,
    is_dow: bool,
) -> Option<u32> {
    let t = trim(token);
    if name_value(t, names) is Some {
        name_value(t, names)
    } else {
        match parse_u32_spec(t) {
            None => None,
            Some(n0) => {
                let n = if is_dow && n0 == 7 {
                    0
                } else {
                    n0
                };
                if n < min || n > max {
                    None
                } else {
                    Some(n)
                }
            },
        }
    }
}

/// The step of a stepped token `lhs/step`: `lhs` must be empty, `*` or
/// hold a `-`, and the step a positive number.
pub open spec fn parse_step_spec(lhs: Seq<char>, step: Seq<char>) -> Option<u32> {
    if lhs.len() > 0 && lhs != seq!['*'] && !lhs.contains('-') {
        None
    } else {
        match parse_u32_spec(step) {
            Some(st) => if st > 0 {
                Some(st)
            } else {
                None
            },
            None => None,
        }
    }
}

/// Whether `v` is `lo` plus a multiple of `step`.
pub open spec fn on_step(lo: u32, step: u32, v: u32) -> bool {
    (v - lo) % (step as int) == 0
}

/// `lo, lo + step, ...` up to `hi`.
pub open spec fn stepped(lo: u32, hi: u32, step: u32) -> Set<u32> {
    Set::new(|v: u32| lo <= v <= hi && on_step(lo, step, v))
}

pub open spec fn min_u32(a: u32, b: u32) -> u32 {
    if a <= b {
        a
    } else {
        b
    }
}

pub open spec fn max_u32(a: u32, b: u32) -> u32 {
    if a <= b {
        b
    } else {
        a
    }
}

/// The values of a part `a-b` (ends in either order, inclusive), stepped
/// by `step`; in the day-of-week field an end may be 7, and 7 is then
/// Sunday.
pub open spec fn range_spec(
    lhs: Seq<char>,
    min: u32,
    max: u32,
    names: Option<NameMap>,
    is_dow: bool,
    step: u32,
) -> Option<Set<u32>> {
    match split_once(lhs, '-') {
        Some((a_s, b_s)) => match (
            parse_num_spec(a_s, min, range_end_max(min, max, is_dow), names, false),
            parse_num_spec(b_s, min, range_end_max(min, max, is_dow), names, false),
        ) {
            (Some(a), Some(b)) => {
                let r = stepped(min_u32(a, b), max_u32(a, b), step);
                Some(
                    if sunday_range(min, max, is_dow) {
                        sunday_as_zero(r)
                    } else {
                        r
                    },
                )
            },
            _ => None,
        },
        None => None,
    }
}

/// The day-of-week field `0..=6`, where a range may end on 7 (Sunday
/// again).
pub open spec fn sunday_range(min: u32, max: u32, is_dow: bool) -> bool {
    is_dow && min == 0 && max == 6
}

/// The largest end of a range: 7 in the day-of-week field, else `max`.
pub open spec fn range_end_max(min: u32, max: u32, is_dow: bool) -> u32 {
    if sunday_range(min, max, is_dow) {
        7
    } else {
        max
    }
}

/// Day-of-week values with 7 read as Sunday, 0.
pub open spec fn sunday_as_zero(s: Set<u32>) -> Set<u32> {
    if s.contains(7) {
        s.remove(7).insert(0)
    } else {
        s
    }
}

/// The values of one comma-separated part of a field, already trimmed.
pub open spec fn part_spec(
    part: Seq<char>,
    min: u32,
    max: u32,
    names: Option<NameMap>,
    is_dow: bool,
) -> Option<Set<u32>> {
    if part.len() == 0 {
        Some(Set::empty())
    } else if name_value(part, names) is Some {
        let n0 = name_value(part, names)->0;
        let n = if is_dow && n0 == 7 {
            0
        } else {
            n0
        };
        if n < min || n > max {
            None
        } else {
            Some(set![n])
        }
    } else {
        let p = if is_dow && part == seq!['7'] {
            seq!['0']
        } else {
            part
        };
        match split_once(p, '/') {
            Some((lhs, step_s)) => match parse_step_spec(lhs, step_s) {
                None => None,
                Some(step) => if lhs == seq!['*'] {
                    Some(stepped(min, max, step))
                } else {
                    range_spec(lhs, min, max, names, is_dow, step)
                },
            },
            None => if p.contains('-') {
                range_spec(p, min, max, names, is_dow, 1)
            } else {
                match parse_num_spec(p, min, max, names, is_dow) {
                    Some(n) => Some(set![n]),
                    None => None,
                }
            },
        }
    }
}

/// The values of a comma-separated list: the union of its parts, or
/// `None` when one part is invalid.
pub open spec fn list_spec(
    t: Seq<char>,
    min: u32,
    max: u32,
    names: Option<NameMap>,
    is_dow: bool,
) -> Option<Set<u32>>
    decreases t.len(),
{
    let p = char_pos(t, ',');
    let first = part_spec(trim(t.take(p as int)), min, max, names, is_dow);
    if p < t.len() {
        match (first, list_spec(t.skip((p + 1) as int), min, max, names, is_dow)) {
            (Some(a), Some(b)) => Some(a.union(b)),
            _ => None,
        }
    } else {
        first
    }
}

/// The values that a field token allows; the empty set stands for "any".
pub open spec fn field_spec(
    token: Seq<char>,
    min: u32,
    max: u32,
    names: Option<NameMap>,
    is_dow: bool,
) -> Option<Set<u32>> {
    if trim(token) == seq!['*'] {
        Some(Set::empty())
    } else {
        list_spec(token, min, max, names, is_dow)
    }
}


/// Adds `set` to `acc`, or stays `None`.
pub open spec fn union_with(acc: Set<u32>, o: Option<Set<u32>>) -> Option<Set<u32>> {
    match o {
        Some(b) => Some(acc.union(b)),
        None => None,
    }
}

proof fn lemma_step_gap(d: int, x: int, step: int)
    by (nonlinear_arith)
    requires
        step > 0,
        d % step == 0,
        d < x < d + step,
    ensures
        x % step != 0,
{
}

proof fn lemma_step_zero(step: int)
    by (nonlinear_arith)
    requires
        step > 0,
    ensures
        0int % step == 0,
{
}

proof fn lemma_step_next(d: int, step: int)
    by (nonlinear_arith)
    requires
        step > 0,
        d % step == 0,
    ensures
        (d + step) % step == 0,
{
}

/// Adds `lo, lo + step, ...` up to `hi` to `allowed`.
fn insert_stepped(allowed: &mut HashSet<u32>, lo: u32, hi: u32, step: u32)
    requires
        step > 0,
    ensures
        final(allowed)@ == old(allowed)@.union(stepped(lo, hi, step)),
{
    let ghost start = old(allowed)@;
    let mut v: u64 = lo as u64;
    proof {
        lemma_step_zero(step as int);
    }
    assert(start =~= start.union(
        Set::new(|x: u32| lo <= x <= hi && x < v && on_step(lo, step, x)),
    ));
    while v <= hi as u64
        invariant
            step > 0,
            lo <= v,
            v <= (hi as int) + (step as int) || v == lo,
            ((v - lo) as int) % (step as int) == 0,
            allowed@ == start.union(
                Set::new(|x: u32| lo <= x <= hi && x < v && on_step(lo, step, x)),
            ),
        decreases (hi as int) + (step as int) - v,
    {
        let ghost before = allowed@;
        allowed.insert(v as u32);
        let ghost d = (v - lo) as int;
        proof {
            lemma_step_next(d, step as int);
            assert forall|x: u32| v < x < v + step implies !#[trigger] on_step(lo, step, x) by {
                lemma_step_gap(d, (x - lo) as int, step as int);
            }
        }
        v = v + step as u64;
        assert(allowed@ =~= start.union(
            Set::new(|x: u32| lo <= x <= hi && x < v && on_step(lo, step, x)),
        ));
    }
    assert(allowed@ =~= start.union(stepped(lo, hi, step)));
}

/// Adds `lo, lo + step, ...` up to `hi` to `allowed`, with 7 read as 0
/// (Sunday).
fn insert_stepped_sunday(allowed: &mut HashSet<u32>, lo: u32, hi: u32, step: u32)
    requires
        step > 0,
    ensures
        final(allowed)@ == old(allowed)@.union(sunday_as_zero(stepped(lo, hi, step))),
{
    let ghost start = old(allowed)@;
    let mut v: u64 = lo as u64;
    proof {
        lemma_step_zero(step as int);
    }
    assert(start =~= start.union(
        sunday_as_zero(Set::new(|x: u32| lo <= x <= hi && x < v && on_step(lo, step, x))),
    ));
    while v <= hi as u64
        invariant
            step > 0,
            lo <= v,
            v <= (hi as int) + (step as int) || v == lo,
            ((v - lo) as int) % (step as int) == 0,
            allowed@ == start.union(
                sunday_as_zero(Set::new(|x: u32| lo <= x <= hi && x < v && on_step(lo, step, x))),
            ),
        decreases (hi as int) + (step as int) - v,
    {
        let ghost before = Set::new(|x: u32| lo <= x <= hi && x < v && on_step(lo, step, x));
        let w: u32 = if v == 7 {
            0
        } else {
            v as u32
        };
        allowed.insert(w);
        let ghost d = (v - lo) as int;
        proof {
            lemma_step_next(d, step as int);
            assert forall|x: u32| v < x < v + step implies !#[trigger] on_step(lo, step, x) by {
                lemma_step_gap(d, (x - lo) as int, step as int);
            }
        }
        let ghost vv = v as u32;
        v = v + step as u64;
        let ghost after = Set::new(|x: u32| lo <= x <= hi && x < v && on_step(lo, step, x));
        assert(after =~= before.insert(vv));
        assert(!before.contains(vv));
        proof {
            if vv == 7 {
                assert(sunday_as_zero(after) =~= sunday_as_zero(before).insert(0));
            } else {
                assert(sunday_as_zero(after) =~= sunday_as_zero(before).insert(vv));
            }
        }
        assert(allowed@ =~= start.union(sunday_as_zero(after)));
    }
    assert(Set::new(|x: u32| lo <= x <= hi && x < v && on_step(lo, step, x)) =~= stepped(
        lo,
        hi,
        step,
    ));
}

/// One value of a field; see [`parse_num_spec`].
pub fn parse_num(
    token: &Vec<char>,
    min: u32,
    max: u32,
    names: Option<NameMap>,
    is_dow: bool,
) -> (r: Result<u32, InvalidField>)
    ensures
        r == (match parse_num_spec(token@, min, max, names, is_dow) {
            Some(n) => Ok(n),
            None => Err(InvalidField),
        }),
{
    let t = trim_chars(token);
    if let Some(m) = names {
        let up = to_ascii_upper(&t);
        if let Some(n) = m.get(&up) {
            return Ok(n);
        }
    }
    match parse_u32(&t) {
        None => Err(InvalidField),
        Some(n0) => {
            let n = if is_dow && n0 == 7 {
                0
            } else {
                n0
            };
            if n < min || n > max {
                Err(InvalidField)
            } else {
                Ok(n)
            }
        },
    }
}

/// The step of a stepped token; see [`parse_step_spec`].
pub fn parse_u(lhs: &Vec<char>, step: &Vec<char>) -> (r: Result<usize, InvalidField>)
    ensures
        r == (match parse_step_spec(lhs@, step@) {
            Some(st) => Ok(st as usize),
            None => Err(InvalidField),
        }),
{
    let dash = find_char(lhs, '-');
    proof {
        lemma_char_pos(lhs@, '-');
    }
    let is_star = lhs.len() == 1 && lhs[0] == '*';
    assert(is_star == (lhs@ == seq!['*'])) by {
        if lhs@ == seq!['*'] {
            assert(lhs@[0] == '*');
        }
        if is_star {
            assert(lhs@ =~= seq!['*']);
        }
    }
    if lhs.len() > 0 && !is_star && dash == lhs.len() {
        return Err(InvalidField);
    }
    match parse_u32(step) {
        Some(st) => if st > 0 {
            Ok(st as usize)
        } else {
            Err(InvalidField)
        },
        None => Err(InvalidField),
    }
}

/// Adds the values of `a-b` (stepped by `step`) to `allowed`; false when
/// there is no `-` or an end is invalid.
fn add_range(
    lhs: &Vec<char>,
    min: u32,
    max: u32,
    names: Option<NameMap>,
    is_dow: bool,
    step: u32,
    allowed: &mut HashSet<u32>,
) -> (ok: bool)
    requires
        step > 0,
    ensures
        ok == range_spec(lhs@, min, max, names, is_dow, step) is Some,
        ok ==> final(allowed)@ == old(allowed)@.union(
            range_spec(lhs@, min, max, names, is_dow, step)->0,
        ),
{
    let dash = find_char(lhs, '-');
    proof {
        lemma_char_pos(lhs@, '-');
    }
    if dash == lhs.len() {
        return false;
    }
    let a_s = slice_chars(lhs, 0, dash);
    let b_s = slice_chars(lhs, dash + 1, lhs.len());
    assert(a_s@ =~= lhs@.take(dash as int));
    assert(b_s@ =~= lhs@.skip(dash + 1));
    let sunday = is_dow && min == 0 && max == 6;
    let end_max = if sunday {
        7
    } else {
        max
    };
    let a = match parse_num(&a_s, min, end_max, names, false) {
        Ok(a) => a,
        Err(_) => return false,
    };
    let b = match parse_num(&b_s, min, end_max, names, false) {
        Ok(b) => b,
        Err(_) => return false,
    };
    let (lo, hi) = if a <= b {
        (a, b)
    } else {
        (b, a)
    };
    if sunday {
        insert_stepped_sunday(allowed, lo, hi, step);
    } else {
        insert_stepped(allowed, lo, hi, step);
    }
    true
}

/// Adds the values of one trimmed part of a field to `allowed`; false
/// when the part is invalid.
fn add_part(
    part: &Vec<char>,
    min: u32,
    max: u32,
    names: Option<NameMap>,
    is_dow: bool,
    allowed: &mut HashSet<u32>,
) -> (ok: bool)
    ensures
        ok == part_spec(part@, min, max, names, is_dow) is Some,
        ok ==> final(allowed)@ == old(allowed)@.union(
            part_spec(part@, min, max, names, is_dow)->0,
        ),
{
    if part.len() == 0 {
        assert(allowed@ =~= allowed@.union(Set::empty()));
        return true;
    }
    if let Some(m) = names {
        let up = to_ascii_upper(part);
        if let Some(n0) = m.get(&up) {
            let n = if is_dow && n0 == 7 {
                0
            } else {
                n0
            };
            if n < min || n > max {
                return false;
            }
            allowed.insert(n);
            assert(allowed@ =~= old(allowed)@.union(set![n]));
            return true;
        }
    }
    let seven = is_dow && part.len() == 1 && part[0] == '7';
    assert(seven == (is_dow && part@ == seq!['7'])) by {
        if part@ == seq!['7'] {
            assert(part@[0] == '7');
        }
        if is_dow && part.len() == 1 && part[0] == '7' {
            assert(part@ =~= seq!['7']);
        }
    }
    let p: Vec<char> = if seven {
        let z = vec!['0'];
        assert(z@ =~= seq!['0']);
        z
    } else {
        slice_chars(part, 0, part.len())
    };
    assert(p@ =~= (if is_dow && part@ == seq!['7'] {
        seq!['0']
    } else {
        part@
    }));
    let slash = find_char(&p, '/');
    if slash < p.len() {
        let lhs = slice_chars(&p, 0, slash);
        let step_s = slice_chars(&p, slash + 1, p.len());
        assert(lhs@ =~= p@.take(slash as int));
        assert(step_s@ =~= p@.skip(slash + 1));
        let step = match parse_u(&lhs, &step_s) {
            Ok(st) => st,
            Err(_) => return false,
        };
        let is_star = lhs.len() == 1 && lhs[0] == '*';
        assert(is_star == (lhs@ == seq!['*'])) by {
            if lhs@ == seq!['*'] {
                assert(lhs@[0] == '*');
            }
            if is_star {
                assert(lhs@ =~= seq!['*']);
            }
        }
        if is_star {
            insert_stepped(allowed, min, max, step as u32);
            return true;
        }
        return add_range(&lhs, min, max, names, is_dow, step as u32, allowed);
    }
    let dash = find_char(&p, '-');
    proof {
        lemma_char_pos(p@, '-');
    }
    if dash < p.len() {
        let ok = add_range(&p, min, max, names, is_dow, 1, allowed);
        return ok;
    }
    match parse_num(&p, min, max, names, is_dow) {
        Ok(n) => {
            allowed.insert(n);
            assert(allowed@ =~= old(allowed)@.union(set![n]));
            true
        },
        Err(_) => false,
    }
}

/// `x` is the least element of `s`.
pub open spec fn is_least(s: Set<u32>, x: u32) -> bool {
    s.contains(x) && forall|y: u32| s.contains(y) ==> x <= y
}

/// The least element of `s` (meaningful when there is one).
pub open spec fn least_of(s: Set<u32>) -> u32 {
    choose|x: u32| is_least(s, x)
}

pub proof fn lemma_least_of(s: Set<u32>, x: u32)
    requires
        is_least(s, x),
    ensures
        least_of(s) == x,
{
    let y = least_of(s);
    assert(is_least(s, y));
}

/// The least value at least `v` of a field with values `s` and range
/// `min..=max` (no values: any value in range).
pub open spec fn next_ge_spec(s: Set<u32>, min: u32, max: u32, v: u32) -> Option<u32> {
    if s.is_empty() {
        if v < min {
            Some(min)
        } else if v > max {
            None
        } else {
            Some(v)
        }
    } else if exists|y: u32| s.contains(y) && y >= v {
        Some(least_of(at_least(s, v as int)))
    } else {
        None
    }
}

/// The least value greater than `v` of a field with values `s` and
/// largest value `max`.
pub open spec fn next_gt_spec(s: Set<u32>, max: u32, v: u32) -> Option<u32> {
    if s.is_empty() {
        if v < max {
            Some((v + 1) as u32)
        } else {
            None
        }
    } else if exists|y: u32| s.contains(y) && y > v {
        Some(least_of(at_least(s, v + 1)))
    } else {
        None
    }
}

/// The first value of a field with values `s` and smallest value `min`.
pub open spec fn first_spec(s: Set<u32>, min: u32) -> u32 {
    if s.is_empty() {
        min
    } else {
        least_of(s)
    }
}

/// The elements of `s` that are at least `v`.
pub open spec fn at_least(s: Set<u32>, v: int) -> Set<u32> {
    s.filter(|x: u32| x >= v)
}

/// The least element of `s` that is at least `v`, if any.
fn least_at_least(s: &HashSet<u32>, v: u32) -> (r: Option<u32>)
    ensures
        match r {
            Some(x) => is_least(at_least(s@, v as int), x),
            None => forall|y: u32| s@.contains(y) ==> y < v,
        },
{
    let mut cand: Option<u32> = None;
    let ghost keys = vstd::std_specs::hash::spec_hash_keys_iter(s).remaining().unref();
    let ghost mut seen: int = 0;
    proof {
        assert(keys.to_set() == s@);
    }
    for x in it: s.iter()
        invariant
            seen == it.index(),
            keys == it.seq().unref(),
            keys.to_set() == s@,
            match cand {
                Some(c) => c >= v && keys.take(seen).contains(c) && forall|j: int|
                    0 <= j < seen && keys[j] >= v ==> c <= #[trigger] keys[j],
                None => forall|j: int| 0 <= j < seen ==> #[trigger] keys[j] < v,
            },
    {
        let ghost i = it.index();
        assert(keys[i] == *x);
        if *x >= v {
            cand = Some(match cand {
                Some(c) => if c <= *x {
                    c
                } else {
                    *x
                },
                None => *x,
            });
        }
        proof {
            match cand {
                Some(c) => {
                    if c == *x {
                        assert(keys.take(i + 1)[i] == c);
                    } else {
                        let k = choose|k: int| 0 <= k < i && keys.take(i)[k] == c;
                        assert(keys.take(i + 1)[k] == c);
                    }
                },
                None => {},
            }
            seen = i + 1;
        }
    }
    proof {
        assert(seen == keys.len());
        assert(keys.take(keys.len() as int) =~= keys);
        match cand {
            Some(c) => {
                assert(s@.contains(c));
                assert forall|y: u32| at_least(s@, v as int).contains(y) implies c <= y by {
                    assert(keys.contains(y));
                }
            },
            None => {
                assert forall|y: u32| s@.contains(y) implies y < v by {
                    assert(keys.contains(y));
                }
            },
        }
    }
    cand
}

/// One field of a cron expression: the values it allows (none stands for
/// "any") and the range of the field.
pub struct Field {
    pub allowed: HashSet<u32>,
    pub min: u32,
    pub max: u32,
}

impl Field {
    /// Parses a field token; see [`field_spec`].
    pub fn parse(
        token: &str,
        min: u32,
        max: u32,
        names: Option<NameMap>,
        is_dow: bool,
    ) -> (r: Result<Field, InvalidField>)
        ensures
            match field_spec(token@, min, max, names, is_dow) {
                Some(s) => r matches Ok(f) && f.allowed@ == s && f.min == min && f.max == max,
                None => r == Err::<Field, InvalidField>(InvalidField),
            },
            names_fit(names, min, max) ==> (r matches Ok(f) ==> within(f.allowed@, min, max)),
    {
        proof {
            if names_fit(names, min, max) {
                lemma_field_range(token@, min, max, names, is_dow);
            }
        }
        let t = chars_of(token);
        Self::parse_chars(&t, min, max, names, is_dow)
    }

    /// Parses a field token given as characters.
    pub fn parse_chars(
        t: &Vec<char>,
        min: u32,
        max: u32,
        names: Option<NameMap>,
        is_dow: bool,
    ) -> (r: Result<Field, InvalidField>)
        ensures
            match field_spec(t@, min, max, names, is_dow) {
                Some(s) => r matches Ok(f) && f.allowed@ == s && f.min == min && f.max == max,
                None => r == Err::<Field, InvalidField>(InvalidField),
            },
    {
        let tr = trim_chars(t);
        let star = tr.len() == 1 && tr[0] == '*';
        assert(star == (trim(t@) == seq!['*'])) by {
            if trim(t@) == seq!['*'] {
                assert(tr@[0] == '*');
            }
            if star {
                assert(tr@ =~= seq!['*']);
            }
        }
        if star {
            return Ok(Field { allowed: HashSet::new(), min, max });
        }
        let mut allowed: HashSet<u32> = HashSet::new();
        let mut rest: Vec<char> = slice_chars(t, 0, t.len());
        assert(rest@ =~= t@);
        assert(allowed@ =~= Set::<u32>::empty());
        assert(list_spec(t@, min, max, names, is_dow) == union_with(
            allowed@,
            list_spec(rest@, min, max, names, is_dow),
        )) by {
            match list_spec(t@, min, max, names, is_dow) {
                Some(b) => {
                    assert(Set::<u32>::empty().union(b) =~= b);
                },
                None => {},
            }
        }
        loop
            invariant
                list_spec(t@, min, max, names, is_dow) == union_with(
                    allowed@,
                    list_spec(rest@, min, max, names, is_dow),
                ),
                trim(t@) != seq!['*'],
            decreases rest.len(),
        {
            let p = find_char(&rest, ',');
            proof {
                lemma_char_pos(rest@, ',');
            }
            let piece = slice_chars(&rest, 0, p);
            let part = trim_chars(&piece);
            assert(piece@ =~= rest@.take(p as int));
            let ghost acc = allowed@;
            let ok = add_part(&part, min, max, names, is_dow, &mut allowed);
            if !ok {
                return Err(InvalidField);
            }
            let ghost a = part_spec(part@, min, max, names, is_dow)->0;
            if p < rest.len() {
                let next = slice_chars(&rest, p + 1, rest.len());
                assert(next@ =~= rest@.skip((p + 1) as int));
                proof {
                    match list_spec(next@, min, max, names, is_dow) {
                        Some(b) => {
                            assert(acc.union(a.union(b)) =~= acc.union(a).union(b));
                        },
                        None => {},
                    }
                }
                rest = next;
            } else {
                return Ok(Field { allowed, min, max });
            }
        }
    }

    /// Whether the field allows `v`.
    #[inline]
    pub fn matches(&self, v: u32) -> (b: bool)
        ensures
            b == allows(self.allowed@, v),
    {
        if self.allowed.is_empty() {
            return true;
        }
        self.allowed.contains(&v)
    }

    /// The first value of the field.
    #[inline]
    pub fn first(&self) -> (r: Option<u32>)
        ensures
            self.allowed@.is_empty() ==> r == Some(self.min),
            !self.allowed@.is_empty() ==> (r matches Some(x) && is_least(self.allowed@, x)),
            r == Some(first_spec(self.allowed@, self.min)),
            r matches Some(n) && allows(self.allowed@, n) && forall|x: u32|
                self.min <= x < n ==> !allows(self.allowed@, x),
    {
        if self.allowed.is_empty() {
            return Some(self.min);
        }
        let r = least_at_least(&self.allowed, 0);
        assert(at_least(self.allowed@, 0) =~= self.allowed@);
        proof {
            if r is None {
                let y = choose|y: u32| self.allowed@.contains(y);
                assert(self.allowed@.contains(y));
            } else {
                lemma_least_of(self.allowed@, r->0);
            }
        }
        r
    }

    /// The least value of the field that is at least `v`.
    #[inline]
    pub fn next_ge(&self, v: u32) -> (r: Option<u32>)
        ensures
            self.allowed@.is_empty() ==> r == (if v < self.min {
                Some(self.min)
            } else if v > self.max {
                None
            } else {
                Some(v)
            }),
            !self.allowed@.is_empty() ==> match r {
                Some(x) => is_least(at_least(self.allowed@, v as int), x),
                None => forall|y: u32| self.allowed@.contains(y) ==> y < v,
            },
            r == next_ge_spec(self.allowed@, self.min, self.max, v),
            !allows(self.allowed@, v) ==> match r {
                Some(n) => v < n && allows(self.allowed@, n) && forall|x: u32|
                    v <= x < n ==> !allows(self.allowed@, x),
                None => forall|x: u32| v <= x ==> !allows(self.allowed@, x),
            },
    {
        if self.allowed.is_empty() {
            if v < self.min {
                return Some(self.min);
            }
            if v > self.max {
                return None;
            }
            return Some(v);
        }
        let r = least_at_least(&self.allowed, v);
        proof {
            match r {
                Some(x) => {
                    lemma_least_of(at_least(self.allowed@, v as int), x);
                    assert(self.allowed@.contains(x) && x >= v);
                    assert forall|y: u32| v <= y < x implies !allows(self.allowed@, y) by {
                        if self.allowed@.contains(y) {
                            assert(at_least(self.allowed@, v as int).contains(y));
                        }
                    }
                },
                None => {},
            }
        }
        r
    }

    /// The least value of the field that is greater than `v`.
    #[inline]
    pub fn next_gt(&self, v: u32) -> (r: Option<u32>)
        ensures
            self.allowed@.is_empty() ==> r == (if v < self.max {
                Some((v + 1) as u32)
            } else {
                None
            }),
            !self.allowed@.is_empty() ==> match r {
                Some(x) => is_least(at_least(self.allowed@, v + 1), x),
                None => forall|y: u32| self.allowed@.contains(y) ==> y <= v,
            },
            r == next_gt_spec(self.allowed@, self.max, v),
            match r {
                Some(n) => v < n && allows(self.allowed@, n) && forall|x: u32|
                    v < x < n ==> !allows(self.allowed@, x),
                None => forall|x: u32| v < x <= self.max ==> !allows(self.allowed@, x),
            },
    {
        if self.allowed.is_empty() {
            if v < self.max {
                return Some(v + 1);
            }
            return None;
        }
        if v == u32::MAX {
            return None;
        }
        let r = least_at_least(&self.allowed, v + 1);
        proof {
            match r {
                Some(x) => {
                    lemma_least_of(at_least(self.allowed@, v + 1), x);
                    assert(self.allowed@.contains(x) && x > v);
                    assert forall|y: u32| v < y < x implies !allows(self.allowed@, y) by {
                        if self.allowed@.contains(y) {
                            assert(at_least(self.allowed@, v + 1).contains(y));
                        }
                    }
                },
                None => {},
            }
        }
        r
    }
}

/// Whether a field with these values allows `v` (no values means any).
pub open spec fn allows(s: Set<u32>, v: u32) -> bool {
    s.is_empty() || s.contains(v)
}

/// The day-of-month or day-of-week field, which also records whether it
/// allows any day.
pub struct FieldDomDow {
    pub allowed: HashSet<u32>,
    pub min: u32,
    pub max: u32,
    pub any: bool,
}

impl FieldDomDow {
    /// Parses a day-of-month token: `1..=31`, no names.
    pub fn parse_dom(token: &Vec<char>) -> (r: Result<FieldDomDow, InvalidField>)
        ensures
            match field_spec(token@, 1, 31, None, false) {
                Some(s) => r matches Ok(f) && f.allowed@ == s && f.min == 1 && f.max == 31
                    && f.any == s.is_empty(),
                None => r == Err::<FieldDomDow, InvalidField>(InvalidField),
            },
    {
        let base = Field::parse_chars(token, 1, 31, None, false)?;
        Ok(FieldDomDow { any: base.allowed.is_empty(), allowed: base.allowed, min: 1, max: 31 })
    }

    /// Parses a day-of-week token: `0..=6` with 7 also Sunday, and the
    /// weekday names.
    pub fn parse_dow(token: &Vec<char>) -> (r: Result<FieldDomDow, InvalidField>)
        ensures
            match field_spec(token@, 0, 6, Some(NameMap::Weekdays), true) {
                Some(s) => r matches Ok(f) && f.allowed@ == s && f.min == 0 && f.max == 6
                    && f.any == s.is_empty(),
                None => r == Err::<FieldDomDow, InvalidField>(InvalidField),
            },
    {
        let base = Field::parse_chars(token, 0, 6, Some(weekday_name_map()), true)?;
        Ok(FieldDomDow { any: base.allowed.is_empty(), allowed: base.allowed, min: 0, max: 6 })
    }

    /// Whether the day of the month `day` is allowed.
    #[inline]
    pub fn matches_dom(&self, day: u32) -> (b: bool)
        ensures
            b == (self.any || self.allowed@.contains(day)),
    {
        if self.any {
            return true;
        }
        self.allowed.contains(&day)
    }

    /// Whether the weekday `dow0sun` (0 is Sunday) is allowed.
    #[inline]
    pub fn matches_dow(&self, dow0sun: u32) -> (b: bool)
        ensures
            b == (self.any || self.allowed@.contains(dow0sun)),
    {
        if self.any {
            return true;
        }
        self.allowed.contains(&dow0sun)
    }
}

/// The values that each field of a parsed expression allows; an empty set
/// stands for "any".
pub ghost struct CronSpecView {
    pub sec: Set<u32>,
    pub min: Set<u32>,
    pub hour: Set<u32>,
    pub dom: Set<u32>,
    pub mon: Set<u32>,
    pub dow: Set<u32>,
}

/// The meaning of a six-field expression, or `None` when it does not
/// parse.
pub open spec fn cron_parse_spec(s: Seq<char>) -> Option<CronSpecView> {
    let w = words(s);
    if w.len() != 6 {
        None
    } else {
        match (
            field_spec(w[0], 0, 59, None, false),
            field_spec(w[1], 0, 59, None, false),
            field_spec(w[2], 0, 23, None, false),
            field_spec(w[3], 1, 31, None, false),
            field_spec(w[4], 1, 12, Some(NameMap::Months), false),
            field_spec(w[5], 0, 6, Some(NameMap::Weekdays), true),
        ) {
            (Some(sec), Some(min), Some(hour), Some(dom), Some(mon), Some(dow)) => Some(
                CronSpecView { sec, min, hour, dom, mon, dow },
            ),
            _ => None,
        }
    }
}

/// Day-of-month and day-of-week combine by "or" when both are restricted;
/// a field that allows any day defers to the other.
pub open spec fn day_matches(c: CronSpecView, day: u32, dow: u32) -> bool {
    let dom_any = c.dom.is_empty();
    let dow_any = c.dow.is_empty();
    let dom_match = dom_any || c.dom.contains(day);
    let dow_match = dow_any || c.dow.contains(dow);
    if dom_any && dow_any {
        true
    } else if dow_any {
        dom_match
    } else if dom_any {
        dow_match
    } else {
        dom_match || dow_match
    }
}

/// A parsed six-field cron expression.
pub struct CronSpec {
    pub sec: Field,
    pub min: Field,
    pub hour: Field,
    pub dom: FieldDomDow,
    pub mon: Field,
    pub dow: FieldDomDow,
}

impl CronSpec {
    pub open spec fn view(&self) -> CronSpecView {
        CronSpecView {
            sec: self.sec.allowed@,
            min: self.min.allowed@,
            hour: self.hour.allowed@,
            dom: self.dom.allowed@,
            mon: self.mon.allowed@,
            dow: self.dow.allowed@,
        }
    }

    /// The ranges of the fields, and the "any" flags of the day fields.
    pub open spec fn wf(&self) -> bool {
        &&& self.sec.min == 0 && self.sec.max == 59
        &&& self.min.min == 0 && self.min.max == 59
        &&& self.hour.min == 0 && self.hour.max == 23
        &&& self.mon.min == 1 && self.mon.max == 12
        &&& self.dom.any == self.dom.allowed@.is_empty()
        &&& self.dow.any == self.dow.allowed@.is_empty()
    }

    /// Parses `sec min hour dom mon dow`.
    pub fn parse(expr6: &str) -> (r: Result<CronSpec, InvalidField>)
        ensures
            match cron_parse_spec(expr6@) {
                Some(v) => r matches Ok(c) && c.view() == v && c.wf(),
                None => r is Err && r == Err::<CronSpec, InvalidField>(InvalidField),
            },
    {
        let chars = chars_of(expr6);
        let parts = split_words(&chars);
        if parts.len() != 6 {
            return Err(InvalidField);
        }
        let sec = Field::parse_chars(&parts[0], 0, 59, None, false)?;
        let min = Field::parse_chars(&parts[1], 0, 59, None, false)?;
        let hour = Field::parse_chars(&parts[2], 0, 23, None, false)?;
        let dom = FieldDomDow::parse_dom(&parts[3])?;
        let mon = Field::parse_chars(&parts[4], 1, 12, Some(month_name_map()), false)?;
        let dow = FieldDomDow::parse_dow(&parts[5])?;
        Ok(CronSpec { sec, min, hour, dom, mon, dow })
    }

    /// Whether the day with day of month `day` and weekday `dow0sun`
    /// (0 is Sunday) is allowed.
    pub fn matches_day(&self, day: u32, dow0sun: u32) -> (b: bool)
        requires
            self.wf(),
        ensures
            b == day_matches(self.view(), day, dow0sun),
    {
        let dom_any = self.dom.any;
        let dow_any = self.dow.any;
        let dom_match = self.dom.matches_dom(day);
        let dow_match = self.dow.matches_dow(dow0sun);
        match (dom_any, dow_any) {
            (true, true) => true,
            (false, true) => dom_match,
            (true, false) => dow_match,
            (false, false) => dom_match || dow_match,
        }
    }
}

/// A five-field expression gets `0` seconds in front; the result is trimmed.
pub open spec fn normalize_spec(s: Seq<char>) -> Seq<char> {
    if words(s).len() == 5 {
        seq!['0', ' '] + trim(s)
    } else {
        trim(s)
    }
}

/// Turns a five-field expression into a six-field one.
pub fn normalize_to_six(expr: &str) -> (r: String)
    ensures
        r@ == normalize_spec(expr@),
{
    let chars = chars_of(expr);
    let parts = split_words(&chars);
    let trimmed = trim_chars(&chars);
    if parts.len() == 5 {
        let mut out: Vec<char> = vec!['0', ' '];
        let mut i: usize = 0;
        while i < trimmed.len()
            invariant
                i <= trimmed.len(),
                out@ == seq!['0', ' '] + trimmed@.take(i as int),
            decreases trimmed.len() - i,
        {
            out.push(trimmed[i]);
            i = i + 1;
            assert(out@ =~= seq!['0', ' '] + trimmed@.take(i as int));
        }
        assert(trimmed@.take(trimmed.len() as int) =~= trimmed@);
        string_from_chars(&out)
    } else {
        string_from_chars(&trimmed)
    }
}


/// Whether a wall-clock reading is one at which the expression fires.
pub open spec fn fields_match(c: CronSpecView, f: LocalFields) -> bool {
    &&& allows(c.mon, f.month)
    &&& day_matches(c, f.day, f.weekday)
    &&& allows(c.hour, f.hour)
    &&& allows(c.min, f.minute)
    &&& allows(c.sec, f.second)
}

/// How far past its start the search for a next run goes: five years of
/// 366 days.
pub const SEARCH_SPAN_SECS: i64 = 158_112_000;

/// The instant at which the zone `tz` reads `y-m-d h:min:s`; an error when
/// there is no such instant or more than one.
pub fn set_ymd_hms(tz: &str, y: i32, m: u32, d: u32, h: u32, min: u32, s: u32) -> (r: Result<
    UtcTime,
    CronError,
>)
    ensures
        match r {
            Ok(t) => {
                &&& crate::cron::clock::zone_instant(tz@, y, m, d, h, min, s) == Some(t.secs)
                &&& t.nanos == 0
                &&& t.wf()
                &&& zone_fields(tz@, t.secs as int).year == y
                &&& zone_fields(tz@, t.secs as int).month == m
                &&& zone_fields(tz@, t.secs as int).day == d
                &&& zone_fields(tz@, t.secs as int).hour == h
                &&& zone_fields(tz@, t.secs as int).minute == min
                &&& zone_fields(tz@, t.secs as int).second == s
                &&& zone_fields(tz@, t.secs as int).weekday == crate::cron::clock::weekday_of(
                    y as int,
                    m as int,
                    d as int,
                )
            },
            Err(e) => e == (CronError::InvalidLocalTime {
                year: y,
                month: m,
                day: d,
                hour: h,
                minute: min,
                second: s,
            }) && crate::cron::clock::zone_instant(
                tz@,
                y,
                m,
                d,
                h,
                min,
                s,
            ) is None,
        },        tz@ == utc_zone() ==> (r matches Ok(t) ==> t.secs == civil_secs(
            y as int,
            m as int,
            d as int,
            h as int,
            min as int,
            s as int,
        ) && valid_date(y as int, m as int, d as int) && h < 24 && min < 60 && s < 60),
        tz@ == utc_zone() ==> (r is Ok <==> crate::cron::clock::utc_instant(y, m, d, h, min, s) is Some),
{
    match local_instant(tz, y, m, d, h, min, s) {
        Some(secs) => Ok(UtcTime { secs, nanos: 0 }),
        None => Err(
            CronError::InvalidLocalTime { year: y, month: m, day: d, hour: h, minute: min, second: s },
        ),
    }
}

/// The instant on the same local date as `dt` at `h:m:s`.
pub fn set_hms(tz: &str, dt: UtcTime, h: u32, m: u32, s: u32) -> (r: Result<UtcTime, CronError>)
    requires
        dt.wf(),
    ensures
        ({
            let f = zone_fields(tz@, dt.secs as int);
            match r {
                Ok(t) => {
                    &&& crate::cron::clock::zone_instant(tz@, f.year, f.month, f.day, h, m, s)
                        == Some(t.secs)
                    &&& t.nanos == 0
                    &&& t.wf()
                    &&& zone_fields(tz@, t.secs as int).year == f.year
                    &&& zone_fields(tz@, t.secs as int).month == f.month
                    &&& zone_fields(tz@, t.secs as int).day == f.day
                    &&& zone_fields(tz@, t.secs as int).hour == h
                    &&& zone_fields(tz@, t.secs as int).minute == m
                    &&& zone_fields(tz@, t.secs as int).second == s
                    &&& zone_fields(tz@, t.secs as int).weekday == f.weekday
                },
                Err(e) => e == (CronError::InvalidLocalTime {
                    year: f.year,
                    month: f.month,
                    day: f.day,
                    hour: h,
                    minute: m,
                    second: s,
                }) && crate::cron::clock::zone_instant(tz@, f.year, f.month, f.day, h, m, s) is None,
            }
        }),        tz@ == utc_zone() ==> utc_reading(dt.secs as int, zone_fields(tz@, dt.secs as int)),
        tz@ == utc_zone() ==> (r matches Ok(t) ==> ({
            let f = zone_fields(tz@, dt.secs as int);
            t.secs == civil_secs(f.year as int, f.month as int, f.day as int, h as int, m as int, s as int)
                && h < 24 && m < 60 && s < 60
        })),
        tz@ == utc_zone() ==> ({
            let f = zone_fields(tz@, dt.secs as int);
            r is Ok <==> crate::cron::clock::utc_instant(f.year, f.month, f.day, h, m, s) is Some
        }),
{
    let f = local_fields(tz, dt.secs);
    let r = set_ymd_hms(tz, f.year, f.month, f.day, h, m, s);
    r
}

/// The instant at which the zone `tz` reads `h:mi:s` on the date after
/// `f`'s; an error past the last year or when the zone has no single such
/// instant.
fn set_next_day(tz: &str, f: LocalFields, h: u32, mi: u32, s: u32) -> (r: Result<UtcTime, CronError>)
    ensures
        r == (match following_day(f.year, f.month, f.day) {
            Some((y, m, d)) => set_spec(tz@, y, m, d, h, mi, s),
            None => Err(CronError::OutOfRange),
        }),
        r matches Ok(t) ==> t.wf() && t.nanos == 0,
        r matches Ok(t) ==> (following_day(f.year, f.month, f.day) matches Some((y, m, d))
            && same_reading(reading_at(y, m, d, h, mi, s), zone_fields(tz@, t.secs as int))),
        tz@ == utc_zone() ==> (following_day(f.year, f.month, f.day) matches Some((y, m, d)) ==> (r is Ok
            <==> crate::cron::clock::utc_instant(y, m, d, h, mi, s) is Some)),
        tz@ == utc_zone() ==> (r matches Ok(t) ==> (following_day(f.year, f.month, f.day) matches Some(
            (y, m, d),
        ) && t.secs == civil_secs(y as int, m as int, d as int, h as int, mi as int, s as int)
            && h < 24 && mi < 60 && s < 60)),
{
    match next_date(f.year, f.month, f.day) {
        Some((y, m, d)) => set_ymd_hms(tz, y, m, d, h, mi, s),
        None => Err(CronError::OutOfRange),
    }
}

/// The instant at which the zone `tz` reads `y-m-d h:mi:s`, as
/// [`set_ymd_hms`] finds it.
pub open spec fn set_spec(tz: Seq<char>, y: i32, m: u32, d: u32, h: u32, mi: u32, s: u32) -> Result<
    UtcTime,
    CronError,
> {
    match zone_instant(tz, y, m, d, h, mi, s) {
        Some(t) => Ok(UtcTime { secs: t, nanos: 0 }),
        None => Err(
            CronError::InvalidLocalTime { year: y, month: m, day: d, hour: h, minute: mi, second: s },
        ),
    }
}

/// The instant on the local date of `dt` at `h:mi:s`, as [`set_hms`] finds it.
pub open spec fn set_hms_spec(tz: Seq<char>, dt: UtcTime, h: u32, mi: u32, s: u32) -> Result<
    UtcTime,
    CronError,
> {
    let f = zone_fields(tz, dt.secs as int);
    set_spec(tz, f.year, f.month, f.day, h, mi, s)
}

/// Midnight of the date after `f`'s (in UTC, where the date after a valid
/// date has the next day number).
pub open spec fn next_day_reading(f: LocalFields) -> LocalFields {
    match following_day(f.year, f.month, f.day) {
        Some((y, m, d)) => LocalFields { year: y, month: m, day: d, hour: 0, minute: 0, second: 0, weekday: 0 },
        None => f,
    }
}

/// The date after `dt`'s local date, at `h:mi:s`.
pub open spec fn next_day_at(tz: Seq<char>, dt: UtcTime, h: u32, mi: u32, s: u32) -> Result<
    UtcTime,
    CronError,
> {
    let f = zone_fields(tz, dt.secs as int);
    match following_day(f.year, f.month, f.day) {
        Some((y, m, d)) => set_spec(tz, y, m, d, h, mi, s),
        None => Err(CronError::OutOfRange),
    }
}

/// The search's month step.
pub open spec fn align_month_spec(c: CronSpecView, tz: Seq<char>, dt: UtcTime) -> Result<
    UtcTime,
    CronError,
> {
    let f = zone_fields(tz, dt.secs as int);
    if allows(c.mon, f.month) {
        Ok(dt)
    } else {
        match next_ge_spec(c.mon, 1, 12, f.month) {
            Some(nm) => if nm != f.month {
                set_spec(tz, f.year, nm, 1, 0, 0, 0)
            } else {
                Ok(dt)
            },
            None => if f.year == i32::MAX {
                Err(CronError::OutOfRange)
            } else {
                set_spec(tz, (f.year + 1) as i32, first_spec(c.mon, 1), 1, 0, 0, 0)
            },
        }
    }
}

/// `Stay` on `r`, or its error.
pub open spec fn stay(r: Result<UtcTime, CronError>) -> Result<Flow, CronError> {
    match r {
        Ok(t) => Ok(Flow::Stay(t)),
        Err(e) => Err(e),
    }
}

/// `Restart` from `r`, or its error.
pub open spec fn restart(r: Result<UtcTime, CronError>) -> Result<Flow, CronError> {
    match r {
        Ok(t) => Ok(Flow::Restart(t)),
        Err(e) => Err(e),
    }
}

/// The search's hour step.
pub open spec fn align_hour_spec(c: CronSpecView, tz: Seq<char>, dt: UtcTime) -> Result<
    Flow,
    CronError,
> {
    let f = zone_fields(tz, dt.secs as int);
    if allows(c.hour, f.hour) {
        Ok(Flow::Stay(dt))
    } else {
        match next_ge_spec(c.hour, 0, 23, f.hour) {
            Some(nh) => stay(set_hms_spec(tz, dt, nh, 0, 0)),
            None => restart(next_day_at(tz, dt, first_spec(c.hour, 0), 0, 0)),
        }
    }
}

/// The search's minute step.
pub open spec fn align_minute_spec(c: CronSpecView, tz: Seq<char>, dt: UtcTime) -> Result<
    Flow,
    CronError,
> {
    let f = zone_fields(tz, dt.secs as int);
    if allows(c.min, f.minute) {
        Ok(Flow::Stay(dt))
    } else {
        match next_ge_spec(c.min, 0, 59, f.minute) {
            Some(nm) => stay(set_hms_spec(tz, dt, f.hour, nm, 0)),
            None => match next_gt_spec(c.hour, 23, f.hour) {
                Some(nh) => restart(set_hms_spec(tz, dt, nh, first_spec(c.min, 0), 0)),
                None => restart(next_day_at(tz, dt, first_spec(c.hour, 0), first_spec(c.min, 0), 0)),
            },
        }
    }
}

/// The search's second step.
pub open spec fn align_second_spec(c: CronSpecView, tz: Seq<char>, dt: UtcTime) -> Result<
    Flow,
    CronError,
> {
    let f = zone_fields(tz, dt.secs as int);
    if allows(c.sec, f.second) {
        Ok(Flow::Stay(dt))
    } else {
        match next_ge_spec(c.sec, 0, 59, f.second) {
            Some(ns) => stay(set_hms_spec(tz, dt, f.hour, f.minute, ns)),
            None => match next_gt_spec(c.min, 59, f.minute) {
                Some(nm) => restart(set_hms_spec(tz, dt, f.hour, nm, first_spec(c.sec, 0))),
                None => match next_gt_spec(c.hour, 23, f.hour) {
                    Some(nh) => restart(
                        set_hms_spec(tz, dt, nh, first_spec(c.min, 0), first_spec(c.sec, 0)),
                    ),
                    None => restart(
                        next_day_at(
                            tz,
                            dt,
                            first_spec(c.hour, 0),
                            first_spec(c.min, 0),
                            first_spec(c.sec, 0),
                        ),
                    ),
                },
            },
        }
    }
}

/// Passes a `Stay` on to the next step; a `Restart` or an error ends the
/// round.
pub open spec fn then_step(
    r: Result<Flow, CronError>,
    next: spec_fn(UtcTime) -> Result<Flow, CronError>,
) -> Result<Flow, CronError> {
    match r {
        Ok(Flow::Stay(t)) => next(t),
        other => other,
    }
}

/// One round of the search from `dt`.
pub open spec fn round_spec(c: CronSpecView, tz: Seq<char>, dt: UtcTime) -> Result<Flow, CronError> {
    match align_month_spec(c, tz, dt) {
        Err(e) => Err(e),
        Ok(m) => {
            let f = zone_fields(tz, m.secs as int);
            if !day_matches(c, f.day, f.weekday) {
                restart(next_day_at(tz, m, 0, 0, 0))
            } else {
                then_step(
                    align_hour_spec(c, tz, m),
                    |h: UtcTime|
                        then_step(
                            align_minute_spec(c, tz, h),
                            |mi: UtcTime| align_second_spec(c, tz, mi),
                        ),
                )
            }
        },
    }
}

/// Seconds left to search from `dt` up to `end`.
pub open spec fn left_to_search(dt: UtcTime, end: UtcTime) -> int {
    if dt.secs > end.secs {
        0
    } else {
        end.secs + 1 - dt.secs
    }
}

/// The search from `dt`, until a round finds a run after `from` or `dt`
/// passes `end`. Each round moves `dt` forward: a candidate not after
/// `from`, or a restart that does not move ahead, can only come of a wall
/// clock that went back, and ends the search with an error.
pub open spec fn search_spec(
    c: CronSpecView,
    tz: Seq<char>,
    dt: UtcTime,
    from: UtcTime,
    end: UtcTime,
) -> Result<UtcTime, CronError>
    decreases left_to_search(dt, end),
{
    if dt.after(end) {
        Err(CronError::NotFound)
    } else {
        match round_spec(c, tz, dt) {
            Err(e) => Err(e),
            Ok(Flow::Stay(t)) => if t.after(from) {
                Ok(t)
            } else {
                Err(local_time_error(zone_fields(tz, t.secs as int)))
            },
            Ok(Flow::Restart(t)) => if t.secs > dt.secs {
                search_spec(c, tz, t, from, end)
            } else {
                Err(local_time_error(zone_fields(tz, t.secs as int)))
            },
        }
    }
}

/// What [`CronParser::next_execution`] finds for an expression that
/// parses (`None` for one that does not): its run, or why there is none.
pub open spec fn next_execution_spec(cron_expr: Seq<char>, from: UtcTime, tz: Seq<char>) -> Option<
    Result<UtcTime, CronError>,
> {
    match cron_parse_spec(normalize_spec(cron_expr)) {
        None => None,
        Some(c) => {
            let start = UtcTime { secs: (from.secs + 1) as i64, nanos: from.nanos };
            let end = UtcTime { secs: (from.secs + 1 + SEARCH_SPAN_SECS) as i64, nanos: from.nanos };
            Some(search_spec(c, effective_zone(tz), start, from, end))
        },
    }
}

proof fn lemma_one_char_field(c: char, min: u32, max: u32, names: Option<NameMap>, is_dow: bool)
    requires
        !crate::text::is_ws(c),
        c != ',',
        c != '*',
    ensures
        field_spec(seq![c], min, max, names, is_dow) == part_spec(seq![c], min, max, names, is_dow),
{
    let t = seq![c];
    assert(t.drop_first() =~= Seq::<char>::empty());
    assert(t.drop_last() =~= Seq::<char>::empty());
    assert(crate::text::trim_start(t) == t);
    assert(crate::text::trim_end(t) == t);
    assert(trim(t) == t);
    assert(t != seq!['*']) by {
        assert(t[0] != seq!['*'][0]);
    }
    assert(char_pos(t, ',') == 1) by {
        assert(char_pos(t.drop_first(), ',') == 0);
    }
    assert(t.take(1) =~= t);
}

/// In the day-of-week field, `7` and `0` both stand for Sunday: two
/// expressions that differ only in that field being `7` or `0` have the
/// same runs, from any start and in any zone.
#[verifier::spinoff_prover]
#[verifier::rlimit(40)]
pub proof fn law_sunday_is_0_or_7(e7: Seq<char>, e0: Seq<char>, from: UtcTime, tz: Seq<char>)
    requires
        words(normalize_spec(e7)).len() == 6,
        words(normalize_spec(e0)).len() == 6,
        words(normalize_spec(e7)).take(5) == words(normalize_spec(e0)).take(5),
        words(normalize_spec(e7))[5] == seq!['7'],
        words(normalize_spec(e0))[5] == seq!['0'],
    ensures
        next_execution_spec(e7, from, tz) == next_execution_spec(e0, from, tz),
{
    let w7 = words(normalize_spec(e7));
    let w0 = words(normalize_spec(e0));
    assert forall|i: int| 0 <= i < 5 implies w7[i] == w0[i] by {
        assert(w7.take(5)[i] == w0.take(5)[i]);
    }
    lemma_one_char_field('7', 0, 6, Some(NameMap::Weekdays), true);
    lemma_one_char_field('0', 0, 6, Some(NameMap::Weekdays), true);
    let s7 = seq!['7'];
    let s0 = seq!['0'];
    assert(ascii_upper(s7) =~= s7);
    assert(ascii_upper(s0) =~= s0);
    assert(s7 != s3('S', 'U', 'N') && s7 != s3('M', 'O', 'N') && s7 != s3('T', 'U', 'E') && s7
        != s3('W', 'E', 'D') && s7 != s3('T', 'H', 'U') && s7 != s3('F', 'R', 'I') && s7 != s3(
        'S',
        'A',
        'T',
    )) by {
        assert(s7.len() != 3);
    }
    assert(s0 != s3('S', 'U', 'N') && s0 != s3('M', 'O', 'N') && s0 != s3('T', 'U', 'E') && s0
        != s3('W', 'E', 'D') && s0 != s3('T', 'H', 'U') && s0 != s3('F', 'R', 'I') && s0 != s3(
        'S',
        'A',
        'T',
    )) by {
        assert(s0.len() != 3);
    }
    assert(name_value(s7, Some(NameMap::Weekdays)) is None);
    assert(name_value(s0, Some(NameMap::Weekdays)) is None);
    assert(s0 != s7) by {
        assert(s0[0] != s7[0]);
    }
    assert(part_spec(s7, 0, 6, Some(NameMap::Weekdays), true) == part_spec(
        s0,
        0,
        6,
        Some(NameMap::Weekdays),
        true,
    ));
    assert(cron_parse_spec(normalize_spec(e7)) == cron_parse_spec(normalize_spec(e0)));
}

/// A five-field expression runs when the six-field expression with `0`
/// seconds in front of it runs, whether it is put in front of the
/// expression as given or of the expression trimmed: from any start, in
/// any zone (and neither parses when the other does not).
pub proof fn law_five_fields_run_at_second_zero(e: Seq<char>, from: UtcTime, tz: Seq<char>)
    requires
        words(e).len() == 5,
    ensures
        next_execution_spec(e, from, tz) == next_execution_spec(seq!['0', ' '] + e, from, tz),
        next_execution_spec(e, from, tz) == next_execution_spec(seq!['0', ' '] + trim(e), from, tz),
{
    let z = seq!['0', ' '];
    law_normalize_idempotent(e);
    assert(normalize_spec(z + trim(e)) == normalize_spec(e));
    lemma_words_zero_prefix(e);
    lemma_words_zero_prefix(trim(e));
    lemma_words_trim(e);
    lemma_words_trim(z + e);
    assert(words(z + e).len() == 6);
    assert(normalize_spec(e) == z + trim(e));
    assert(normalize_spec(z + e) == trim(z + e));
    assert(words(normalize_spec(e)) == words(normalize_spec(z + e)));
    assert(cron_parse_spec(normalize_spec(e)) == cron_parse_spec(normalize_spec(z + e)));
}

proof fn lemma_upper_name(t: Seq<char>, names: Option<NameMap>)
    ensures
        name_value(ascii_upper(t), names) == name_value(t, names),
{
    lemma_upper_seq(t);
}

proof fn lemma_upper_is_char(s: Seq<char>, c: char)
    requires
        !('A' <= c <= 'Z'),
        !('a' <= c <= 'z'),
    ensures
        (ascii_upper(s) == seq![c]) == (s == seq![c]),
{
    lemma_upper_seq(s);
    if s.len() == 1 {
        lemma_upper_char_to(s[0], c);
        if s[0] == c {
            assert(s =~= seq![c]);
            assert(ascii_upper(s) =~= seq![c]);
        }
        if ascii_upper(s) == seq![c] {
            assert(ascii_upper(s)[0] == c);
        }
    }
}

proof fn lemma_upper_split(s: Seq<char>, c: char)
    requires
        !('A' <= c <= 'Z'),
        !('a' <= c <= 'z'),
    ensures
        match split_once(s, c) {
            Some((a, b)) => split_once(ascii_upper(s), c) == Some((ascii_upper(a), ascii_upper(b))),
            None => split_once(ascii_upper(s), c) is None,
        },
{
    lemma_upper_char_pos(s, c);
    lemma_char_pos(s, c);
    lemma_upper_seq(s);
}

proof fn lemma_upper_num(token: Seq<char>, min: u32, max: u32, names: Option<NameMap>, is_dow: bool)
    ensures
        parse_num_spec(ascii_upper(token), min, max, names, is_dow) == parse_num_spec(
            token,
            min,
            max,
            names,
            is_dow,
        ),
{
    lemma_upper_trim(token);
    lemma_upper_name(trim(token), names);
    lemma_upper_parse_u32(trim(token));
}

proof fn lemma_upper_step(lhs: Seq<char>, step: Seq<char>)
    ensures
        parse_step_spec(ascii_upper(lhs), ascii_upper(step)) == parse_step_spec(lhs, step),
{
    lemma_upper_seq(lhs);
    lemma_upper_is_char(lhs, '*');
    lemma_upper_char_pos(lhs, '-');
    lemma_char_pos(lhs, '-');
    lemma_upper_parse_u32(step);
}

proof fn lemma_upper_range(
    lhs: Seq<char>,
    min: u32,
    max: u32,
    names: Option<NameMap>,
    is_dow: bool,
    step: u32,
)
    ensures
        range_spec(ascii_upper(lhs), min, max, names, is_dow, step) == range_spec(
            lhs,
            min,
            max,
            names,
            is_dow,
            step,
        ),
{
    lemma_upper_split(lhs, '-');
    match split_once(lhs, '-') {
        Some((a, b)) => {
            lemma_upper_num(a, min, range_end_max(min, max, is_dow), names, false);
            lemma_upper_num(b, min, range_end_max(min, max, is_dow), names, false);
        },
        None => {},
    }
}

proof fn lemma_upper_part(part: Seq<char>, min: u32, max: u32, names: Option<NameMap>, is_dow: bool)
    ensures
        part_spec(ascii_upper(part), min, max, names, is_dow) == part_spec(
            part,
            min,
            max,
            names,
            is_dow,
        ),
{
    let u = ascii_upper(part);
    lemma_upper_seq(part);
    lemma_upper_name(part, names);
    lemma_upper_is_char(part, '7');
    let p = if is_dow && part == seq!['7'] {
        seq!['0']
    } else {
        part
    };
    let pu = if is_dow && u == seq!['7'] {
        seq!['0']
    } else {
        u
    };
    assert(pu == ascii_upper(p)) by {
        if is_dow && part == seq!['7'] {
            lemma_upper_is_char(seq!['0'], '0');
        }
    }
    lemma_upper_split(p, '/');
    match split_once(p, '/') {
        Some((lhs, step_s)) => {
            lemma_upper_step(lhs, step_s);
            lemma_upper_is_char(lhs, '*');
            match parse_step_spec(lhs, step_s) {
                Some(step) => {
                    lemma_upper_range(lhs, min, max, names, is_dow, step);
                },
                None => {},
            }
        },
        None => {
            lemma_upper_char_pos(p, '-');
            lemma_upper_range(p, min, max, names, is_dow, 1);
            lemma_upper_num(p, min, max, names, is_dow);
        },
    }
}

proof fn lemma_upper_list(t: Seq<char>, min: u32, max: u32, names: Option<NameMap>, is_dow: bool)
    ensures
        list_spec(ascii_upper(t), min, max, names, is_dow) == list_spec(
            t,
            min,
            max,
            names,
            is_dow,
        ),
    decreases t.len(),
{
    let u = ascii_upper(t);
    let p = char_pos(t, ',');
    lemma_upper_char_pos(t, ',');
    lemma_char_pos(t, ',');
    lemma_upper_seq(t);
    lemma_upper_trim(t.take(p as int));
    lemma_upper_part(trim(t.take(p as int)), min, max, names, is_dow);
    if p < t.len() {
        lemma_upper_list(t.skip((p + 1) as int), min, max, names, is_dow);
    }
}

proof fn lemma_upper_field(token: Seq<char>, min: u32, max: u32, names: Option<NameMap>, is_dow: bool)
    ensures
        field_spec(ascii_upper(token), min, max, names, is_dow) == field_spec(
            token,
            min,
            max,
            names,
            is_dow,
        ),
{
    lemma_upper_trim(token);
    lemma_upper_is_char(trim(token), '*');
    lemma_upper_list(token, min, max, names, is_dow);
}

/// Expressions ignore ASCII case: month and weekday names read the same in
/// lower, upper or mixed case, so an expression and its upper case have
/// the same runs, from any start and in any zone.
pub proof fn law_case_insensitive(e: Seq<char>, from: UtcTime, tz: Seq<char>)
    ensures
        next_execution_spec(ascii_upper(e), from, tz) == next_execution_spec(e, from, tz),
{
    let u = ascii_upper(e);
    lemma_upper_words(e);
    lemma_upper_trim(e);
    let z = seq!['0', ' '];
    assert(normalize_spec(u) == ascii_upper(normalize_spec(e))) by {
        if words(e).len() == 5 {
            assert(ascii_upper(z + trim(e)) =~= z + ascii_upper(trim(e)));
        }
    }
    let n = normalize_spec(e);
    lemma_upper_words(n);
    let w = words(n);
    let wu = words(ascii_upper(n));
    if w.len() == 6 {
        lemma_upper_field(w[0], 0, 59, None, false);
        lemma_upper_field(w[1], 0, 59, None, false);
        lemma_upper_field(w[2], 0, 23, None, false);
        lemma_upper_field(w[3], 1, 31, None, false);
        lemma_upper_field(w[4], 1, 12, Some(NameMap::Months), false);
        lemma_upper_field(w[5], 0, 6, Some(NameMap::Weekdays), true);
        assert(wu[0] == ascii_upper(w[0]) && wu[1] == ascii_upper(w[1]) && wu[2] == ascii_upper(w[2])
            && wu[3] == ascii_upper(w[3]) && wu[4] == ascii_upper(w[4]) && wu[5] == ascii_upper(
            w[5],
        ));
    }
    assert(cron_parse_spec(normalize_spec(u)) == cron_parse_spec(normalize_spec(e)));
}

/// Normalising is idempotent: a normalised expression is trimmed and does
/// not have five fields, so normalising it again leaves it as it is.
pub proof fn law_normalize_idempotent(e: Seq<char>)
    ensures
        normalize_spec(normalize_spec(e)) == normalize_spec(e),
        words(e).len() != 5 ==> normalize_spec(e) == trim(e),
{
    lemma_words_trim(e);
    lemma_trim_ends(e);
    let z = seq!['0', ' '];
    if words(e).len() == 5 {
        let t = trim(e);
        let n = z + t;
        lemma_words_zero_prefix(t);
        lemma_words_trim(n);
        assert(t.len() > 0) by {
            if t.len() == 0 {
                assert(words(t) =~= Seq::<Seq<char>>::empty());
            }
        }
        assert(n[0] == '0');
        assert(crate::text::trim_start(n) == n);
        assert(n.last() == t.last());
        assert(crate::text::trim_end(n) == n);
    }
}

/// A zone name that `chrono-tz` does not know is read as UTC: the runs are
/// those in UTC, from any start.
pub proof fn law_unknown_zone_is_utc(e: Seq<char>, from: UtcTime, tz: Seq<char>)
    requires
        !crate::cron::clock::known_zone(tz),
    ensures
        next_execution_spec(e, from, tz) == next_execution_spec(e, from, utc_zone()),
{
}

/// Every value of `s` lies in `lo..=hi`.
pub open spec fn within(s: Set<u32>, lo: u32, hi: u32) -> bool {
    forall|v: u32| s.contains(v) ==> lo <= v <= hi
}

/// The fields of a parsed expression hold values of their ranges only.
pub open spec fn in_ranges(c: CronSpecView) -> bool {
    &&& within(c.sec, 0, 59)
    &&& within(c.min, 0, 59)
    &&& within(c.hour, 0, 23)
    &&& within(c.dom, 1, 31)
    &&& within(c.mon, 1, 12)
    &&& within(c.dow, 0, 6)
}

/// A table of names whose values lie in `min..=max`.
pub open spec fn names_fit(names: Option<NameMap>, min: u32, max: u32) -> bool {
    match names {
        None => true,
        Some(NameMap::Months) => min <= 1 && 12 <= max,
        Some(NameMap::Weekdays) => min == 0 && 6 <= max,
    }
}

proof fn lemma_num_range(token: Seq<char>, min: u32, max: u32, names: Option<NameMap>, is_dow: bool)
    requires
        names_fit(names, min, max),
    ensures
        parse_num_spec(token, min, max, names, is_dow) matches Some(n) ==> min <= n <= max,
{
}

proof fn lemma_range_range(
    lhs: Seq<char>,
    min: u32,
    max: u32,
    names: Option<NameMap>,
    is_dow: bool,
    step: u32,
)
    requires
        names_fit(names, min, max),
    ensures
        range_spec(lhs, min, max, names, is_dow, step) matches Some(s) ==> within(s, min, max),
{
    match split_once(lhs, '-') {
        Some((a, b)) => {
            lemma_num_range(a, min, range_end_max(min, max, is_dow), names, false);
            lemma_num_range(b, min, range_end_max(min, max, is_dow), names, false);
        },
        None => {},
    }
}

proof fn lemma_part_range(part: Seq<char>, min: u32, max: u32, names: Option<NameMap>, is_dow: bool)
    requires
        names_fit(names, min, max),
    ensures
        part_spec(part, min, max, names, is_dow) matches Some(s) ==> within(s, min, max),
{
    let p = if is_dow && part == seq!['7'] {
        seq!['0']
    } else {
        part
    };
    match split_once(p, '/') {
        Some((lhs, step_s)) => match parse_step_spec(lhs, step_s) {
            Some(step) => lemma_range_range(lhs, min, max, names, is_dow, step),
            None => {},
        },
        None => {
            lemma_range_range(p, min, max, names, is_dow, 1);
            lemma_num_range(p, min, max, names, is_dow);
        },
    }
}

proof fn lemma_list_range(t: Seq<char>, min: u32, max: u32, names: Option<NameMap>, is_dow: bool)
    requires
        names_fit(names, min, max),
    ensures
        list_spec(t, min, max, names, is_dow) matches Some(s) ==> within(s, min, max),
    decreases t.len(),
{
    let p = char_pos(t, ',');
    lemma_char_pos(t, ',');
    lemma_part_range(trim(t.take(p as int)), min, max, names, is_dow);
    if p < t.len() {
        lemma_list_range(t.skip((p + 1) as int), min, max, names, is_dow);
    }
}

/// A field whose names lie in its range holds values of its range only.
pub proof fn lemma_field_range(token: Seq<char>, min: u32, max: u32, names: Option<NameMap>, is_dow: bool)
    requires
        names_fit(names, min, max),
    ensures
        field_spec(token, min, max, names, is_dow) matches Some(s) ==> within(s, min, max),
{
    lemma_list_range(token, min, max, names, is_dow);
}

/// A parsed expression's fields hold values of their ranges only.
pub proof fn lemma_cron_ranges(e: Seq<char>)
    ensures
        cron_parse_spec(e) matches Some(c) ==> in_ranges(c),
{
    let w = words(e);
    if w.len() == 6 {
        lemma_list_range(w[0], 0, 59, None, false);
        lemma_list_range(w[1], 0, 59, None, false);
        lemma_list_range(w[2], 0, 23, None, false);
        lemma_list_range(w[3], 1, 31, None, false);
        lemma_list_range(w[4], 1, 12, Some(NameMap::Months), false);
        lemma_list_range(w[5], 0, 6, Some(NameMap::Weekdays), true);
    }
}

/// Whatever instant `r` reaches is not before `dt`.
pub open spec fn not_before(r: Result<Flow, CronError>, dt: UtcTime) -> bool {
    match r {
        Ok(Flow::Stay(t)) => t.secs >= dt.secs,
        Ok(Flow::Restart(t)) => t.secs >= dt.secs,
        Err(_) => true,
    }
}

/// On the UTC wall clock: no run lies between `dt` and the instant that `r`
/// reaches, and a restart moves strictly ahead.
pub open spec fn skips_no_run(r: Result<Flow, CronError>, c: CronSpecView, dt: UtcTime) -> bool {
    match r {
        Ok(Flow::Stay(t)) => no_run_in(c, dt.secs as int, t.secs as int),
        Ok(Flow::Restart(t)) => no_run_in(c, dt.secs as int, t.secs as int) && t.secs > dt.secs,
        Err(_) => true,
    }
}

/// An error over a wall-clock time comes with no run from `f` up to that
/// time.
pub open spec fn error_gap(e: CronError, c: CronSpecView, f: LocalFields) -> bool {
    match e {
        CronError::InvalidLocalTime { year, month, day, hour, minute, second } => readings_gap(
            c,
            f,
            reading_at(year, month, day, hour, minute, second),
        ),
        _ => true,
    }
}

/// On the wall clock of `tz`: no reading from `dt`'s up to that of the
/// instant that `r` reaches (or up to the time that an error is about) is
/// a run; a candidate reads no earlier than `dt`, a restart strictly later.
pub open spec fn wall_step(r: Result<Flow, CronError>, c: CronSpecView, tz: Seq<char>, dt: UtcTime) -> bool {
    let f = zone_fields(tz, dt.secs as int);
    match r {
        Ok(Flow::Stay(t)) => readings_gap(c, f, zone_fields(tz, t.secs as int)) && !earlier(
            zone_fields(tz, t.secs as int),
            f,
        ),
        Ok(Flow::Restart(t)) => readings_gap(c, f, zone_fields(tz, t.secs as int)) && earlier(
            f,
            zone_fields(tz, t.secs as int),
        ),
        Err(e) => error_gap(e, c, f),
    }
}

/// A move to the wall-clock time `ft`, when it lands, lands on an instant
/// that reads `ft`, and when it fails over that time, its error is about
/// `ft`; so the gap up to `ft` is a gap up to where the move ends.
proof fn lemma_step_lands(
    c: CronSpecView,
    tz: Seq<char>,
    dt: UtcTime,
    ft: LocalFields,
    r: Result<UtcTime, CronError>,
)
    requires
        readings_gap(c, zone_fields(tz, dt.secs as int), ft),
        earlier(zone_fields(tz, dt.secs as int), ft),
        r matches Ok(t) ==> same_reading(ft, zone_fields(tz, t.secs as int)),
        r matches Err(e) ==> e == local_time_error(ft) || !(e is InvalidLocalTime),
    ensures
        r matches Ok(t) ==> readings_gap(c, zone_fields(tz, dt.secs as int), zone_fields(tz, t.secs as int))
            && earlier(zone_fields(tz, dt.secs as int), zone_fields(tz, t.secs as int)),
        r matches Err(e) ==> error_gap(e, c, zone_fields(tz, dt.secs as int)),
{
    match r {
        Ok(t) => {
            lemma_readings_same_end(c, zone_fields(tz, dt.secs as int), ft, zone_fields(tz, t.secs as int));
        },
        Err(e) => {
            if e is InvalidLocalTime {
                let g = reading_at(ft.year, ft.month, ft.day, ft.hour, ft.minute, ft.second);
                lemma_readings_same_end(c, zone_fields(tz, dt.secs as int), ft, g);
            }
        },
    }
}

/// A gap from `dt` to `m`, followed by a step from `m`, is a step from
/// `dt`.
proof fn lemma_wall_chain(
    c: CronSpecView,
    tz: Seq<char>,
    dt: UtcTime,
    m: UtcTime,
    r: Result<Flow, CronError>,
)
    requires
        readings_gap(c, zone_fields(tz, dt.secs as int), zone_fields(tz, m.secs as int)),
        !earlier(zone_fields(tz, m.secs as int), zone_fields(tz, dt.secs as int)),
        wall_step(r, c, tz, m),
    ensures
        wall_step(r, c, tz, dt),
{
    match r {
        Ok(Flow::Stay(t)) | Ok(Flow::Restart(t)) => {
            let (fd, fm, ft) = (
                zone_fields(tz, dt.secs as int),
                zone_fields(tz, m.secs as int),
                zone_fields(tz, t.secs as int),
            );
            lemma_readings_chain(c, fd, fm, ft);
            crate::cron::clock::lemma_earlier_trans(fd, fm, ft);
        },
        Err(e) => {
            if let CronError::InvalidLocalTime { year, month, day, hour, minute, second } = e {
                lemma_readings_chain(
                    c,
                    zone_fields(tz, dt.secs as int),
                    zone_fields(tz, m.secs as int),
                    reading_at(year, month, day, hour, minute, second),
                );
            }
        },
    }
}

/// Where one unit of the search leaves the instant: still on the same
/// candidate, or moved ahead so that the search starts over from it.
pub enum Flow {
    Stay(UtcTime),
    Restart(UtcTime),
}

/// Same local date, and for `depth` 1, 2 or 3 also the same hour, minute
/// or second.
pub open spec fn same_until(a: LocalFields, b: LocalFields, depth: int) -> bool {
    &&& a.year == b.year
    &&& a.month == b.month
    &&& a.day == b.day
    &&& a.weekday == b.weekday
    &&& depth >= 1 ==> a.hour == b.hour
    &&& depth >= 2 ==> a.minute == b.minute
}

/// On the UTC wall clock, where the search errs only past `chrono`'s last
/// year: an error means no run from `dt` on; a candidate is `dt` itself or
/// a later whole second; a restart lands on a whole second.
pub open spec fn utc_moves(r: Result<Flow, CronError>, c: CronSpecView, dt: UtcTime) -> bool {
    match r {
        Err(_) => no_run_in(c, dt.secs as int, MAX_SECS + 1),
        Ok(Flow::Stay(t)) => t == dt || (t.nanos == 0 && t.secs > dt.secs),
        Ok(Flow::Restart(t)) => t.nanos == 0,
    }
}

/// The wall-clock time `y-m-d h:mi:s`, weekday aside.
pub open spec fn clock_at(y: i32, m: u32, d: u32, h: u32, mi: u32, s: u32) -> LocalFields {
    crate::cron::gaps::reading_at(y, m, d, h, mi, s)
}

/// In UTC, a jump to `h:mi:s` of the date after `f`'s that fails leaves no
/// run from `dt` on, given no run before the jump's target.
proof fn lemma_next_day_failure(
    c: CronSpecView,
    dt: int,
    f: LocalFields,
    h: u32,
    mi: u32,
    s: u32,
)
    requires
        utc_reading(dt, f),
        MIN_SECS <= dt <= MAX_SECS,
        h < 24 && mi < 60 && s < 60,
        following_day(f.year, f.month, f.day) matches Some((y, m, d)) && no_run_in(
            c,
            dt,
            civil_secs(y as int, m as int, d as int, h as int, mi as int, s as int),
        ) && crate::cron::clock::utc_instant(y, m, d, h, mi, s) is None,
    ensures
        no_run_in(c, dt, MAX_SECS + 1),
{
    lemma_reading_year(dt, f);
    lemma_following_day(f.year, f.month, f.day);
    let (y, m, d) = following_day(f.year, f.month, f.day)->0;
    lemma_past_last_year(clock_at(y, m, d, h, mi, s));
    lemma_gap_shrink(
        c,
        dt,
        civil_secs(y as int, m as int, d as int, h as int, mi as int, s as int),
        MAX_SECS + 1,
    );
}

/// Moves `dt` to the first day of the next allowed month when its month is
/// not allowed.
fn align_month(spec: &CronSpec, tz: &str, dt: UtcTime) -> (r: Result<UtcTime, CronError>)
    requires
        spec.wf(),
        in_ranges(spec.view()),
        dt.wf(),
    ensures
        r == align_month_spec(spec.view(), tz@, dt),
        tz@ == utc_zone() ==> (r matches Ok(t) ==> t.secs >= dt.secs && no_run_in(
            spec.view(),
            dt.secs as int,
            t.secs as int,
        )),
        tz@ == utc_zone() ==> match r {
            Ok(t) => t == dt || (t.nanos == 0 && t.secs > dt.secs),
            Err(_) => no_run_in(spec.view(), dt.secs as int, MAX_SECS + 1),
        },
        r matches Ok(t) ==> readings_gap(
            spec.view(),
            zone_fields(tz@, dt.secs as int),
            zone_fields(tz@, t.secs as int),
        ) && !earlier(zone_fields(tz@, t.secs as int), zone_fields(tz@, dt.secs as int)),
        r matches Err(e) ==> error_gap(e, spec.view(), zone_fields(tz@, dt.secs as int)),
        match r {
            Ok(t) => t.wf() && allows(spec.view().mon, zone_fields(tz@, t.secs as int).month),
            Err(e) => !(e is InvalidExpression) && !(e is NotFound),
        },
{
    let f = local_fields(tz, dt.secs);
    proof {
        if tz@ == utc_zone() {
            lemma_reading_year(dt.secs as int, f);
        }
    }
    if spec.mon.matches(f.month) {
        return Ok(dt);
    }
    if let Some(next_m) = spec.mon.next_ge(f.month) {
        if next_m != f.month {
            let r = set_ymd_hms(tz, f.year, next_m, 1, 0, 0, 0);
            proof {
                assert(spec.view().mon.contains(next_m) && next_m >= f.month);
                assert(next_m <= 12);
                span_month_same_year(spec.view(), f, next_m);
                lemma_step_lands(spec.view(), tz@, dt, reading_at(f.year, next_m, 1, 0, 0, 0), r);
                if tz@ == utc_zone() {
                    crate::cron::clock::lemma_later_month_later_secs(
                        dt.secs as int,
                        f,
                        f.year as int,
                        next_m as int,
                    );
                    gap_month_same_year(
                        spec.view(),
                        dt.secs as int,
                        f,
                        civil_secs(f.year as int, next_m as int, 1, 0, 0, 0),
                        next_m,
                    );
                }
            }
            return r;
        }
        Ok(dt)
    } else {
        let first_m = spec.mon.first().unwrap_or(1);
        let y = match f.year.checked_add(1) {
            Some(y) => y,
            None => return Err(CronError::OutOfRange),
        };
        let r = set_ymd_hms(tz, y, first_m, 1, 0, 0, 0);
        proof {
            assert(1 <= first_m <= 12);
            span_month_next_year(spec.view(), f, first_m);
            lemma_step_lands(spec.view(), tz@, dt, reading_at(y, first_m, 1, 0, 0, 0), r);
            if tz@ == utc_zone() {
                let t = civil_secs(y as int, first_m as int, 1, 0, 0, 0);
                crate::cron::clock::lemma_later_month_later_secs(
                    dt.secs as int,
                    f,
                    y as int,
                    first_m as int,
                );
                gap_month_next_year(spec.view(), dt.secs as int, f, t, first_m);
                if r is Err {
                    lemma_past_last_year(clock_at(y, first_m, 1, 0, 0, 0));
                    lemma_gap_shrink(spec.view(), dt.secs as int, t, MAX_SECS + 1);
                }
            }
        }
        r
    }
}

/// Moves `dt` to the next allowed hour of its day, or to the first allowed
/// hour of the next day (and then the search starts over).
fn align_hour(spec: &CronSpec, tz: &str, dt: UtcTime) -> (r: Result<Flow, CronError>)
    requires
        spec.wf(),
        in_ranges(spec.view()),
        dt.wf(),
    ensures
        r == align_hour_spec(spec.view(), tz@, dt),
        wall_step(r, spec.view(), tz@, dt),
        tz@ == utc_zone() ==> not_before(r, dt) && skips_no_run(r, spec.view(), dt) && utc_moves(
            r,
            spec.view(),
            dt,
        ),
        match r {
            Ok(Flow::Stay(t)) => {
                &&& t.wf()
                &&& same_until(zone_fields(tz@, t.secs as int), zone_fields(tz@, dt.secs as int), 0)
                &&& allows(spec.view().hour, zone_fields(tz@, t.secs as int).hour)
            },
            Ok(Flow::Restart(t)) => t.wf(),
            Err(e) => !(e is InvalidExpression) && !(e is NotFound),
        },
{
    let f = local_fields(tz, dt.secs);
    proof {
        if tz@ == utc_zone() {
            lemma_reading_year(dt.secs as int, f);
        }
    }
    if spec.hour.matches(f.hour) {
        return Ok(Flow::Stay(dt));
    }
    if let Some(next_h) = spec.hour.next_ge(f.hour) {
        let r = set_hms(tz, dt, next_h, 0, 0);
        proof {
            assert(next_h <= 23);
            span_hour_same_day(spec.view(), f, next_h);
            lemma_step_lands(spec.view(), tz@, dt, reading_at(f.year, f.month, f.day, next_h, 0, 0), r);
            if tz@ == utc_zone() {
                gap_hour_same_day(
                    spec.view(),
                    dt.secs as int,
                    f,
                    civil_secs(f.year as int, f.month as int, f.day as int, next_h as int, 0, 0),
                    next_h,
                );
            }
        }
        let t = r?;
        Ok(Flow::Stay(t))
    } else {
        let h1 = spec.hour.first().unwrap_or(0);
        let r = set_next_day(tz, f, h1, 0, 0);
        proof {
            assert(h1 <= 23);
            if following_day(f.year, f.month, f.day) is Some {
                lemma_following_day(f.year, f.month, f.day);
                let g = next_day_reading(f);
                span_hour_next_day(spec.view(), f, g, h1);
                lemma_step_lands(spec.view(), tz@, dt, reading_at(g.year, g.month, g.day, h1, 0, 0), r);
            }
            if tz@ == utc_zone() {
                lemma_following_day(f.year, f.month, f.day);
                let g = next_day_reading(f);
                let tt = civil_secs(g.year as int, g.month as int, g.day as int, h1 as int, 0, 0);
                gap_hour_next_day(spec.view(), dt.secs as int, f, g, tt, h1);
                if r is Err {
                    lemma_next_day_failure(spec.view(), dt.secs as int, f, h1, 0, 0);
                }
            }
        }
        let t = r?;
        Ok(Flow::Restart(t))
    }
}

/// Moves `dt` to the next allowed minute of its hour, or on to a later hour
/// or day (and then the search starts over).
fn align_minute(spec: &CronSpec, tz: &str, dt: UtcTime) -> (r: Result<Flow, CronError>)
    requires
        spec.wf(),
        in_ranges(spec.view()),
        dt.wf(),
    ensures
        r == align_minute_spec(spec.view(), tz@, dt),
        wall_step(r, spec.view(), tz@, dt),
        tz@ == utc_zone() ==> not_before(r, dt) && skips_no_run(r, spec.view(), dt) && utc_moves(
            r,
            spec.view(),
            dt,
        ),
        match r {
            Ok(Flow::Stay(t)) => {
                &&& t.wf()
                &&& same_until(zone_fields(tz@, t.secs as int), zone_fields(tz@, dt.secs as int), 1)
                &&& allows(spec.view().min, zone_fields(tz@, t.secs as int).minute)
            },
            Ok(Flow::Restart(t)) => t.wf(),
            Err(e) => !(e is InvalidExpression) && !(e is NotFound),
        },
{
    let f = local_fields(tz, dt.secs);
    proof {
        if tz@ == utc_zone() {
            lemma_reading_year(dt.secs as int, f);
        }
    }
    if spec.min.matches(f.minute) {
        return Ok(Flow::Stay(dt));
    }
    if let Some(next_min) = spec.min.next_ge(f.minute) {
        let r = set_hms(tz, dt, f.hour, next_min, 0);
        proof {
            assert(next_min <= 59);
            span_minute_same_hour(spec.view(), f, next_min);
            lemma_step_lands(spec.view(), tz@, dt, reading_at(f.year, f.month, f.day, f.hour, next_min, 0), r);
            if tz@ == utc_zone() {
                gap_minute_same_hour(
                    spec.view(),
                    dt.secs as int,
                    f,
                    civil_secs(
                        f.year as int,
                        f.month as int,
                        f.day as int,
                        f.hour as int,
                        next_min as int,
                        0,
                    ),
                    next_min,
                );
            }
        }
        let t = r?;
        return Ok(Flow::Stay(t));
    }
    let m1 = spec.min.first().unwrap_or(0);
    if let Some(next_h) = spec.hour.next_gt(f.hour) {
        let r = set_hms(tz, dt, next_h, m1, 0);
        proof {
            assert(next_h <= 23 && m1 <= 59);
            span_minute_later_hour(spec.view(), f, next_h, m1);
            lemma_step_lands(spec.view(), tz@, dt, reading_at(f.year, f.month, f.day, next_h, m1, 0), r);
            if tz@ == utc_zone() {
                gap_minute_later_hour(
                    spec.view(),
                    dt.secs as int,
                    f,
                    civil_secs(
                        f.year as int,
                        f.month as int,
                        f.day as int,
                        next_h as int,
                        m1 as int,
                        0,
                    ),
                    next_h,
                    m1,
                );
            }
        }
        let t = r?;
        Ok(Flow::Restart(t))
    } else {
        let h1 = spec.hour.first().unwrap_or(0);
        let r = set_next_day(tz, f, h1, m1, 0);
        proof {
            assert(h1 <= 23 && m1 <= 59);
            if following_day(f.year, f.month, f.day) is Some {
                lemma_following_day(f.year, f.month, f.day);
                let g = next_day_reading(f);
                span_minute_next_day(spec.view(), f, g, h1, m1);
                lemma_step_lands(spec.view(), tz@, dt, reading_at(g.year, g.month, g.day, h1, m1, 0), r);
            }
            if tz@ == utc_zone() {
                lemma_following_day(f.year, f.month, f.day);
                let g = next_day_reading(f);
                let tt = civil_secs(
                    g.year as int,
                    g.month as int,
                    g.day as int,
                    h1 as int,
                    m1 as int,
                    0,
                );
                gap_minute_next_day(spec.view(), dt.secs as int, f, g, tt, h1, m1);
                if r is Err {
                    lemma_next_day_failure(spec.view(), dt.secs as int, f, h1, m1, 0);
                }
            }
        }
        let t = r?;
        Ok(Flow::Restart(t))
    }
}

/// Moves `dt` to the next allowed second of its minute, or on to a later
/// minute, hour or day (and then the search starts over).
fn align_second(spec: &CronSpec, tz: &str, dt: UtcTime) -> (r: Result<Flow, CronError>)
    requires
        spec.wf(),
        in_ranges(spec.view()),
        dt.wf(),
    ensures
        r == align_second_spec(spec.view(), tz@, dt),
        wall_step(r, spec.view(), tz@, dt),
        tz@ == utc_zone() ==> not_before(r, dt) && skips_no_run(r, spec.view(), dt) && utc_moves(
            r,
            spec.view(),
            dt,
        ),
        tz@ == utc_zone() ==> (r matches Ok(Flow::Stay(t)) ==> utc_clock(
            t.secs as int,
            zone_fields(tz@, t.secs as int),
        )),
        match r {
            Ok(Flow::Stay(t)) => {
                &&& t.wf()
                &&& same_until(zone_fields(tz@, t.secs as int), zone_fields(tz@, dt.secs as int), 2)
                &&& allows(spec.view().sec, zone_fields(tz@, t.secs as int).second)
            },
            Ok(Flow::Restart(t)) => t.wf(),
            Err(e) => !(e is InvalidExpression) && !(e is NotFound),
        },
{
    let f = local_fields(tz, dt.secs);
    proof {
        if tz@ == utc_zone() {
            lemma_reading_year(dt.secs as int, f);
        }
    }
    if spec.sec.matches(f.second) {
        return Ok(Flow::Stay(dt));
    }
    if let Some(next_s) = spec.sec.next_ge(f.second) {
        let r = set_hms(tz, dt, f.hour, f.minute, next_s);
        proof {
            assert(next_s <= 59);
            span_second_same_minute(spec.view(), f, next_s);
            lemma_step_lands(
                spec.view(),
                tz@,
                dt,
                reading_at(f.year, f.month, f.day, f.hour, f.minute, next_s),
                r,
            );
            if tz@ == utc_zone() {
                gap_second_same_minute(
                    spec.view(),
                    dt.secs as int,
                    f,
                    civil_secs(
                        f.year as int,
                        f.month as int,
                        f.day as int,
                        f.hour as int,
                        f.minute as int,
                        next_s as int,
                    ),
                    next_s,
                );
            }
        }
        let t = r?;
        return Ok(Flow::Stay(t));
    }
    let s1 = spec.sec.first().unwrap_or(0);
    if let Some(next_min) = spec.min.next_gt(f.minute) {
        let r = set_hms(tz, dt, f.hour, next_min, s1);
        proof {
            assert(next_min <= 59 && s1 <= 59);
            span_second_later_minute(spec.view(), f, next_min, s1);
            lemma_step_lands(spec.view(), tz@, dt, reading_at(f.year, f.month, f.day, f.hour, next_min, s1), r);
            if tz@ == utc_zone() {
                gap_second_later_minute(
                    spec.view(),
                    dt.secs as int,
                    f,
                    civil_secs(
                        f.year as int,
                        f.month as int,
                        f.day as int,
                        f.hour as int,
                        next_min as int,
                        s1 as int,
                    ),
                    next_min,
                    s1,
                );
            }
        }
        let t = r?;
        return Ok(Flow::Restart(t));
    }
    let m1 = spec.min.first().unwrap_or(0);
    if let Some(next_h) = spec.hour.next_gt(f.hour) {
        let r = set_hms(tz, dt, next_h, m1, s1);
        proof {
            assert(next_h <= 23 && m1 <= 59 && s1 <= 59);
            span_second_later_hour(spec.view(), f, next_h, m1, s1);
            lemma_step_lands(spec.view(), tz@, dt, reading_at(f.year, f.month, f.day, next_h, m1, s1), r);
            if tz@ == utc_zone() {
                gap_second_later_hour(
                    spec.view(),
                    dt.secs as int,
                    f,
                    civil_secs(
                        f.year as int,
                        f.month as int,
                        f.day as int,
                        next_h as int,
                        m1 as int,
                        s1 as int,
                    ),
                    next_h,
                    m1,
                    s1,
                );
            }
        }
        let t = r?;
        Ok(Flow::Restart(t))
    } else {
        let h1 = spec.hour.first().unwrap_or(0);
        let r = set_next_day(tz, f, h1, m1, s1);
        proof {
            assert(h1 <= 23 && m1 <= 59 && s1 <= 59);
            if following_day(f.year, f.month, f.day) is Some {
                lemma_following_day(f.year, f.month, f.day);
                let g = next_day_reading(f);
                span_second_next_day(spec.view(), f, g, h1, m1, s1);
                lemma_step_lands(spec.view(), tz@, dt, reading_at(g.year, g.month, g.day, h1, m1, s1), r);
            }
            if tz@ == utc_zone() {
                lemma_following_day(f.year, f.month, f.day);
                let g = next_day_reading(f);
                let tt = civil_secs(
                    g.year as int,
                    g.month as int,
                    g.day as int,
                    h1 as int,
                    m1 as int,
                    s1 as int,
                );
                gap_second_next_day(spec.view(), dt.secs as int, f, g, tt, h1, m1, s1);
                if r is Err {
                    lemma_next_day_failure(spec.view(), dt.secs as int, f, h1, m1, s1);
                }
            }
        }
        let t = r?;
        Ok(Flow::Restart(t))
    }
}

/// One round of the search from `dt`: month, day, hour, minute and second
/// in turn. `Stay(t)` means that `t` is a run.
#[verifier::spinoff_prover]
#[verifier::rlimit(80)]
fn search_round(spec: &CronSpec, tz: &str, dt: UtcTime) -> (r: Result<Flow, CronError>)
    requires
        spec.wf(),
        in_ranges(spec.view()),
        dt.wf(),
    ensures
        r == round_spec(spec.view(), tz@, dt),
        wall_step(r, spec.view(), tz@, dt),
        tz@ == utc_zone() ==> not_before(r, dt) && skips_no_run(r, spec.view(), dt) && utc_moves(
            r,
            spec.view(),
            dt,
        ),
        tz@ == utc_zone() ==> (r matches Ok(Flow::Stay(t)) ==> utc_clock(
            t.secs as int,
            zone_fields(tz@, t.secs as int),
        )),
        match r {
            Ok(Flow::Stay(t)) => t.wf() && fields_match(spec.view(), zone_fields(tz@, t.secs as int)),
            Ok(Flow::Restart(t)) => t.wf(),
            Err(e) => !(e is InvalidExpression) && !(e is NotFound),
        },
{
    let ghost c = spec.view();
    let start = dt;
    let m = align_month(spec, tz, dt)?;
    let f = local_fields(tz, m.secs);
    if !spec.matches_day(f.day, f.weekday) {
        let r = set_next_day(tz, f, 0, 0, 0);
        proof {
            if following_day(f.year, f.month, f.day) is Some {
                lemma_following_day(f.year, f.month, f.day);
                let g = next_day_reading(f);
                span_day(c, f, g);
                lemma_step_lands(c, tz@, m, reading_at(g.year, g.month, g.day, 0, 0, 0), r);
                if let Ok(t) = r {
                    lemma_wall_chain(c, tz@, start, m, Ok(Flow::Restart(t)));
                }
            }
            if tz@ == utc_zone() {
                lemma_reading_year(m.secs as int, f);
                lemma_following_day(f.year, f.month, f.day);
                let g = next_day_reading(f);
                let tt = civil_secs(g.year as int, g.month as int, g.day as int, 0, 0, 0);
                gap_day(c, m.secs as int, f, g, tt);
                lemma_gap_chain(c, start.secs as int, m.secs as int, tt);
                if r is Err {
                    lemma_next_day_failure(c, m.secs as int, f, 0, 0, 0);
                    lemma_gap_chain(c, start.secs as int, m.secs as int, MAX_SECS + 1);
                }
            }
        }
        let t = r?;
        return Ok(Flow::Restart(t));
    }
    let h = match align_hour(spec, tz, m) {
        Ok(Flow::Stay(t)) => t,
        Ok(Flow::Restart(t)) => {
            proof {
                lemma_wall_chain(c, tz@, start, m, Ok(Flow::Restart(t)));
                if tz@ == utc_zone() {
                    lemma_gap_chain(c, start.secs as int, m.secs as int, t.secs as int);
                }
            }
            return Ok(Flow::Restart(t));
        },
        Err(e) => {
            proof {
                if tz@ == utc_zone() {
                    lemma_gap_chain(c, start.secs as int, m.secs as int, MAX_SECS + 1);
                }
            }
            return Err(e);
        },
    };
    proof {
        lemma_wall_chain(c, tz@, start, m, Ok(Flow::Stay(h)));
        if tz@ == utc_zone() {
            lemma_gap_chain(c, start.secs as int, m.secs as int, h.secs as int);
        }
    }
    let mi = match align_minute(spec, tz, h) {
        Ok(Flow::Stay(t)) => t,
        Ok(Flow::Restart(t)) => {
            proof {
                lemma_wall_chain(c, tz@, start, h, Ok(Flow::Restart(t)));
                if tz@ == utc_zone() {
                    lemma_gap_chain(c, start.secs as int, h.secs as int, t.secs as int);
                }
            }
            return Ok(Flow::Restart(t));
        },
        Err(e) => {
            proof {
                if tz@ == utc_zone() {
                    lemma_gap_chain(c, start.secs as int, h.secs as int, MAX_SECS + 1);
                }
            }
            return Err(e);
        },
    };
    proof {
        lemma_wall_chain(c, tz@, start, h, Ok(Flow::Stay(mi)));
        if tz@ == utc_zone() {
            lemma_gap_chain(c, start.secs as int, h.secs as int, mi.secs as int);
        }
    }
    let sec = match align_second(spec, tz, mi) {
        Ok(Flow::Stay(t)) => t,
        Ok(Flow::Restart(t)) => {
            proof {
                lemma_wall_chain(c, tz@, start, mi, Ok(Flow::Restart(t)));
                if tz@ == utc_zone() {
                    lemma_gap_chain(c, start.secs as int, mi.secs as int, t.secs as int);
                }
            }
            return Ok(Flow::Restart(t));
        },
        Err(e) => {
            proof {
                if tz@ == utc_zone() {
                    lemma_gap_chain(c, start.secs as int, mi.secs as int, MAX_SECS + 1);
                }
            }
            return Err(e);
        },
    };
    proof {
        lemma_wall_chain(c, tz@, start, mi, Ok(Flow::Stay(sec)));
        if tz@ == utc_zone() {
            lemma_gap_chain(c, start.secs as int, mi.secs as int, sec.secs as int);
        }
    }
    Ok(Flow::Stay(sec))
}

/// The loop of [`CronParser::next_execution`]: rounds of the search from
/// the second after `from`, on the wall clock of the zone `zone`.
#[verifier::spinoff_prover]
#[verifier::rlimit(80)]
fn search(spec: &CronSpec, zone: &str, from: UtcTime) -> (r: Result<UtcTime, CronError>)
    requires
        spec.wf(),
        in_ranges(spec.view()),
        from.wf(),
        from.secs + 1 + SEARCH_SPAN_SECS <= MAX_SECS,
    ensures
        r == search_spec(
            spec.view(),
            zone@,
            UtcTime { secs: (from.secs + 1) as i64, nanos: from.nanos },
            from,
            UtcTime { secs: (from.secs + 1 + SEARCH_SPAN_SECS) as i64, nanos: from.nanos },
        ),
        r matches Ok(t) ==> {
            &&& t.wf()
            &&& t.after(from)
            &&& fields_match(spec.view(), zone_fields(zone@, t.secs as int))
            &&& readings_gap(
                spec.view(),
                zone_fields(zone@, from.secs + 1),
                zone_fields(zone@, t.secs as int),
            )
        },
        r matches Err(e) ==> !(e is InvalidExpression),
        r matches Err(e) ==> error_gap(e, spec.view(), zone_fields(zone@, from.secs + 1)),
        r matches Err(CronError::NotFound) ==> exists|d: int|
            d >= from.secs + 1 + SEARCH_SPAN_SECS && readings_gap(
                spec.view(),
                zone_fields(zone@, from.secs + 1),
                #[trigger] zone_fields(zone@, d),
            ),
        zone@ == utc_zone() ==> (r matches Ok(t) ==> utc_clock(
            t.secs as int,
            zone_fields(zone@, t.secs as int),
        )),
        zone@ == utc_zone() ==> match r {
            Ok(t) => no_run_in(spec.view(), from.secs + 1, t.secs as int) && t.nanos == (if t.secs
                == from.secs + 1 {
                from.nanos
            } else {
                0
            }),
            Err(_) => no_run_in(spec.view(), from.secs + 1, from.secs + 1 + SEARCH_SPAN_SECS),
        },
{
    let ghost c = spec.view();
    let start = UtcTime { secs: from.secs + 1, nanos: from.nanos };
    let mut dt = start;
    let end_limit = UtcTime { secs: dt.secs + SEARCH_SPAN_SECS, nanos: dt.nanos };
    loop
        invariant
            spec.wf(),
            c == spec.view(),
            in_ranges(c),
            from.wf(),
            start == (UtcTime { secs: (from.secs + 1) as i64, nanos: from.nanos }),
            dt.secs > from.secs,
            dt.secs <= MAX_SECS,
            dt.nanos < 1_000_000_000,
            end_limit == (UtcTime {
                secs: (from.secs + 1 + SEARCH_SPAN_SECS) as i64,
                nanos: from.nanos,
            }),
            end_limit.secs <= MAX_SECS,
            search_spec(c, zone@, start, from, end_limit) == search_spec(
                c,
                zone@,
                dt,
                from,
                end_limit,
            ),
            readings_gap(c, zone_fields(zone@, start.secs as int), zone_fields(zone@, dt.secs as int)),
            zone@ == utc_zone() ==> no_run_in(c, from.secs + 1, dt.secs as int),
            zone@ == utc_zone() ==> dt.nanos == (if dt.secs == from.secs + 1 {
                from.nanos
            } else {
                0
            }),
        decreases left_to_search(dt, end_limit),
    {
        if dt.is_after(&end_limit) {
            proof {
                if zone@ == utc_zone() {
                    let a = from.secs + 1;
                    let b = from.secs + 1 + SEARCH_SPAN_SECS;
                    assert(dt.secs >= b);
                    lemma_gap_shrink(c, a, dt.secs as int, b);
                }
                assert(readings_gap(c, zone_fields(zone@, from.secs + 1), zone_fields(zone@, dt.secs as int)));
            }
            return Err(CronError::NotFound);
        }
        let ghost before = dt;
        let round = search_round(spec, zone, dt);
        if let Err(e) = round {
            proof {
                if let CronError::InvalidLocalTime { year, month, day, hour, minute, second } = e {
                    lemma_readings_chain(
                        c,
                        zone_fields(zone@, start.secs as int),
                        zone_fields(zone@, dt.secs as int),
                        reading_at(year, month, day, hour, minute, second),
                    );
                }
                if zone@ == utc_zone() {
                    lemma_gap_chain(c, from.secs + 1, dt.secs as int, MAX_SECS + 1);
                    lemma_gap_shrink(c, from.secs + 1, MAX_SECS + 1, from.secs + 1 + SEARCH_SPAN_SECS);
                }
            }
            return Err(e);
        }
        match round.unwrap() {
            Flow::Stay(t) => {
                if !t.is_after(&from) {
                    let f = local_fields(zone, t.secs);
                    proof {
                        let (fs, fd, ft) = (
                            zone_fields(zone@, start.secs as int),
                            zone_fields(zone@, dt.secs as int),
                            zone_fields(zone@, t.secs as int),
                        );
                        lemma_readings_chain(c, fs, fd, ft);
                        lemma_readings_same_end(
                            c,
                            fs,
                            ft,
                            reading_at(ft.year, ft.month, ft.day, ft.hour, ft.minute, ft.second),
                        );
                    }
                    return Err(
                        CronError::InvalidLocalTime {
                            year: f.year,
                            month: f.month,
                            day: f.day,
                            hour: f.hour,
                            minute: f.minute,
                            second: f.second,
                        },
                    );
                }
                proof {
                    lemma_readings_chain(
                        c,
                        zone_fields(zone@, start.secs as int),
                        zone_fields(zone@, before.secs as int),
                        zone_fields(zone@, t.secs as int),
                    );
                    if zone@ == utc_zone() {
                        lemma_gap_chain(c, from.secs + 1, before.secs as int, t.secs as int);
                    }
                }
                return Ok(t);
            },
            Flow::Restart(t) => {
                if t.secs <= dt.secs {
                    let f = local_fields(zone, t.secs);
                    proof {
                        let (fs, fd, ft) = (
                            zone_fields(zone@, start.secs as int),
                            zone_fields(zone@, dt.secs as int),
                            zone_fields(zone@, t.secs as int),
                        );
                        lemma_readings_chain(c, fs, fd, ft);
                        lemma_readings_same_end(
                            c,
                            fs,
                            ft,
                            reading_at(ft.year, ft.month, ft.day, ft.hour, ft.minute, ft.second),
                        );
                    }
                    return Err(
                        CronError::InvalidLocalTime {
                            year: f.year,
                            month: f.month,
                            day: f.day,
                            hour: f.hour,
                            minute: f.minute,
                            second: f.second,
                        },
                    );
                }
                proof {
                    lemma_readings_chain(
                        c,
                        zone_fields(zone@, start.secs as int),
                        zone_fields(zone@, before.secs as int),
                        zone_fields(zone@, t.secs as int),
                    );
                    if zone@ == utc_zone() {
                        lemma_gap_chain(c, from.secs + 1, before.secs as int, t.secs as int);
                    }
                }
                dt = t;
            },
        }
    }
}

/// A gap on the wall clock from the second after `from` up to `t`: no
/// second between the two whose reading lies in the gap is a run, and none
/// at all where the clock only moves forward between them.
proof fn lemma_earliest_on_wall_clock(c: CronSpecView, z: Seq<char>, from: int, t: int)
    requires
        readings_gap(c, zone_fields(z, from + 1), zone_fields(z, t)),
    ensures
        forall|s: int|
            from < s < t && clock_ok(#[trigger] zone_fields(z, s)) && !earlier(
                zone_fields(z, s),
                zone_fields(z, from + 1),
            ) && earlier(zone_fields(z, s), zone_fields(z, t)) ==> !fields_match(c, zone_fields(z, s)),
        (forall|s: int| from < s < t ==> clock_ok(#[trigger] zone_fields(z, s))) && (forall|
            s1: int,
            s2: int,
        | from < s1 < s2 <= t ==> earlier(#[trigger] zone_fields(z, s1), #[trigger] zone_fields(z, s2)))
            ==> forall|s: int| from < s < t ==> !fields_match(c, #[trigger] zone_fields(z, s)),
{
    assert forall|s: int|
        from < s < t && clock_ok(#[trigger] zone_fields(z, s)) && !earlier(
            zone_fields(z, s),
            zone_fields(z, from + 1),
        ) && earlier(zone_fields(z, s), zone_fields(z, t)) implies !fields_match(c, zone_fields(z, s)) by {
        let k = zone_fields(z, s);
        assert(clock_ok(k) && !earlier(k, zone_fields(z, from + 1)) && earlier(k, zone_fields(z, t)));
    }
    if (forall|s: int| from < s < t ==> clock_ok(#[trigger] zone_fields(z, s))) && (forall|
        s1: int,
        s2: int,
    | from < s1 < s2 <= t ==> earlier(#[trigger] zone_fields(z, s1), #[trigger] zone_fields(z, s2))) {
        assert forall|s: int| from < s < t implies !fields_match(c, #[trigger] zone_fields(z, s)) by {
            let a = zone_fields(z, from + 1);
            let k = zone_fields(z, s);
            if s > from + 1 {
                assert(earlier(a, k));
                crate::cron::clock::lemma_earlier_trans(a, k, a);
            }
            assert(earlier(k, zone_fields(z, t)));
            assert(clock_ok(k) && !earlier(k, a) && earlier(k, zone_fields(z, t)));
        }
    }
}

/// Finds the next run of cron expressions.
pub struct CronParser;

impl CronParser {
    /// The next instant after `from_utc` at which `cron_expr` fires, read on
    /// the wall clock of the IANA zone `tz_str` (UTC when the name is
    /// unknown). The expression has 5 or 6 fields; the search goes up to
    /// five years ahead. The run found is always later than `from_utc`, and
    /// no second between the two whose wall-clock time lies from that of
    /// the second after `from_utc` up to that of the run is a run: where the
    /// zone's clock only moves forward over that stretch (in UTC always),
    /// the run found is the earliest one. In UTC an error means that there
    /// is none within the five years; in any zone, an error over a
    /// wall-clock time that the search could not place means that no
    /// wall-clock time from that of the second after `from_utc` up to it is
    /// a run, and not finding one means that none is up to the wall-clock
    /// time of a second five years on or later. An expression that does not
    /// parse gives an error that carries it.
    #[verifier::spinoff_prover]
    #[verifier::rlimit(50)]
    pub fn next_execution(cron_expr: &str, from_utc: UtcTime, tz_str: &str) -> (r: Result<
        UtcTime,
        CronError,
    >)
        requires
            from_utc.wf(),
            from_utc.secs + 1 + SEARCH_SPAN_SECS <= MAX_SECS,
        ensures
            match next_execution_spec(cron_expr@, from_utc, tz_str@) {
                None => r matches Err(CronError::InvalidExpression(x)) && x@ == cron_expr@,
                Some(found) => r == found && !(r matches Err(CronError::InvalidExpression(_))),
            },
            r matches Ok(t) ==> {
                &&& t.wf()
                &&& t.after(from_utc)
                &&& cron_parse_spec(normalize_spec(cron_expr@)) matches Some(c)
                &&& fields_match(c, zone_fields(effective_zone(tz_str@), t.secs as int))
                &&& forall|s: int|
                    from_utc.secs < s < t.secs && clock_ok(
                        #[trigger] zone_fields(effective_zone(tz_str@), s),
                    ) && !earlier(
                        zone_fields(effective_zone(tz_str@), s),
                        zone_fields(effective_zone(tz_str@), from_utc.secs + 1),
                    ) && earlier(
                        zone_fields(effective_zone(tz_str@), s),
                        zone_fields(effective_zone(tz_str@), t.secs as int),
                    ) ==> !fields_match(c, zone_fields(effective_zone(tz_str@), s))
                &&& (forall|s: int|
                    from_utc.secs < s < t.secs ==> clock_ok(
                        #[trigger] zone_fields(effective_zone(tz_str@), s),
                    )) && (forall|s1: int, s2: int|
                    from_utc.secs < s1 < s2 <= t.secs ==> earlier(
                        #[trigger] zone_fields(effective_zone(tz_str@), s1),
                        #[trigger] zone_fields(effective_zone(tz_str@), s2),
                    )) ==> forall|s: int|
                    from_utc.secs < s < t.secs ==> !fields_match(
                        c,
                        #[trigger] zone_fields(effective_zone(tz_str@), s),
                    )
            },
            r matches Err(CronError::InvalidLocalTime { year, month, day, hour, minute, second })
                ==> (cron_parse_spec(normalize_spec(cron_expr@)) matches Some(c) && readings_gap(
                c,
                zone_fields(effective_zone(tz_str@), from_utc.secs + 1),
                reading_at(year, month, day, hour, minute, second),
            )),
            r matches Err(CronError::NotFound) ==> (cron_parse_spec(normalize_spec(cron_expr@)) matches Some(
                c,
            ) && exists|d: int|
                d >= from_utc.secs + 1 + SEARCH_SPAN_SECS && readings_gap(
                    c,
                    zone_fields(effective_zone(tz_str@), from_utc.secs + 1),
                    #[trigger] zone_fields(effective_zone(tz_str@), d),
                )),
            effective_zone(tz_str@) == utc_zone() ==> (r matches Ok(t) ==> utc_clock(
                t.secs as int,
                zone_fields(effective_zone(tz_str@), t.secs as int),
            )),
            effective_zone(tz_str@) == utc_zone() ==> (cron_parse_spec(normalize_spec(cron_expr@)) matches Some(c)
                ==> match r {
                Ok(t) => no_run_in(c, from_utc.secs + 1, t.secs as int) && t.nanos == (if t.secs
                    == from_utc.secs + 1 {
                    from_utc.nanos
                } else {
                    0
                }),
                Err(_) => no_run_in(c, from_utc.secs + 1, from_utc.secs + 1 + SEARCH_SPAN_SECS),
            }),
    {
        let expr = normalize_to_six(cron_expr);
        let spec = match CronSpec::parse(expr.as_str()) {
            Ok(spec) => spec,
            Err(_) => return Err(CronError::InvalidExpression(cron_expr.to_owned())),
        };
        proof {
            lemma_cron_ranges(normalize_spec(cron_expr@));
        }
        let zone: &str = if zone_is_known(tz_str) {
            tz_str
        } else {
            "UTC"
        };
        proof {
            reveal_strlit("UTC");
            assert("UTC"@ =~= utc_zone());
        }
        assert(zone@ == effective_zone(tz_str@));
        let r = search(&spec, zone, from_utc);
        proof {
            if let Ok(t) = r {
                lemma_earliest_on_wall_clock(spec.view(), zone@, from_utc.secs as int, t.secs as int);
            }
        }
        r
    }
}

} // verus!
