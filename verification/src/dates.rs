//! Proleptic Gregorian calendar dates, day numbering, and weekdays.

use vstd::prelude::*;
use vstd::arithmetic::div_mod::lemma_fundamental_div_mod;
use vstd::arithmetic::div_mod::lemma_fundamental_div_mod_converse;

verus! {

/// A calendar date. Supported years run from 1 through 9999, which keeps
/// every date printable as four digits; dates past 9999-12-31 are out of
/// the representable range.
#[derive(Debug, Clone, Copy, PartialEq, Eq, Structural)]
pub struct Date {
    pub year: u16,
    pub month: u8,
    pub day: u8,
}

/// The Gregorian leap-year rule.
pub open spec fn is_leap_year(y: int) -> bool {
    (y % 4 == 0 && y % 100 != 0) || y % 400 == 0
}

/// How many days a month holds.
pub open spec fn days_in_month(y: int, m: int) -> int {
    if m == 2 {
        if is_leap_year(y) {
            29
        } else {
            28
        }
    } else if m == 4 || m == 6 || m == 9 || m == 11 {
        30
    } else {
        31
    }
}

/// A date is well formed when its parts name a real calendar day in a
/// supported year.
pub open spec fn date_wf(d: Date) -> bool {
    &&& 1 <= d.year <= 9999
    &&& 1 <= d.month <= 12
    &&& 1 <= d.day <= days_in_month(d.year as int, d.month as int)
}

/// Days in the months of year `y` that precede month `m`.
pub open spec fn days_before_month(y: int, m: int) -> int {
    let base = if m == 1 {
        0int
    } else if m == 2 {
        31
    } else if m == 3 {
        59
    } else if m == 4 {
        90
    } else if m == 5 {
        120
    } else if m == 6 {
        151
    } else if m == 7 {
        181
    } else if m == 8 {
        212
    } else if m == 9 {
        243
    } else if m == 10 {
        273
    } else if m == 11 {
        304
    } else {
        334
    };
    if m >= 3 && is_leap_year(y) {
        base + 1
    } else {
        base
    }
}

/// Days in the years that precede year `y`: January 1 of year 1 is day 0.
pub open spec fn days_before_year(y: int) -> int {
    365 * (y - 1) + (y - 1) / 4 - (y - 1) / 100 + (y - 1) / 400
}

/// The rank of a date among all days of the calendar, counted from
/// January 1 of year 1 as day 0.
pub open spec fn day_number(d: Date) -> int {
    days_before_year(d.year as int) + days_before_month(d.year as int, d.month as int) + d.day - 1
}

/// The weekday of a day number, 0 Sunday through 6 Saturday. Day 0
/// (January 1 of year 1) is a Monday.
pub open spec fn weekday_of_day_number(n: int) -> int {
    (n + 1) % 7
}

/// The weekday a date falls on.
pub open spec fn date_weekday(d: Date) -> int {
    weekday_of_day_number(day_number(d))
}

/// The last representable date.
pub open spec fn is_max_date(d: Date) -> bool {
    d.year == 9999 && d.month == 12 && d.day == 31
}

/// The day number of the last representable date.
pub open spec fn max_day_number() -> int {
    day_number(Date { year: 9999, month: 12, day: 31 })
}

/// The calendar day after a date: the next day of the month, or the first
/// day of the next month or year at a boundary.
pub open spec fn spec_succ(d: Date) -> Date {
    if d.day < days_in_month(d.year as int, d.month as int) {
        Date { year: d.year, month: d.month, day: (d.day + 1) as u8 }
    } else if d.month < 12 {
        Date { year: d.year, month: (d.month + 1) as u8, day: 1 }
    } else {
        Date { year: (d.year + 1) as u16, month: 1, day: 1 }
    }
}

/// The date a number of days after a date, successor by successor.
pub open spec fn spec_plus_days(d: Date, n: nat) -> Date
    decreases n,
{
    if n == 0 {
        d
    } else {
        spec_succ(spec_plus_days(d, (n - 1) as nat))
    }
}

/// Stepping a positive number past a multiple of `k` raises its quotient
/// by exactly one, and past anything else not at all.
proof fn lemma_div_step(x: int, k: int)
    requires
        x >= 1,
        k >= 1,
    ensures
        x / k - (x - 1) / k == if x % k == 0 {
            1int
        } else {
            0int
        },
{
    let q = (x - 1) / k;
    let r = (x - 1) % k;
    lemma_fundamental_div_mod(x - 1, k);
    if r + 1 == k {
        assert(x == (q + 1) * k) by (nonlinear_arith)
            requires
                x - 1 == k * q + r,
                r + 1 == k,
        ;
        lemma_fundamental_div_mod_converse(x, k, q + 1, 0);
    } else {
        assert(x == q * k + (r + 1)) by (nonlinear_arith)
            requires
                x - 1 == k * q + r,
        ;
        lemma_fundamental_div_mod_converse(x, k, q, r + 1);
    }
}

/// A multiple of 400 is a multiple of 100, and one of 100 a multiple of 4.
proof fn lemma_mod_chain(y: int)
    requires
        y >= 1,
    ensures
        y % 400 == 0 ==> y % 100 == 0,
        y % 100 == 0 ==> y % 4 == 0,
{
    if y % 400 == 0 {
        lemma_fundamental_div_mod(y, 400);
        assert(y == 100 * (4 * (y / 400))) by (nonlinear_arith)
            requires
                y == 400 * (y / 400),
        ;
        lemma_fundamental_div_mod_converse(y, 100, 4 * (y / 400), 0);
    }
    if y % 100 == 0 {
        lemma_fundamental_div_mod(y, 100);
        assert(y == 4 * (25 * (y / 100))) by (nonlinear_arith)
            requires
                y == 100 * (y / 100),
        ;
        lemma_fundamental_div_mod_converse(y, 4, 25 * (y / 100), 0);
    }
}

/// Crossing from December 31 into the new year adds exactly the length of
/// the old year to the running day count.
proof fn lemma_days_before_year_step(y: int)
    requires
        y >= 1,
    ensures
        days_before_year(y + 1) == days_before_year(y) + 365 + if is_leap_year(y) {
            1int
        } else {
            0int
        },
{
    lemma_div_step(y, 4);
    lemma_div_step(y, 100);
    lemma_div_step(y, 400);
    lemma_mod_chain(y);
}

/// The successor of a well-formed date below the maximum is well formed
/// and sits exactly one day later.
pub proof fn lemma_succ_day_number(d: Date)
    requires
        date_wf(d),
        !is_max_date(d),
    ensures
        date_wf(spec_succ(d)),
        day_number(spec_succ(d)) == day_number(d) + 1,
{
    if d.day < days_in_month(d.year as int, d.month as int) {
    } else if d.month < 12 {
    } else {
        lemma_days_before_year_step(d.year as int);
    }
}

/// Day numbers grow with the year.
proof fn lemma_days_before_year_monotone(y1: int, y2: int)
    requires
        1 <= y1 <= y2,
    ensures
        days_before_year(y1) <= days_before_year(y2),
    decreases y2 - y1,
{
    if y1 < y2 {
        lemma_days_before_year_monotone(y1, y2 - 1);
        lemma_days_before_year_step(y2 - 1);
    }
}

/// No well-formed date sits past the last representable day number.
pub proof fn lemma_day_number_le_max(d: Date)
    requires
        date_wf(d),
    ensures
        day_number(d) <= max_day_number(),
{
    let y = d.year as int;
    assert(days_before_month(y, d.month as int) + d.day - 1 <= 364 + if is_leap_year(y) {
        1int
    } else {
        0int
    });
    if y == 9999 {
        assert(9999int % 4 == 3);
        assert(!is_leap_year(9999));
    } else {
        lemma_days_before_year_step(y);
        lemma_days_before_year_monotone(y + 1, 9999);
    }
}

/// Whether a year is a Gregorian leap year.
pub fn is_leap(y: u16) -> (r: bool)
    ensures
        r == is_leap_year(y as int),
{
    (y % 4 == 0 && y % 100 != 0) || y % 400 == 0
}

/// How many days a month of a given year holds.
pub fn month_len(y: u16, m: u8) -> (r: u8)
    ensures
        r as int == days_in_month(y as int, m as int),
{
    if m == 2 {
        if is_leap(y) {
            29
        } else {
            28
        }
    } else if m == 4 || m == 6 || m == 9 || m == 11 {
        30
    } else {
        31
    }
}

/// The weekday a well-formed date falls on, 0 Sunday through 6 Saturday.
pub fn weekday(d: &Date) -> (w: u8)
    requires
        date_wf(*d),
    ensures
        w as int == date_weekday(*d),
        w < 7,
{
    let y: u64 = d.year as u64;
    let a: u64 = y - 1;
    let before_years: u64 = 365 * a + a / 4 - a / 100 + a / 400;
    proof {
        assert(a / 100 <= 365 * a + a / 4) by (nonlinear_arith)
            requires
                a >= 0,
        ;
    }
    let before_months: u64 = match d.month {
        1 => 0,
        2 => 31,
        3 => 59,
        4 => 90,
        5 => 120,
        6 => 151,
        7 => 181,
        8 => 212,
        9 => 243,
        10 => 273,
        11 => 304,
        _ => 334,
    };
    let leap_shift: u64 = if d.month >= 3 && is_leap(d.year) {
        1
    } else {
        0
    };
    let n: u64 = before_years + before_months + leap_shift + (d.day - 1) as u64;
    ((n + 1) % 7) as u8
}

/// The calendar day after a date, or nothing past the supported range.
pub fn next_day(d: &Date) -> (r: Option<Date>)
    requires
        date_wf(*d),
    ensures
        r is None <==> is_max_date(*d),
        r is Some ==> r->Some_0 == spec_succ(*d) && date_wf(r->Some_0) && day_number(r->Some_0)
            == day_number(*d) + 1,
{
    let dim = month_len(d.year, d.month);
    if d.day < dim {
        proof {
            lemma_succ_day_number(*d);
        }
        Some(Date { year: d.year, month: d.month, day: d.day + 1 })
    } else if d.month < 12 {
        proof {
            lemma_succ_day_number(*d);
        }
        Some(Date { year: d.year, month: d.month + 1, day: 1 })
    } else if d.year < 9999 {
        proof {
            lemma_succ_day_number(*d);
        }
        Some(Date { year: d.year + 1, month: 1, day: 1 })
    } else {
        None
    }
}

/// Walks a handful of days forward, or reports that the supported range
/// ends first.
pub fn add_days(d: &Date, n: u8) -> (r: Option<Date>)
    requires
        date_wf(*d),
    ensures
        r is Some <==> day_number(*d) + n <= max_day_number(),
        r is Some ==> date_wf(r->Some_0) && day_number(r->Some_0) == day_number(*d) + n
            && r->Some_0 == spec_plus_days(*d, n as nat),
{
    let mut cur: Date = *d;
    let mut i: u8 = 0;
    while i < n
        invariant
            i <= n,
            date_wf(cur),
            day_number(cur) == day_number(*d) + i,
            cur == spec_plus_days(*d, i as nat),
        decreases n - i,
    {
        match next_day(&cur) {
            Some(next) => {
                cur = next;
            },
            None => {
                proof {
                    assert(cur == Date { year: 9999u16, month: 12u8, day: 31u8 });
                }
                return None;
            },
        }
        i += 1;
    }
    proof {
        lemma_day_number_le_max(cur);
    }
    Some(cur)
}

/// How many days lie between a weekday and the next target weekday, zero
/// when they already agree.
pub open spec fn target_offset(w: int, t: int) -> int {
    (7 + t - w) % 7
}

/// The first date on or after a start date that falls on a target weekday.
pub open spec fn projected_first(start: Date, day: int) -> Date {
    spec_plus_days(start, target_offset(date_weekday(start), day) as nat)
}

/// Whether a weekday index can be projected from a start date: it names a
/// real weekday and its first occurrence stays in the supported range.
pub open spec fn period_projectable(start: Date, day: int) -> bool {
    0 <= day <= 6 && day_number(start) + target_offset(date_weekday(start), day)
        <= max_day_number()
}

/// The projection offset lands on the target weekday: it is below seven,
/// it is zero exactly when the start already matches, and walking it from
/// any day number with the given weekday reaches the target weekday.
pub proof fn lemma_target_offset(n: int, t: int)
    requires
        0 <= t < 7,
    ensures
        0 <= target_offset(weekday_of_day_number(n), t) < 7,
        weekday_of_day_number(n + target_offset(weekday_of_day_number(n), t)) == t,
        target_offset(weekday_of_day_number(n), t) == 0 <==> weekday_of_day_number(n) == t,
{
    lemma_fundamental_div_mod(n + 1, 7);
    let q = (n + 1) / 7;
    let w = (n + 1) % 7;
    assert(0 <= w < 7);
    let u = 7 + t - w;
    assert(1 <= u <= 13);
    let off = if u < 7 {
        u
    } else {
        u - 7
    };
    if u < 7 {
        lemma_fundamental_div_mod_converse(u, 7, 0, u);
    } else {
        lemma_fundamental_div_mod_converse(u, 7, 1, u - 7);
    }
    assert(target_offset(w, t) == off);
    let m = n + off + 1;
    if u < 7 {
        assert(m == (q + 1) * 7 + t) by (nonlinear_arith)
            requires
                n + 1 == 7 * q + w,
                m == n + (7 + t - w) + 1,
        ;
        lemma_fundamental_div_mod_converse(m, 7, q + 1, t);
    } else {
        assert(m == q * 7 + t) by (nonlinear_arith)
            requires
                n + 1 == 7 * q + w,
                m == n + (t - w) + 1,
        ;
        lemma_fundamental_div_mod_converse(m, 7, q, t);
    }
}

/// Projecting a start date onto its own weekday returns the start date
/// itself, and any weekday's first occurrence lies at most six days after
/// the start.
pub proof fn lemma_occurrence_correct(start: Date, target: int)
    requires
        date_wf(start),
        0 <= target < 7,
    ensures
        target_offset(date_weekday(start), target) <= 6,
        date_weekday(start) == target ==> projected_first(start, target) == start,
{
    lemma_target_offset(day_number(start), target);
}

/// No day strictly between a start and its projected first occurrence
/// falls on the target weekday: the projection is the earliest match.
pub proof fn lemma_projection_earliest(n: int, t: int, k: int)
    requires
        0 <= t < 7,
        0 <= k < target_offset(weekday_of_day_number(n), t),
    ensures
        weekday_of_day_number(n + k) != t,
{
    lemma_fundamental_div_mod(n + 1, 7);
    let q = (n + 1) / 7;
    let w = (n + 1) % 7;
    let u = 7 + t - w;
    if u < 7 {
        lemma_fundamental_div_mod_converse(u, 7, 0, u);
    } else {
        lemma_fundamental_div_mod_converse(u, 7, 1, u - 7);
    }
    let off = target_offset(w, t);
    assert(0 <= k < off < 7);
    if w + k < 7 {
        assert(n + k + 1 == q * 7 + (w + k)) by (nonlinear_arith)
            requires
                n + 1 == 7 * q + w,
        ;
        lemma_fundamental_div_mod_converse(n + k + 1, 7, q, w + k);
    } else {
        assert(n + k + 1 == (q + 1) * 7 + (w + k - 7)) by (nonlinear_arith)
            requires
                n + 1 == 7 * q + w,
        ;
        lemma_fundamental_div_mod_converse(n + k + 1, 7, q + 1, w + k - 7);
    }
}

} // verus!
