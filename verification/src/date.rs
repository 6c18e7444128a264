//! Decoding of the spreadsheet date representation: a day count since the
//! legacy epoch 1899-12-30 (which deliberately keeps the historical
//! off-by-one of that format for dates after February 1900), plus a number
//! of seconds within the day.
use vstd::prelude::*;
use vstd::arithmetic::div_mod::{
    lemma_fundamental_div_mod, lemma_fundamental_div_mod_converse, lemma_mod_multiples_vanish,
};

verus! {

/// Proleptic Gregorian leap-year rule.
pub open spec fn is_leap_year(y: int) -> bool {
    (y % 4 == 0 && y % 100 != 0) || y % 400 == 0
}

pub open spec fn days_in_year(y: int) -> int {
    if is_leap_year(y) {
        366
    } else {
        365
    }
}

/// Number of leap years among the years 1, 2, ..., y - 1.
pub open spec fn leap_years_before(y: int) -> int {
    (y - 1) / 4 - (y - 1) / 100 + (y - 1) / 400
}

/// Number of days in the years 1, 2, ..., y - 1.
pub open spec fn days_before_year(y: int) -> int {
    (y - 1) * 365 + leap_years_before(y)
}

/// Number of days of year `y` that lie before the first day of month `m`.
pub open spec fn days_before_month(y: int, m: int) -> int {
    let common: int = if m == 1 {
        0
    } else if m == 2 {
        31
    } else if m == 3 {
        59
    } else if m == 4 {
        90
    } else if m == 5 {
        120
    } else if m == 6 {
        151
    } else if m == 7 {
        181
    } else if m == 8 {
        212
    } else if m == 9 {
        243
    } else if m == 10 {
        273
    } else if m == 11 {
        304
    } else {
        334
    };
    common + if m >= 3 && is_leap_year(y) {
        1int
    } else {
        0int
    }
}

pub open spec fn days_in_month(y: int, m: int) -> int {
    if m == 2 {
        if is_leap_year(y) {
            29
        } else {
            28
        }
    } else if m == 4 || m == 6 || m == 9 || m == 11 {
        30
    } else {
        31
    }
}

/// Absolute day number of a calendar date: 0001-01-01 is day 1.
pub open spec fn absolute_day(y: int, m: int, d: int) -> int {
    days_before_year(y) + days_before_month(y, m) + d
}

pub open spec fn valid_ymd(y: int, m: int, d: int) -> bool {
    1 <= y && 1 <= m <= 12 && 1 <= d <= days_in_month(y, m)
}

/// Absolute day number of the epoch 1899-12-30.
pub open spec fn epoch_absolute_day() -> int {
    absolute_day(1899, 12, 30)
}

/// Largest supported day count: the distance from the epoch to 9999-12-31,
/// the last date the four-digit year format can carry.
pub const MAX_DAY_COUNT: u32 = 2958465;

/// For positive `x` and `d`, dividing `x` rounds one step up from dividing
/// `x - 1` exactly when `d` divides `x`.
proof fn lemma_div_step(x: int, d: int)
    requires
        x >= 1,
        d >= 1,
    ensures
        x / d == (x - 1) / d + if x % d == 0 { 1int } else { 0int },
        (x % d == 0) <==> ((x - 1) % d == d - 1),
{
    let q = (x - 1) / d;
    let r = (x - 1) % d;
    lemma_fundamental_div_mod(x - 1, d);
    if r + 1 < d {
        lemma_fundamental_div_mod_converse(x, d, q, r + 1);
    } else {
        assert((q + 1) * d == q * d + d) by (nonlinear_arith);
        lemma_fundamental_div_mod_converse(x, d, q + 1, 0);
    }
}

/// Stepping the year-prefix sum: the days before year y + 1 are the days
/// before year y plus the length of year y.
pub proof fn lemma_days_before_year_step(y: int)
    requires
        y >= 1,
    ensures
        days_before_year(y + 1) == days_before_year(y) + days_in_year(y),
{
    lemma_div_step(y, 4);
    lemma_div_step(y, 100);
    lemma_div_step(y, 400);
}

/// Stepping the month-prefix sum within one year.
pub proof fn lemma_days_before_month_step(y: int, m: int)
    requires
        1 <= m <= 11,
    ensures
        days_before_month(y, m + 1) == days_before_month(y, m) + days_in_month(y, m),
{
}

/// A full year is its twelve months.
pub proof fn lemma_year_is_months(y: int)
    ensures
        days_in_year(y) == days_before_month(y, 12) + days_in_month(y, 12),
{
}

/// The year search: starting from year `y`, whose first day has absolute
/// day number `acc + 1`, find the year containing absolute day `target`
/// together with the days before it.
pub open spec fn find_year(y: int, acc: int, target: int) -> (int, int)
    decreases target - acc,
{
    if acc + days_in_year(y) < target {
        find_year(y + 1, acc + days_in_year(y), target)
    } else {
        (y, acc)
    }
}

/// The month search: `rem` days remain, counting from the first day of
/// month `m` of year `y`; find the month containing the last of them.
pub open spec fn find_month(y: int, m: int, rem: int) -> (int, int)
    decreases 12 - m,
{
    if 1 <= m <= 11 && rem > days_in_month(y, m) {
        find_month(y, m + 1, rem - days_in_month(y, m))
    } else {
        (m, rem)
    }
}

/// The calendar date reached `days` days after the epoch 1899-12-30.
pub open spec fn civil_from_days(days: int) -> (int, int, int) {
    let target = epoch_absolute_day() + days;
    let (y, acc) = find_year(1899, days_before_year(1899), target);
    let (m, d) = find_month(y, 1, target - acc);
    (y, m, d)
}

/// What the year search returns: the year containing the target absolute
/// day, together with the days before that year.
pub proof fn lemma_find_year_props(y: int, acc: int, target: int)
    requires
        1 <= y <= 9999,
        acc == days_before_year(y),
        acc < target <= days_before_year(10000),
    ensures
        ({
            let (ry, racc) = find_year(y, acc, target);
            &&& y <= ry <= 9999
            &&& racc == days_before_year(ry)
            &&& racc < target <= racc + days_in_year(ry)
        }),
    decreases target - acc,
{
    if acc + days_in_year(y) < target {
        lemma_days_before_year_step(y);
        if y == 9999 {
            assert(false);
        }
        lemma_find_year_props(y + 1, acc + days_in_year(y), target);
    }
}

/// What the month search returns: a valid month and day position for the
/// remaining days.
pub proof fn lemma_find_month_props(y: int, m: int, rem: int)
    requires
        1 <= m <= 12,
        1 <= rem,
        rem + days_before_month(y, m) <= days_in_year(y),
    ensures
        ({
            let (rm, rd) = find_month(y, m, rem);
            &&& 1 <= rm <= 12
            &&& 1 <= rd <= days_in_month(y, rm)
            &&& days_before_month(y, rm) + rd == days_before_month(y, m) + rem
        }),
    decreases 12 - m,
{
    if 1 <= m <= 11 && rem > days_in_month(y, m) {
        lemma_days_before_month_step(y, m);
        lemma_find_month_props(y, m + 1, rem - days_in_month(y, m));
    } else {
        if m == 12 {
            lemma_year_is_months(y);
        }
    }
}

/// Correctness of the date decoding: for every supported day count, the
/// decoded triple is a valid calendar date, lies in the four-digit-year
/// range, and sits exactly `days` days after the epoch 1899-12-30.
pub proof fn lemma_civil_from_days_props(days: int)
    requires
        0 <= days <= MAX_DAY_COUNT,
    ensures
        ({
            let (y, m, d) = civil_from_days(days);
            &&& valid_ymd(y, m, d)
            &&& 1899 <= y <= 9999
            &&& absolute_day(y, m, d) == epoch_absolute_day() + days
        }),
{
    let target = epoch_absolute_day() + days;
    assert(days_before_year(1899) == 693230);
    assert(target <= days_before_year(10000));
    lemma_find_year_props(1899, days_before_year(1899), target);
    let (y, acc) = find_year(1899, days_before_year(1899), target);
    lemma_find_month_props(y, 1, target - acc);
}

/// The worked examples of the decoding: day count zero is the epoch
/// itself, and day count 45 lands exactly 45 days later, on 1900-02-13;
/// 43200 seconds within a day read as 12:00:00.
pub proof fn lemma_date_decode_examples()
    ensures
        civil_from_days(0) == (1899int, 12int, 30int),
        civil_from_days(45) == (1900int, 2int, 13int),
        hour_of(0) == 0 && minute_of(0) == 0 && second_of(0) == 0,
        hour_of(43200) == 12 && minute_of(43200) == 0 && second_of(43200) == 0,
{
    reveal_with_fuel(find_year, 3);
    reveal_with_fuel(find_month, 13);
}

pub open spec fn hour_of(secs: int) -> int {
    secs / 3600
}

pub open spec fn minute_of(secs: int) -> int {
    (secs % 3600) / 60
}

pub open spec fn second_of(secs: int) -> int {
    secs % 60
}

/// The three time-of-day components recover the seconds exactly, and each
/// stays in its range.
pub proof fn lemma_time_of_day(secs: int)
    requires
        0 <= secs < 86400,
    ensures
        hour_of(secs) * 3600 + minute_of(secs) * 60 + second_of(secs) == secs,
        0 <= hour_of(secs) < 24,
        0 <= minute_of(secs) < 60,
        0 <= second_of(secs) < 60,
{
    let b = secs % 3600;
    lemma_fundamental_div_mod(secs, 3600);
    lemma_fundamental_div_mod(b, 60);
    lemma_mod_multiples_vanish(60 * hour_of(secs), b, 60);
    assert(3600 * hour_of(secs) == 60 * (60 * hour_of(secs))) by (nonlinear_arith);
    assert(secs % 60 == (60 * (60 * hour_of(secs)) + b) % 60);
}

/// Within one year, an earlier month begins no later.
proof fn lemma_days_before_month_mono(y: int, a: int, b: int)
    requires
        1 <= a <= b <= 12,
    ensures
        days_before_month(y, a) <= days_before_month(y, b),
{
}

/// The day-of-year position of a valid date lies within the year.
proof fn lemma_day_position_in_year(y: int, m: int, d: int)
    requires
        valid_ymd(y, m, d),
    ensures
        1 <= days_before_month(y, m) + d <= days_in_year(y),
{
    lemma_days_before_month_mono(y, m, 12);
    lemma_year_is_months(y);
    if m < 12 {
        lemma_days_before_month_step(y, m);
        lemma_days_before_month_mono(y, m + 1, 12);
    }
}

/// An earlier year ends no later than a later year begins.
proof fn lemma_days_before_year_mono(a: int, b: int)
    requires
        1 <= a < b,
    ensures
        days_before_year(a) + days_in_year(a) <= days_before_year(b),
    decreases b - a,
{
    lemma_days_before_year_step(a);
    if a + 1 < b {
        lemma_days_before_year_mono(a + 1, b);
    }
}

/// No two valid calendar dates share an absolute day number.
pub proof fn lemma_absolute_day_injective(y1: int, m1: int, d1: int, y2: int, m2: int, d2: int)
    requires
        valid_ymd(y1, m1, d1),
        valid_ymd(y2, m2, d2),
        absolute_day(y1, m1, d1) == absolute_day(y2, m2, d2),
    ensures
        y1 == y2 && m1 == m2 && d1 == d2,
{
    lemma_day_position_in_year(y1, m1, d1);
    lemma_day_position_in_year(y2, m2, d2);
    if y1 < y2 {
        lemma_days_before_year_mono(y1, y2);
    }
    if y2 < y1 {
        lemma_days_before_year_mono(y2, y1);
    }
    if m1 < m2 {
        lemma_days_before_month_step(y1, m1);
        lemma_days_before_month_mono(y1, m1 + 1, m2);
    }
    if m2 < m1 {
        lemma_days_before_month_step(y1, m2);
        lemma_days_before_month_mono(y1, m2 + 1, m1);
    }
}

/// The decoded date is the only valid calendar date that lies exactly
/// `days` days after the epoch.
pub proof fn lemma_decode_unique(days: int, y: int, m: int, d: int)
    requires
        0 <= days <= MAX_DAY_COUNT,
        valid_ymd(y, m, d),
        absolute_day(y, m, d) == epoch_absolute_day() + days,
    ensures
        (y, m, d) == civil_from_days(days),
{
    lemma_civil_from_days_props(days);
    let (cy, cm, cd) = civil_from_days(days);
    lemma_absolute_day_injective(y, m, d, cy, cm, cd);
}

/// A calendar date-time with second granularity.
pub struct DateTime {
    pub year: u32,
    pub month: u32,
    pub day: u32,
    pub hour: u32,
    pub minute: u32,
    pub second: u32,
}

impl DateTime {
    pub open spec fn wf(self) -> bool {
        &&& valid_ymd(self.year as int, self.month as int, self.day as int)
        &&& self.year <= 9999
        &&& self.hour < 24
        &&& self.minute < 60
        &&& self.second < 60
    }
}

fn days_in_year_exec(y: u32) -> (r: u32)
    ensures
        r == days_in_year(y as int),
{
    if (y % 4 == 0 && y % 100 != 0) || y % 400 == 0 {
        366
    } else {
        365
    }
}

fn days_in_month_exec(y: u32, m: u32) -> (r: u32)
    ensures
        r == days_in_month(y as int, m as int),
{
    if m == 2 {
        if (y % 4 == 0 && y % 100 != 0) || y % 400 == 0 {
            29
        } else {
            28
        }
    } else if m == 4 || m == 6 || m == 9 || m == 11 {
        30
    } else {
        31
    }
}

/// Decode a day count since the epoch 1899-12-30 and a number of seconds
/// within the day into a calendar date-time. The result is the unique
/// valid calendar date whose absolute day number lies `days` after the
/// epoch, with the time of day read off the seconds.
pub fn decode_date_time(days: u32, secs: u32) -> (r: DateTime)
    requires
        days <= MAX_DAY_COUNT,
        secs < 86400,
    ensures
        r.wf(),
        (r.year as int, r.month as int, r.day as int) == civil_from_days(days as int),
        absolute_day(r.year as int, r.month as int, r.day as int) == epoch_absolute_day()
            + days,
        r.hour == hour_of(secs as int),
        r.minute == minute_of(secs as int),
        r.second == second_of(secs as int),
        r.hour * 3600 + r.minute * 60 + r.second == secs,
{
    proof {
        lemma_time_of_day(secs as int);
    }
    let ghost target: int = epoch_absolute_day() + days;
    let mut y: u32 = 1899;
    let mut acc: u32 = 693230;
    assert(acc == days_before_year(1899));
    assert(target <= days_before_year(10000));
    let target_x: u32 = 693594 + days;
    assert(target_x == target);
    while target_x > acc + days_in_year_exec(y)
        invariant
            1899 <= y <= 9999,
            acc == days_before_year(y as int),
            acc < target,
            target == target_x,
            target <= days_before_year(10000),
            days <= MAX_DAY_COUNT,
            target == epoch_absolute_day() + days,
            find_year(1899, days_before_year(1899), target) == find_year(
                y as int,
                acc as int,
                target,
            ),
        decreases target - acc,
    {
        proof {
            lemma_days_before_year_step(y as int);
            if y == 9999 {
                assert(false);
            }
        }
        acc = acc + days_in_year_exec(y);
        y = y + 1;
    }
    proof {
        assert(find_year(y as int, acc as int, target) == (y as int, acc as int));
    }
    let mut rem: u32 = target_x - acc;
    let ghost rem0: int = rem as int;
    let mut m: u32 = 1;
    assert(rem + days_before_month(y as int, 1) <= days_in_year(y as int));
    while rem > days_in_month_exec(y, m)
        invariant
            1 <= m <= 12,
            1 <= rem,
            rem + days_before_month(y as int, m as int) <= days_in_year(y as int),
            rem == rem0 - days_before_month(y as int, m as int),
            find_month(y as int, 1, rem0) == find_month(y as int, m as int, rem as int),
        decreases 12 - m,
    {
        proof {
            if m == 12 {
                lemma_year_is_months(y as int);
                assert(false);
            }
            lemma_days_before_month_step(y as int, m as int);
        }
        rem = rem - days_in_month_exec(y, m);
        m = m + 1;
    }
    proof {
        assert(find_month(y as int, m as int, rem as int) == (m as int, rem as int));
    }
    let hour: u32 = secs / 3600;
    let minute: u32 = (secs % 3600) / 60;
    let second: u32 = secs % 60;
    DateTime { year: y, month: m, day: rem, hour, minute, second }
}

} // verus!
