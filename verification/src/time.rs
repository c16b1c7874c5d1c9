//! Timestamps and the civil (proleptic Gregorian) calendar.
//!
//! A [`Timestamp`] is a moment in UTC held as whole seconds since the Unix
//! epoch plus nanoseconds within the second.  The store covers the years
//! 1970 through 9999, so every timestamp the library handles renders as a
//! fixed-width calendar date.  The calendar arithmetic that links a day
//! count to a year/month/day triple is written and proved here; only the
//! reading of the machine clock is trusted.

use vstd::prelude::*;
use crate::text::{digit_seq_val, is_dec_digit};

verus! {

/// Seconds in one civil day.
pub const SECS_PER_DAY: i64 = 86400;

/// Days from 1970-01-01 up to (not including) 10000-01-01.
pub const MAX_DAYS: i64 = 2932897;

/// Seconds from the epoch up to (not including) 10000-01-01T00:00:00Z.
pub const MAX_SECS: i64 = 253402300800;

pub const NANOS_PER_SEC: u32 = 1000000000;

/// A moment in UTC: whole seconds since 1970-01-01T00:00:00Z and the
/// nanoseconds within that second.
#[derive(Clone, Copy, PartialEq, Eq, Structural, Debug)]
pub struct Timestamp {
    pub secs: i64,
    pub nanos: u32,
}

impl Timestamp {
    /// A timestamp the library stores: between the epoch and the end of the
    /// year 9999, with a normalized sub-second part.
    pub open spec fn wf(self) -> bool {
        &&& 0 <= self.secs < MAX_SECS
        &&& self.nanos < NANOS_PER_SEC
    }

    pub open spec fn lt_spec(self, other: Timestamp) -> bool {
        self.secs < other.secs || (self.secs == other.secs && self.nanos < other.nanos)
    }

    pub open spec fn le_spec(self, other: Timestamp) -> bool {
        self.secs < other.secs || (self.secs == other.secs && self.nanos <= other.nanos)
    }

    /// Strict ordering of moments: earlier first.
    pub fn lt(&self, other: &Timestamp) -> (r: bool)
        ensures
            r == self.lt_spec(*other),
    {
        self.secs < other.secs || (self.secs == other.secs && self.nanos < other.nanos)
    }

    pub fn le(&self, other: &Timestamp) -> (r: bool)
        ensures
            r == self.le_spec(*other),
    {
        self.secs < other.secs || (self.secs == other.secs && self.nanos <= other.nanos)
    }

    pub open spec fn max_spec(self, other: Timestamp) -> Timestamp {
        if self.le_spec(other) {
            other
        } else {
            self
        }
    }

    /// The later of two moments.
    pub fn max_with(&self, other: &Timestamp) -> (r: Timestamp)
        ensures
            r == self.max_spec(*other),
    {
        if self.le(other) {
            *other
        } else {
            *self
        }
    }
}

/// Relies on `chrono::Utc::now`, `chrono::DateTime::timestamp` and
/// `chrono::DateTime::timestamp_subsec_nanos`: the current moment as whole
/// seconds since the Unix epoch and the nanoseconds within that second.  On
/// the targets this library is built for, `Utc::now` is derived from the
/// system clock's duration since the epoch, so the seconds are not negative
/// and the nanosecond part is below one billion.
#[verifier::external_body]
fn clock_now_raw() -> (r: (i64, u32))
    ensures
        0 <= r.0,
        r.1 < 1000000000,
{
    let t = chrono::Utc::now();
    (t.timestamp(), t.timestamp_subsec_nanos())
}

/// The current moment, clamped into the representable range (a clock reading
/// at or beyond the year 10000 becomes the last representable second).
pub fn now_timestamp() -> (r: Timestamp)
    ensures
        r.wf(),
{
    let (s, n) = clock_now_raw();
    let secs: i64 = if s >= MAX_SECS {
        MAX_SECS - 1
    } else {
        s
    };
    Timestamp { secs, nanos: n }
}

// ---------------------------------------------------------------------------
// The civil calendar
// ---------------------------------------------------------------------------

pub open spec fn is_leap_year(y: int) -> bool {
    y % 4 == 0 && (y % 100 != 0 || y % 400 == 0)
}

pub open spec fn days_in_year(y: int) -> int {
    if is_leap_year(y) {
        366
    } else {
        365
    }
}

pub open spec fn days_in_month(y: int, m: int) -> int {
    if m == 2 {
        if is_leap_year(y) {
            29
        } else {
            28
        }
    } else if m == 4 || m == 6 || m == 9 || m == 11 {
        30
    } else {
        31
    }
}

/// Days from 1970-01-01 to the first day of year `y`.
pub open spec fn days_before_year(y: int) -> int
    decreases y - 1970,
{
    if y <= 1970 {
        0
    } else {
        days_before_year(y - 1) + days_in_year(y - 1)
    }
}

/// Days from the first day of year `y` to the first day of its month `m`.
pub open spec fn days_before_month(y: int, m: int) -> int
    decreases m,
{
    if m <= 1 {
        0
    } else {
        days_before_month(y, m - 1) + days_in_month(y, m - 1)
    }
}

/// The day count (days since 1970-01-01) of the civil date `y-m-d`.
pub open spec fn day_number(y: int, m: int, d: int) -> int {
    days_before_year(y) + days_before_month(y, m) + (d - 1)
}

/// A civil date the store can hold.
pub open spec fn valid_ymd(y: int, m: int, d: int) -> bool {
    &&& 1970 <= y <= 9999
    &&& 1 <= m <= 12
    &&& 1 <= d <= days_in_month(y, m)
}

/// Leap years in `[1, y)`, by the usual inclusion-exclusion count.
pub open spec fn leaps_before(y: int) -> int {
    (y - 1) / 4 - (y - 1) / 100 + (y - 1) / 400
}

/// Crossing from `n - 1` to `n` moves `x / d` up by one exactly when `d`
/// divides `n`.
proof fn lemma_div_step(n: int, d: int)
    requires
        n >= 1,
        d >= 1,
    ensures
        n / d - (n - 1) / d == if n % d == 0 {
            1int
        } else {
            0int
        },
{
    let q = (n - 1) / d;
    let r = (n - 1) % d;
    vstd::arithmetic::div_mod::lemma_fundamental_div_mod(n - 1, d);
    vstd::arithmetic::div_mod::lemma_mod_bound(n - 1, d);
    if r == d - 1 {
        assert(n == (q + 1) * d + 0) by (nonlinear_arith)
            requires
                n - 1 == d * q + r,
                r == d - 1,
        ;
        vstd::arithmetic::div_mod::lemma_fundamental_div_mod_converse(n, d, q + 1, 0);
    } else {
        assert(n == q * d + (r + 1)) by (nonlinear_arith)
            requires
                n - 1 == d * q + r,
        ;
        vstd::arithmetic::div_mod::lemma_fundamental_div_mod_converse(n, d, q, r + 1);
    }
}

/// If 400 divides `y` then 100 does, and if 100 divides `y` then 4 does.
proof fn lemma_divisor_chain(y: int)
    requires
        y >= 0,
    ensures
        y % 400 == 0 ==> y % 100 == 0,
        y % 100 == 0 ==> y % 4 == 0,
{
    if y % 400 == 0 {
        vstd::arithmetic::div_mod::lemma_fundamental_div_mod(y, 400);
        vstd::arithmetic::div_mod::lemma_fundamental_div_mod_converse(y, 100, 4 * (y / 400), 0);
    }
    if y % 100 == 0 {
        vstd::arithmetic::div_mod::lemma_fundamental_div_mod(y, 100);
        vstd::arithmetic::div_mod::lemma_fundamental_div_mod_converse(y, 4, 25 * (y / 100), 0);
    }
}

/// One year moves the leap count up by one exactly for leap years.
proof fn lemma_leaps_step(y: int)
    requires
        y >= 1,
    ensures
        leaps_before(y + 1) - leaps_before(y) == if is_leap_year(y) {
            1int
        } else {
            0int
        },
{
    lemma_div_step(y, 4);
    lemma_div_step(y, 100);
    lemma_div_step(y, 400);
    lemma_divisor_chain(y);
}

/// Closed form for the recursive day count before a year.
proof fn lemma_dby_closed(y: int)
    requires
        1970 <= y <= 10000,
    ensures
        days_before_year(y) == 365 * (y - 1970) + leaps_before(y) - leaps_before(1970),
    decreases y - 1970,
{
    if y > 1970 {
        lemma_dby_closed(y - 1);
        lemma_leaps_step(y - 1);
    }
}

/// The day count of 10000-01-01 is the `MAX_DAYS` constant.
pub proof fn lemma_dby_max()
    ensures
        days_before_year(10000) == MAX_DAYS,
{
    lemma_dby_closed(10000);
    assert(leaps_before(10000) == 9999int / 4 - 9999int / 100 + 9999int / 400);
    assert(leaps_before(1970) == 1969int / 4 - 1969int / 100 + 1969int / 400);
}

/// The day count before a year never decreases.
pub proof fn lemma_dby_mono(y1: int, y2: int)
    requires
        y1 <= y2,
    ensures
        days_before_year(y1) <= days_before_year(y2),
    decreases y2 - y1,
{
    if y1 < y2 {
        lemma_dby_mono(y1, y2 - 1);
        if y2 > 1970 {
            assert(days_in_year(y2 - 1) >= 365);
        }
    }
}

/// The months of a year fit inside the year's day count.
pub proof fn lemma_dbm_within(y: int, m: int)
    requires
        1 <= m <= 12,
    ensures
        days_before_month(y, m) + days_in_month(y, m) <= days_in_year(y),
        days_before_month(y, m) >= 0,
    decreases m,
{
    assert(days_before_month(y, m + 1) == days_before_month(y, m) + days_in_month(y, m));
    lemma_dbm_upto(y, m + 1, 13);
    if m > 1 {
        lemma_dbm_within(y, m - 1);
    }
}

/// Day counts before months never decrease toward the end of the year, and
/// the count before month 13 is the whole year.
proof fn lemma_dbm_upto(y: int, m1: int, m2: int)
    requires
        1 <= m1 <= m2 <= 13,
    ensures
        days_before_month(y, m1) <= days_before_month(y, m2),
        days_before_month(y, 13) == days_in_year(y),
    decreases m2 - m1,
{
    if m1 < m2 {
        lemma_dbm_upto(y, m1 + 1, m2);
    } else {
        lemma_dbm_upto_base(y, 13);
    }
}

proof fn lemma_dbm_upto_base(y: int, m: int)
    requires
        1 <= m <= 13,
    ensures
        days_before_month(y, 13) == days_in_year(y),
{
    reveal_with_fuel(days_before_month, 14);
}

/// A valid civil date has a day count inside the representable range.
pub proof fn lemma_day_number_bounds(y: int, m: int, d: int)
    requires
        valid_ymd(y, m, d),
    ensures
        0 <= day_number(y, m, d) < MAX_DAYS,
        days_before_year(y) <= day_number(y, m, d) < days_before_year(y) + days_in_year(y),
{
    lemma_dbm_within(y, m);
    lemma_dby_mono(1970, y);
    lemma_dby_mono(y + 1, 10000);
    lemma_dby_max();
    assert(days_before_year(y + 1) == days_before_year(y) + days_in_year(y));
}

// ---------------------------------------------------------------------------
// Decomposing a day count into a civil date
// ---------------------------------------------------------------------------

/// The year whose span contains the day count `days_before_year(y) + rem`,
/// found by walking years upward.
pub open spec fn year_seek(rem: int, y: int) -> int
    decreases 9999 - y when y <= 9999
{
    if y >= 9999 || rem < days_in_year(y) {
        y
    } else {
        year_seek(rem - days_in_year(y), y + 1)
    }
}

/// The month of year `y` whose span contains the day-of-year
/// `days_before_month(y, m) + rem`, found by walking months upward.
pub open spec fn month_seek(rem: int, y: int, m: int) -> int
    decreases 12 - m when m <= 12
{
    if m >= 12 || rem < days_in_month(y, m) {
        m
    } else {
        month_seek(rem - days_in_month(y, m), y, m + 1)
    }
}

pub open spec fn civil_year(days: int) -> int {
    year_seek(days, 1970)
}

pub open spec fn civil_month(days: int) -> int {
    month_seek(days - days_before_year(civil_year(days)), civil_year(days), 1)
}

pub open spec fn civil_day(days: int) -> int {
    days - days_before_year(civil_year(days)) - days_before_month(civil_year(days), civil_month(days)) + 1
}

proof fn lemma_year_seek(rem: int, y: int)
    requires
        1970 <= y <= 9999,
        0 <= rem,
        rem + days_before_year(y) < MAX_DAYS,
    ensures
        ({
            let yo = year_seek(rem, y);
            &&& 1970 <= yo <= 9999
            &&& days_before_year(yo) <= rem + days_before_year(y)
            &&& rem + days_before_year(y) < days_before_year(yo) + days_in_year(yo)
        }),
    decreases 9999 - y,
{
    lemma_dby_max();
    if y == 9999 {
        assert(days_before_year(10000) == days_before_year(9999) + days_in_year(9999));
    } else if rem < days_in_year(y) {
    } else {
        assert(days_before_year(y + 1) == days_before_year(y) + days_in_year(y));
        lemma_year_seek(rem - days_in_year(y), y + 1);
    }
}

proof fn lemma_month_seek(rem: int, y: int, m: int)
    requires
        1 <= m <= 12,
        0 <= rem,
        rem + days_before_month(y, m) < days_in_year(y),
    ensures
        ({
            let mo = month_seek(rem, y, m);
            &&& 1 <= mo <= 12
            &&& days_before_month(y, mo) <= rem + days_before_month(y, m)
            &&& rem + days_before_month(y, m) < days_before_month(y, mo) + days_in_month(y, mo)
        }),
    decreases 12 - m,
{
    if m == 12 {
        lemma_dbm_upto_base(y, 13);
        assert(days_before_month(y, 13) == days_before_month(y, 12) + days_in_month(y, 12));
    } else if rem < days_in_month(y, m) {
    } else {
        assert(days_before_month(y, m + 1) == days_before_month(y, m) + days_in_month(y, m));
        lemma_month_seek(rem - days_in_month(y, m), y, m + 1);
    }
}

/// The civil decomposition of a representable day count is a valid date with
/// that day count.
pub proof fn lemma_civil_correct(days: int)
    requires
        0 <= days < MAX_DAYS,
    ensures
        valid_ymd(civil_year(days), civil_month(days), civil_day(days)),
        day_number(civil_year(days), civil_month(days), civil_day(days)) == days,
{
    lemma_year_seek(days, 1970);
    let y = civil_year(days);
    let doy = days - days_before_year(y);
    lemma_month_seek(doy, y, 1);
}

/// How many days the given year has.
pub fn year_len(y: i64) -> (r: i64)
    ensures
        r == days_in_year(y as int),
{
    if y % 4 == 0 && (y % 100 != 0 || y % 400 == 0) {
        366
    } else {
        365
    }
}

/// How many days the given month of the given year has.
pub fn month_len(y: i64, m: i64) -> (r: i64)
    ensures
        r == days_in_month(y as int, m as int),
{
    let leap: bool = y % 4 == 0 && (y % 100 != 0 || y % 400 == 0);
    if m == 2 {
        if leap {
            29
        } else {
            28
        }
    } else if m == 4 || m == 6 || m == 9 || m == 11 {
        30
    } else {
        31
    }
}

/// The day count of a valid civil date.
pub fn days_from_civil(y: i64, m: i64, d: i64) -> (r: i64)
    requires
        valid_ymd(y as int, m as int, d as int),
    ensures
        r == day_number(y as int, m as int, d as int),
        0 <= r < MAX_DAYS,
{
    proof {
        lemma_day_number_bounds(y as int, m as int, d as int);
        lemma_dby_max();
    }
    let mut acc: i64 = 0;
    let mut yy: i64 = 1970;
    while yy < y
        invariant
            1970 <= yy <= y <= 9999,
            acc == days_before_year(yy as int),
            days_before_year(y as int) < MAX_DAYS,
        decreases y - yy,
    {
        proof {
            lemma_dby_mono(yy + 1, y as int);
        }
        acc = acc + year_len(yy);
        yy = yy + 1;
    }
    proof {
        lemma_dby_mono(y as int + 1, 10000);
        lemma_dby_max();
        assert(days_before_year(y as int + 1)
            == days_before_year(y as int) + days_in_year(y as int));
    }
    let mut mm: i64 = 1;
    while mm < m
        invariant
            1 <= mm <= m <= 12,
            1970 <= y <= 9999,
            acc == days_before_year(y as int) + days_before_month(y as int, mm as int),
            days_before_year(y as int) + days_in_year(y as int) <= MAX_DAYS,
        decreases m - mm,
    {
        proof {
            lemma_dbm_upto(y as int, mm + 1, 13);
            lemma_dbm_within(y as int, mm as int);
        }
        acc = acc + month_len(y, mm);
        mm = mm + 1;
    }
    proof {
        lemma_dbm_within(y as int, m as int);
    }
    acc + (d - 1)
}

/// The civil date of a representable day count.
pub fn civil_from_days(days: i64) -> (r: (i64, i64, i64))
    requires
        0 <= days < MAX_DAYS,
    ensures
        r.0 == civil_year(days as int),
        r.1 == civil_month(days as int),
        r.2 == civil_day(days as int),
        valid_ymd(r.0 as int, r.1 as int, r.2 as int),
        day_number(r.0 as int, r.1 as int, r.2 as int) == days,
{
    proof {
        lemma_civil_correct(days as int);
        lemma_year_seek(days as int, 1970);
    }
    let mut rem: i64 = days;
    let mut y: i64 = 1970;
    while y < 9999 && rem >= year_len(y)
        invariant
            1970 <= y <= 9999,
            0 <= rem,
            rem == days - days_before_year(y as int),
            year_seek(days as int, 1970) == year_seek(rem as int, y as int),
            days < MAX_DAYS,
        decreases 9999 - y,
    {
        let len: i64 = year_len(y);
        proof {
            assert(year_seek(rem as int, y as int)
                == year_seek(rem - days_in_year(y as int), y as int + 1));
        }
        rem = rem - len;
        y = y + 1;
        proof {
            lemma_year_seek(rem as int, y as int);
        }
    }
    proof {
        assert(year_seek(rem as int, y as int) == y);
        assert(y == civil_year(days as int));
        lemma_month_seek(rem as int, y as int, 1);
    }
    let mut m: i64 = 1;
    while m < 12 && rem >= month_len(y, m)
        invariant
            1 <= m <= 12,
            1970 <= y <= 9999,
            y == civil_year(days as int),
            0 <= rem,
            rem == days - days_before_year(y as int) - days_before_month(y as int, m as int),
            month_seek((days - days_before_year(y as int)) as int, y as int, 1)
                == month_seek(rem as int, y as int, m as int),
        decreases 12 - m,
    {
        proof {
            assert(month_seek(rem as int, y as int, m as int)
                == month_seek(rem - days_in_month(y as int, m as int), y as int, m as int + 1));
        }
        rem = rem - month_len(y, m);
        m = m + 1;
    }
    proof {
        assert(month_seek(rem as int, y as int, m as int) == m);
        assert(m == civil_month(days as int));
    }
    (y, m, rem + 1)
}

// ---------------------------------------------------------------------------
// Plain dates in `YYYY-MM-DD` form
// ---------------------------------------------------------------------------

/// What a ten-character date text denotes: four digits, a dash, two digits,
/// a dash, two digits, naming a valid civil date within the store's years
/// (1970 through 9999).  Anything else denotes nothing, and a filter built
/// from it is simply not applied.
pub open spec fn sp_date(s: Seq<char>) -> Option<(int, int, int)> {
    if s.len() == 10 && s[4] == '-' && s[7] == '-' && is_dec_digit(s[0]) && is_dec_digit(s[1])
        && is_dec_digit(s[2]) && is_dec_digit(s[3]) && is_dec_digit(s[5]) && is_dec_digit(s[6])
        && is_dec_digit(s[8]) && is_dec_digit(s[9]) {
        let y = digit_seq_val(10, s.subrange(0, 4));
        let m = digit_seq_val(10, s.subrange(5, 7));
        let d = digit_seq_val(10, s.subrange(8, 10));
        if valid_ymd(y, m, d) {
            Some((y, m, d))
        } else {
            None
        }
    } else {
        None
    }
}

} // verus!
