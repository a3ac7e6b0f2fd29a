//! Proleptic-Gregorian calendar arithmetic on Unix timestamps.
//!
//! Timestamps are seconds since 1970-01-01T00:00:00Z. Every run of a task
//! derives its snapshot label and destination paths from one timestamp, so
//! the conversions here are verified: the civil date returned for a day
//! number is proved to be the unique valid date with that day number.

use crate::text::{dec_seq, pad2, pad2_seq, u64_to_dec};
use vstd::arithmetic::div_mod::{
    lemma_div_is_ordered, lemma_fundamental_div_mod, lemma_fundamental_div_mod_converse,
    lemma_mod_pos_bound,
};
use vstd::prelude::*;
use vstd::string::StringExecFns;

verus! {

/// Seconds in one civil day.
pub const SECONDS_PER_DAY: u64 = 86400;

/// First timestamp of year 10000; formatting is specified for timestamps
/// strictly below it (four-digit years).
pub const TIMESTAMP_LIMIT: u64 = 253402300800;

/// Day number of 10000-01-01 (days since the epoch).
pub const DAY_LIMIT: u64 = 2932897;

pub open spec fn is_leap_year(y: int) -> bool {
    (y % 4 == 0 && y % 100 != 0) || y % 400 == 0
}

pub open spec fn year_length(y: int) -> nat {
    if is_leap_year(y) {
        366
    } else {
        365
    }
}

/// Length of month `m` (1-based) of year `y`.
pub open spec fn month_length(y: int, m: int) -> nat {
    if m == 2 {
        if is_leap_year(y) {
            29
        } else {
            28
        }
    } else if m == 4 || m == 6 || m == 9 || m == 11 {
        30
    } else {
        31
    }
}

/// Days of year `y` that precede the first of month `m` (1-based).
pub open spec fn month_offset(y: int, m: int) -> nat {
    let leap: nat = if is_leap_year(y) {
        1
    } else {
        0
    };
    if m <= 1 {
        0
    } else if m == 2 {
        31
    } else if m == 3 {
        59 + leap
    } else if m == 4 {
        90 + leap
    } else if m == 5 {
        120 + leap
    } else if m == 6 {
        151 + leap
    } else if m == 7 {
        181 + leap
    } else if m == 8 {
        212 + leap
    } else if m == 9 {
        243 + leap
    } else if m == 10 {
        273 + leap
    } else if m == 11 {
        304 + leap
    } else {
        334 + leap
    }
}

/// Leap years strictly before year `y` (counted from year 1).
pub open spec fn leap_years_before(y: int) -> int {
    (y - 1) / 4 - (y - 1) / 100 + (y - 1) / 400
}

/// Days between the epoch and the first day of year `y`.
pub open spec fn days_before_year(y: int) -> int {
    365 * (y - 1970) + leap_years_before(y) - leap_years_before(1970)
}

/// Day number of the civil date `(y, m, d)`.
pub open spec fn day_number(y: int, m: int, d: int) -> int {
    days_before_year(y) + month_offset(y, m) + (d - 1)
}

/// A civil date in the proleptic Gregorian calendar, UTC.
#[derive(Clone, Copy, Debug, PartialEq, Eq, Structural)]
pub struct CivilDate {
    pub year: u64,
    pub month: u64,
    pub day: u64,
}

impl CivilDate {
    /// A date the library can format: within the four-digit-year range and
    /// with month and day inside their calendar bounds.
    pub open spec fn wf(self) -> bool {
        &&& 1970 <= self.year <= 9999
        &&& 1 <= self.month <= 12
        &&& 1 <= self.day <= month_length(self.year as int, self.month as int)
    }
}

/// The year and the remaining day-of-year reached by walking years upward
/// from `y` while `rem` days remain.
pub open spec fn spec_year_day(y: int, rem: nat) -> (int, nat)
    decreases rem,
{
    if rem < year_length(y) {
        (y, rem)
    } else {
        spec_year_day(y + 1, (rem - year_length(y)) as nat)
    }
}

/// The month and the remaining day-of-month reached by walking months of
/// year `y` upward from `m` while `rem` days remain.
pub open spec fn spec_month_day(y: int, m: int, rem: nat) -> (int, nat)
    decreases rem,
{
    if m >= 12 || rem < month_length(y, m) {
        (m, rem)
    } else {
        spec_month_day(y, m + 1, (rem - month_length(y, m)) as nat)
    }
}

/// The civil date of day number `days`: `(year, month, day)`.
pub open spec fn spec_civil_from_days(days: nat) -> (int, int, int) {
    let (y, rem) = spec_year_day(1970, days);
    let (m, rem2) = spec_month_day(y, 1, rem);
    (y, m, rem2 + 1int)
}

/// Dividing `y` rather than `y - 1` counts one extra multiple of `d`
/// exactly when `d` divides `y`.
proof fn lemma_div_step(y: int, d: int)
    requires
        y >= 1,
        d >= 1,
    ensures
        y / d - (y - 1) / d == if y % d == 0 {
            1int
        } else {
            0int
        },
{
    lemma_fundamental_div_mod(y, d);
    lemma_mod_pos_bound(y, d);
    let q = y / d;
    let r = y % d;
    if r == 0 {
        assert(y - 1 == (q - 1) * d + (d - 1)) by (nonlinear_arith)
            requires
                y == d * q + r,
                r == 0,
        ;
        lemma_fundamental_div_mod_converse(y - 1, d, q - 1, d - 1);
    } else {
        assert(y - 1 == q * d + (r - 1)) by (nonlinear_arith)
            requires
                y == d * q + r,
        ;
        lemma_fundamental_div_mod_converse(y - 1, d, q, r - 1);
    }
}

/// A multiple of `c * d` is a multiple of `d`.
proof fn lemma_mod_multiple(y: int, c: int, d: int)
    requires
        y >= 0,
        c >= 1,
        d >= 1,
        y % (c * d) == 0,
    ensures
        y % d == 0,
{
    assert(c * d >= 1) by (nonlinear_arith)
        requires
            c >= 1,
            d >= 1,
    ;
    lemma_fundamental_div_mod(y, c * d);
    let q = y / (c * d);
    assert(y == (c * d) * q + y % (c * d));
    assert(y == (c * q) * d + 0) by (nonlinear_arith)
        requires
            y == (c * d) * q + 0,
    ;
    lemma_fundamental_div_mod_converse(y, d, c * q, 0);
}

/// Crossing from year `y` to `y + 1` adds exactly the length of year `y`.
proof fn lemma_days_before_year_step(y: int)
    requires
        1970 <= y,
    ensures
        days_before_year(y + 1) == days_before_year(y) + year_length(y),
{
    lemma_div_step(y, 4);
    lemma_div_step(y, 100);
    lemma_div_step(y, 400);
    if y % 100 == 0 {
        assert(100 == 25 * 4);
        lemma_mod_multiple(y, 25, 4);
    }
    if y % 400 == 0 {
        assert(400 == 4 * 100);
        lemma_mod_multiple(y, 4, 100);
    }
}

/// Walking years from `y0` lands on the unique year containing the day:
/// the remainder is a valid day-of-year and the total day count is kept.
proof fn lemma_spec_year_day(y0: int, rem: nat)
    requires
        1970 <= y0 <= 9999,
        days_before_year(y0) + rem < DAY_LIMIT,
    ensures
        ({
            let (y, r) = spec_year_day(y0, rem);
            &&& y0 <= y <= 9999
            &&& r < year_length(y)
            &&& days_before_year(y) + r == days_before_year(y0) + rem
        }),
    decreases rem,
{
    if rem < year_length(y0) {
    } else {
        lemma_days_before_year_step(y0);
        if y0 == 9999 {
            assert(days_before_year(9999) == 2932532);
            assert(false);
        }
        lemma_spec_year_day(y0 + 1, (rem - year_length(y0)) as nat);
    }
}

/// Walking months lands on the unique month containing the day: the
/// remainder is a valid day-of-month and the day count within the year is
/// kept.
proof fn lemma_spec_month_day(y: int, m0: int, rem: nat)
    requires
        1 <= m0 <= 12,
        month_offset(y, m0) + rem < year_length(y),
    ensures
        ({
            let (m, r) = spec_month_day(y, m0, rem);
            &&& m0 <= m <= 12
            &&& r < month_length(y, m)
            &&& month_offset(y, m) + r == month_offset(y, m0) + rem
        }),
    decreases rem,
{
    if m0 >= 12 || rem < month_length(y, m0) {
    } else {
        lemma_spec_month_day(y, m0 + 1, (rem - month_length(y, m0)) as nat);
    }
}

/// Whether `y` is a leap year.
pub fn leap_year(y: u64) -> (r: bool)
    ensures
        r == is_leap_year(y as int),
{
    (y % 4 == 0 && y % 100 != 0) || y % 400 == 0
}

fn year_length_x(y: u64) -> (r: u64)
    ensures
        r as nat == year_length(y as int),
{
    if leap_year(y) {
        366
    } else {
        365
    }
}

fn month_length_x(y: u64, m: u64) -> (r: u64)
    ensures
        r as nat == month_length(y as int, m as int),
{
    if m == 2 {
        if leap_year(y) {
            29
        } else {
            28
        }
    } else if m == 4 || m == 6 || m == 9 || m == 11 {
        30
    } else {
        31
    }
}

/// The civil date of day number `days`: the unique well-formed date whose
/// day number equals `days`.
pub fn civil_from_days(days: u64) -> (r: CivilDate)
    requires
        days < DAY_LIMIT,
    ensures
        (r.year as int, r.month as int, r.day as int) == spec_civil_from_days(days as nat),
        r.wf(),
        day_number(r.year as int, r.month as int, r.day as int) == days,
{
    let ghost orig = days as nat;
    let mut y: u64 = 1970;
    let mut rem: u64 = days;
    proof {
        lemma_spec_year_day(1970, orig);
        assert(days_before_year(1970) == 0);
    }
    while rem >= year_length_x(y)
        invariant
            1970 <= y <= 9999,
            rem <= days < DAY_LIMIT,
            days_before_year(y as int) + rem == days,
            spec_year_day(1970, orig) == spec_year_day(y as int, rem as nat),
            spec_year_day(1970, orig).0 <= 9999,
            spec_year_day(1970, orig).1 < year_length(spec_year_day(1970, orig).0),
            days_before_year(spec_year_day(1970, orig).0) + spec_year_day(1970, orig).1 == days,
        decreases rem,
    {
        proof {
            lemma_days_before_year_step(y as int);
            if y == 9999 {
                assert(days_before_year(9999) == 2932532);
                assert(false);
            }
        }
        rem = rem - year_length_x(y);
        y = y + 1;
    }
    assert(spec_year_day(y as int, rem as nat) == (y as int, rem as nat));
    proof {
        lemma_spec_month_day(y as int, 1, rem as nat);
        assert(month_offset(y as int, 1) == 0);
    }
    let ghost yrem = rem as nat;
    let mut m: u64 = 1;
    let mut rem2: u64 = rem;
    while m < 12 && rem2 >= month_length_x(y, m)
        invariant
            1 <= m <= 12,
            1970 <= y <= 9999,
            rem2 <= rem,
            month_offset(y as int, m as int) + rem2 == yrem,
            yrem < year_length(y as int),
            spec_month_day(y as int, 1, yrem) == spec_month_day(y as int, m as int, rem2 as nat),
            spec_month_day(y as int, 1, yrem).0 <= 12,
            spec_month_day(y as int, 1, yrem).1 < month_length(
                y as int,
                spec_month_day(y as int, 1, yrem).0,
            ),
            month_offset(y as int, spec_month_day(y as int, 1, yrem).0) + spec_month_day(
                y as int,
                1,
                yrem,
            ).1 == yrem,
        decreases 12 - m,
    {
        rem2 = rem2 - month_length_x(y, m);
        m = m + 1;
    }
    assert(spec_month_day(y as int, m as int, rem2 as nat) == (m as int, rem2 as nat));
    CivilDate { year: y, month: m, day: rem2 + 1 }
}

/// The civil date of the day containing timestamp `ts`.
pub open spec fn spec_date_of(ts: int) -> (int, int, int) {
    spec_civil_from_days((ts / (SECONDS_PER_DAY as int)) as nat)
}

/// The date of the day containing timestamp `ts`.
pub fn date_of_timestamp(ts: u64) -> (r: CivilDate)
    requires
        ts < TIMESTAMP_LIMIT,
    ensures
        (r.year as int, r.month as int, r.day as int) == spec_date_of(ts as int),
        r.wf(),
        day_number(r.year as int, r.month as int, r.day as int) == ts as int / (
        SECONDS_PER_DAY as int),
{
    proof {
        lemma_div_is_ordered(ts as int, TIMESTAMP_LIMIT - 1, SECONDS_PER_DAY as int);
    }
    civil_from_days(ts / SECONDS_PER_DAY)
}

/// The digits `YYYYMMDD` of date `(y, m, d)`: the year's four digits, then
/// month and day each zero-padded to two.
pub open spec fn yyyymmdd_seq(y: int, m: int, d: int) -> Seq<char> {
    dec_seq(y as nat) + pad2_seq(m as nat) + pad2_seq(d as nat)
}

/// Format a date as its eight digits `YYYYMMDD`.
pub fn format_yyyymmdd(date: &CivilDate) -> (s: String)
    requires
        date.wf(),
    ensures
        s@ == yyyymmdd_seq(date.year as int, date.month as int, date.day as int),
{
    let s = u64_to_dec(date.year).concat(pad2(date.month).as_str()).concat(
        pad2(date.day).as_str(),
    );
    proof {
        assert(s@ =~= yyyymmdd_seq(date.year as int, date.month as int, date.day as int));
    }
    s
}

/// The RFC 3339 rendering of timestamp `ts`:
/// `YYYY-MM-DDThh:mm:ssZ`.
pub open spec fn rfc3339_seq(ts: int) -> Seq<char> {
    let (y, m, d) = spec_date_of(ts);
    let sod = ts % (SECONDS_PER_DAY as int);
    dec_seq(y as nat) + "-"@ + pad2_seq(m as nat) + "-"@ + pad2_seq(d as nat) + "T"@ + pad2_seq(
        (sod / 3600) as nat,
    ) + ":"@ + pad2_seq(((sod % 3600) / 60) as nat) + ":"@ + pad2_seq((sod % 60) as nat) + "Z"@
}

/// Format a timestamp as an RFC 3339 UTC string, `YYYY-MM-DDThh:mm:ssZ`.
pub fn format_rfc3339(ts: u64) -> (s: String)
    requires
        ts < TIMESTAMP_LIMIT,
    ensures
        s@ == rfc3339_seq(ts as int),
{
    let date = date_of_timestamp(ts);
    let sod = ts % SECONDS_PER_DAY;
    let hh = sod / 3600;
    let mi = (sod % 3600) / 60;
    let ss = sod % 60;
    let s = u64_to_dec(date.year).concat("-").concat(pad2(date.month).as_str()).concat(
        "-",
    ).concat(pad2(date.day).as_str()).concat("T").concat(pad2(hh).as_str()).concat(":").concat(
        pad2(mi).as_str(),
    ).concat(":").concat(pad2(ss).as_str()).concat("Z");
    proof {
        assert(s@ =~= rfc3339_seq(ts as int));
    }
    s
}

} // verus!
