//! Proleptic Gregorian calendar dates, as plain year/month/day values.

use vstd::prelude::*;
use vstd::arithmetic::div_mod::{
    lemma_fundamental_div_mod,
    lemma_fundamental_div_mod_converse,
    lemma_mod_bound,
};

verus! {

/// A calendar date in the proleptic Gregorian calendar, years 0 through 9999.
#[derive(Clone, Copy, PartialEq, Eq, Structural, Debug)]
pub struct Date {
    pub year: i32,
    pub month: u8,
    pub day: u8,
}

/// A year is a leap year when it is divisible by 4 but not by 100,
/// or divisible by 400.
pub open spec fn spec_is_leap_year(y: int) -> bool {
    (y % 4 == 0 && y % 100 != 0) || y % 400 == 0
}

/// The number of days in a month of a given year.
pub open spec fn spec_days_in_month(y: int, m: int) -> int
    recommends
        1 <= m <= 12,
{
    if m == 2 {
        if spec_is_leap_year(y) {
            29
        } else {
            28
        }
    } else if m == 4 || m == 6 || m == 9 || m == 11 {
        30
    } else {
        31
    }
}

/// The number of days from 1970-01-01 to the given date (negative for
/// earlier dates). Days are counted in the proleptic Gregorian calendar.
pub open spec fn days_from_civil(y: int, m: int, d: int) -> int
    recommends
        1 <= m <= 12,
        1 <= d <= spec_days_in_month(y, m),
{
    let yy = if m <= 2 {
        y - 1
    } else {
        y
    };
    let era = yy / 400;
    let yoe = yy - era * 400;
    let mp = if m > 2 {
        m - 3
    } else {
        m + 9
    };
    let doy = (153 * mp + 2) / 5 + d - 1;
    let doe = yoe * 365 + yoe / 4 - yoe / 100 + doy;
    era * 146097 + doe - 719468
}

impl Date {
    /// The date's fields form a real calendar date in the supported range.
    pub open spec fn wf(self) -> bool {
        &&& 0 <= self.year <= 9999
        &&& 1 <= self.month <= 12
        &&& 1 <= self.day
            <= spec_days_in_month(self.year as int, self.month as int)
    }
}

/// Whether the year is a leap year.
pub fn is_leap_year(y: i32) -> (r: bool)
    requires
        y >= 0,
    ensures
        r == spec_is_leap_year(y as int),
{
    (y % 4 == 0 && y % 100 != 0) || y % 400 == 0
}

/// The number of days in the given month.
pub fn days_in_month(y: i32, m: u8) -> (r: u8)
    requires
        y >= 0,
        1 <= m <= 12,
    ensures
        r == spec_days_in_month(y as int, m as int),
{
    if m == 2 {
        if is_leap_year(y) {
            29
        } else {
            28
        }
    } else if m == 4 || m == 6 || m == 9 || m == 11 {
        30
    } else {
        31
    }
}

/// The epoch date 1970-01-01 has day number zero.
pub proof fn lemma_epoch_day()
    ensures
        days_from_civil(1970, 1, 1) == 0,
{
}

/// One day forward inside a month moves the day count forward by one.
pub proof fn lemma_day_step(y: int, m: int, d: int)
    requires
        1 <= m <= 12,
        1 <= d < spec_days_in_month(y, m),
    ensures
        days_from_civil(y, m, d + 1) == days_from_civil(y, m, d) + 1,
{
}

/// The day counts of the year groups ending in February of years `y - 1`
/// and `y` differ by the length of the year whose February ends the group:
/// 366 days when year `y` is a leap year, 365 otherwise.
proof fn lemma_year_group_step(y: int)
    ensures
        ({
            let era2 = y / 400;
            let yoe2 = y - era2 * 400;
            let era1 = (y - 1) / 400;
            let yoe1 = (y - 1) - era1 * 400;
            (era2 * 146097 + yoe2 * 365 + yoe2 / 4 - yoe2 / 100) - (era1 * 146097 + yoe1 * 365
                + yoe1 / 4 - yoe1 / 100) == if spec_is_leap_year(y) {
                366int
            } else {
                365int
            }
        }),
{
    let q = y / 400;
    let r = y % 400;
    lemma_fundamental_div_mod(y, 400);
    lemma_mod_bound(y, 400);
    if r == 0 {
        lemma_fundamental_div_mod_converse(y - 1, 400, q - 1, 399);
        lemma_fundamental_div_mod_converse(y, 4, 100 * q, 0);
    } else {
        lemma_fundamental_div_mod_converse(y - 1, 400, q, r - 1);
        let q4 = r / 4;
        let r4 = r % 4;
        lemma_fundamental_div_mod(r, 4);
        lemma_mod_bound(r, 4);
        lemma_fundamental_div_mod_converse(y, 4, 100 * q + q4, r4);
        let q100 = r / 100;
        let r100 = r % 100;
        lemma_fundamental_div_mod(r, 100);
        lemma_mod_bound(r, 100);
        lemma_fundamental_div_mod_converse(y, 100, 4 * q + q100, r100);
        if r4 == 0 {
            lemma_fundamental_div_mod_converse(r - 1, 4, q4 - 1, 3);
        } else {
            lemma_fundamental_div_mod_converse(r - 1, 4, q4, r4 - 1);
        }
        if r100 == 0 {
            lemma_fundamental_div_mod_converse(r - 1, 100, q100 - 1, 99);
            lemma_fundamental_div_mod_converse(r, 4, 25 * q100, 0);
        } else {
            lemma_fundamental_div_mod_converse(r - 1, 100, q100, r100 - 1);
        }
    }
}

/// The first day of a month follows the last day of the month before it.
pub proof fn lemma_month_step(y: int, m: int)
    requires
        1 <= m <= 11,
    ensures
        days_from_civil(y, m + 1, 1) == days_from_civil(y, m, spec_days_in_month(y, m)) + 1,
{
    if m == 2 {
        lemma_year_group_step(y);
    }
}

/// January the first follows December the thirty-first of the year before.
pub proof fn lemma_year_step(y: int)
    ensures
        days_from_civil(y + 1, 1, 1) == days_from_civil(y, 12, 31) + 1,
{
}

/// The ASCII digit for `n`, for `0 <= n <= 9`.
pub open spec fn digit(n: int) -> u8
    recommends
        0 <= n <= 9,
{
    (48 + n) as u8
}

/// The earliest unix timestamp whose date the library handles:
/// 0000-01-01T00:00:00Z.
pub const MIN_UNIX_SECONDS: i64 = -62167219200;

/// The latest unix timestamp whose date the library handles:
/// 9999-12-31T23:59:59Z.
pub const MAX_UNIX_SECONDS: i64 = 253402300799;

impl Date {
    /// The date written as the ten ASCII bytes `YYYY-MM-DD`, each field
    /// zero-padded.
    pub open spec fn iso(self) -> Seq<u8> {
        let y = self.year as int;
        let m = self.month as int;
        let d = self.day as int;
        seq![
            digit(y / 1000),
            digit(y / 100 % 10),
            digit(y / 10 % 10),
            digit(y % 10),
            45u8,
            digit(m / 10),
            digit(m % 10),
            45u8,
            digit(d / 10),
            digit(d % 10),
        ]
    }

    /// Writes the date as the ten ASCII bytes `YYYY-MM-DD`.
    pub fn to_iso(&self) -> (v: Vec<u8>)
        requires
            self.wf(),
        ensures
            v@ == self.iso(),
    {
        let y = self.year as u32;
        let m = self.month;
        let d = self.day;
        let mut v: Vec<u8> = Vec::new();
        v.push((48 + y / 1000) as u8);
        v.push((48 + y / 100 % 10) as u8);
        v.push((48 + y / 10 % 10) as u8);
        v.push((48 + y % 10) as u8);
        v.push(45);
        v.push(48 + m / 10);
        v.push(48 + m % 10);
        v.push(45);
        v.push(48 + d / 10);
        v.push(48 + d % 10);
        proof {
            assert(v@ =~= self.iso());
        }
        v
    }
}

/// The whole-second unix timestamp of a time `secs` seconds and `nanos`
/// nanoseconds away from the epoch, on the earlier side when `before_epoch`.
/// Rounded toward earlier times, so that a fractional second never moves a
/// time onto the calendar day after the one it lies in.
pub fn floor_unix_seconds(before_epoch: bool, secs: u64, nanos: u32) -> (r: i64)
    requires
        secs <= 0x7fff_ffff_ffff_ffff,
    ensures
        r as int == (if before_epoch && nanos > 0 {
            -(secs as int) - 1
        } else if before_epoch {
            -(secs as int)
        } else {
            secs as int
        }),
{
    if before_epoch {
        if nanos > 0 {
            -(secs as i64) - 1
        } else {
            -(secs as i64)
        }
    } else {
        secs as i64
    }
}

/// Relies on time::OffsetDateTime::from_unix_timestamp and its year, month
/// and day accessors: the UTC date of a unix timestamp, in the proleptic
/// Gregorian calendar, so that counting its days from 1970-01-01 gives the
/// timestamp's day number back.
#[verifier::external_body]
fn civil_from_unix(secs: i64) -> (r: Date)
    requires
        MIN_UNIX_SECONDS <= secs <= MAX_UNIX_SECONDS,
    ensures
        r.wf(),
        days_from_civil(r.year as int, r.month as int, r.day as int) == secs as int / 86400,
{
    let dt = time::OffsetDateTime::from_unix_timestamp(secs).unwrap();
    Date { year: dt.year(), month: dt.month() as u8, day: dt.day() }
}

impl Date {
    /// The UTC calendar date of a unix timestamp.
    pub fn from_unix_seconds(secs: i64) -> (r: Date)
        requires
            MIN_UNIX_SECONDS <= secs <= MAX_UNIX_SECONDS,
        ensures
            r.wf(),
            days_from_civil(r.year as int, r.month as int, r.day as int) == secs as int / 86400,
    {
        civil_from_unix(secs)
    }

    /// Builds a date, rejecting fields that do not form a calendar date in
    /// the supported range.
    pub fn new(year: i32, month: u8, day: u8) -> (r: Option<Date>)
        ensures
            match r {
                Some(d) => d.wf() && d.year == year && d.month == month && d.day == day,
                None => !(Date { year, month, day }).wf(),
            },
    {
        if 0 <= year && year <= 9999 && 1 <= month && month <= 12 && 1 <= day && day
            <= days_in_month(year, month) {
            Some(Date { year, month, day })
        } else {
            None
        }
    }
}

} // verus!
