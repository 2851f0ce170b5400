//! The integer part of the conversion from atomic time (TAI) to civil time
//! (UTC): the days on which leap seconds were inserted, and the offset
//! TAI − UTC that each one brought.
//!
//! An instant on this table is `jdn + seconds / 86400` in Julian date, with
//! `seconds` counted from noon of day `jdn`; a leap second ends at 23:59:60 UTC,
//! that is `43199 + offset` TAI seconds after noon.

use crate::date::{jdn_of_gregorian, Date};
use vstd::prelude::*;

verus! {

/// The Gregorian days, at whose end a leap second was inserted into UTC.
pub open spec fn leap_second_days() -> Seq<(int, int, int)> {
    seq![
        (1972, 6, 30),
        (1972, 12, 31),
        (1973, 12, 31),
        (1974, 12, 31),
        (1975, 12, 31),
        (1976, 12, 31),
        (1977, 12, 31),
        (1978, 12, 31),
        (1979, 12, 31),
        (1981, 6, 30),
        (1982, 6, 30),
        (1983, 6, 30),
        (1985, 6, 30),
        (1987, 12, 31),
        (1989, 12, 31),
        (1990, 12, 31),
        (1992, 6, 30),
        (1993, 6, 30),
        (1994, 6, 30),
        (1995, 12, 31),
        (1997, 6, 30),
        (1998, 12, 31),
        (2005, 12, 31),
        (2008, 12, 31),
        (2012, 6, 30),
        (2015, 6, 30),
        (2016, 12, 31),
    ]
}

/// First day of UTC with whole leap seconds: 1972-01-01, when TAI − UTC was 10 s.
pub open spec fn utc_start_day() -> (int, int, int) {
    (1972, 1, 1)
}

/// Last day through which the leap-second table is known to be complete.
pub open spec fn table_expiry_day() -> (int, int, int) {
    (2021, 12, 31)
}

/// TAI − UTC, in seconds, from 1972-01-01 up to the first leap second.
pub const INITIAL_OFFSET_SECS: i32 = 10;

/// A leap second inserted at the end of `date`. Up to it TAI − UTC is
/// `delta_secs` seconds, and after it one more.
#[derive(Debug, Copy, Clone, Eq, PartialEq, Structural)]
pub struct LeapSecond {
    pub date: Date,
    pub delta_secs: i32,
}

/// TAI seconds after noon of `date` at which a leap second ends (23:59:60 UTC),
/// with TAI − UTC at `delta_secs` before it.
pub open spec fn leap_second_end_secs(delta_secs: int) -> int {
    43199 + delta_secs
}

/// The leap-second table and its bounds.
#[derive(Debug, Clone)]
pub struct LeapSecondTable {
    /// 1972-01-01, from which UTC is supported.
    pub starts: Date,
    /// The leap seconds, in order, the `i`-th with TAI − UTC at `10 + i` before it.
    pub leap_seconds: Vec<LeapSecond>,
    /// The last day the table covers; after its 23:59:60 UTC the offset is
    /// extrapolated.
    pub expires: Date,
    /// TAI − UTC, in seconds, at the end of the table.
    pub final_delta_secs: i32,
}

/// Day number of a date of the Gregorian calendar between year 0 and 100000.
fn modern_day(y: i32, m: u32, d: u32) -> (r: Date)
    requires
        0 <= y <= 100000,
        1 <= m <= 12,
        1 <= d <= 31,
    ensures
        r@ == jdn_of_gregorian(y as int, m as int, d as int),
{
    proof {
        reveal(jdn_of_gregorian);
    }
    match Date::from_gregorian(y, m, d) {
        Some(r) => r,
        None => {
            assert(false);
            Date::from_jdn(0)
        },
    }
}

/// Builds the leap-second table.
pub fn leap_second_table() -> (r: LeapSecondTable)
    ensures
        r.starts@ == jdn_of_gregorian(utc_start_day().0, utc_start_day().1, utc_start_day().2),
        r.expires@ == jdn_of_gregorian(
            table_expiry_day().0,
            table_expiry_day().1,
            table_expiry_day().2,
        ),
        r.leap_seconds.len() == leap_second_days().len(),
        r.final_delta_secs == INITIAL_OFFSET_SECS + leap_second_days().len(),
        forall|i: int|
            0 <= i < r.leap_seconds.len() ==> {
                let (y, m, d) = #[trigger] leap_second_days()[i];
                &&& r.leap_seconds[i].date@ == jdn_of_gregorian(y, m, d)
                &&& r.leap_seconds[i].delta_secs == INITIAL_OFFSET_SECS + i
            },
{
    let days: Vec<(i32, u32, u32)> = vec![
        (1972, 6, 30),
        (1972, 12, 31),
        (1973, 12, 31),
        (1974, 12, 31),
        (1975, 12, 31),
        (1976, 12, 31),
        (1977, 12, 31),
        (1978, 12, 31),
        (1979, 12, 31),
        (1981, 6, 30),
        (1982, 6, 30),
        (1983, 6, 30),
        (1985, 6, 30),
        (1987, 12, 31),
        (1989, 12, 31),
        (1990, 12, 31),
        (1992, 6, 30),
        (1993, 6, 30),
        (1994, 6, 30),
        (1995, 12, 31),
        (1997, 6, 30),
        (1998, 12, 31),
        (2005, 12, 31),
        (2008, 12, 31),
        (2012, 6, 30),
        (2015, 6, 30),
        (2016, 12, 31),
    ];
    assert(days@.len() == leap_second_days().len());
    assert(forall|i: int|
        0 <= i < days.len() ==> {
            let (y, m, d) = #[trigger] leap_second_days()[i];
            &&& days@[i].0 == y
            &&& days@[i].1 == m
            &&& days@[i].2 == d
            &&& 1972 <= y <= 2016
            &&& 1 <= m <= 12
            &&& 1 <= d <= 31
        });
    let mut leap_seconds: Vec<LeapSecond> = Vec::new();
    let mut i: usize = 0;
    while i < days.len()
        invariant
            i <= days.len(),
            days.len() == leap_second_days().len(),
            leap_seconds.len() == i,
            forall|j: int|
                0 <= j < days.len() ==> {
                    let (y, m, d) = #[trigger] leap_second_days()[j];
                    &&& days@[j].0 == y
                    &&& days@[j].1 == m
                    &&& days@[j].2 == d
                    &&& 1972 <= y <= 2016
                    &&& 1 <= m <= 12
                    &&& 1 <= d <= 31
                },
            forall|j: int|
                0 <= j < i ==> {
                    let (y, m, d) = #[trigger] leap_second_days()[j];
                    &&& leap_seconds[j].date@ == jdn_of_gregorian(y, m, d)
                    &&& leap_seconds[j].delta_secs == INITIAL_OFFSET_SECS + j
                },
        decreases days.len() - i,
    {
        let (y, m, d) = days[i];
        let date = modern_day(y, m, d);
        let ghost _t = leap_second_days()[i as int];
        leap_seconds.push(LeapSecond { date, delta_secs: INITIAL_OFFSET_SECS + i as i32 });
        i = i + 1;
    }
    let n = days.len() as i32;
    LeapSecondTable {
        starts: modern_day(1972, 1, 1),
        leap_seconds,
        expires: modern_day(2021, 12, 31),
        final_delta_secs: INITIAL_OFFSET_SECS + n,
    }
}

} // verus!
