use kalendarilo::date::{ordinal_day_number, Date, YearType};

#[test]
fn it_works() {
    let date = Date::from_jdn(2440588);
    assert_eq!(2440588, date.jdn());
}

#[test]
fn from_gregorian() {
    let date = Date::from_gregorian(1970, 1, 1).unwrap();
    assert_eq!(2440588, date.jdn());
    let date = Date::from_gregorian(2021, 9, 8).unwrap();
    assert_eq!(2459466, date.jdn());
}

#[test]
fn to_gregorian() {
    let date = Date::from_jdn(2440588);
    assert_eq!((1970, 1, 1), date.gregorian());
    let date = Date::from_jdn(2459466);
    assert_eq!((2021, 9, 8), date.gregorian());
    let date = Date::from_jdn(2451545);
    assert_eq!((2000, 1, 1), date.gregorian());
}

#[test]
fn gregorian_near_bounds() {
    assert_eq!((-4713, 11, 24), Date::from_jdn(0).gregorian());
    assert_eq!((11754508, 12, 13), Date::from_jdn(u32::MAX).gregorian());
    assert_eq!(0, Date::from_gregorian(-4713, 11, 24).unwrap().jdn());
    assert_eq!(None, Date::from_gregorian(-4713, 11, 23));
    assert_eq!(
        u32::MAX,
        Date::from_gregorian(11754508, 12, 13).unwrap().jdn()
    );
    assert_eq!(None, Date::from_gregorian(11754508, 12, 14));
}

#[test]
fn to_day_of_week() {
    let date = Date::from_gregorian(1970, 1, 1).unwrap();
    assert_eq!(4, date.day_of_week());
    let date = Date::from_gregorian(2021, 9, 8).unwrap();
    assert_eq!(3, date.day_of_week());
}

#[test]
fn to_sexagenary() {
    let date = Date::from_gregorian(1970, 1, 1).unwrap();
    assert_eq!(18, date.sexagenary());
    let date = Date::from_gregorian(2021, 9, 8).unwrap();
    assert_eq!(56, date.sexagenary());
}

#[test]
fn to_year_week() {
    for ((y, m, d), expected) in [
        ((1980, 12, 28), (1980, 52)),
        ((1980, 12, 31), (1981, 1)),
        ((1981, 1, 1), (1981, 1)),
        ((1981, 1, 4), (1981, 1)),
        ((1981, 1, 5), (1981, 2)),
        ((1981, 12, 31), (1981, 53)),
        ((1982, 1, 1), (1981, 53)),
    ] {
        let date = Date::from_gregorian(y, m, d).unwrap();
        assert_eq!(expected, date.year_week_gregorian(), "{y:04}-{m:02}-{d:02}");
    }
    for i in 6..=12 {
        let date = Date::from_gregorian(2021, 9, i).unwrap();
        assert_eq!((2021, 36), date.year_week_gregorian(), "2021-09-{:02}", i);
    }
    for (d, w) in [(12, 10), (13, 11)] {
        let date = Date::from_gregorian(2023, 3, d).unwrap();
        assert_eq!((2023, w), date.year_week_gregorian(), "2023-03-{d:02}");
    }
}

#[test]
fn iso_format() {
    assert_eq!(
        "2021-09-08",
        Date::from_gregorian(2021, 9, 8).unwrap().iso_gregorian()
    );
}

#[test]
fn iso_format_extended() {
    assert_eq!(
        "9999-12-31",
        Date::from_gregorian(9999, 12, 31).unwrap().iso_gregorian()
    );
    assert_eq!(
        "+10000-01-01",
        Date::from_gregorian(10000, 1, 1).unwrap().iso_gregorian()
    );
    assert_eq!(
        "0000-01-01",
        Date::from_gregorian(0, 1, 1).unwrap().iso_gregorian()
    );
    assert_eq!(
        "-0001-12-31",
        Date::from_gregorian(-1, 12, 31).unwrap().iso_gregorian()
    );
}

#[test]
fn priv_ordinal_day_number() {
    assert_eq!(1, ordinal_day_number(1, 1, YearType::Common));
    assert_eq!(256, ordinal_day_number(9, 13, YearType::Common));
    assert_eq!(366, ordinal_day_number(12, 31, YearType::Leap));
}

#[test]
fn millennium_day() {
    let date = Date::from_gregorian(2000, 1, 1).unwrap();
    assert_eq!(2451545, date.jdn());
    assert_eq!(6, date.day_of_week());
    assert_eq!(55, date.sexagenary());
    assert_eq!((1999, 52), date.year_week_gregorian());
    assert_eq!("2000-01-01", date.iso_gregorian());
}

#[test]
fn epoch_round_trip() {
    let date = Date::from_gregorian(1970, 1, 1).unwrap();
    assert_eq!(2440588, date.jdn());
    assert_eq!((1970, 1, 1), date.gregorian());
}

#[test]
fn round_trip_over_sampled_day_numbers() {
    let mut jdn: u32 = 0;
    loop {
        let date = Date::from_jdn(jdn);
        let (y, m, d) = date.gregorian();
        assert_eq!(Some(date), Date::from_gregorian(y, m, d), "jdn {jdn}");
        match jdn.checked_add(65_537) {
            Some(next) => jdn = next,
            None => break,
        }
    }
    let last = Date::from_jdn(u32::MAX);
    let (y, m, d) = last.gregorian();
    assert_eq!(Some(last), Date::from_gregorian(y, m, d));
}

#[test]
fn weekday_and_sexagenary_advance_daily() {
    let start = Date::from_gregorian(2023, 12, 25).unwrap();
    for k in 0..130u32 {
        let a = Date::from_jdn(start.jdn() + k);
        let b = Date::from_jdn(start.jdn() + k + 1);
        assert!(a < b);
        assert_eq!(a.day_of_week() % 7 + 1, b.day_of_week());
        assert_eq!(a.sexagenary() % 60 + 1, b.sexagenary());
    }
}

#[test]
fn iso_week_one_holds_first_thursday() {
    // 2026-01-01 is a Thursday: week 1 runs from 2025-12-29 to 2026-01-04.
    for d in 29..=31 {
        let date = Date::from_gregorian(2025, 12, d).unwrap();
        assert_eq!((2026, 1), date.year_week_gregorian());
    }
    for d in 1..=4 {
        let date = Date::from_gregorian(2026, 1, d).unwrap();
        assert_eq!((2026, 1), date.year_week_gregorian());
    }
    assert_eq!((2026, 2), Date::from_gregorian(2026, 1, 5).unwrap().year_week_gregorian());
    // 2021-01-01 is a Friday: it belongs to week 53 of 2020.
    assert_eq!((2020, 53), Date::from_gregorian(2021, 1, 3).unwrap().year_week_gregorian());
    assert_eq!((2021, 1), Date::from_gregorian(2021, 1, 4).unwrap().year_week_gregorian());
}

#[test]
fn iso_week_near_upper_bound() {
    let (_, w) = Date::from_jdn(u32::MAX).year_week_gregorian();
    assert!((1..=53).contains(&w));
}

#[test]
fn signed_differences_and_offsets() {
    let a = Date::from_gregorian(2000, 1, 1).unwrap();
    let b = Date::from_gregorian(2000, 3, 1).unwrap();
    assert_eq!(Some(60), b.checked_signed_diff(a));
    assert_eq!(Some(-60), a.checked_signed_diff(b));
    assert_eq!(None, Date::from_jdn(u32::MAX).checked_signed_diff(Date::from_jdn(0)));
    assert_eq!(Some(b), a.checked_add_days(60));
    assert_eq!(Some(a), b.checked_add_days(-60));
    assert_eq!(None, Date::from_jdn(5).checked_add_days(-6));
    assert_eq!(None, Date::from_jdn(u32::MAX).checked_add_days(1));
    assert_eq!(60, b.days_since(a));
    assert_eq!(Some(b), a.checked_add_unsigned(60));
    assert_eq!(None, Date::from_jdn(u32::MAX - 1).checked_add_unsigned(2));
    assert_eq!(Some(Date::from_jdn(u32::MAX)), Date::from_jdn(u32::MAX - 1).checked_add_unsigned(1));
}

#[test]
fn leap_years() {
    assert!(YearType::from_gregorian(2000).is_leap());
    assert!(!YearType::from_gregorian(1900).is_leap());
    assert!(YearType::from_gregorian(2024).is_leap());
    assert!(!YearType::from_gregorian(2023).is_leap());
    assert!(YearType::from_gregorian(0).is_leap());
    assert!(YearType::from_gregorian(-4).is_leap());
    assert_eq!(60, ordinal_day_number(2, 29, YearType::Leap));
    assert_eq!(60, ordinal_day_number(3, 1, YearType::Common));
}

#[test]
fn iso_weeks_follow_one_another() {
    fn weeks_in(y: i32) -> u32 {
        let wd = Date::from_gregorian(y, 1, 1).unwrap().day_of_week();
        if wd == 4 || (YearType::from_gregorian(y).is_leap() && wd == 3) {
            53
        } else {
            52
        }
    }
    assert_eq!(53, weeks_in(2020));
    assert_eq!(53, weeks_in(2026));
    assert_eq!(52, weeks_in(2021));
    let start = Date::from_gregorian(2019, 12, 1).unwrap().jdn();
    let end = Date::from_gregorian(2027, 2, 1).unwrap().jdn();
    for jdn in start..end {
        let d = Date::from_jdn(jdn);
        let next = Date::from_jdn(jdn + 1);
        let (iy, w) = d.year_week_gregorian();
        assert!(1 <= w && w <= weeks_in(iy));
        assert!((iy - d.gregorian().0).abs() <= 1);
        let expected = if next.day_of_week() != 1 {
            (iy, w)
        } else if w < weeks_in(iy) {
            (iy, w + 1)
        } else {
            (iy + 1, 1)
        };
        assert_eq!(expected, next.year_week_gregorian(), "jdn {jdn}");
    }
}
