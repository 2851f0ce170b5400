use kalendarilo::chinese::fmt::{day, month, sexagenary, solar_term};
use kalendarilo::chinese::ephemeris::{self, Table};
use kalendarilo::chinese::{
    sexagenary_for_year, Annus, DataFault, Month, OtherAnnus, SolarTermErr,
};
use kalendarilo::Date;

fn date(y: i32, m: u32, d: u32) -> Date {
    Date::from_gregorian(y, m, d).unwrap()
}

fn date_list(list: &[(i32, u32, u32)]) -> Vec<Date> {
    list.iter().map(|&(y, m, d)| date(y, m, d)).collect()
}

/// Beijing dates of the solar terms from the winter solstice of 1999 to that
/// of 2000.
fn solar_terms_2000() -> Vec<Date> {
    date_list(&[
        (1999, 12, 22), (2000, 1, 6), (2000, 1, 21), (2000, 2, 4), (2000, 2, 19),
        (2000, 3, 5), (2000, 3, 20), (2000, 4, 4), (2000, 4, 20), (2000, 5, 5),
        (2000, 5, 21), (2000, 6, 5), (2000, 6, 21), (2000, 7, 7), (2000, 7, 22),
        (2000, 8, 7), (2000, 8, 23), (2000, 9, 7), (2000, 9, 22), (2000, 10, 8),
        (2000, 10, 23), (2000, 11, 7), (2000, 11, 22), (2000, 12, 7), (2000, 12, 21),
    ])
}

/// Beijing dates of the 15 new moons from the one before the winter solstice
/// of 1999.
fn new_moons_2000() -> Vec<Date> {
    date_list(&[
        (1999, 12, 8), (2000, 1, 7), (2000, 2, 5), (2000, 3, 6), (2000, 4, 5),
        (2000, 5, 4), (2000, 6, 2), (2000, 7, 2), (2000, 7, 31), (2000, 8, 29),
        (2000, 9, 28), (2000, 10, 27), (2000, 11, 26), (2000, 12, 26), (2001, 1, 24),
    ])
}

/// Beijing dates of the solar terms from the winter solstice of 2016 to that
/// of 2017.
fn solar_terms_2017() -> Vec<Date> {
    date_list(&[
        (2016, 12, 21), (2017, 1, 5), (2017, 1, 20), (2017, 2, 3), (2017, 2, 18),
        (2017, 3, 5), (2017, 3, 20), (2017, 4, 4), (2017, 4, 20), (2017, 5, 5),
        (2017, 5, 21), (2017, 6, 5), (2017, 6, 21), (2017, 7, 7), (2017, 7, 22),
        (2017, 8, 7), (2017, 8, 23), (2017, 9, 7), (2017, 9, 23), (2017, 10, 8),
        (2017, 10, 23), (2017, 11, 7), (2017, 11, 22), (2017, 12, 7), (2017, 12, 22),
    ])
}

/// Beijing dates of the 15 new moons from the one before the winter solstice
/// of 2016.
fn new_moons_2017() -> Vec<Date> {
    date_list(&[
        (2016, 11, 29), (2016, 12, 29), (2017, 1, 28), (2017, 2, 26), (2017, 3, 28),
        (2017, 4, 26), (2017, 5, 26), (2017, 6, 24), (2017, 7, 23), (2017, 8, 22),
        (2017, 9, 20), (2017, 10, 20), (2017, 11, 18), (2017, 12, 18), (2018, 1, 17),
    ])
}

/// Beijing dates of the solar terms from the winter solstice of 2015 to that
/// of 2016.
fn solar_terms_2016() -> Vec<Date> {
    date_list(&[
        (2015, 12, 22), (2016, 1, 6), (2016, 1, 20), (2016, 2, 4), (2016, 2, 19),
        (2016, 3, 5), (2016, 3, 20), (2016, 4, 4), (2016, 4, 19), (2016, 5, 5),
        (2016, 5, 20), (2016, 6, 5), (2016, 6, 21), (2016, 7, 7), (2016, 7, 22),
        (2016, 8, 7), (2016, 8, 23), (2016, 9, 7), (2016, 9, 22), (2016, 10, 8),
        (2016, 10, 23), (2016, 11, 7), (2016, 11, 22), (2016, 12, 7), (2016, 12, 21),
    ])
}

/// Beijing dates of the solar terms from the winter solstice of 2017 to that
/// of 2018.
fn solar_terms_2018() -> Vec<Date> {
    date_list(&[
        (2017, 12, 22), (2018, 1, 5), (2018, 1, 20), (2018, 2, 4), (2018, 2, 19),
        (2018, 3, 5), (2018, 3, 21), (2018, 4, 5), (2018, 4, 20), (2018, 5, 5),
        (2018, 5, 21), (2018, 6, 6), (2018, 6, 21), (2018, 7, 7), (2018, 7, 23),
        (2018, 8, 7), (2018, 8, 23), (2018, 9, 8), (2018, 9, 23), (2018, 10, 8),
        (2018, 10, 23), (2018, 11, 7), (2018, 11, 22), (2018, 12, 7), (2018, 12, 22),
    ])
}

/// Beijing dates of the 15 new moons from the one before the winter solstice
/// of 2017.
fn new_moons_2018() -> Vec<Date> {
    date_list(&[
        (2017, 11, 18), (2017, 12, 18), (2018, 1, 17), (2018, 2, 16), (2018, 3, 17),
        (2018, 4, 16), (2018, 5, 15), (2018, 6, 14), (2018, 7, 13), (2018, 8, 11),
        (2018, 9, 10), (2018, 10, 9), (2018, 11, 8), (2018, 12, 7), (2019, 1, 6),
    ])
}

fn table_2017_2018() -> Table {
    Table::new(vec![
        ephemeris::Annus {
            annus: 2017,
            solar_term: solar_terms_2017(),
            new_moon: new_moons_2017(),
        },
        ephemeris::Annus {
            annus: 2018,
            solar_term: solar_terms_2018(),
            new_moon: new_moons_2018(),
        },
    ])
    .unwrap()
}

/// Beijing dates of the 15 new moons from the one before the winter solstice
/// of 2015.
fn new_moons_2016() -> Vec<Date> {
    date_list(&[
        (2015, 12, 11), (2016, 1, 10), (2016, 2, 8), (2016, 3, 9), (2016, 4, 7),
        (2016, 5, 6), (2016, 6, 5), (2016, 7, 4), (2016, 8, 3), (2016, 9, 1),
        (2016, 10, 1), (2016, 10, 31), (2016, 11, 29), (2016, 12, 29), (2017, 1, 28),
    ])
}

fn annus_2000() -> Annus {
    Annus::from_dates(2000, solar_terms_2000(), new_moons_2000()).unwrap()
}

fn annus_2017() -> Annus {
    Annus::from_dates(2017, solar_terms_2017(), new_moons_2017()).unwrap()
}

#[test]
fn test_sexagenary() {
    for (std, num) in [("甲子", 1), ("庚寅", 27), ("癸亥", 60)] {
        assert_eq!(std, sexagenary(num));
    }
}

#[test]
fn test_day() {
    for (std, d) in [
        ("初一", 1),
        ("初十", 10),
        ("十一", 11),
        ("二十", 20),
        ("廿一", 21),
        ("三十", 30),
    ] {
        assert_eq!(std, day(d));
    }
}

#[test]
fn month_and_term_names() {
    assert_eq!("冬月", month(Month::Common(11)));
    assert_eq!("閏正月", month(Month::Leap(1)));
    assert_eq!("臘月", Month::Common(12).name());
    assert_eq!("閏六月", Month::Leap(6).name());
    assert_eq!("十月", Month::Common(10).name());
    assert_eq!("穀雨", solar_term(6));
    assert_eq!("立春", solar_term(1));
    assert_eq!("大寒", solar_term(24));
    assert_eq!("冬至", solar_term(22));
    assert_eq!("乙巳", sexagenary(42));
    assert_eq!("廿五", day(25));
}

#[test]
fn year_sexagenary() {
    for (std, year) in [(60, -2697), (1, -2696), (17, 2000)] {
        assert_eq!(std, sexagenary_for_year(year));
    }
}

#[test]
fn months() {
    let annus = annus_2000();
    let stds = [
        (11, "1999-12-08"),
        (12, "2000-01-07"),
        (1, "2000-02-05"),
        (2, "2000-03-06"),
        (3, "2000-04-05"),
        (4, "2000-05-04"),
        (5, "2000-06-02"),
        (6, "2000-07-02"),
        (7, "2000-07-31"),
        (8, "2000-08-29"),
        (9, "2000-09-28"),
        (10, "2000-10-27"),
        (11, "2000-11-26"),
    ];
    assert_eq!(stds.len(), annus.months.len());
    for (std, month) in stds.iter().zip(&annus.months) {
        assert_eq!(Month::Common(std.0), month.month);
        assert_eq!(std.1, month.date.iso_gregorian());
    }
}

#[test]
fn leap_months() {
    let stds = [
        (11, "2016-11-29"),
        (12, "2016-12-29"),
        (1, "2017-01-28"),
        (2, "2017-02-26"),
        (3, "2017-03-28"),
        (4, "2017-04-26"),
        (5, "2017-05-26"),
        (6, "2017-06-24"),
        (-6, "2017-07-23"),
        (7, "2017-08-22"),
        (8, "2017-09-20"),
        (9, "2017-10-20"),
        (10, "2017-11-18"),
        (11, "2017-12-18"),
    ];
    let annus = annus_2017();
    for (std, month) in stds.iter().zip(&annus.months) {
        let std_month = if std.0 > 0 {
            Month::Common(std.0 as u32)
        } else {
            Month::Leap(-std.0 as u32)
        };
        assert_eq!(
            (std_month, std.1.to_string()),
            (month.month, month.date.iso_gregorian())
        );
    }
    assert_eq!(stds.len(), annus.months.len());
}

#[test]
fn dates() {
    let data = [
        ((2016, 11, 29), Ok((2016, Month::Common(11), 1))),
        ((2017, 1, 27), Ok((2016, Month::Common(12), 30))),
        ((2017, 1, 28), Ok((2017, Month::Common(1), 1))),
        ((2017, 7, 22), Ok((2017, Month::Common(6), 29))),
        ((2017, 7, 23), Ok((2017, Month::Leap(6), 1))),
        ((2017, 12, 17), Ok((2017, Month::Common(10), 30))),
        ((2016, 11, 28), Err(OtherAnnus::Before)),
        ((2017, 12, 18), Err(OtherAnnus::After)),
    ];
    let annus = annus_2017();
    for ((y, m, d), std) in data {
        assert_eq!(std, annus.ymd_for(Date::from_gregorian(y, m, d).unwrap()));
    }
}

#[test]
fn mod_solar_terms() {
    let dataset = [
        ((2016, 11, 28), Err(SolarTermErr::OtherAnnus(OtherAnnus::Before))),
        ((2016, 11, 29), Ok((2016, 20, 7))),
        ((2016, 12, 7), Ok((2016, 21, 0))),
        ((2016, 12, 21), Ok((2017, 22, 0))),
        ((2016, 12, 22), Ok((2017, 22, 1))),
        ((2017, 1, 20), Ok((2017, 24, 0))),
        ((2017, 2, 3), Ok((2017, 1, 0))),
        ((2017, 12, 7), Ok((2017, 21, 0))),
        ((2017, 12, 17), Ok((2017, 21, 10))),
        ((2017, 12, 18), Ok((2017, 21, 11))),
        ((2017, 12, 21), Ok((2017, 21, 14))),
        ((2017, 12, 22), Err(SolarTermErr::OtherAnnus(OtherAnnus::After))),
    ];
    let table = Table::new(vec![
        ephemeris::Annus {
            annus: 2016,
            solar_term: solar_terms_2016(),
            new_moon: new_moons_2016(),
        },
        ephemeris::Annus {
            annus: 2017,
            solar_term: solar_terms_2017(),
            new_moon: new_moons_2017(),
        },
    ])
    .unwrap();
    let annus = Annus::new(&table, 2017).unwrap().unwrap();
    for ((y, m, d), std) in dataset {
        assert_eq!(
            std,
            annus.solar_term_for(&table, Date::from_gregorian(y, m, d).unwrap())
        );
    }
    let previous = solar_terms_2016();
    assert_eq!(
        Ok((2016, 20, 7)),
        annus.solar_term_with_previous(date(2016, 11, 29), Some(&previous))
    );
    let without_2016 = table_2017_2018();
    assert_eq!(
        Err(SolarTermErr::NoData),
        annus.solar_term_for(&without_2016, date(2016, 11, 29))
    );
    assert_eq!(
        Ok((2017, 22, 0)),
        annus.solar_term_for(&without_2016, date(2016, 12, 21))
    );
}

#[test]
fn sui_2000_scenarios() {
    let annus = annus_2000();
    assert_eq!("1999-12-22", annus.solar_terms[0].iso_gregorian());
    assert_eq!("2000-12-21", annus.solar_terms[24].iso_gregorian());
    assert_eq!("1999-12-08", annus.months[0].date.iso_gregorian());
    let new_year = date(2000, 1, 1);
    assert_eq!(Ok((1999, Month::Common(11), 25)), annus.ymd_for(new_year));
    assert_eq!(Ok((2000, 22, 10)), annus.solar_term_with_previous(new_year, None));
    assert!(annus.months.iter().all(|m| !m.month.is_leap()));
}

#[test]
fn solar_term_needs_previous_sui_before_solstice() {
    let annus = annus_2017();
    assert_eq!(
        Err(SolarTermErr::NoData),
        annus.solar_term_with_previous(date(2016, 12, 1), None)
    );
    assert_eq!(Ok((2017, 22, 1)), annus.solar_term_with_previous(date(2016, 12, 22), None));
    let mut previous = solar_terms_2016();
    previous[22] = date(2016, 12, 2);
    previous[23] = date(2016, 12, 9);
    assert_eq!(
        Err(SolarTermErr::Inconsistent),
        annus.solar_term_with_previous(date(2016, 12, 1), Some(&previous))
    );
}

#[test]
fn ymd_for_covers_the_whole_sui() {
    let annus = annus_2017();
    let first = annus.months[0].date.jdn();
    let end = annus.months.last().unwrap().date.jdn();
    assert_eq!(Err(OtherAnnus::Before), annus.ymd_for(Date::from_jdn(first - 1)));
    assert_eq!(Err(OtherAnnus::After), annus.ymd_for(Date::from_jdn(end)));
    for jdn in first..end {
        let (_, m, d) = annus.ymd_for(Date::from_jdn(jdn)).unwrap();
        assert!((1..=30).contains(&d));
        assert!((1..=12).contains(&m.num()));
    }
    assert_eq!(384, end - first);
}

#[test]
fn from_date() {
    let table = table_2017_2018();
    let dataset = [
        (2017, (2017, 1, 27)),
        (2017, (2017, 12, 17)),
        (2018, (2017, 12, 18)),
    ];
    for (std, (y, m, d)) in dataset {
        assert_eq!(
            Some(std),
            Annus::from_date(&table, Date::from_gregorian(y, m, d).unwrap())
                .map(|a| a.unwrap().annus)
        );
    }
    assert!(Annus::from_date(&table, date(2016, 11, 28)).is_none());
    assert!(Annus::from_date(&table, date(2019, 1, 6)).is_none());
}

#[test]
fn search_steps() {
    let a2017 = annus_2017();
    assert_eq!(None, a2017.next_annus_toward(date(2017, 1, 27)));
    assert_eq!(None, a2017.next_annus_toward(date(2017, 12, 17)));
    assert_eq!(Some(2018), a2017.next_annus_toward(date(2017, 12, 18)));
    assert_eq!(Some(2016), a2017.next_annus_toward(date(2016, 11, 28)));
}

#[test]
fn table_lookup() {
    let table = table_2017_2018();
    assert_eq!(2018, table.get(2018).unwrap().annus);
    assert_eq!(2017, table.get(2017).unwrap().annus);
    assert!(table.get(2016).is_none());
    assert!(table.get(2019).is_none());
    let a2018 = Annus::new(&table, 2018).unwrap().unwrap();
    assert_eq!(13, a2018.months.len());
    assert!(a2018.months.iter().all(|m| !m.month.is_leap()));
    assert_eq!("2017-12-18", a2018.months[0].date.iso_gregorian());
    assert_eq!(
        Ok((2018, Month::Common(1), 1)),
        a2018.ymd_for(date(2018, 2, 16))
    );
    assert!(Annus::new(&table, 2019).is_none());
    let unsorted = Table::new(vec![
        ephemeris::Annus {
            annus: 2018,
            solar_term: solar_terms_2018(),
            new_moon: new_moons_2018(),
        },
        ephemeris::Annus {
            annus: 2017,
            solar_term: solar_terms_2017(),
            new_moon: new_moons_2017(),
        },
    ]);
    assert!(unsorted.is_none());
    let short = Table::new(vec![ephemeris::Annus {
        annus: 2017,
        solar_term: solar_terms_2017()[..24].to_vec(),
        new_moon: new_moons_2017(),
    }]);
    assert!(short.is_none());
}

#[test]
fn month_accessors() {
    assert_eq!(6, Month::Leap(6).num());
    assert!(Month::Leap(6).is_leap());
    assert_eq!(11, Month::Common(11).num());
    assert!(!Month::Common(11).is_leap());
}

#[test]
fn faulty_data_is_reported() {
    let mut unordered = new_moons_2000();
    unordered.swap(3, 4);
    assert_eq!(
        Some(DataFault::Unordered),
        Annus::from_dates(2000, solar_terms_2000(), unordered).err()
    );
    let late: Vec<Date> = new_moons_2000()
        .iter()
        .map(|d| Date::from_jdn(d.jdn() + 20))
        .collect();
    assert_eq!(
        Some(DataFault::NoMonthBeforeSolstice),
        Annus::from_dates(2000, solar_terms_2000(), late).err()
    );
    let mut sparse = new_moons_2000();
    for (i, d) in sparse.iter_mut().enumerate() {
        *d = Date::from_jdn(date(1999, 12, 8).jdn() + 40 * i as u32);
    }
    assert_eq!(
        Some(DataFault::MonthCount(9)),
        Annus::from_dates(2000, solar_terms_2000(), sparse).err()
    );
}
