//! The Chinese lunisolar calendar, built from the civil (Beijing time) dates
//! of new moons and solar terms.
//!
//! A sui (歲) runs from the eleventh month, the one holding the winter
//! solstice, to the eleventh month of the next solstice.

pub mod ephemeris;
pub mod fmt;

use crate::date::Date;
use crate::date::gregorian_of_jdn;
use ephemeris::{row_of, row_ok, Table};
use vstd::prelude::*;

verus! {

/// A month name: `Common(n)` for an ordinary month, `Leap(n)` for the leap
/// month that follows month `n`.
#[derive(Debug, Copy, Clone, Eq, PartialEq, Structural, Hash)]
pub enum Month {
    Common(u32),
    Leap(u32),
}

/// The number of a month, leap or not.
pub open spec fn month_number(m: Month) -> u32 {
    match m {
        Month::Common(n) => n,
        Month::Leap(n) => n,
    }
}

impl Month {
    /// The month's number, leap or not.
    pub fn num(&self) -> (r: u32)
        ensures
            r == month_number(*self),
    {
        match self {
            Month::Common(v) => *v,
            Month::Leap(v) => *v,
        }
    }

    /// `true` for a leap month, `false` for a common one.
    pub fn is_leap(&self) -> (r: bool)
        ensures
            r == (*self is Leap),
    {
        matches!(self, Month::Leap(_))
    }

    /// The month's name, with 月: 冬月 and 臘月 for the eleventh and twelfth, 閏
    /// before a leap month.
    pub fn name(&self) -> (r: String)
        requires
            1 <= month_number(*self) <= 12,
        ensures
            r@ == fmt::month_name(*self is Leap, month_number(*self) as int),
    {
        fmt::month(*self)
    }
}

/// The start of a month.
#[derive(Debug, Copy, Clone, Eq, PartialEq, Structural)]
pub struct NewMoon {
    /// Name of the month.
    pub month: Month,
    /// Date of its first day.
    pub date: Date,
}

/// A fault in the new-moon and solar-term dates a sui is built from; correct
/// ephemeris data never gives one.
#[derive(Debug, Copy, Clone, Eq, PartialEq, Structural)]
pub enum DataFault {
    /// The new moons or the solar terms are not in strictly increasing order.
    Unordered,
    /// No new moon falls on or before the starting winter solstice.
    NoMonthBeforeSolstice,
    /// The number of months between the two winter solstices is neither 12
    /// nor 13.
    MonthCount(usize),
}

/// A sui (歲): the months from the eleventh month, which holds a winter
/// solstice, up to the eleventh month of the next one.
#[derive(Debug, Clone)]
pub struct Annus {
    /// The year in which most of the sui falls.
    pub annus: i32,
    /// Dates of the 25 solar terms from the winter solstice to the next one.
    pub solar_terms: Vec<Date>,
    /// Starts of its months, ending with the first month of the next sui,
    /// which marks the end of this one.
    pub months: Vec<NewMoon>,
}

/// The date lies outside the sui: before its first day or after its last.
#[derive(Debug, Copy, Clone, Eq, PartialEq, Structural)]
pub enum OtherAnnus {
    Before,
    After,
}

/// Why no solar term can be given for a date.
#[derive(Debug, Copy, Clone, Eq, PartialEq, Structural)]
pub enum SolarTermErr {
    /// The solar terms of the previous sui are needed and were not given.
    NoData,
    /// The date lies outside the sui.
    OtherAnnus(OtherAnnus),
    /// The previous sui's solar terms do not reach the date; correct ephemeris
    /// data never gives this.
    Inconsistent,
}

/// What `Annus::ymd_for` gives for day `date`.
pub open spec fn ymd_of(a: Annus, date: int) -> Result<(i32, Month, u32), OtherAnnus> {
    let ds = month_dates(a.months@);
    let i = count_on_or_before(ds, date) - 1;
    let m = a.months[i].month;
    if date < ds[0]@ {
        Err(OtherAnnus::Before)
    } else if date >= ds.last()@ {
        Err(OtherAnnus::After)
    } else {
        Ok(
            (
                (if month_number(m) >= 11 {
                    a.annus - 1
                } else {
                    a.annus as int
                }) as i32,
                m,
                (date - ds[i]@ + 1) as u32,
            ),
        )
    }
}

/// Number (1 for 立春 to 24 for 大寒) of the solar term at index `i` of a sui's
/// list, which starts at the winter solstice (22, 冬至).
pub open spec fn term_number(i: int) -> u32 {
    ((i + 21) % 24 + 1) as u32
}

/// What `Annus::solar_term_for` gives for day `date`, with the solar terms of
/// the previous sui where they were given.
pub open spec fn solar_term_of(a: Annus, date: int, previous: Option<Seq<Date>>) -> Result<
    (i32, u32, u32),
    SolarTermErr,
> {
    let st = a.solar_terms@;
    let i = count_on_or_before(st.subrange(0, 24), date) - 1;
    if date < a.months[0].date@ {
        Err(SolarTermErr::OtherAnnus(OtherAnnus::Before))
    } else if date >= st[24]@ {
        Err(SolarTermErr::OtherAnnus(OtherAnnus::After))
    } else if date < st[0]@ {
        match previous {
            None => Err(SolarTermErr::NoData),
            Some(p) => if date >= p[23]@ {
                Ok(((a.annus - 1) as i32, term_number(23), (date - p[23]@) as u32))
            } else if date >= p[22]@ {
                Ok(((a.annus - 1) as i32, term_number(22), (date - p[22]@) as u32))
            } else {
                Err(SolarTermErr::Inconsistent)
            },
        }
    } else {
        Ok((a.annus, term_number(i), (date - st[i]@) as u32))
    }
}

/// Whether `s` is in strictly increasing order of day number.
pub open spec fn increasing(s: Seq<Date>) -> bool {
    forall|i: int, j: int| 0 <= i < j < s.len() ==> s[i]@ < s[j]@
}

/// How many dates of `s` fall on or before day `x`.
pub open spec fn count_on_or_before(s: Seq<Date>, x: int) -> int
    decreases s.len(),
{
    if s.len() == 0 {
        0
    } else {
        count_on_or_before(s.drop_last(), x) + if s.last()@ <= x {
            1int
        } else {
            0
        }
    }
}

/// The dates of a list of month starts.
pub open spec fn month_dates(ms: Seq<NewMoon>) -> Seq<Date> {
    ms.map_values(|m: NewMoon| m.date)
}

/// Month `k` of the sui, counted from 0 at the eleventh month, has no principal
/// term: the next new moon comes on or before the principal term that would
/// otherwise fall in it (as if no leap month came before it).
pub open spec fn lacks_principal_term(nm: Seq<Date>, st: Seq<Date>, m11: int, k: int) -> bool {
    &&& 0 <= m11 + k + 1 < nm.len()
    &&& 0 <= 2 * k < st.len()
    &&& nm[m11 + k + 1]@ <= st[2 * k]@
}

/// The first month, from the `k`-th on, that has no principal term; -1 for
/// none among the fourteen.
pub open spec fn first_termless(nm: Seq<Date>, st: Seq<Date>, m11: int, k: int) -> int
    decreases 14 - k,
{
    if k < 0 || k >= 14 {
        -1
    } else if lacks_principal_term(nm, st, m11, k) {
        k
    } else {
        first_termless(nm, st, m11, k + 1)
    }
}

/// Name of month `k` of a sui, counted from 0 at the eleventh month, with the
/// leap month at `leap` (-1 for none).
pub open spec fn month_name_at(k: int, leap: int) -> Month {
    if leap < 0 || k < leap {
        Month::Common(((k + 10) % 12 + 1) as u32)
    } else if k == leap {
        Month::Leap(((k + 9) % 12 + 1) as u32)
    } else {
        Month::Common(((k + 9) % 12 + 1) as u32)
    }
}

/// The months of a sui, from the dates of 15 new moons (from the one before
/// the winter solstice) and of its 25 solar terms (solstice to solstice).
///
/// The eleventh month is the last that starts on or before the solstice; the
/// sui ends with the last month that starts before the next solstice. Twelve
/// months in between are numbered 11, 12, 1, ..., 10; with thirteen, the first
/// month without a principal term is the leap month and repeats the number of
/// the month before it (there always is one: the twelfth month after the
/// eleventh ends before the next solstice).
pub open spec fn sui_months(nm: Seq<Date>, st: Seq<Date>) -> Result<Seq<NewMoon>, DataFault> {
    let m11 = count_on_or_before(nm, st[0]@) - 1;
    let m11_next = count_on_or_before(nm, st[24]@ - 1) - 1;
    let n = m11_next - m11;
    let leap = first_termless(nm, st, m11, 0);
    if !increasing(nm) || !increasing(st) {
        Err(DataFault::Unordered)
    } else if m11 < 0 {
        Err(DataFault::NoMonthBeforeSolstice)
    } else if n != 12 && n != 13 {
        Err(DataFault::MonthCount(n as usize))
    } else {
        Ok(
            Seq::new(
                (n + 1) as nat,
                |k: int|
                    NewMoon {
                        month: month_name_at(k, if n == 13 { leap } else { -1 }),
                        date: nm[m11 + k],
                    },
            ),
        )
    }
}

/// `res` is what `Annus::from_dates` gives on `row`, for year `y`.
pub open spec fn built_from(row: ephemeris::Annus, y: int, res: Result<Annus, DataFault>) -> bool {
    &&& same_outcome(res, sui_months(row.new_moon@, row.solar_term@))
    &&& (res matches Ok(a) ==> a.wf() && a.annus == y && a.solar_terms@ == row.solar_term@)
}

/// A built sui, or the fault, agrees with a month list, or the fault.
pub open spec fn same_outcome(res: Result<Annus, DataFault>, ms: Result<Seq<NewMoon>, DataFault>) -> bool {
    match res {
        Ok(a) => ms == Ok::<Seq<NewMoon>, DataFault>(a.months@),
        Err(e) => ms == Err::<Seq<NewMoon>, DataFault>(e),
    }
}

/// The search for the sui that holds day `date`, from the sui of year `y` on:
/// where the sui of `y` starts after the date the search goes on with `y - 1`,
/// where it ends on or before the date with `y + 1`. It gives the year where
/// it stops, with that sui's months or the fault met in building them; `None`
/// where it reaches a year without a row, or has taken `fuel` steps.
pub open spec fn sui_search(rows: Seq<ephemeris::Annus>, date: int, y: int, fuel: nat) -> Option<
    (int, Result<Seq<NewMoon>, DataFault>),
>
    decreases fuel,
{
    if fuel == 0 {
        None
    } else {
        match row_of(rows, y) {
            None => None,
            Some(row) => match sui_months(row.new_moon@, row.solar_term@) {
                Err(e) => Some((y, Err(e))),
                Ok(ms) => if date < ms[0].date@ {
                    sui_search(rows, date, y - 1, (fuel - 1) as nat)
                } else if date >= ms.last().date@ {
                    sui_search(rows, date, y + 1, (fuel - 1) as nat)
                } else {
                    Some((y, Ok(ms)))
                },
            },
        }
    }
}

/// A copy of a list of dates.
fn copy_dates(v: &Vec<Date>) -> (r: Vec<Date>)
    ensures
        r@ == v@,
{
    let mut r: Vec<Date> = Vec::new();
    let mut i: usize = 0;
    while i < v.len()
        invariant
            i <= v.len(),
            r@ =~= v@.subrange(0, i as int),
        decreases v.len() - i,
    {
        r.push(v[i]);
        i = i + 1;
    }
    assert(r@ =~= v@);
    r
}

impl Annus {
    /// Well-formed: solar terms and month starts in increasing order, the
    /// first month starting on or before the winter solstice and the last
    /// entry (the start of the next sui) before the next one, month numbers in
    /// `1..=12`, and the neighbouring years representable.
    pub open spec fn wf(&self) -> bool {
        &&& i32::MIN < self.annus < i32::MAX
        &&& self.solar_terms.len() == 25
        &&& increasing(self.solar_terms@)
        &&& self.months.len() >= 2
        &&& increasing(month_dates(self.months@))
        &&& self.months[0].date@ <= self.solar_terms[0]@
        &&& self.months@.last().date@ < self.solar_terms[24]@
        &&& forall|k: int|
            0 <= k < self.months.len() ==> 1 <= #[trigger] month_number(self.months[k].month) <= 12
    }
}

/// In increasing order, the dates counted by `count_on_or_before` are exactly
/// the first ones.
pub proof fn lemma_count_sorted(s: Seq<Date>, x: int)
    requires
        increasing(s),
    ensures
        0 <= count_on_or_before(s, x) <= s.len(),
        forall|k: int| 0 <= k < count_on_or_before(s, x) ==> s[k]@ <= x,
        forall|k: int| count_on_or_before(s, x) <= k < s.len() ==> s[k]@ > x,
    decreases s.len(),
{
    if s.len() > 0 {
        let t = s.drop_last();
        let c = count_on_or_before(s, x);
        let ct = count_on_or_before(t, x);
        let last = s[s.len() - 1];
        assert(increasing(t));
        lemma_count_sorted(t, x);
        assert(forall|k: int| 0 <= k < t.len() ==> #[trigger] t[k] == s[k]);
        if last@ <= x {
            assert(c == ct + 1);
            assert(ct == t.len()) by {
                if ct < t.len() {
                    assert(t[ct] == s[ct]);
                    assert(s[ct]@ < last@);
                }
            }
            assert forall|k: int| 0 <= k < c implies s[k]@ <= x by {
                if k < t.len() {
                    assert(t[k] == s[k]);
                }
            }
        } else {
            assert(c == ct);
            assert forall|k: int| 0 <= k < c implies s[k]@ <= x by {
                assert(t[k] == s[k]);
            }
            assert forall|k: int| c <= k < s.len() implies s[k]@ > x by {
                if k < t.len() {
                    assert(t[k] == s[k]);
                }
            }
        }
    }
}

/// Number of dates of `s` on or before day `x`.
fn count_dates_on_or_before(s: &Vec<Date>, x: u32) -> (r: usize)
    ensures
        r == count_on_or_before(s@, x as int),
{
    let mut r: usize = 0;
    let mut i: usize = 0;
    while i < s.len()
        invariant
            i <= s.len(),
            r == count_on_or_before(s@.subrange(0, i as int), x as int),
            r <= i,
        decreases s.len() - i,
    {
        assert(s@.subrange(0, i + 1).drop_last() =~= s@.subrange(0, i as int));
        if s[i].jdn() <= x {
            r = r + 1;
        }
        i = i + 1;
    }
    assert(s@.subrange(0, s.len() as int) =~= s@);
    r
}

/// Whether `s` is in strictly increasing order.
fn check_increasing(s: &Vec<Date>) -> (r: bool)
    ensures
        r == increasing(s@),
{
    let mut i: usize = 1;
    while i < s.len()
        invariant
            1 <= i,
            forall|a: int, b: int| 0 <= a < b < i && b < s.len() ==> s[a]@ < s[b]@,
        decreases s.len() - i,
    {
        if s[i - 1].jdn() >= s[i].jdn() {
            return false;
        }
        i = i + 1;
    }
    true
}

/// The first month without a principal term, as `first_termless` gives it.
fn find_termless(nm: &Vec<Date>, st: &Vec<Date>, m11: usize) -> (r: Option<usize>)
    requires
        m11 < nm.len(),
        nm.len() == 15,
    ensures
        r matches Some(k) ==> k < 14,
        first_termless(nm@, st@, m11 as int, 0) == (match r {
            Some(k) => k as int,
            None => -1,
        }),
{
    let mut k: usize = 0;
    while k < 14
        invariant
            k <= 14,
            m11 < nm.len(),
            nm.len() == 15,
            first_termless(nm@, st@, m11 as int, 0) == first_termless(nm@, st@, m11 as int, k as int),
        decreases 14 - k,
    {
        if m11 + k + 1 < nm.len() && 2 * k < st.len() && nm[m11 + k + 1].jdn() <= st[2 * k].jdn() {
            return Some(k);
        }
        k = k + 1;
    }
    None
}

impl Annus {
    /// Builds the sui of year `annus` from the Beijing-time dates of its 15 new
    /// moons, from the one before its winter solstice on, and of its 25 solar
    /// terms, from that solstice to the next.
    ///
    /// Returns a `DataFault` where those dates cannot come from correct
    /// ephemeris data.
    pub fn from_dates(annus: i32, solar_terms: Vec<Date>, new_moons: Vec<Date>) -> (r: Result<
        Self,
        DataFault,
    >)
        requires
            i32::MIN < annus < i32::MAX,
            solar_terms.len() == 25,
            new_moons.len() == 15,
        ensures
            sui_months(new_moons@, solar_terms@) == (match r {
                Ok(a) => Ok(a.months@),
                Err(e) => Err::<Seq<NewMoon>, DataFault>(e),
            }),
            r matches Ok(a) ==> a.wf() && a.annus == annus && a.solar_terms@ == solar_terms@,
    {
        let ghost nm = new_moons@;
        let ghost st = solar_terms@;
        if !check_increasing(&new_moons) || !check_increasing(&solar_terms) {
            return Err(DataFault::Unordered);
        }
        let ws = solar_terms[0].jdn();
        let ws_next = solar_terms[24].jdn();
        proof {
            lemma_count_sorted(nm, ws as int);
            lemma_count_sorted(nm, ws_next - 1);
        }
        let c11 = count_dates_on_or_before(&new_moons, ws);
        if c11 == 0 {
            return Err(DataFault::NoMonthBeforeSolstice);
        }
        let m11 = c11 - 1;
        assert(nm[0]@ <= ws);
        assert(ws < ws_next);
        let m11_next = count_dates_on_or_before(&new_moons, ws_next - 1) - 1;
        assert(m11 <= m11_next) by {
            if m11_next < m11 {
                assert(nm[m11 as int]@ <= ws);
                assert(nm[m11 as int]@ > ws_next - 1);
            }
        }
        let n = m11_next - m11;
        if n != 12 && n != 13 {
            return Err(DataFault::MonthCount(n));
        }
        let leap: Option<usize> = if n == 13 {
            proof {
                assert(nm[m11 + 13]@ <= ws_next - 1);
                assert(lacks_principal_term(nm, st, m11 as int, 12));
                lemma_first_termless_found(nm, st, m11 as int, 0, 12);
            }
            find_termless(&new_moons, &solar_terms, m11)
        } else {
            None
        };
        let ghost leap_pos: int = match leap {
            Some(l) => l as int,
            None => -1,
        };
        let ghost expected = Seq::new(
            (n + 1) as nat,
            |k: int| NewMoon { month: month_name_at(k, leap_pos), date: nm[m11 + k] },
        );
        let mut months: Vec<NewMoon> = Vec::new();
        let mut k: usize = 0;
        while k <= n
            invariant
                k <= n + 1,
                n == 12 || n == 13,
                m11 + n < 15,
                nm == new_moons@,
                new_moons.len() == 15,
                leap_pos == (match leap {
                    Some(l) => l as int,
                    None => -1,
                }),
                expected.len() == n + 1,
                forall|j: int|
                    0 <= j <= n ==> #[trigger] expected[j] == (NewMoon {
                        month: month_name_at(j, leap_pos),
                        date: nm[m11 + j],
                    }),
                match leap {
                    Some(l) => l <= 13,
                    None => true,
                },
                months@ =~= expected.subrange(0, k as int),
            decreases n + 1 - k,
        {
            let month = match leap {
                Some(l) => {
                    if k < l {
                        Month::Common(((k + 10) % 12 + 1) as u32)
                    } else if k == l {
                        Month::Leap(((k + 9) % 12 + 1) as u32)
                    } else {
                        Month::Common(((k + 9) % 12 + 1) as u32)
                    }
                },
                None => Month::Common(((k + 10) % 12 + 1) as u32),
            };
            assert(month == month_name_at(k as int, leap_pos));
            months.push(NewMoon { month, date: new_moons[m11 + k] });
            assert(expected.subrange(0, k + 1) =~= expected.subrange(0, k as int).push(
                expected[k as int],
            ));
            k = k + 1;
        }
        assert(months@ =~= expected);
        let a = Annus { annus, solar_terms, months };
        assert(month_dates(a.months@) =~= nm.subrange(m11 as int, (m11 + n + 1) as int));
        assert(a.months[0].date@ == nm[m11 as int]@);
        assert(a.months@.last().date@ == nm[m11_next as int]@);
        assert(nm[m11_next as int]@ <= ws_next - 1);
        assert(a.wf());
        Ok(a)
    }

    /// The sui of year `annus`, built from its row of `table`; `None` where the
    /// table has no such row.
    pub fn new(table: &Table, annus: i32) -> (r: Option<Result<Self, DataFault>>)
        requires
            table.wf(),
        ensures
            match row_of(table.rows@, annus as int) {
                None => r is None,
                Some(row) => r matches Some(res) && built_from(row, annus as int, res),
            },
    {
        match table.get(annus) {
            None => None,
            Some(row) => {
                proof {
                    let i = choose|i: int|
                        0 <= i < table.rows@.len() && table.rows@[i].annus == annus as int;
                    assert(row_ok(table.rows@[i]));
                }
                let solar_terms = copy_dates(&row.solar_term);
                let new_moons = copy_dates(&row.new_moon);
                Some(Annus::from_dates(annus, solar_terms, new_moons))
            },
        }
    }

    /// The sui of `table` that holds `date`, by the search of `sui_search` from
    /// the date's Gregorian year, given as many steps as the table has rows
    /// (a search that never turns back visits each row at most once); `None`
    /// where the search reaches a year without a row.
    pub fn from_date(table: &Table, date: Date) -> (r: Option<Result<Self, DataFault>>)
        requires
            table.wf(),
        ensures
            match sui_search(
                table.rows@,
                date@,
                gregorian_of_jdn(date@).0,
                table.rows.len() as nat,
            ) {
                None => r is None,
                Some((y, res)) => r matches Some(x) && same_outcome(x, res) && (row_of(
                    table.rows@,
                    y,
                ) matches Some(row) && built_from(row, y, x)),
            },
            r matches Some(Ok(a)) ==> a.months[0].date@ <= date@ < a.months@.last().date@,
            ({
                let y = gregorian_of_jdn(date@).0;
                (row_of(table.rows@, y) matches Some(row) && sui_months(
                    row.new_moon@,
                    row.solar_term@,
                ) matches Ok(ms) && ms[0].date@ <= date@ < ms.last().date@) ==> (r matches Some(
                    Ok(a),
                ) && a.annus == y)
            }),
    {
        let mut y = date.gregorian().0;
        let ghost y0 = y as int;
        assert(y0 == gregorian_of_jdn(date@).0);
        let ghost rows = table.rows@;
        let ghost fuel = table.rows.len() as nat;
        let mut steps: usize = 0;
        proof {
            if row_of(rows, y0) is Some {
                assert(rows.len() > 0);
            }
        }
        while steps < table.rows.len()
            invariant
                table.wf(),
                rows == table.rows@,
                fuel == table.rows.len(),
                y0 == gregorian_of_jdn(date@).0,
                steps <= fuel,
                steps == 0 ==> y == y0,
                sui_search(rows, date@, y0, fuel) == sui_search(
                    rows,
                    date@,
                    y as int,
                    (fuel - steps) as nat,
                ),
            decreases table.rows.len() - steps,
        {
            let annus = match Annus::new(table, y) {
                None => {
                    proof {
                        let f = (fuel - steps) as nat;
                        assert(f > 0);
                        assert(row_of(rows, y as int) is None);
                        assert(sui_search(rows, date@, y as int, f) is None);
                        assert(sui_search(rows, date@, y0, fuel) is None);
                    }
                    return None;
                },
                Some(Err(fault)) => {
                    return Some(Err(fault));
                },
                Some(Ok(a)) => a,
            };
            match annus.next_annus_toward(date) {
                None => {
                    return Some(Ok(annus));
                },
                Some(next) => {
                    y = next;
                },
            }
            steps = steps + 1;
        }
        None
    }

    /// The lunisolar `(year, month, day)` of `date`.
    ///
    /// Months eleven and twelve of a sui belong to the year before `annus`.
    /// Fails with `Before` or `After` where `date` lies outside the sui.
    pub fn ymd_for(&self, date: Date) -> (r: Result<(i32, Month, u32), OtherAnnus>)
        requires
            self.wf(),
        ensures
            r == ymd_of(*self, date@),
            r is Ok <==> self.months[0].date@ <= date@ < self.months@.last().date@,
            r == Err::<(i32, Month, u32), OtherAnnus>(OtherAnnus::Before) <==> date@
                < self.months[0].date@,
            r == Err::<(i32, Month, u32), OtherAnnus>(OtherAnnus::After) <==> date@
                >= self.months@.last().date@,
    {
        let ghost ds = month_dates(self.months@);
        let n = self.months.len();
        if date.jdn() < self.months[0].date.jdn() {
            return Err(OtherAnnus::Before);
        } else if date.jdn() >= self.months[n - 1].date.jdn() {
            return Err(OtherAnnus::After);
        }
        proof {
            lemma_count_sorted(ds, date@);
            assert(ds[0] == self.months@[0].date);
        }
        let mut i: usize = 0;
        while i + 1 < n && self.months[i + 1].date.jdn() <= date.jdn()
            invariant
                n == self.months.len(),
                n >= 2,
                ds == month_dates(self.months@),
                forall|k: int| 0 <= k < n ==> #[trigger] ds[k] == self.months@[k].date,
                i < n,
                ds[i as int]@ <= date@,
                i < count_on_or_before(ds, date@),
                forall|k: int| count_on_or_before(ds, date@) <= k < n ==> ds[k]@ > date@,
            decreases n - i,
        {
            i = i + 1;
        }
        assert(i == count_on_or_before(ds, date@) - 1) by {
            if i + 1 < count_on_or_before(ds, date@) {
                assert(ds[i + 1]@ <= date@);
                assert(ds[n - 1]@ <= date@);
            }
        }
        let m = self.months[i];
        let d = date.jdn() - m.date.jdn() + 1;
        let y = if m.month.num() >= 11 {
            self.annus - 1
        } else {
            self.annus
        };
        Ok((y, m.month, d))
    }

    /// The solar term in which `date` falls, as `(year, term, offset)`: the sui
    /// of the term (the previous one for the terms that began before this
    /// sui's winter solstice), its number (1 for 立春 to 24 for 大寒), and the
    /// days since it began (0 on the day it begins).
    ///
    /// `previous` holds the 25 solar-term dates of the previous sui, needed
    /// only for dates before this sui's winter solstice. Covers the days from
    /// the first of the sui to the one before the next winter solstice.
    pub fn solar_term_with_previous(&self, date: Date, previous: Option<&Vec<Date>>) -> (r: Result<
        (i32, u32, u32),
        SolarTermErr,
    >)
        requires
            self.wf(),
            previous matches Some(p) ==> p.len() == 25,
        ensures
            r == solar_term_of(
                *self,
                date@,
                match previous {
                    Some(p) => Some(p@),
                    None => None,
                },
            ),
            r == Err::<(i32, u32, u32), SolarTermErr>(SolarTermErr::OtherAnnus(OtherAnnus::Before))
                <==> date@ < self.months[0].date@,
            r == Err::<(i32, u32, u32), SolarTermErr>(SolarTermErr::OtherAnnus(OtherAnnus::After))
                <==> self.months[0].date@ <= date@ && date@ >= self.solar_terms[24]@,
    {
        let st = &self.solar_terms;
        if date.jdn() < self.months[0].date.jdn() {
            return Err(SolarTermErr::OtherAnnus(OtherAnnus::Before));
        } else if date.jdn() >= st[24].jdn() {
            return Err(SolarTermErr::OtherAnnus(OtherAnnus::After));
        }
        if date.jdn() < st[0].jdn() {
            return match previous {
                None => Err(SolarTermErr::NoData),
                Some(p) => {
                    if date.jdn() >= p[23].jdn() {
                        Ok((self.annus - 1, 21, date.jdn() - p[23].jdn()))
                    } else if date.jdn() >= p[22].jdn() {
                        Ok((self.annus - 1, 20, date.jdn() - p[22].jdn()))
                    } else {
                        Err(SolarTermErr::Inconsistent)
                    }
                },
            };
        }
        let ghost first = st@.subrange(0, 24);
        proof {
            assert(increasing(first));
            lemma_count_sorted(first, date@);
            assert(first[0] == st@[0]);
        }
        let mut i: usize = 0;
        while i + 1 < 24 && st[i + 1].jdn() <= date.jdn()
            invariant
                st.len() == 25,
                first == st@.subrange(0, 24),
                forall|k: int| 0 <= k < 24 ==> #[trigger] first[k] == st@[k],
                i < 24,
                st[i as int]@ <= date@,
                i < count_on_or_before(first, date@),
                forall|k: int| count_on_or_before(first, date@) <= k < 24 ==> first[k]@ > date@,
            decreases 24 - i,
        {
            assert(first[i + 1] == st@[i + 1]);
            i = i + 1;
        }
        assert(i == count_on_or_before(first, date@) - 1) by {
            if i + 1 < count_on_or_before(first, date@) {
                assert(first[i + 1]@ <= date@);
            }
        }
        let off = date.jdn() - st[i].jdn();
        Ok((self.annus, ((i + 21) % 24 + 1) as u32, off))
    }

    /// The solar term in which `date` falls, as `solar_term_with_previous`
    /// gives it, with the previous sui's solar terms taken from `table`; fails
    /// with `NoData` where they are needed and the table lacks them.
    pub fn solar_term_for(&self, table: &Table, date: Date) -> (r: Result<
        (i32, u32, u32),
        SolarTermErr,
    >)
        requires
            self.wf(),
            table.wf(),
        ensures
            r == solar_term_of(
                *self,
                date@,
                match row_of(table.rows@, self.annus - 1) {
                    Some(row) => Some(row.solar_term@),
                    None => None,
                },
            ),
    {
        match table.get(self.annus - 1) {
            None => self.solar_term_with_previous(date, None),
            Some(row) => {
                proof {
                    let i = choose|i: int|
                        0 <= i < table.rows@.len() && table.rows@[i].annus == self.annus - 1;
                    assert(row_ok(table.rows@[i]));
                }
                self.solar_term_with_previous(date, Some(&row.solar_term))
            },
        }
    }

    /// One step of the search for the sui that holds `date`: `None` where this
    /// sui holds it, else the year of the neighbouring sui on the side where
    /// it lies.
    pub fn next_annus_toward(&self, date: Date) -> (r: Option<i32>)
        requires
            self.wf(),
        ensures
            r == (if date@ < self.months[0].date@ {
                Some((self.annus - 1) as i32)
            } else if date@ >= self.months@.last().date@ {
                Some((self.annus + 1) as i32)
            } else {
                None
            }),
    {
        let n = self.months.len();
        if date.jdn() < self.months[0].date.jdn() {
            Some(self.annus - 1)
        } else if date.jdn() >= self.months[n - 1].date.jdn() {
            Some(self.annus + 1)
        } else {
            None
        }
    }
}

/// The month `first_termless` finds, if any, lies between `k` and 13 and has
/// no principal term.
pub proof fn lemma_first_termless_range(nm: Seq<Date>, st: Seq<Date>, m11: int, k: int)
    requires
        0 <= k,
    ensures
        first_termless(nm, st, m11, k) == -1 || (k <= first_termless(nm, st, m11, k) < 14
            && lacks_principal_term(nm, st, m11, first_termless(nm, st, m11, k))),
    decreases 14 - k,
{
    if k < 14 && !lacks_principal_term(nm, st, m11, k) {
        lemma_first_termless_range(nm, st, m11, k + 1);
    }
}

/// Where some month from the `k`-th to the thirteenth lacks a principal term,
/// `first_termless` finds one.
pub proof fn lemma_first_termless_found(nm: Seq<Date>, st: Seq<Date>, m11: int, k: int, j: int)
    requires
        0 <= k <= j < 14,
        lacks_principal_term(nm, st, m11, j),
    ensures
        first_termless(nm, st, m11, k) >= 0,
    decreases j - k,
{
    if !lacks_principal_term(nm, st, m11, k) {
        lemma_first_termless_found(nm, st, m11, k + 1, j);
    }
}

/// A sui built from available data has 12 months, all common, or 13 months
/// with exactly one leap month; the list of month starts has one entry more,
/// the start of the next sui.
pub proof fn lemma_sui_month_count(nm: Seq<Date>, st: Seq<Date>)
    requires
        nm.len() == 15,
        st.len() == 25,
    ensures
        sui_months(nm, st) matches Ok(ms) ==> {
            ||| (ms.len() - 1 == 12 && forall|k: int| 0 <= k < ms.len() ==> ms[k].month is Common)
            ||| (ms.len() - 1 == 13 && exists|l: int|
                0 <= l < ms.len() && ms[l].month is Leap && forall|k: int|
                    0 <= k < ms.len() && k != l ==> ms[k].month is Common)
        },
{
    if sui_months(nm, st) is Ok {
        let m11 = count_on_or_before(nm, st[0]@) - 1;
        let m11_next = count_on_or_before(nm, st[24]@ - 1) - 1;
        let n = m11_next - m11;
        let leap = first_termless(nm, st, m11, 0);
        let ms = sui_months(nm, st)->Ok_0;
        lemma_first_termless_range(nm, st, m11, 0);
        if n == 13 {
            lemma_count_sorted(nm, st[24]@ - 1);
            lemma_first_termless_found(nm, st, m11, 0, 12);
            assert(ms[leap].month is Leap);
            assert(forall|k: int| 0 <= k < ms.len() && k != leap ==> ms[k].month is Common);
        }
    }
}

/// The number of the year in the sexagenary cycle (1 for 甲子) of a Gregorian
/// year (astronomical numbering).
pub open spec fn sexagenary_year(year: int) -> int {
    (year % 60 + 2696) % 60 + 1
}

/// The sexagenary number (1 for 甲子 to 60 for 癸亥) of a Gregorian year.
pub fn sexagenary_for_year(year: i32) -> (r: u32)
    ensures
        r == sexagenary_year(year as int),
        1 <= r <= 60,
{
    let rem: i32 = if year % 60 < 0 { year % 60 + 60 } else { year % 60 };
    assert(rem == year % 60) by {
        vstd::arithmetic::div_mod::lemma_fundamental_div_mod(year as int, 60);
    }
    (rem as u32 + 2696) % 60 + 1
}

} // verus!
