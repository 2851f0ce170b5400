//! Calendar-independent dates, counted by Julian day number.

use vstd::prelude::*;

verus! {

/// A calendar-independent date.
///
/// The supported range begins on January 1, 4713 BC, proleptic Julian calendar.
#[derive(Debug, Copy, Clone, Eq, PartialEq, Structural, Hash, Ord)]
pub struct Date {
    jdn: u32,
}

impl View for Date {
    type V = int;

    /// The Julian day number of the date.
    closed spec fn view(&self) -> int {
        self.jdn as int
    }
}

/// The order of dates, by day number.
pub open spec fn date_cmp(a: Date, b: Date) -> core::cmp::Ordering {
    if a@ < b@ {
        core::cmp::Ordering::Less
    } else if a@ == b@ {
        core::cmp::Ordering::Equal
    } else {
        core::cmp::Ordering::Greater
    }
}

impl PartialOrd for Date {
    fn partial_cmp(&self, other: &Date) -> (r: Option<core::cmp::Ordering>)
        ensures
            r == Some(date_cmp(*self, *other)),
    {
        if self.jdn < other.jdn {
            Some(core::cmp::Ordering::Less)
        } else if self.jdn == other.jdn {
            Some(core::cmp::Ordering::Equal)
        } else {
            Some(core::cmp::Ordering::Greater)
        }
    }
}

impl vstd::std_specs::cmp::PartialOrdSpecImpl for Date {
    open spec fn obeys_partial_cmp_spec() -> bool {
        true
    }

    open spec fn partial_cmp_spec(&self, other: &Date) -> Option<core::cmp::Ordering> {
        Some(date_cmp(*self, *other))
    }
}

/// ISO-8601 day of week (Monday is 1, Sunday is 7) of a Julian day number.
pub open spec fn weekday(jdn: int) -> int {
    jdn % 7 + 1
}

/// Position of a Julian day number in the sexagenary day cycle (1 is 甲子).
pub open spec fn sexagenary_day(jdn: int) -> int {
    (jdn % 60 + 49) % 60 + 1
}

impl Date {
    /// Creates a `Date` with a Julian day number (JDN).
    pub fn from_jdn(jdn: u32) -> (r: Self)
        ensures
            r@ == jdn,
    {
        Self { jdn }
    }

    /// Returns the Julian day number (JDN) of the date.
    pub fn jdn(&self) -> (r: u32)
        ensures
            r == self@,
    {
        self.jdn
    }

    /// Returns the day of week of the date, in ISO-8601 numbering (`1..=7` for
    /// Monday through Sunday).
    pub fn day_of_week(&self) -> (r: u32)
        ensures
            r == weekday(self@),
            1 <= r <= 7,
    {
        self.jdn % 7 + 1
    }

    /// Returns the Chinese sexagenary day number of the date, numbered from 1
    /// (甲子) to 60 (癸亥).
    pub fn sexagenary(&self) -> (r: u32)
        ensures
            r == sexagenary_day(self@),
            1 <= r <= 60,
    {
        (self.jdn % 60 + 49) % 60 + 1
    }

    /// Number of days from `rhs` to `self`, if it fits in an `i32`.
    pub fn checked_signed_diff(&self, rhs: Date) -> (r: Option<i32>)
        ensures
            r == (if i32::MIN <= self@ - rhs@ <= i32::MAX {
                Some((self@ - rhs@) as i32)
            } else {
                None
            }),
    {
        let diff: i64 = self.jdn as i64 - rhs.jdn as i64;
        if diff < i32::MIN as i64 || diff > i32::MAX as i64 {
            None
        } else {
            Some(diff as i32)
        }
    }

    /// The date `days` days after `self` (before it, for a negative count), or
    /// `None` where that leaves the supported range.
    pub fn checked_add_days(&self, days: i32) -> (r: Option<Date>)
        ensures
            r is Some <==> 0 <= self@ + days <= u32::MAX,
            r matches Some(d) ==> d@ == self@ + days,
    {
        let sum: i64 = self.jdn as i64 + days as i64;
        if sum < 0 || sum > u32::MAX as i64 {
            None
        } else {
            Some(Date { jdn: sum as u32 })
        }
    }

    /// The date `days` days after `self`, or `None` where that leaves the
    /// supported range.
    pub fn checked_add_unsigned(&self, days: u32) -> (r: Option<Date>)
        ensures
            r is Some <==> self@ + days <= u32::MAX,
            r matches Some(d) ==> d@ == self@ + days,
    {
        match self.jdn.checked_add(days) {
            Some(j) => Some(Date { jdn: j }),
            None => None,
        }
    }

    /// Number of days from `earlier` to `self`.
    pub fn days_since(&self, earlier: Date) -> (r: u32)
        requires
            earlier@ <= self@,
        ensures
            r == self@ - earlier@,
    {
        self.jdn - earlier.jdn
    }
}

/// Rust's integer division, which rounds toward zero (`b > 0`).
pub open spec fn div_trunc(a: int, b: int) -> int {
    if a >= 0 {
        a / b
    } else {
        -((-a) / b)
    }
}

/// Julian day number of a proleptic Gregorian date (astronomical year
/// numbering), by the standard integer formula.
#[verifier::opaque]
pub open spec fn jdn_of_gregorian(year: int, month: int, day: int) -> int {
    let a = div_trunc(month - 14, 12);
    div_trunc(1461 * (year + 4800 + a), 4) + div_trunc(367 * (month - 2 - 12 * a), 12)
        - div_trunc(3 * div_trunc(year + 4900 + a, 100), 4) + day - 32075
}

/// Proleptic Gregorian `(year, month, day)` of a nonnegative Julian day number,
/// by the standard integer algorithm.
#[verifier::opaque]
pub open spec fn gregorian_of_jdn(jdn: int) -> (int, int, int) {
    let f = jdn + 1401 + (((4 * jdn + 274277) / 146097) * 3) / 4 - 38;
    let e = 4 * f + 3;
    let g = (e % 1461) / 4;
    let h = 5 * g + 2;
    let day = (h % 153) / 5 + 1;
    let month = (h / 153 + 2) % 12 + 1;
    let year = e / 1461 - 4716 + (12 + 2 - month) / 12;
    (year, month, day)
}

/// Rust's division of `a` by a positive `b`, rounding toward zero.
fn div_toward_zero(a: i64, b: i64) -> (r: i64)
    requires
        a > i64::MIN,
        b > 0,
    ensures
        r == div_trunc(a as int, b as int),
{
    if a >= 0 {
        a / b
    } else {
        -((-a) / b)
    }
}

impl Date {
    /// Creates a `Date` from a Gregorian calendar date, with `year` an
    /// astronomical year number (1 BC is `0`, 2 BC is `-1`).
    ///
    /// Returns `None` where the resulting day number is out of the supported range.
    pub fn from_gregorian(year: i32, month: u32, day: u32) -> (r: Option<Self>)
        ensures
            r is Some <==> 0 <= jdn_of_gregorian(year as int, month as int, day as int) <= u32::MAX,
            r matches Some(d) ==> d@ == jdn_of_gregorian(year as int, month as int, day as int),
    {
        let v = day_number_of_civil(year as i64, month as i64, day as i64);
        if v < 0 || v > u32::MAX as i64 {
            None
        } else {
            Some(Date { jdn: v as u32 })
        }
    }

    /// The date in the Gregorian calendar, as `(year, month, day)`.
    pub fn gregorian(&self) -> (r: (i32, u32, u32))
        ensures
            (r.0 as int, r.1 as int, r.2 as int) == gregorian_of_jdn(self@),
            1 <= r.1 <= 12,
            1 <= r.2 <= 31,
    {
        let (year, month, day) = civil_from_day_number(self.jdn as i64);
        (year as i32, month as u32, day as u32)
    }

    /// Formats the date in ISO 8601 form: `YYYY-MM-DD` for years `0..=9999`,
    /// and with an explicit sign and at least four year digits otherwise
    /// (`+10000-01-01`, `-0001-12-31`).
    pub fn iso_gregorian(&self) -> (r: String)
        ensures
            r@ == iso_text(gregorian_of_jdn(self@)),
    {
        let (y, m, d) = self.gregorian();
        let mut s = String::new();
        let abs: u32;
        if y < 0 {
            s.append("-");
            abs = (-(y as i64)) as u32;
        } else {
            if y > 9999 {
                s.append("+");
            }
            abs = y as u32;
        }
        push_padded(&mut s, abs, 4);
        s.append("-");
        push_padded(&mut s, m, 2);
        s.append("-");
        push_padded(&mut s, d, 2);
        proof {
            reveal_strlit("-");
            reveal_strlit("+");
            assert(s@ =~= iso_text(gregorian_of_jdn(self@)));
        }
        s
    }

    /// Returns the ISO-8601 week of the date, as `(year, week)`: the week
    /// from Monday to Sunday that holds the date, numbered within the year of
    /// its Thursday, week 1 being the one that holds that year's first Thursday.
    pub fn year_week_gregorian(&self) -> (r: (i32, u32))
        ensures
            (r.0 as int, r.1 as int) == iso_year_week(self@),
            1 <= r.1 <= 53,
    {
        let t: i64 = self.jdn as i64 - (self.jdn % 7) as i64 + 3;
        let (y, _, _) = civil_from_day_number(t);
        let jan1 = day_number_of_civil(y, 1, 1);
        proof {
            lemma_day_of_year_bounds(t as int);
        }
        let week: i64 = (t - jan1) / 7 + 1;
        (y as i32, week as u32)
    }
}

/// Day number of a Gregorian date, as `jdn_of_gregorian` computes it.
fn day_number_of_civil(y: i64, m: i64, d: i64) -> (r: i64)
    requires
        i32::MIN <= y <= i32::MAX,
        0 <= m <= u32::MAX,
        0 <= d <= u32::MAX,
    ensures
        r == jdn_of_gregorian(y as int, m as int, d as int),
{
    proof {
        reveal(jdn_of_gregorian);
        reveal(gregorian_of_jdn);
    }
    let a = div_toward_zero(m - 14, 12);
    assert(-1 <= a <= 400_000_000);
    let t1 = div_toward_zero(1461 * (y + 4800 + a), 4);
    let t2 = div_toward_zero(367 * (m - 2 - 12 * a), 12);
    let t3 = div_toward_zero(3 * div_toward_zero(y + 4900 + a, 100), 4);
    t1 + t2 - t3 + d - 32075
}

/// Gregorian date of a day number, as `gregorian_of_jdn` computes it; the
/// range reaches a few days past the last `Date`.
fn civil_from_day_number(jdn: i64) -> (r: (i64, i64, i64))
    requires
        0 <= jdn <= u32::MAX + 3,
    ensures
        (r.0 as int, r.1 as int, r.2 as int) == gregorian_of_jdn(jdn as int),
        1 <= r.1 <= 12,
        1 <= r.2 <= 31,
        -4713 <= r.0 <= 11_754_509,
{
    proof {
        reveal(jdn_of_gregorian);
        reveal(gregorian_of_jdn);
    }
    let f: i64 = jdn + 1401 + (((4 * jdn + 274277) / 146097) * 3) / 4 - 38;
    let e: i64 = 4 * f + 3;
    let g: i64 = (e % 1461) / 4;
    let h: i64 = 5 * g + 2;
    let day: i64 = (h % 153) / 5 + 1;
    let month: i64 = (h / 153 + 2) % 12 + 1;
    let year: i64 = e / 1461 - 4716 + (12 + 2 - month) / 12;
    (year, month, day)
}

/// The Thursday of the Monday-to-Sunday week that holds a day.
pub open spec fn iso_thursday(jdn: int) -> int {
    jdn - weekday(jdn) + 4
}

/// ISO-8601 `(year, week)` of a day: the year is that of the Thursday of its
/// week, and the week counts the weeks of that year whose Thursday falls in it.
pub open spec fn iso_year_week(jdn: int) -> (int, int) {
    let t = iso_thursday(jdn);
    let y = gregorian_of_jdn(t).0;
    (y, (t - jdn_of_gregorian(y, 1, 1)) / 7 + 1)
}

/// Decimal digit character of `d` (`0..=9`).
pub open spec fn digit_char(d: int) -> char {
    if d == 0 {
        '0'
    } else if d == 1 {
        '1'
    } else if d == 2 {
        '2'
    } else if d == 3 {
        '3'
    } else if d == 4 {
        '4'
    } else if d == 5 {
        '5'
    } else if d == 6 {
        '6'
    } else if d == 7 {
        '7'
    } else if d == 8 {
        '8'
    } else {
        '9'
    }
}

/// Decimal digits of `n`, padded with leading zeros to at least `width` digits.
pub open spec fn padded_decimal(n: nat, width: nat) -> Seq<char>
    decreases n + width,
{
    if n == 0 && width == 0 {
        Seq::empty()
    } else {
        padded_decimal(n / 10, if width > 0 { (width - 1) as nat } else { 0 }).push(
            digit_char((n % 10) as int),
        )
    }
}

/// ISO 8601 text of a Gregorian `(year, month, day)`.
pub open spec fn iso_text(ymd: (int, int, int)) -> Seq<char> {
    let (y, m, d) = ymd;
    let sign = if y < 0 {
        seq!['-']
    } else if y > 9999 {
        seq!['+']
    } else {
        Seq::empty()
    };
    let abs = if y < 0 { -y } else { y };
    sign + padded_decimal(abs as nat, 4) + seq!['-'] + padded_decimal(m as nat, 2) + seq!['-']
        + padded_decimal(d as nat, 2)
}

fn digit_text(d: u32) -> (r: &'static str)
    requires
        d < 10,
    ensures
        r@ == seq![digit_char(d as int)],
{
    proof {
        reveal_strlit("0");
        reveal_strlit("1");
        reveal_strlit("2");
        reveal_strlit("3");
        reveal_strlit("4");
        reveal_strlit("5");
        reveal_strlit("6");
        reveal_strlit("7");
        reveal_strlit("8");
        reveal_strlit("9");
    }
    let r = if d == 0 {
        "0"
    } else if d == 1 {
        "1"
    } else if d == 2 {
        "2"
    } else if d == 3 {
        "3"
    } else if d == 4 {
        "4"
    } else if d == 5 {
        "5"
    } else if d == 6 {
        "6"
    } else if d == 7 {
        "7"
    } else if d == 8 {
        "8"
    } else {
        "9"
    };
    assert(r@ =~= seq![digit_char(d as int)]);
    r
}

/// Appends the digits of `n`, zero-padded to at least `width` digits.
fn push_padded(s: &mut String, n: u32, width: u32)
    ensures
        final(s)@ == old(s)@ + padded_decimal(n as nat, width as nat),
    decreases n + width,
{
    if n == 0 && width == 0 {
        assert(old(s)@ + padded_decimal(0, 0) =~= old(s)@);
        return;
    }
    let w: u32 = if width > 0 { width - 1 } else { 0 };
    push_padded(s, n / 10, w);
    s.append(digit_text(n % 10));
    assert(final(s)@ =~= old(s)@ + padded_decimal(n as nat, width as nat));
}

/// Converting a day number to a Gregorian date and back gives the same day
/// number, for every nonnegative day number.
pub proof fn lemma_gregorian_round_trip(jdn: int)
    requires
        0 <= jdn,
    ensures
        ({
            let (y, m, d) = gregorian_of_jdn(jdn);
            jdn_of_gregorian(y, m, d) == jdn
        }),
{
    reveal(jdn_of_gregorian);
    reveal(gregorian_of_jdn);
    let c = (4 * jdn + 274277) / 146097;
    let u = (4 * jdn + 274277) % 146097;
    let f = jdn + 1401 + (c * 3) / 4 - 38;
    let e = 4 * f + 3;
    let yc = e / 1461;
    let r = e % 1461;
    let g = r / 4;
    let h = 5 * g + 2;
    let k = h / 153;
    let (y, m, d) = gregorian_of_jdn(jdn);
    assert(4 * jdn + 274277 == 146097 * c + u && 0 <= u < 146097) by {
        vstd::arithmetic::div_mod::lemma_fundamental_div_mod(4 * jdn + 274277, 146097);
    }
    assert(c >= 0);
    assert(e == 1461 * yc + r && 0 <= r < 1461) by {
        vstd::arithmetic::div_mod::lemma_fundamental_div_mod(e, 1461);
    }
    assert(yc >= 0);
    assert(0 <= g <= 365);
    assert(0 <= k <= 11);
    assert(h % 153 == h - 153 * k) by {
        vstd::arithmetic::div_mod::lemma_fundamental_div_mod(h, 153);
    }
    // The month and day part of the formula: 30 more than the day of the
    // March-based year.
    let a = div_trunc(m - 14, 12);
    assert(y + 4800 + a == yc + 84 && y + 4900 + a == yc + 184
        && m - 2 - 12 * a == k + 1 && d == (h - 153 * k) / 5 + 1);
    assert(div_trunc(367 * (k + 1), 12) + (h - 153 * k) / 5 == g + 30) by {
        assert(0 <= k <= 11);
        if k == 0 {} else if k == 1 {} else if k == 2 {} else if k == 3 {}
        else if k == 4 {} else if k == 5 {} else if k == 6 {} else if k == 7 {}
        else if k == 8 {} else if k == 9 {} else if k == 10 {} else {}
    }
    // The year part: `f` is the day of the March-based year plus whole years.
    assert(div_trunc(1461 * (yc + 84), 4) == f - g + 30681) by {
        assert(r == 4 * g + r % 4) by {
            vstd::arithmetic::div_mod::lemma_fundamental_div_mod(r, 4);
        }
        assert(1461 * yc == 4 * (f - g) + 3 - r % 4);
        assert((1461 * yc) / 4 == f - g);
    }
    // The century part matches the one taken from the day number.
    let cc = (yc + 184) / 100;
    assert((3 * cc) / 4 == (3 * c) / 4) by {
        let w = 4 * ((3 * c) / 4) - 3 * c;
        assert(-3 <= w <= 0);
        assert(e == 146100 * c + w + u - 268822);
        assert(yc <= 100 * c - 85);
        if w + u + 2 >= 0 {
            assert(yc >= 100 * c - 184);
            assert(cc == c);
        } else {
            assert(c % 4 == 1);
            assert(yc >= 100 * c - 185);
            assert(cc == c - 1 || cc == c);
        }
    }
}

/// The day of the year of a date, counted from 0 on January 1, is the
/// number of days in the months before it plus its day of month less one.
pub proof fn lemma_ordinal_offset(y: int, m: int, d: int)
    requires
        y >= -4799,
        1 <= m <= 12,
    ensures
        jdn_of_gregorian(y, m, d) - jdn_of_gregorian(y, 1, 1) == days_before_month(
            m,
            is_leap_year(y),
        ) + d - 1,
{
    reveal(jdn_of_gregorian);
    reveal(gregorian_of_jdn);
    if m >= 3 {
        let n = y + 4800;
        assert((1461 * n) / 4 == 365 * n + n / 4);
        assert((1461 * (n - 1)) / 4 == 365 * (n - 1) + (n - 1) / 4);
        assert(n / 4 - (n - 1) / 4 == if y % 4 == 0 { 1int } else { 0 });
        let p = y + 4900;
        let q = p / 100;
        if y % 100 == 0 {
            assert((p - 1) / 100 == q - 1);
            assert(q % 4 == 1 <==> y % 400 == 0);
            assert((3 * q) / 4 - (3 * (q - 1)) / 4 == if q % 4 == 1 { 0int } else { 1 });
        } else {
            assert((p - 1) / 100 == q);
        }
        assert(div_trunc(367 * (m - 2), 12) - 30 == (153 * (m - 3) + 2) / 5) by {
            if m == 3 {} else if m == 4 {} else if m == 5 {} else if m == 6 {}
            else if m == 7 {} else if m == 8 {} else if m == 9 {} else if m == 10 {}
            else if m == 11 {} else {}
        }
    }
}

/// Every day falls between the first and the last day of its Gregorian year.
pub proof fn lemma_day_of_year_bounds(jdn: int)
    requires
        0 <= jdn,
    ensures
        0 <= jdn - jdn_of_gregorian(gregorian_of_jdn(jdn).0, 1, 1) <= 365,
{
    let (y, m, d) = gregorian_of_jdn(jdn);
    lemma_gregorian_round_trip(jdn);
    lemma_gregorian_range(jdn);
    lemma_ordinal_offset(y, m, d);
    if m == 12 {
        assert(d <= 31);
    }
}

/// The Gregorian date of a nonnegative day number has a month in `1..=12`, a
/// day in `1..=31` and a year from 4713 BC on.
pub proof fn lemma_gregorian_range(jdn: int)
    requires
        0 <= jdn,
    ensures
        ({
            let (y, m, d) = gregorian_of_jdn(jdn);
            y >= -4713 && 1 <= m <= 12 && 1 <= d <= 31
        }),
{
    reveal(jdn_of_gregorian);
    reveal(gregorian_of_jdn);
    let e = 4 * (jdn + 1401 + (((4 * jdn + 274277) / 146097) * 3) / 4 - 38) + 3;
    assert(e >= 4 * 1363 + 3);
    assert(e / 1461 >= 3);
}

/// Two dates are equal exactly when their day numbers are.
pub proof fn lemma_date_eq(d1: Date, d2: Date)
    ensures
        d1 == d2 <==> d1@ == d2@,
{
}

/// Dates are ordered as their day numbers are.
pub proof fn lemma_date_order(d1: Date, d2: Date)
    ensures
        (date_cmp(d1, d2) == core::cmp::Ordering::Less) <==> d1@ < d2@,
        (date_cmp(d1, d2) == core::cmp::Ordering::Equal) <==> d1@ == d2@,
        (date_cmp(d1, d2) == core::cmp::Ordering::Greater) <==> d1@ > d2@,
{
}

/// From one day to the next, the weekday and the sexagenary day each advance
/// by one, wrapping after 7 and 60.
pub proof fn lemma_daily_cycles(jdn: int)
    requires
        0 <= jdn,
    ensures
        weekday(jdn + 1) == weekday(jdn) % 7 + 1,
        sexagenary_day(jdn + 1) == sexagenary_day(jdn) % 60 + 1,
{
}

/// Week 1 of a year holds the year's first Thursday: each day of the week of
/// a Thursday that falls in the first seven days of its year has that year and
/// week 1 as its ISO week.
pub proof fn lemma_iso_week_one(thursday: int, k: int)
    requires
        0 <= thursday,
        weekday(thursday) == 4,
        thursday - jdn_of_gregorian(gregorian_of_jdn(thursday).0, 1, 1) < 7,
        thursday - 3 <= k <= thursday + 3,
        0 <= k,
    ensures
        iso_year_week(k) == (gregorian_of_jdn(thursday).0, 1int),
{
    lemma_same_week(thursday, k);
    lemma_day_of_year_bounds(thursday);
    let j1 = jdn_of_gregorian(gregorian_of_jdn(thursday).0, 1, 1);
    assert((thursday - j1) / 7 == 0);
}

/// Each day's ISO week is the week of its Thursday, whose year is the
/// Gregorian year of that Thursday; the seven days from Monday to Sunday share
/// it, and it is numbered from 1 to 53.
pub proof fn lemma_iso_week_of_day(jdn: int, k: int)
    requires
        0 <= jdn,
        0 <= k,
        iso_thursday(jdn) - 3 <= k <= iso_thursday(jdn) + 3,
    ensures
        iso_thursday(jdn) % 7 == 3,
        iso_year_week(k) == iso_year_week(jdn),
        iso_year_week(jdn).0 == gregorian_of_jdn(iso_thursday(jdn)).0,
        1 <= iso_year_week(jdn).1 <= 53,
{
    lemma_same_week(iso_thursday(jdn), k);
    lemma_same_week(iso_thursday(jdn), jdn);
    lemma_day_of_year_bounds(iso_thursday(jdn));
}

/// The days from three before a Thursday to three after it have that Thursday
/// as the Thursday of their week.
proof fn lemma_same_week(thursday: int, k: int)
    requires
        0 <= k,
        (thursday % 7) == 3,
        thursday - 3 <= k <= thursday + 3,
    ensures
        iso_thursday(k) == thursday,
{
}

/// Day number of January 1 of year `y`.
pub open spec fn jan1(y: int) -> int {
    jdn_of_gregorian(y, 1, 1)
}

/// Number of ISO weeks in year `y`: 53 where it begins on a Thursday, or is a
/// leap year beginning on a Wednesday; 52 otherwise.
pub open spec fn iso_weeks_in_year(y: int) -> int {
    let wd = weekday(jan1(y));
    if wd == 4 || (is_leap_year(y) && wd == 3) {
        53
    } else {
        52
    }
}

/// A Gregorian year has 365 days, 366 in a leap year.
pub proof fn lemma_year_length(y: int)
    requires
        y >= -4799,
    ensures
        jan1(y + 1) - jan1(y) == 365 + if is_leap_year(y) { 1int } else { 0 },
{
    reveal(jdn_of_gregorian);
    reveal(gregorian_of_jdn);
    lemma_ordinal_offset(y, 12, 31);
    assert(jan1(y + 1) == jdn_of_gregorian(y, 12, 31) + 1);
}

/// Later years begin at least 365 days later per year.
proof fn lemma_jan1_increasing(y1: int, y2: int)
    requires
        -4799 <= y1 < y2,
    ensures
        jan1(y2) >= jan1(y1) + 365 * (y2 - y1),
    decreases y2 - y1,
{
    lemma_year_length(y2 - 1);
    if y2 - 1 > y1 {
        lemma_jan1_increasing(y1, y2 - 1);
    }
}

/// A day lies between January 1 of its Gregorian year and January 1 of the
/// next, and that year is the only one so placed.
pub proof fn lemma_year_of(x: int, y: int)
    requires
        0 <= x,
        y >= -4799,
        jan1(y) <= x < jan1(y + 1),
    ensures
        gregorian_of_jdn(x).0 == y,
{
    lemma_year_bounds(x);
    let yx = gregorian_of_jdn(x).0;
    lemma_gregorian_range(x);
    if yx < y {
        lemma_jan1_increasing(yx + 1, y);
        lemma_year_length(yx);
        if yx + 1 < y {
            lemma_jan1_increasing(yx + 1, y);
        }
    } else if yx > y {
        if y + 1 < yx {
            lemma_jan1_increasing(y + 1, yx);
        }
    }
}

/// The Gregorian year of a day begins on or before it and ends after it.
pub proof fn lemma_year_bounds(x: int)
    requires
        0 <= x,
    ensures
        jan1(gregorian_of_jdn(x).0) <= x < jan1(gregorian_of_jdn(x).0 + 1),
{
    let (y, m, d) = gregorian_of_jdn(x);
    lemma_gregorian_round_trip(x);
    lemma_gregorian_range(x);
    lemma_ordinal_offset(y, m, d);
    lemma_year_length(y);
    assert(days_before_month(m, is_leap_year(y)) <= 334 + if is_leap_year(y) { 1int } else { 0 });
}

/// An ISO year has 52 or 53 weeks as `iso_weeks_in_year` says, and its year
/// is within one of the Gregorian year; from one day to the next the ISO week
/// stays the same, except that a Monday starts the next week, or week 1 of
/// the next ISO year after the last week.
pub proof fn lemma_iso_week_succession(jdn: int)
    requires
        0 <= jdn,
    ensures
        ({
            let (iy, w) = iso_year_week(jdn);
            &&& 1 <= w <= iso_weeks_in_year(iy)
            &&& gregorian_of_jdn(jdn).0 - 1 <= iy <= gregorian_of_jdn(jdn).0 + 1
            &&& iso_year_week(jdn + 1) == if weekday(jdn + 1) != 1 {
                (iy, w)
            } else if w < iso_weeks_in_year(iy) {
                (iy, w + 1)
            } else {
                (iy + 1, 1int)
            }
        }),
{
    let t = iso_thursday(jdn);
    assert(t % 7 == 3);
    assert(t >= 3);
    lemma_year_bounds(t);
    lemma_gregorian_range(t);
    let y = gregorian_of_jdn(t).0;
    let j1 = jan1(y);
    lemma_year_length(y);
    let len = jan1(y + 1) - j1;
    let o = t - j1;
    let f = o % 7;
    let w = o / 7 + 1;
    assert(iso_year_week(jdn) == (y, w));
    // The number of Thursdays in the year.
    assert(iso_weeks_in_year(y) == (len - 1 - f) / 7 + 1) by {
        assert(f == (3 - j1 % 7 + 7) % 7);
        assert(weekday(j1) == j1 % 7 + 1);
    }
    assert(o == 7 * (w - 1) + f);
    // Within one year of the Gregorian year of the day.
    let yd = gregorian_of_jdn(jdn).0;
    lemma_year_bounds(jdn);
    lemma_gregorian_range(jdn);
    if t < jan1(yd) {
        lemma_year_length(yd - 1);
        lemma_year_of(t, yd - 1);
    } else if t >= jan1(yd + 1) {
        lemma_year_length(yd + 1);
        lemma_year_of(t, yd + 1);
    } else {
        lemma_year_of(t, yd);
    }
    // The next day.
    if weekday(jdn + 1) != 1 {
        assert(iso_thursday(jdn + 1) == t);
    } else {
        assert(iso_thursday(jdn + 1) == t + 7);
        if w < iso_weeks_in_year(y) {
            lemma_year_of(t + 7, y);
            assert((o + 7) / 7 + 1 == w + 1);
        } else {
            lemma_year_length(y + 1);
            lemma_year_of(t + 7, y + 1);
            assert((t + 7 - jan1(y + 1)) / 7 == 0);
        }
    }
}

/// Whether a year is a leap year or a common year.
#[derive(Debug, Copy, Clone, Eq, PartialEq, Structural, Hash)]
pub enum YearType {
    Common,
    Leap,
}

/// Gregorian leap-year rule.
pub open spec fn is_leap_year(year: int) -> bool {
    (year % 4 == 0 && year % 100 != 0) || year % 400 == 0
}

impl YearType {
    /// Determines whether `year` is a leap year in the Gregorian calendar.
    pub fn from_gregorian(year: i32) -> (r: Self)
        ensures
            r == (if is_leap_year(year as int) { YearType::Leap } else { YearType::Common }),
    {
        if year % 4 == 0 && year % 100 != 0 || year % 400 == 0 {
            YearType::Leap
        } else {
            YearType::Common
        }
    }

    /// Returns `true` for `Leap`, `false` for `Common`.
    pub fn is_leap(&self) -> (r: bool)
        ensures
            r == (*self == YearType::Leap),
    {
        matches!(self, YearType::Leap)
    }
}

/// Days of the year before the first day of `month` (1..=12).
pub open spec fn days_before_month(month: int, leap: bool) -> int {
    if month == 1 {
        0
    } else if month == 2 {
        31
    } else {
        59 + (153 * (month - 3) + 2) / 5 + if leap { 1int } else { 0 }
    }
}

/// Ordinal day number (1-based day of the year) of `day` in `month`, in a year of
/// the given type.
pub fn ordinal_day_number(month: u32, day: u32, year_type: YearType) -> (r: u32)
    requires
        1 <= month <= 12,
        1 <= day <= 31,
    ensures
        r == day + days_before_month(month as int, year_type == YearType::Leap),
{
    let leap: u32 = if year_type.is_leap() { 1 } else { 0 };
    let before: u32 = if month == 1 {
        0
    } else if month == 2 {
        31
    } else {
        59 + (153 * (month - 3) + 2) / 5 + leap
    };
    day + before
}

} // verus!
