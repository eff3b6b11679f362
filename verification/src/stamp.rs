//! A moment as a name that sorts as it reads.
use vstd::prelude::*;
use vstd::string::*;

use crate::text::{decimal, digit, key_before, lemma_key_concat, padded, padded_text, zeros};

verus! {

/// Whether `year` has a 29th of February.
pub open spec fn leap(year: int) -> bool {
    year % 4 == 0 && (year % 100 != 0 || year % 400 == 0)
}

/// The days of a month.
pub open spec fn month_length(year: int, month: int) -> int {
    if month == 2 {
        if leap(year) {
            29
        } else {
            28
        }
    } else if month == 4 || month == 6 || month == 9 || month == 11 {
        30
    } else {
        31
    }
}

/// A day of the calendar.
pub struct Date {
    pub year: int,
    pub month: int,
    pub day: int,
}

impl Date {
    pub open spec fn valid(self) -> bool {
        1 <= self.month <= 12 && 1 <= self.day <= month_length(self.year, self.month)
    }
}

/// The days of `year` before the first of `month`.
pub open spec fn month_start(year: int, month: int) -> int
    decreases month,
{
    if month <= 1 {
        0
    } else {
        month_start(year, month - 1) + month_length(year, month - 1)
    }
}

/// The days from the first of January of the year 0 to that of `year`: 365 to a year, and
/// one more for each leap year among them.
pub open spec fn year_start(year: int) -> int {
    365 * year + (year + 3) / 4 - (year + 99) / 100 + (year + 399) / 400
}

/// The days from the first of January 1970 to `date`.
pub open spec fn day_number(date: Date) -> int {
    year_start(date.year) + month_start(date.year, date.month) + date.day - 1 - 719_528
}

/// The year, counted from March, that a day of an era of 400 years falls in.
proof fn lemma_year_of_era(doe: int, yoe: int)
    requires
        0 <= doe < 146_097,
        yoe == (doe - doe / 1460 + doe / 36_524 - doe / 146_096) / 365,
    ensures
        0 <= yoe < 400,
        0 <= doe - (365 * yoe + yoe / 4 - yoe / 100) <= 365,
{
}

/// The 366th day of a year counted from March is the 29th of February.
proof fn lemma_last_day(doe: int, yoe: int)
    requires
        0 <= doe < 146_097,
        yoe == (doe - doe / 1460 + doe / 36_524 - doe / 146_096) / 365,
        doe - (365 * yoe + yoe / 4 - yoe / 100) == 365,
    ensures
        leap(yoe + 1),
{
}

/// A year is a leap year for one of three reasons, each a remainder.
proof fn lemma_leap_count(year: int)
    ensures
        year_start(year) + (if leap(year) {
            1int
        } else {
            0int
        }) == 365 * year + year / 4 - year / 100 + year / 400 + 1,
        year_start(year + 1) == 365 * year + year / 4 - year / 100 + year / 400 + 366,
{
    assert((year + 3) / 4 == year / 4 + if year % 4 == 0 {
        0int
    } else {
        1int
    });
    assert((year + 99) / 100 == year / 100 + if year % 100 == 0 {
        0int
    } else {
        1int
    });
    assert((year + 399) / 400 == year / 400 + if year % 400 == 0 {
        0int
    } else {
        1int
    });
    assert(year % 100 == 0 ==> year % 4 == 0) by {
        assert(year % 100 == 0 ==> year == 4 * (25 * (year / 100)));
    }
    assert(year % 400 == 0 ==> year % 100 == 0) by {
        assert(year % 400 == 0 ==> year == 100 * (4 * (year / 400)));
    }
}

/// How many days lie before a year, split at its era.
proof fn lemma_year_start(era: int, yoe: int)
    requires
        0 <= yoe < 400,
    ensures
        ({
            let year = yoe + era * 400;
            let before = 146_097 * era + 365 * yoe + yoe / 4 - yoe / 100;
            &&& leap(year) == leap(yoe)
            &&& leap(year + 1) == leap(yoe + 1)
            &&& year_start(year) + (if leap(year) {
                1int
            } else {
                0int
            }) == before + 1
            &&& year_start(year + 1) == before + 366
        }),
{
    let year = yoe + era * 400;
    lemma_leap_count(year);
    assert(year / 4 == yoe / 4 + 100 * era);
    assert(year / 100 == yoe / 100 + 4 * era);
    assert(year / 400 == era);
    assert(year % 4 == yoe % 4 && (year + 1) % 4 == (yoe + 1) % 4);
    assert(year % 100 == yoe % 100 && (year + 1) % 100 == (yoe + 1) % 100);
    assert(year % 400 == yoe % 400 && (year + 1) % 400 == (yoe + 1) % 400);
}

/// The days before each month of a year.
proof fn lemma_month_start(year: int)
    ensures
        month_start(year, 1) == 0,
        month_start(year, 2) == 31,
        ({
            let start = if leap(year) {
                60int
            } else {
                59int
            };
            &&& month_start(year, 3) == start
            &&& month_start(year, 4) == start + 31
            &&& month_start(year, 5) == start + 61
            &&& month_start(year, 6) == start + 92
            &&& month_start(year, 7) == start + 122
            &&& month_start(year, 8) == start + 153
            &&& month_start(year, 9) == start + 184
            &&& month_start(year, 10) == start + 214
            &&& month_start(year, 11) == start + 245
            &&& month_start(year, 12) == start + 275
        }),
{
    reveal_with_fuel(month_start, 13);
}

/// The month, counted from March, that a day of a year counted from March falls in.
proof fn lemma_month(year: int, doy: int, mp: int)
    requires
        0 <= doy <= 365,
        doy == 365 ==> leap(year + 1),
        mp == (5 * doy + 2) / 153,
    ensures
        0 <= mp < 12,
        ({
            let day = doy - (153 * mp + 2) / 5 + 1;
            if mp < 10 {
                let date = Date { year, month: mp + 3, day };
                &&& date.valid()
                &&& month_start(year, mp + 3) + day - 1 == doy + (if leap(year) {
                    60int
                } else {
                    59int
                })
            } else {
                let date = Date { year: year + 1, month: mp - 9, day };
                &&& date.valid()
                &&& month_start(year + 1, mp - 9) + day - 1 == doy - 306
            }
        }),
{
    lemma_month_start(year);
    lemma_month_start(year + 1);
    assert(0 <= mp < 12);
    if mp == 0 {
    } else if mp == 1 {
    } else if mp == 2 {
    } else if mp == 3 {
    } else if mp == 4 {
    } else if mp == 5 {
    } else if mp == 6 {
    } else if mp == 7 {
    } else if mp == 8 {
    } else if mp == 9 {
    } else if mp == 10 {
    } else {
        assert(mp == 11);
    }
}

/// `a` divided by `b`, rounded down.
fn floor_div(a: i64, b: i64) -> (r: i64)
    requires
        b > 0,
    ensures
        r == a as int / b as int,
{
    proof {
        let (n, d, q) = (a as int, b as int, a as int / b as int);
        vstd::arithmetic::div_mod::lemma_fundamental_div_mod(n, d);
        assert(i64::MIN <= q <= i64::MAX) by (nonlinear_arith)
            requires
                d >= 1,
                n == d * q + n % d,
                0 <= n % d < d,
                i64::MIN <= n <= i64::MAX,
        ;
    }
    match a.checked_div_euclid(b) {
        Some(r) => r,
        None => 0,
    }
}

/// The day of the calendar that lies `days` days after the first of January 1970.
///
/// Howard Hinnant's `civil_from_days`, whose eras are what make it branchless about leap
/// years rather than a table of month lengths.
pub fn civil_from_days(days: i64) -> (r: (i64, u32, u32))
    requires
        days <= i64::MAX - 719_468,
    ensures
        ({
            let date = Date { year: r.0 as int, month: r.1 as int, day: r.2 as int };
            date.valid() && day_number(date) == days
        }),
{
    let z: i64 = days + 719_468;
    let era: i64 = floor_div(z, 146_097);
    let doe: i64 = z - era * 146_097;
    let yoe: i64 = (doe - doe / 1460 + doe / 36_524 - doe / 146_096) / 365;
    proof {
        lemma_year_of_era(doe as int, yoe as int);
    }
    let year: i64 = yoe + era * 400;
    let doy: i64 = doe - (365 * yoe + yoe / 4 - yoe / 100);
    let mp: i64 = (5 * doy + 2) / 153;
    proof {
        lemma_year_start(era as int, yoe as int);
        if doy == 365 {
            lemma_last_day(doe as int, yoe as int);
        }
        lemma_month(year as int, doy as int, mp as int);
    }
    let day: u32 = (doy - (153 * mp + 2) / 5 + 1) as u32;
    let month: u32 = (if mp < 10 {
        mp + 3
    } else {
        mp - 9
    }) as u32;
    (
        if month <= 2 {
            year + 1
        } else {
            year
        },
        month,
        day,
    )
}

/// The days before a year grow with it by the length of each year.
proof fn lemma_years_in_order(a: int, b: int)
    requires
        a < b,
    ensures
        year_start(a) + 365 + (if leap(a) {
            1int
        } else {
            0int
        }) <= year_start(b),
    decreases b - a,
{
    lemma_leap_count(a);
    if a + 1 < b {
        lemma_years_in_order(a + 1, b);
    }
}

/// The days before a month grow with it by the length of each month.
proof fn lemma_months_in_order(year: int, a: int, b: int)
    requires
        1 <= a < b,
    ensures
        month_start(year, a) + month_length(year, a) <= month_start(year, b),
    decreases b,
{
    if a + 1 < b {
        lemma_months_in_order(year, a, b - 1);
    }
}

impl Date {
    /// Whether this day comes before `other` as dates are read: year, month, day.
    pub open spec fn before(self, other: Date) -> bool {
        ||| self.year < other.year
        ||| self.year == other.year && self.month < other.month
        ||| self.year == other.year && self.month == other.month && self.day < other.day
    }
}

/// Days are numbered in the order of their dates.
pub proof fn law_dates_in_order(a: Date, b: Date)
    requires
        a.valid(),
        b.valid(),
    ensures
        a.before(b) <==> day_number(a) < day_number(b),
        day_number(a) == day_number(b) ==> a == b,
{
    if a.before(b) {
        lemma_later_date(a, b);
    } else if b.before(a) {
        lemma_later_date(b, a);
    }
}

proof fn lemma_later_date(a: Date, b: Date)
    requires
        a.valid(),
        b.valid(),
        a.before(b),
    ensures
        day_number(a) < day_number(b),
{
    lemma_month_start(a.year);
    lemma_month_start(b.year);
    if a.year < b.year {
        lemma_years_in_order(a.year, b.year);
        if a.month < 12 {
            lemma_months_in_order(a.year, a.month, 12);
        }
    } else if a.month < b.month {
        lemma_months_in_order(a.year, a.month, b.month);
    }
}

/// The date of the day that lies `days` days after the first of January 1970.
pub open spec fn date_of(days: int) -> Date {
    choose|date: Date| #[trigger] date.valid() && day_number(date) == days
}

/// A date and a second of that day, written out: `20250911T120000Z`.
pub open spec fn written(date: Date, second: int) -> Seq<char> {
    padded(date.year, 4) + padded(date.month, 2) + padded(date.day, 2) + seq!['T'] + padded(
        second / 3600,
        2,
    ) + padded((second % 3600) / 60, 2) + padded(second % 60, 2) + seq!['Z']
}

/// The name of the moment `ms` milliseconds after the first of January 1970.
pub open spec fn stamp(ms: int) -> Seq<char> {
    written(date_of((ms / 1000) / 86_400), (ms / 1000) % 86_400)
}

/// `1757592000000` -> `20250911T120000Z`, which sorts as it reads.
pub fn utc_stamp(ms: i64) -> (r: String)
    ensures
        r@ == stamp(ms as int),
{
    let secs: i64 = floor_div(ms, 1000);
    let days: i64 = floor_div(secs, 86_400);
    let (y, m, d) = civil_from_days(days);
    let tod: i64 = secs - days * 86_400;
    let ghost date = Date { year: y as int, month: m as int, day: d as int };
    proof {
        let other = date_of(days as int);
        assert(date.valid() && day_number(date) == days);
        law_dates_in_order(date, other);
    }
    let mut out = padded_text(y, 4);
    out.append(padded_text(m as i64, 2).as_str());
    out.append(padded_text(d as i64, 2).as_str());
    out.push('T');
    out.append(padded_text(tod / 3600, 2).as_str());
    out.append(padded_text((tod % 3600) / 60, 2).as_str());
    out.append(padded_text(tod % 60, 2).as_str());
    out.push('Z');
    assert(out@ =~= written(date, tod as int));
    out
}

/// `n` in `width` digits.
spec fn digits(n: int, width: nat) -> Seq<char>
    decreases width,
{
    if width == 0 {
        seq![]
    } else {
        digits(n / 10, (width - 1) as nat).push(digit(n % 10))
    }
}

spec fn ten_to(width: nat) -> int
    decreases width,
{
    if width == 0 {
        1
    } else {
        10 * ten_to((width - 1) as nat)
    }
}

proof fn lemma_digits(n: int, width: nat)
    requires
        0 <= n < ten_to(width),
        width > 0,
    ensures
        padded(n, width as int) == digits(n, width),
    decreases width,
{
    reveal_with_fuel(digits, 2);
    reveal_with_fuel(ten_to, 2);
    if width == 1 {
        assert(padded(n, 1) =~= digits(n, 1));
    } else {
        lemma_digits(n / 10, (width - 1) as nat);
        if n < 10 {
            assert(padded(0, width - 1) =~= zeros(width - 1));
        } else {
            assert(decimal(n as nat) == decimal((n / 10) as nat).push(digit(n % 10)));
        }
        assert(padded(n, width as int) =~= padded(n / 10, width - 1).push(digit(n % 10)));
    }
}

proof fn lemma_digits_in_order(a: int, b: int, width: nat)
    requires
        0 <= a,
        0 <= b,
        a < ten_to(width),
        b < ten_to(width),
    ensures
        digits(a, width).len() == width,
        digits(b, width).len() == width,
        a < b ==> key_before(digits(a, width), digits(b, width)),
    decreases width,
{
    if width > 0 {
        let (x, y) = (digits(a / 10, (width - 1) as nat), digits(b / 10, (width - 1) as nat));
        lemma_digits_in_order(a / 10, b / 10, (width - 1) as nat);
        let (c, d) = (digit(a % 10), digit(b % 10));
        lemma_key_concat(x, y, seq![c], seq![d]);
        assert(x + seq![c] =~= x.push(c));
        assert(y + seq![d] =~= y.push(d));
        reveal_with_fuel(key_before, 2);
    }
}

/// Numbers of at most `width` digits, filled to `width`, sort as they count.
proof fn lemma_padded_in_order(a: int, b: int, width: nat)
    requires
        0 <= a < ten_to(width),
        0 <= b < ten_to(width),
        width > 0,
    ensures
        padded(a, width as int).len() == width,
        padded(b, width as int).len() == width,
        a < b ==> key_before(padded(a, width as int), padded(b, width as int)),
{
    lemma_digits(a, width);
    lemma_digits(b, width);
    lemma_digits_in_order(a, b, width);
}

/// Every day has a date.
pub proof fn law_every_day_has_a_date(days: int)
    ensures
        date_of(days).valid(),
        day_number(date_of(days)) == days,
{
    let z = days + 719_468;
    let era = z / 146_097;
    let doe = z % 146_097;
    let yoe = (doe - doe / 1460 + doe / 36_524 - doe / 146_096) / 365;
    lemma_year_of_era(doe, yoe);
    let year = yoe + era * 400;
    let doy = doe - (365 * yoe + yoe / 4 - yoe / 100);
    let mp = (5 * doy + 2) / 153;
    lemma_year_start(era, yoe);
    if doy == 365 {
        lemma_last_day(doe, yoe);
    }
    lemma_month(year, doy, mp);
    let day = doy - (153 * mp + 2) / 5 + 1;
    let date = if mp < 10 {
        Date { year, month: mp + 3, day }
    } else {
        Date { year: year + 1, month: mp - 9, day }
    };
    assert(date.valid() && day_number(date) == days);
}

proof fn lemma_tens()
    ensures
        ten_to(2) == 100,
        ten_to(4) == 10_000,
{
    reveal_with_fuel(ten_to, 5);
}

/// Of two seconds of a day, the earlier one's hour, minute or second is the smaller, in that
/// order.
proof fn lemma_clock(s: int, t: int)
    requires
        0 <= s < t < 86_400,
    ensures
        s / 3600 < t / 3600 || (s / 3600 == t / 3600 && ((s % 3600) / 60 < (t % 3600) / 60 || ((s
            % 3600) / 60 == (t % 3600) / 60 && s % 60 < t % 60))),
{
}

/// A time of day, written out.
spec fn clock(second: int) -> Seq<char> {
    padded(second / 3600, 2) + padded((second % 3600) / 60, 2) + padded(second % 60, 2)
}

proof fn lemma_clocks_in_order(s: int, t: int)
    requires
        0 <= s < 86_400,
        0 <= t < 86_400,
    ensures
        clock(s).len() == 6,
        clock(t).len() == 6,
        s < t ==> key_before(clock(s), clock(t)),
{
    lemma_tens();
    let (h, i) = (s / 3600, t / 3600);
    let (m, n) = ((s % 3600) / 60, (t % 3600) / 60);
    let (u, v) = (s % 60, t % 60);
    lemma_padded_in_order(h, i, 2);
    lemma_padded_in_order(m, n, 2);
    lemma_padded_in_order(u, v, 2);
    lemma_key_concat(padded(h, 2), padded(i, 2), padded(m, 2), padded(n, 2));
    lemma_key_concat(
        padded(h, 2) + padded(m, 2),
        padded(i, 2) + padded(n, 2),
        padded(u, 2),
        padded(v, 2),
    );
    if s < t {
        lemma_clock(s, t);
    }
}

/// A date, written out.
spec fn day_text(date: Date) -> Seq<char> {
    padded(date.year, 4) + padded(date.month, 2) + padded(date.day, 2)
}

proof fn lemma_days_in_order(x: Date, y: Date)
    requires
        x.valid(),
        y.valid(),
        0 <= x.year <= 9999,
        0 <= y.year <= 9999,
    ensures
        day_text(x).len() == 8,
        day_text(y).len() == 8,
        x.before(y) ==> key_before(day_text(x), day_text(y)),
{
    lemma_tens();
    lemma_padded_in_order(x.year, y.year, 4);
    lemma_padded_in_order(x.month, y.month, 2);
    lemma_padded_in_order(x.day, y.day, 2);
    lemma_key_concat(padded(x.year, 4), padded(y.year, 4), padded(x.month, 2), padded(y.month, 2));
    lemma_key_concat(
        padded(x.year, 4) + padded(x.month, 2),
        padded(y.year, 4) + padded(y.month, 2),
        padded(x.day, 2),
        padded(y.day, 2),
    );
}

proof fn lemma_days_and_seconds(m: int, n: int)
    requires
        m < n,
    ensures
        m / 86_400 < n / 86_400 || (m / 86_400 == n / 86_400 && m % 86_400 < n % 86_400),
        0 <= m % 86_400 < 86_400,
        0 <= n % 86_400 < 86_400,
{
}

/// A date and a second, read as one text after the other.
proof fn lemma_written(date: Date, second: int)
    ensures
        written(date, second) == day_text(date) + (seq!['T'] + (clock(second) + seq!['Z'])),
{
    assert(written(date, second) =~= day_text(date) + (seq!['T'] + (clock(second) + seq!['Z'])));
}

proof fn lemma_written_in_order(x: Date, y: Date, s: int, t: int)
    requires
        x.valid(),
        y.valid(),
        0 <= x.year <= 9999,
        0 <= y.year <= 9999,
        0 <= s < 86_400,
        0 <= t < 86_400,
        x.before(y) || (x == y && s < t),
    ensures
        key_before(written(x, s), written(y, t)),
{
    lemma_days_in_order(x, y);
    lemma_clocks_in_order(s, t);
    let (p, q) = (clock(s) + seq!['Z'], clock(t) + seq!['Z']);
    lemma_key_concat(clock(s), clock(t), seq!['Z'], seq!['Z']);
    lemma_key_concat(seq!['T'], seq!['T'], p, q);
    lemma_key_concat(day_text(x), day_text(y), seq!['T'] + p, seq!['T'] + q);
    lemma_written(x, s);
    lemma_written(y, t);
}

/// Stamps sort as they read: of two moments in different seconds of the years 0 to 9999, the
/// earlier one's stamp comes first.
pub proof fn law_stamps_sort(a: int, b: int)
    requires
        a / 1000 < b / 1000,
        0 <= date_of((a / 1000) / 86_400).year,
        date_of((b / 1000) / 86_400).year <= 9999,
    ensures
        key_before(stamp(a), stamp(b)),
{
    let (m, n) = (a / 1000, b / 1000);
    let (x, y) = (date_of(m / 86_400), date_of(n / 86_400));
    lemma_days_and_seconds(m, n);
    law_every_day_has_a_date(m / 86_400);
    law_every_day_has_a_date(n / 86_400);
    law_dates_in_order(x, y);
    lemma_written_in_order(x, y, m % 86_400, n % 86_400);
}

} // verus!
