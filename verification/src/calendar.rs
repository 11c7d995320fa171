//! Dates and the timestamps that the device accepts.
use crate::text::{decimal, pad_zeros, write_decimal, zero_padded};
use vstd::prelude::*;

verus! {

/// Seconds in a day.
pub const DAY: u64 = 86400;

/// The first second that lies in a year past the 32-bit ones.
pub const TIMESTAMP_LIMIT: u64 = 67767976233532800;

/// Whether the year has a leap day.
pub open spec fn leap(y: int) -> bool {
    (y % 4 == 0 && y % 100 != 0) || y % 400 == 0
}

/// Days in a year.
pub open spec fn year_days(y: int) -> int {
    if leap(y) {
        366
    } else {
        365
    }
}

/// Days in a month, the first being January.
pub open spec fn month_days(y: int, m: int) -> int {
    if m == 2 {
        if leap(y) {
            29
        } else {
            28
        }
    } else if m == 4 || m == 6 || m == 9 || m == 11 {
        30
    } else {
        31
    }
}

/// Days from the beginning of 1970 to the beginning of a year: 365 for each
/// year, and the leap days among them.
pub open spec fn days_before_year(y: int) -> int {
    365 * (y - 1970) + ((y - 1) / 4 - (y - 1) / 100 + (y - 1) / 400) - 477
}

/// Days from the beginning of a year to the beginning of a month.
pub open spec fn days_before_month(y: int, m: int) -> int
    decreases m,
{
    if m <= 1 {
        0
    } else {
        days_before_month(y, m - 1) + month_days(y, m - 1)
    }
}

/// A day of the calendar.
#[derive(Clone, Copy, Debug, PartialEq, Eq, Structural)]
pub struct Date {
    pub year: i32,
    pub month: u32,
    pub day: u32,
}

impl Date {
    /// Whether the calendar has this day.
    pub open spec fn valid(self) -> bool {
        &&& 1 <= self.month <= 12
        &&& 1 <= self.day <= month_days(self.year as int, self.month as int)
    }

    /// How many days after the first of January 1970 the day is.
    pub open spec fn number(self) -> int {
        days_before_year(self.year as int) + days_before_month(self.year as int, self.month as int)
            + self.day - 1
    }
}

pub fn is_leap(y: i32) -> (res: bool)
    ensures
        res == leap(y as int),
{
    let y: i64 = y as i64;
    let y: i64 = if y < 0 {
        -y
    } else {
        y
    };
    (y % 4 == 0 && y % 100 != 0) || y % 400 == 0
}

/// A year has as many days as lie between its beginning and the next one's,
/// and its months fill it.
pub proof fn law_year_follows_year(y: int)
    ensures
        days_before_year(1970) == 0,
        days_before_year(y + 1) == days_before_year(y) + year_days(y),
        days_before_month(y, 13) == year_days(y),
{
    reveal_with_fuel(days_before_month, 14);
}

fn length_of_year(y: i32) -> (res: u64)
    ensures
        res == year_days(y as int),
{
    if is_leap(y) {
        366
    } else {
        365
    }
}

fn length_of_month(y: i32, m: u32) -> (res: u64)
    ensures
        res == month_days(y as int, m as int),
{
    if m == 2 {
        if is_leap(y) {
            29
        } else {
            28
        }
    } else if m == 4 || m == 6 || m == 9 || m == 11 {
        30
    } else {
        31
    }
}

/// The day with this number.
pub fn date_of(days: u64) -> (res: Date)
    requires
        days < days_before_year(0x8000_0000),
    ensures
        res.valid(),
        res.number() == days,
{
    let mut year: i32 = 1970;
    let mut left: u64 = days;
    let mut length: u64 = length_of_year(year);
    while left >= length
        invariant
            1970 <= year,
            length == year_days(year as int),
            days_before_year(year as int) + left == days,
            days < days_before_year(0x8000_0000),
        decreases left,
    {
        proof {
            law_year_follows_year(year as int);
        }
        left = left - length;
        year = year + 1;
        length = length_of_year(year);
    }
    let mut month: u32 = 1;
    let mut length: u64 = length_of_month(year, month);
    proof {
        law_year_follows_year(year as int);
    }
    while left >= length
        invariant
            1 <= month <= 12,
            length == month_days(year as int, month as int),
            left < year_days(year as int) - days_before_month(year as int, month as int),
            days_before_month(year as int, 13) == year_days(year as int),
            days_before_year(year as int) + days_before_month(year as int, month as int) + left
                == days,
        decreases left,
    {
        left = left - length;
        month = month + 1;
        length = length_of_month(year, month);
    }
    Date { year, month, day: left as u32 + 1 }
}

/// A number with at least two digits.
pub open spec fn two_digits(n: int) -> Seq<char> {
    zero_padded(decimal(n as nat), 2)
}

/// The timestamp of a day and a second of that day. The hour is taken modulo
/// twelve: the device refuses the hours of the afternoon.
pub open spec fn stamp(d: Date, second: int) -> Seq<char> {
    zero_padded(decimal(d.year as nat), 4) + "-"@ + two_digits(d.month as int) + "-"@ + two_digits(
        d.day as int,
    ) + " "@ + two_digits(second / 3600 % 12) + ":"@ + two_digits(second % 3600 / 60) + ":"@
        + two_digits(second % 60)
}

fn write_two(n: u64) -> (res: String)
    ensures
        res@ == two_digits(n as int),
{
    pad_zeros(write_decimal(n).as_str(), 2)
}

/// Writes the timestamp of a second since the beginning of 1970.
pub fn format_unix_timestamp(secs: u64) -> (res: String)
    requires
        secs < TIMESTAMP_LIMIT,
    ensures
        exists|d: Date|
            d.valid() && #[trigger] d.number() == secs / DAY && res@ == stamp(
                d,
                secs as int % DAY as int,
            ),
{
    let second: u64 = secs % DAY;
    let d: Date = date_of(secs / DAY);
    proof {
        lemma_from_1970_on(d);
    }
    let mut out: String = pad_zeros(write_decimal(d.year as u64).as_str(), 4);
    out.append("-");
    out.append(write_two(d.month as u64).as_str());
    out.append("-");
    out.append(write_two(d.day as u64).as_str());
    out.append(" ");
    out.append(write_two(second / 3600 % 12).as_str());
    out.append(":");
    out.append(write_two(second % 3600 / 60).as_str());
    out.append(":");
    out.append(write_two(second % 60).as_str());
    assert(out@ == stamp(d, secs as int % DAY as int));
    out
}

proof fn lemma_years_in_order(y: int, z: int)
    requires
        y < z,
    ensures
        days_before_year(y) + year_days(y) <= days_before_year(z),
    decreases z - y,
{
    law_year_follows_year(y);
    if y + 1 < z {
        lemma_years_in_order(y + 1, z);
        law_year_follows_year(y + 1);
    }
}

proof fn lemma_months_in_order(y: int, m: int, n: int)
    requires
        1 <= m < n <= 13,
    ensures
        0 <= days_before_month(y, m),
        days_before_month(y, m) + month_days(y, m) <= days_before_month(y, n),
    decreases n,
{
    if m > 1 {
        lemma_months_in_order(y, m - 1, m);
    }
    if m + 1 < n {
        lemma_months_in_order(y, m, n - 1);
    }
}

proof fn lemma_within_year(d: Date)
    requires
        d.valid(),
    ensures
        days_before_year(d.year as int) <= d.number() < days_before_year(d.year as int)
            + year_days(d.year as int),
{
    law_year_follows_year(d.year as int);
    lemma_months_in_order(d.year as int, d.month as int, 13);
}

proof fn lemma_from_1970_on(d: Date)
    requires
        d.valid(),
        d.number() >= 0,
    ensures
        d.year >= 1970,
{
    lemma_within_year(d);
    if d.year < 1970 {
        lemma_years_in_order(d.year as int, 1970);
    }
}

/// No two days of the calendar have the same number.
pub proof fn law_one_date_to_a_number(d: Date, e: Date)
    requires
        d.valid(),
        e.valid(),
        d.number() == e.number(),
    ensures
        d == e,
{
    lemma_within_year(d);
    lemma_within_year(e);
    if d.year < e.year {
        lemma_years_in_order(d.year as int, e.year as int);
    } else if e.year < d.year {
        lemma_years_in_order(e.year as int, d.year as int);
    } else if d.month < e.month {
        lemma_months_in_order(d.year as int, d.month as int, e.month as int);
    } else if e.month < d.month {
        lemma_months_in_order(d.year as int, e.month as int, d.month as int);
    }
}

/// Whether the character is a decimal digit.
pub open spec fn is_digit(c: char) -> bool {
    '0' <= c <= '9'
}

/// Whether the device accepts the timestamp:
/// `dddd-(0[1-9]|1[0-2])-([0-2]d|3[01]) (0d|1[01]):[0-5]d:[0-5]d`.
pub open spec fn is_accepted(t: Seq<char>) -> bool {
    &&& t.len() == 19
    &&& is_digit(t[0]) && is_digit(t[1]) && is_digit(t[2]) && is_digit(t[3])
    &&& t[4] == '-'
    &&& (t[5] == '0' && '1' <= t[6] <= '9') || (t[5] == '1' && '0' <= t[6] <= '2')
    &&& t[7] == '-'
    &&& ('0' <= t[8] <= '2' && is_digit(t[9])) || (t[8] == '3' && '0' <= t[9] <= '1')
    &&& t[10] == ' '
    &&& (t[11] == '0' && is_digit(t[12])) || (t[11] == '1' && '0' <= t[12] <= '1')
    &&& t[13] == ':'
    &&& '0' <= t[14] <= '5' && is_digit(t[15])
    &&& t[16] == ':'
    &&& '0' <= t[17] <= '5' && is_digit(t[18])
}

proof fn lemma_two_digits(n: int)
    requires
        0 <= n < 100,
    ensures
        two_digits(n) == seq![crate::text::digit(n / 10), crate::text::digit(n % 10)],
{
    reveal_with_fuel(crate::text::in_radix, 3);
    assert(two_digits(n) =~= seq![crate::text::digit(n / 10), crate::text::digit(n % 10)]);
}

proof fn lemma_four_digits(n: int)
    requires
        1000 <= n < 10000,
    ensures
        zero_padded(decimal(n as nat), 4) == seq![
            crate::text::digit(n / 1000),
            crate::text::digit(n / 100 % 10),
            crate::text::digit(n / 10 % 10),
            crate::text::digit(n % 10),
        ],
{
    reveal_with_fuel(crate::text::in_radix, 5);
    assert(zero_padded(decimal(n as nat), 4) =~= seq![
        crate::text::digit(n / 1000),
        crate::text::digit(n / 100 % 10),
        crate::text::digit(n / 10 % 10),
        crate::text::digit(n % 10),
    ]);
}

/// The first second of the year 10000.
pub const FIVE_DIGIT_YEARS: u64 = 253402300800;

/// Every timestamp made before the year 10000 is one that the device accepts,
/// at whatever hour it is made.
pub proof fn law_timestamps_are_accepted(secs: u64, d: Date)
    requires
        secs < FIVE_DIGIT_YEARS,
        d.valid(),
        d.number() == secs / DAY,
    ensures
        is_accepted(stamp(d, secs as int % DAY as int)),
{
    let second = secs as int % DAY as int;
    lemma_from_1970_on(d);
    lemma_within_year(d);
    if d.year > 9999 {
        lemma_years_in_order(9999, d.year as int);
    }
    lemma_four_digits(d.year as int);
    lemma_two_digits(d.month as int);
    lemma_two_digits(d.day as int);
    lemma_two_digits(second / 3600 % 12);
    lemma_two_digits(second % 3600 / 60);
    lemma_two_digits(second % 60);
    reveal_strlit("-");
    reveal_strlit(" ");
    reveal_strlit(":");
    let t = stamp(d, second);
    let y = zero_padded(decimal(d.year as nat), 4);
    assert(t =~= seq![
        y[0],
        y[1],
        y[2],
        y[3],
        '-',
        two_digits(d.month as int)[0],
        two_digits(d.month as int)[1],
        '-',
        two_digits(d.day as int)[0],
        two_digits(d.day as int)[1],
        ' ',
        two_digits(second / 3600 % 12)[0],
        two_digits(second / 3600 % 12)[1],
        ':',
        two_digits(second % 3600 / 60)[0],
        two_digits(second % 3600 / 60)[1],
        ':',
        two_digits(second % 60)[0],
        two_digits(second % 60)[1],
    ]);
}

/// How long the months are. February has its leap day every fourth year, but
/// for the years of a century that four hundred does not divide.
pub proof fn law_length_of_the_months(y: int)
    ensures
        month_days(y, 1) == 31 && month_days(y, 3) == 31 && month_days(y, 5) == 31 && month_days(
            y,
            7,
        ) == 31 && month_days(y, 8) == 31 && month_days(y, 10) == 31 && month_days(y, 12) == 31,
        month_days(y, 4) == 30 && month_days(y, 6) == 30 && month_days(y, 9) == 30 && month_days(
            y,
            11,
        ) == 30,
        y % 4 != 0 ==> month_days(y, 2) == 28,
        y % 4 == 0 && y % 100 != 0 ==> month_days(y, 2) == 29,
        y % 100 == 0 && y % 400 != 0 ==> month_days(y, 2) == 28,
        y % 400 == 0 ==> month_days(y, 2) == 29,
{
}

/// Days are counted one by one from the first of January 1970: the next day of
/// the month, the first of the next month or the first of the next year has the
/// next number.
pub proof fn law_day_follows_day(year: i32, month: u32, day: u32)
    requires
        1 <= month <= 12,
        1 <= day < 31,
        year < i32::MAX,
    ensures
        (Date { year: 1970, month: 1, day: 1 }).number() == 0,
        (Date { year, month, day: (day + 1) as u32 }).number() == (Date {
            year,
            month,
            day,
        }).number() + 1,
        month < 12 ==> (Date { year, month: (month + 1) as u32, day: 1 }).number() == (Date {
            year,
            month,
            day: month_days(year as int, month as int) as u32,
        }).number() + 1,
        (Date { year: (year + 1) as i32, month: 1, day: 1 }).number() == (Date {
            year,
            month: 12,
            day: 31,
        }).number() + 1,
{
    law_year_follows_year(1970);
    law_year_follows_year(year as int);
}

/// The number of a day and the second of that day make up the time again.
pub proof fn law_time_is_split_into_days(secs: u64)
    ensures
        (secs / DAY) * 86400 + secs % DAY == secs,
        secs % DAY < 86400,
{
}

/// The value of a digit of a timestamp.
pub open spec fn digit_at(t: Seq<char>, at: int) -> int {
    t[at] as int - '0' as int
}

/// A timestamp tells the day and the time when it is read digit by digit: the
/// year, the month and the day, then the hour on a clock with twelve hours, the
/// minute and the second.
pub proof fn law_timestamp_tells_the_time(d: Date, second: int)
    requires
        d.valid(),
        1000 <= d.year <= 9999,
        0 <= second < 86400,
    ensures
        ({
            let t = stamp(d, second);
            &&& t.len() == 19
            &&& t[4] == '-' && t[7] == '-' && t[10] == ' ' && t[13] == ':' && t[16] == ':'
            &&& 1000 * digit_at(t, 0) + 100 * digit_at(t, 1) + 10 * digit_at(t, 2) + digit_at(t, 3)
                == d.year
            &&& 10 * digit_at(t, 5) + digit_at(t, 6) == d.month
            &&& 10 * digit_at(t, 8) + digit_at(t, 9) == d.day
            &&& 10 * digit_at(t, 11) + digit_at(t, 12) == (second / 3600) % 12
            &&& 10 * digit_at(t, 14) + digit_at(t, 15) == (second / 60) % 60
            &&& 10 * digit_at(t, 17) + digit_at(t, 18) == second % 60
            &&& forall|i: int|
                0 <= i < 19 && i != 4 && i != 7 && i != 10 && i != 13 && i != 16 ==> '0'
                    <= #[trigger] t[i] <= '9'
        }),
{
    lemma_four_digits(d.year as int);
    lemma_two_digits(d.month as int);
    lemma_two_digits(d.day as int);
    lemma_two_digits(second / 3600 % 12);
    lemma_two_digits(second % 3600 / 60);
    lemma_two_digits(second % 60);
    reveal_strlit("-");
    reveal_strlit(" ");
    reveal_strlit(":");
    assert(second % 3600 / 60 == (second / 60) % 60);
}

/// A year with more than four digits is written with all of them.
pub proof fn law_later_years(d: Date, second: int)
    requires
        d.year >= 1000,
    ensures
        stamp(d, second).take(decimal(d.year as nat).len() as int) == decimal(d.year as nat),
        stamp(d, second).skip(decimal(d.year as nat).len() as int) == stamp(
            Date { year: 2000, ..d },
            second,
        ).skip(4),
{
    lemma_at_least_four(d.year as nat);
    lemma_four_digits(2000);
    let y = decimal(d.year as nat);
    let other = Date { year: 2000, ..d };
    assert(stamp(d, second).take(y.len() as int) =~= y);
    assert(stamp(d, second).skip(y.len() as int) =~= stamp(other, second).skip(4));
}

proof fn lemma_at_least_four(n: nat)
    requires
        n >= 1000,
    ensures
        decimal(n).len() >= 4,
    decreases n,
{
    if n < 10000 {
        reveal_with_fuel(crate::text::in_radix, 5);
    } else {
        lemma_at_least_four(n / 10);
    }
}

/// Timestamps can be written up to the end of the last year that has 32 bits.
pub proof fn law_last_timestamp()
    ensures
        TIMESTAMP_LIMIT == days_before_year(0x8000_0000) * 86400,
        (Date { year: i32::MAX, month: 12, day: 31 }).number() == days_before_year(0x8000_0000) - 1,
{
    law_year_follows_year(i32::MAX as int);
}

} // verus!
