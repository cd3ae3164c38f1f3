//! The proleptic Gregorian calendar, counted in days.
//!
//! Every date has a day number: 0 for 1 January of year 1, one more for each day after
//! it, one less for each day before. The day number is defined from the lengths of years
//! and months; the functions here compute it and invert it.

use vstd::arithmetic::div_mod::{lemma_fundamental_div_mod, lemma_fundamental_div_mod_converse};
use vstd::prelude::*;

verus! {

/// Every fourth year is a leap year, but of the years that end a century only every fourth.
pub open spec fn is_leap_year(year: int) -> bool {
    year % 4 == 0 && (year % 100 != 0 || year % 400 == 0)
}

/// The number of days of a month. Months are numbered from 1.
pub open spec fn days_in_month(year: int, month: int) -> int {
    if month == 2 {
        if is_leap_year(year) {
            29
        } else {
            28
        }
    } else if month == 4 || month == 6 || month == 9 || month == 11 {
        30
    } else {
        31
    }
}

/// The triple names a day of the calendar.
pub open spec fn valid_date(year: int, month: int, day: int) -> bool {
    1 <= month <= 12 && 1 <= day <= days_in_month(year, month)
}

/// The number of days from 1 January of year 1 to 1 January of `year`: 365 for each year
/// between them and one more for each leap year (see [`lemma_year_length`]).
pub open spec fn days_before_year(year: int) -> int {
    365 * (year - 1) + (year - 1) / 4 - (year - 1) / 100 + (year - 1) / 400
}

/// The number of days of `year` that lie before the first of `month`.
pub open spec fn days_before_month(year: int, month: int) -> int
    decreases month,
{
    if month <= 1 {
        0
    } else {
        days_before_month(year, month - 1) + days_in_month(year, month - 1)
    }
}

/// The day number of a date.
pub open spec fn day_number(year: int, month: int, day: int) -> int {
    days_before_year(year) + days_before_month(year, month) + day - 1
}

/// The day number of 1 January of the first year that an `i32` can hold.
pub const FIRST_DAY: i64 = -784352296671;

/// The day number of 31 December of the last year that an `i32` can hold.
pub const LAST_DAY: i64 = 784352295938;

/// A year is 365 days long, a leap year 366.
pub proof fn lemma_year_length(year: int)
    ensures
        days_before_year(year + 1) - days_before_year(year) == if is_leap_year(year) {
            366int
        } else {
            365int
        },
{
}

/// The first days of two years lie at least 365 days apart for each year between them.
pub proof fn lemma_years_apart(earlier: int, later: int)
    requires
        earlier <= later,
    ensures
        days_before_year(later) - days_before_year(earlier) >= 365 * (later - earlier),
    decreases later - earlier,
{
    if earlier < later {
        lemma_years_apart(earlier, later - 1);
        lemma_year_length(later - 1);
    }
}

/// The days before each month, written out.
pub proof fn lemma_days_before_month(year: int)
    ensures
        days_before_month(year, 1) == 0,
        days_before_month(year, 2) == 31,
        days_before_month(year, 3) == 59 + if is_leap_year(year) {
            1int
        } else {
            0int
        },
        forall|month: int|
            3 <= month <= 13 ==> #[trigger] days_before_month(year, month) == days_before_month(
                year,
                3,
            ) + (153 * (month - 3) + 2) / 5,
{
    reveal_with_fuel(days_before_month, 14);
}

/// A date's day number lies within its year.
pub proof fn lemma_within_year(year: int, month: int, day: int)
    requires
        valid_date(year, month, day),
    ensures
        days_before_year(year) <= day_number(year, month, day) < days_before_year(year + 1),
{
    lemma_days_before_month(year);
    lemma_year_length(year);
}

/// No two dates have the same day number.
pub proof fn lemma_day_number_injective(y1: int, m1: int, d1: int, y2: int, m2: int, d2: int)
    requires
        valid_date(y1, m1, d1),
        valid_date(y2, m2, d2),
        day_number(y1, m1, d1) == day_number(y2, m2, d2),
    ensures
        y1 == y2,
        m1 == m2,
        d1 == d2,
{
    lemma_within_year(y1, m1, d1);
    lemma_within_year(y2, m2, d2);
    if y1 < y2 {
        lemma_years_apart(y1 + 1, y2);
    }
    if y2 < y1 {
        lemma_years_apart(y2 + 1, y1);
    }
    lemma_days_before_month(y1);
}

/// Every day number is the number of some date.
pub proof fn lemma_date_exists(n: int)
    ensures
        exists|year: int, month: int, day: int|
            valid_date(year, month, day) && day_number(year, month, day) == n,
    decreases
            if n >= 0 {
                n
            } else {
                -n
            },
{
    if n == 0 {
        lemma_days_before_month(1);
        assert(valid_date(1, 1, 1) && day_number(1, 1, 1) == 0);
    } else if n > 0 {
        lemma_date_exists(n - 1);
        let (y, m, d) = choose|year: int, month: int, day: int|
            valid_date(year, month, day) && day_number(year, month, day) == n - 1;
        lemma_days_before_month(y);
        if d < days_in_month(y, m) {
            assert(valid_date(y, m, d + 1) && day_number(y, m, d + 1) == n);
        } else if m < 12 {
            assert(valid_date(y, m + 1, 1) && day_number(y, m + 1, 1) == n);
        } else {
            lemma_year_length(y);
            lemma_days_before_month(y + 1);
            assert(valid_date(y + 1, 1, 1) && day_number(y + 1, 1, 1) == n);
        }
    } else {
        lemma_date_exists(n + 1);
        let (y, m, d) = choose|year: int, month: int, day: int|
            valid_date(year, month, day) && day_number(year, month, day) == n + 1;
        lemma_days_before_month(y);
        if d > 1 {
            assert(valid_date(y, m, d - 1) && day_number(y, m, d - 1) == n);
        } else if m > 1 {
            let last = days_in_month(y, m - 1);
            assert(valid_date(y, m - 1, last) && day_number(y, m - 1, last) == n);
        } else {
            lemma_year_length(y - 1);
            lemma_days_before_month(y - 1);
            assert(valid_date(y - 1, 12, 31) && day_number(y - 1, 12, 31) == n);
        }
    }
}

/// The quotient of `a` by a positive `d`, rounded down.
pub(crate) fn div_floor(a: i64, d: i64) -> (q: i64)
    requires
        d > 0,
    ensures
        q == a / d,
{
    if a >= 0 {
        a / d
    } else {
        proof {
            lemma_negative_division(a as int, d as int);
        }
        -((-(a + 1)) / d) - 1
    }
}

/// The remainder of `a` by a positive `d`, which is never negative.
pub(crate) fn mod_floor(a: i64, d: i64) -> (r: i64)
    requires
        d > 0,
    ensures
        r == a % d,
        0 <= r < d,
{
    if a >= 0 {
        a % d
    } else {
        proof {
            lemma_negative_division(a as int, d as int);
        }
        d - 1 - (-(a + 1)) % d
    }
}

/// The quotient and the remainder of a negative number, from those of a number that is
/// not negative.
proof fn lemma_negative_division(a: int, d: int)
    requires
        a < 0,
        d > 0,
    ensures
        a / d == -((-(a + 1)) / d) - 1,
        a % d == d - 1 - (-(a + 1)) % d,
{
    let n = -(a + 1);
    lemma_fundamental_div_mod(n, d);
    assert(a == (-(n / d) - 1) * d + (d - 1 - n % d)) by (nonlinear_arith)
        requires
            n == d * (n / d) + n % d,
            a == -n - 1,
    ;
    lemma_fundamental_div_mod_converse(a, d, -(n / d) - 1, d - 1 - n % d);
}

/// Whether `year` is a leap year.
pub fn leap_year(year: i32) -> (r: bool)
    ensures
        r == is_leap_year(year as int),
{
    let y: i64 = year as i64;
    mod_floor(y, 4) == 0 && (mod_floor(y, 100) != 0 || mod_floor(y, 400) == 0)
}

/// The number of days of a month of `year`.
pub fn month_length(year: i32, month: u8) -> (r: u8)
    ensures
        r == days_in_month(year as int, month as int),
{
    if month == 2 {
        if leap_year(year) {
            29
        } else {
            28
        }
    } else if month == 4 || month == 6 || month == 9 || month == 11 {
        30
    } else {
        31
    }
}

/// The number of days of `year` before the first of `month`.
fn month_start(year: i32, month: u8) -> (r: i64)
    requires
        1 <= month <= 13,
    ensures
        r == days_before_month(year as int, month as int),
        0 <= r <= 366,
{
    proof {
        lemma_days_before_month(year as int);
    }
    if month == 1 {
        0
    } else if month == 2 {
        31
    } else {
        let leap: i64 = if leap_year(year) {
            1
        } else {
            0
        };
        59 + leap + (153 * (month as i64 - 3) + 2) / 5
    }
}

/// The day number of 1 January of `year`.
fn year_start(year: i64) -> (r: i64)
    requires
        -0x8000_0000 <= year <= 0x8000_0000,
    ensures
        r == days_before_year(year as int),
{
    let k: i64 = year - 1;
    365 * k + div_floor(k, 4) - div_floor(k, 100) + div_floor(k, 400)
}

/// The day number of a day of the calendar.
fn day_number_in(year: i32, month: u8, day: u8) -> (r: i64)
    requires
        valid_date(year as int, month as int, day as int),
    ensures
        r == day_number(year as int, month as int, day as int),
        FIRST_DAY <= r <= LAST_DAY,
{
    proof {
        lemma_within_year(year as int, month as int, day as int);
        lemma_years_apart(-0x8000_0000, year as int);
        lemma_years_apart(year as int + 1, 0x8000_0000);
    }
    year_start(year as i64) + month_start(year, month) + (day as i64) - 1
}

/// The day number of a date: `Some` exactly when the triple names a day of the calendar.
pub fn day_number_of(year: i32, month: u8, day: u8) -> (r: Option<i64>)
    ensures
        r == if valid_date(year as int, month as int, day as int) {
            Some(day_number(year as int, month as int, day as int) as i64)
        } else {
            None
        },
        r matches Some(n) ==> FIRST_DAY <= n <= LAST_DAY && n == day_number(
            year as int,
            month as int,
            day as int,
        ),
{
    if month < 1 || month > 12 || day < 1 || day > month_length(year, month) {
        None
    } else {
        Some(day_number_in(year, month, day))
    }
}

/// The date with day number `n`, for a day number whose year fits an `i32`.
pub(crate) fn date_in_range(n: i64) -> (r: (i32, u8, u8))
    requires
        FIRST_DAY <= n <= LAST_DAY,
    ensures
        valid_date(r.0 as int, r.1 as int, r.2 as int),
        day_number(r.0 as int, r.1 as int, r.2 as int) == n,
{
    // A first guess from the mean length of a year, then corrected.
    let guess: i64 = div_floor(n * 400, 146097) + 1;
    let mut year: i64 = if guess < -0x8000_0000 {
        -0x8000_0000
    } else if guess > 0x7fff_ffff {
        0x7fff_ffff
    } else {
        guess
    };
    while year > -0x8000_0000 && year_start(year) > n
        invariant
            -0x8000_0000 <= year <= 0x7fff_ffff,
            FIRST_DAY <= n <= LAST_DAY,
        decreases year + 0x8000_0000,
    {
        year = year - 1;
    }
    while year < 0x7fff_ffff && year_start(year + 1) <= n
        invariant
            -0x8000_0000 <= year <= 0x7fff_ffff,
            FIRST_DAY <= n <= LAST_DAY,
            days_before_year(year as int) <= n,
        decreases 0x7fff_ffff - year,
    {
        year = year + 1;
    }
    let y: i32 = year as i32;
    let of_year: i64 = n - year_start(year);
    proof {
        lemma_year_length(year as int);
        lemma_days_before_month(year as int);
    }
    let mut month: u8 = 1;
    while month < 12 && month_start(y, month + 1) <= of_year
        invariant
            1 <= month <= 12,
            y == year,
            0 <= of_year,
            of_year == n - days_before_year(year as int),
            days_before_month(year as int, month as int) <= of_year,
        decreases 12 - month,
    {
        month = month + 1;
    }
    let day: i64 = of_year - month_start(y, month) + 1;
    (y, month, day as u8)
}

/// The date with day number `n`: `Some` exactly when its year fits an `i32`, that is from
/// [`FIRST_DAY`] to [`LAST_DAY`].
pub fn date_of(n: i64) -> (r: Option<(i32, u8, u8)>)
    ensures
        r is Some <==> FIRST_DAY <= n <= LAST_DAY,
        r is Some <==> day_number(i32::MIN as int, 1, 1) <= n <= day_number(i32::MAX as int, 12, 31),
        r matches Some((year, month, day)) ==> valid_date(year as int, month as int, day as int)
            && day_number(year as int, month as int, day as int) == n,
{
    proof {
        lemma_day_range();
    }
    if n < FIRST_DAY || n > LAST_DAY {
        None
    } else {
        Some(date_in_range(n))
    }
}

/// [`FIRST_DAY`] and [`LAST_DAY`] are the day numbers of the first and the last day whose
/// year an `i32` can hold.
pub proof fn lemma_day_range()
    ensures
        FIRST_DAY == day_number(i32::MIN as int, 1, 1),
        LAST_DAY == day_number(i32::MAX as int, 12, 31),
{
    lemma_days_before_month(i32::MIN as int);
    lemma_days_before_month(i32::MAX as int);
}

} // verus!
