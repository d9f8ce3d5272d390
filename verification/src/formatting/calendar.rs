//! Days and dates of the Gregorian calendar, extended to all years, and Unix timestamps as text.

use crate::number;
use crate::schema::TimestampUnit;
use vstd::prelude::*;
use vstd::string::*;

verus! {

/// Whether a year has 366 days.
pub open spec fn is_leap(year: int) -> bool {
    year % 4 == 0 && (year % 100 != 0 || year % 400 == 0)
}

/// The days of a month.
pub open spec fn days_in_month(year: int, month: int) -> int {
    if month == 2 {
        if is_leap(year) {
            29
        } else {
            28
        }
    } else if month == 4 || month == 6 || month == 9 || month == 11 {
        30
    } else {
        31
    }
}

/// Whether a month and a day of it exist in a year.
pub open spec fn is_date(year: int, month: int, day: int) -> bool {
    1 <= month <= 12 && 1 <= day <= days_in_month(year, month)
}

/// The days of the year in front of a month.
pub open spec fn days_before_month(year: int, month: int) -> int
    decreases month,
{
    if month <= 1 {
        0
    } else {
        days_before_month(year, month - 1) + days_in_month(year, month - 1)
    }
}

/// The days between the first day of year 1 and that of `year`; negative for the years before.
pub open spec fn days_before_year(year: int) -> int {
    365 * (year - 1) + (year - 1) / 4 - (year - 1) / 100 + (year - 1) / 400
}

/// The days between the first of January 1970 and a date.
pub open spec fn day_number(year: int, month: int, day: int) -> int {
    days_before_year(year) - days_before_year(1970) + days_before_month(year, month) + (day - 1)
}

/// Whether a date lies `days` days after the first of January 1970.
pub open spec fn date_matches(date: (int, int, int), days: int) -> bool {
    is_date(date.0, date.1, date.2) && day_number(date.0, date.1, date.2) == days
}

/// The date that lies `days` days after the first of January 1970: year, month and day.
pub open spec fn date_of(days: int) -> (int, int, int) {
    choose|date: (int, int, int)| #[trigger] date_matches(date, days)
}

/// The length of a year.
pub proof fn year_length(year: int)
    ensures
        days_before_year(year + 1) - days_before_year(year) == if is_leap(year) {
            366
        } else {
            365int
        },
{
}

/// The months of a year, one behind the other, make up the year.
pub proof fn months_fill_the_year(year: int)
    ensures
        forall|month: int|
            1 <= month <= 12 ==> #[trigger] days_before_month(year, month) + days_in_month(
                year,
                month,
            ) <= (if is_leap(year) {
                366
            } else {
                365int
            }),
        days_before_month(year, 12) + days_in_month(year, 12) == (if is_leap(year) {
            366
        } else {
            365int
        }),
        forall|month: int| 1 <= month <= 12 ==> #[trigger] days_before_month(year, month) >= 0,
{
    reveal_with_fuel(days_before_month, 13);
}

/// Later months start later.
pub proof fn months_are_ordered(year: int, earlier: int, later: int)
    requires
        1 <= earlier < later <= 12,
    ensures
        days_before_month(year, earlier) + days_in_month(year, earlier) <= days_before_month(
            year,
            later,
        ),
    decreases later - earlier,
{
    if earlier + 1 < later {
        months_are_ordered(year, earlier, later - 1);
    }
}

/// A day number belongs to one date only.
pub proof fn dates_are_unique(first: (int, int, int), second: (int, int, int), days: int)
    requires
        date_matches(first, days),
        date_matches(second, days),
    ensures
        first == second,
{
    months_fill_the_year(first.0);
    months_fill_the_year(second.0);
    year_length(first.0);
    year_length(second.0);
    let a = days_before_month(first.0, first.1);
    let b = days_before_month(second.0, second.1);
    if first.0 < second.0 {
        assert(days_before_year(first.0 + 1) <= days_before_year(second.0));
    } else if second.0 < first.0 {
        assert(days_before_year(second.0 + 1) <= days_before_year(first.0));
    } else if first.1 < second.1 {
        months_are_ordered(first.0, first.1, second.1);
    } else if second.1 < first.1 {
        months_are_ordered(first.0, second.1, first.1);
    }
}

/// A date follows from its day number.
pub proof fn date_reads_back(year: int, month: int, day: int)
    requires
        is_date(year, month, day),
    ensures
        date_of(day_number(year, month, day)) == (year, month, day),
{
    let days = day_number(year, month, day);
    assert(date_matches((year, month, day), days));
    dates_are_unique(date_of(days), (year, month, day), days);
}

/// The days between the first of March of year 0 and that of `year`.
spec fn march_start(year: int) -> int {
    365 * year + year / 4 - year / 100 + year / 400
}

/// The days between the first of March and the first of the month that is `month` months later.
spec fn days_since_march(month: int) -> int {
    (153 * month + 2) / 5
}

proof fn march_years_and_calendar_years(year: int, month: int)
    requires
        0 <= month <= 11,
    ensures
        month <= 9 ==> days_before_year(year) + days_before_month(year, month + 3) == march_start(
            year,
        ) - 306 + days_since_march(month),
        month >= 10 ==> days_before_year(year + 1) + days_before_month(year + 1, month - 9)
            == march_start(year) - 306 + days_since_march(month),
{
    reveal_with_fuel(days_before_month, 13);
    year_length(year);
}

/// A March-based year taken apart into eras of 400 years, centuries, cycles of four years and
/// single years.
proof fn march_start_of_parts(era: int, centuries: int, cycles: int, years: int)
    requires
        0 <= centuries <= 3,
        0 <= cycles <= 24,
        0 <= years <= 3,
    ensures
        ({
            let year = 400 * era + 100 * centuries + 4 * cycles + years;
            march_start(year) == era * 146_097 + centuries * 36_524 + cycles * 1_461 + years * 365
        }),
{
    let year = 400 * era + 100 * centuries + 4 * cycles + years;
    assert(year / 4 == 100 * era + 25 * centuries + cycles);
    assert(year / 100 == 4 * era + centuries);
    assert(year / 400 == era);
}

/// The last day of a March-based year that has 366 days is the 29th of February.
proof fn long_march_year_ends_in_leap_year(era: int, centuries: int, cycles: int)
    requires
        0 <= centuries <= 3,
        0 <= cycles <= 24,
        cycles == 24 ==> centuries == 3,
    ensures
        is_leap(400 * era + 100 * centuries + 4 * cycles + 4),
{
    let year = 400 * era + 100 * centuries + 4 * cycles + 4;
    assert(year % 4 == 0);
    if cycles == 24 {
        assert(year == 400 * (era + 1));
        assert(year % 400 == 0);
    } else {
        assert(year % 100 == 4 * cycles + 4);
    }
}

/// The month and the day that a day of a March-based year falls on.
proof fn month_of_march_day(day_of_year: int, month: int, day: int, year: int)
    requires
        0 <= day_of_year <= 365,
        month == (5 * day_of_year + 2) / 153,
        day == day_of_year - days_since_march(month) + 1,
        day_of_year == 365 ==> is_leap(year + 1),
    ensures
        0 <= month <= 11,
        day >= 1,
        month <= 9 ==> day <= days_in_month(year, month + 3),
        month >= 10 ==> day <= days_in_month(year + 1, month - 9),
{
}

/// A day of a March-based year as a date of the calendar.
proof fn march_year_holds_date(days: int, march_year: int, month: int, day: int)
    requires
        0 <= month <= 11,
        days + 719_468 == march_start(march_year) + days_since_march(month) + day - 1,
        day >= 1,
        month <= 9 ==> day <= days_in_month(march_year, month + 3),
        month >= 10 ==> day <= days_in_month(march_year + 1, month - 9),
    ensures
        month <= 9 ==> date_matches((march_year, month + 3, day), days),
        month >= 10 ==> date_matches((march_year + 1, month - 9, day), days),
{
    march_years_and_calendar_years(march_year, month);
    assert(days_before_year(1970) == 719_468 - 306);
}

/// The year, the month and the day that lie `days` days after the first of January 1970.
///
/// `None` only where the count of days since the year 0 leaves the range of the number.
pub fn civil_from_days(days: i64) -> (result: Option<(i64, i64, i64)>)
    ensures
        match result {
            Some((year, month, day)) => {
                &&& days + 719_468 <= i64::MAX
                &&& is_date(year as int, month as int, day as int)
                &&& day_number(year as int, month as int, day as int) == days
                &&& date_of(days as int) == (year as int, month as int, day as int)
            },
            None => days + 719_468 > i64::MAX,
        },
{
    let shifted: i64 = match days.checked_add(719_468) {
        Some(shifted) => shifted,
        None => {
            return None;
        },
    };
    let era: i64 = match shifted.checked_div_euclid(146_097) {
        Some(era) => era,
        None => 0,
    };
    let day_of_era: i64 = shifted - era * 146_097;
    let centuries: u64 = if day_of_era == 146_096 { 3 } else { day_of_era as u64 / 36_524 };
    let day_of_century: u64 = day_of_era as u64 - centuries * 36_524;
    let cycles: u64 = day_of_century / 1_461;
    let day_of_cycle: u64 = day_of_century - cycles * 1_461;
    let years: u64 = if day_of_cycle == 1_460 { 3 } else { day_of_cycle / 365 };
    let day_of_year: u64 = day_of_cycle - years * 365;
    assert(cycles == 24 && day_of_year == 365 ==> centuries == 3);
    let year_of_era: u64 = 100 * centuries + 4 * cycles + years;
    let march_year: i64 = year_of_era as i64 + era * 400;
    let month_prime: u64 = (5 * day_of_year + 2) / 153;
    proof {
        march_start_of_parts(era as int, centuries as int, cycles as int, years as int);
        if day_of_year == 365 {
            long_march_year_ends_in_leap_year(era as int, centuries as int, cycles as int);
        }
        month_of_march_day(
            day_of_year as int,
            month_prime as int,
            day_of_year - days_since_march(month_prime as int) + 1,
            march_year as int,
        );
    }
    let day: i64 = (day_of_year - (153 * month_prime + 2) / 5 + 1) as i64;
    let month: i64 = if month_prime < 10 {
        (month_prime + 3) as i64
    } else {
        (month_prime - 9) as i64
    };
    let year: i64 = if month <= 2 { march_year + 1 } else { march_year };
    proof {
        march_year_holds_date(days as int, march_year as int, month_prime as int, day as int);
        date_reads_back(year as int, month as int, day as int);
    }
    Some((year, month, day))
}

/// Every day has a date.
pub proof fn every_day_has_a_date(days: int)
    ensures
        date_matches(date_of(days), days),
{
    let shifted = days + 719_468;
    let era = shifted / 146_097;
    let day_of_era = shifted - era * 146_097;
    let centuries = if day_of_era == 146_096 { 3 } else { day_of_era / 36_524 };
    let day_of_century = day_of_era - centuries * 36_524;
    let cycles = day_of_century / 1_461;
    let day_of_cycle = day_of_century - cycles * 1_461;
    let years = if day_of_cycle == 1_460 { 3 } else { day_of_cycle / 365 };
    let day_of_year = day_of_cycle - years * 365;
    let march_year = 400 * era + 100 * centuries + 4 * cycles + years;
    let month = (5 * day_of_year + 2) / 153;
    let day = day_of_year - days_since_march(month) + 1;
    march_start_of_parts(era, centuries, cycles, years);
    if day_of_year == 365 {
        long_march_year_ends_in_leap_year(era, centuries, cycles);
    }
    month_of_march_day(day_of_year, month, day, march_year);
    march_year_holds_date(days, march_year, month, day);
}

/// How many steps of a timestamp make up a second.
pub open spec fn steps_per_second(unit: TimestampUnit) -> int {
    match unit {
        TimestampUnit::Seconds => 1,
        TimestampUnit::Milliseconds => 1_000,
        TimestampUnit::Microseconds => 1_000_000,
        TimestampUnit::Nanoseconds => 1_000_000_000,
    }
}

/// How many digits of a second a timestamp shows.
pub open spec fn second_digits(unit: TimestampUnit) -> nat {
    match unit {
        TimestampUnit::Seconds => 0,
        TimestampUnit::Milliseconds => 3,
        TimestampUnit::Microseconds => 6,
        TimestampUnit::Nanoseconds => 9,
    }
}

/// A date and a time of day such as `2018-04-03T08:00:00.125Z`.
pub open spec fn instant_text(date: (int, int, int), second: int, rest: int, digits: nat) -> Seq<
    char,
> {
    let whole = number::zero_padded_integer(date.0, 4) + "-"@ + number::zero_padded(
        date.1 as nat,
        2,
    ) + "-"@ + number::zero_padded(date.2 as nat, 2) + "T"@ + number::zero_padded(
        (second / 3_600) as nat,
        2,
    ) + ":"@ + number::zero_padded((second % 3_600 / 60) as nat, 2) + ":"@ + number::zero_padded(
        (second % 60) as nat,
        2,
    );
    if digits == 0 {
        whole + "Z"@
    } else {
        whole + "."@ + number::zero_padded(rest as nat, digits) + "Z"@
    }
}

/// The UTC instant that a timestamp stands for, as text.
///
/// `None` where its day is beyond what the calendar here counts.
pub open spec fn timestamp_text(value: int, unit: TimestampUnit) -> Option<Seq<char>> {
    let seconds = value / steps_per_second(unit);
    let days = seconds / 86_400;
    if i64::MIN <= days && days + 719_468 <= i64::MAX {
        Some(
            instant_text(
                date_of(days),
                seconds % 86_400,
                value % steps_per_second(unit),
                second_digits(unit),
            ),
        )
    } else {
        None
    }
}

fn floor_parts(value: i128, divisor: i128) -> (result: (i128, u64))
    requires
        0 < divisor <= 1_000_000_000,
    ensures
        result.0 == value as int / divisor as int,
        result.1 == value as int % divisor as int,
{
    proof {
        quotient_fits(value as int, divisor as int);
    }
    let quotient: i128 = match value.checked_div_euclid(divisor) {
        Some(quotient) => quotient,
        None => 0,
    };
    let remainder: i128 = match value.checked_rem_euclid(divisor) {
        Some(remainder) => remainder,
        None => 0,
    };
    (quotient, remainder as u64)
}

proof fn quotient_fits(value: int, divisor: int)
    by (nonlinear_arith)
    requires
        i128::MIN <= value <= i128::MAX,
        divisor > 0,
    ensures
        i128::MIN <= value / divisor <= i128::MAX,
        0 <= value % divisor < divisor,
{
}

/// The UTC instant that a timestamp stands for, as text.
pub fn format_unix_timestamp(value: i128, unit: TimestampUnit) -> (result: Option<String>)
    ensures
        match result {
            Some(text) => timestamp_text(value as int, unit) == Some(text@),
            None => timestamp_text(value as int, unit) is None,
        },
{
    let (steps, digits): (i128, usize) = match unit {
        TimestampUnit::Seconds => (1, 0),
        TimestampUnit::Milliseconds => (1_000, 3),
        TimestampUnit::Microseconds => (1_000_000, 6),
        TimestampUnit::Nanoseconds => (1_000_000_000, 9),
    };
    let (seconds, rest): (i128, u64) = floor_parts(value, steps);
    let (days, second): (i128, u64) = floor_parts(seconds, 86_400);
    if days < i64::MIN as i128 || days > i64::MAX as i128 {
        return None;
    }
    let (year, month, day): (i64, i64, i64) = match civil_from_days(days as i64) {
        Some(date) => date,
        None => {
            return None;
        },
    };
    let mut out: String = String::new();
    number::push_zero_padded_integer(&mut out, year as i128, 4);
    assert(out@ == number::zero_padded_integer(year as int, 4));
    out.append("-");
    number::push_zero_padded(&mut out, month as u128, 2);
    out.append("-");
    number::push_zero_padded(&mut out, day as u128, 2);
    out.append("T");
    number::push_zero_padded(&mut out, (second / 3_600) as u128, 2);
    out.append(":");
    number::push_zero_padded(&mut out, (second % 3_600 / 60) as u128, 2);
    out.append(":");
    number::push_zero_padded(&mut out, (second % 60) as u128, 2);
    if digits > 0 {
        out.append(".");
        number::push_zero_padded(&mut out, rest as u128, digits);
    }
    out.append("Z");
    Some(out)
}

/// A date and a time of day as they are written, without the fraction of a second.
pub open spec fn written_instant(
    date: (int, int, int),
    hour: int,
    minute: int,
    second: int,
) -> Seq<char> {
    number::zero_padded_integer(date.0, 4) + "-"@ + number::zero_padded(date.1 as nat, 2) + "-"@
        + number::zero_padded(date.2 as nat, 2) + "T"@ + number::zero_padded(hour as nat, 2) + ":"@
        + number::zero_padded(minute as nat, 2) + ":"@ + number::zero_padded(second as nat, 2)
}

/// Every date and time of day is shown by the timestamp that counts up to it: a timestamp in
/// seconds counts whole seconds, and one in milliseconds, microseconds or nanoseconds counts a
/// thousand, a million or a thousand millions of steps for each of them, and shows the rest as the
/// digits of a fraction.
#[verifier::rlimit(40)]
pub proof fn timestamps_show_the_instant_they_count_to(
    date: (int, int, int),
    hour: int,
    minute: int,
    second: int,
    rest: int,
)
    requires
        is_date(date.0, date.1, date.2),
        0 <= hour < 24,
        0 <= minute < 60,
        0 <= second < 60,
        i64::MIN <= day_number(date.0, date.1, date.2),
        day_number(date.0, date.1, date.2) + 719_468 <= i64::MAX,
        0 <= rest,
    ensures
        ({
            let at = day_number(date.0, date.1, date.2) * 86_400 + hour * 3_600 + minute * 60
                + second;
            let shown = written_instant(date, hour, minute, second);
            &&& timestamp_text(at, TimestampUnit::Seconds) == Some(shown + "Z"@)
            &&& rest < 1_000 ==> timestamp_text(at * 1_000 + rest, TimestampUnit::Milliseconds)
                == Some(shown + "."@ + number::zero_padded(rest as nat, 3) + "Z"@)
            &&& rest < 1_000_000 ==> timestamp_text(
                at * 1_000_000 + rest,
                TimestampUnit::Microseconds,
            ) == Some(shown + "."@ + number::zero_padded(rest as nat, 6) + "Z"@)
            &&& rest < 1_000_000_000 ==> timestamp_text(
                at * 1_000_000_000 + rest,
                TimestampUnit::Nanoseconds,
            ) == Some(shown + "."@ + number::zero_padded(rest as nat, 9) + "Z"@)
        }),
{
    let days = day_number(date.0, date.1, date.2);
    let of_day = hour * 3_600 + minute * 60 + second;
    let at = days * 86_400 + of_day;
    date_reads_back(date.0, date.1, date.2);
    assert(0 <= of_day < 86_400);
    counted_up_to(days, of_day, 0, TimestampUnit::Seconds, 1);
    written_by_parts(date, hour, minute, second, 0, 0);
    assert(at * 1 + 0 == at);
    if rest < 1_000 {
        counted_up_to(days, of_day, rest, TimestampUnit::Milliseconds, 1_000);
        written_by_parts(date, hour, minute, second, rest, 3);
    }
    if rest < 1_000_000 {
        counted_up_to(days, of_day, rest, TimestampUnit::Microseconds, 1_000_000);
        written_by_parts(date, hour, minute, second, rest, 6);
    }
    if rest < 1_000_000_000 {
        counted_up_to(days, of_day, rest, TimestampUnit::Nanoseconds, 1_000_000_000);
        written_by_parts(date, hour, minute, second, rest, 9);
    }
}

proof fn counted_up_to(days: int, of_day: int, rest: int, unit: TimestampUnit, steps: int)
    requires
        steps == steps_per_second(unit),
        0 <= rest < steps,
        0 <= of_day < 86_400,
        i64::MIN <= days,
        days + 719_468 <= i64::MAX,
    ensures
        timestamp_text((days * 86_400 + of_day) * steps + rest, unit) == Some(
            instant_text(date_of(days), of_day, rest, second_digits(unit)),
        ),
{
    let at = days * 86_400 + of_day;
    let value = at * steps + rest;
    assert(value / steps == at && value % steps == rest) by (nonlinear_arith)
        requires
            value == at * steps + rest,
            0 <= rest < steps,
    ;
    assert(at / 86_400 == days && at % 86_400 == of_day);
}

proof fn written_by_parts(
    date: (int, int, int),
    hour: int,
    minute: int,
    second: int,
    rest: int,
    digits: nat,
)
    requires
        0 <= hour < 24,
        0 <= minute < 60,
        0 <= second < 60,
    ensures
        instant_text(date, hour * 3_600 + minute * 60 + second, rest, digits) == if digits == 0 {
            written_instant(date, hour, minute, second) + "Z"@
        } else {
            written_instant(date, hour, minute, second) + "."@ + number::zero_padded(
                rest as nat,
                digits,
            ) + "Z"@
        },
{
    let of_day = hour * 3_600 + minute * 60 + second;
    assert(of_day / 3_600 == hour);
    assert(of_day % 3_600 == minute * 60 + second);
    assert(of_day % 3_600 / 60 == minute);
    assert(of_day % 60 == second);
}

/// A timestamp denotes one instant whatever its unit: up to the fraction of a second, the texts of
/// the same second agree.
pub proof fn units_agree_up_to_the_fraction(second: int)
    requires
        timestamp_text(second, TimestampUnit::Seconds) is Some,
    ensures
        ({
            let whole = (timestamp_text(second, TimestampUnit::Seconds)->0).drop_last();
            &&& timestamp_text(second * 1_000, TimestampUnit::Milliseconds) matches Some(text)
                && whole.is_prefix_of(text)
            &&& timestamp_text(second * 1_000_000, TimestampUnit::Microseconds) matches Some(text)
                && whole.is_prefix_of(text)
            &&& timestamp_text(second * 1_000_000_000, TimestampUnit::Nanoseconds) matches Some(
                text,
            ) && whole.is_prefix_of(text)
        }),
{
    let shown = shown_second(second);
    reveal_strlit("Z");
    assert((shown + "Z"@).drop_last() == shown);
    starts_alike(shown, 3);
    starts_alike(shown, 6);
    starts_alike(shown, 9);
}

/// The first second of a day and the seconds of the day behind it, as they are written.
spec fn written_second(days: int, of_day: int) -> Seq<char> {
    written_instant(date_of(days), of_day / 3_600, of_day % 3_600 / 60, of_day % 60)
}

#[verifier::rlimit(40)]
proof fn shown_second(second: int) -> (shown: Seq<char>)
    requires
        timestamp_text(second, TimestampUnit::Seconds) is Some,
    ensures
        timestamp_text(second, TimestampUnit::Seconds) == Some(shown + "Z"@),
        timestamp_text(second * 1_000, TimestampUnit::Milliseconds) == Some(
            shown + "."@ + number::zero_padded(0, 3) + "Z"@,
        ),
        timestamp_text(second * 1_000_000, TimestampUnit::Microseconds) == Some(
            shown + "."@ + number::zero_padded(0, 6) + "Z"@,
        ),
        timestamp_text(second * 1_000_000_000, TimestampUnit::Nanoseconds) == Some(
            shown + "."@ + number::zero_padded(0, 9) + "Z"@,
        ),
{
    assert(second / steps_per_second(TimestampUnit::Seconds) == second);
    let days = second / 86_400;
    let of_day = second % 86_400;
    let shown = written_second(days, of_day);
    seconds_shown(second, days, of_day, TimestampUnit::Seconds, 1, 0);
    seconds_shown(second, days, of_day, TimestampUnit::Milliseconds, 1_000, 3);
    seconds_shown(
        second,
        days,
        of_day,
        TimestampUnit::Microseconds,
        1_000_000,
        6,
    );
    seconds_shown(
        second,
        days,
        of_day,
        TimestampUnit::Nanoseconds,
        1_000_000_000,
        9,
    );
    shown
}

proof fn seconds_shown(
    second: int,
    days: int,
    of_day: int,
    unit: TimestampUnit,
    steps: int,
    digits: nat,
) -> (value: int)
    requires
        steps == steps_per_second(unit),
        digits == second_digits(unit),
        second == days * 86_400 + of_day,
        0 <= of_day < 86_400,
        i64::MIN <= days,
        days + 719_468 <= i64::MAX,
    ensures
        value == second * steps,
        timestamp_text(value, unit) == Some(
            if digits == 0 {
                written_second(days, of_day) + "Z"@
            } else {
                written_second(days, of_day) + "."@ + number::zero_padded(0, digits) + "Z"@
            },
        ),
{
    let (hour, minute) = (of_day / 3_600, of_day % 3_600 / 60);
    assert(hour * 3_600 + minute * 60 + of_day % 60 == of_day);
    counted_up_to(days, of_day, 0, unit, steps);
    written_by_parts(date_of(days), hour, minute, of_day % 60, 0, digits);
    second * steps + 0
}

proof fn starts_alike(shown: Seq<char>, digits: nat)
    ensures
        shown.is_prefix_of(shown + "."@ + number::zero_padded(0, digits) + "Z"@),
{
}

} // verus!
