//! Civil time: what the clock and the calendar show a number of seconds after
//! the start of 1970, in UTC and without leap seconds.

use vstd::prelude::*;

verus! {

/// Whether a year of the proleptic Gregorian calendar has a leap day.
pub open spec fn is_leap_year(year: int) -> bool {
    year % 4 == 0 && (year % 100 != 0 || year % 400 == 0)
}

/// The number of days in a month.
pub open spec fn days_in_month(year: int, month: int) -> int {
    if month == 2 {
        if is_leap_year(year) {
            29
        } else {
            28
        }
    } else if month == 4 || month == 6 || month == 9 || month == 11 {
        30
    } else {
        31
    }
}

/// The number of days from the start of year 1 to the start of `year`: one for
/// each day of a common year, and one for each leap day.
pub open spec fn days_before_year(year: int) -> int {
    365 * (year - 1) + (year - 1) / 4 - (year - 1) / 100 + (year - 1) / 400
}

/// The number of days from the start of a year to the start of one of its
/// months.
pub open spec fn days_before_month(year: int, month: int) -> int
    decreases month,
{
    if month <= 1 {
        0
    } else {
        days_before_month(year, month - 1) + days_in_month(year, month - 1)
    }
}

/// The number of days from the start of 1970 to a date.
pub open spec fn day_number(year: int, month: int, day: int) -> int {
    days_before_year(year) + days_before_month(year, month) + day - 1 - days_before_year(1970)
}

/// A date and a time of day.
pub struct CivilTime {
    pub year: int,
    pub month: int,
    pub day: int,
    pub hour: int,
    pub minute: int,
    pub second: int,
}

impl CivilTime {
    /// The date is in the calendar and the time is on the clock.
    pub open spec fn valid(self) -> bool {
        &&& 1 <= self.month <= 12
        &&& 1 <= self.day <= days_in_month(self.year, self.month)
        &&& 0 <= self.hour < 24
        &&& 0 <= self.minute < 60
        &&& 0 <= self.second < 60
    }

    /// The number of seconds since the start of 1970.
    pub open spec fn epoch_seconds(self) -> int {
        day_number(self.year, self.month, self.day) * 86_400 + self.hour * 3600 + self.minute * 60
            + self.second
    }

    /// Whether this is the civil time `secs` seconds after the start of 1970.
    pub open spec fn denotes(self, secs: int) -> bool {
        self.valid() && self.epoch_seconds() == secs
    }
}

/// The civil time `secs` seconds after the start of 1970.
pub open spec fn civil_time(secs: int) -> CivilTime {
    choose|time: CivilTime| time.denotes(secs)
}

/// A year is as long as its months together: 365 days, or 366 with a leap day.
pub proof fn law_year_length(year: int)
    ensures
        days_before_year(year + 1) - days_before_year(year) == if is_leap_year(year) {
            366int
        } else {
            365
        },
        days_before_month(year, 13) == days_before_year(year + 1) - days_before_year(year),
{
    lemma_month_starts(year);
}

/// The day of the year, counted from zero, on which each month starts.
proof fn lemma_month_starts(year: int)
    ensures
        days_before_month(year, 1) == 0,
        days_before_month(year, 2) == 31,
        days_before_month(year, 3) == 59 + (if is_leap_year(year) { 1int } else { 0 }),
        forall|m: int| 3 <= m <= 13 ==> #[trigger] days_before_month(year, m)
            == days_before_month(year, 3) + (153 * (m - 3) + 2) / 5,
{
    reveal_with_fuel(days_before_month, 14);
    assert forall|m: int| 3 <= m <= 13 implies #[trigger] days_before_month(year, m)
            == days_before_month(year, 3) + (153 * (m - 3) + 2) / 5 by {
        if m == 3 {} else if m == 4 {} else if m == 5 {} else if m == 6 {} else if m == 7 {}
        else if m == 8 {} else if m == 9 {} else if m == 10 {} else if m == 11 {}
        else if m == 12 {} else {}
    }
}

/// The year of a cycle of 400 years that starts on the first of March, from the
/// day of the cycle.
proof fn lemma_year_of_cycle(doe: int, yoe: int)
    requires
        0 <= doe <= 146_096,
        yoe == (doe - doe / 1460 + doe / 36_524 - doe / 146_096) / 365,
    ensures
        0 <= yoe <= 399,
        365 * yoe + yoe / 4 - yoe / 100 <= doe,
        doe < 365 * (yoe + 1) + (yoe + 1) / 4 - (yoe + 1) / 100 || (yoe == 399 && doe == 146_096),
{
}

/// The month of a year that starts on the first of March, and the day of the
/// month, from the day of the year.
proof fn lemma_month_of_year(doy: int, mp: int, d: int)
    requires
        0 <= doy <= 365,
        mp == (5 * doy + 2) / 153,
        d == doy - (153 * mp + 2) / 5 + 1,
    ensures
        0 <= mp <= 11,
        1 <= d,
        mp < 11 ==> d <= (153 * (mp + 1) + 2) / 5 - (153 * mp + 2) / 5,
        mp == 11 ==> d == doy - 337 + 1,
{
}

/// A date in the calendar, from the March-based year, month and day that the
/// number of days since 1 March of year 0 breaks into.
proof fn lemma_civil_date(z: int, y: int, doy: int, mp: int, d: int, m: int, year: int)
    requires
        z == 365 * y + y / 4 - y / 100 + y / 400 + doy,
        0 <= doy <= 365,
        doy == 365 ==> is_leap_year(y + 1),
        mp == (5 * doy + 2) / 153,
        d == doy - (153 * mp + 2) / 5 + 1,
        m == (if mp < 10 {
            mp + 3
        } else {
            mp - 9
        }),
        year == (if m <= 2 {
            y + 1
        } else {
            y
        }),
    ensures
        1 <= m <= 12,
        1 <= d <= days_in_month(year, m),
        day_number(year, m, d) == z - 719_468,
{
    lemma_month_of_year(doy, mp, d);
    lemma_month_starts(year);
    if mp < 10 {
        law_year_length(y);
        assert(days_before_month(year, m) == days_before_month(year, 3) + (153 * mp + 2) / 5);
        if m < 12 {
            assert(days_before_month(year, m + 1) == days_before_month(year, m) + days_in_month(
                year,
                m,
            ));
        }
    }
}

/// Dates in order of the calendar have their day numbers in order.
proof fn lemma_dates_in_order(a: CivilTime, b: CivilTime)
    requires
        a.valid(),
        b.valid(),
        a.year < b.year || (a.year == b.year && a.month < b.month),
    ensures
        day_number(a.year, a.month, a.day) < day_number(b.year, b.month, b.day),
{
    lemma_month_starts(a.year);
    lemma_month_starts(b.year);
    law_year_length(a.year);
    reveal_with_fuel(days_before_month, 2);
    let next = days_before_month(a.year, a.month + 1);
    assert(next == days_before_month(a.year, a.month) + days_in_month(a.year, a.month));
    if a.year < b.year {
        assert(days_before_year(a.year + 1) <= days_before_year(b.year));
        assert(next <= days_before_month(a.year, 13)) by {
            if a.month == 1 {
            } else {
                assert(days_before_month(a.year, a.month + 1) <= days_before_month(a.year, 13));
            }
        }
        assert(days_before_month(b.year, b.month) >= 0) by {
            if b.month <= 2 {
            } else {
                assert(days_before_month(b.year, b.month) >= days_before_month(b.year, 3));
            }
        }
    } else {
        assert(next <= days_before_month(b.year, b.month)) by {
            if a.month == 1 {
                if b.month > 2 {
                    assert(days_before_month(b.year, b.month) >= days_before_month(b.year, 3));
                }
            } else {
                assert(days_before_month(b.year, b.month) >= days_before_month(
                    b.year,
                    a.month + 1,
                ));
            }
        }
    }
}

/// No two civil times are the same number of seconds after the start of 1970.
pub proof fn law_civil_time_is_unique(a: CivilTime, b: CivilTime)
    requires
        a.valid(),
        b.valid(),
        a.epoch_seconds() == b.epoch_seconds(),
    ensures
        a == b,
{
    let day_a = day_number(a.year, a.month, a.day);
    let day_b = day_number(b.year, b.month, b.day);
    assert(day_a == day_b);
    if a.year < b.year || (a.year == b.year && a.month < b.month) {
        lemma_dates_in_order(a, b);
    } else if b.year < a.year || (a.year == b.year && b.month < a.month) {
        lemma_dates_in_order(b, a);
    }
}

/// A March-based year and a day of it, from the cycle of 400 years that the day
/// falls in and the year of that cycle.
proof fn lemma_day_of_year(z: int, era: int, doe: int, yoe: int, y: int, doy: int)
    requires
        z == era * 146_097 + doe,
        0 <= doe <= 146_096,
        yoe == (doe - doe / 1460 + doe / 36_524 - doe / 146_096) / 365,
        y == yoe + era * 400,
        doy == doe - (365 * yoe + yoe / 4 - yoe / 100),
    ensures
        0 <= yoe <= 399,
        0 <= doy <= 365,
        doy == 365 ==> is_leap_year(y + 1),
        z == 365 * y + y / 4 - y / 100 + y / 400 + doy,
{
    lemma_year_of_cycle(doe, yoe);
    assert(y / 4 == era * 100 + yoe / 4);
    assert(y / 100 == era * 4 + yoe / 100);
    assert(y / 400 == era);
    if doy == 365 {
        assert((yoe + 1) % 4 == 0);
        assert((y + 1) % 4 == 0);
        assert((yoe + 1) % 100 != 0 || yoe == 399);
        assert((y + 1) % 100 == (yoe + 1) % 100);
    }
}

/// Every second has a civil time.
pub proof fn law_every_second_has_a_civil_time(secs: int)
    ensures
        civil_time(secs).denotes(secs),
{
    let z = secs / 86_400 + 719_468;
    let today = secs % 86_400;
    let era = z / 146_097;
    let doe = z - era * 146_097;
    let yoe = (doe - doe / 1460 + doe / 36_524 - doe / 146_096) / 365;
    let y = yoe + era * 400;
    let doy = doe - (365 * yoe + yoe / 4 - yoe / 100);
    let mp = (5 * doy + 2) / 153;
    let d = doy - (153 * mp + 2) / 5 + 1;
    let m = if mp < 10 {
        mp + 3
    } else {
        mp - 9
    };
    let year = if m <= 2 {
        y + 1
    } else {
        y
    };
    lemma_day_of_year(z, era, doe, yoe, y, doy);
    lemma_civil_date(z, y, doy, mp, d, m, year);
    let time = CivilTime {
        year,
        month: m,
        day: d,
        hour: today / 3600,
        minute: (today % 3600) / 60,
        second: today % 60,
    };
    assert(time.denotes(secs));
}

/// The later of two civil times is later in the calendar, or on the clock of the
/// same day.
pub proof fn law_civil_time_runs_forward(a: CivilTime, b: CivilTime)
    requires
        a.valid(),
        b.valid(),
        a.epoch_seconds() < b.epoch_seconds(),
    ensures
        ({
            ||| a.year < b.year
            ||| a.year == b.year && a.month < b.month
            ||| a.year == b.year && a.month == b.month && a.day < b.day
            ||| a.year == b.year && a.month == b.month && a.day == b.day && a.hour < b.hour
            ||| a.year == b.year && a.month == b.month && a.day == b.day && a.hour == b.hour
                && a.minute < b.minute
            ||| a.year == b.year && a.month == b.month && a.day == b.day && a.hour == b.hour
                && a.minute == b.minute && a.second < b.second
        }),
{
    if b.year < a.year || (a.year == b.year && b.month < a.month) {
        lemma_dates_in_order(b, a);
    }
}

/// The date `days` days after the start of 1970: year, month and day.
fn civil_date(days: i64) -> (date: (i64, u32, u32))
    requires
        -0x1_0000_0000_0000 <= days <= 0x1_0000_0000_0000,
    ensures
        1 <= date.1 <= 12,
        1 <= date.2 <= days_in_month(date.0 as int, date.1 as int),
        day_number(date.0 as int, date.1 as int, date.2 as int) == days,
        -0x2_0000_0000_0000 <= date.0 <= 0x2_0000_0000_0000,
{
    let z: i64 = days + 719_468;
    let era: i64 = z.checked_div_euclid(146_097).unwrap();
    assert(era * 146_097 <= z < era * 146_097 + 146_097);
    let doe: u32 = (z - era * 146_097) as u32;
    proof {
        lemma_year_of_cycle(
            doe as int,
            (doe - doe / 1460 + doe / 36_524 - doe / 146_096) / 365,
        );
    }
    let yoe: u32 = (doe - doe / 1460 + doe / 36_524 - doe / 146_096) / 365;
    let y: i64 = yoe as i64 + era * 400;
    let doy: u32 = doe - (365 * yoe + yoe / 4 - yoe / 100);
    proof {
        lemma_day_of_year(z as int, era as int, doe as int, yoe as int, y as int, doy as int);
    }
    let mp: u32 = (5 * doy + 2) / 153;
    proof {
        lemma_month_of_year(doy as int, mp as int, doy - (153 * mp + 2) / 5 + 1);
    }
    let d: u32 = doy - (153 * mp + 2) / 5 + 1;
    let m: u32 = if mp < 10 {
        mp + 3
    } else {
        mp - 9
    };
    let year: i64 = if m <= 2 {
        y + 1
    } else {
        y
    };
    proof {
        lemma_civil_date(
            z as int,
            y as int,
            doy as int,
            mp as int,
            d as int,
            m as int,
            year as int,
        );
    }
    (year, m, d)
}

/// The date and the time of day `secs` seconds after the start of 1970.
pub(crate) fn civil_from_epoch(secs: i64) -> (time: (i64, u32, u32, u32, u32, u32))
    ensures
        (CivilTime {
            year: time.0 as int,
            month: time.1 as int,
            day: time.2 as int,
            hour: time.3 as int,
            minute: time.4 as int,
            second: time.5 as int,
        }).denotes(secs as int),
        -0x2_0000_0000_0000 <= time.0 <= 0x2_0000_0000_0000,
{
    let days_since_epoch: i64 = secs.checked_div_euclid(86_400).unwrap();
    let secs_today: u32 = secs.checked_rem_euclid(86_400).unwrap() as u32;
    let hour: u32 = secs_today / 3600;
    let min: u32 = (secs_today % 3600) / 60;
    let sec: u32 = secs_today % 60;
    let (year, m, d) = civil_date(days_since_epoch);
    (year, m, d, hour, min, sec)
}

/// The years that fit in 32 bits start and end at these seconds.
proof fn lemma_year_fits(time: CivilTime)
    requires
        time.valid(),
        -67_768_100_567_971_200 <= time.epoch_seconds() <= 67_767_976_233_532_799,
    ensures
        i32::MIN <= time.year <= i32::MAX,
{
    let first = CivilTime { year: -0x8000_0000, month: 1, day: 1, hour: 0, minute: 0, second: 0 };
    let beyond = CivilTime { year: 0x8000_0000, month: 1, day: 1, hour: 0, minute: 0, second: 0 };
    assert(days_before_month(first.year, 1) == 0);
    assert(days_before_month(beyond.year, 1) == 0);
    assert(first.epoch_seconds() == -67_768_100_567_971_200);
    assert(beyond.epoch_seconds() == 67_767_976_233_532_800);
    if time.year < first.year {
        lemma_dates_in_order(time, first);
    }
    if time.year > beyond.year {
        lemma_dates_in_order(beyond, time);
    }
    if time.year == beyond.year && time.month > 1 {
        lemma_dates_in_order(beyond, time);
    }
}

/// The date and the time of day `secs` seconds after the start of 1970: year,
/// month, day, hour, minute and second.
///
/// The year has to fit in 32 bits.
pub fn epoch_to_ymdhms(secs: i64) -> (time: (i32, u32, u32, u32, u32, u32))
    requires
        -67_768_100_567_971_200 <= secs <= 67_767_976_233_532_799,
    ensures
        (CivilTime {
            year: time.0 as int,
            month: time.1 as int,
            day: time.2 as int,
            hour: time.3 as int,
            minute: time.4 as int,
            second: time.5 as int,
        }).denotes(secs as int),
{
    let (year, m, d, hour, min, sec) = civil_from_epoch(secs);
    proof {
        lemma_year_fits(
            CivilTime {
                year: year as int,
                month: m as int,
                day: d as int,
                hour: hour as int,
                minute: min as int,
                second: sec as int,
            },
        );
    }
    (year as i32, m, d, hour, min, sec)
}

/// Time is counted from midnight at the start of 1970.
pub proof fn law_time_starts_in_1970(time: CivilTime)
    ensures
        time.denotes(0) <==> time == (CivilTime {
            year: 1970,
            month: 1,
            day: 1,
            hour: 0,
            minute: 0,
            second: 0,
        }),
        civil_time(0) == (CivilTime { year: 1970, month: 1, day: 1, hour: 0, minute: 0, second: 0 }),
{
    let start = CivilTime { year: 1970, month: 1, day: 1, hour: 0, minute: 0, second: 0 };
    assert(days_before_month(1970, 1) == 0);
    assert(start.denotes(0));
    law_every_second_has_a_civil_time(0);
    law_civil_time_is_unique(civil_time(0), start);
    if time.denotes(0) {
        law_civil_time_is_unique(time, start);
    }
}

/// From one second to the next the clock moves on by one second: sixty of them make
/// a minute, sixty minutes an hour and twenty-four hours a day, after which the date
/// moves on by one day. A month has thirty-one days, or thirty in April, June,
/// September and November, or twenty-eight in February and twenty-nine in a leap
/// year: one that four divides, unless a hundred does and four hundred does not.
pub proof fn law_clock_ticks(a: CivilTime, b: CivilTime, secs: int)
    requires
        a.denotes(secs),
        b.denotes(secs + 1),
    ensures
        ({
            let days: int = if a.month == 2 {
                if a.year % 400 == 0 || a.year % 4 == 0 && a.year % 100 != 0 {
                    29
                } else {
                    28
                }
            } else if a.month == 4 || a.month == 6 || a.month == 9 || a.month == 11 {
                30
            } else {
                31
            };
            if a.second < 59 {
                b == CivilTime { second: a.second + 1, ..a }
            } else if a.minute < 59 {
                b == CivilTime { minute: a.minute + 1, second: 0, ..a }
            } else if a.hour < 23 {
                b == CivilTime { hour: a.hour + 1, minute: 0, second: 0, ..a }
            } else if a.day < days {
                b == CivilTime { day: a.day + 1, hour: 0, minute: 0, second: 0, ..a }
            } else if a.month < 12 {
                b == CivilTime { month: a.month + 1, day: 1, hour: 0, minute: 0, second: 0, ..a }
            } else {
                b == CivilTime {
                    year: a.year + 1,
                    month: 1,
                    day: 1,
                    hour: 0,
                    minute: 0,
                    second: 0,
                }
            }
        }),
{
    let days = days_in_month(a.year, a.month);
    let next = if a.second < 59 {
        CivilTime { second: a.second + 1, ..a }
    } else if a.minute < 59 {
        CivilTime { minute: a.minute + 1, second: 0, ..a }
    } else if a.hour < 23 {
        CivilTime { hour: a.hour + 1, minute: 0, second: 0, ..a }
    } else if a.day < days {
        CivilTime { day: a.day + 1, hour: 0, minute: 0, second: 0, ..a }
    } else if a.month < 12 {
        CivilTime { month: a.month + 1, day: 1, hour: 0, minute: 0, second: 0, ..a }
    } else {
        CivilTime { year: a.year + 1, month: 1, day: 1, hour: 0, minute: 0, second: 0 }
    };
    assert(days_before_month(a.year, a.month + 1) == days_before_month(a.year, a.month) + days);
    assert(days_before_month(a.year + 1, 1) == 0);
    law_year_length(a.year);
    assert(next.valid());
    assert(next.epoch_seconds() == secs + 1);
    law_civil_time_is_unique(b, next);
}

} // verus!
