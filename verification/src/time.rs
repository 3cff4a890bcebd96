//! Calendar dates and seconds since the start of 1970.

use vstd::arithmetic::div_mod::lemma_mod_mod;
use vstd::prelude::*;

verus! {

/// Seconds of a day.
pub const SECONDS_PER_DAY: u64 = 86400;

/// Seconds of a year of 365 days.
pub const SECONDS_PER_YEAR: u64 = 31536000;

/// Seconds from the start of 1601 to the start of 1970.
pub const SECONDS_1601_TO_1970: u64 = 11644473600;

/// Seconds of 400 years, 97 leap days among them.
pub const SECONDS_PER_400_YEARS: u64 = 12622780800;

/// Seconds of 100 years with 24 leap days.
pub const SECONDS_PER_100_YEARS: u64 = 3155673600;

/// Seconds of 4 years with 1 leap day.
pub const SECONDS_PER_4_YEARS: u64 = 126230400;

/// The last second, counted from 1970, of the last span of 400 years in
/// which every year fits in 32 bits.
pub const MAX_SECONDS: u64 = 135_536_011_636_377_599;

/// A date and a time of day.
#[derive(Debug, Clone, Copy, PartialEq, Eq, Structural)]
pub struct DateTime {
    pub year: u32,
    pub month: u8,
    pub day: u8,
    pub hours: u8,
    pub minutes: u8,
    pub seconds: u8,
}

/// Whether `year` has 366 days.
pub open spec fn leap_year(year: int) -> bool {
    (year % 4 == 0 && year % 100 != 0) || year % 400 == 0
}

/// Days of the year that lie before the first day of month `month`, for the
/// months 1 to 12, and before the end of the year for 13.
pub open spec fn days_before_month(leap: bool, month: int) -> int {
    if month <= 1 {
        0
    } else if month == 2 {
        31
    } else {
        (if leap {
            1int
        } else {
            0int
        }) + (if month == 3 {
            59int
        } else if month == 4 {
            90
        } else if month == 5 {
            120
        } else if month == 6 {
            151
        } else if month == 7 {
            181
        } else if month == 8 {
            212
        } else if month == 9 {
            243
        } else if month == 10 {
            273
        } else if month == 11 {
            304
        } else if month == 12 {
            334
        } else {
            365
        })
    }
}

/// Seconds from the start of 1970 to the date and time `date`, days counted
/// from 1.
pub open spec fn seconds_from_date(date: DateTime) -> int {
    date.seconds + date.minutes * 60 + date.hours * 3600 + (days_before_month(
        leap_year(date.year as int),
        date.month as int,
    ) + date.day - 1) * 86400 + (date.year - 1970) * 31536000 + ((date.year - 1969) / 4) * 86400
        - ((date.year - 1901) / 100) * 86400 + ((date.year - 1601) / 400) * 86400
}

/// The year that the second `seconds` after the start of 1601 lies in.
pub open spec fn year_of(seconds: int) -> int {
    let in_400 = seconds % 12622780800;
    let centennials = if in_400 / 3155673600 < 3 {
        in_400 / 3155673600
    } else {
        3
    };
    let in_100 = in_400 - centennials * 3155673600;
    let quadrennials = if in_100 / 126230400 < 24 {
        in_100 / 126230400
    } else {
        24
    };
    let in_4 = in_100 - quadrennials * 126230400;
    let annuals = if in_4 / 31536000 < 3 {
        in_4 / 31536000
    } else {
        3
    };
    1601 + (seconds / 12622780800) * 400 + centennials * 100 + quadrennials * 4 + annuals
}

/// The seconds that have passed of the year that the second `seconds` after
/// the start of 1601 lies in.
pub open spec fn second_of_year(seconds: int) -> int {
    let in_400 = seconds % 12622780800;
    let centennials = if in_400 / 3155673600 < 3 {
        in_400 / 3155673600
    } else {
        3
    };
    let in_100 = in_400 - centennials * 3155673600;
    let quadrennials = if in_100 / 126230400 < 24 {
        in_100 / 126230400
    } else {
        24
    };
    let in_4 = in_100 - quadrennials * 126230400;
    let annuals = if in_4 / 31536000 < 3 {
        in_4 / 31536000
    } else {
        3
    };
    in_4 - annuals * 31536000
}

/// The month, from 1 to 11, that day `day_of_year` of a year lies in, days
/// counted from 0; 0 for a day of December or later.
pub open spec fn month_of(leap: bool, day_of_year: int) -> int {
    if day_of_year < days_before_month(leap, 2) {
        1
    } else if day_of_year < days_before_month(leap, 3) {
        2
    } else if day_of_year < days_before_month(leap, 4) {
        3
    } else if day_of_year < days_before_month(leap, 5) {
        4
    } else if day_of_year < days_before_month(leap, 6) {
        5
    } else if day_of_year < days_before_month(leap, 7) {
        6
    } else if day_of_year < days_before_month(leap, 8) {
        7
    } else if day_of_year < days_before_month(leap, 9) {
        8
    } else if day_of_year < days_before_month(leap, 10) {
        9
    } else if day_of_year < days_before_month(leap, 11) {
        10
    } else if day_of_year < days_before_month(leap, 12) {
        11
    } else {
        0
    }
}

/// The date and time of the second `seconds` after the start of 1970.  The
/// day of the month counts from 0.  A day of December has month 0 and day 0.
pub open spec fn date_from_seconds(seconds: int) -> DateTime {
    let since_1601 = seconds + 11644473600;
    let year = year_of(since_1601);
    let in_year = second_of_year(since_1601);
    let day_of_year = in_year / 86400;
    let month = month_of(leap_year(year), day_of_year);
    DateTime {
        year: year as u32,
        month: month as u8,
        day: (if month == 0 {
            0
        } else {
            day_of_year - days_before_month(leap_year(year), month)
        }) as u8,
        hours: (in_year % 86400 / 3600) as u8,
        minutes: (in_year % 3600 / 60) as u8,
        seconds: (in_year % 60) as u8,
    }
}

/// The date of a second names that second: counted from the start of
/// 1970, with the day of the month counted from 1, the date and time that
/// `date_from_seconds` gives for `seconds` lies `seconds` seconds after the
/// start of 1970.  This holds of every month but December, for which the
/// month and the day of the date are 0.
#[verifier::rlimit(100)]
pub proof fn lemma_date_names_its_second(seconds: int)
    requires
        0 <= seconds < 0x1_0000_0000,
        date_from_seconds(seconds).month != 0,
    ensures
        seconds_from_date(
            (DateTime {
                year: date_from_seconds(seconds).year,
                month: date_from_seconds(seconds).month,
                day: (date_from_seconds(seconds).day + 1) as u8,
                hours: date_from_seconds(seconds).hours,
                minutes: date_from_seconds(seconds).minutes,
                seconds: date_from_seconds(seconds).seconds,
            }),
        ) == seconds,
{
    let since_1601 = seconds + 11644473600;
    let year = year_of(since_1601);
    let in_year = second_of_year(since_1601);
    lemma_year_starts(since_1601);
    let day_of_year = in_year / 86400;
    let leap = leap_year(year);
    let month = month_of(leap, day_of_year);
    assert(in_year == day_of_year * 86400 + (in_year % 86400 / 3600) * 3600 + (in_year % 3600 / 60)
        * 60 + in_year % 60);
    assert(0 <= day_of_year - days_before_month(leap, month) < 31);
}

/// The seconds from the start of 1601 to the start of the year `year`.
pub open spec fn year_start(year: int) -> int {
    (year - 1601) * 31536000 + ((year - 1601) / 4 - (year - 1601) / 100 + (year - 1601) / 400)
        * 86400
}

/// A second lies in the year that `year_of` gives, as many seconds after the
/// start of that year as `second_of_year` gives.
#[verifier::rlimit(100)]
pub proof fn lemma_year_starts(since_1601: int)
    requires
        11644473600 <= since_1601 < 11644473600 + 0x1_0000_0000,
    ensures
        1970 <= year_of(since_1601) <= 2106,
        since_1601 == year_start(year_of(since_1601)) + second_of_year(since_1601),
        0 <= second_of_year(since_1601) < (if leap_year(year_of(since_1601)) {
            366int
        } else {
            365int
        }) * 86400,
{
    let cycles = since_1601 / 12622780800;
    assert(cycles == 0 || cycles == 1);
    let in_400 = since_1601 % 12622780800;
    assert(since_1601 == cycles * 12622780800 + in_400);
    let centennials = if in_400 / 3155673600 < 3 {
        in_400 / 3155673600
    } else {
        3
    };
    let in_100 = in_400 - centennials * 3155673600;
    let quadrennials = if in_100 / 126230400 < 24 {
        in_100 / 126230400
    } else {
        24
    };
    let in_4 = in_100 - quadrennials * 126230400;
    let annuals = if in_4 / 31536000 < 3 {
        in_4 / 31536000
    } else {
        3
    };
    assert(0 <= centennials <= 3);
    assert(0 <= quadrennials <= 24);
    assert(0 <= annuals <= 3);
    let years = cycles * 400 + centennials * 100 + quadrennials * 4 + annuals;
    assert(year_of(since_1601) == 1601 + years);
    assert(years / 4 == cycles * 100 + centennials * 25 + quadrennials);
    assert(years / 100 == cycles * 4 + centennials);
    assert(years / 400 == cycles);
}

/// The character of the decimal digit `digit`.
pub open spec fn digit_char(digit: int) -> char {
    if digit == 0 {
        '0'
    } else if digit == 1 {
        '1'
    } else if digit == 2 {
        '2'
    } else if digit == 3 {
        '3'
    } else if digit == 4 {
        '4'
    } else if digit == 5 {
        '5'
    } else if digit == 6 {
        '6'
    } else if digit == 7 {
        '7'
    } else if digit == 8 {
        '8'
    } else {
        '9'
    }
}

/// `number` written in decimal, without leading zeros.
pub open spec fn decimal(number: nat) -> Seq<char>
    decreases number,
{
    if number < 10 {
        seq![digit_char(number as int)]
    } else {
        decimal(number / 10).push(digit_char(number as int % 10))
    }
}

/// The text of a date and a time: month, day and year with `/` between
/// them, a blank, hours, minutes and seconds with `:` between them, a blank,
/// and `postfix`.  The numbers are written in decimal, without leading
/// zeros.
pub open spec fn date_text(
    month: u8,
    day: u8,
    year: u32,
    hours: u8,
    minutes: u8,
    seconds: u8,
    postfix: Seq<char>,
) -> Seq<char> {
    decimal(month as nat) + seq!['/'] + decimal(day as nat) + seq!['/'] + decimal(year as nat)
        + seq![' '] + decimal(hours as nat) + seq![':'] + decimal(minutes as nat) + seq![':']
        + decimal(seconds as nat) + seq![' '] + postfix
}

/// `format!` of the standard library, with the pattern
/// `{}/{}/{} {}:{}:{} {}`: each number is written in decimal without
/// leading zeros, the text as it is, and between them stands what the
/// pattern has between its places.
#[verifier::external_body]
fn format_date(
    month: u8,
    day: u8,
    year: u32,
    hours: u8,
    minutes: u8,
    seconds: u8,
    postfix: &str,
) -> (text: String)
    ensures
        text@ == date_text(month, day, year, hours, minutes, seconds, postfix@),
{
    format!("{}/{}/{} {}:{}:{} {}", month, day, year, hours, minutes, seconds, postfix)
}

/// The hour on a clock of twelve hours that shows the hour `hours` of the
/// day: 12 for noon and for midnight.
pub open spec fn hour_on_clock(hours: u8) -> int {
    let hour = if hours >= 12 {
        hours - 12
    } else {
        hours as int
    };
    if hour == 0 {
        12
    } else {
        hour
    }
}

fn days_before(leap: bool, month: u8) -> (days: u16)
    requires
        month <= 13,
    ensures
        days == days_before_month(leap, month as int),
{
    let extra: u16 = if leap {
        1
    } else {
        0
    };
    if month <= 1 {
        0
    } else if month == 2 {
        31
    } else if month == 3 {
        59 + extra
    } else if month == 4 {
        90 + extra
    } else if month == 5 {
        120 + extra
    } else if month == 6 {
        151 + extra
    } else if month == 7 {
        181 + extra
    } else if month == 8 {
        212 + extra
    } else if month == 9 {
        243 + extra
    } else if month == 10 {
        273 + extra
    } else if month == 11 {
        304 + extra
    } else if month == 12 {
        334 + extra
    } else {
        365 + extra
    }
}

fn at_most(value: u64, limit: u64) -> (least: u64)
    ensures
        least == if value < limit {
            value
        } else {
            limit
        },
{
    if value < limit {
        value
    } else {
        limit
    }
}

impl DateTime {
    /// Whether the year of the date has 366 days.
    pub fn is_leap_year(&self) -> (leap: bool)
        ensures
            leap == leap_year(self.year as int),
    {
        (self.year % 4 == 0 && self.year % 100 != 0) || (self.year % 400 == 0)
    }

    /// The day of the year, counted from 1, for a month from 1 to 12.
    pub fn day_of_year(&self) -> (day: u16)
        requires
            self.month <= 12,
        ensures
            day == days_before_month(leap_year(self.year as int), self.month as int) + self.day,
    {
        days_before(self.is_leap_year(), self.month) + self.day as u16
    }

    /// Seconds from the start of 1970 to the date, for a year from 1970 to
    /// 2106, a month up to 12 and a day of the year from 1 on.  Month 0
    /// counts as January.
    #[verifier::rlimit(30)]
    pub fn seconds_since_epoch(&self) -> (seconds: u64)
        requires
            1970 <= self.year <= 2106,
            self.month <= 12,
            1 <= self.day || 2 <= self.month,
        ensures
            seconds == seconds_from_date(*self),
    {
        let recent_year: u32 = self.year - 1900;
        self.seconds as u64 + (self.minutes as u32 * 60) as u64 + (self.hours as u32
            * 3600) as u64 + ((self.day_of_year() as u32 - 1) * 86400) as u64 + ((recent_year
            - 70) * 31536000) as u64 + (((recent_year - 69) / 4) * 86400) as u64 - (((recent_year
            - 1) / 100) * 86400) as u64 + (((recent_year + 299) / 400) * 86400) as u64
    }

    /// The date and the time on a clock of twelve hours, as text: month, day
    /// and year, then hours, minutes and seconds, then `AM` or `PM`.
    pub fn to_string(&self) -> (text: String)
        ensures
            text@ == date_text(
                self.month,
                self.day,
                self.year,
                hour_on_clock(self.hours) as u8,
                self.minutes,
                self.seconds,
                if self.hours >= 12 {
                    "PM"@
                } else {
                    "AM"@
                },
            ),
    {
        let is_pm = self.hours >= 12;
        let postfix = if is_pm {
            "PM"
        } else {
            "AM"
        };
        let hours = if is_pm {
            self.hours - 12
        } else {
            self.hours
        };
        let nice_hours = if hours == 0 {
            12
        } else {
            hours
        };
        format_date(self.month, self.day, self.year, nice_hours, self.minutes, self.seconds, postfix)
    }

    /// The date and time of the second `seconds_since_epoch` after the start
    /// of 1970.  The day of the month counts from 0.  A day of December has
    /// month 0 and day 0.
    #[verifier::rlimit(30)]
    pub fn from_seconds_since_epoc(seconds_since_epoch: u64) -> (date: DateTime)
        requires
            seconds_since_epoch <= MAX_SECONDS,
        ensures
            date == date_from_seconds(seconds_since_epoch as int),
    {
        // Re-bias from 1970 to 1601
        let mut seconds = seconds_since_epoch + SECONDS_1601_TO_1970;
        // Remove multiples of 400 years
        let quadricentennials = seconds / SECONDS_PER_400_YEARS;
        seconds %= SECONDS_PER_400_YEARS;
        // Remove multiples of 100 years, at most 3
        let centennials = at_most(seconds / SECONDS_PER_100_YEARS, 3);
        seconds -= centennials * SECONDS_PER_100_YEARS;
        // Remove multiples of 4 years, at most 24
        let quadrennials = at_most(seconds / SECONDS_PER_4_YEARS, 24);
        seconds -= quadrennials * SECONDS_PER_4_YEARS;
        // Remove multiples of years, at most 3
        let annuals = at_most(seconds / SECONDS_PER_YEAR, 3);
        seconds -= annuals * SECONDS_PER_YEAR;
        // Calculate the year and find out if it's leap
        let year = (1601 + quadricentennials * 400 + centennials * 100 + quadrennials * 4
            + annuals) as u32;
        let leap = year % 4 == 0 && (year % 100 > 0 || year % 400 == 0);
        // Calculate the day of the year and the time
        proof {
            lemma_mod_mod(seconds as int, 3600, 24);
            lemma_mod_mod(seconds as int, 60, 60);
            lemma_mod_mod(seconds as int, 60, 1440);
        }
        let day_of_year = seconds / SECONDS_PER_DAY;
        seconds %= SECONDS_PER_DAY;
        let hours = (seconds / 3600) as u8;
        seconds %= 3600;
        let minutes = (seconds / 60) as u8;
        seconds %= 60;
        let mut day_of_month: u8 = 0;
        let mut month: u8 = 0;
        // Calculate the month
        let mut index: u8 = 1;
        while index < 12
            invariant_except_break
                month == 0,
                day_of_month == 0,
                forall|m: int|
                    2 <= m <= index ==> day_of_year >= #[trigger] days_before_month(leap, m),
            invariant
                1 <= index <= 12,
                day_of_year <= 366,
            ensures
                month == month_of(leap, day_of_year as int),
                day_of_month == if month == 0 {
                    0
                } else {
                    day_of_year - days_before_month(leap, month as int)
                },
            decreases 12 - index,
        {
            if day_of_year < days_before(leap, index + 1) as u64 {
                day_of_month = (day_of_year - days_before(leap, index) as u64) as u8;
                month = index;
                break ;
            }
            index += 1;
        }
        DateTime { year, month, day: day_of_month, hours, minutes, seconds: seconds as u8 }
    }
}

} // verus!
