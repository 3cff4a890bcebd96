//! The real-time clock of the CMOS chip: what its registers hold, decoded
//! into a date and a time of day.

use vstd::prelude::*;
use crate::time::DateTime;

verus! {

/// The year in which the clock was last set up; the century of a year that
/// the chip reports with two digits is taken from it.
pub const CURRENT_YEAR: u32 = 2017;

/// The register that holds the century; zero where the chip has none.
pub const REGISTER_CENTURY: u8 = 0x00;

/// A register of the chip.
#[derive(Debug, Clone, Copy, PartialEq, Eq, Structural)]
pub enum CMOSRegister {
    Seconds,
    Minutes,
    Hours,
    Day,
    Month,
    Year,
    StatusA,
    StatusB,
}

impl CMOSRegister {
    /// The number of the register on the chip.
    pub open spec fn number(self) -> u8 {
        match self {
            CMOSRegister::Seconds => 0x00,
            CMOSRegister::Minutes => 0x02,
            CMOSRegister::Hours => 0x04,
            CMOSRegister::Day => 0x07,
            CMOSRegister::Month => 0x08,
            CMOSRegister::Year => 0x09,
            CMOSRegister::StatusA => 0x0A,
            CMOSRegister::StatusB => 0x0B,
        }
    }

    /// The number of the register on the chip.
    pub fn index(self) -> (number: u8)
        ensures
            number == self.number(),
    {
        match self {
            CMOSRegister::Seconds => 0x00,
            CMOSRegister::Minutes => 0x02,
            CMOSRegister::Hours => 0x04,
            CMOSRegister::Day => 0x07,
            CMOSRegister::Month => 0x08,
            CMOSRegister::Year => 0x09,
            CMOSRegister::StatusA => 0x0A,
            CMOSRegister::StatusB => 0x0B,
        }
    }
}

/// The byte to write to the control port of the chip to select `register`:
/// the number of the register, with `nmi`, 0 or 1, in the top bit.
pub fn read_register(nmi: u8, register: CMOSRegister) -> (control: u8)
    requires
        nmi <= 1,
    ensures
        control == nmi * 128 + register.number(),
{
    let number = register.index();
    assert((nmi << 7) | number == if nmi == 1 {
        (128 + number) as u8
    } else {
        number
    }) by (bit_vector)
        requires
            nmi <= 1,
            number <= 0x0B,
    ;
    (nmi << 7) | number
}

/// Whether the chip has a register for the century.
pub fn has_century() -> (known: bool)
    ensures
        known == false,
{
    REGISTER_CENTURY != 0
}

/// The byte to write to the control port of the chip to select the century
/// register; `None` where the chip has none.
pub fn read_century(nmi: u8) -> (control: Option<u8>)
    requires
        nmi <= 1,
    ensures
        control.is_none(),
{
    if has_century() {
        Some((nmi << 7) | REGISTER_CENTURY)
    } else {
        None
    }
}

/// Whether the chip is changing its registers, from what status register A
/// holds.
pub fn is_updating(status_a: u8) -> (updating: bool)
    ensures
        updating == (status_a >= 128),
{
    assert(((status_a & 0x80) > 0) == (status_a >= 128)) by (bit_vector);
    (status_a & 0x80) > 0
}

/// The number that the byte `value` stands for as two decimal digits, the
/// upper digit in the upper four bits.
pub open spec fn from_bcd(value: int) -> int {
    value % 16 + (value / 16) * 10
}

/// The hour of the day, from 0 to 23, that the hours register holds, given
/// what status register B holds.  Bit 2 of the status says that the register
/// holds a binary number and not two decimal digits, bit 1 that it counts 24
/// hours.  Where it counts 12 hours, its top bit marks the afternoon.
pub open spec fn hour_of(hours: u8, status_b: u8) -> int {
    let afternoon = hours >= 128;
    let binary = (status_b / 4) % 2 == 1;
    let whole_day = (status_b / 2) % 2 == 1;
    let hour = if binary {
        hours as int
    } else if afternoon {
        from_bcd(hours - 128) + 128
    } else {
        from_bcd(hours as int)
    };
    if !whole_day && hour >= 128 {
        (hour - 128 + 12) % 24
    } else {
        hour
    }
}

/// The year that the chip reports as `year`: the year of the century of
/// `CURRENT_YEAR` with these two digits, or of the next century where that
/// year lies before `CURRENT_YEAR`.
pub open spec fn full_year(year: int) -> int {
    if year + 2000 < 2017 {
        year + 2100
    } else {
        year + 2000
    }
}

/// The number that a register holds as `value`, given what status register
/// B holds: two decimal digits, or a binary number where bit 2 of the status
/// is set.
pub open spec fn number_of(value: u8, status_b: u8) -> int {
    if (status_b / 4) % 2 == 1 {
        value as int
    } else {
        from_bcd(value as int)
    }
}

/// The date and time that the registers `rtc` stand for, given what status
/// register B holds.
pub open spec fn decoded(rtc: RTC, status_b: u8) -> DateTime {
    DateTime {
        year: full_year(number_of(rtc.year, status_b)) as u32,
        month: number_of(rtc.month, status_b) as u8,
        day: number_of(rtc.day, status_b) as u8,
        hours: hour_of(rtc.hours, status_b) as u8,
        minutes: number_of(rtc.minutes, status_b) as u8,
        seconds: number_of(rtc.seconds, status_b) as u8,
    }
}

/// What the registers of the real-time clock hold.
#[derive(Debug, Clone, Copy, PartialEq, Eq, Structural)]
pub struct RTC {
    pub seconds: u8,
    pub minutes: u8,
    pub hours: u8,
    pub day: u8,
    pub month: u8,
    pub year: u8,
    pub century: u8,
}

impl RTC {
    /// The date and time that the registers stand for, given what status
    /// register B holds.
    pub fn to_datetime(&self, status_b: u8) -> (date: DateTime)
        ensures
            date == decoded(*self, status_b),
    {
        let (mut seconds, mut minutes, mut hours) = (self.seconds, self.minutes, self.hours);
        let (mut day, mut month, mut year) = (self.day, self.month, self.year as u32);
        let mut century = self.century;
        let reg_b = status_b;
        proof {
            lemma_status_bits(reg_b);
            lemma_bcd(self.seconds);
            lemma_bcd(self.minutes);
            lemma_bcd(self.hours);
            lemma_bcd(self.day);
            lemma_bcd(self.month);
            lemma_bcd(self.year);
            lemma_bcd(self.century);
        }
        // Convert BCD to binary values if necessary
        if (reg_b & 0x04) == 0 {
            seconds = (seconds & 0x0F) + ((seconds / 16) * 10);
            minutes = (minutes & 0x0F) + ((minutes / 16) * 10);
            hours = ((hours & 0x0F) + (((hours & 0x70) / 16) * 10)) | (hours & 0x80);
            day = (day & 0x0F) + ((day / 16) * 10);
            month = (month & 0x0F) + ((month / 16) * 10);
            year = (self.year & 0x0F) as u32 + ((year / 16) * 10);
            if has_century() {
                century = (century & 0x0F) + ((century / 16) * 10);
            }
        }
        proof {
            lemma_hours(hours);
        }
        // Convert 12 hour clock to 24 hour clock if necessary
        if (reg_b & 0x02) == 0 && (hours & 0x80) > 0 {
            hours = ((hours & 0x7F) + 12) % 24;
        }
        // Calculate the full (4-digit) year
        if has_century() {
            year += century as u32 * 100;
        } else {
            year += CURRENT_YEAR / 100 * 100;
            if year < CURRENT_YEAR {
                year += 100;
            }
        }
        DateTime { year, month, day, hours, minutes, seconds }
    }
}

/// The bits of status register B as numbers.
proof fn lemma_status_bits(status: u8)
    by (bit_vector)
    ensures
        ((status & 0x04) == 0) == ((status / 4) % 2 == 0),
        ((status & 0x02) == 0) == ((status / 2) % 2 == 0),
{
}

/// The digits of a byte, and its top bit, as numbers.
proof fn lemma_bcd(value: u8)
    by (bit_vector)
    ensures
        value & 0x0F == value % 16,
        (value & 0x0F) + ((value / 16) * 10) <= 165,
        (value & 0x0F) + (((value & 0x70) / 16) * 10) <= 85,
        value >= 128 ==> (((value & 0x0F) + (((value & 0x70) / 16) * 10)) as u8) | (value & 0x80)
            == (((value & 0x7F) % 16 + ((value & 0x7F) / 16) * 10 + 128) as u8),
        value >= 128 ==> (value & 0x7F) as int == value - 128,
        value < 128 ==> (((value & 0x0F) + (((value & 0x70) / 16) * 10)) as u8) | (value & 0x80)
            == ((value % 16 + (value / 16) * 10) as u8),
        (value & 0x7F) % 16 + ((value & 0x7F) / 16) * 10 + 128 <= 255,
{
}

/// The top bit of the hours as a number.
proof fn lemma_hours(hours: u8)
    by (bit_vector)
    ensures
        ((hours & 0x80) > 0) == (hours >= 128),
        hours >= 128 ==> hours & 0x7F == hours - 128,
{
}

/// The seconds since the start of 1970, counted from the moment the clock
/// was set up.
pub struct Clock {
    seconds: u64,
}

impl Clock {
    /// The seconds that the clock shows.
    pub closed spec fn shows(&self) -> u64 {
        self.seconds
    }

    /// A clock that shows `seconds`; `None` where `seconds` is zero, which
    /// no real-time clock reports.
    pub fn new(seconds: u64) -> (clock: Option<Clock>)
        ensures
            clock.is_some() <==> seconds > 0,
            clock matches Some(c) ==> c.shows() == seconds,
    {
        if seconds > 0 {
            Some(Clock { seconds })
        } else {
            None
        }
    }

    /// The seconds that the clock shows.
    pub fn current_seconds(&self) -> (seconds: u64)
        ensures
            seconds == self.shows(),
    {
        self.seconds
    }
}

/// The date and time that the clock reports, once two readings of its
/// registers in a row agree: a reading taken while the chip changes its
/// registers is not to be trusted.  `None` where `latest` differs from
/// `previous`; the registers are then to be read once more.
pub fn current_datetime(previous: &RTC, latest: &RTC, status_b: u8) -> (date: Option<DateTime>)
    ensures
        *previous == *latest ==> date == Some(decoded(*latest, status_b)),
        *previous != *latest ==> date.is_none(),
{
    if previous.seconds == latest.seconds && previous.minutes == latest.minutes && previous.hours
        == latest.hours && previous.day == latest.day && previous.month == latest.month
        && previous.year == latest.year && previous.century == latest.century {
        Some(latest.to_datetime(status_b))
    } else {
        None
    }
}

} // verus!
