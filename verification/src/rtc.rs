//! The real-time clock: what its registers say, and the calendar date and
//! time that they stand for.

use chrono::{NaiveDate, NaiveDateTime, NaiveTime};
use vstd::prelude::*;

verus! {

/// `chrono::NaiveDate`, a calendar date, carried as an opaque value.
#[verifier::external_type_specification]
#[verifier::external_body]
pub struct ExNaiveDate(NaiveDate);

/// `chrono::NaiveTime`, a time of day, carried as an opaque value.
#[verifier::external_type_specification]
#[verifier::external_body]
pub struct ExNaiveTime(NaiveTime);

/// `chrono::NaiveDateTime`, a date with a time of day, carried as an opaque
/// value.
#[verifier::external_type_specification]
#[verifier::external_body]
pub struct ExNaiveDateTime(NaiveDateTime);

/// Whether non-maskable interrupts stay enabled while a register is
/// selected.
pub const NMI_ENABLE: bool = true;

/// The bit of status register A that is set while the clock updates its
/// registers.
pub const IN_PROGRESS_MASK: u8 = 0x80;

/// Whether `year` is a leap year of the Gregorian calendar.
pub open spec fn is_leap_year(year: int) -> bool {
    year % 4 == 0 && (year % 100 != 0 || year % 400 == 0)
}

/// The number of days of the month `month` in the year `year`.
pub open spec fn days_in_month(year: int, month: int) -> int {
    if month == 2 {
        if is_leap_year(year) {
            29
        } else {
            28
        }
    } else if month == 4 || month == 6 || month == 9 || month == 11 {
        30
    } else {
        31
    }
}

/// Whether the calendar has the day `day` of the month `month` of the year
/// `year`, within the years that a date can hold.
pub open spec fn valid_date(year: int, month: int, day: int) -> bool {
    &&& -262143 <= year <= 262142
    &&& 1 <= month <= 12
    &&& 1 <= day <= days_in_month(year, month)
}

/// Whether a day has the given hour, minute and second.
pub open spec fn valid_time(hour: int, min: int, sec: int) -> bool {
    hour < 24 && min < 60 && sec < 60
}

/// The date made of a year, a month and a day.
pub uninterp spec fn calendar_date(year: i32, month: u32, day: u32) -> NaiveDate;

/// The time of day made of an hour, a minute and a second.
pub uninterp spec fn time_of_day(hour: u32, min: u32, sec: u32) -> NaiveTime;

/// The date and time made of a date and a time of day.
pub uninterp spec fn date_and_time(date: NaiveDate, time: NaiveTime) -> NaiveDateTime;

/// `NaiveDate::from_ymd_opt`: the date, or `None` where the calendar has no
/// such day or the year is out of a date's range.
#[verifier::external_body]
fn date_from_ymd(year: i32, month: u32, day: u32) -> (date: Option<NaiveDate>)
    ensures
        date.is_some() <==> valid_date(year as int, month as int, day as int),
        date.is_some() ==> date.unwrap() == calendar_date(year, month, day),
{
    NaiveDate::from_ymd_opt(year, month, day)
}

/// `NaiveTime::from_hms_opt`: the time of day, or `None` on an hour past 23
/// or a minute or second past 59.
#[verifier::external_body]
fn time_from_hms(hour: u32, min: u32, sec: u32) -> (time: Option<NaiveTime>)
    ensures
        time.is_some() <==> valid_time(hour as int, min as int, sec as int),
        time.is_some() ==> time.unwrap() == time_of_day(hour, min, sec),
{
    NaiveTime::from_hms_opt(hour, min, sec)
}

/// `NaiveDateTime::new`: the date and the time of day, put together.
#[verifier::external_body]
fn date_time_new(date: NaiveDate, time: NaiveTime) -> (date_time: NaiveDateTime)
    ensures
        date_time == date_and_time(date, time),
{
    NaiveDateTime::new(date, time)
}

/// Whether status register A says that the clock is updating its registers.
pub fn in_progress_set(status_reg_a: u8) -> (set: bool)
    ensures
        set == (status_reg_a >= 128),
{
    assert((status_reg_a & 0x80 == 0x80) == (status_reg_a >= 128)) by (bit_vector);
    status_reg_a & IN_PROGRESS_MASK == IN_PROGRESS_MASK
}

/// The bit that goes with a register number to keep non-maskable interrupts
/// off: none, as they stay enabled.
pub fn get_nmi_mask() -> (mask: u8)
    ensures
        mask == 0,
{
    if NMI_ENABLE {
        0
    } else {
        0x80
    }
}

/// A reading of the clock's registers.
#[derive(Debug, Clone, Copy, PartialEq, Eq, Structural)]
pub struct RTCDateTime {
    pub seconds: u8,
    pub minutes: u8,
    pub hours: u8,
    pub weekday: u8,
    pub day: u8,
    pub month: u8,
    pub year: u8,
    pub century: u8,
}

/// Why a reading of the clock is no date and time.
#[derive(Debug, Clone, Copy, PartialEq, Eq, Structural)]
pub enum FromNaiveDateTimeError {
    /// The calendar has no such day.
    InvalidDate { year: i32, month: u32, day: u32 },
    /// The day has no such time.
    InvalidTime { hour: u32, min: u32, sec: u32 },
}

/// The value of a byte that holds two decimal digits, the tens in the upper
/// four bits.
pub open spec fn bcd_value(byte: u8) -> int {
    (byte % 16) + (byte / 16) * 10
}

/// Reads a byte as two decimal digits.
pub fn from_bcd(byte: u8) -> (value: u8)
    ensures
        value == bcd_value(byte),
{
    assert(byte & 0x0F == byte % 16) by (bit_vector);
    (byte & 0x0F) + ((byte / 16) * 10)
}

/// The value of an hours register in decimal digits: the digits are in the
/// lower seven bits, and the top bit, which marks the afternoon, stays.
pub open spec fn bcd_hours_value(byte: u8) -> int {
    let digits = (byte % 16) + ((byte % 128) / 16) * 10;
    if byte >= 128 {
        digits + 128
    } else {
        digits
    }
}

/// Reads an hours register as two decimal digits, keeping its top bit.
pub fn hours_from_bcd(byte: u8) -> (value: u8)
    ensures
        value == bcd_hours_value(byte),
{
    assert(byte & 0x0F == byte % 16) by (bit_vector);
    assert((byte & 0x70) / 16 == (byte % 128) / 16) by (bit_vector);
    assert(byte & 0x80 == if byte >= 128 { 128u8 } else { 0u8 }) by (bit_vector);
    let digits: u8 = (byte & 0x0F) + (((byte & 0x70) / 16) * 10);
    assert(digits < 128);
    assert(digits | 0x80 == digits + 128) by (bit_vector)
        requires
            digits < 128,
    ;
    assert(digits | 0 == digits) by (bit_vector);
    digits | (byte & 0x80)
}

impl RTCDateTime {
    /// What the registers say once their format is known: status register
    /// B's bit 2 tells that they hold plain numbers, and they are kept;
    /// without it they hold decimal digits, and all but the weekday are
    /// converted.
    pub open spec fn decoded(self, register_b: u8) -> RTCDateTime {
        if (register_b / 4) % 2 == 1 {
            self
        } else {
            RTCDateTime {
                seconds: bcd_value(self.seconds) as u8,
                minutes: bcd_value(self.minutes) as u8,
                hours: bcd_hours_value(self.hours) as u8,
                weekday: self.weekday,
                day: bcd_value(self.day) as u8,
                month: bcd_value(self.month) as u8,
                year: bcd_value(self.year) as u8,
                century: bcd_value(self.century) as u8,
            }
        }
    }

    /// Computes [`RTCDateTime::decoded`].
    pub fn decode(self, register_b: u8) -> (reading: RTCDateTime)
        ensures
            reading == self.decoded(register_b),
    {
        assert((register_b & 0x04 == 0) == ((register_b / 4) % 2 != 1)) by (bit_vector);
        if register_b & 0x04 == 0 {
            RTCDateTime {
                seconds: from_bcd(self.seconds),
                minutes: from_bcd(self.minutes),
                hours: hours_from_bcd(self.hours),
                weekday: self.weekday,
                day: from_bcd(self.day),
                month: from_bcd(self.month),
                year: from_bcd(self.year),
                century: from_bcd(self.century),
            }
        } else {
            self
        }
    }

    /// The year of the reading: the century register counts hundreds.
    pub open spec fn full_year(self) -> int {
        self.century * 100 + self.year
    }

    /// The date and time that the reading stands for. A reading whose day
    /// the calendar does not have is an invalid date; one with a valid date
    /// and an hour, minute or second out of range is an invalid time.
    pub fn try_into_date_time(self) -> (r: Result<NaiveDateTime, FromNaiveDateTimeError>)
        ensures
            !valid_date(self.full_year(), self.month as int, self.day as int) ==> r == Err::<
                NaiveDateTime,
                FromNaiveDateTimeError,
            >(
                FromNaiveDateTimeError::InvalidDate {
                    year: self.full_year() as i32,
                    month: self.month as u32,
                    day: self.day as u32,
                },
            ),
            valid_date(self.full_year(), self.month as int, self.day as int) && !valid_time(
                self.hours as int,
                self.minutes as int,
                self.seconds as int,
            ) ==> r == Err::<NaiveDateTime, FromNaiveDateTimeError>(
                FromNaiveDateTimeError::InvalidTime {
                    hour: self.hours as u32,
                    min: self.minutes as u32,
                    sec: self.seconds as u32,
                },
            ),
            valid_date(self.full_year(), self.month as int, self.day as int) && valid_time(
                self.hours as int,
                self.minutes as int,
                self.seconds as int,
            ) ==> r == Ok::<NaiveDateTime, FromNaiveDateTimeError>(
                date_and_time(
                    calendar_date(self.full_year() as i32, self.month as u32, self.day as u32),
                    time_of_day(self.hours as u32, self.minutes as u32, self.seconds as u32),
                ),
            ),
    {
        let year: i32 = self.century as i32 * 100 + self.year as i32;
        let month: u32 = self.month as u32;
        let day: u32 = self.day as u32;
        let date = match date_from_ymd(year, month, day) {
            Some(date) => date,
            None => {
                return Err(FromNaiveDateTimeError::InvalidDate { year, month, day });
            },
        };
        let hour: u32 = self.hours as u32;
        let min: u32 = self.minutes as u32;
        let sec: u32 = self.seconds as u32;
        let time = match time_from_hms(hour, min, sec) {
            Some(time) => time,
            None => {
                return Err(FromNaiveDateTimeError::InvalidTime { hour, min, sec });
            },
        };
        Ok(date_time_new(date, time))
    }
}

/// Status register A with the rate of the periodic interrupt set to `rate`:
/// the upper four bits stay, the lower four are the rate.
pub fn freq_register(prev: u8, rate: u8) -> (value: u8)
    requires
        2 < rate < 16,
    ensures
        value == (prev / 16) * 16 + rate,
{
    assert((prev & 0xF0) | rate == (prev / 16) * 16 + rate) by (bit_vector)
        requires
            rate < 16,
    ;
    (prev & 0xF0) | rate
}

/// Status register B with the periodic interrupt enabled: bit 6 set, the
/// others as they were.
pub fn interrupt_enable_register(prev: u8) -> (value: u8)
    ensures
        value == if (prev / 64) % 2 == 1 {
            prev
        } else {
            (prev + 64) as u8
        },
{
    assert(prev | 0x40 == if (prev / 64) % 2 == 1 { prev } else { (prev + 64) as u8 }) by (bit_vector);
    prev | 0x40
}

/// Status register B with the 24-hour mode and the plain-number format
/// switched on: bits 1 and 2 set, the others as they were.
pub fn data_format_register(prev: u8) -> (value: u8)
    ensures
        value == prev - (prev % 8) + (prev % 2) + 6,
{
    assert(prev | 0x06 == prev - (prev % 8) + (prev % 2) + 6) by (bit_vector);
    prev | 0x06
}

} // verus!
