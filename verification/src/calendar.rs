//! The calendar day of an instant, as text.

use vstd::prelude::*;
use crate::track::Instant;

verus! {

/// What chrono writes for the pattern `%d-%m-%Y` (day, month, year) when
/// given the moment `unix_seconds` and `nanosecond` after the Unix epoch,
/// shown at `offset_seconds` east of UTC; `None` where chrono cannot hold
/// that moment or that offset.
pub uninterp spec fn chrono_day_month_year(
    unix_seconds: i64,
    nanosecond: u32,
    offset_seconds: i32,
) -> Option<Seq<char>>;

/// From the first second of the year -9999 to the last second of the year
/// 9999, as seconds since the Unix epoch.
pub open spec fn calendar_seconds(seconds: int) -> bool {
    -377_705_116_800 <= seconds <= 253_402_300_799
}

/// From the first second of the year 0 to the last second of the year
/// 9999, as seconds since the Unix epoch: the years written with four
/// digits and no sign.
pub open spec fn four_digit_seconds(seconds: int) -> bool {
    -62_167_219_200 <= seconds <= 253_402_300_799
}

/// The nanosecond is below one second and the offset is less than a day
/// either way.
pub open spec fn plain_clock(nanosecond: u32, offset_seconds: i32) -> bool {
    nanosecond < 1_000_000_000 && -86_400 < offset_seconds < 86_400
}

impl Instant {
    /// The moment lies in the years -9999 to 9999 (UTC), the nanosecond is
    /// below one second and the offset is less than a day either way.
    pub open spec fn in_calendar_range(self) -> bool {
        calendar_seconds(self.unix_seconds as int) && plain_clock(
            self.nanosecond,
            self.offset_seconds,
        )
    }

    /// The local time of the instant, that is the moment shifted by the
    /// offset, lies in the years 0 to 9999, the nanosecond is below one
    /// second and the offset is less than a day either way. The moment
    /// itself may lie up to a day outside those years.
    pub open spec fn in_four_digit_years(self) -> bool {
        four_digit_seconds(self.unix_seconds + self.offset_seconds) && plain_clock(
            self.nanosecond,
            self.offset_seconds,
        )
    }

    /// The day of the instant in its own offset, written day-month-year.
    pub open spec fn day_text(self) -> Option<Seq<char>> {
        chrono_day_month_year(self.unix_seconds, self.nanosecond, self.offset_seconds)
    }

    /// The day of the instant in its own offset, written day-month-year
    /// with two digits for the day and the month, such as `15-05-2015`.
    ///
    /// `None` where the calendar cannot hold the instant, which is never so
    /// for an instant in the calendar range. Where the local time lies in
    /// the years 0 to 9999 the text is ten characters long.
    pub fn day_month_year(&self) -> (text: Option<String>)
        ensures
            match text {
                Some(day) => self.day_text() == Some(day@),
                None => self.day_text() is None,
            },
            self.in_calendar_range() ==> text is Some,
            self.in_four_digit_years() ==> (text matches Some(day) && day@.len() == 10),
    {
        format_day_month_year(self.unix_seconds, self.nanosecond, self.offset_seconds)
    }
}

/// Calls chrono: `DateTime::from_timestamp` and `FixedOffset::east_opt` make
/// the date-time and the offset, and `DateTime::format` with `%d-%m-%Y`
/// writes the day. Nothing of this is proved. Claimed of chrono:
/// - the text is a function of the three numbers alone;
/// - the result is `None` exactly where one of the two constructors refuses
///   its argument, and neither does for a moment in the years -9999 to 9999
///   with a nanosecond below one second and an offset of less than a day;
/// - the day and the month are written with two digits each, and a year
///   from 0 to 9999 with four digits and no sign, so that the text then has
///   ten characters.
#[verifier::external_body]
fn format_day_month_year(unix_seconds: i64, nanosecond: u32, offset_seconds: i32) -> (text: Option<
    String,
>)
    ensures
        match text {
            Some(day) => chrono_day_month_year(unix_seconds, nanosecond, offset_seconds) == Some(
                day@,
            ),
            None => chrono_day_month_year(unix_seconds, nanosecond, offset_seconds) is None,
        },
        calendar_seconds(unix_seconds as int) && plain_clock(nanosecond, offset_seconds)
            ==> text is Some,
        four_digit_seconds(unix_seconds + offset_seconds) && plain_clock(nanosecond, offset_seconds)
            ==> match text {
            Some(day) => day@.len() == 10,
            None => false,
        },
{
    let utc = chrono::DateTime::from_timestamp(unix_seconds, nanosecond)?.naive_utc();
    let offset = chrono::FixedOffset::east_opt(offset_seconds)?;
    let local = chrono::DateTime::<chrono::FixedOffset>::from_naive_utc_and_offset(utc, offset);
    Some(format!("{}", local.format("%d-%m-%Y")))
}

} // verus!
