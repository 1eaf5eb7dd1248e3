//! Points in time, and the stamps that file names and record keys carry.

use chrono::{Datelike, Timelike};
use vstd::prelude::*;
use vstd::string::*;

use crate::decimal::{decimal_int, decimal_nat, push_decimal, push_signed_decimal};
use crate::text::free_of;

verus! {

/// A point in local time, broken into the parts that names and records use.
pub struct Timestamp {
    pub year: i32,
    pub month: u32,
    pub day: u32,
    pub hour: u32,
    pub minute: u32,
    pub second: u32,
    /// Milliseconds since the start of 1970, UTC.
    pub millis: i64,
    /// The full date, time and zone offset as one readable text.
    pub text: String,
}

impl Timestamp {
    /// Whether the calendar and clock parts lie in their usual ranges.
    pub open spec fn is_calendar_time(&self) -> bool {
        &&& 1 <= self.month <= 12
        &&& 1 <= self.day <= 31
        &&& self.hour <= 23
        &&& self.minute <= 59
        &&& self.second <= 59
    }

    /// Whether the timestamp is one that the clock can give: the calendar
    /// and clock parts lie in their ranges, and the text holds neither a
    /// semicolon nor a line end.
    pub open spec fn is_clock_reading(&self) -> bool {
        &&& self.is_calendar_time()
        &&& free_of(self.text@, ';')
        &&& free_of(self.text@, '\n')
    }

    /// A timestamp made of the given parts.
    pub fn new(
        year: i32,
        month: u32,
        day: u32,
        hour: u32,
        minute: u32,
        second: u32,
        millis: i64,
        text: String,
    ) -> (stamp: Timestamp)
        ensures
            stamp.year == year,
            stamp.month == month,
            stamp.day == day,
            stamp.hour == hour,
            stamp.minute == minute,
            stamp.second == second,
            stamp.millis == millis,
            stamp.text == text,
    {
        Timestamp { year, month, day, hour, minute, second, millis, text }
    }
}

/// The stamp up to and including the seconds:
/// `Y{year}_M{month}_D{day}{joint}H{hour}_M{minute}_S{second}`.
pub open spec fn stamp_head(t: Timestamp, joint: Seq<char>) -> Seq<char> {
    "Y"@ + decimal_int(t.year as int) + "_M"@ + decimal_nat(t.month as nat) + "_D"@ + decimal_nat(
        t.day as nat,
    ) + joint + "H"@ + decimal_nat(t.hour as nat) + "_M"@ + decimal_nat(t.minute as nat) + "_S"@
        + decimal_nat(t.second as nat)
}

/// The whole stamp: the head, then `_ML` and the milliseconds since 1970.
pub open spec fn stamp_text(t: Timestamp, joint: Seq<char>) -> Seq<char> {
    stamp_head(t, joint) + "_ML"@ + decimal_int(t.millis as int)
}

/// Writes the stamp of `t`, with `joint` between the date and the time.
pub fn stamp_string(t: &Timestamp, joint: &str) -> (text: String)
    ensures
        text@ == stamp_text(*t, joint@),
{
    let mut text = String::new();
    text.append("Y");
    push_signed_decimal(&mut text, t.year as i64);
    text.append("_M");
    push_decimal(&mut text, t.month as u64);
    text.append("_D");
    push_decimal(&mut text, t.day as u64);
    text.append(joint);
    text.append("H");
    push_decimal(&mut text, t.hour as u64);
    text.append("_M");
    push_decimal(&mut text, t.minute as u64);
    text.append("_S");
    push_decimal(&mut text, t.second as u64);
    assert(text@ =~= stamp_head(*t, joint@));
    text.append("_ML");
    push_signed_decimal(&mut text, t.millis);
    text
}

/// Reads the local clock.
///
/// Trusted: the body calls `chrono::Local::now` and copies the value's
/// parts, as `Datelike::year`, `month`, `day`, `Timelike::hour`, `minute`,
/// `second`, `DateTime::timestamp_millis` and the value's `Display` text give
/// them. Nothing is claimed of the instant itself. The contract states the
/// ranges that chrono documents for month, day, hour, minute and second,
/// and that the text holds neither a semicolon nor a line end: chrono writes
/// the date, a space, the time, a space and the zone offset, and uses for
/// them only digits, `-`, `+`, `:` and `.`.
/// chrono panics where the system clock stands before the year 1970 or no
/// zone offset can be found.
#[verifier::external_body]
pub(crate) fn local_now() -> (now: Timestamp)
    ensures
        now.is_clock_reading(),
{
    let now = chrono::Local::now();
    Timestamp {
        year: now.year(),
        month: now.month(),
        day: now.day(),
        hour: now.hour(),
        minute: now.minute(),
        second: now.second(),
        millis: now.timestamp_millis(),
        text: now.to_string(),
    }
}

} // verus!
