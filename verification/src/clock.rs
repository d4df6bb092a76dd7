//! Points in time as text.

use vstd::prelude::*;

use crate::text::{decimal_text, zero_padded_text};

verus! {

/// A point in time by the calendar.
#[derive(Clone, Copy, Debug, PartialEq, Eq, Structural)]
pub struct CalendarTime {
    pub year: u16,
    pub month: u16,
    pub day: u16,
    pub hour: u16,
    pub minute: u16,
    pub second: u16,
}

impl CalendarTime {
    /// The text of a point in time, such as `2024-02-03 04:05:06`.
    pub open spec fn as_text(self) -> Seq<char> {
        crate::text::zero_padded(self.year as nat, 4) + "-"@ + crate::text::zero_padded(
            self.month as nat,
            2,
        ) + "-"@ + crate::text::zero_padded(self.day as nat, 2) + " "@ + crate::text::zero_padded(
            self.hour as nat,
            2,
        ) + ":"@ + crate::text::zero_padded(self.minute as nat, 2) + ":"@
            + crate::text::zero_padded(self.second as nat, 2)
    }

    /// Writes the point in time.
    pub fn text(&self) -> (text: String)
        ensures
            text@ == self.as_text(),
    {
        let year = zero_padded_text(self.year as u64, 4);
        let month = zero_padded_text(self.month as u64, 2);
        let day = zero_padded_text(self.day as u64, 2);
        let hour = zero_padded_text(self.hour as u64, 2);
        let minute = zero_padded_text(self.minute as u64, 2);
        let second = zero_padded_text(self.second as u64, 2);
        year.concat("-").concat(month.as_str()).concat("-").concat(day.as_str()).concat(" ").concat(
            hour.as_str(),
        ).concat(":").concat(minute.as_str()).concat(":").concat(second.as_str())
    }
}

/// The lower and the upper half of a file time, as the calendar conversion of the
/// system takes them.
pub fn filetime_parts(filetime: u64) -> (parts: (u32, u32))
    ensures
        parts.0 as int + 0x1_0000_0000 * parts.1 as int == filetime,
{
    let low: u32 = (filetime & 0xFFFF_FFFF) as u32;
    let high: u32 = (filetime >> 32) as u32;
    assert(filetime & 0xFFFF_FFFF == filetime % 0x1_0000_0000) by (bit_vector);
    assert(filetime >> 32 == filetime / 0x1_0000_0000) by (bit_vector);
    (low, high)
}

/// The text of a file time, given its calendar time, where there is one.
pub open spec fn filetime_text(filetime: u64, converted: Option<CalendarTime>) -> Seq<char> {
    match converted {
        Some(time) => time.as_text(),
        None => "ts:"@ + crate::text::decimal(filetime as nat),
    }
}

/// Writes a file time. `converted` is what the system makes of it; a file time
/// that the system cannot convert is written as a number.
pub fn format_filetime(filetime: u64, converted: Option<CalendarTime>) -> (text: String)
    ensures
        text@ == filetime_text(filetime, converted),
{
    match converted {
        Some(time) => time.text(),
        None => {
            let number = decimal_text(filetime);
            "ts:".to_owned().concat(number.as_str())
        },
    }
}

/// The time of day, `<hours>:<minutes>:<seconds>`, of a second since the epoch.
pub open spec fn time_text(seconds: nat) -> Seq<char> {
    crate::text::zero_padded((seconds / 3600) % 24, 2) + ":"@ + crate::text::zero_padded(
        (seconds / 60) % 60,
        2,
    ) + ":"@ + crate::text::zero_padded(seconds % 60, 2)
}

/// Writes the time of day. `since_epoch` is the number of seconds since the epoch;
/// a clock that stands before the epoch counts as standing at it.
pub fn format_time(since_epoch: Option<u64>) -> (text: String)
    ensures
        text@ == time_text(
            match since_epoch {
                Some(seconds) => seconds as nat,
                None => 0,
            },
        ),
{
    let seconds: u64 = match since_epoch {
        Some(seconds) => seconds,
        None => 0,
    };
    let second = zero_padded_text(seconds % 60, 2);
    let minute = zero_padded_text((seconds / 60) % 60, 2);
    let hour = zero_padded_text((seconds / 3600) % 24, 2);
    hour.concat(":").concat(minute.as_str()).concat(":").concat(second.as_str())
}

/// A number below a hundred has two digits when filled up to two.
proof fn lemma_two_digits(n: nat)
    requires
        n < 100,
    ensures
        crate::text::zero_padded(n, 2).len() == 2,
{
    reveal_with_fuel(crate::text::decimal, 3);
}

/// The time of day always has eight characters, and it is the same again after a
/// day.
pub proof fn law_time_of_day(seconds: nat)
    ensures
        time_text(seconds).len() == 8,
        time_text(seconds + 86400) == time_text(seconds),
{
    lemma_two_digits((seconds / 3600) % 24);
    lemma_two_digits((seconds / 60) % 60);
    lemma_two_digits(seconds % 60);
    reveal_strlit(":");
    assert((seconds + 86400) / 3600 == seconds / 3600 + 24);
    assert((seconds + 86400) / 60 == seconds / 60 + 1440);
}

/// The time of day counts full hours, the full minutes of the hour and the seconds
/// of the minute, each with two digits, whatever the day.
pub proof fn law_time_parts(day: nat, hour: nat, minute: nat, second: nat)
    requires
        hour < 24,
        minute < 60,
        second < 60,
    ensures
        time_text(86400 * day + 3600 * hour + 60 * minute + second) == crate::text::zero_padded(
            hour,
            2,
        ) + ":"@ + crate::text::zero_padded(minute, 2) + ":"@ + crate::text::zero_padded(second, 2),
{
    let seconds = 86400 * day + 3600 * hour + 60 * minute + second;
    assert(seconds / 3600 == 24 * day + hour);
    assert(seconds / 60 == 1440 * day + 60 * hour + minute);
    assert((24 * day + hour) % 24 == hour);
    assert((1440 * day + 60 * hour + minute) % 60 == minute);
    assert(seconds % 60 == second);
}

/// A calendar time is written from the year down to the second: the year with four
/// digits at least, the rest with two.
pub proof fn law_calendar_text(time: CalendarTime)
    ensures
        time.as_text() == crate::text::join(
            seq![
                crate::text::zero_padded(time.year as nat, 4),
                crate::text::zero_padded(time.month as nat, 2),
                crate::text::zero_padded(time.day as nat, 2),
            ],
            "-"@,
        ) + " "@ + crate::text::join(
            seq![
                crate::text::zero_padded(time.hour as nat, 2),
                crate::text::zero_padded(time.minute as nat, 2),
                crate::text::zero_padded(time.second as nat, 2),
            ],
            ":"@,
        ),
{
    let year = crate::text::zero_padded(time.year as nat, 4);
    let month = crate::text::zero_padded(time.month as nat, 2);
    let day = crate::text::zero_padded(time.day as nat, 2);
    let hour = crate::text::zero_padded(time.hour as nat, 2);
    let minute = crate::text::zero_padded(time.minute as nat, 2);
    let second = crate::text::zero_padded(time.second as nat, 2);
    crate::text_laws::law_join(seq![year], month, "-"@);
    crate::text_laws::law_join(seq![year, month], day, "-"@);
    crate::text_laws::law_join(seq![hour], minute, ":"@);
    crate::text_laws::law_join(seq![hour, minute], second, ":"@);
    crate::text_laws::law_join(Seq::empty(), year, "-"@);
    crate::text_laws::law_join(Seq::empty(), hour, ":"@);
    assert(seq![year].push(month) =~= seq![year, month]);
    assert(seq![year, month].push(day) =~= seq![year, month, day]);
    assert(seq![hour].push(minute) =~= seq![hour, minute]);
    assert(seq![hour, minute].push(second) =~= seq![hour, minute, second]);
    assert(time.as_text() =~= (year + "-"@ + month + "-"@ + day) + " "@ + (hour + ":"@ + minute
        + ":"@ + second));
}

/// A file time is shown by the calendar where the system could convert it, and
/// otherwise as its number.
pub proof fn law_filetime_text(filetime: u64, time: CalendarTime)
    ensures
        filetime_text(filetime, Some(time)) == time.as_text(),
        filetime_text(filetime, None) == "ts:"@ + crate::text::decimal(filetime as nat),
{
}

} // verus!
