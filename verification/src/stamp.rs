//! Times in milliseconds since the epoch, and their text.

use vstd::prelude::*;
use crate::entry::FileContent;
use crate::path::text_of;

verus! {

/// The whole seconds of a time in milliseconds, rounded towards zero.
pub open spec fn whole_seconds(millis: i64) -> int {
    if millis >= 0 {
        millis / 1000
    } else {
        -((-millis) / 1000)
    }
}

/// What is left of a time in milliseconds beside its whole seconds, in
/// nanoseconds and as an unsigned number of 32 bits. For a time before the
/// epoch that is no whole second the remainder is negative, and wraps round to
/// a number above any valid nanosecond.
pub open spec fn sub_second_nanos(millis: i64) -> int {
    let rest = millis - 1000 * whole_seconds(millis);
    if rest >= 0 {
        rest * 1_000_000
    } else {
        0x1_0000_0000 + rest * 1_000_000
    }
}

/// A number of seconds in milliseconds, or the largest signed number of 64
/// bits where the milliseconds do not fit.
pub open spec fn millis_of_seconds(seconds: u64) -> int {
    if seconds * 1000 <= i64::MAX {
        seconds * 1000
    } else {
        i64::MAX as int
    }
}

/// The text of the UTC date and time that lies `seconds` seconds and `nanos`
/// nanoseconds after the epoch, or `None` where the two give no time.
pub uninterp spec fn utc_text(seconds: int, nanos: int) -> Option<Seq<char>>;

/// The text of a time in milliseconds since the epoch.
pub open spec fn time_text_of(millis: i64) -> Option<Seq<char>> {
    utc_text(whole_seconds(millis), sub_second_nanos(millis))
}

/// Calls `chrono::DateTime::from_timestamp` and, where that gives a date and
/// time, writes it with its `to_string`. Both depend on the two numbers alone,
/// so the result has a name, `utc_text`; what the text is, and for which
/// numbers there is none, is not stated here.
#[verifier::external_body]
fn utc_date_time(seconds: i64, nanos: u32) -> (text: Option<String>)
    ensures
        text_of(text) == utc_text(seconds as int, nanos as int),
{
    match chrono::DateTime::from_timestamp(seconds, nanos) {
        Some(moment) => Some(moment.to_string()),
        None => None,
    }
}

/// Splits a time in milliseconds into whole seconds and nanoseconds.
pub fn split_millis(millis: i64) -> (parts: (i64, u32))
    ensures
        parts.0 == whole_seconds(millis),
        parts.1 == sub_second_nanos(millis),
{
    if millis >= 0 {
        let rest: i64 = millis % 1000;
        (millis / 1000, (rest * 1_000_000) as u32)
    } else {
        let size: u64 = (-(millis + 1)) as u64 + 1;
        let whole: u64 = size / 1000;
        let rest: u64 = size % 1000;
        let nanos: u32 = if rest == 0 {
            0
        } else {
            (0x1_0000_0000u64 - rest * 1_000_000) as u32
        };
        (0 - (whole as i64), nanos)
    }
}

/// A number of seconds in milliseconds, held at the largest signed number of
/// 64 bits where the milliseconds do not fit.
pub fn millis_from_seconds(seconds: u64) -> (millis: i64)
    ensures
        millis == millis_of_seconds(seconds),
{
    if seconds <= 9_223_372_036_854_775 {
        (seconds * 1000) as i64
    } else {
        i64::MAX
    }
}

/// The text of a time in milliseconds since the epoch: its UTC date and time,
/// or `None` where the time gives none.
pub fn time_text(millis: i64) -> (text: Option<String>)
    ensures
        text_of(text) == time_text_of(millis),
{
    let (seconds, nanos) = split_millis(millis);
    utc_date_time(seconds, nanos)
}

impl FileContent {
    /// When the entry was last changed, as text.
    pub fn modification_text(&self) -> (text: Option<String>)
        ensures
            text_of(text) == time_text_of(self.modification_time),
    {
        time_text(self.modification_time)
    }

    /// When the entry was last read, as text.
    pub fn access_text(&self) -> (text: Option<String>)
        ensures
            text_of(text) == time_text_of(self.access_time),
    {
        time_text(self.access_time)
    }
}

} // verus!
