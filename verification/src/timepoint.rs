//! Timepoints: the text of a time of day, read as seconds since midnight.
//!
//! A token has one of three forms: an hour from 1 to 12 followed by `am` or
//! `pm` (`9am`), the same with a colon and a two-digit minute after the hour
//! (`12:30pm`), or the word `now`. Hour 12 counts as 0, and `pm` adds twelve
//! hours.

use crate::clock::{WallClock, SECONDS_PER_DAY, SECONDS_PER_HOUR, SECONDS_PER_MINUTE};
use crate::decimal::{digit_char, digit_value, is_digit};
use crate::error::{seconds_result_view, TimeError, TimeErrorView};
use vstd::prelude::*;
use vstd::string::*;

verus! {

/// The hours that a suffix adds: 12 after `pm`, 0 after `am`, `None` where
/// the text ends in neither.
pub open spec fn suffix_offset(text: Seq<char>) -> Option<nat> {
    let n = text.len() as int;
    if n >= 2 && text[n - 1] == 'm' && text[n - 2] == 'p' {
        Some(12)
    } else if n >= 2 && text[n - 1] == 'm' && text[n - 2] == 'a' {
        Some(0)
    } else {
        None
    }
}

/// The hour that a numeral names: `1` to `9` or `10` to `12`, with no
/// leading zero and nothing else.
pub open spec fn hour_value(numeral: Seq<char>) -> Option<nat> {
    if numeral.len() == 1 && '1' <= numeral[0] && numeral[0] <= '9' {
        Some(digit_value(numeral[0]))
    } else if numeral.len() == 2 && numeral[0] == '1' && '0' <= numeral[1] && numeral[1] <= '2' {
        Some(10 + digit_value(numeral[1]))
    } else {
        None
    }
}

/// The minute that a numeral names: two digits, `00` to `59`.
pub open spec fn minute_value(numeral: Seq<char>) -> Option<nat> {
    if numeral.len() == 2 && '0' <= numeral[0] && numeral[0] <= '5' && is_digit(numeral[1]) {
        Some(10 * digit_value(numeral[0]) + digit_value(numeral[1]))
    } else {
        None
    }
}

/// Seconds since midnight of an hour on the twelve-hour dial, a minute and
/// the hours that the suffix adds.
pub open spec fn dial_seconds(hour: nat, minute: nat, offset: nat) -> nat {
    (hour % 12 + offset) * 3600 + minute * 60
}

/// The short form: an hour numeral and a suffix.
pub open spec fn short_form_seconds(text: Seq<char>) -> Option<nat> {
    let n = text.len() as int;
    match suffix_offset(text) {
        Some(offset) => match hour_value(text.subrange(0, n - 2)) {
            Some(hour) => Some(dial_seconds(hour, 0, offset)),
            None => None,
        },
        None => None,
    }
}

/// The long form: an hour numeral, a colon, a minute numeral and a suffix.
pub open spec fn long_form_seconds(text: Seq<char>) -> Option<nat> {
    let n = text.len() as int;
    match suffix_offset(text) {
        Some(offset) => if n >= 5 && text[n - 5] == ':' {
            match (hour_value(text.subrange(0, n - 5)), minute_value(text.subrange(n - 4, n - 2))) {
                (Some(hour), Some(minute)) => Some(dial_seconds(hour, minute, offset)),
                _ => None,
            }
        } else {
            None
        },
        None => None,
    }
}

/// Whether the token asks for the current time.
pub open spec fn is_now(text: Seq<char>) -> bool {
    text =~= seq!['n', 'o', 'w']
}

/// What a token of the long or the short form means, the long form being
/// tried first; `None` for any other text.
pub open spec fn written_seconds(text: Seq<char>) -> Option<nat> {
    if long_form_seconds(text) is Some {
        long_form_seconds(text)
    } else {
        short_form_seconds(text)
    }
}

/// What a token means when the clock reads `now` seconds since midnight: a
/// written time means itself, the word `now` means the reading, and nothing
/// else means anything.
pub open spec fn timepoint_seconds(text: Seq<char>, now: nat) -> Option<nat> {
    if written_seconds(text) is Some {
        written_seconds(text)
    } else if is_now(text) {
        Some(now)
    } else {
        None
    }
}

/// How reading a token ends: with its seconds since midnight, or with a
/// parse error that holds the token.
pub open spec fn parse_outcome(text: Seq<char>, now: nat) -> Result<nat, TimeErrorView> {
    match timepoint_seconds(text, now) {
        Some(seconds) => Ok(seconds),
        None => Err(TimeErrorView::Parse(text)),
    }
}

/// The numeral of an hour from 1 to 12 as it stands in a token.
pub open spec fn hour_numeral(hour: nat) -> Seq<char>
    recommends
        1 <= hour <= 12,
{
    if hour < 10 {
        seq![digit_char(hour)]
    } else {
        seq!['1', digit_char((hour - 10) as nat)]
    }
}

/// The two digits of a minute from 0 to 59.
pub open spec fn minute_numeral(minute: nat) -> Seq<char>
    recommends
        minute <= 59,
{
    seq![digit_char(minute / 10), digit_char(minute % 10)]
}

/// The suffix of an afternoon time, or of a morning time.
pub open spec fn suffix_text(pm: bool) -> Seq<char> {
    if pm {
        seq!['p', 'm']
    } else {
        seq!['a', 'm']
    }
}

/// The hours that a suffix adds.
pub open spec fn suffix_hours(pm: bool) -> nat {
    if pm {
        12
    } else {
        0
    }
}

/// The short token of an hour and a suffix, such as `9am`.
pub open spec fn short_token(hour: nat, pm: bool) -> Seq<char> {
    hour_numeral(hour) + suffix_text(pm)
}

/// The long token of an hour, a minute and a suffix, such as `12:30pm`.
pub open spec fn long_token(hour: nat, minute: nat, pm: bool) -> Seq<char> {
    hour_numeral(hour) + seq![':'] + minute_numeral(minute) + suffix_text(pm)
}

/// A short token means its hour on the twelve-hour dial, 12 counting as 0,
/// plus twelve hours after `pm`, whatever the clock reads.
pub proof fn lemma_short_token(hour: nat, pm: bool, now: nat)
    requires
        1 <= hour <= 12,
    ensures
        timepoint_seconds(short_token(hour, pm), now) == Some(
            (hour % 12 + suffix_hours(pm)) * 3600,
        ),
{
    let text = short_token(hour, pm);
    let n = text.len() as int;
    assert(text.subrange(0, n - 2) =~= hour_numeral(hour));
    assert(long_form_seconds(text) is None);
}

/// A long token means what the short token of its hour and suffix means,
/// plus its minutes.
pub proof fn lemma_long_token(hour: nat, minute: nat, pm: bool, now: nat)
    requires
        1 <= hour <= 12,
        minute <= 59,
    ensures
        timepoint_seconds(short_token(hour, pm), now) is Some,
        timepoint_seconds(long_token(hour, minute, pm), now) == Some(
            timepoint_seconds(short_token(hour, pm), now)->0 + minute * 60,
        ),
{
    lemma_short_token(hour, pm, now);
    let text = long_token(hour, minute, pm);
    let n = text.len() as int;
    assert(text.subrange(0, n - 5) =~= hour_numeral(hour));
    assert(text.subrange(n - 4, n - 2) =~= minute_numeral(minute));
    assert(text[n - 5] == ':');
}

/// Text that ends in neither `am` nor `pm` and is not the word `now` means
/// nothing: reading it ends in a parse error that holds the text.
pub proof fn lemma_suffix_required(text: Seq<char>, now: nat)
    requires
        suffix_offset(text) is None,
        !is_now(text),
    ensures
        timepoint_seconds(text, now) is None,
        parse_outcome(text, now) == Err::<nat, TimeErrorView>(TimeErrorView::Parse(text)),
{
}

/// Every timepoint lies within the day, as long as the clock does.
pub proof fn lemma_timepoint_in_day(text: Seq<char>, now: nat)
    requires
        now < SECONDS_PER_DAY,
    ensures
        timepoint_seconds(text, now) matches Some(seconds) ==> seconds < SECONDS_PER_DAY,
{
}

/// Only the word `now` depends on the clock.
pub proof fn lemma_written_ignores_clock(text: Seq<char>, now: nat, other: nat)
    requires
        !is_now(text),
    ensures
        timepoint_seconds(text, now) == timepoint_seconds(text, other),
        parse_outcome(text, now) == parse_outcome(text, other),
{
}

/// The hours that the suffix of a time token adds to its hour: 12 for `pm`,
/// 0 for `am`.
pub fn am_pm_offset(timepoint: &str) -> (result: Result<i32, TimeError>)
    ensures
        match suffix_offset(timepoint@) {
            Some(offset) => result == Ok::<i32, TimeError>(offset as i32),
            None => result == Err::<i32, TimeError>(TimeError::Suffix),
        },
{
    let n = timepoint.unicode_len();
    if n < 2 {
        return Err(TimeError::Suffix);
    }
    let last = timepoint.get_char(n - 1);
    let before = timepoint.get_char(n - 2);
    if last == 'm' && before == 'p' {
        Ok(12)
    } else if last == 'm' && before == 'a' {
        Ok(0)
    } else {
        Err(TimeError::Suffix)
    }
}

/// The hour numeral that fills the first `end` characters of a token.
fn read_hour(timepoint: &str, end: usize) -> (hour: Option<u32>)
    requires
        end <= timepoint@.len(),
    ensures
        match hour_value(timepoint@.subrange(0, end as int)) {
            Some(h) => hour == Some(h as u32) && 1 <= h <= 12,
            None => hour is None,
        },
{
    if end == 1 {
        let c = timepoint.get_char(0);
        if '1' <= c && c <= '9' {
            Some(c as u32 - '0' as u32)
        } else {
            None
        }
    } else if end == 2 {
        let c = timepoint.get_char(0);
        let d = timepoint.get_char(1);
        if c == '1' && '0' <= d && d <= '2' {
            Some(10 + (d as u32 - '0' as u32))
        } else {
            None
        }
    } else {
        None
    }
}

/// The minute numeral in the two characters of a token that start at `start`.
fn read_minute(timepoint: &str, start: usize) -> (minute: Option<u32>)
    requires
        start + 2 <= timepoint@.len() <= usize::MAX,
    ensures
        match minute_value(timepoint@.subrange(start as int, start + 2)) {
            Some(m) => minute == Some(m as u32) && m <= 59,
            None => minute is None,
        },
{
    let c = timepoint.get_char(start);
    let d = timepoint.get_char(start + 1);
    if '0' <= c && c <= '5' && '0' <= d && d <= '9' {
        Some(10 * (c as u32 - '0' as u32) + (d as u32 - '0' as u32))
    } else {
        None
    }
}

/// Seconds since midnight for an hour from 1 to 12, a minute and a suffix
/// offset of 0 or 12.
fn dial(hour: u32, minute: u32, offset: u32) -> (seconds: u32)
    requires
        1 <= hour <= 12,
        minute <= 59,
        offset == 0 || offset == 12,
    ensures
        seconds == dial_seconds(hour as nat, minute as nat, offset as nat),
        seconds < SECONDS_PER_DAY,
{
    (hour % 12 + offset) * SECONDS_PER_HOUR + minute * SECONDS_PER_MINUTE
}

/// The time that a token of the long or the short form names.
fn read_written(timepoint: &str) -> (seconds: Option<u32>)
    ensures
        match written_seconds(timepoint@) {
            Some(s) => seconds == Some(s as u32) && s < SECONDS_PER_DAY,
            None => seconds is None,
        },
{
    let n = timepoint.unicode_len();
    if n < 3 || n > 7 {
        return None;
    }
    let offset: u32 = match am_pm_offset(timepoint) {
        Ok(hours) => hours as u32,
        Err(_) => {
            return None;
        },
    };
    if n >= 6 && timepoint.get_char(n - 5) == ':' {
        let hour = read_hour(timepoint, n - 5);
        let minute = read_minute(timepoint, n - 4);
        if let (Some(h), Some(m)) = (hour, minute) {
            return Some(dial(h, m, offset));
        }
    }
    match read_hour(timepoint, n - 2) {
        Some(h) => Some(dial(h, 0, offset)),
        None => None,
    }
}

/// Whether a token is the word `now`.
pub fn is_now_token(timepoint: &str) -> (yes: bool)
    ensures
        yes == is_now(timepoint@),
{
    timepoint.unicode_len() == 3 && timepoint.get_char(0) == 'n' && timepoint.get_char(1) == 'o'
        && timepoint.get_char(2) == 'w'
}

/// Reads a time token against a given clock reading: the long and short
/// forms give their own time, the word `now` gives the reading, and any
/// other text is refused with the text itself.
pub fn parse_timepoint_at(timepoint: &str, now: &WallClock) -> (result: Result<u32, TimeError>)
    ensures
        seconds_result_view(result) == parse_outcome(timepoint@, now.seconds()),
        result matches Ok(seconds) ==> seconds < SECONDS_PER_DAY,
{
    match read_written(timepoint) {
        Some(seconds) => Ok(seconds),
        None => if is_now_token(timepoint) {
            Ok(now.seconds_since_midnight())
        } else {
            Err(TimeError::Parse(timepoint.to_owned()))
        },
    }
}

/// Reads a time token; the local wall clock is read for the word `now` and
/// for nothing else. The result is what `parse_timepoint_at` gives for some
/// time of day, and for any token but `now` that is the same at every time
/// of day.
pub fn parse_timepoint(timepoint: &str) -> (result: Result<u32, TimeError>)
    ensures
        exists|now: nat|
            now < SECONDS_PER_DAY && seconds_result_view(result) == #[trigger] parse_outcome(
                timepoint@,
                now,
            ),
        !is_now(timepoint@) ==> forall|now: nat|
            seconds_result_view(result) == #[trigger] parse_outcome(timepoint@, now),
        result matches Ok(seconds) ==> seconds < SECONDS_PER_DAY,
{
    if is_now_token(timepoint) {
        let clock = WallClock::read_local();
        let result = parse_timepoint_at(timepoint, &clock);
        proof {
            clock.lemma_seconds_in_day();
            assert(seconds_result_view(result) == parse_outcome(timepoint@, clock.seconds()));
        }
        result
    } else {
        let result = parse_timepoint_at(timepoint, &WallClock::midnight());
        proof {
            assert(seconds_result_view(result) == parse_outcome(timepoint@, 0));
            assert forall|now: nat|
                seconds_result_view(result) == #[trigger] parse_outcome(timepoint@, now) by {
                lemma_written_ignores_clock(timepoint@, 0, now);
            }
        }
        result
    }
}

} // verus!
