//! How moments are shown.
use chrono::{DateTime, Datelike, Local, TimeDelta, Utc};
use vstd::prelude::*;

use crate::text;
use crate::text::decimal_text;

verus! {

/// The first second of the last day that the calendar of `chrono` covers.
pub const LAST_CALENDAR_DAY: i64 = 8_210_266_790_400;

/// The last second that the calendar of `chrono` covers.
pub const LAST_CALENDAR_SECOND: i64 = 8_210_266_876_799;

/// What `chrono` shows for a Unix timestamp in UTC, where its calendar covers it.
pub uninterp spec fn utc_text(timestamp: i64) -> Option<Seq<char>>;

/// `chrono::DateTime::<Utc>::from_timestamp` and, where it gives a moment, its
/// `format` with `%Y-%m-%d %H:%M:%S UTC`: a function of the timestamp alone. From 1970
/// to the end of the calendar it is the date in the Gregorian calendar, the hour, the
/// minute and the second, and after that there is none.
#[verifier::external_body]
pub(crate) fn format_utc(timestamp: i64) -> (shown: Option<String>)
    ensures
        match utc_text(timestamp) {
            Some(value) => shown matches Some(result) && result@ == value,
            None => shown is None,
        },
        is_utc_time(timestamp as int, shown),
{
    DateTime::<Utc>::from_timestamp(timestamp, 0).map(
        |moment| moment.format("%Y-%m-%d %H:%M:%S UTC").to_string(),
    )
}

/// The hour, the minute and the second of a timestamp in UTC, and the zone.
pub open spec fn utc_clock_text(second: int) -> Seq<char> {
    clock_text(second) + seq![':'] + two_digits(second % 60) + seq![' ', 'U', 'T', 'C']
}

/// Whether a timestamp from 1970 on is shown as its date and clock in UTC as far as the
/// calendar goes, and as nothing after that.
pub open spec fn is_utc_time(timestamp: int, shown: Option<String>) -> bool {
    &&& timestamp > LAST_CALENDAR_SECOND ==> shown is None
    &&& 0 <= timestamp <= LAST_CALENDAR_SECOND ==> shown is Some && is_date_and_clock(
        shown->0@,
        719_163 + timestamp / 86_400,
        utc_clock_text(timestamp),
    )
}

/// A timestamp as an integer that may be negative, bit for bit.
pub open spec fn signed(timestamp: u64) -> i64 {
    #[verifier::truncate]
    (timestamp as i64)
}

/// What a moment is shown as, where a calendar shows it.
pub open spec fn utc_label(shown: Option<Seq<char>>) -> Seq<char> {
    match shown {
        Some(value) => value,
        None => "unknown time"@,
    }
}

/// Shows a moment that a calendar may not cover.
pub fn label_utc(shown: Option<String>) -> (label: String)
    ensures
        label@ == utc_label(
            match shown {
                Some(value) => Some(value@),
                None => None,
            },
        ),
{
    match shown {
        Some(value) => value,
        None => "unknown time".to_owned(),
    }
}

/// Shows a Unix timestamp in UTC.
pub fn format_timestamp_utc(timestamp: u64) -> (label: String)
    ensures
        label@ == utc_label(utc_text(signed(timestamp))),
        timestamp <= LAST_CALENDAR_SECOND ==> is_date_and_clock(
            label@,
            719_163 + timestamp as int / 86_400,
            utc_clock_text(timestamp as int),
        ),
        LAST_CALENDAR_SECOND < timestamp <= i64::MAX ==> label@ == "unknown time"@,
{
    label_utc(
        format_utc(
            #[verifier::truncate]
            (timestamp as i64),
        ),
    )
}

/// A moment in the time zone of the machine.
#[derive(Clone, Debug, PartialEq, Eq)]
pub struct LocalMoment {
    /// The number of its day, counted from the first of January of the year one.
    pub day: i32,
    /// Its hour and minute.
    pub clock: String,
    /// Its date, hour and minute.
    pub date: String,
}

/// A number below one hundred in two digits.
pub open spec fn two_digits(value: int) -> Seq<char> {
    seq![text::digit_char(value / 10), text::digit_char(value % 10)]
}

/// The hour and the minute of a second, counted from a midnight.
pub open spec fn clock_text(second: int) -> Seq<char> {
    two_digits(second % 86_400 / 3600) + seq![':'] + two_digits(second % 3600 / 60)
}

/// Whether a year has a leap day.
pub open spec fn is_leap_year(year: int) -> bool {
    year % 4 == 0 && (year % 100 != 0 || year % 400 == 0)
}

/// The days of a month.
pub open spec fn month_length(year: int, month: int) -> int {
    if month == 2 {
        if is_leap_year(year) {
            29
        } else {
            28
        }
    } else if month == 4 || month == 6 || month == 9 || month == 11 {
        30
    } else {
        31
    }
}

/// The days of a year before a month of it.
pub open spec fn days_before_month(year: int, month: int) -> int
    decreases month,
{
    if month <= 1 {
        0
    } else {
        days_before_month(year, month - 1) + month_length(year, month - 1)
    }
}

/// The days of the calendar before a year.
pub open spec fn days_before_year(year: int) -> int {
    365 * (year - 1) + (year - 1) / 4 - (year - 1) / 100 + (year - 1) / 400
}

/// Whether a date is the day with a number, counted from the first of January of the
/// year one, which has the number one.
pub open spec fn is_day(year: int, month: int, day: int, number: int) -> bool {
    &&& 1 <= month <= 12
    &&& 1 <= day <= month_length(year, month)
    &&& number == days_before_year(year) + days_before_month(year, month) + day
}

/// A year in four digits, and with a sign where it takes more.
pub open spec fn year_text(year: int) -> Seq<char> {
    if year <= 9999 {
        two_digits(year / 100) + two_digits(year % 100)
    } else {
        seq!['+'] + text::decimal(year as nat)
    }
}

/// A date as a year, a month and a day.
pub open spec fn date_text(year: int, month: int, day: int) -> Seq<char> {
    year_text(year) + seq!['-'] + two_digits(month) + seq!['-'] + two_digits(day)
}

/// Whether a text is the date of the day with a number.
pub open spec fn is_date(date: Seq<char>, number: int) -> bool {
    exists|year: int, month: int, day: int| #[trigger]
        is_day(year, month, day, number) && date == date_text(year, month, day)
}

/// The months of a year before one of them, and that one, lie inside the year.
proof fn lemma_month_fits(year: int, month: int)
    requires
        1 <= month <= 12,
    ensures
        0 <= days_before_month(year, month),
        days_before_month(year, month) + month_length(year, month) <= days_before_year(year + 1)
            - days_before_year(year),
{
    reveal_with_fuel(days_before_month, 13);
}

/// A later month of a year begins where an earlier one has ended.
proof fn lemma_months_follow(year: int, earlier: int, later: int)
    requires
        1 <= earlier < later,
    ensures
        days_before_month(year, earlier) + month_length(year, earlier) <= days_before_month(
            year,
            later,
        ),
    decreases later,
{
    if earlier < later - 1 {
        lemma_months_follow(year, earlier, later - 1);
    }
}

/// A date of an earlier year has a lower number than one of a later year.
proof fn lemma_years_follow(
    earlier: (int, int, int),
    later: (int, int, int),
    first: int,
    second: int,
)
    requires
        earlier.0 < later.0,
        is_day(earlier.0, earlier.1, earlier.2, first),
        is_day(later.0, later.1, later.2, second),
    ensures
        first < second,
{
    lemma_month_fits(earlier.0, earlier.1);
    lemma_month_fits(later.0, later.1);
    assert(days_before_year(earlier.0 + 1) <= days_before_year(later.0));
}

/// A day has one date, however it is found.
pub proof fn law_date_is_unique(date: Seq<char>, other: Seq<char>, number: int)
    requires
        is_date(date, number),
        is_date(other, number),
    ensures
        date == other,
{
    let (year, month, day) = choose|year: int, month: int, day: int| #[trigger]
        is_day(year, month, day, number) && date == date_text(year, month, day);
    let (that_year, that_month, that_day) = choose|year: int, month: int, day: int| #[trigger]
        is_day(year, month, day, number) && other == date_text(year, month, day);
    let this = (year, month, day);
    let that = (that_year, that_month, that_day);
    if year < that_year {
        lemma_years_follow(this, that, number, number);
    } else if that_year < year {
        lemma_years_follow(that, this, number, number);
    } else if month < that_month {
        lemma_months_follow(year, month, that_month);
    } else if that_month < month {
        lemma_months_follow(year, that_month, month);
    }
}

/// Whether a text is a date, and a time of the day behind it.
pub open spec fn is_date_and_clock(shown: Seq<char>, number: int, clock: Seq<char>) -> bool {
    exists|date: Seq<char>| #[trigger]
        is_date(date, number) && shown == date + seq![' '] + clock
}

/// Whether a moment is a timestamp in a time zone that is `offset` seconds ahead of
/// UTC.
pub open spec fn is_moment_at(moment: LocalMoment, timestamp: int, offset: int) -> bool {
    let second = timestamp + offset;
    &&& -86_400 < offset < 86_400
    &&& moment.day == 719_163 + second / 86_400
    &&& moment.clock@ == clock_text(second)
    &&& is_date_and_clock(moment.date@, moment.day as int, moment.clock@)
}

/// Whether a moment is a timestamp in some time zone.
pub open spec fn is_moment(moment: LocalMoment, timestamp: int) -> bool {
    exists|offset: int| #[trigger] is_moment_at(moment, timestamp, offset)
}

/// `chrono::DateTime::<Utc>::from_timestamp` and, where it gives a moment, what
/// `with_timezone(&Local)` makes of it: its `num_days_from_ce` and its `format` with
/// `%H:%M` and with `%Y-%m-%d %H:%M`. There is a moment as far as the calendar goes.
/// Its day and its clock are those of the timestamp in a zone less than a day from
/// UTC. Its date is the year, the month and the day of that day in the Gregorian
/// calendar, with a space and the clock behind them. Which zone it is rests on the
/// machine.
#[verifier::external_body]
fn local_moment(timestamp: i64) -> (moment: Option<LocalMoment>)
    requires
        0 <= timestamp,
        timestamp < LAST_CALENDAR_DAY || LAST_CALENDAR_SECOND < timestamp,
    ensures
        moment is Some <==> timestamp <= LAST_CALENDAR_SECOND,
        moment matches Some(shown) ==> is_moment(shown, timestamp as int),
{
    let moment = DateTime::<Utc>::from_timestamp(timestamp, 0)?.with_timezone(&Local);
    Some(
        LocalMoment {
            day: moment.date_naive().num_days_from_ce(),
            clock: moment.format("%H:%M").to_string(),
            date: moment.format("%Y-%m-%d %H:%M").to_string(),
        },
    )
}

/// The days of `chrono::Local::now` and of the moment one day before it. Nothing is
/// claimed of the result, which rests on the clock and the time zone of the machine.
#[verifier::external_body]
fn local_days() -> (days: (i32, i32)) {
    let now = Local::now();
    (
        now.date_naive().num_days_from_ce(),
        (now - TimeDelta::days(1)).date_naive().num_days_from_ce(),
    )
}

/// How a message's time is shown: by the clock alone on this day and the last, with
/// the date otherwise, and as a number where the calendar does not cover it.
pub open spec fn local_label(
    timestamp: u64,
    moment: Option<LocalMoment>,
    today: i32,
    yesterday: i32,
) -> Seq<char> {
    match moment {
        None => text::decimal(timestamp as nat),
        Some(shown) => if shown.day == today {
            "Today, "@ + shown.clock@
        } else if shown.day == yesterday {
            "Yesterday, "@ + shown.clock@
        } else {
            shown.date@
        },
    }
}

/// Shows the time of a message.
pub fn label_local(timestamp: u64, moment: Option<LocalMoment>, today: i32, yesterday: i32) -> (label:
    String)
    ensures
        label@ == local_label(timestamp, moment, today, yesterday),
{
    match moment {
        None => decimal_text(timestamp),
        Some(shown) => {
            if shown.day == today {
                let mut label = "Today, ".to_owned();
                label.append(shown.clock.as_str());
                label
            } else if shown.day == yesterday {
                let mut label = "Yesterday, ".to_owned();
                label.append(shown.clock.as_str());
                label
            } else {
                shown.date
            }
        },
    }
}

/// Whether a label shows a timestamp that the calendar covers, in some time zone and
/// on some day.
pub open spec fn is_shown_time(timestamp: u64, label: Seq<char>) -> bool {
    exists|moment: LocalMoment, today: i32, yesterday: i32|
        is_moment(moment, timestamp as int) && label == #[trigger] local_label(
            timestamp,
            Some(moment),
            today,
            yesterday,
        )
}

/// Whether a label shows a second of the calendar: as a clock of this day, as a clock
/// of the last, or as the date of its day with the clock behind it.
pub open spec fn shows_second(label: Seq<char>, second: int) -> bool {
    ||| label == "Today, "@ + clock_text(second)
    ||| label == "Yesterday, "@ + clock_text(second)
    ||| is_date_and_clock(label, 719_163 + second / 86_400, clock_text(second))
}

/// A time that the calendar covers is shown in one of three ways: as a clock of this
/// day, as a clock of the last, or as its own date and clock. It is never blank.
pub proof fn law_shown_time_has_a_shape(timestamp: u64, label: Seq<char>)
    requires
        is_shown_time(timestamp, label),
    ensures
        exists|offset: int|
            -86_400 < offset < 86_400 && #[trigger] shows_second(label, timestamp + offset),
        label.len() >= 5,
{
    let (moment, today, yesterday) = choose|moment: LocalMoment, today: i32, yesterday: i32|
        is_moment(moment, timestamp as int) && label == #[trigger] local_label(
            timestamp,
            Some(moment),
            today,
            yesterday,
        );
    let offset = choose|offset: int| #[trigger] is_moment_at(moment, timestamp as int, offset);
    assert(clock_text(timestamp + offset).len() == 5);
    assert(shows_second(label, timestamp + offset));
}

/// Shows the time of a message in the time zone of the machine, and as a number where
/// the calendar does not cover it. On the last day of the calendar there is no local
/// time to show. Which zone and which day it is rests on the machine.
pub fn format_timestamp(timestamp: u64) -> (label: String)
    requires
        timestamp < LAST_CALENDAR_DAY || LAST_CALENDAR_SECOND < timestamp,
    ensures
        timestamp > LAST_CALENDAR_SECOND ==> label@ == text::decimal(timestamp as nat),
        timestamp < LAST_CALENDAR_DAY ==> is_shown_time(timestamp, label@),
{
    let mut moment: Option<LocalMoment> = None;
    let mut days: (i32, i32) = (0, 0);
    if timestamp <= 0x7fff_ffff_ffff_ffff {
        moment = local_moment(timestamp as i64);
        days = local_days();
    }
    let ghost shown = moment;
    let label = label_local(timestamp, moment, days.0, days.1);
    assert(label@ == local_label(timestamp, shown, days.0, days.1));
    label
}

/// A time of today or yesterday is shown as the day's name and the clock, another one
/// as the whole date, and one that no calendar holds as its number.
pub proof fn law_days_are_named(timestamp: u64, moment: LocalMoment, today: i32, yesterday: i32)
    ensures
        local_label(timestamp, None, today, yesterday) == text::decimal(timestamp as nat),
        ({
            let label = local_label(timestamp, Some(moment), today, yesterday);
            &&& moment.day == today ==> label.len() == 7 + moment.clock@.len() && label.take(7)
                == seq!['T', 'o', 'd', 'a', 'y', ',', ' '] && label.skip(7) == moment.clock@
            &&& moment.day != today && moment.day == yesterday ==> label.len() == 11
                + moment.clock@.len() && label.take(11) == seq![
                'Y',
                'e',
                's',
                't',
                'e',
                'r',
                'd',
                'a',
                'y',
                ',',
                ' ',
            ] && label.skip(11) == moment.clock@
            &&& moment.day != today && moment.day != yesterday ==> label == moment.date@
        }),
{
    reveal_strlit("Today, ");
    reveal_strlit("Yesterday, ");
    let label = local_label(timestamp, Some(moment), today, yesterday);
    if moment.day == today {
        assert(label.take(7) =~= seq!['T', 'o', 'd', 'a', 'y', ',', ' ']);
        assert(label.skip(7) =~= moment.clock@);
    } else if moment.day == yesterday {
        assert(label.take(11) =~= seq![
            'Y',
            'e',
            's',
            't',
            'e',
            'r',
            'd',
            'a',
            'y',
            ',',
            ' ',
        ]);
        assert(label.skip(11) =~= moment.clock@);
    }
}

} // verus!
