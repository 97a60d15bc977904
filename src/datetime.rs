use chrono::{Datelike, Timelike};
use vstd::prelude::*;

use crate::priority::Color;

verus! {

/// A point in time given by calendar date and clock time, without a time zone.
#[derive(Clone, Copy, Debug, PartialEq, Eq, Structural, Hash)]
pub struct DateTime {
    pub year: u16,
    pub month: u8,
    pub day: u8,
    pub hour: u8,
    pub minute: u8,
    pub second: u8,
}

pub open spec fn is_leap_year(y: int) -> bool {
    y % 4 == 0 && (y % 100 != 0 || y % 400 == 0)
}

pub open spec fn days_in_month(y: int, m: int) -> int {
    if m == 2 {
        if is_leap_year(y) {
            29
        } else {
            28
        }
    } else if m == 4 || m == 6 || m == 9 || m == 11 {
        30
    } else {
        31
    }
}

/// The fields name a real date and time of day, in years that take four digits.
pub open spec fn fields_valid(y: int, mo: int, d: int, h: int, mi: int, s: int) -> bool {
    &&& 0 <= y <= 9999
    &&& 1 <= mo <= 12
    &&& 1 <= d <= days_in_month(y, mo)
    &&& 0 <= h < 24
    &&& 0 <= mi < 60
    &&& 0 <= s < 60
}

pub open spec fn fields_to_datetime(y: int, mo: int, d: int, h: int, mi: int, s: int) -> Option<
    DateTime,
> {
    if fields_valid(y, mo, d, h, mi, s) {
        Some(
            DateTime {
                year: y as u16,
                month: mo as u8,
                day: d as u8,
                hour: h as u8,
                minute: mi as u8,
                second: s as u8,
            },
        )
    } else {
        None
    }
}

/// Days from 1970-01-01 to the given date of the proleptic Gregorian
/// calendar (negative before it).
pub open spec fn days_from_civil(y: int, m: int, d: int) -> int {
    let yy = if m <= 2 {
        y - 1
    } else {
        y
    };
    let era = yy / 400;
    let yoe = yy - era * 400;
    let mp = if m > 2 {
        m - 3
    } else {
        m + 9
    };
    let doy = (153 * mp + 2) / 5 + d - 1;
    let doe = yoe * 365 + yoe / 4 - yoe / 100 + doy;
    era * 146097 + doe - 719468
}

/// Seconds from 1970-01-01 00:00:00 to the given date and time.
pub open spec fn epoch_seconds_of(y: int, mo: int, d: int, h: int, mi: int, s: int) -> int {
    days_from_civil(y, mo, d) * 86400 + h * 3600 + mi * 60 + s
}

/// Date and time, as six fields, that a line of user input denotes in the
/// `HH:MM DD-MM-YYYY` form, if it does.
pub uninterp spec fn due_input_fields(s: Seq<char>) -> Option<(int, int, int, int, int, int)>;

/// Date and whole-second time, as six fields, that a stored timestamp such
/// as `2024-01-01T10:30:00` (a fraction of a second allowed) denotes, if it
/// does.
pub uninterp spec fn stored_time_fields(s: Seq<char>) -> Option<(int, int, int, int, int, int)>;

impl DateTime {
    pub open spec fn wf(&self) -> bool {
        fields_valid(
            self.year as int,
            self.month as int,
            self.day as int,
            self.hour as int,
            self.minute as int,
            self.second as int,
        )
    }

    pub open spec fn seconds(&self) -> int {
        epoch_seconds_of(
            self.year as int,
            self.month as int,
            self.day as int,
            self.hour as int,
            self.minute as int,
            self.second as int,
        )
    }

    /// Builds a date and time from its fields; `None` when they name no real
    /// moment (or a year beyond four digits).
    pub fn new(year: i64, month: i64, day: i64, hour: i64, minute: i64, second: i64) -> (r: Option<
        DateTime,
    >)
        ensures
            r == fields_to_datetime(
                year as int,
                month as int,
                day as int,
                hour as int,
                minute as int,
                second as int,
            ),
    {
        if year < 0 || year > 9999 || month < 1 || month > 12 || day < 1 || hour < 0 || hour
            >= 24 || minute < 0 || minute >= 60 || second < 0 || second >= 60 {
            return None;
        }
        let dim: i64 = if month == 2 {
            if year % 4 == 0 && (year % 100 != 0 || year % 400 == 0) {
                29
            } else {
                28
            }
        } else if month == 4 || month == 6 || month == 9 || month == 11 {
            30
        } else {
            31
        };
        if day > dim {
            return None;
        }
        Some(
            DateTime {
                year: year as u16,
                month: month as u8,
                day: day as u8,
                hour: hour as u8,
                minute: minute as u8,
                second: second as u8,
            },
        )
    }
}

/// Relies on chrono: `NaiveDate::from_ymd_opt(..).and_hms_opt(..)` builds the
/// moment (both succeed on valid fields) and `and_utc().timestamp()` gives its
/// seconds since the epoch, a function of the fields alone.
#[verifier::external_body]
fn epoch_seconds(dt: &DateTime) -> (r: i64)
    requires
        dt.wf(),
    ensures
        r as int == epoch_seconds_of(
            dt.year as int,
            dt.month as int,
            dt.day as int,
            dt.hour as int,
            dt.minute as int,
            dt.second as int,
        ),
{
    chrono::NaiveDate::from_ymd_opt(dt.year as i32, dt.month as u32, dt.day as u32)
        .unwrap()
        .and_hms_opt(dt.hour as u32, dt.minute as u32, dt.second as u32)
        .unwrap()
        .and_utc()
        .timestamp()
}

/// Relies on chrono's `NaiveDateTime::parse_from_str` with the format
/// `%H:%M %d-%m-%Y`; the parsed moment is handed back as its six fields.
#[verifier::external_body]
fn parse_due_fields(s: &str) -> (r: Option<(i32, u32, u32, u32, u32, u32)>)
    ensures
        match r {
            Some(f) => due_input_fields(s@) == Some(
                (f.0 as int, f.1 as int, f.2 as int, f.3 as int, f.4 as int, f.5 as int),
            ),
            None => due_input_fields(s@) is None,
        },
{
    chrono::NaiveDateTime::parse_from_str(s, "%H:%M %d-%m-%Y")
        .ok()
        .map(|d| (d.year(), d.month(), d.day(), d.hour(), d.minute(), d.second()))
}

/// Relies on chrono's `FromStr` for `NaiveDateTime`, the reading that its
/// serde support uses for a stored timestamp; the moment is handed back as
/// its six fields, without the fraction of a second.
#[verifier::external_body]
fn parse_stored_fields(s: &str) -> (r: Option<(i32, u32, u32, u32, u32, u32)>)
    ensures
        match r {
            Some(f) => stored_time_fields(s@) == Some(
                (f.0 as int, f.1 as int, f.2 as int, f.3 as int, f.4 as int, f.5 as int),
            ),
            None => stored_time_fields(s@) is None,
        },
{
    s.parse::<chrono::NaiveDateTime>()
        .ok()
        .map(|d| (d.year(), d.month(), d.day(), d.hour(), d.minute(), d.second()))
}

pub open spec fn stored_datetime_spec(s: Seq<char>) -> Option<DateTime> {
    match stored_time_fields(s) {
        Some(f) => fields_to_datetime(f.0, f.1, f.2, f.3, f.4, f.5),
        None => None,
    }
}

/// Reads a stored timestamp; a fraction of a second is dropped.
pub fn parse_stored_datetime(s: &str) -> (r: Option<DateTime>)
    ensures
        r == stored_datetime_spec(s@),
        r matches Some(d) ==> d.wf(),
{
    match parse_stored_fields(s) {
        Some(f) => DateTime::new(
            f.0 as i64,
            f.1 as i64,
            f.2 as i64,
            f.3 as i64,
            f.4 as i64,
            f.5 as i64,
        ),
        None => None,
    }
}

/// Where a task with a deadline stands relative to the present.
#[derive(Clone, Copy, Debug, PartialEq, Eq, Structural, Hash)]
pub enum DueStatus {
    /// The deadline is ahead; the whole hours that remain (rounded down).
    Remaining(i64),
    /// The deadline is now or past.
    Overdue,
}

pub open spec fn status_spec(due_secs: int, now_secs: int) -> DueStatus {
    if due_secs > now_secs {
        DueStatus::Remaining(((due_secs - now_secs) / 3600) as i64)
    } else {
        DueStatus::Overdue
    }
}

pub open spec fn status_color_of(s: DueStatus) -> Color {
    match s {
        DueStatus::Remaining(_) => Color::Green,
        DueStatus::Overdue => Color::Red,
    }
}

impl DueStatus {
    /// Green while ahead of the deadline, red once overdue.
    pub fn color(&self) -> (r: Color)
        ensures
            r == status_color_of(*self),
    {
        match self {
            DueStatus::Remaining(_) => Color::Green,
            DueStatus::Overdue => Color::Red,
        }
    }
}

/// The status of a deadline at `due_secs` seen at `now_secs`, both in seconds
/// since the epoch.
pub fn status_at(due_secs: i64, now_secs: i64) -> (r: DueStatus)
    ensures
        r == status_spec(due_secs as int, now_secs as int),
{
    if due_secs > now_secs {
        let diff: i128 = due_secs as i128 - now_secs as i128;
        DueStatus::Remaining((diff / 3600) as i64)
    } else {
        DueStatus::Overdue
    }
}

/// Seen from any moment, a deadline two hours ahead leaves two hours, a
/// deadline at or before that moment is overdue, and in general the hours
/// left are the whole hours of the difference.
pub proof fn lemma_status_law(due_secs: int, now_secs: int)
    ensures
        due_secs == now_secs + 7200 ==> status_spec(due_secs, now_secs) == DueStatus::Remaining(2),
        due_secs <= now_secs ==> status_spec(due_secs, now_secs) == DueStatus::Overdue,
        due_secs > now_secs ==> status_spec(due_secs, now_secs) == DueStatus::Remaining(
            ((due_secs - now_secs) / 3600) as i64,
        ),
{
}

/// On one day, a deadline at a later whole hour than the present moment
/// leaves the difference of the hours.
pub proof fn lemma_same_day_hours(due: DateTime, now: DateTime)
    requires
        due.year == now.year,
        due.month == now.month,
        due.day == now.day,
        due.minute == now.minute,
        due.second == now.second,
        due.hour > now.hour,
    ensures
        status_spec(due.seconds(), now.seconds()) == DueStatus::Remaining(
            (due.hour - now.hour) as i64,
        ),
{
    assert(due.seconds() - now.seconds() == (due.hour - now.hour) * 3600);
}

/// The status of a deadline `due` seen at the moment `now`.
pub fn due_status(due: &DateTime, now: &DateTime) -> (r: DueStatus)
    requires
        due.wf(),
        now.wf(),
    ensures
        r == status_spec(due.seconds(), now.seconds()),
{
    status_at(epoch_seconds(due), epoch_seconds(now))
}

/// What a line of due-time input means.
#[derive(Clone, Copy, Debug, PartialEq, Eq, Structural, Hash)]
pub enum DueInput {
    /// Empty input: no deadline.
    Absent,
    /// A deadline at this moment.
    At(DateTime),
    /// Input that does not follow `HH:MM DD-MM-YYYY`: no deadline, with a warning.
    Invalid,
}

pub open spec fn due_input_spec(s: Seq<char>) -> DueInput {
    if s.len() == 0 {
        DueInput::Absent
    } else {
        match due_input_fields(s) {
            Some(f) => match fields_to_datetime(f.0, f.1, f.2, f.3, f.4, f.5) {
                Some(d) => DueInput::At(d),
                None => DueInput::Invalid,
            },
            None => DueInput::Invalid,
        }
    }
}

/// Reads a due time typed as `HH:MM DD-MM-YYYY`; empty input means none.
pub fn parse_due_input(s: &str) -> (r: DueInput)
    ensures
        r == due_input_spec(s@),
        r matches DueInput::At(d) ==> d.wf(),
{
    if s.unicode_len() == 0 {
        return DueInput::Absent;
    }
    match parse_due_fields(s) {
        Some(f) => match DateTime::new(
            f.0 as i64,
            f.1 as i64,
            f.2 as i64,
            f.3 as i64,
            f.4 as i64,
            f.5 as i64,
        ) {
            Some(d) => DueInput::At(d),
            None => DueInput::Invalid,
        },
        None => DueInput::Invalid,
    }
}

} // verus!
