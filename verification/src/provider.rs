//! What the platform's calendar provider hands over, in plain values, and how
//! the library reads it.

use vstd::prelude::*;
use vstd::string::*;
use crate::calendar::{CalendarEvent, CalendarEventView, EventDateTime, EventDateTimeView};
use crate::text::{copy_text, opt_text};
use crate::clock::{date_time_or_epoch, date_time_string, day_or_epoch, day_string};

verus! {

/// How far the user has let the application into their calendars.
#[derive(Clone, Copy, Debug, PartialEq, Eq, Structural)]
pub enum Authorization {
    NotDetermined,
    Restricted,
    Denied,
    FullAccess,
    WriteOnly,
}

/// The status that the provider keeps for an event.
#[derive(Clone, Copy, Debug, PartialEq, Eq, Structural)]
pub enum ProviderStatus {
    Unset,
    Confirmed,
    Tentative,
    Canceled,
}

/// One occurrence as the provider reports it. Dates are whole seconds since
/// 1970-01-01T00:00:00Z; what the provider leaves out is `None`.
#[derive(Debug)]
pub struct ProviderEvent {
    pub title: Option<String>,
    pub start: Option<i64>,
    pub end: Option<i64>,
    pub is_all_day: bool,
    pub identifier: Option<String>,
    pub location: Option<String>,
    pub notes: Option<String>,
    pub url: Option<String>,
    pub status: ProviderStatus,
    pub calendar_id: Option<String>,
    pub calendar_name: Option<String>,
    pub external_url: Option<String>,
}

/// How a call into the provider ended.
#[derive(Debug)]
pub enum CallOutcome<T> {
    /// The call came back, with its answer or its own failure.
    Returned(Result<T, String>),
    /// The provider raised an exception; the text describes it.
    Raised(String),
    /// The call panicked.
    Panicked,
}

/// The failure reported for an exception of the provider.
pub open spec fn exception_text(description: Seq<char>) -> Seq<char> {
    "ObjC exception: "@ + description
}

/// Turns the outcome of a call into the provider into the answer that the
/// caller waits for: whatever went wrong comes out as an ordinary failure.
pub fn settle<T>(outcome: CallOutcome<T>) -> (r: Result<T, String>)
    ensures
        match outcome {
            CallOutcome::Returned(answer) => r == answer,
            CallOutcome::Raised(description) => r matches Err(reason) && reason@ == exception_text(
                description@,
            ),
            CallOutcome::Panicked => r matches Err(reason) && reason@ == "EventKit panic"@,
        },
{
    match outcome {
        CallOutcome::Returned(answer) => answer,
        CallOutcome::Raised(description) => {
            let mut reason = "ObjC exception: ".to_owned();
            reason.append(description.as_str());
            Err(reason)
        },
        CallOutcome::Panicked => Err("EventKit panic".to_owned()),
    }
}

/// The window that a fetch asks the provider for, from the start of today
/// to the last second of tomorrow, both in seconds since the epoch. A bound
/// that the local calendar does not map to one instant is `None`, and fails
/// the fetch.
pub fn fetch_window(start_of_today: Option<i64>, end_of_tomorrow: Option<i64>) -> (r: Result<
    (i64, i64),
    String,
>)
    ensures
        match (start_of_today, end_of_tomorrow) {
            (Some(start), Some(end)) => r == Ok::<(i64, i64), String>((start, end)),
            (None, _) => r matches Err(reason) && reason@ == "Failed to convert start to UTC"@,
            (Some(_), None) => r matches Err(reason) && reason@ == "Failed to convert end to UTC"@,
        },
{
    match start_of_today {
        Some(start) => match end_of_tomorrow {
            Some(end) => Ok((start, end)),
            None => Err("Failed to convert end to UTC".to_owned()),
        },
        None => Err("Failed to convert start to UTC".to_owned()),
    }
}

/// The text of a status, as events carry it.
pub open spec fn status_text(status: ProviderStatus) -> Option<Seq<char>> {
    match status {
        ProviderStatus::Confirmed => Some("confirmed"@),
        ProviderStatus::Tentative => Some("tentative"@),
        ProviderStatus::Canceled => Some("cancelled"@),
        ProviderStatus::Unset => None,
    }
}

/// One side of an event: a date and time unless the event takes all day, a
/// day if it does.
pub open spec fn side_of(is_all_day: bool, secs: i64) -> EventDateTimeView {
    EventDateTimeView {
        date_time: if is_all_day { None } else { Some(date_time_or_epoch(secs)) },
        date: if is_all_day { Some(day_or_epoch(secs)) } else { None },
    }
}

/// The characters of an optional text, none where it is missing.
pub open spec fn text_or_empty(text: Option<String>) -> Seq<char> {
    match text {
        Some(t) => t@,
        None => Seq::empty(),
    }
}

/// The event that the library makes of a provider's occurrence: none where
/// the occurrence lacks its start or its end.
pub open spec fn converted(raw: ProviderEvent) -> Option<CalendarEventView> {
    if raw.start is None || raw.end is None {
        None
    } else {
        Some(
            CalendarEventView {
                id: text_or_empty(raw.identifier),
                summary: text_or_empty(raw.title),
                start: side_of(raw.is_all_day, raw.start->0),
                end: side_of(raw.is_all_day, raw.end->0),
                description: opt_text(raw.notes),
                location: opt_text(raw.location),
                url: opt_text(raw.url),
                is_all_day: raw.is_all_day,
                status: status_text(raw.status),
                calendar_id: opt_text(raw.calendar_id),
                calendar_name: opt_text(raw.calendar_name),
                external_url: opt_text(raw.external_url),
            },
        )
    }
}

/// The events made of a provider's list, in its order, without the
/// occurrences of which none can be made.
pub open spec fn converted_all(raw: Seq<ProviderEvent>) -> Seq<CalendarEventView>
    decreases raw.len(),
{
    if raw.len() == 0 {
        Seq::empty()
    } else {
        match converted(raw.last()) {
            Some(event) => converted_all(raw.drop_last()).push(event),
            None => converted_all(raw.drop_last()),
        }
    }
}

/// A copy of an optional text, the empty text where it is missing.
fn copy_or_empty(text: &Option<String>) -> (r: String)
    ensures
        r@ == text_or_empty(*text),
{
    match text {
        Some(t) => t.clone(),
        None => String::new(),
    }
}

/// The text of a status.
fn status_word(status: ProviderStatus) -> (r: Option<String>)
    ensures
        opt_text(r) == status_text(status),
{
    match status {
        ProviderStatus::Confirmed => Some("confirmed".to_owned()),
        ProviderStatus::Tentative => Some("tentative".to_owned()),
        ProviderStatus::Canceled => Some("cancelled".to_owned()),
        ProviderStatus::Unset => None,
    }
}

/// Writes one side of an event.
fn side(is_all_day: bool, secs: i64) -> (r: EventDateTime)
    ensures
        r@ == side_of(is_all_day, secs),
{
    if is_all_day {
        EventDateTime { date_time: None, date: Some(day_string(secs)) }
    } else {
        EventDateTime { date_time: Some(date_time_string(secs)), date: None }
    }
}

/// Makes an event of a provider's occurrence.
pub fn calendar_event_from(raw: &ProviderEvent) -> (r: Option<CalendarEvent>)
    ensures
        match r {
            Some(event) => converted(*raw) == Some(event@),
            None => converted(*raw) is None,
        },
{
    let start = match raw.start {
        Some(secs) => secs,
        None => {
            return None;
        },
    };
    let end = match raw.end {
        Some(secs) => secs,
        None => {
            return None;
        },
    };
    Some(
        CalendarEvent {
            id: copy_or_empty(&raw.identifier),
            summary: copy_or_empty(&raw.title),
            start: side(raw.is_all_day, start),
            end: side(raw.is_all_day, end),
            description: copy_text(&raw.notes),
            location: copy_text(&raw.location),
            url: copy_text(&raw.url),
            is_all_day: raw.is_all_day,
            status: status_word(raw.status),
            calendar_id: copy_text(&raw.calendar_id),
            calendar_name: copy_text(&raw.calendar_name),
            external_url: copy_text(&raw.external_url),
        },
    )
}

} // verus!
