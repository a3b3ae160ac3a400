//! The video-conference link of an event.

use vstd::prelude::*;
use vstd::string::*;
use vstd::utf8::encode_utf8;
use crate::calendar::{CalendarEvent, CalendarEventView};
use crate::text::{opt_text, part_of};
use crate::url::{host_in, host_of, is_or_under, names_domain};

verus! {

/// The first match of the regular expression `pattern` in `text`: `None`
/// where there is none, or where `pattern` is no regular expression.
pub uninterp spec fn first_match(pattern: Seq<char>, text: Seq<char>) -> Option<Seq<char>>;

/// Compiles `pattern` with `regex::Regex::new` and searches `text` with
/// `regex::Regex::find`; hands back the text of the match, `None` where the
/// pattern does not compile or nothing matches. The contract gives that
/// result its name, and says that a match is one run of the characters of
/// `text`: `regex::Match::as_str` is a slice of the text that was searched.
#[verifier::external_body]
pub(crate) fn regex_find(pattern: &str, text: &str) -> (r: Option<String>)
    ensures
        opt_text(r) == first_match(pattern@, text@),
        r matches Some(found) ==> part_of(found@, text@),
{
    match regex::Regex::new(pattern) {
        Ok(re) => re.find(text).map(|found| found.as_str().to_string()),
        Err(_) => None,
    }
}

/// A Zoom meeting link.
pub open spec fn zoom_pattern() -> Seq<char> {
    "https?://[\\w-]*\\.?zoom\\.us/j/\\S+"@
}

/// A Google Meet link.
pub open spec fn meet_pattern() -> Seq<char> {
    "https?://meet\\.google\\.com/[\\w-]+"@
}

/// A Microsoft Teams meeting link.
pub open spec fn teams_pattern() -> Seq<char> {
    "https?://teams\\.microsoft\\.com/l/meetup-join/\\S+"@
}

/// A Webex link.
pub open spec fn webex_pattern() -> Seq<char> {
    "https?://[\\w-]+\\.webex\\.com/\\S+"@
}

/// The first of two results that is there.
pub open spec fn or_else(first: Option<Seq<char>>, second: Option<Seq<char>>) -> Option<
    Seq<char>,
> {
    if first is Some {
        first
    } else {
        second
    }
}

/// The meeting link in a free text: the first match of the first pattern that
/// matches at all, the patterns taken in the order Zoom, Google Meet, Teams,
/// Webex.
pub open spec fn link_in(text: Seq<char>) -> Option<Seq<char>> {
    or_else(
        first_match(zoom_pattern(), text),
        or_else(
            first_match(meet_pattern(), text),
            or_else(first_match(teams_pattern(), text), first_match(webex_pattern(), text)),
        ),
    )
}

/// The link in an optional free text.
pub open spec fn link_in_field(field: Option<Seq<char>>) -> Option<Seq<char>> {
    match field {
        Some(text) => link_in(text),
        None => None,
    }
}

/// The host is that of a meeting provider, or a name under it: Zoom, Google
/// Meet, Microsoft Teams or Webex.
pub open spec fn is_meeting_host(host: Seq<u8>) -> bool {
    ||| is_or_under(host, encode_utf8("zoom.us"@))
    ||| is_or_under(host, encode_utf8("meet.google.com"@))
    ||| is_or_under(host, encode_utf8("teams.microsoft.com"@))
    ||| is_or_under(host, encode_utf8("webex.com"@))
}

/// The URL has a host, and the host is that of a meeting provider.
pub open spec fn names_meeting_host(url: Seq<char>) -> bool {
    host_of(encode_utf8(url)) matches Some(host) && is_meeting_host(host)
}

/// The link chosen among what the three fields of an event give: the
/// declared URL where it names a meeting host, else the link found in the
/// location, else the link found in the description.
pub open spec fn chosen(
    declared: Option<Seq<char>>,
    in_location: Option<Seq<char>>,
    in_description: Option<Seq<char>>,
) -> Option<Seq<char>> {
    if declared matches Some(url) && names_meeting_host(url) {
        declared
    } else {
        or_else(in_location, in_description)
    }
}

/// The meeting link of an event.
pub open spec fn meeting_url_of(event: CalendarEventView) -> Option<Seq<char>> {
    chosen(event.url, link_in_field(event.location), link_in_field(event.description))
}

/// The link is the event's declared URL, or stands in its location or in its
/// description.
pub open spec fn stands_in(link: Seq<char>, event: CalendarEventView) -> bool {
    ||| event.url == Some(link)
    ||| event.location matches Some(text) && part_of(link, text)
    ||| event.description matches Some(text) && part_of(link, text)
}

/// Whether a host is that of a meeting provider, or a name under it.
pub fn is_meeting_host_name(host: &[u8]) -> (r: bool)
    ensures
        r == is_meeting_host(host@),
{
    names_domain(host, "zoom.us".as_bytes()) || names_domain(host, "meet.google.com".as_bytes())
        || names_domain(host, "teams.microsoft.com".as_bytes()) || names_domain(
        host,
        "webex.com".as_bytes(),
    )
}

/// Whether the host of a URL is that of a meeting provider.
pub fn is_meeting_url(url: &str) -> (r: bool)
    ensures
        r == names_meeting_host(url@),
{
    match host_in(url.as_bytes()) {
        Some(host) => is_meeting_host_name(host),
        None => false,
    }
}

/// The first that is there of what the four patterns found, in the order
/// Zoom, Google Meet, Teams, Webex.
pub fn first_found(
    zoom: Option<String>,
    meet: Option<String>,
    teams: Option<String>,
    webex: Option<String>,
) -> (r: Option<String>)
    ensures
        opt_text(r) == or_else(
            opt_text(zoom),
            or_else(opt_text(meet), or_else(opt_text(teams), opt_text(webex))),
        ),
{
    if zoom.is_some() {
        zoom
    } else if meet.is_some() {
        meet
    } else if teams.is_some() {
        teams
    } else {
        webex
    }
}

/// Searches a free text for a meeting link. A pattern is tried only where
/// those before it found nothing.
pub fn find_meeting_url(text: &str) -> (r: Option<String>)
    ensures
        opt_text(r) == link_in(text@),
        r matches Some(link) ==> part_of(link@, text@),
{
    let zoom = regex_find("https?://[\\w-]*\\.?zoom\\.us/j/\\S+", text);
    if zoom.is_some() {
        return first_found(zoom, None, None, None);
    }
    let meet = regex_find("https?://meet\\.google\\.com/[\\w-]+", text);
    if meet.is_some() {
        return first_found(None, meet, None, None);
    }
    let teams = regex_find("https?://teams\\.microsoft\\.com/l/meetup-join/\\S+", text);
    if teams.is_some() {
        return first_found(None, None, teams, None);
    }
    first_found(None, None, None, regex_find("https?://[\\w-]+\\.webex\\.com/\\S+", text))
}

/// Searches an optional free text for a meeting link.
fn find_in_field(field: &Option<String>) -> (r: Option<String>)
    ensures
        opt_text(r) == link_in_field(opt_text(*field)),
        r matches Some(link) ==> (*field matches Some(text) && part_of(link@, text@)),
{
    match field {
        Some(text) => find_meeting_url(text.as_str()),
        None => None,
    }
}

/// Chooses among what the three fields of an event give: the declared URL
/// where it names a meeting host, else the link found in the location, else
/// the link found in the description.
pub fn choose_meeting_url(
    declared: &Option<String>,
    in_location: Option<String>,
    in_description: Option<String>,
) -> (r: Option<String>)
    ensures
        opt_text(r) == chosen(opt_text(*declared), opt_text(in_location), opt_text(in_description)),
{
    if let Some(url) = declared {
        if is_meeting_url(url.as_str()) {
            return Some(url.clone());
        }
    }
    if in_location.is_some() {
        in_location
    } else {
        in_description
    }
}

/// The meeting link of an event: its declared URL where that names a meeting
/// host, else the first link in its location, else the first in its
/// description.
pub fn extract_meeting_url(event: &CalendarEvent) -> (r: Option<String>)
    ensures
        opt_text(r) == meeting_url_of(event@),
        r matches Some(link) ==> stands_in(link@, event@),
{
    if let Some(url) = &event.url {
        if is_meeting_url(url.as_str()) {
            return choose_meeting_url(&event.url, None, None);
        }
    }
    let in_location = find_in_field(&event.location);
    if in_location.is_some() {
        return choose_meeting_url(&event.url, in_location, None);
    }
    choose_meeting_url(&event.url, None, find_in_field(&event.description))
}

} // verus!
