//! Calendar events, the snapshot that a sync leaves behind, and the calendars
//! a user can pick from.

use vstd::prelude::*;
use vstd::string::*;
use vstd::utf8::encode_utf8;
use vstd::seq_lib::*;
use crate::clock::UtcInstant;
use crate::order::{
    arranged, in_rank_order, lemma_arranged_in_rank_order, lemma_arranged_maps,
    lemma_arranged_of_ordered, lemma_arranged_permutes, stable_sort, Rank, Ranked,
};
use crate::provider::{calendar_event_from, converted_all, Authorization, ProviderEvent};
use crate::text::{
    copy_text, lemma_lex_antisymmetric, lemma_lex_total, lemma_lex_transitive, lemma_same_bytes,
    lex_le, opt_text, same_text, text_le,
};

verus! {

/// When one side of an event is: a date and time as RFC 3339 text, or, for an
/// all-day event, a calendar day as `YYYY-MM-DD`.
#[derive(Debug)]
pub struct EventDateTime {
    pub date_time: Option<String>,
    pub date: Option<String>,
}

/// One occurrence of an event, as of the sync that reported it.
#[derive(Debug)]
pub struct CalendarEvent {
    pub id: String,
    pub summary: String,
    pub start: EventDateTime,
    pub end: EventDateTime,
    pub description: Option<String>,
    pub location: Option<String>,
    pub url: Option<String>,
    pub is_all_day: bool,
    pub status: Option<String>,
    pub calendar_id: Option<String>,
    pub calendar_name: Option<String>,
    pub external_url: Option<String>,
}

/// A calendar of the user's accounts.
#[derive(Debug)]
pub struct CalendarInfo {
    pub id: String,
    pub title: String,
    pub source_name: String,
}

/// What an `EventDateTime` holds, as characters.
pub struct EventDateTimeView {
    pub date_time: Option<Seq<char>>,
    pub date: Option<Seq<char>>,
}

/// What a `CalendarEvent` holds, as characters.
pub struct CalendarEventView {
    pub id: Seq<char>,
    pub summary: Seq<char>,
    pub start: EventDateTimeView,
    pub end: EventDateTimeView,
    pub description: Option<Seq<char>>,
    pub location: Option<Seq<char>>,
    pub url: Option<Seq<char>>,
    pub is_all_day: bool,
    pub status: Option<Seq<char>>,
    pub calendar_id: Option<Seq<char>>,
    pub calendar_name: Option<Seq<char>>,
    pub external_url: Option<Seq<char>>,
}

impl View for EventDateTime {
    type V = EventDateTimeView;

    open spec fn view(&self) -> EventDateTimeView {
        EventDateTimeView { date_time: opt_text(self.date_time), date: opt_text(self.date) }
    }
}

impl View for CalendarEvent {
    type V = CalendarEventView;

    open spec fn view(&self) -> CalendarEventView {
        CalendarEventView {
            id: self.id@,
            summary: self.summary@,
            start: self.start@,
            end: self.end@,
            description: opt_text(self.description),
            location: opt_text(self.location),
            url: opt_text(self.url),
            is_all_day: self.is_all_day,
            status: opt_text(self.status),
            calendar_id: opt_text(self.calendar_id),
            calendar_name: opt_text(self.calendar_name),
            external_url: opt_text(self.external_url),
        }
    }
}

impl Clone for EventDateTime {
    fn clone(&self) -> (r: Self)
        ensures
            r == *self,
    {
        EventDateTime { date_time: copy_text(&self.date_time), date: copy_text(&self.date) }
    }
}

impl Clone for CalendarEvent {
    fn clone(&self) -> (r: Self)
        ensures
            r == *self,
    {
        CalendarEvent {
            id: self.id.clone(),
            summary: self.summary.clone(),
            start: self.start.clone(),
            end: self.end.clone(),
            description: copy_text(&self.description),
            location: copy_text(&self.location),
            url: copy_text(&self.url),
            is_all_day: self.is_all_day,
            status: copy_text(&self.status),
            calendar_id: copy_text(&self.calendar_id),
            calendar_name: copy_text(&self.calendar_name),
            external_url: copy_text(&self.external_url),
        }
    }
}

impl Clone for CalendarInfo {
    fn clone(&self) -> (r: Self)
        ensures
            r == *self,
    {
        CalendarInfo {
            id: self.id.clone(),
            title: self.title.clone(),
            source_name: self.source_name.clone(),
        }
    }
}

/// The text by which an event is placed in the snapshot: its start's date and
/// time, else its start's day, else nothing.
pub open spec fn start_text(start: EventDateTimeView) -> Seq<char> {
    match start.date_time {
        Some(t) => t,
        None => match start.date {
            Some(d) => d,
            None => Seq::empty(),
        },
    }
}

/// The bytes of `start_text`, which decide the order of the snapshot.
pub open spec fn start_key(event: CalendarEventView) -> Seq<u8> {
    encode_utf8(start_text(event.start))
}

/// The event's status is `cancelled`.
pub open spec fn is_cancelled(event: CalendarEventView) -> bool {
    event.status == Some("cancelled"@)
}

impl CalendarEvent {
    /// The text by which the event is placed in the snapshot.
    pub fn start_str(&self) -> (r: &str)
        ensures
            r@ == start_text(self@.start),
    {
        match &self.start.date_time {
            Some(t) => t.as_str(),
            None => match &self.start.date {
                Some(d) => d.as_str(),
                None => {
                    proof {
                        reveal_strlit("");
                    }
                    assert(""@ =~= Seq::<char>::empty());
                    ""
                },
            },
        }
    }

    /// Whether the event's status is `cancelled`.
    pub fn cancelled(&self) -> (r: bool)
        ensures
            r == is_cancelled(self@),
    {
        match &self.status {
            Some(s) => same_text(s.as_str(), "cancelled"),
            None => false,
        }
    }
}

/// Events stand by the bytes of their start text.
impl Rank for CalendarEventView {
    open spec fn precedes(&self, other: &Self) -> bool {
        lex_le(start_key(*self), start_key(*other))
    }

    proof fn lemma_total(a: &Self, b: &Self) {
        lemma_lex_total(start_key(*a), start_key(*b));
    }

    proof fn lemma_transitive(a: &Self, b: &Self, c: &Self) {
        lemma_lex_transitive(start_key(*a), start_key(*b), start_key(*c));
    }
}

/// Events stand as what they hold stands.
impl Rank for CalendarEvent {
    open spec fn precedes(&self, other: &Self) -> bool {
        self@.precedes(&other@)
    }

    proof fn lemma_total(a: &Self, b: &Self) {
        CalendarEventView::lemma_total(&a@, &b@);
    }

    proof fn lemma_transitive(a: &Self, b: &Self, c: &Self) {
        CalendarEventView::lemma_transitive(&a@, &b@, &c@);
    }
}

impl Ranked for CalendarEvent {
    fn ranks_before(&self, other: &Self) -> (r: bool) {
        text_le(self.start_str(), other.start_str())
    }
}

/// Calendars stand by source name, those of one source by title.
impl Rank for CalendarInfo {
    open spec fn precedes(&self, other: &Self) -> bool {
        if self.source_name@ == other.source_name@ {
            lex_le(encode_utf8(self.title@), encode_utf8(other.title@))
        } else {
            lex_le(encode_utf8(self.source_name@), encode_utf8(other.source_name@))
        }
    }

    proof fn lemma_total(a: &Self, b: &Self) {
        lemma_lex_total(encode_utf8(a.source_name@), encode_utf8(b.source_name@));
        lemma_lex_total(encode_utf8(a.title@), encode_utf8(b.title@));
    }

    proof fn lemma_transitive(a: &Self, b: &Self, c: &Self) {
        let sa = encode_utf8(a.source_name@);
        let sb = encode_utf8(b.source_name@);
        let sc = encode_utf8(c.source_name@);
        if a.source_name@ == b.source_name@ && b.source_name@ == c.source_name@ {
            lemma_lex_transitive(
                encode_utf8(a.title@),
                encode_utf8(b.title@),
                encode_utf8(c.title@),
            );
        } else if a.source_name@ != b.source_name@ && b.source_name@ != c.source_name@ {
            lemma_lex_transitive(sa, sb, sc);
            if a.source_name@ == c.source_name@ {
                // Then `b`'s source would lie between two equal names, and be that name.
                lemma_lex_antisymmetric(sa, sb);
                lemma_same_bytes(a.source_name@, b.source_name@);
            }
        }
    }
}

impl Ranked for CalendarInfo {
    fn ranks_before(&self, other: &Self) -> (r: bool) {
        if same_text(self.source_name.as_str(), other.source_name.as_str()) {
            text_le(self.title.as_str(), other.title.as_str())
        } else {
            text_le(self.source_name.as_str(), other.source_name.as_str())
        }
    }
}

/// Looks at what an event holds.
pub open spec fn view_of() -> spec_fn(CalendarEvent) -> CalendarEventView {
    |event: CalendarEvent| event@
}

/// What each event of a list holds.
pub open spec fn views(events: Seq<CalendarEvent>) -> Seq<CalendarEventView> {
    events.map_values(view_of())
}

/// Of a list of what events hold, those that are not cancelled, in the
/// list's order.
pub open spec fn live(events: Seq<CalendarEventView>) -> Seq<CalendarEventView>
    decreases events.len(),
{
    if events.len() == 0 {
        events
    } else if is_cancelled(events.last()) {
        live(events.drop_last())
    } else {
        live(events.drop_last()).push(events.last())
    }
}

/// What the events of the snapshot hold that a list of events leaves, told
/// from what the events of the list hold.
pub open spec fn snapshot_views(events: Seq<CalendarEventView>) -> Seq<CalendarEventView> {
    arranged(live(events))
}

/// The events of a list that are not cancelled, in the list's order.
pub open spec fn without_cancelled(events: Seq<CalendarEvent>) -> Seq<CalendarEvent>
    decreases events.len(),
{
    if events.len() == 0 {
        events
    } else if is_cancelled(events.last()@) {
        without_cancelled(events.drop_last())
    } else {
        without_cancelled(events.drop_last()).push(events.last())
    }
}

/// The snapshot that a list of events leaves: those that are not cancelled,
/// by start; events with the same start text keep the order of the list.
pub open spec fn snapshot_of(events: Seq<CalendarEvent>) -> Seq<CalendarEvent> {
    arranged(without_cancelled(events))
}

/// No event is cancelled, and the events stand by start.
pub open spec fn is_snapshot(events: Seq<CalendarEvent>) -> bool {
    &&& in_rank_order(events)
    &&& forall|i: int| 0 <= i < events.len() ==> !is_cancelled(#[trigger] events[i]@)
}

/// `without_cancelled` keeps exactly the events that are not cancelled.
pub proof fn lemma_without_cancelled(events: Seq<CalendarEvent>)
    ensures
        forall|event: CalendarEvent| #[trigger]
            without_cancelled(events).contains(event) <==> events.contains(event) && !is_cancelled(
                event@,
            ),
    decreases events.len(),
{
    let kept = without_cancelled(events);
    if events.len() > 0 {
        let front = events.drop_last();
        let last = events.last();
        lemma_without_cancelled(front);
        assert forall|event: CalendarEvent| #[trigger]
            kept.contains(event) <==> events.contains(event) && !is_cancelled(event@) by {
            if kept.contains(event) {
                let i = choose|i: int| 0 <= i < kept.len() && kept[i] == event;
                if is_cancelled(last@) || i < kept.len() - 1 {
                    assert(without_cancelled(front).contains(event));
                    let j = choose|j: int| 0 <= j < front.len() && front[j] == event;
                    assert(events[j] == event);
                } else {
                    assert(events[events.len() - 1] == event);
                }
            }
            if events.contains(event) && !is_cancelled(event@) {
                let j = choose|j: int| 0 <= j < events.len() && events[j] == event;
                if j < front.len() {
                    assert(front[j] == event);
                    assert(without_cancelled(front).contains(event));
                    let i = choose|i: int|
                        0 <= i < without_cancelled(front).len() && without_cancelled(front)[i]
                            == event;
                    assert(kept[i] == event);
                } else {
                    assert(kept[kept.len() - 1] == event);
                }
            }
        }
    }
}

/// A snapshot holds the events of its list that are not cancelled, and no
/// others; it stands by start.
pub proof fn lemma_snapshot_of(events: Seq<CalendarEvent>)
    ensures
        is_snapshot(snapshot_of(events)),
        forall|event: CalendarEvent| #[trigger]
            snapshot_of(events).contains(event) <==> events.contains(event) && !is_cancelled(
                event@,
            ),
        snapshot_of(events).to_multiset() == without_cancelled(events).to_multiset(),
{
    broadcast use group_to_multiset_ensures;

    let kept = without_cancelled(events);
    let snapshot = snapshot_of(events);
    lemma_without_cancelled(events);
    lemma_arranged_in_rank_order(kept);
    lemma_arranged_permutes(kept);
    assert forall|event: CalendarEvent| #[trigger]
        snapshot.contains(event) <==> events.contains(event) && !is_cancelled(event@) by {
        assert(snapshot.contains(event) <==> snapshot.to_multiset().count(event) > 0);
        assert(kept.contains(event) <==> kept.to_multiset().count(event) > 0);
    }
    assert forall|i: int| 0 <= i < snapshot.len() implies !is_cancelled(
        #[trigger] snapshot[i]@,
    ) by {
        assert(snapshot.contains(snapshot[i]));
    }
}

/// What the events of a snapshot hold depends only on what the events of
/// its list hold.
pub proof fn lemma_snapshot_views(events: Seq<CalendarEvent>)
    ensures
        views(snapshot_of(events)) == snapshot_views(views(events)),
{
    lemma_live_views(events);
    lemma_arranged_maps(without_cancelled(events), view_of());
}

proof fn lemma_live_views(events: Seq<CalendarEvent>)
    ensures
        views(without_cancelled(events)) == live(views(events)),
    decreases events.len(),
{
    if events.len() == 0 {
        assert(views(events) =~= Seq::<CalendarEventView>::empty());
    } else {
        let front = events.drop_last();
        lemma_live_views(front);
        assert(views(events).drop_last() =~= views(front));
        assert(views(events).last() == events.last()@);
        if !is_cancelled(events.last()@) {
            assert(views(without_cancelled(front).push(events.last())) =~= views(
                without_cancelled(front),
            ).push(events.last()@));
        }
    }
}

/// A list that is a snapshot already is the snapshot that it leaves.
pub proof fn lemma_snapshot_of_snapshot(events: Seq<CalendarEvent>)
    requires
        is_snapshot(events),
    ensures
        snapshot_of(events) == events,
{
    lemma_keeps_all(events);
    lemma_arranged_of_ordered(events);
}

proof fn lemma_keeps_all(events: Seq<CalendarEvent>)
    requires
        forall|i: int| 0 <= i < events.len() ==> !is_cancelled(#[trigger] events[i]@),
    ensures
        without_cancelled(events) == events,
    decreases events.len(),
{
    if events.len() > 0 {
        let front = events.drop_last();
        assert forall|i: int| 0 <= i < front.len() implies !is_cancelled(#[trigger] front[i]@) by {
            assert(front[i] == events[i]);
        }
        lemma_keeps_all(front);
        assert(!is_cancelled(events[events.len() - 1]@));
        assert(front.push(events.last()) =~= events);
    }
}

/// Drops the cancelled events and puts the rest by start.
pub fn build_snapshot(events: Vec<CalendarEvent>) -> (r: Vec<CalendarEvent>)
    ensures
        r@ == snapshot_of(events@),
        is_snapshot(r@),
{
    let ghost all = events@;
    let mut kept: Vec<CalendarEvent> = Vec::new();
    for event in it: events
        invariant
            it.seq() == all,
            kept@ == without_cancelled(all.subrange(0, it.index() as int)),
    {
        proof {
            let i = it.index() as int;
            assert(all.subrange(0, i + 1).drop_last() =~= all.subrange(0, i));
        }
        if !event.cancelled() {
            kept.push(event);
        }
    }
    proof {
        assert(all.subrange(0, all.len() as int) =~= all);
        lemma_snapshot_of(all);
    }
    stable_sort(kept)
}

/// What the gateway answers when asked for the events of its window: the
/// events made of the provider's occurrences, without the cancelled, by start.
pub fn fetch_todays_events(raw: &Vec<ProviderEvent>) -> (r: Vec<CalendarEvent>)
    ensures
        is_snapshot(r@),
        views(r@) == snapshot_views(converted_all(raw@)),
{
    let mut made: Vec<CalendarEvent> = Vec::new();
    let n = raw.len();
    let mut i: usize = 0;
    while i < n
        invariant
            n == raw@.len(),
            i <= n,
            views(made@) == converted_all(raw@.subrange(0, i as int)),
        decreases n - i,
    {
        proof {
            assert(raw@.subrange(0, i + 1).drop_last() =~= raw@.subrange(0, i as int));
        }
        let ghost before = made@;
        match calendar_event_from(&raw[i]) {
            Some(event) => {
                made.push(event);
                assert(views(made@) =~= views(before).push(event@));
            },
            None => {},
        }
        i += 1;
    }
    let ghost made_all = made@;
    assert(raw@.subrange(0, n as int) =~= raw@);
    proof {
        lemma_snapshot_views(made_all);
    }
    build_snapshot(made)
}

/// The calendars by source name, those of one source by title.
pub fn get_calendars(calendars: Vec<CalendarInfo>) -> (r: Result<Vec<CalendarInfo>, String>)
    ensures
        r matches Ok(list) && list@ == arranged(calendars@) && in_rank_order(list@)
            && list@.to_multiset() == calendars@.to_multiset(),
{
    Ok(stable_sort(calendars))
}

/// The word by which a permission is reported: `granted` for full access,
/// `denied`, `restricted`, and `not_determined` for everything else.
pub open spec fn permission_word(status: Authorization) -> Seq<char> {
    match status {
        Authorization::FullAccess => "granted"@,
        Authorization::Denied => "denied"@,
        Authorization::Restricted => "restricted"@,
        _ => "not_determined"@,
    }
}

/// Reports how far the user has let the application in, by its word.
pub fn check_calendar_permission(status: Authorization) -> (r: Result<String, String>)
    ensures
        r matches Ok(word) && word@ == permission_word(status),
{
    let word = match status {
        Authorization::FullAccess => "granted",
        Authorization::Denied => "denied",
        Authorization::Restricted => "restricted",
        _ => "not_determined",
    };
    Ok(word.to_owned())
}

/// Whether the answer to a permission check says `granted`. A check that
/// failed grants nothing.
pub open spec fn grants(answer: Result<String, String>) -> bool {
    answer matches Ok(word) && word@ == "granted"@
}

/// Whether the user has granted access to their calendars.
pub fn has_permission(answer: &Result<String, String>) -> (r: bool)
    ensures
        r == grants(*answer),
{
    match answer {
        Ok(word) => same_text(word.as_str(), "granted"),
        Err(_) => false,
    }
}

/// The events of the last sync that succeeded, and when it was.
pub struct CalendarState {
    events: Vec<CalendarEvent>,
    last_sync: Option<UtcInstant>,
}

impl CalendarState {
    #[verifier::type_invariant]
    spec fn holds_a_snapshot(self) -> bool {
        is_snapshot(self.events@)
    }

    /// The events of the last sync that succeeded.
    pub closed spec fn snapshot(&self) -> Seq<CalendarEvent> {
        self.events@
    }

    /// When the last sync succeeded, `None` before the first.
    pub closed spec fn last_sync(&self) -> Option<UtcInstant> {
        self.last_sync
    }

    /// The state before any sync: no events.
    pub fn new() -> (r: Self)
        ensures
            r.snapshot() == Seq::<CalendarEvent>::empty(),
            r.last_sync() is None,
    {
        CalendarState { events: Vec::new(), last_sync: None }
    }

    /// A copy of the events of the last sync that succeeded.
    pub fn events(&self) -> (r: Vec<CalendarEvent>)
        ensures
            r@ == self.snapshot(),
            is_snapshot(r@),
    {
        proof {
            use_type_invariant(self);
        }
        let n = self.events.len();
        let mut copy: Vec<CalendarEvent> = Vec::new();
        let mut i: usize = 0;
        while i < n
            invariant
                n == self.events@.len(),
                i <= n,
                copy@ == self.events@.subrange(0, i as int),
            decreases n - i,
        {
            copy.push(self.events[i].clone());
            assert(copy@ =~= self.events@.subrange(0, i + 1));
            i += 1;
        }
        assert(copy@ =~= self.events@);
        copy
    }

    /// When the last sync succeeded.
    pub fn last_synced(&self) -> (r: Option<UtcInstant>)
        ensures
            r == self.last_sync(),
    {
        self.last_sync
    }
}

/// Takes in what a fetch brought. Events replace the snapshot as a whole,
/// without the cancelled and by start, and `now` becomes the time of the last
/// sync; a failure leaves the state as it was and is handed on.
pub fn sync_events(
    calendar_state: &mut CalendarState,
    fetched: Result<Vec<CalendarEvent>, String>,
    now: UtcInstant,
) -> (r: Result<(), String>)
    ensures
        match fetched {
            Ok(events) => {
                &&& r is Ok
                &&& final(calendar_state).snapshot() == snapshot_of(events@)
                &&& final(calendar_state).last_sync() == Some(now)
            },
            Err(reason) => {
                &&& r == Err::<(), String>(reason)
                &&& *final(calendar_state) == *old(calendar_state)
            },
        },
        is_snapshot(final(calendar_state).snapshot()),
{
    proof {
        use_type_invariant(&*calendar_state);
    }
    match fetched {
        Ok(events) => {
            let snapshot = build_snapshot(events);
            *calendar_state = CalendarState { events: snapshot, last_sync: Some(now) };
            Ok(())
        },
        Err(reason) => Err(reason),
    }
}

/// The events of the last sync that succeeded, without a new sync.
pub fn get_todays_events(calendar_state: &CalendarState) -> (r: Result<Vec<CalendarEvent>, String>)
    ensures
        r matches Ok(events) && events@ == calendar_state.snapshot() && is_snapshot(events@),
{
    Ok(calendar_state.events())
}

/// Takes in what a fetch brought, as `sync_events` does, and hands back the
/// events that the state then holds; a failure is handed on.
pub fn force_sync(
    calendar_state: &mut CalendarState,
    fetched: Result<Vec<CalendarEvent>, String>,
    now: UtcInstant,
) -> (r: Result<Vec<CalendarEvent>, String>)
    ensures
        match fetched {
            Ok(events) => {
                &&& r matches Ok(held) && held@ == snapshot_of(events@)
                &&& final(calendar_state).snapshot() == snapshot_of(events@)
                &&& final(calendar_state).last_sync() == Some(now)
            },
            Err(reason) => {
                &&& r == Err::<Vec<CalendarEvent>, String>(reason)
                &&& *final(calendar_state) == *old(calendar_state)
            },
        },
        is_snapshot(final(calendar_state).snapshot()),
{
    match sync_events(calendar_state, fetched, now) {
        Ok(_) => Ok(calendar_state.events()),
        Err(reason) => Err(reason),
    }
}

} // verus!
