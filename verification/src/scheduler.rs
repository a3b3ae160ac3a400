//! The auto-join scheduler: what a tick decides. The caller sleeps, asks the
//! gateway, shows the notification and opens the link; every decision in
//! between is taken here.

use vstd::prelude::*;
use vstd::string::*;
use crate::calendar::{CalendarEvent, CalendarEventView};
use crate::clock::{event_instant, parse_event_time, seconds_between, whole_minutes, UtcInstant};
use crate::locale::prefers_japanese;
use crate::meeting_url::{extract_meeting_url, meeting_url_of};
use crate::text::same_text;

verus! {

/// Seconds between two syncs of the calendar.
pub const POLL_INTERVAL_SECS: u64 = 300;

/// Seconds between two ticks.
pub const CHECK_INTERVAL_SECS: u64 = 10;

/// Seconds between the notification and the opening of the link.
pub const OPEN_DELAY_SECS: u64 = 3;

/// Whole minutes past its start up to which a meeting still opens.
pub const GRACE_MINUTES: i64 = 2;

/// Minutes before the start at which a meeting opens, unless the settings say otherwise.
pub const DEFAULT_MINUTES_BEFORE: i64 = 1;

/// Minutes within which the tray counts down, unless the settings say otherwise.
pub const DEFAULT_TRAY_COUNTDOWN_MINUTES: i64 = 30;

/// What the scheduler reads from the settings on every tick.
#[derive(Clone, Copy, Debug, PartialEq, Eq, Structural)]
pub struct SchedulerConfig {
    pub minutes_before: i64,
    pub tray_countdown_minutes: i64,
}

impl SchedulerConfig {
    /// The configuration that the stored settings give; what is not stored
    /// takes its default.
    pub fn from_settings(minutes_before: Option<i64>, tray_countdown_minutes: Option<i64>) -> (r:
        Self)
        ensures
            r.minutes_before == match minutes_before {
                Some(minutes) => minutes,
                None => DEFAULT_MINUTES_BEFORE,
            },
            r.tray_countdown_minutes == match tray_countdown_minutes {
                Some(minutes) => minutes,
                None => DEFAULT_TRAY_COUNTDOWN_MINUTES,
            },
    {
        SchedulerConfig {
            minutes_before: match minutes_before {
                Some(minutes) => minutes,
                None => DEFAULT_MINUTES_BEFORE,
            },
            tray_countdown_minutes: match tray_countdown_minutes {
                Some(minutes) => minutes,
                None => DEFAULT_TRAY_COUNTDOWN_MINUTES,
            },
        }
    }
}

/// What a tick does next.
#[derive(Clone, Copy, Debug, PartialEq, Eq, Structural)]
pub enum TickStep {
    /// Nothing more: the tick is over.
    Skip,
    /// Fetch the events from the gateway, then report with `finish_sync`.
    Sync,
    /// Go through the events of the snapshot.
    Evaluate,
}

/// A meeting to open now.
#[derive(Debug)]
pub struct Opening {
    /// Where the event stands in the snapshot.
    pub index: usize,
    /// The event's title, for the notification.
    pub summary: String,
    /// The link to open.
    pub url: String,
}

/// An event `seconds_until` seconds away is to be opened at a lead time of
/// `lead_minutes`: the lead time has been reached, and the start is not more
/// than the grace of whole minutes past.
pub open spec fn qualifies(seconds_until: int, lead_minutes: int) -> bool {
    seconds_until <= 60 * lead_minutes && whole_minutes(seconds_until) >= -GRACE_MINUTES
}

/// The ids that a list of texts holds.
pub open spec fn ids_in(list: Seq<String>) -> Set<Seq<char>> {
    Set::new(|id: Seq<char>| exists|i: int| 0 <= i < list.len() && (#[trigger] list[i])@ == id)
}

/// The ids of the events of a snapshot.
pub open spec fn ids_of(events: Seq<CalendarEvent>) -> Set<Seq<char>> {
    Set::new(
        |id: Seq<char>| exists|i: int| 0 <= i < events.len() && (#[trigger] events[i]).id@ == id,
    )
}

/// No text stands twice in the list.
pub open spec fn distinct(list: Seq<String>) -> bool {
    forall|i: int, j: int|
        #![trigger list[i], list[j]]
        0 <= i < j < list.len() ==> list[i]@ != list[j]@
}

/// The link to open for an event now, if any: the event's start resolves and
/// qualifies, the event has not been opened yet, and it has a meeting link.
pub open spec fn due_link(
    event: CalendarEventView,
    now: UtcInstant,
    lead_minutes: int,
    opened: Set<Seq<char>>,
) -> Option<Seq<char>> {
    match event_instant(event.start.date_time) {
        Some(start) => if qualifies(seconds_between(now, start), lead_minutes) && !opened.contains(
            event.id,
        ) {
            meeting_url_of(event)
        } else {
            None
        },
        None => None,
    }
}

/// A sync is due `now_ms` milliseconds into the run: none has succeeded yet,
/// or the last that did is at least the poll interval back.
pub open spec fn sync_due(last_poll: Option<u64>, now_ms: u64) -> bool {
    match last_poll {
        Some(last) => now_ms - last >= POLL_INTERVAL_SECS * 1000,
        None => true,
    }
}

/// The opened set after a tick's pruning: what of it is still in the snapshot.
pub open spec fn pruned(opened: Set<Seq<char>>, events: Seq<CalendarEvent>) -> Set<Seq<char>> {
    opened.intersect(ids_of(events))
}

/// Whether an event `seconds_until` seconds away is to be opened at a lead
/// time of `minutes_before`.
pub fn qualifies_for_open(seconds_until: i128, minutes_before: i64) -> (r: bool)
    ensures
        r == qualifies(seconds_until as int, minutes_before as int),
{
    let lead_seconds: i128 = 60 * (minutes_before as i128);
    let grace_seconds: i128 = 60 * (GRACE_MINUTES as i128 + 1);
    seconds_until <= lead_seconds && seconds_until > -grace_seconds
}

/// An event qualifies exactly from the lead time before its start until just
/// short of three minutes after it.
pub proof fn lemma_qualifies_window(seconds_until: int, lead_minutes: int)
    ensures
        qualifies(seconds_until, lead_minutes) <==> -180 < seconds_until <= 60 * lead_minutes,
{
}

/// A link that was opened is not opened a second time: once an event's id is
/// in the opened set, pruning by a snapshot that still holds the event keeps
/// it there, and the event has no link due, whatever the time and the lead
/// time.
pub proof fn lemma_opened_once(
    events: Seq<CalendarEvent>,
    i: int,
    opened: Set<Seq<char>>,
    now: UtcInstant,
    lead_minutes: int,
)
    requires
        0 <= i < events.len(),
    ensures
        pruned(opened.insert(events[i].id@), events).contains(events[i].id@),
        due_link(events[i]@, now, lead_minutes, opened.insert(events[i].id@)) is None,
        due_link(events[i]@, now, lead_minutes, pruned(opened.insert(events[i].id@), events))
            is None,
{
    assert(ids_of(events).contains(events[i].id@));
}

/// An id that no event of the snapshot has is forgotten by the tick's
/// pruning. So an id that two snapshots in a row lack is out of the opened
/// set after the first tick, and after the second too, whichever links were
/// opened in between.
pub proof fn lemma_absent_is_forgotten(
    opened: Set<Seq<char>>,
    first: Seq<CalendarEvent>,
    opened_between: Set<Seq<char>>,
    second: Seq<CalendarEvent>,
    id: Seq<char>,
)
    requires
        !ids_of(first).contains(id),
        !ids_of(second).contains(id),
    ensures
        !pruned(opened, first).contains(id),
        !pruned(pruned(opened, first).union(opened_between), second).contains(id),
{
}

/// A snapshot has no more ids than events.
pub proof fn lemma_ids_of_bounded(events: Seq<CalendarEvent>)
    ensures
        ids_of(events).finite(),
        ids_of(events).len() <= events.len(),
    decreases events.len(),
{
    if events.len() == 0 {
        assert(ids_of(events) =~= Set::<Seq<char>>::empty());
    } else {
        let front = events.drop_last();
        let last = events.last().id@;
        lemma_ids_of_bounded(front);
        assert forall|id: Seq<char>|
            ids_of(events).contains(id) <==> ids_of(front).insert(last).contains(id) by {
            if ids_of(events).contains(id) {
                let i = choose|i: int| 0 <= i < events.len() && (#[trigger] events[i]).id@ == id;
                if i < front.len() {
                    assert(front[i].id@ == id);
                }
            }
            if ids_of(front).contains(id) {
                let i = choose|i: int| 0 <= i < front.len() && (#[trigger] front[i]).id@ == id;
                assert(events[i].id@ == id);
            }
            if id == last {
                assert(events[events.len() - 1].id@ == id);
            }
        }
        assert(ids_of(events) =~= ids_of(front).insert(last));
    }
}

/// After a tick's pruning the opened set is no larger than the snapshot.
pub proof fn lemma_pruned_bounded(opened: Set<Seq<char>>, events: Seq<CalendarEvent>)
    ensures
        pruned(opened, events).finite(),
        pruned(opened, events).len() <= events.len(),
{
    lemma_ids_of_bounded(events);
    vstd::set_lib::lemma_len_subset(pruned(opened, events), ids_of(events));
}

/// A sync that is due stays due until one succeeds: after a failure the next
/// tick tries again, however soon it comes.
pub proof fn lemma_due_stays_due(last_poll: Option<u64>, now_ms: u64, later_ms: u64)
    requires
        sync_due(last_poll, now_ms),
        now_ms <= later_ms,
    ensures
        sync_due(last_poll, later_ms),
{
}

/// Whether `id` stands in `list`.
fn holds(list: &Vec<String>, id: &str) -> (r: bool)
    ensures
        r == ids_in(list@).contains(id@),
{
    let n = list.len();
    let mut i: usize = 0;
    while i < n
        invariant
            n == list@.len(),
            i <= n,
            forall|j: int| 0 <= j < i ==> (#[trigger] list@[j])@ != id@,
        decreases n - i,
    {
        if same_text(list[i].as_str(), id) {
            return true;
        }
        i += 1;
    }
    false
}

/// Whether an event of the snapshot has the id `id`.
fn in_snapshot(events: &Vec<CalendarEvent>, id: &str) -> (r: bool)
    ensures
        r == ids_of(events@).contains(id@),
{
    let n = events.len();
    let mut i: usize = 0;
    while i < n
        invariant
            n == events@.len(),
            i <= n,
            forall|j: int| 0 <= j < i ==> (#[trigger] events@[j]).id@ != id@,
        decreases n - i,
    {
        if same_text(events[i].id.as_str(), id) {
            return true;
        }
        i += 1;
    }
    false
}

/// A copy of `list` with `id` at its end.
fn extended(list: &Vec<String>, id: &str) -> (r: Vec<String>)
    ensures
        r@.len() == list@.len() + 1,
        forall|i: int| 0 <= i < list@.len() ==> r@[i] == list@[i],
        r@[list@.len() as int]@ == id@,
{
    let n = list.len();
    let mut copy: Vec<String> = Vec::new();
    let mut i: usize = 0;
    while i < n
        invariant
            n == list@.len(),
            i <= n,
            copy@ == list@.subrange(0, i as int),
        decreases n - i,
    {
        copy.push(list[i].clone());
        assert(copy@ =~= list@.subrange(0, i + 1));
        i += 1;
    }
    copy.push(id.to_owned());
    copy
}

/// What the scheduler keeps from tick to tick: the ids of the events whose
/// link it has opened, and when the last sync succeeded.
pub struct SchedulerState {
    opened_meetings: Vec<String>,
    last_poll: Option<u64>,
}

impl SchedulerState {
    #[verifier::type_invariant]
    spec fn no_id_twice(self) -> bool {
        distinct(self.opened_meetings@)
    }

    /// The ids of the events whose link has been opened.
    pub closed spec fn opened(&self) -> Set<Seq<char>> {
        ids_in(self.opened_meetings@)
    }

    /// When the last sync succeeded, in milliseconds of the run; `None`
    /// before the first.
    pub closed spec fn last_poll(&self) -> Option<u64> {
        self.last_poll
    }

    /// The state at the start of a run: nothing opened, and a sync due at once.
    pub fn new() -> (r: Self)
        ensures
            r.opened() == Set::<Seq<char>>::empty(),
            r.last_poll() is None,
    {
        let r = SchedulerState { opened_meetings: Vec::new(), last_poll: None };
        assert(r.opened() =~= Set::<Seq<char>>::empty());
        r
    }

    /// Whether the link of the event with this id has been opened.
    pub fn has_opened(&self, id: &str) -> (r: bool)
        ensures
            r == self.opened().contains(id@),
    {
        holds(&self.opened_meetings, id)
    }

    /// How many events count as opened.
    pub fn opened_count(&self) -> (r: usize)
        ensures
            r == self.opened().len(),
            self.opened().finite(),
    {
        proof {
            use_type_invariant(self);
            lemma_ids_in_len(self.opened_meetings@);
        }
        self.opened_meetings.len()
    }

    /// Whether a sync is due.
    pub fn poll_due(&self, now_ms: u64) -> (r: bool)
        ensures
            r == sync_due(self.last_poll(), now_ms),
    {
        match self.last_poll {
            Some(last) => now_ms >= last && now_ms - last >= POLL_INTERVAL_SECS * 1000,
            None => true,
        }
    }

    /// Opens a tick. Without the permission to read the calendar the tick is
    /// over; with it the tick syncs if a sync is due, and goes through the
    /// events as they are if none is.
    pub fn begin_tick(&self, permitted: bool, now_ms: u64) -> (r: TickStep)
        ensures
            r == if !permitted {
                TickStep::Skip
            } else if sync_due(self.last_poll(), now_ms) {
                TickStep::Sync
            } else {
                TickStep::Evaluate
            },
    {
        if !permitted {
            TickStep::Skip
        } else if self.poll_due(now_ms) {
            TickStep::Sync
        } else {
            TickStep::Evaluate
        }
    }

    /// Takes in how a sync ended. After one that succeeded the next is due a
    /// poll interval from `now_ms`, and the tick goes on; one that failed
    /// changes nothing, so that the next tick tries again, and ends the tick.
    pub fn finish_sync(&mut self, outcome: &Result<(), String>, now_ms: u64) -> (r: TickStep)
        ensures
            final(self).opened() == old(self).opened(),
            match *outcome {
                Ok(_) => r == TickStep::Evaluate && final(self).last_poll() == Some(now_ms),
                Err(_) => r == TickStep::Skip && final(self).last_poll() == old(self).last_poll(),
            },
    {
        proof {
            use_type_invariant(&*self);
        }
        match outcome {
            Ok(_) => {
                self.last_poll = Some(now_ms);
                TickStep::Evaluate
            },
            Err(_) => TickStep::Skip,
        }
    }

    /// The next meeting to open: the first event at or behind `from` that has
    /// a link due now.
    pub fn next_opening(
        &self,
        events: &Vec<CalendarEvent>,
        from: usize,
        now: &UtcInstant,
        minutes_before: i64,
    ) -> (r: Option<Opening>)
        ensures
            match r {
                Some(opening) => {
                    &&& from <= opening.index < events@.len()
                    &&& due_link(
                        events@[opening.index as int]@,
                        *now,
                        minutes_before as int,
                        self.opened(),
                    ) == Some(opening.url@)
                    &&& opening.summary@ == events@[opening.index as int].summary@
                    &&& forall|j: int|
                        from <= j < opening.index ==> due_link(
                            (#[trigger] events@[j])@,
                            *now,
                            minutes_before as int,
                            self.opened(),
                        ) is None
                },
                None => forall|j: int|
                    from <= j < events@.len() ==> due_link(
                        (#[trigger] events@[j])@,
                        *now,
                        minutes_before as int,
                        self.opened(),
                    ) is None,
            },
    {
        let n = events.len();
        if from >= n {
            return None;
        }
        let mut i: usize = from;
        while i < n
            invariant
                n == events@.len(),
                from <= i <= n,
                forall|j: int|
                    from <= j < i ==> due_link(
                        (#[trigger] events@[j])@,
                        *now,
                        minutes_before as int,
                        self.opened(),
                    ) is None,
            decreases n - i,
        {
            let event = &events[i];
            if let Some(start) = parse_event_time(&event.start.date_time) {
                if qualifies_for_open(start.seconds_after(now), minutes_before) {
                    if !self.has_opened(event.id.as_str()) {
                        if let Some(url) = extract_meeting_url(event) {
                            return Some(Opening { index: i, summary: event.summary.clone(), url });
                        }
                    }
                }
            }
            i += 1;
        }
        None
    }

    /// Takes in how the opening of an event's link ended: an event whose link
    /// was opened counts as opened from now on; one whose link could not be
    /// opened stays as it was, and is tried again.
    pub fn record_opening(&mut self, id: &str, succeeded: bool)
        ensures
            final(self).opened() == if succeeded {
                old(self).opened().insert(id@)
            } else {
                old(self).opened()
            },
            final(self).last_poll() == old(self).last_poll(),
    {
        proof {
            use_type_invariant(&*self);
        }
        if succeeded && !holds(&self.opened_meetings, id) {
            let ghost before = self.opened_meetings@;
            let longer = extended(&self.opened_meetings, id);
            assert forall|i: int, j: int|
                #![trigger longer@[i], longer@[j]]
                0 <= i < j < longer@.len() implies longer@[i]@ != longer@[j]@ by {
                if j < before.len() {
                    assert(before[i]@ != before[j]@);
                }
            }
            self.opened_meetings = longer;
            assert forall|text: Seq<char>|
                ids_in(self.opened_meetings@).contains(text) <==> ids_in(before).insert(
                    id@,
                ).contains(text) by {
                if ids_in(self.opened_meetings@).contains(text) {
                    let i = choose|i: int|
                        0 <= i < self.opened_meetings@.len() && (
                        #[trigger] self.opened_meetings@[i])@ == text;
                    if i < before.len() {
                        assert(before[i]@ == text);
                    }
                }
                if ids_in(before).contains(text) {
                    let i = choose|i: int| 0 <= i < before.len() && (#[trigger] before[i])@ == text;
                    assert(self.opened_meetings@[i]@ == text);
                }
                if text == id@ {
                    assert(self.opened_meetings@[before.len() as int]@ == text);
                }
            }
            assert(self.opened() =~= old(self).opened().insert(id@));
        } else if succeeded {
            assert(self.opened() =~= old(self).opened().insert(id@));
        }
    }

    /// Forgets the events that are no longer in the snapshot.
    pub fn prune(&mut self, events: &Vec<CalendarEvent>)
        ensures
            final(self).opened() == pruned(old(self).opened(), events@),
            final(self).opened().len() <= events@.len(),
            final(self).last_poll() == old(self).last_poll(),
    {
        proof {
            use_type_invariant(&*self);
            lemma_pruned_bounded(self.opened(), events@);
        }
        let n = self.opened_meetings.len();
        let mut kept: Vec<String> = Vec::new();
        let mut i: usize = 0;
        while i < n
            invariant
                n == self.opened_meetings@.len(),
                *self == *old(self),
                distinct(self.opened_meetings@),
                i <= n,
                distinct(kept@),
                forall|k: int|
                    0 <= k < kept@.len() ==> exists|j: int|
                        0 <= j < i && self.opened_meetings@[j]@ == (#[trigger] kept@[k])@
                            && ids_of(events@).contains(kept@[k]@),
                forall|j: int|
                    0 <= j < i && ids_of(events@).contains((#[trigger] self.opened_meetings@[j])@)
                        ==> ids_in(kept@).contains(self.opened_meetings@[j]@),
            decreases n - i,
        {
            let id = &self.opened_meetings[i];
            if in_snapshot(events, id.as_str()) {
                let ghost before = kept@;
                kept.push(id.clone());
                assert forall|k: int| 0 <= k < kept@.len() implies exists|j: int|
                    0 <= j < i + 1 && self.opened_meetings@[j]@ == (#[trigger] kept@[k])@
                        && ids_of(events@).contains(kept@[k]@) by {
                    if k < before.len() {
                        assert(kept@[k] == before[k]);
                        let j = choose|j: int|
                            0 <= j < i && self.opened_meetings@[j]@ == before[k]@ && ids_of(
                                events@,
                            ).contains(before[k]@);
                        assert(self.opened_meetings@[j]@ == kept@[k]@);
                    } else {
                        assert(self.opened_meetings@[i as int]@ == kept@[k]@);
                    }
                }
                assert forall|a: int, b: int|
                    #![trigger kept@[a], kept@[b]]
                    0 <= a < b < kept@.len() implies kept@[a]@ != kept@[b]@ by {
                    if b == before.len() {
                        assert(kept@[a] == before[a]);
                        let j = choose|j: int|
                            0 <= j < i && self.opened_meetings@[j]@ == before[a]@ && ids_of(
                                events@,
                            ).contains(before[a]@);
                        assert(self.opened_meetings@[j]@ != self.opened_meetings@[i as int]@);
                    } else {
                        assert(kept@[a] == before[a]);
                        assert(kept@[b] == before[b]);
                    }
                }
                assert forall|j: int|
                    0 <= j < i + 1 && ids_of(events@).contains(
                        (#[trigger] self.opened_meetings@[j])@,
                    ) implies ids_in(kept@).contains(self.opened_meetings@[j]@) by {
                    if j < i {
                        assert(ids_in(before).contains(self.opened_meetings@[j]@));
                        let k = choose|k: int|
                            0 <= k < before.len() && (#[trigger] before[k])@
                                == self.opened_meetings@[j]@;
                        assert(kept@[k]@ == self.opened_meetings@[j]@);
                    } else {
                        assert(kept@[before.len() as int]@ == self.opened_meetings@[j]@);
                    }
                }
            }
            i += 1;
        }
        proof {
            let was = self.opened_meetings@;
            assert forall|text: Seq<char>|
                ids_in(kept@).contains(text) <==> pruned(ids_in(was), events@).contains(text) by {
                if ids_in(kept@).contains(text) {
                    let k = choose|k: int| 0 <= k < kept@.len() && (#[trigger] kept@[k])@ == text;
                    let j = choose|j: int|
                        0 <= j < n && was[j]@ == kept@[k]@ && ids_of(events@).contains(kept@[k]@);
                    assert(was[j]@ == text);
                }
                if pruned(ids_in(was), events@).contains(text) {
                    let j = choose|j: int| 0 <= j < was.len() && (#[trigger] was[j])@ == text;
                    assert(ids_of(events@).contains(was[j]@));
                }
            }
            assert(ids_in(kept@) =~= pruned(ids_in(was), events@));
        }
        self.opened_meetings = kept;
    }
}

/// A list without repeats holds as many ids as it is long.
proof fn lemma_ids_in_len(list: Seq<String>)
    requires
        distinct(list),
    ensures
        ids_in(list).finite(),
        ids_in(list).len() == list.len(),
    decreases list.len(),
{
    if list.len() == 0 {
        assert(ids_in(list) =~= Set::<Seq<char>>::empty());
    } else {
        let front = list.drop_last();
        let last = list.last()@;
        assert forall|i: int, j: int|
            #![trigger front[i], front[j]]
            0 <= i < j < front.len() implies front[i]@ != front[j]@ by {
            assert(front[i] == list[i]);
            assert(front[j] == list[j]);
        }
        lemma_ids_in_len(front);
        assert forall|text: Seq<char>|
            ids_in(list).contains(text) <==> ids_in(front).insert(last).contains(text) by {
            if ids_in(list).contains(text) {
                let i = choose|i: int| 0 <= i < list.len() && (#[trigger] list[i])@ == text;
                if i < front.len() {
                    assert(front[i]@ == text);
                }
            }
            if ids_in(front).contains(text) {
                let i = choose|i: int| 0 <= i < front.len() && (#[trigger] front[i])@ == text;
                assert(list[i]@ == text);
            }
            if text == last {
                assert(list[list.len() - 1]@ == text);
            }
        }
        assert(ids_in(list) =~= ids_in(front).insert(last));
        if ids_in(front).contains(last) {
            let i = choose|i: int| 0 <= i < front.len() && (#[trigger] front[i])@ == last;
            assert(list[i]@ == list[list.len() - 1]@);
        }
    }
}

/// The words of the notification that announces an opening.
pub open spec fn notification_text(summary: Seq<char>, japanese: bool) -> Seq<char> {
    if japanese {
        "開始: "@ + summary
    } else {
        "Opening: "@ + summary
    }
}

/// Words the notification that announces an opening, in Japanese or in English.
pub fn notification_body(summary: &str, japanese: bool) -> (r: String)
    ensures
        r@ == notification_text(summary@, japanese),
{
    let mut body = if japanese {
        "開始: ".to_owned()
    } else {
        "Opening: ".to_owned()
    };
    body.append(summary);
    body
}

/// Words the notification in the language of the user's system.
pub fn send_notification(summary: &str) -> (r: String)
    ensures
        r@ == notification_text(summary@, true) || r@ == notification_text(summary@, false),
{
    notification_body(summary, prefers_japanese())
}

} // verus!
