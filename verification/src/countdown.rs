//! The countdown to the next event, as the tray shows it.

use vstd::prelude::*;
use vstd::string::*;
use crate::calendar::{CalendarEvent, CalendarEventView};
use crate::clock::{event_instant, parse_event_time, seconds_between, UtcInstant};
use crate::locale::prefers_japanese;
use crate::text::opt_text;

verus! {

/// The character of a decimal digit.
pub open spec fn digit(d: int) -> char
    recommends
        0 <= d < 10,
{
    if d == 0 {
        '0'
    } else if d == 1 {
        '1'
    } else if d == 2 {
        '2'
    } else if d == 3 {
        '3'
    } else if d == 4 {
        '4'
    } else if d == 5 {
        '5'
    } else if d == 6 {
        '6'
    } else if d == 7 {
        '7'
    } else if d == 8 {
        '8'
    } else {
        '9'
    }
}

/// A natural number in decimal, without leading zeros.
pub open spec fn decimal(n: nat) -> Seq<char>
    decreases n,
{
    if n < 10 {
        seq![digit(n as int)]
    } else {
        decimal(n / 10).push(digit((n % 10) as int))
    }
}

/// The unit written after a number of minutes.
pub open spec fn minute_unit(japanese: bool) -> Seq<char> {
    if japanese {
        "分"@
    } else {
        "m"@
    }
}

/// The unit written after a number of hours.
pub open spec fn hour_unit(japanese: bool) -> Seq<char> {
    if japanese {
        "時間"@
    } else {
        "h"@
    }
}

/// A number of minutes as the tray words it: nothing for none or fewer,
/// minutes alone below an hour, else hours, and minutes where any are left.
pub open spec fn duration_text(mins: int, japanese: bool) -> Seq<char> {
    if mins <= 0 {
        Seq::empty()
    } else if mins < 60 {
        decimal(mins as nat) + minute_unit(japanese)
    } else if mins % 60 == 0 {
        decimal((mins / 60) as nat) + hour_unit(japanese)
    } else {
        decimal((mins / 60) as nat) + hour_unit(japanese) + decimal((mins % 60) as nat)
            + minute_unit(japanese)
    }
}

/// The minutes that a number of seconds takes up, a begun minute counted whole.
pub open spec fn minutes_left(seconds: int) -> int {
    (seconds + 59) / 60
}

/// The minutes to show for an event `seconds` away: none where no minute is
/// left, and none beyond the threshold, unless the threshold is zero, which
/// shows every countdown.
pub open spec fn shown_minutes(seconds: int, threshold: int) -> Option<int> {
    let mins = minutes_left(seconds);
    if mins <= 0 {
        None
    } else if threshold == 0 || mins <= threshold {
        Some(mins)
    } else {
        None
    }
}

/// The start that the countdown may run to, of an event that takes all day
/// or not and whose start resolves to `start` or not: the event does not
/// take all day, its start resolves, and it lies after `now`.
pub open spec fn upcoming_start(is_all_day: bool, start: Option<UtcInstant>, now: UtcInstant)
    -> Option<UtcInstant> {
    if is_all_day {
        None
    } else {
        match start {
            Some(at) => if at.later_than(now) {
                start
            } else {
                None
            },
            None => None,
        }
    }
}

/// The start of an event that the countdown may run to.
pub open spec fn upcoming(event: CalendarEventView, now: UtcInstant) -> Option<UtcInstant> {
    upcoming_start(event.is_all_day, event_instant(event.start.date_time), now)
}

/// The earlier of the best start so far and one more start: the best so far
/// stays where the other is not earlier.
pub open spec fn earlier(best: Option<UtcInstant>, other: Option<UtcInstant>) -> Option<
    UtcInstant,
> {
    match other {
        Some(start) => match best {
            Some(so_far) => if so_far.later_than(start) {
                other
            } else {
                best
            },
            None => other,
        },
        None => best,
    }
}

/// The earliest upcoming start among the events; of two that are equally
/// early, that of the event further to the front.
pub open spec fn next_start(events: Seq<CalendarEvent>, now: UtcInstant) -> Option<UtcInstant>
    decreases events.len(),
{
    if events.len() == 0 {
        None
    } else {
        earlier(next_start(events.drop_last(), now), upcoming(events.last()@, now))
    }
}

/// The label for the tray: the time until the next start, worded, where
/// there is a next start and its minutes are to be shown.
pub open spec fn label_of(
    events: Seq<CalendarEvent>,
    now: UtcInstant,
    threshold: int,
    japanese: bool,
) -> Option<Seq<char>> {
    match next_start(events, now) {
        Some(start) => match shown_minutes(seconds_between(now, start), threshold) {
            Some(mins) => Some(duration_text(mins, japanese)),
            None => None,
        },
        None => None,
    }
}

/// The next start is the start of one of the events, and no upcoming start
/// is earlier; there is none exactly where no event is upcoming.
pub proof fn lemma_next_start(events: Seq<CalendarEvent>, now: UtcInstant)
    ensures
        match next_start(events, now) {
            Some(best) => {
                &&& exists|i: int|
                    0 <= i < events.len() && upcoming(#[trigger] events[i]@, now) == Some(best)
                &&& forall|i: int|
                    0 <= i < events.len() ==> (upcoming(#[trigger] events[i]@, now) matches Some(
                        start,
                    ) ==> !best.later_than(start))
            },
            None => forall|i: int|
                0 <= i < events.len() ==> upcoming(#[trigger] events[i]@, now) is None,
        },
    decreases events.len(),
{
    if events.len() > 0 {
        let front = events.drop_last();
        lemma_next_start(front, now);
        assert forall|i: int| 0 <= i < front.len() implies front[i] == events[i] by {}
        match next_start(events, now) {
            Some(best) => {
                if upcoming(events.last()@, now) == Some(best) {
                    assert(upcoming(events[events.len() - 1]@, now) == Some(best));
                } else {
                    let i = choose|i: int|
                        0 <= i < front.len() && upcoming(#[trigger] front[i]@, now) == Some(best);
                    assert(upcoming(events[i]@, now) == Some(best));
                }
                assert forall|i: int| 0 <= i < events.len() implies (upcoming(
                    #[trigger] events[i]@,
                    now,
                ) matches Some(start) ==> !best.later_than(start)) by {
                    if i < front.len() {
                        assert(front[i] == events[i]);
                    }
                }
            },
            None => {
                assert forall|i: int| 0 <= i < events.len() implies upcoming(
                    #[trigger] events[i]@,
                    now,
                ) is None by {
                    if i < front.len() {
                        assert(front[i] == events[i]);
                    }
                }
            },
        }
    }
}

/// Where no event that does not take all day starts after `now`, the tray
/// shows no label.
pub proof fn lemma_no_upcoming_no_label(
    events: Seq<CalendarEvent>,
    now: UtcInstant,
    threshold: int,
    japanese: bool,
)
    requires
        forall|i: int| 0 <= i < events.len() ==> upcoming(#[trigger] events[i]@, now) is None,
    ensures
        label_of(events, now, threshold, japanese) is None,
{
    lemma_next_start(events, now);
    if next_start(events, now) is Some {
        let best = next_start(events, now)->0;
        let i = choose|i: int|
            0 <= i < events.len() && upcoming(#[trigger] events[i]@, now) == Some(best);
        assert(upcoming(events[i]@, now) is None);
    }
}

/// The text of one decimal digit.
fn digit_str(d: u128) -> (r: &'static str)
    requires
        d < 10,
    ensures
        r@ == seq![digit(d as int)],
{
    proof {
        reveal_strlit("0");
        reveal_strlit("1");
        reveal_strlit("2");
        reveal_strlit("3");
        reveal_strlit("4");
        reveal_strlit("5");
        reveal_strlit("6");
        reveal_strlit("7");
        reveal_strlit("8");
        reveal_strlit("9");
    }
    let r = if d == 0 {
        "0"
    } else if d == 1 {
        "1"
    } else if d == 2 {
        "2"
    } else if d == 3 {
        "3"
    } else if d == 4 {
        "4"
    } else if d == 5 {
        "5"
    } else if d == 6 {
        "6"
    } else if d == 7 {
        "7"
    } else if d == 8 {
        "8"
    } else {
        "9"
    };
    assert(r@ =~= seq![digit(d as int)]);
    r
}

/// Writes `n` in decimal at the end of `out`.
fn push_decimal(out: &mut String, n: u128)
    ensures
        final(out)@ == old(out)@ + decimal(n as nat),
    decreases n,
{
    if n >= 10 {
        push_decimal(out, n / 10);
    }
    out.append(digit_str(n % 10));
    assert(out@ =~= old(out)@ + decimal(n as nat));
}

/// Words a number of minutes for the tray, in Japanese or in English.
pub fn duration_label(mins: i128, japanese: bool) -> (r: String)
    ensures
        r@ == duration_text(mins as int, japanese),
{
    let mut out = String::new();
    if mins <= 0 {
        return out;
    }
    let total = mins as u128;
    let minute = if japanese { "分" } else { "m" };
    let hour = if japanese { "時間" } else { "h" };
    if total < 60 {
        push_decimal(&mut out, total);
        out.append(minute);
    } else {
        push_decimal(&mut out, total / 60);
        out.append(hour);
        if total % 60 != 0 {
            push_decimal(&mut out, total % 60);
            out.append(minute);
        }
    }
    assert(out@ =~= duration_text(mins as int, japanese));
    out
}

/// Words a number of minutes for the tray in the language of the user's
/// system.
pub fn format_tray_duration(mins: i128) -> (r: String)
    ensures
        r@ == duration_text(mins as int, true) || r@ == duration_text(mins as int, false),
{
    duration_label(mins, prefers_japanese())
}

/// Takes one more event into the search for the next start: the event takes
/// all day or not, and its start resolves to `start` or not. The best start
/// so far stays unless the event's start is upcoming and earlier.
pub fn earlier_start(
    best: Option<UtcInstant>,
    is_all_day: bool,
    start: Option<UtcInstant>,
    now: &UtcInstant,
) -> (r: Option<UtcInstant>)
    ensures
        r == earlier(best, upcoming_start(is_all_day, start, *now)),
{
    if is_all_day {
        return best;
    }
    match start {
        Some(at) => if at.is_after(now) {
            match best {
                Some(so_far) => if so_far.is_after(&at) {
                    start
                } else {
                    best
                },
                None => start,
            }
        } else {
            best
        },
        None => best,
    }
}

/// The earliest start, after `now`, of an event that does not take all day.
pub fn find_next_start(events: &Vec<CalendarEvent>, now: &UtcInstant) -> (r: Option<UtcInstant>)
    ensures
        r == next_start(events@, *now),
{
    let n = events.len();
    let mut best: Option<UtcInstant> = None;
    let mut i: usize = 0;
    while i < n
        invariant
            n == events@.len(),
            i <= n,
            best == next_start(events@.subrange(0, i as int), *now),
        decreases n - i,
    {
        proof {
            assert(events@.subrange(0, i + 1).drop_last() =~= events@.subrange(0, i as int));
        }
        let event = &events[i];
        let start = if event.is_all_day {
            None
        } else {
            parse_event_time(&event.start.date_time)
        };
        best = earlier_start(best, event.is_all_day, start, now);
        i += 1;
    }
    assert(events@.subrange(0, n as int) =~= events@);
    best
}

/// The minutes to show for an event `seconds` away.
pub fn countdown_minutes(seconds: i128, threshold: i64) -> (r: Option<i128>)
    ensures
        match r {
            Some(mins) => shown_minutes(seconds as int, threshold as int) == Some(mins as int),
            None => shown_minutes(seconds as int, threshold as int) is None,
        },
{
    if seconds <= 0 {
        return None;
    }
    let mins: i128 = (seconds - 1) / 60 + 1;
    if threshold == 0 || mins <= threshold as i128 {
        Some(mins)
    } else {
        None
    }
}

/// The label for the tray, in Japanese or in English: the time until the
/// next start, or none.
pub fn countdown_label(
    events: &Vec<CalendarEvent>,
    now: &UtcInstant,
    threshold: i64,
    japanese: bool,
) -> (r: Option<String>)
    ensures
        opt_text(r) == label_of(events@, *now, threshold as int, japanese),
{
    match find_next_start(events, now) {
        Some(start) => {
            let seconds = start.seconds_after(now);
            match countdown_minutes(seconds, threshold) {
                Some(mins) => Some(duration_label(mins, japanese)),
                None => None,
            }
        },
        None => None,
    }
}

/// The label for the tray in the language of the user's system.
pub fn tray_title(events: &Vec<CalendarEvent>, now: &UtcInstant, threshold: i64) -> (r: Option<
    String,
>)
    ensures
        opt_text(r) == label_of(events@, *now, threshold as int, true) || opt_text(r) == label_of(
            events@,
            *now,
            threshold as int,
            false,
        ),
{
    countdown_label(events, now, threshold, prefers_japanese())
}

} // verus!
