//! Grouping of events into spans of activity.
//!
//! Events come from the store one after another. An event that starts or ends
//! within the span of those before it, or whose end lies within it when it is moved
//! on by half a minute, widens that span; any other one starts a new span. So a
//! span that is shorter than half a minute is not always widened by an event that
//! ends less than half a minute before it.

use crate::model::{Event, EventGroup};
use crate::time::{group_durations, JsonDuration, MAX_NANOS, NANOS_PER_SEC};
use vstd::prelude::*;

verus! {

broadcast use group_durations;

/// How far the end of an event is moved on to see whether it lies within a group.
pub open spec fn group_gap() -> int {
    30 * NANOS_PER_SEC
}

/// How close to the asked time a group may be and still count as the current one.
pub open spec fn jump_slack() -> int {
    10 * NANOS_PER_SEC
}

/// Whether the event starts or ends within the group.
pub open spec fn touches(group: EventGroup, event: Event) -> bool {
    ||| group.start@ <= event.start@ <= group.end@
    ||| group.start@ <= event.end@ <= group.end@
}

/// Whether the event belongs to the group.
pub open spec fn joins(group: EventGroup, event: Event) -> bool {
    ||| touches(group, event)
    ||| group.start@ <= event.end@ + group_gap() <= group.end@
}

/// The group widened by the event.
pub open spec fn widened(group: EventGroup, event: Event) -> EventGroup {
    EventGroup {
        start: if group.start@ < event.start@ {
            group.start
        } else {
            event.start
        },
        end: if group.end@ > event.end@ {
            group.end
        } else {
            event.end
        },
    }
}

/// The groups with one more event: it widens the last group or starts a new one.
pub open spec fn with_event(before: Seq<EventGroup>, event: Event) -> Seq<EventGroup> {
    if before.len() > 0 && joins(before.last(), event) {
        before.update(before.len() - 1, widened(before.last(), event))
    } else {
        before.push(EventGroup::span_of(event))
    }
}

/// The groups of a row of events.
pub open spec fn groups(events: Seq<Event>) -> Seq<EventGroup>
    decreases events.len(),
{
    if events.len() == 0 {
        Seq::empty()
    } else {
        with_event(groups(events.drop_last()), events.last())
    }
}

/// Whether no time runs past the end of the calendar when `event` is held
/// against `group`: the end of an event that does not touch the group is moved
/// on by the gap.
pub open spec fn can_compare(group: EventGroup, event: Event) -> bool {
    touches(group, event) || event.end@ + group_gap() <= MAX_NANOS
}

/// Whether no time runs past the end of the calendar while the events are
/// grouped.
pub open spec fn can_group(events: Seq<Event>) -> bool {
    forall|i: int|
        1 <= i < events.len() ==> can_compare(groups(events.take(i)).last(), #[trigger] events[i])
}

/// Whether the event is over before `from`.
pub open spec fn all_before(event: Event, from: JsonDuration) -> bool {
    event.start@ < from@ && event.end@ < from@
}

/// How many events are looked at: up to and with the first one that is over
/// before `from`.
pub open spec fn looked_at(events: Seq<Event>, from: JsonDuration) -> int
    decreases events.len(),
{
    if events.len() == 0 {
        0
    } else if all_before(events[0], from) {
        1
    } else {
        1 + looked_at(events.drop_first(), from)
    }
}

impl EventGroup {
    /// The span of one event.
    pub fn of_event(event: &Event) -> (r: EventGroup)
        ensures
            r == EventGroup::span_of(*event),
    {
        EventGroup { start: event.start, end: event.end }
    }

    /// Whether the event can be held against the group.
    pub fn can_take(&self, event: &Event) -> (r: bool)
        ensures
            r == can_compare(*self, *event),
    {
        let gap: u128 = 30 * NANOS_PER_SEC;
        (event.start <= self.end && event.start >= self.start) || (event.end <= self.end
            && event.end >= self.start) || event.end.as_nanos() + gap <= MAX_NANOS
    }

    /// Whether the event belongs to the group.
    pub fn takes(&self, event: &Event) -> (r: bool)
        requires
            can_compare(*self, *event),
        ensures
            r == joins(*self, *event),
            r <==> (self.start@ <= event.start@ <= self.end@) || (self.start@ <= event.end@
                <= self.end@) || (self.start@ <= event.end@ + 30_000_000_000 <= self.end@),
    {
        if (event.start <= self.end && event.start >= self.start) || (event.end <= self.end
            && event.end >= self.start) {
            return true;
        }
        let reach: JsonDuration = event.end + JsonDuration::from_secs(30);
        reach <= self.end && reach >= self.start
    }

    /// The group widened by the event.
    pub fn widen(&self, event: &Event) -> (r: EventGroup)
        ensures
            r == widened(*self, *event),
            r.start@ <= self.start@ && r.start@ <= event.start@,
            r.start@ == self.start@ || r.start@ == event.start@,
            r.end@ >= self.end@ && r.end@ >= event.end@,
            r.end@ == self.end@ || r.end@ == event.end@,
    {
        EventGroup {
            start: if self.start < event.start {
                self.start
            } else {
                event.start
            },
            end: if self.end > event.end {
                self.end
            } else {
                event.end
            },
        }
    }
}

/// Which neighbour of a time is looked for.
#[derive(Clone, Copy, PartialEq, Eq, Structural, Debug)]
pub enum Direction {
    Previous,
    Next,
}

/// Whether the group is the one that is being watched at `from`, so that a jump
/// passes it over.
pub open spec fn is_current(group: EventGroup, from: JsonDuration, direction: Direction) -> bool {
    match direction {
        Direction::Previous => group.start@ <= from@ <= group.end@ + jump_slack(),
        Direction::Next => group.start@ - jump_slack() <= from@ <= group.end@,
    }
}

/// The group that a jump ends at: the first one that is not current, or else the
/// last one.
pub open spec fn jump_target(
    all: Seq<EventGroup>,
    from: JsonDuration,
    direction: Direction,
) -> Option<EventGroup>
    decreases all.len(),
{
    if all.len() == 0 {
        None
    } else if all.len() == 1 || !is_current(all[0], from, direction) {
        Some(all[0])
    } else {
        jump_target(all.drop_first(), from, direction)
    }
}

/// Whether a group that is complete is not current, so that the jump is decided.
pub open spec fn decided(all: Seq<EventGroup>, from: JsonDuration, direction: Direction) -> bool {
    exists|j: int| 0 <= j < all.len() - 1 && !is_current(#[trigger] all[j], from, direction)
}

/// Whether no time runs past either end of the calendar when `event` follows
/// `group`.
pub open spec fn can_follow(
    group: EventGroup,
    event: Event,
    from: JsonDuration,
    direction: Direction,
) -> bool {
    &&& can_compare(group, event)
    &&& joins(group, event) || match direction {
        Direction::Previous => group.start@ <= from@ ==> group.end@ + jump_slack() <= MAX_NANOS,
        Direction::Next => jump_slack() <= group.start@,
    }
}

/// Whether no time runs past either end of the calendar until the jump is
/// decided.
pub open spec fn can_jump(events: Seq<Event>, from: JsonDuration, direction: Direction) -> bool {
    forall|i: int|
        1 <= i < events.len() && !decided(groups(events.take(i)), from, direction) ==> can_follow(
            groups(events.take(i)).last(),
            #[trigger] events[i],
            from,
            direction,
        )
}

/// The group that is open after `event`, and whether the jump needs more events.
pub open spec fn after_event(
    pending: Option<EventGroup>,
    event: Event,
    from: JsonDuration,
    direction: Direction,
) -> (Option<EventGroup>, bool) {
    match pending {
        None => (Some(EventGroup::span_of(event)), true),
        Some(group) => if joins(group, event) {
            (Some(widened(group, event)), true)
        } else if is_current(group, from, direction) {
            (Some(EventGroup::span_of(event)), true)
        } else {
            (pending, false)
        },
    }
}

/// A jump from `from` that is under way, and the group that is open.
#[derive(Clone, Copy, PartialEq, Eq, Structural, Debug)]
pub struct Jump {
    pub from: JsonDuration,
    pub direction: Direction,
    pub pending: Option<EventGroup>,
}

impl Jump {
    /// A jump that has seen no event yet.
    pub fn new(from: JsonDuration, direction: Direction) -> (r: Jump)
        ensures
            r == (Jump { from, direction, pending: None }),
    {
        Jump { from, direction, pending: None }
    }

    /// Whether the event can be taken.
    pub fn can_take(&self, event: &Event) -> (r: bool)
        ensures
            r == (self.pending matches Some(group) ==> can_follow(
                group,
                *event,
                self.from,
                self.direction,
            )),
    {
        match self.pending {
            None => true,
            Some(group) => {
                if !group.can_take(event) {
                    return false;
                }
                if group.takes(event) {
                    return true;
                }
                let slack: u128 = 10 * NANOS_PER_SEC;
                match self.direction {
                    Direction::Previous => group.start > self.from || group.end.as_nanos() + slack
                        <= MAX_NANOS,
                    Direction::Next => slack <= group.start.as_nanos(),
                }
            },
        }
    }

    /// Takes the next event; tells whether more events are needed.
    pub fn take(&mut self, event: &Event) -> (more: bool)
        requires
            old(self).pending matches Some(group) ==> can_follow(
                group,
                *event,
                old(self).from,
                old(self).direction,
            ),
        ensures
            final(self).from == old(self).from,
            final(self).direction == old(self).direction,
            (final(self).pending, more) == after_event(
                old(self).pending,
                *event,
                old(self).from,
                old(self).direction,
            ),
    {
        match self.pending {
            None => {
                self.pending = Some(EventGroup::of_event(event));
                true
            },
            Some(group) => {
                if group.takes(event) {
                    self.pending = Some(group.widen(event));
                    return true;
                }
                let slack: JsonDuration = JsonDuration::from_secs(10);
                let current: bool = match self.direction {
                    Direction::Previous => group.start <= self.from && group.end + slack
                        >= self.from,
                    Direction::Next => group.start - slack <= self.from && group.end >= self.from,
                };
                if current {
                    self.pending = Some(EventGroup::of_event(event));
                }
                current
            },
        }
    }
}

/// Events that come later leave the groups that are complete alone.
pub proof fn complete_groups_stay(events: Seq<Event>, i: int)
    requires
        0 <= i <= events.len(),
    ensures
        groups(events.take(i)).len() <= groups(events).len(),
        forall|j: int|
            0 <= j < groups(events.take(i)).len() - 1 ==> #[trigger] groups(events)[j] == groups(
                events.take(i),
            )[j],
        i > 0 ==> groups(events.take(i)).len() > 0,
    decreases events.len() - i,
{
    let now = groups(events.take(i));
    if i < events.len() {
        let next = groups(events.take(i + 1));
        assert(events.take(i + 1).drop_last() == events.take(i));
        assert(next == with_event(now, events[i]));
        complete_groups_stay(events, i + 1);
    } else {
        assert(events.take(i) == events);
    }
    if i > 0 {
        assert(events.take(i).drop_last() == events.take(i - 1));
        assert(now == with_event(groups(events.take(i - 1)), events[i - 1]));
    }
}

/// A jump ends at the first group that is not current: all groups before it are.
proof fn lemma_target_after_current(
    all: Seq<EventGroup>,
    k: int,
    from: JsonDuration,
    direction: Direction,
)
    requires
        0 <= k < all.len(),
        forall|j: int| 0 <= j < k ==> is_current(#[trigger] all[j], from, direction),
        k == all.len() - 1 || !is_current(all[k], from, direction),
    ensures
        jump_target(all, from, direction) == Some(all[k]),
    decreases k,
{
    if k > 0 {
        let rest = all.drop_first();
        assert forall|j: int| 0 <= j < k - 1 implies is_current(
            #[trigger] rest[j],
            from,
            direction,
        ) by {
            assert(rest[j] == all[j + 1]);
        }
        lemma_target_after_current(rest, k - 1, from, direction);
        assert(is_current(all[0], from, direction));
    }
}

/// What the event at `i` does to a jump that is not decided before it.
proof fn lemma_jump_event(events: Seq<Event>, i: int, from: JsonDuration, direction: Direction)
    requires
        0 <= i < events.len(),
        !decided(groups(events.take(i)), from, direction),
    ensures
        groups(events.take(i + 1)) == with_event(groups(events.take(i)), events[i]),
        groups(events.take(i + 1)).len() > 0,
        i > 0 ==> groups(events.take(i)).len() > 0,
        ({
            let now = groups(events.take(i));
            if now.len() == 0 || joins(now.last(), events[i]) || is_current(
                now.last(),
                from,
                direction,
            ) {
                !decided(groups(events.take(i + 1)), from, direction)
            } else {
                jump_target(groups(events), from, direction) == Some(now.last())
            }
        }),
{
    let now = groups(events.take(i));
    let next = groups(events.take(i + 1));
    assert(events.take(i + 1).drop_last() == events.take(i));
    complete_groups_stay(events, i);
    if now.len() == 0 || joins(now.last(), events[i]) || is_current(now.last(), from, direction) {
        assert forall|j: int| 0 <= j < next.len() - 1 implies is_current(
            #[trigger] next[j],
            from,
            direction,
        ) by {
            assert(next[j] == now[j]);
        }
    } else {
        complete_groups_stay(events, i + 1);
        let all = groups(events);
        let k = now.len() - 1;
        assert forall|j: int| 0 <= j < k implies is_current(
            #[trigger] all[j],
            from,
            direction,
        ) by {
            assert(all[j] == next[j]);
            assert(next[j] == now[j]);
        }
        assert(all[k] == next[k]);
        lemma_target_after_current(all, k, from, direction);
    }
}

/// Follows a jump from `from` along the events that the store gave.
pub fn jump(events: &Vec<Event>, from: JsonDuration, direction: Direction) -> (r: Option<
    EventGroup,
>)
    requires
        can_jump(events@, from, direction),
    ensures
        r == jump_target(groups(events@), from, direction),
{
    let mut state: Jump = Jump::new(from, direction);
    let mut i: usize = 0;
    let ghost mut now: Seq<EventGroup> = Seq::empty();
    assert(events@.take(0) == Seq::<Event>::empty());
    while i < events.len()
        invariant
            i <= events.len(),
            can_jump(events@, from, direction),
            state.from == from,
            state.direction == direction,
            now == groups(events@.take(i as int)),
            state.pending == (if now.len() == 0 {
                None
            } else {
                Some(now.last())
            }),
            !decided(now, from, direction),
        decreases events.len() - i,
    {
        proof {
            lemma_jump_event(events@, i as int, from, direction);
            assert(i >= 1 ==> can_follow(now.last(), events@[i as int], from, direction));
            if i == 0 {
                assert(events@.take(0) == Seq::<Event>::empty());
            }
        }
        if !state.take(&events[i]) {
            return state.pending;
        }
        proof {
            now = groups(events@.take(i + 1));
        }
        i += 1;
    }
    proof {
        assert(events@.take(i as int) == events@);
        if now.len() > 0 {
            lemma_target_after_current(now, now.len() - 1, from, direction);
        }
    }
    state.pending
}

/// A row of events being grouped; the last group is still open.
#[derive(Debug)]
pub struct Grouping {
    pub groups: Vec<EventGroup>,
}

impl Grouping {
    /// No event yet.
    pub fn new() -> (r: Grouping)
        ensures
            r.groups@ == groups(Seq::empty()),
    {
        Grouping { groups: Vec::new() }
    }

    /// Whether the event can be taken.
    pub fn can_take(&self, event: &Event) -> (r: bool)
        ensures
            r == (self.groups@.len() > 0 ==> can_compare(self.groups@.last(), *event)),
    {
        let len: usize = self.groups.len();
        len == 0 || self.groups[len - 1].can_take(event)
    }

    /// Takes the next event.
    pub fn take(&mut self, event: &Event)
        requires
            old(self).groups@.len() > 0 ==> can_compare(old(self).groups@.last(), *event),
        ensures
            final(self).groups@ == with_event(old(self).groups@, *event),
    {
        let len: usize = self.groups.len();
        if len > 0 && self.groups[len - 1].takes(event) {
            let wider: EventGroup = self.groups[len - 1].widen(event);
            self.groups.set(len - 1, wider);
        } else {
            self.groups.push(EventGroup::of_event(event));
        }
    }
}

/// Whether the event is over before `from`.
pub fn over_before(event: &Event, from: JsonDuration) -> (r: bool)
    ensures
        r == all_before(*event, from),
{
    event.start < from && event.end < from
}

proof fn lemma_looked_at_bounds(events: Seq<Event>, from: JsonDuration)
    ensures
        0 <= looked_at(events, from) <= events.len(),
        forall|i: int|
            0 <= i < looked_at(events, from) - 1 ==> !all_before(#[trigger] events[i], from),
        looked_at(events, from) < events.len() ==> looked_at(events, from) > 0 && all_before(
            events[looked_at(events, from) - 1],
            from,
        ),
    decreases events.len(),
{
    if events.len() > 0 && !all_before(events[0], from) {
        let rest = events.drop_first();
        lemma_looked_at_bounds(rest, from);
        assert forall|i: int| 0 <= i < looked_at(events, from) - 1 implies !all_before(
            #[trigger] events[i],
            from,
        ) by {
            if i > 0 {
                assert(events[i] == rest[i - 1]);
            }
        }
    }
}

/// Groups the events that the store gave, newest end first, until one is over
/// before `from`.
pub fn group_range(events: &Vec<Event>, from: JsonDuration) -> (r: Vec<EventGroup>)
    requires
        can_group(events@.take(looked_at(events@, from))),
    ensures
        r@ == groups(events@.take(looked_at(events@, from))),
{
    let mut state: Grouping = Grouping::new();
    let mut i: usize = 0;
    let ghost seen = events@.take(looked_at(events@, from));
    proof {
        lemma_looked_at_bounds(events@, from);
        assert(seen.take(0) == Seq::<Event>::empty());
    }
    while i < events.len()
        invariant
            i <= looked_at(events@, from) <= events@.len(),
            seen == events@.take(looked_at(events@, from)),
            can_group(seen),
            state.groups@ == groups(seen.take(i as int)),
            i < looked_at(events@, from) || i == events@.len(),
        decreases events.len() - i,
    {
        proof {
            lemma_looked_at_bounds(events@, from);
            assert(seen.take(i + 1).drop_last() == seen.take(i as int));
            assert(seen[i as int] == events@[i as int]);
            if i == 0 {
                assert(seen.take(0) == Seq::<Event>::empty());
            }
        }
        state.take(&events[i]);
        if over_before(&events[i], from) {
            assert(looked_at(events@, from) == i + 1);
            assert(seen.take(i + 1) == seen);
            return state.groups;
        }
        i += 1;
        proof {
            if i == looked_at(events@, from) && i < events@.len() {
                assert(all_before(events@[i - 1], from));
            }
        }
    }
    assert(seen.take(i as int) == seen);
    state.groups
}

/// Whether the group covers the event.
pub open spec fn covers(group: EventGroup, event: Event) -> bool {
    group.start@ <= event.start@ && event.end@ <= group.end@
}

/// Every event is covered by one of the groups.
pub proof fn every_event_is_covered(events: Seq<Event>, i: int)
    requires
        0 <= i < events.len(),
    ensures
        exists|j: int| 0 <= j < groups(events).len() && covers(#[trigger] groups(events)[j], events[i]),
    decreases events.len(),
{
    let before = groups(events.drop_last());
    let all = groups(events);
    if i == events.len() - 1 {
        assert(covers(all[all.len() - 1], events[i]));
    } else {
        every_event_is_covered(events.drop_last(), i);
        let j = choose|j: int|
            0 <= j < before.len() && covers(#[trigger] before[j], events.drop_last()[i]);
        assert(covers(all[j], events[i]));
    }
}

/// A group is no wider than its events: it starts when one of the events starts
/// and ends when one of them ends.
pub proof fn groups_are_tight(events: Seq<Event>, j: int)
    requires
        0 <= j < groups(events).len(),
    ensures
        exists|i: int| 0 <= i < events.len() && #[trigger] events[i].start == groups(events)[j].start,
        exists|i: int| 0 <= i < events.len() && #[trigger] events[i].end == groups(events)[j].end,
    decreases events.len(),
{
    if events.len() > 0 {
        let rest = events.drop_last();
        let before = groups(rest);
        let all = groups(events);
        let last = events.len() - 1;
        if j < before.len() {
            groups_are_tight(rest, j);
            let s = choose|i: int| 0 <= i < rest.len() && #[trigger] rest[i].start == before[j].start;
            let e = choose|i: int| 0 <= i < rest.len() && #[trigger] rest[i].end == before[j].end;
            assert(events[s] == rest[s] && events[e] == rest[e]);
            assert(events[last] == events.last());
            if all[j].start == before[j].start {
                assert(events[s].start == all[j].start);
            } else {
                assert(events[last].start == all[j].start);
            }
            if all[j].end == before[j].end {
                assert(events[e].end == all[j].end);
            } else {
                assert(events[last].end == all[j].end);
            }
        } else {
            assert(events[last].start == all[j].start && events[last].end == all[j].end);
        }
    }
}

/// Whether none of the events ends later than the one before it.
pub open spec fn ends_go_back(events: Seq<Event>) -> bool {
    forall|i: int, j: int|
        0 <= i <= j < events.len() ==> #[trigger] events[j].end@ <= #[trigger] events[i].end@
}

/// Whether the events come in the order that a range and a jump back ask for:
/// none ends later than the one before it, and none ends before it starts.
pub open spec fn newest_end_first(events: Seq<Event>) -> bool {
    &&& ends_go_back(events)
    &&& forall|i: int| 0 <= i < events.len() ==> (#[trigger] events[i]).start@ <= events[i].end@
}

/// Whether the events come in the order that a jump forward asks for: none starts
/// before the one before it, and none ends before it starts.
pub open spec fn oldest_start_first(events: Seq<Event>) -> bool {
    &&& forall|i: int, j: int| 0 <= i <= j < events.len() ==> #[trigger] events[i].start@ <= #[trigger] events[j].start@
    &&& forall|i: int| 0 <= i < events.len() ==> (#[trigger] events[i]).start@ <= events[i].end@
}

/// Of events with the newest end first, each group lies wholly before the one
/// that precedes it.
pub proof fn groups_go_back(events: Seq<Event>)
    requires
        newest_end_first(events),
    ensures
        forall|a: int, b: int|
            0 <= a < b < groups(events).len() ==> #[trigger] groups(events)[b].end@ < #[trigger] groups(
                events,
            )[a].start@,
        forall|a: int|
            0 <= a < groups(events).len() ==> (#[trigger] groups(events)[a]).start@ <= groups(
                events,
            )[a].end@,
    decreases events.len(),
{
    if events.len() > 0 {
        let rest = events.drop_last();
        let before = groups(rest);
        let all = groups(events);
        let event = events.last();
        groups_go_back(rest);
        if before.len() > 0 {
            let open = before.last();
            groups_are_tight(rest, before.len() - 1);
            let e = choose|i: int| 0 <= i < rest.len() && #[trigger] rest[i].end == open.end;
            assert(events[e] == rest[e]);
            assert(events[events.len() - 1].end@ <= events[e].end@);
            assert(event.end@ <= open.end@);
            if joins(open, event) {
                assert forall|a: int, b: int| 0 <= a < b < all.len() implies #[trigger] all[b].end@
                    < #[trigger] all[a].start@ by {
                    assert(before[b].end@ < before[a].start@);
                }
            } else {
                assert(event.end@ < open.start@);
                assert forall|a: int, b: int| 0 <= a < b < all.len() implies #[trigger] all[b].end@
                    < #[trigger] all[a].start@ by {
                    if b == all.len() - 1 && a < before.len() - 1 {
                        assert(before[before.len() - 1].end@ < before[a].start@);
                    }
                }
            }
        }
    }
}

/// Of events with the oldest start first, each group lies wholly after the one
/// that precedes it.
pub proof fn groups_go_forward(events: Seq<Event>)
    requires
        oldest_start_first(events),
    ensures
        forall|a: int, b: int|
            0 <= a < b < groups(events).len() ==> #[trigger] groups(events)[a].end@ < #[trigger] groups(
                events,
            )[b].start@,
        forall|a: int|
            0 <= a < groups(events).len() ==> (#[trigger] groups(events)[a]).start@ <= groups(
                events,
            )[a].end@,
    decreases events.len(),
{
    if events.len() > 0 {
        let rest = events.drop_last();
        let before = groups(rest);
        let all = groups(events);
        let event = events.last();
        groups_go_forward(rest);
        if before.len() > 0 {
            let open = before.last();
            groups_are_tight(rest, before.len() - 1);
            let s = choose|i: int| 0 <= i < rest.len() && #[trigger] rest[i].start == open.start;
            assert(events[s] == rest[s]);
            assert(events[s].start@ <= events[events.len() - 1].start@);
            assert(open.start@ <= event.start@);
            if joins(open, event) {
                assert(widened(open, event).start@ == open.start@);
                assert forall|a: int, b: int| 0 <= a < b < all.len() implies #[trigger] all[a].end@
                    < #[trigger] all[b].start@ by {
                    assert(before[a].end@ < before[b].start@);
                }
            } else {
                assert(open.end@ < event.start@);
                assert forall|a: int, b: int| 0 <= a < b < all.len() implies #[trigger] all[a].end@
                    < #[trigger] all[b].start@ by {
                    if b == all.len() - 1 && a < before.len() - 1 {
                        assert(before[a].end@ < before[before.len() - 1].start@);
                    }
                }
            }
        }
    }
}

/// A range leaves nothing out: of events with the newest end first, each one that
/// does not end before `from` is covered by a group of the range.
pub proof fn range_is_complete(events: Seq<Event>, from: JsonDuration, i: int)
    requires
        ends_go_back(events),
        0 <= i < events.len(),
        from@ <= events[i].end@,
    ensures
        exists|j: int|
            0 <= j < groups(events.take(looked_at(events, from))).len() && covers(
                #[trigger] groups(events.take(looked_at(events, from)))[j],
                events[i],
            ),
{
    lemma_looked_at_bounds(events, from);
    let seen = events.take(looked_at(events, from));
    if i >= seen.len() {
        assert(events[i].end@ <= events[looked_at(events, from) - 1].end@);
    }
    assert(seen[i] == events[i]);
    every_event_is_covered(seen, i);
}

/// A jump finds something exactly when there is an event, what it finds is a
/// group of the events, and it is a current one only if all groups are.
pub proof fn jump_passes_over_current(events: Seq<Event>, from: JsonDuration, direction: Direction)
    ensures
        jump_target(groups(events), from, direction) is None <==> events.len() == 0,
        jump_target(groups(events), from, direction) matches Some(group) ==> {
            &&& exists|k: int| 0 <= k < groups(events).len() && #[trigger] groups(events)[k] == group
            &&& is_current(group, from, direction) ==> forall|k: int|
                0 <= k < groups(events).len() ==> is_current(
                    #[trigger] groups(events)[k],
                    from,
                    direction,
                )
        },
{
    complete_groups_stay(events, events.len() as int);
    assert(events.take(events.len() as int) == events);
    lemma_target_is_group(groups(events), from, direction);
}

proof fn lemma_target_is_group(all: Seq<EventGroup>, from: JsonDuration, direction: Direction)
    ensures
        jump_target(all, from, direction) is None <==> all.len() == 0,
        jump_target(all, from, direction) matches Some(group) ==> {
            &&& exists|k: int| 0 <= k < all.len() && #[trigger] all[k] == group
            &&& is_current(group, from, direction) ==> forall|k: int|
                0 <= k < all.len() ==> is_current(#[trigger] all[k], from, direction)
        },
    decreases all.len(),
{
    if all.len() > 1 && is_current(all[0], from, direction) {
        let rest = all.drop_first();
        lemma_target_is_group(rest, from, direction);
        let group = jump_target(rest, from, direction)->0;
        let k = choose|k: int| 0 <= k < rest.len() && #[trigger] rest[k] == group;
        assert(all[k + 1] == group);
        if is_current(group, from, direction) {
            assert forall|m: int| 0 <= m < all.len() implies is_current(
                #[trigger] all[m],
                from,
                direction,
            ) by {
                if m > 0 {
                    assert(rest[m - 1] == all[m]);
                }
            }
        }
    }
}

/// Whether each of the events ends earlier than the one before it.
pub open spec fn ends_fall(events: Seq<Event>) -> bool {
    forall|i: int, j: int|
        0 <= i < j < events.len() ==> #[trigger] events[j].end@ < #[trigger] events[i].end@
}

/// Whether a range from `from` on depends on the event: it is one of the events,
/// and does not end before `from`, or none of those that do ends later.
pub open spec fn matters(events: Seq<Event>, event: Event, from: JsonDuration) -> bool {
    &&& events.contains(event)
    &&& from@ <= event.end@ || forall|k: int|
        0 <= k < events.len() && (#[trigger] events[k]).end@ < from@ ==> events[k].end@ <= event.end@
}

/// A range depends only on the events that do not end before its start, and on the
/// last one that does. If all do, it is the span of that one.
pub proof fn range_needs_few_events(events: Seq<Event>, few: Seq<Event>, from: JsonDuration)
    requires
        ends_fall(events),
        ends_fall(few),
        forall|i: int| 0 <= i < events.len() ==> (#[trigger] events[i]).start@ <= events[i].end@,
        forall|event: Event| #[trigger] few.contains(event) <==> matters(events, event, from),
    ensures
        groups(few.take(looked_at(few, from))) == groups(events.take(looked_at(events, from))),
        events.len() > 0 && events[0].end@ < from@ ==> groups(
            events.take(looked_at(events, from)),
        ) == seq![EventGroup::span_of(events[0])],
{
    let n = looked_at(events, from);
    let seen = events.take(n);
    lemma_looked_at_bounds(events, from);
    lemma_looked_at_bounds(few, from);
    assert forall|i: int, j: int| 0 <= i < j < seen.len() implies #[trigger] seen[j].end@
        < #[trigger] seen[i].end@ by {
        assert(events[j].end@ < events[i].end@);
    }
    assert forall|event: Event| #[trigger] few.contains(event) <==> seen.contains(event) by {
        lemma_seen_matters(events, event, from);
    }
    lemma_same_order(few, seen);
    if looked_at(few, from) < few.len() {
        assert(few[looked_at(few, from) - 1] == events[looked_at(few, from) - 1]);
    }
    assert(few.take(looked_at(few, from)) == few);
    if events.len() > 0 && events[0].end@ < from@ {
        assert(all_before(events[0], from));
        assert(n == 1);
        assert(seen.drop_last() == Seq::<Event>::empty());
        assert(groups(seen.drop_last()) == Seq::<EventGroup>::empty());
        assert(seen.last() == events[0]);
        assert(groups(seen) =~= seq![EventGroup::span_of(events[0])]);
    }
}

proof fn lemma_seen_matters(events: Seq<Event>, event: Event, from: JsonDuration)
    requires
        ends_fall(events),
        forall|i: int| 0 <= i < events.len() ==> (#[trigger] events[i]).start@ <= events[i].end@,
    ensures
        matters(events, event, from) <==> events.take(looked_at(events, from)).contains(event),
{
    let n = looked_at(events, from);
    let seen = events.take(n);
    lemma_looked_at_bounds(events, from);
    if seen.contains(event) {
        let i = choose|i: int| 0 <= i < seen.len() && seen[i] == event;
        assert(events[i] == event);
        if event.end@ < from@ {
            assert forall|k: int| 0 <= k < events.len() && (#[trigger] events[k]).end@
                < from@ implies events[k].end@ <= event.end@ by {
                assert(events[i].start@ <= events[i].end@);
                assert(events[k].start@ <= events[k].end@);
                if k < n - 1 {
                    assert(!all_before(events[k], from));
                }
                if i < n - 1 {
                    assert(!all_before(events[i], from));
                }
                if i < k {
                    assert(events[k].end@ < events[i].end@);
                }
            }
        }
    }
    if matters(events, event, from) {
        let i = choose|i: int| 0 <= i < events.len() && events[i] == event;
        if i >= n {
            assert(all_before(events[n - 1], from));
            assert(events[i].end@ < events[n - 1].end@);
            assert(false);
        }
        assert(seen[i] == event);
    }
}

/// Events whose ends fall come in one order only.
proof fn lemma_same_order(a: Seq<Event>, b: Seq<Event>)
    requires
        ends_fall(a),
        ends_fall(b),
        forall|event: Event| #[trigger] a.contains(event) <==> b.contains(event),
    ensures
        a == b,
    decreases a.len(),
{
    if a.len() == 0 {
        if b.len() > 0 {
            assert(b.contains(b[0]));
            assert(a.contains(b[0]));
        }
    } else {
        assert(a.contains(a[0]));
        let j = choose|j: int| 0 <= j < b.len() && b[j] == a[0];
        assert(b.contains(b[0]));
        assert(a.contains(b[0]));
        let i = choose|i: int| 0 <= i < a.len() && a[i] == b[0];
        if i > 0 {
            assert(a[i].end@ < a[0].end@);
            if j > 0 {
                assert(b[j].end@ < b[0].end@);
            }
        }
        assert(a[0] == b[0]);
        let x = a.drop_first();
        let y = b.drop_first();
        assert forall|p: int, q: int| 0 <= p < q < x.len() implies #[trigger] x[q].end@
            < #[trigger] x[p].end@ by {
            assert(a[q + 1].end@ < a[p + 1].end@);
        }
        assert forall|p: int, q: int| 0 <= p < q < y.len() implies #[trigger] y[q].end@
            < #[trigger] y[p].end@ by {
            assert(b[q + 1].end@ < b[p + 1].end@);
        }
        assert forall|event: Event| #[trigger] x.contains(event) <==> y.contains(event) by {
            lemma_rest_contains(a, event);
            lemma_rest_contains(b, event);
            assert(a.contains(event) <==> b.contains(event));
        }
        lemma_same_order(x, y);
        assert(a == seq![a[0]] + x);
        assert(b == seq![b[0]] + y);
    }
}

proof fn lemma_rest_contains(events: Seq<Event>, event: Event)
    requires
        ends_fall(events),
        events.len() > 0,
    ensures
        events.drop_first().contains(event) <==> events.contains(event) && event.end@ < events[0].end@,
{
    let rest = events.drop_first();
    if rest.contains(event) {
        let i = choose|i: int| 0 <= i < rest.len() && rest[i] == event;
        assert(events[i + 1] == event);
        assert(events[i + 1].end@ < events[0].end@);
    }
    if events.contains(event) && event.end@ < events[0].end@ {
        let i = choose|i: int| 0 <= i < events.len() && events[i] == event;
        assert(rest[i - 1] == event);
    }
}

/// A jump back goes along the range up to the same time: of the groups of the
/// range from the very start on, it ends at the first one that ends more than ten
/// seconds before `from`, or else at the last one. It finds nothing exactly when
/// there is no group.
pub proof fn jump_back_goes_along_range(events: Seq<Event>, start: JsonDuration, from: JsonDuration)
    requires
        start@ == 0,
        forall|i: int| 0 <= i < events.len() ==> (#[trigger] events[i]).start@ <= events[i].end@,
        forall|i: int| 0 <= i < events.len() ==> (#[trigger] events[i]).start@ < from@ || events[i].end@
            < from@,
    ensures
        ({
            let range = groups(events.take(looked_at(events, start)));
            match jump_target(groups(events), from, Direction::Previous) {
                None => range.len() == 0,
                Some(group) => exists|k: int| #[trigger] jump_ends_at(range, from, k) && range[k] == group,
            }
        }),
{
    lemma_looked_at_bounds(events, start);
    if looked_at(events, start) < events.len() {
        assert(all_before(events[looked_at(events, start) - 1], start));
    }
    assert(events.take(looked_at(events, start)) == events);
    let range = groups(events);
    assert forall|k: int| 0 <= k < range.len() implies (#[trigger] range[k]).start@ < from@ by {
        groups_are_tight(events, k);
        let i = choose|i: int| 0 <= i < events.len() && #[trigger] events[i].start == range[k].start;
        assert(events[i].start@ <= events[i].end@);
    }
    lemma_jump_stops(range, from);
}

/// Whether a jump back from `from` along the groups ends at the one at `k`.
pub open spec fn jump_ends_at(range: Seq<EventGroup>, from: JsonDuration, k: int) -> bool {
    &&& 0 <= k < range.len()
    &&& forall|j: int| 0 <= j < k ==> (#[trigger] range[j]).end@ + 10_000_000_000 >= from@
    &&& range[k].end@ + 10_000_000_000 < from@ || k == range.len() - 1
}

proof fn lemma_jump_stops(range: Seq<EventGroup>, from: JsonDuration)
    requires
        forall|k: int| 0 <= k < range.len() ==> (#[trigger] range[k]).start@ < from@,
    ensures
        match jump_target(range, from, Direction::Previous) {
            None => range.len() == 0,
            Some(group) => exists|k: int| #[trigger] jump_ends_at(range, from, k) && range[k] == group,
        },
    decreases range.len(),
{
    if range.len() > 0 {
        let first = range[0];
        assert(first.start@ < from@);
        if range.len() == 1 || !is_current(first, from, Direction::Previous) {
            assert(jump_ends_at(range, from, 0));
        } else {
            let rest = range.drop_first();
            assert forall|k: int| 0 <= k < rest.len() implies (#[trigger] rest[k]).start@ < from@ by {
                assert(rest[k] == range[k + 1]);
            }
            lemma_jump_stops(rest, from);
            let group = jump_target(rest, from, Direction::Previous)->0;
            let k = choose|k: int| #[trigger] jump_ends_at(rest, from, k) && rest[k] == group;
            assert forall|j: int| 0 <= j < k + 1 implies (#[trigger] range[j]).end@ + 10_000_000_000
                >= from@ by {
                if j > 0 {
                    assert(range[j] == rest[j - 1]);
                }
            }
            assert(range[k + 1] == rest[k]);
            assert(jump_ends_at(range, from, k + 1));
        }
    }
}

/// Grouping event by event, until one is over before `from`, gives the groups of
/// the range. `states` is what is grouped before each event and at the end. If each
/// event could be taken, the range could be grouped.
pub proof fn steps_give_the_range(
    events: Seq<Event>,
    from: JsonDuration,
    states: Seq<Seq<EventGroup>>,
    n: int,
)
    requires
        0 <= n <= events.len(),
        states.len() == n + 1,
        states[0] == groups(Seq::empty()),
        forall|i: int| 0 <= i < n ==> states[i + 1] == with_event(states[i], #[trigger] events[i]),
        forall|i: int| 0 <= i < n - 1 ==> !all_before(#[trigger] events[i], from),
        n == events.len() || (n > 0 && all_before(events[n - 1], from)),
    ensures
        looked_at(events, from) == n,
        states[n] == groups(events.take(looked_at(events, from))),
        (forall|i: int|
            1 <= i < n ==> can_compare(states[i].last(), #[trigger] events[i])) ==> can_group(
            events.take(looked_at(events, from)),
        ),
{
    lemma_looked_at_bounds(events, from);
    let m = looked_at(events, from);
    if m < n {
        assert(m > 0 && all_before(events[m - 1], from));
    }
    if n < m {
        assert(!all_before(events[n - 1], from));
    }
    lemma_steps(events, states, n);
    let seen = events.take(n);
    if forall|i: int| 1 <= i < n ==> can_compare(states[i].last(), #[trigger] events[i]) {
        assert forall|i: int| 1 <= i < seen.len() implies can_compare(
            groups(seen.take(i)).last(),
            #[trigger] seen[i],
        ) by {
            assert(seen[i] == events[i]);
            assert(seen.take(i) == events.take(i));
            lemma_steps(events, states, i);
        }
    }
}

proof fn lemma_steps(events: Seq<Event>, states: Seq<Seq<EventGroup>>, i: int)
    requires
        0 <= i < states.len(),
        states.len() <= events.len() + 1,
        states[0] == groups(Seq::empty()),
        forall|k: int|
            0 <= k < states.len() - 1 ==> states[k + 1] == with_event(states[k], #[trigger] events[k]),
    ensures
        states[i] == groups(events.take(i)),
    decreases i,
{
    if i == 0 {
        assert(events.take(0) == Seq::<Event>::empty());
    } else {
        lemma_steps(events, states, i - 1);
        assert(events.take(i).drop_last() == events.take(i - 1));
        assert(states[i - 1 + 1] == with_event(states[i - 1], events[i - 1]));
    }
}

/// Jumping event by event, until no more events are needed, ends where the jump
/// ends. `states` is the group that is open before each event and at the end. If
/// each event could be taken, the jump could be followed.
pub proof fn steps_give_the_jump(
    events: Seq<Event>,
    from: JsonDuration,
    direction: Direction,
    states: Seq<Option<EventGroup>>,
    n: int,
)
    requires
        0 <= n <= events.len(),
        states.len() == n + 1,
        states[0] is None,
        forall|i: int|
            0 <= i < n ==> states[i + 1] == after_event(
                states[i],
                #[trigger] events[i],
                from,
                direction,
            ).0,
        forall|i: int|
            0 <= i < n - 1 ==> after_event(states[i], #[trigger] events[i], from, direction).1,
        n == events.len() || (n > 0 && !after_event(
            states[n - 1],
            events[n - 1],
            from,
            direction,
        ).1),
    ensures
        states[n] == jump_target(groups(events), from, direction),
        (forall|i: int|
            1 <= i < n ==> can_follow(states[i]->0, #[trigger] events[i], from, direction))
            ==> can_jump(events, from, direction),
{
    if forall|i: int|
        1 <= i < n ==> can_follow(states[i]->0, #[trigger] events[i], from, direction) {
        assert forall|i: int|
            1 <= i < events.len() && !decided(
                groups(events.take(i)),
                from,
                direction,
            ) implies can_follow(
            groups(events.take(i)).last(),
            #[trigger] events[i],
            from,
            direction,
        ) by {
            if i < n {
                lemma_jump_steps(events, from, direction, states, i);
            } else {
                lemma_jump_steps(events, from, direction, states, n - 1);
                lemma_jump_event(events, n - 1, from, direction);
                let now = groups(events.take(n - 1));
                let later = events.take(i);
                assert(later.take(n) == events.take(n));
                complete_groups_stay(later, n);
                assert(groups(later)[now.len() - 1] == now.last());
            }
        }
    }
    if n == 0 {
        assert(events == Seq::<Event>::empty());
    } else {
        let k = n - 1;
        lemma_jump_steps(events, from, direction, states, k);
        lemma_jump_event(events, k, from, direction);
        assert(states[k + 1] == after_event(states[k], events[k], from, direction).0);
        if after_event(states[k], events[k], from, direction).1 {
            assert(events.take(n) == events);
            let all = groups(events);
            lemma_target_after_current(all, all.len() - 1, from, direction);
        }
    }
}

proof fn lemma_jump_steps(
    events: Seq<Event>,
    from: JsonDuration,
    direction: Direction,
    states: Seq<Option<EventGroup>>,
    k: int,
)
    requires
        0 <= k < events.len(),
        k < states.len(),
        states[0] is None,
        forall|i: int|
            0 <= i < k ==> states[i + 1] == after_event(
                states[i],
                #[trigger] events[i],
                from,
                direction,
            ).0,
        forall|i: int| 0 <= i < k ==> after_event(states[i], #[trigger] events[i], from, direction).1,
    ensures
        !decided(groups(events.take(k)), from, direction),
        states[k] == (if k == 0 {
            None
        } else {
            Some(groups(events.take(k)).last())
        }),
        k > 0 ==> groups(events.take(k)).len() > 0,
        k == 0 ==> groups(events.take(k)).len() == 0,
    decreases k,
{
    if k == 0 {
        assert(events.take(0) == Seq::<Event>::empty());
    } else {
        lemma_jump_steps(events, from, direction, states, k - 1);
        lemma_jump_event(events, k - 1, from, direction);
        assert(states[k - 1 + 1] == after_event(states[k - 1], events[k - 1], from, direction).0);
        assert(after_event(states[k - 1], events[k - 1], from, direction).1);
    }
}

/// An event widens the last group if it starts or ends within it, or ends half a
/// minute before a time within it, however long it is, and starts a group of its
/// own if not. A group that is widened goes from the earlier start to the later
/// end; no other group changes.
pub proof fn event_widens_or_starts(before: Seq<EventGroup>, event: Event)
    ensures
        ({
            let after = with_event(before, event);
            let last = before.last();
            if before.len() > 0 && ((last.start@ <= event.start@ && event.start@ <= last.end@) || (
            last.start@ <= event.end@ && event.end@ <= last.end@) || (last.start@ <= event.end@
                + 30_000_000_000 && event.end@ + 30_000_000_000 <= last.end@)) {
                &&& after.len() == before.len()
                &&& forall|j: int| 0 <= j < before.len() - 1 ==> #[trigger] after[j] == before[j]
                &&& after.last().start@ == if event.start@ < last.start@ {
                    event.start@
                } else {
                    last.start@
                }
                &&& after.last().end@ == if event.end@ > last.end@ {
                    event.end@
                } else {
                    last.end@
                }
            } else {
                &&& after.len() == before.len() + 1
                &&& forall|j: int| 0 <= j < before.len() ==> #[trigger] after[j] == before[j]
                &&& after.last().start@ == event.start@
                &&& after.last().end@ == event.end@
            }
        }),
{
}

/// Events are grouped one after the other: no events have no groups, and one more
/// event is taken into the groups of those before it.
pub proof fn groups_grow_event_by_event(events: Seq<Event>, event: Event)
    ensures
        groups(Seq::<Event>::empty()).len() == 0,
        groups(events.push(event)) == with_event(groups(events), event),
{
    assert(events.push(event).drop_last() == events);
}

/// Of two events, the second of which is over when the first one starts, the two
/// are one span exactly when the end of the second moved on by half a minute lies
/// within the first, whatever the length of the second.
pub proof fn two_events_are_one_span(first: Event, second: Event)
    requires
        first.start@ <= first.end@,
        second.start@ <= second.end@,
        second.end@ < first.start@,
    ensures
        ({
            let all = groups(seq![first, second]);
            if first.start@ <= second.end@ + 30_000_000_000 && second.end@ + 30_000_000_000
                <= first.end@ {
                &&& all.len() == 1
                &&& all[0].start@ == second.start@
                &&& all[0].end@ == first.end@
            } else {
                &&& all.len() == 2
                &&& all[0].start@ == first.start@ && all[0].end@ == first.end@
                &&& all[1].start@ == second.start@ && all[1].end@ == second.end@
            }
        }),
{
    let none = Seq::<Event>::empty();
    groups_grow_event_by_event(none, first);
    groups_grow_event_by_event(none.push(first), second);
    assert(none.push(first).push(second) == seq![first, second]);
    event_widens_or_starts(groups(none), first);
    event_widens_or_starts(groups(none.push(first)), second);
}

/// Whether the event at `i` began the group at `k`.
pub open spec fn begins_group(events: Seq<Event>, i: int, k: int) -> bool {
    &&& 0 <= i < events.len()
    &&& groups(events.take(i)).len() == k
    &&& groups(events.take(i + 1)).len() == k + 1
}

/// Two groups in a row are kept apart only where they have to be: the event that
/// began the later one neither starts nor ends within the earlier one, and its end
/// moved on by half a minute does not lie within it.
pub proof fn groups_are_kept_apart(events: Seq<Event>, k: int)
    requires
        0 <= k,
        k + 1 < groups(events).len(),
    ensures
        exists|i: int| #[trigger]
            begins_group(events, i, k + 1) && ({
                let group = groups(events)[k];
                let event = events[i];
                &&& !(group.start@ <= event.start@ && event.start@ <= group.end@)
                &&& !(group.start@ <= event.end@ && event.end@ <= group.end@)
                &&& !(group.start@ <= event.end@ + 30_000_000_000 && event.end@ + 30_000_000_000
                    <= group.end@)
            }),
{
    assert(events.take(events.len() as int) == events);
    lemma_group_begins(events, events.len() as int, k + 1);
    let i = choose|i: int| #[trigger] begins_group(events, i, k + 1);
    let now = groups(events.take(i));
    assert(events.take(i + 1).drop_last() == events.take(i));
    assert(groups(events.take(i + 1)) == with_event(now, events[i]));
    event_widens_or_starts(now, events[i]);
    complete_groups_stay(events, i + 1);
    assert(groups(events)[k] == groups(events.take(i + 1))[k]);
    assert(groups(events.take(i + 1))[k] == now[k]);
    assert(begins_group(events, i, k + 1));
}

proof fn lemma_group_begins(events: Seq<Event>, n: int, k: int)
    requires
        0 <= n <= events.len(),
        0 <= k < groups(events.take(n)).len(),
    ensures
        exists|i: int| #[trigger] begins_group(events, i, k),
    decreases n,
{
    if n == 0 {
        assert(events.take(0) == Seq::<Event>::empty());
    } else {
        assert(events.take(n).drop_last() == events.take(n - 1));
        assert(groups(events.take(n)) == with_event(groups(events.take(n - 1)), events[n - 1]));
        event_widens_or_starts(groups(events.take(n - 1)), events[n - 1]);
        if k < groups(events.take(n - 1)).len() {
            lemma_group_begins(events, n - 1, k);
        } else {
            assert(begins_group(events, n - 1, k));
        }
    }
}

/// A range looks at its events up to and with the first one that both starts and
/// ends before it, and at all of them if none does.
pub proof fn range_stops_at_first_over(events: Seq<Event>, from: JsonDuration)
    ensures
        0 <= looked_at(events, from) <= events.len(),
        events.len() > 0 ==> looked_at(events, from) > 0,
        forall|i: int|
            0 <= i < looked_at(events, from) - 1 ==> !((#[trigger] events[i]).start@ < from@
                && events[i].end@ < from@),
        looked_at(events, from) < events.len() ==> ({
            let last = events[looked_at(events, from) - 1];
            last.start@ < from@ && last.end@ < from@
        }),
{
    lemma_looked_at_bounds(events, from);
}

/// Whether a jump along the groups ends at the one at `k`: it passes over every
/// group that is being watched at `from`, and stops at the first other one, or at
/// the last. Back from `from` a group is being watched from its start until ten
/// seconds after its end, and forward from ten seconds before its start until its
/// end.
pub open spec fn jump_passes_to(
    all: Seq<EventGroup>,
    from: JsonDuration,
    direction: Direction,
    k: int,
) -> bool {
    &&& 0 <= k < all.len()
    &&& forall|j: int|
        0 <= j < k ==> match direction {
            Direction::Previous => (#[trigger] all[j]).start@ <= from@ && from@ <= all[j].end@
                + 10_000_000_000,
            Direction::Next => all[j].start@ - 10_000_000_000 <= from@ && from@ <= all[j].end@,
        }
    &&& k == all.len() - 1 || match direction {
        Direction::Previous => all[k].start@ > from@ || from@ > all[k].end@ + 10_000_000_000,
        Direction::Next => all[k].start@ - 10_000_000_000 > from@ || from@ > all[k].end@,
    }
}

/// A jump passes over the groups that are being watched, in either direction, and
/// finds nothing only where there is nothing.
pub proof fn jump_passes_over_watched(all: Seq<EventGroup>, from: JsonDuration, direction: Direction)
    ensures
        all.len() == 0 ==> jump_target(all, from, direction) is None,
        all.len() > 0 ==> exists|k: int| #[trigger]
            jump_passes_to(all, from, direction, k) && jump_target(all, from, direction) == Some(
                all[k],
            ),
    decreases all.len(),
{
    if all.len() > 0 {
        if all.len() == 1 || !is_current(all[0], from, direction) {
            assert(jump_passes_to(all, from, direction, 0));
        } else {
            let rest = all.drop_first();
            jump_passes_over_watched(rest, from, direction);
            let k = choose|k: int| #[trigger]
                jump_passes_to(rest, from, direction, k) && jump_target(rest, from, direction)
                    == Some(rest[k]);
            assert(all[k + 1] == rest[k]);
            assert forall|j: int| 0 <= j < k + 1 implies match direction {
                Direction::Previous => (#[trigger] all[j]).start@ <= from@ && from@ <= all[j].end@
                    + 10_000_000_000,
                Direction::Next => all[j].start@ - 10_000_000_000 <= from@ && from@ <= all[j].end@,
            } by {
                if j > 0 {
                    assert(all[j] == rest[j - 1]);
                }
            }
            assert(jump_passes_to(all, from, direction, k + 1));
        }
    }
}

/// A jump moves on: a group that holds the very time from which it is made is given
/// back only if it is the last one there is.
pub proof fn jump_moves_on(events: Seq<Event>, from: JsonDuration, direction: Direction)
    ensures
        jump_target(groups(events), from, direction) matches Some(group) ==> (group.start@ <= from@
            && from@ <= group.end@ ==> groups(events).last() == group),
{
    jump_passes_over_watched(groups(events), from, direction);
}

/// A jump forward along events with the oldest start first ends at a group that is
/// over before `from`, starts more than ten seconds after it, or is the last one;
/// every group that it passed over holds `from` or starts at most ten seconds after
/// it.
pub proof fn jump_forward_goes_to_the_next(events: Seq<Event>, from: JsonDuration, k: int)
    requires
        oldest_start_first(events),
        0 <= k < groups(events).len(),
        forall|j: int|
            0 <= j < k ==> (#[trigger] groups(events)[j]).start@ - 10_000_000_000 <= from@ && from@
                <= groups(events)[j].end@,
        k == groups(events).len() - 1 || groups(events)[k].start@ - 10_000_000_000 > from@
            || from@ > groups(events)[k].end@,
    ensures
        jump_target(groups(events), from, Direction::Next) == Some(groups(events)[k]),
        forall|j: int| 0 <= j < k ==> (#[trigger] groups(events)[j]).end@ < groups(events)[k].start@,
{
    let all = groups(events);
    groups_go_forward(events);
    assert forall|j: int| 0 <= j < k implies is_current(
        #[trigger] all[j],
        from,
        Direction::Next,
    ) by {}
    lemma_target_after_current(all, k, from, Direction::Next);
    assert forall|j: int| 0 <= j < k implies (#[trigger] all[j]).end@ < all[k].start@ by {}
}

/// What one more event does to a jump: the first one opens a group; one that starts
/// or ends within the open group, or ends half a minute before a time within it,
/// widens it; any other takes the place of the open group if that is being watched,
/// and ends the jump there if not.
pub proof fn jump_takes_an_event(
    pending: Option<EventGroup>,
    event: Event,
    from: JsonDuration,
    direction: Direction,
)
    ensures
        ({
            let (open, more) = after_event(pending, event, from, direction);
            match pending {
                None => more && open is Some && open->0.start@ == event.start@ && open->0.end@
                    == event.end@,
                Some(group) => if (group.start@ <= event.start@ && event.start@ <= group.end@) || (
                group.start@ <= event.end@ && event.end@ <= group.end@) || (group.start@
                    <= event.end@ + 30_000_000_000 && event.end@ + 30_000_000_000 <= group.end@) {
                    more && open is Some && open->0.start@ == (if event.start@ < group.start@ {
                        event.start@
                    } else {
                        group.start@
                    }) && open->0.end@ == (if event.end@ > group.end@ {
                        event.end@
                    } else {
                        group.end@
                    })
                } else if match direction {
                    Direction::Previous => group.start@ <= from@ && from@ <= group.end@
                        + 10_000_000_000,
                    Direction::Next => group.start@ - 10_000_000_000 <= from@ && from@ <= group.end@,
                } {
                    more && open is Some && open->0.start@ == event.start@ && open->0.end@
                        == event.end@
                } else {
                    !more && open == pending
                },
            }
        }),
{
}

/// Events can be grouped and followed by a jump wherever their times leave room:
/// half a minute after each end, and for a jump ten seconds more at the end of the
/// calendar and ten seconds before each start.
pub proof fn events_leave_room(events: Seq<Event>, from: JsonDuration, direction: Direction)
    requires
        forall|i: int|
            0 <= i < events.len() ==> (#[trigger] events[i]).end@ + 30_000_000_000
                <= 18_446_744_073_709_551_615_999_999_999,
        forall|i: int| 0 <= i < events.len() ==> 10_000_000_000 <= (#[trigger] events[i]).start@,
    ensures
        can_group(events),
        can_jump(events, from, direction),
{
    assert forall|i: int| 1 <= i < events.len() implies can_compare(
        groups(events.take(i)).last(),
        #[trigger] events[i],
    ) && can_follow(groups(events.take(i)).last(), events[i], from, direction) by {
        let seen = events.take(i);
        let all = groups(seen);
        complete_groups_stay(events, i);
        groups_are_tight(seen, all.len() - 1);
        let s = choose|s: int| 0 <= s < seen.len() && #[trigger] seen[s].start == all[all.len() - 1].start;
        let e = choose|e: int| 0 <= e < seen.len() && #[trigger] seen[e].end == all[all.len() - 1].end;
        assert(events[s] == seen[s] && events[e] == seen[e]);
        assert(10_000_000_000 <= events[s].start@);
        assert(events[e].end@ + 30_000_000_000 <= 18_446_744_073_709_551_615_999_999_999);
        assert(events[i].end@ + 30_000_000_000 <= 18_446_744_073_709_551_615_999_999_999);
    }
}

/// When an event can be held against a group, and follow it in a jump: the end that
/// is moved on by half a minute, where neither start nor end lies within the group,
/// and the end or the start of the group that is moved by ten seconds, where the
/// event does not belong to it, have to stay in the calendar.
pub proof fn what_can_be_compared(
    group: EventGroup,
    event: Event,
    from: JsonDuration,
    direction: Direction,
)
    ensures
        can_compare(group, event) <==> (group.start@ <= event.start@ && event.start@ <= group.end@)
            || (group.start@ <= event.end@ && event.end@ <= group.end@) || event.end@ + 30_000_000_000
            <= 18_446_744_073_709_551_615_999_999_999,
        can_follow(group, event, from, direction) <==> can_compare(group, event) && ((group.start@
            <= event.start@ && event.start@ <= group.end@) || (group.start@ <= event.end@
            && event.end@ <= group.end@) || (group.start@ <= event.end@ + 30_000_000_000
            && event.end@ + 30_000_000_000 <= group.end@) || match direction {
            Direction::Previous => group.start@ > from@ || group.end@ + 10_000_000_000
                <= 18_446_744_073_709_551_615_999_999_999,
            Direction::Next => group.start@ >= 10_000_000_000,
        }),
{
}

/// Events can be grouped and followed by a jump if each one can be held against the
/// group that is open before it, and follow it as long as the jump is under way.
pub proof fn events_can_be_taken_one_by_one(
    events: Seq<Event>,
    event: Event,
    from: JsonDuration,
    direction: Direction,
)
    ensures
        can_group(Seq::<Event>::empty()),
        can_group(events.push(event)) <==> can_group(events) && (events.len() > 0 ==> can_compare(
            groups(events).last(),
            event,
        )),
        can_jump(Seq::<Event>::empty(), from, direction),
        can_jump(events, from, direction) && (events.len() > 0 ==> can_follow(
            groups(events).last(),
            event,
            from,
            direction,
        )) ==> can_jump(events.push(event), from, direction),
{
    let more = events.push(event);
    let n = events.len() as int;
    assert(more.take(n) == events);
    assert(more[n] == event);
    assert forall|i: int| 1 <= i < n implies #[trigger] events[i] == more[i] && events.take(i)
        == more.take(i) by {}
    if can_group(more) {
        assert forall|i: int| 1 <= i < n implies can_compare(
            groups(events.take(i)).last(),
            #[trigger] events[i],
        ) by {
            assert(more[i] == events[i]);
            assert(more.take(i) == events.take(i));
        }
    }
    if can_group(events) && (n > 0 ==> can_compare(groups(events).last(), event)) {
        assert forall|i: int| 1 <= i < more.len() implies can_compare(
            groups(more.take(i)).last(),
            #[trigger] more[i],
        ) by {
            if i < n {
                assert(more[i] == events[i]);
                assert(more.take(i) == events.take(i));
            }
        }
    }
    if can_jump(events, from, direction) && (n > 0 ==> can_follow(
        groups(events).last(),
        event,
        from,
        direction,
    )) {
        assert forall|i: int|
            1 <= i < more.len() && !decided(groups(more.take(i)), from, direction) implies can_follow(
            groups(more.take(i)).last(),
            #[trigger] more[i],
            from,
            direction,
        ) by {
            if i < n {
                assert(more[i] == events[i]);
                assert(more.take(i) == events.take(i));
            }
        }
    }
}

} // verus!
