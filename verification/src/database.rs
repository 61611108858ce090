//! What is asked of the store, and what is put into it.

use crate::events::{
    covers, ends_fall, ends_go_back, groups, jump_back_goes_along_range, jump_ends_at, jump_target,
    looked_at, matters, range_is_complete, range_needs_few_events, Direction,
};
use crate::model::{Event, EventGroup, Recording, Region, SourceConfig};
use crate::oid::ObjectId;
use crate::time::{group_durations, JsonDuration, MAX_NANOS, NANOS_PER_MILLI, NANOS_PER_SEC};
use vstd::prelude::*;

verus! {

broadcast use group_durations;

/// The store. It keeps recordings, detections, events, cameras, regions, alerts
/// and users.
#[derive(Clone, Copy, PartialEq, Eq, Structural, Debug)]
pub struct Database {}

/// Which times of an event are asked for.
#[derive(Clone, Copy, PartialEq, Eq, Structural, Debug)]
pub enum TimeBound {
    Any,
    /// It starts before that time.
    StartBefore(JsonDuration),
    /// It starts or ends before that time.
    EitherBefore(JsonDuration),
    /// It starts or ends after that time.
    EitherAfter(JsonDuration),
}

/// The order in which events are asked for.
#[derive(Clone, Copy, PartialEq, Eq, Structural, Debug)]
pub enum EventOrder {
    NewestStart,
    NewestEnd,
    OldestStart,
}

/// Asks for events.
#[derive(Debug)]
pub struct EventQuery {
    /// The cameras whose events are asked for. Without a list, all of them.
    pub cameras: Option<Vec<ObjectId>>,
    pub bound: TimeBound,
    pub order: EventOrder,
    /// How many events are asked for at most.
    pub limit: Option<i64>,
}

/// Asks for cameras.
#[derive(Debug)]
pub struct CameraQuery {
    /// Whether the cameras that are asked for are enabled.
    pub enable: bool,
}

impl CameraQuery {
    /// Whether the camera is asked for.
    pub open spec fn selects(self, config: SourceConfig) -> bool {
        config.enable == self.enable
    }
}

/// Whether the list holds the identifier.
pub open spec fn lists(list: Seq<ObjectId>, id: ObjectId) -> bool {
    exists|i: int| 0 <= i < list.len() && #[trigger] list[i] == id
}

impl TimeBound {
    /// Whether the event lies within the bound.
    pub open spec fn admits(self, event: Event) -> bool {
        match self {
            TimeBound::Any => true,
            TimeBound::StartBefore(time) => event.start@ < time@,
            TimeBound::EitherBefore(time) => event.start@ < time@ || event.end@ < time@,
            TimeBound::EitherAfter(time) => event.start@ > time@ || event.end@ > time@,
        }
    }
}

impl EventQuery {
    /// Whether the event is asked for.
    pub open spec fn selects(self, event: Event) -> bool {
        &&& self.cameras matches Some(list) ==> lists(list@, event.camera_id)
        &&& self.bound.admits(event)
    }

    /// Whether the event is asked for.
    pub fn matches(&self, event: &Event) -> (r: bool)
        ensures
            r == self.selects(*event),
    {
        let mut listed: bool = self.cameras.is_none();
        if let Some(list) = &self.cameras {
            let mut i: usize = 0;
            while i < list.len()
                invariant
                    i <= list@.len(),
                    listed <==> exists|j: int| 0 <= j < i && #[trigger] list@[j] == event.camera_id,
                decreases list@.len() - i,
            {
                if list[i] == event.camera_id {
                    listed = true;
                }
                i += 1;
            }
        }
        let within: bool = match self.bound {
            TimeBound::Any => true,
            TimeBound::StartBefore(time) => event.start < time,
            TimeBound::EitherBefore(time) => event.start < time || event.end < time,
            TimeBound::EitherAfter(time) => event.start > time || event.end > time,
        };
        listed && within
    }
}

/// Asks for detections of some cameras between two times, both of them included.
#[derive(Debug)]
pub struct DetectionQuery {
    pub source: Vec<ObjectId>,
    pub from: JsonDuration,
    pub to: JsonDuration,
}

impl DetectionQuery {
    /// Whether a detection of that camera at that time is asked for.
    pub open spec fn selects(self, source: ObjectId, start: JsonDuration) -> bool {
        lists(self.source@, source) && self.from@ <= start@ <= self.to@
    }
}

/// Asks for recordings of a camera by when they start.
#[derive(Debug)]
pub struct RecordingQuery {
    pub source: ObjectId,
    /// The earliest start.
    pub not_before: Option<JsonDuration>,
    /// The latest start.
    pub not_after: Option<JsonDuration>,
    /// Whether later recordings come first.
    pub newest_first: bool,
    /// Whether only the first one is asked for.
    pub only_one: bool,
}

impl RecordingQuery {
    /// Whether the recording is asked for.
    pub open spec fn selects(self, recording: Recording) -> bool {
        &&& recording.source == self.source
        &&& self.not_before matches Some(time) ==> recording.start@ >= time@
        &&& self.not_after matches Some(time) ==> recording.start@ <= time@
    }
}

/// Why nothing is asked of the store.
#[derive(Clone, Copy, PartialEq, Eq, Structural, Debug)]
pub enum QueryError {
    /// The time is too close to the epoch to be one of a detection.
    InvalidRange,
    /// No recording goes back that far.
    NoRecordings,
}

impl QueryError {
    /// What is said of the error.
    pub fn message(&self) -> (r: String)
        ensures
            r@ == match *self {
                QueryError::InvalidRange => "Invalid range"@,
                QueryError::NoRecordings => "No recordings found"@,
            },
    {
        match self {
            QueryError::InvalidRange => "Invalid range".to_owned(),
            QueryError::NoRecordings => "No recordings found".to_owned(),
        }
    }
}

/// Changes the end of an event.
#[derive(Clone, Copy, PartialEq, Eq, Structural, Debug)]
pub struct EventUpdate {
    pub _id: ObjectId,
    /// The new end, in whole milliseconds.
    pub end: i64,
}

/// Changes the end and the size of the recordings of a camera in a file.
#[derive(Debug)]
pub struct RecordingUpdate {
    pub file: String,
    pub source: ObjectId,
    pub end: JsonDuration,
    pub size: i64,
}

/// Makes a collection quick to search by some of its fields, each with 1 if it is
/// searched upwards and -1 if downwards.
#[derive(Debug)]
pub struct Index {
    pub collection: String,
    pub keys: Vec<(String, i32)>,
}

impl Index {
    /// Whether this is an index by two fields.
    pub open spec fn is_by_two(
        self,
        collection: Seq<char>,
        first: Seq<char>,
        up: int,
        second: Seq<char>,
        second_up: int,
    ) -> bool {
        &&& self.collection@ == collection
        &&& self.keys@.len() == 2
        &&& self.keys@[0].0@ == first && self.keys@[0].1 == up
        &&& self.keys@[1].0@ == second && self.keys@[1].1 == second_up
    }

    /// Whether this is an index by one field.
    pub open spec fn is_by_one(self, collection: Seq<char>, first: Seq<char>, up: int) -> bool {
        &&& self.collection@ == collection
        &&& self.keys@.len() == 1
        &&& self.keys@[0].0@ == first && self.keys@[0].1 == up
    }

    fn by_one(collection: &str, first: &str, up: i32) -> (r: Index)
        ensures
            r.is_by_one(collection@, first@, up as int),
    {
        let mut keys: Vec<(String, i32)> = Vec::new();
        keys.push((first.to_owned(), up));
        Index { collection: collection.to_owned(), keys }
    }

    fn by_two(collection: &str, first: &str, up: i32, second: &str, second_up: i32) -> (r: Index)
        ensures
            r.is_by_two(collection@, first@, up as int, second@, second_up as int),
    {
        let mut index: Index = Index::by_one(collection, first, up);
        index.keys.push((second.to_owned(), second_up));
        index
    }
}

impl Database {
    /// The indexes that a new store gets.
    pub fn new() -> (r: Vec<Index>)
        ensures
            r@.len() == 9,
            r@[0].is_by_two("recordings"@, "source"@, 1, "start"@, 1),
            r@[1].is_by_two("recordings"@, "source"@, 1, "file"@, 1),
            r@[2].is_by_one("recordings"@, "start"@, 1),
            r@[3].is_by_two("detections"@, "source"@, 1, "start"@, 1),
            r@[4].is_by_two("events"@, "camera_id"@, -1, "start"@, -1),
            r@[5].collection@ == "events"@,
            r@[5].keys@.len() == 3,
            r@[5].keys@[0].0@ == "camera_id"@ && r@[5].keys@[0].1 == 1,
            r@[5].keys@[1].0@ == "start"@ && r@[5].keys@[1].1 == -1,
            r@[5].keys@[2].0@ == "end"@ && r@[5].keys@[2].1 == -1,
            r@[6].is_by_two("events"@, "camera_id"@, -1, "end"@, -1),
            r@[7].is_by_one("events"@, "start"@, -1),
            r@[8].is_by_one("users"@, "username"@, 1),
    {
        let mut all: Vec<Index> = Vec::new();
        all.push(Index::by_two("recordings", "source", 1, "start", 1));
        all.push(Index::by_two("recordings", "source", 1, "file", 1));
        all.push(Index::by_one("recordings", "start", 1));
        all.push(Index::by_two("detections", "source", 1, "start", 1));
        all.push(Index::by_two("events", "camera_id", -1, "start", -1));
        let mut by_three: Index = Index::by_two("events", "camera_id", 1, "start", -1);
        by_three.keys.push(("end".to_owned(), -1));
        all.push(by_three);
        all.push(Index::by_two("events", "camera_id", -1, "end", -1));
        all.push(Index::by_one("events", "start", -1));
        all.push(Index::by_one("users", "username", 1));
        all
    }

    /// Asks for the sixty newest events, before a time if one is given.
    pub fn list_events(start: Option<JsonDuration>) -> (r: EventQuery)
        ensures
            r.cameras is None,
            r.bound == match start {
                Some(time) => TimeBound::StartBefore(time),
                None => TimeBound::Any,
            },
            r.order is NewestStart,
            r.limit == Some(60i64),
    {
        EventQuery {
            cameras: None,
            bound: match start {
                Some(time) => TimeBound::StartBefore(time),
                None => TimeBound::Any,
            },
            order: EventOrder::NewestStart,
            limit: Some(60),
        }
    }

    /// Asks for the events that a range up to `to` is made of.
    pub fn list_events_range(source: Vec<ObjectId>, to: JsonDuration) -> (r: EventQuery)
        ensures
            r.cameras == Some(source),
            r.bound == TimeBound::EitherBefore(to),
            r.order is NewestEnd,
            r.limit is None,
    {
        EventQuery {
            cameras: Some(source),
            bound: TimeBound::EitherBefore(to),
            order: EventOrder::NewestEnd,
            limit: None,
        }
    }

    /// Asks for the events that a jump back from `from` passes.
    pub fn list_event_previous(source: Vec<ObjectId>, from: JsonDuration) -> (r: EventQuery)
        ensures
            r.cameras == Some(source),
            r.bound == TimeBound::EitherBefore(from),
            r.order is NewestEnd,
            r.limit is None,
    {
        EventQuery {
            cameras: Some(source),
            bound: TimeBound::EitherBefore(from),
            order: EventOrder::NewestEnd,
            limit: None,
        }
    }

    /// Asks for the events that a jump forward from `from` passes.
    pub fn list_event_next(source: Vec<ObjectId>, from: JsonDuration) -> (r: EventQuery)
        ensures
            r.cameras == Some(source),
            r.bound == TimeBound::EitherAfter(from),
            r.order is OldestStart,
            r.limit is None,
    {
        EventQuery {
            cameras: Some(source),
            bound: TimeBound::EitherAfter(from),
            order: EventOrder::OldestStart,
            limit: None,
        }
    }

    /// Notes that an event lasts until `pts`. A number of milliseconds that is too
    /// large is cut to its low 64 bits.
    pub fn update_event(event: ObjectId, pts: &JsonDuration) -> (r: EventUpdate)
        ensures
            r._id == event,
            r.end == (pts@ / (NANOS_PER_MILLI as int)) as i64,
            pts@ / (NANOS_PER_MILLI as int) <= i64::MAX ==> r.end == pts@ / (
            NANOS_PER_MILLI as int),
    {
        EventUpdate { _id: event, end: pts.as_millis() as i64 }
    }

    /// Whether the detections around that time can be asked for: it is not so late
    /// that two seconds more run past the end of the calendar.
    pub open spec fn has_window(at: JsonDuration) -> bool {
        at@ + 2 * NANOS_PER_SEC <= MAX_NANOS
    }

    /// Whether the detections around that time can be asked for.
    pub fn may_get_detections(at: JsonDuration) -> (r: bool)
        ensures
            r == Database::has_window(at),
    {
        at.as_nanos() <= MAX_NANOS - 2 * NANOS_PER_SEC
    }

    /// Asks for the detections of the two seconds before and after a time. Times
    /// up to ten seconds after the epoch are refused.
    pub fn get_detections(source: Vec<ObjectId>, at: JsonDuration) -> (r: Result<
        DetectionQuery,
        QueryError,
    >)
        requires
            Database::has_window(at),
        ensures
            match r {
                Ok(query) => {
                    &&& at@ > 10 * NANOS_PER_SEC
                    &&& query.source == source
                    &&& query.from@ == at@ - 2 * NANOS_PER_SEC
                    &&& query.to@ == at@ + 2 * NANOS_PER_SEC
                    &&& forall|camera: ObjectId, start: JsonDuration| #[trigger]
                        query.selects(camera, start) <==> lists(source@, camera) && at@ - 2
                            * NANOS_PER_SEC <= start@ <= at@ + 2 * NANOS_PER_SEC
                },
                Err(error) => at@ <= 10 * NANOS_PER_SEC && error is InvalidRange,
            },
    {
        let range: JsonDuration = JsonDuration::from_secs(2);
        if at <= JsonDuration::from_secs(10) {
            return Err(QueryError::InvalidRange);
        }
        Ok(DetectionQuery { source, from: at - range, to: at + range })
    }

    /// Asks for the cameras that are shown, and received when the recorder starts:
    /// all that are enabled.
    pub fn list_cameras() -> (r: CameraQuery)
        ensures
            r.enable,
            forall|config: SourceConfig| #[trigger] r.selects(config) <==> config.enable,
    {
        CameraQuery { enable: true }
    }

    /// A recording that was begun in a file at `time`, in nanoseconds.
    pub fn add_recording(
        id: ObjectId,
        source: &ObjectId,
        location: &String,
        time: u64,
    ) -> (r: Recording)
        ensures
            r._id == id,
            r.source == *source,
            r.file@ == location@,
            r.start@ == time,
            r.end@ == 0,
            r.size == 0,
    {
        Recording {
            _id: id,
            source: *source,
            file: location.clone(),
            start: JsonDuration::from_nanos(time),
            end: JsonDuration::from_secs(0),
            size: 0,
        }
    }

    /// Notes that a recording ended at `time`, in nanoseconds, and how large its
    /// file is. A size that is too large is cut to a signed number of 64 bits.
    pub fn finish_recording(source: &ObjectId, location: &String, time: u64, size: u64) -> (r:
        RecordingUpdate)
        ensures
            r.source == *source,
            r.file@ == location@,
            r.end@ == time,
            r.size == size as i64,
            size <= i64::MAX ==> r.size == size,
    {
        RecordingUpdate {
            file: location.clone(),
            source: *source,
            end: JsonDuration::from_nanos(time),
            size: size as i64,
        }
    }

    /// Asks for the recording that was under way at `from`: the last one that
    /// starts by then.
    pub fn recording_at(source: &ObjectId, from: &JsonDuration) -> (r: RecordingQuery)
        ensures
            r.source == *source,
            r.not_before is None,
            r.not_after == Some(*from),
            r.newest_first,
            r.only_one,
    {
        RecordingQuery {
            source: *source,
            not_before: None,
            not_after: Some(*from),
            newest_first: true,
            only_one: true,
        }
    }

    /// Asks for the recordings from the one that was under way on, in order, up to
    /// `to` if it is given.
    pub fn get_recordings(
        source: &ObjectId,
        found: Option<&Recording>,
        to: Option<&JsonDuration>,
    ) -> (r: Result<RecordingQuery, QueryError>)
        ensures
            match r {
                Ok(query) => {
                    &&& found is Some
                    &&& query.source == *source
                    &&& query.not_before == Some(found->0.start)
                    &&& query.not_after == match to {
                        Some(time) => Some(*time),
                        None => None,
                    }
                    &&& !query.newest_first
                    &&& !query.only_one
                },
                Err(error) => found is None && error is NoRecordings,
            },
    {
        match found {
            Some(recording) => Ok(
                RecordingQuery {
                    source: *source,
                    not_before: Some(recording.start),
                    not_after: match to {
                        Some(time) => Some(*time),
                        None => None,
                    },
                    newest_first: false,
                    only_one: false,
                },
            ),
            None => Err(QueryError::NoRecordings),
        }
    }

    /// Makes the regions those of the camera.
    pub fn update_regions<S>(id: ObjectId, regions: &mut Vec<Region<S>>)
        ensures
            final(regions)@.len() == old(regions)@.len(),
            forall|i: int|
                0 <= i < final(regions)@.len() ==> #[trigger] final(regions)@[i] == (Region {
                    camera_id: id,
                    ..old(regions)@[i]
                }),
    {
        let ghost before = regions@;
        let mut i: usize = 0;
        while i < regions.len()
            invariant
                i <= regions@.len(),
                regions@.len() == before.len(),
                forall|j: int|
                    0 <= j < i ==> #[trigger] regions@[j] == (Region { camera_id: id, ..before[j] }),
                forall|j: int| i <= j < regions@.len() ==> #[trigger] regions@[j] == before[j],
            decreases regions@.len() - i,
        {
            regions[i].camera_id = id;
            i += 1;
        }
    }
}

/// A recording that was under way at a time is among those that are asked for
/// next, and none of those that are asked for starts before it.
pub proof fn playback_starts_with_recording_at(
    first: RecordingQuery,
    next: RecordingQuery,
    found: Recording,
    other: Recording,
)
    requires
        first.selects(found),
        next.source == first.source,
        next.not_before == Some(found.start),
        next.not_after matches Some(to) ==> (first.not_after matches Some(from) && from@ <= to@),
    ensures
        next.selects(found),
        next.selects(other) ==> found.start@ <= other.start@,
{
}

/// A range and a jump never miss an event for its place in time: each event is
/// asked for by a jump back, lies at the very time, or is asked for by a jump
/// forward.
pub proof fn jumps_see_every_event(
    back: EventQuery,
    forward: EventQuery,
    from: JsonDuration,
    event: Event,
)
    requires
        back.bound == TimeBound::EitherBefore(from),
        forward.bound == TimeBound::EitherAfter(from),
        back.cameras matches Some(list) ==> lists(list@, event.camera_id),
        forward.cameras matches Some(list) ==> lists(list@, event.camera_id),
    ensures
        back.selects(event) || forward.selects(event) || (event.start@ == from@ && event.end@
            == from@),
{
}

/// Whether the reply holds every stored event that is asked for.
pub open spec fn answers(query: EventQuery, stored: Seq<Event>, reply: Seq<Event>) -> bool {
    forall|i: int|
        0 <= i < stored.len() && query.selects(#[trigger] stored[i]) ==> reply.contains(stored[i])
}

/// A range shows all that was stored: of a reply with the newest end first, every
/// event of the cameras that starts or ends before the end of the range, and does
/// not end before its start, is covered by one of the groups.
pub proof fn stored_events_are_shown(
    query: EventQuery,
    stored: Seq<Event>,
    reply: Seq<Event>,
    from: JsonDuration,
    to: JsonDuration,
    i: int,
)
    requires
        query.bound == TimeBound::EitherBefore(to),
        query.cameras matches Some(list) ==> lists(list@, stored[i].camera_id),
        answers(query, stored, reply),
        ends_go_back(reply),
        0 <= i < stored.len(),
        stored[i].start@ < to@ || stored[i].end@ < to@,
        from@ <= stored[i].end@,
    ensures
        exists|j: int|
            0 <= j < groups(reply.take(looked_at(reply, from))).len() && covers(
                #[trigger] groups(reply.take(looked_at(reply, from)))[j],
                stored[i],
            ),
{
    assert(query.selects(stored[i]));
    let k = choose|k: int| 0 <= k < reply.len() && reply[k] == stored[i];
    range_is_complete(reply, from, k);
}

/// Whether the reply holds just the stored events that are asked for, each one
/// ending earlier than the one before it.
pub open spec fn replies(query: EventQuery, stored: Seq<Event>, reply: Seq<Event>) -> bool {
    &&& forall|event: Event| #[trigger]
        reply.contains(event) <==> stored.contains(event) && query.selects(event)
    &&& ends_fall(reply)
}

/// Whether no stored event that is asked for and ends before `from` ends later than
/// this one.
pub open spec fn is_last_before(
    query: EventQuery,
    stored: Seq<Event>,
    event: Event,
    from: JsonDuration,
) -> bool {
    forall|other: Event|
        #[trigger] stored.contains(other) && query.selects(other) && other.end@ < from@
            ==> other.end@ <= event.end@
}

/// A range over a store is the same over one that holds fewer events: of those
/// that are asked for, the ones that do not end before the start of the range, and
/// the last one that does. No two events that are asked for end at the same time,
/// and none ends before it starts.
pub proof fn range_needs_few_stored_events(
    query: EventQuery,
    stored: Seq<Event>,
    fewer: Seq<Event>,
    reply: Seq<Event>,
    few: Seq<Event>,
    from: JsonDuration,
)
    requires
        replies(query, stored, reply),
        replies(query, fewer, few),
        forall|event: Event| #[trigger]
            fewer.contains(event) <==> stored.contains(event) && query.selects(event) && (from@
                <= event.end@ || is_last_before(query, stored, event, from)),
        forall|i: int| 0 <= i < reply.len() ==> (#[trigger] reply[i]).start@ <= reply[i].end@,
    ensures
        groups(few.take(looked_at(few, from))) == groups(reply.take(looked_at(reply, from))),
        reply.len() > 0 && reply[0].end@ < from@ ==> groups(few.take(looked_at(few, from)))
            == seq![EventGroup::span_of(reply[0])],
{
    assert forall|event: Event| #[trigger] few.contains(event) <==> matters(reply, event, from) by {
        assert(fewer.contains(event) <==> stored.contains(event) && query.selects(event) && (from@
            <= event.end@ || is_last_before(query, stored, event, from)));
        assert(reply.contains(event) <==> stored.contains(event) && query.selects(event));
        if is_last_before(query, stored, event, from) {
            assert forall|k: int| 0 <= k < reply.len() && (#[trigger] reply[k]).end@
                < from@ implies reply[k].end@ <= event.end@ by {
                assert(reply.contains(reply[k]));
                assert(stored.contains(reply[k]));
            }
        }
        if matters(reply, event, from) && event.end@ < from@ {
            assert forall|other: Event|
                #[trigger] stored.contains(other) && query.selects(other) && other.end@
                    < from@ implies other.end@ <= event.end@ by {
                assert(reply.contains(other));
                let k = choose|k: int| 0 <= k < reply.len() && reply[k] == other;
                assert(reply[k].end@ < from@);
            }
        }
    }
    range_needs_few_events(reply, few, from);
}

/// A jump back from a time and the range from the very start up to that time ask
/// for the same events, and the jump ends at the first group of that range that
/// ends more than ten seconds before the time, or else at the last one. No event
/// that is asked for ends before it starts.
pub proof fn jump_back_is_in_the_range(
    back: EventQuery,
    range: EventQuery,
    reply: Seq<Event>,
    start: JsonDuration,
    from: JsonDuration,
    event: Event,
)
    requires
        back.cameras == range.cameras,
        back.bound == TimeBound::EitherBefore(from),
        range.bound == TimeBound::EitherBefore(from),
        start@ == 0,
        forall|i: int|
            0 <= i < reply.len() ==> range.selects(#[trigger] reply[i]) && reply[i].start@
                <= reply[i].end@,
    ensures
        back.selects(event) <==> range.selects(event),
        match jump_target(groups(reply), from, Direction::Previous) {
            None => groups(reply.take(looked_at(reply, start))).len() == 0,
            Some(group) => exists|k: int| #[trigger]
                jump_ends_at(groups(reply.take(looked_at(reply, start))), from, k) && groups(
                    reply.take(looked_at(reply, start)),
                )[k] == group,
        },
{
    assert forall|i: int| 0 <= i < reply.len() implies (#[trigger] reply[i]).start@ < from@
        || reply[i].end@ < from@ by {
        assert(range.selects(reply[i]));
    }
    jump_back_goes_along_range(reply, start, from);
}

/// What an event query asks for: events of the cameras in its list, or of any if it
/// has none, that start or end on the asked side of its time.
pub proof fn what_event_queries_select(query: EventQuery, event: Event)
    ensures
        query.selects(event) <==> (match query.cameras {
            Some(list) => exists|i: int|
                0 <= i < list@.len() && #[trigger] list@[i] == event.camera_id,
            None => true,
        }) && (match query.bound {
            TimeBound::Any => true,
            TimeBound::StartBefore(time) => event.start@ < time@,
            TimeBound::EitherBefore(time) => event.start@ < time@ || event.end@ < time@,
            TimeBound::EitherAfter(time) => event.start@ > time@ || event.end@ > time@,
        }),
{
}

/// What the other queries ask for: detections of the cameras in the list from the one
/// time to the other; recordings of the camera that start no earlier and no later than
/// asked; and cameras that are in use as asked.
pub proof fn what_other_queries_select(
    detections: DetectionQuery,
    source: ObjectId,
    start: JsonDuration,
    recordings: RecordingQuery,
    recording: Recording,
    cameras: CameraQuery,
    camera: SourceConfig,
)
    ensures
        detections.selects(source, start) <==> detections.from@ <= start@ && start@
            <= detections.to@ && exists|i: int|
            0 <= i < detections.source@.len() && #[trigger] detections.source@[i] == source,
        recordings.selects(recording) <==> recording.source == recordings.source && (
        recordings.not_before is None || recordings.not_before->0@ <= recording.start@) && (
        recordings.not_after is None || recording.start@ <= recordings.not_after->0@),
        cameras.selects(camera) <==> camera.enable == cameras.enable,
{
}

/// The detections around a time can be asked for unless two seconds more run past the
/// end of the calendar.
pub proof fn detections_have_a_window(at: JsonDuration)
    ensures
        Database::has_window(at) <==> at@ + 2_000_000_000
            <= 18_446_744_073_709_551_615_999_999_999,
{
}

/// An index is by just the fields that it names, in that order, each upwards or
/// downwards.
pub proof fn index_is_by_its_fields(
    index: Index,
    collection: Seq<char>,
    first: Seq<char>,
    up: int,
    second: Seq<char>,
    second_up: int,
)
    ensures
        index.is_by_one(collection, first, up) <==> index.collection@ == collection
            && index.keys@.len() == 1 && index.keys@[0].0@ == first && index.keys@[0].1 == up,
        index.is_by_two(collection, first, up, second, second_up) <==> index.collection@
            == collection && index.keys@.len() == 2 && index.keys@[0].0@ == first
            && index.keys@[0].1 == up && index.keys@[1].0@ == second && index.keys@[1].1
            == second_up,
{
}

} // verus!
