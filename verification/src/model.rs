//! What the recorder stores and talks about.

use crate::oid::{hex_of, hex_value, is_hex_digit, is_written_id, written_id_reads_back, ObjectId};
use crate::text::{joined, joined_pieces_are_found, pieces, split, texts};
use crate::time::{JsonDuration, Timestamp};
use vstd::prelude::*;

verus! {

/// Something that was seen in a region of a camera's picture.
#[derive(Debug)]
pub struct Event {
    pub _id: ObjectId,
    pub camera_id: ObjectId,
    pub start: JsonDuration,
    pub end: JsonDuration,
    pub thumb_start: String,
    pub region_name: String,
}

/// The span of time that a run of events covers.
#[derive(Clone, Copy, PartialEq, Eq, Structural, Debug)]
pub struct EventGroup {
    pub start: JsonDuration,
    pub end: JsonDuration,
}

/// A part of a camera's picture that is watched. `shape` is what decides whether
/// a detection lies in it, and is only carried along.
#[derive(Debug)]
pub struct Region<S> {
    pub camera_id: ObjectId,
    pub region_name: String,
    pub classes: Vec<String>,
    pub hold_time: JsonDuration,
    pub shape: S,
    /// When the region last saw something, while it is triggered.
    pub last_trigger: Option<JsonDuration>,
    /// The event that is open, if one could be opened.
    pub last_event: Option<Event>,
}

/// Names a region of a camera.
#[derive(Debug)]
pub struct RegionRef {
    pub camera_id: ObjectId,
    pub region_name: String,
}

/// A sensor that is on while one of its regions is triggered.
#[derive(Debug)]
pub struct Alert {
    pub _id: ObjectId,
    pub alert_name: String,
    pub regions: Vec<RegionRef>,
}

/// One video stream of a camera.
#[derive(Debug)]
pub struct Stream {
    pub url: String,
    pub detect: bool,
}

/// A camera and its streams, each under a name of its own.
#[derive(Debug)]
pub struct SourceConfig {
    pub _id: ObjectId,
    pub name: String,
    pub detect: bool,
    pub enable: bool,
    pub streams: Vec<(String, Stream)>,
}

/// A file of recorded video.
#[derive(Debug)]
pub struct Recording {
    pub _id: ObjectId,
    pub source: ObjectId,
    pub file: String,
    pub start: JsonDuration,
    pub end: JsonDuration,
    pub size: u64,
}

/// An account. `pass` is the hash of the password and `salt`.
#[derive(Debug)]
pub struct User {
    pub username: String,
    pub pass: Vec<u8>,
    pub salt: Vec<u8>,
    pub admin: bool,
}

/// Who is logged in, and until when.
#[derive(Debug)]
pub struct UserAuth {
    pub username: String,
    pub admin: bool,
    pub expires: Timestamp,
}

/// The right to do one kind of thing, `scope`, for a short while.
#[derive(Debug)]
pub struct WSToken {
    pub username: String,
    pub expires: Timestamp,
    pub scope: String,
}

/// Asks for the detections of some cameras around a time.
#[derive(Debug)]
pub struct DetectionFilter {
    pub source: Vec<ObjectId>,
    pub at: JsonDuration,
}

/// Asks for the events before a time, or for the newest ones.
#[derive(Debug)]
pub struct EventFilter {
    pub start: Option<JsonDuration>,
}

/// Asks for what some cameras saw between two times.
#[derive(Debug)]
pub struct RangeFilter {
    pub source: Vec<ObjectId>,
    pub from: JsonDuration,
    pub to: JsonDuration,
}

/// Asks for the video between two times.
#[derive(Debug)]
pub struct ExportFilter {
    pub from: JsonDuration,
    pub to: JsonDuration,
}

/// Asks for what some cameras saw next to a time.
#[derive(Debug)]
pub struct JumpFilter {
    pub source: Vec<ObjectId>,
    pub from: JsonDuration,
}

impl RegionRef {
    /// A second reference to the same region.
    pub fn duplicate(&self) -> (r: RegionRef)
        ensures
            r == *self,
    {
        RegionRef { camera_id: self.camera_id, region_name: self.region_name.clone() }
    }
}

impl Event {
    /// A second copy of the event.
    pub fn duplicate(&self) -> (r: Event)
        ensures
            r == *self,
    {
        Event {
            _id: self._id,
            camera_id: self.camera_id,
            start: self.start,
            end: self.end,
            thumb_start: self.thumb_start.clone(),
            region_name: self.region_name.clone(),
        }
    }
}

impl EventGroup {
    /// The span of one event.
    pub open spec fn span_of(event: Event) -> EventGroup {
        EventGroup { start: event.start, end: event.end }
    }
}

/// Reads a list of identifiers with commas between them. A list with anything
/// else in it is refused.
pub fn source_list(text: &str) -> (r: Option<Vec<ObjectId>>)
    ensures
        r is Some <==> forall|i: int|
            0 <= i < pieces(text@, ',').len() ==> is_written_id(#[trigger] pieces(text@, ',')[i]),
        r matches Some(ids) ==> {
            &&& ids@.len() == pieces(text@, ',').len()
            &&& forall|i: int|
                0 <= i < ids@.len() ==> (#[trigger] ids@[i])@ == hex_value(pieces(text@, ',')[i])
        },
{
    let list: Vec<String> = split(text, ',');
    let ghost parts = pieces(text@, ',');
    let mut ids: Vec<ObjectId> = Vec::new();
    let mut i: usize = 0;
    while i < list.len()
        invariant
            i <= list.len(),
            texts(list@) == parts,
            parts == pieces(text@, ','),
            ids@.len() == i,
            forall|j: int| 0 <= j < i ==> is_written_id(#[trigger] parts[j]),
            forall|j: int| 0 <= j < i ==> (#[trigger] ids@[j])@ == hex_value(parts[j]),
        decreases list.len() - i,
    {
        assert(parts[i as int] == list@[i as int]@);
        match ObjectId::from_str(list[i].as_str()) {
            Some(id) => ids.push(id),
            None => {
                assert(!is_written_id(parts[i as int]));
                return None;
            },
        }
        i += 1;
    }
    Some(ids)
}

/// The written forms of identifiers.
pub open spec fn written(ids: Seq<ObjectId>) -> Seq<Seq<char>> {
    Seq::new(ids.len(), |i: int| hex_of(ids[i]))
}

/// A list of identifiers that is written with commas between them is read as the
/// same list.
pub proof fn written_list_reads_back(ids: Seq<ObjectId>, i: int)
    requires
        0 <= i < ids.len(),
    ensures
        pieces(joined(written(ids), ','), ',').len() == ids.len(),
        is_written_id(pieces(joined(written(ids), ','), ',')[i]),
        hex_value(pieces(joined(written(ids), ','), ',')[i]) == ids[i]@,
{
    let parts = written(ids);
    assert forall|k: int| 0 <= k < parts.len() implies !(#[trigger] parts[k]).contains(',') by {
        written_id_reads_back(ids[k], ids[k]);
        assert(is_written_id(parts[k]));
        if parts[k].contains(',') {
            let j = choose|j: int| 0 <= j < parts[k].len() && parts[k][j] == ',';
            assert(is_hex_digit(parts[k][j]));
        }
    }
    joined_pieces_are_found(parts, ',');
    written_id_reads_back(ids[i], ids[i]);
}

/// The span of an event goes from its start to its end.
pub proof fn span_is_that_of_the_event(event: Event)
    ensures
        EventGroup::span_of(event).start == event.start,
        EventGroup::span_of(event).end == event.end,
{
}

} // verus!
