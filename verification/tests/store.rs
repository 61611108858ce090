use overnvr::database::{Database, EventOrder, QueryError, TimeBound};
use overnvr::events::group_range;
use overnvr::model::{Event, Region};
use overnvr::oid::ObjectId;
use overnvr::time::{JsonDuration, MAX_NANOS};

fn id(n: u32) -> ObjectId {
    ObjectId { high: 0, low: n }
}

fn secs(n: u64) -> JsonDuration {
    JsonDuration::from_secs(n)
}

fn event(camera: u32, start: u64, end: u64) -> Event {
    Event {
        _id: id(1),
        camera_id: id(camera),
        start: secs(start),
        end: secs(end),
        thumb_start: "a.jpg".to_string(),
        region_name: "door".to_string(),
    }
}

#[test]
fn the_newest_events() {
    let all = Database::list_events(None);
    assert!(all.cameras.is_none());
    assert_eq!(all.bound, TimeBound::Any);
    assert_eq!(all.order, EventOrder::NewestStart);
    assert_eq!(all.limit, Some(60));
    assert!(all.matches(&event(1, 5, 6)));
    let before = Database::list_events(Some(secs(5)));
    assert!(before.matches(&event(1, 4, 9)));
    assert!(!before.matches(&event(1, 5, 6)));
}

#[test]
fn the_events_of_a_range() {
    let query = Database::list_events_range(vec![id(1), id(2)], secs(10));
    assert_eq!(query.order, EventOrder::NewestEnd);
    assert_eq!(query.limit, None);
    assert!(query.matches(&event(1, 9, 20)));
    assert!(query.matches(&event(2, 1, 2)));
    assert!(!query.matches(&event(2, 10, 12)));
    assert!(!query.matches(&event(3, 1, 2)));
}

#[test]
fn the_events_of_a_jump() {
    let back = Database::list_event_previous(vec![id(1)], secs(10));
    assert_eq!(back.order, EventOrder::NewestEnd);
    assert_eq!(back.bound, TimeBound::EitherBefore(secs(10)));
    let forward = Database::list_event_next(vec![id(1)], secs(10));
    assert_eq!(forward.order, EventOrder::OldestStart);
    assert!(forward.matches(&event(1, 9, 11)));
    assert!(forward.matches(&event(1, 11, 11)));
    assert!(!forward.matches(&event(1, 5, 10)));
    let at = event(1, 10, 10);
    assert!(!back.matches(&at) && !forward.matches(&at));
}

#[test]
fn the_end_of_an_event_is_in_milliseconds() {
    let update = Database::update_event(id(3), &JsonDuration::from_nanos(5_999_999));
    assert_eq!(update._id, id(3));
    assert_eq!(update.end, 5);
    // 2^64 seconds less one, in milliseconds, cut to its low bits.
    let late = Database::update_event(id(3), &secs(u64::MAX));
    assert_eq!(late.end, -1000);
}

#[test]
fn detections_two_seconds_around() {
    let query = Database::get_detections(vec![id(1)], secs(11)).unwrap();
    assert_eq!(query.source, vec![id(1)]);
    assert_eq!(query.from, secs(9));
    assert_eq!(query.to, secs(13));
    let refused = Database::get_detections(vec![id(1)], secs(10)).unwrap_err();
    assert_eq!(refused, QueryError::InvalidRange);
    assert_eq!(refused.message(), "Invalid range");
    assert!(Database::may_get_detections(secs(11)));
    assert!(!Database::may_get_detections(JsonDuration::new(MAX_NANOS - 1)));
}

#[test]
fn enabled_cameras_are_listed() {
    assert!(Database::list_cameras().enable);
}

#[test]
fn recordings_begin_and_end() {
    let file = "/rec/a.mkv".to_string();
    let begun = Database::add_recording(id(7), &id(1), &file, 5_000_000_001);
    assert_eq!(begun._id, id(7));
    assert_eq!(begun.source, id(1));
    assert_eq!(begun.file, file);
    assert_eq!(begun.start.as_nanos(), 5_000_000_001);
    assert_eq!(begun.end, secs(0));
    assert_eq!(begun.size, 0);
    let ended = Database::finish_recording(&id(1), &file, 6_000_000_000, 1234);
    assert_eq!(ended.file, file);
    assert_eq!(ended.source, id(1));
    assert_eq!(ended.end, secs(6));
    assert_eq!(ended.size, 1234);
    assert_eq!(Database::finish_recording(&id(1), &file, 0, u64::MAX).size, -1);
}

#[test]
fn recordings_from_a_time_on() {
    let first = Database::recording_at(&id(1), &secs(100));
    assert_eq!(first.source, id(1));
    assert_eq!(first.not_before, None);
    assert_eq!(first.not_after, Some(secs(100)));
    assert!(first.newest_first && first.only_one);

    let found = Database::add_recording(id(7), &id(1), &"f".to_string(), 90_000_000_000);
    let open = Database::get_recordings(&id(1), Some(&found), None).unwrap();
    assert_eq!(open.not_before, Some(secs(90)));
    assert_eq!(open.not_after, None);
    assert!(!open.newest_first && !open.only_one);
    let closed = Database::get_recordings(&id(1), Some(&found), Some(&secs(200))).unwrap();
    assert_eq!(closed.not_after, Some(secs(200)));

    let none = Database::get_recordings(&id(1), None, None).unwrap_err();
    assert_eq!(none, QueryError::NoRecordings);
    assert_eq!(none.message(), "No recordings found");
}

#[test]
fn regions_become_those_of_the_camera() {
    let region = |name: &str| Region {
        camera_id: id(1),
        region_name: name.to_string(),
        classes: vec![],
        hold_time: secs(1),
        shape: (),
        last_trigger: None,
        last_event: None,
    };
    let mut regions = vec![region("a"), region("b")];
    Database::update_regions(id(5), &mut regions);
    assert!(regions.iter().all(|r| r.camera_id == id(5)));
    assert_eq!(regions[1].region_name, "b");
}

#[test]
fn the_indexes_of_a_store() {
    let all: Vec<(String, Vec<(String, i32)>)> =
        Database::new().into_iter().map(|i| (i.collection, i.keys)).collect();
    let key = |name: &str, up: i32| (name.to_string(), up);
    assert_eq!(
        all,
        vec![
            ("recordings".to_string(), vec![key("source", 1), key("start", 1)]),
            ("recordings".to_string(), vec![key("source", 1), key("file", 1)]),
            ("recordings".to_string(), vec![key("start", 1)]),
            ("detections".to_string(), vec![key("source", 1), key("start", 1)]),
            ("events".to_string(), vec![key("camera_id", -1), key("start", -1)]),
            ("events".to_string(), vec![key("camera_id", 1), key("start", -1), key("end", -1)]),
            ("events".to_string(), vec![key("camera_id", -1), key("end", -1)]),
            ("events".to_string(), vec![key("start", -1)]),
            ("users".to_string(), vec![key("username", 1)]),
        ]
    );
}

#[test]
fn a_range_shows_what_was_stored() {
    let stored = vec![
        event(1, 100, 200),
        event(2, 150, 260),
        event(3, 150, 260),
        event(1, 500, 600),
        event(1, 700, 800),
        event(1, 10, 20),
    ];
    let query = Database::list_events_range(vec![id(1), id(2)], secs(650));
    let mut reply: Vec<Event> =
        stored.iter().filter(|e| query.matches(e)).map(|e| e.duplicate()).collect();
    reply.sort_by_key(|e| std::cmp::Reverse(e.end.as_nanos()));
    let groups = group_range(&reply, secs(90));
    for e in &stored {
        let shown = groups.iter().any(|g| g.start <= e.start && e.end <= g.end);
        let asked = query.matches(e) && secs(90) <= e.end;
        assert!(!asked || shown);
    }
    assert_eq!(groups.len(), 3);
}
