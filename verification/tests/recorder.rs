use overnvr::dvr::{Feed, FrameCount, DVR};
use overnvr::model::{Alert, Event, Region, RegionRef};
use overnvr::mqtt::{Payload, Publication};
use overnvr::oid::ObjectId;
use overnvr::time::JsonDuration;

fn id(n: u32) -> ObjectId {
    ObjectId { high: 0, low: n }
}

fn secs(n: u64) -> JsonDuration {
    JsonDuration::from_secs(n)
}

fn region(camera: u32, name: &str, hold: u64) -> Region<()> {
    Region {
        camera_id: id(camera),
        region_name: name.to_string(),
        classes: vec!["person".to_string(), "car".to_string()],
        hold_time: secs(hold),
        shape: (),
        last_trigger: None,
        last_event: None,
    }
}

fn reference(camera: u32, name: &str) -> RegionRef {
    RegionRef { camera_id: id(camera), region_name: name.to_string() }
}

fn event(n: u32, r: &Region<()>, at: u64) -> Event {
    DVR::<(), ()>::trigger_region(r, secs(at), id(9), id(n), id(n + 100))
}

fn alert(n: u32, regions: Vec<RegionRef>) -> Alert {
    Alert { _id: id(n), alert_name: format!("alert {}", n), regions }
}

fn dvr(regions: Vec<Region<()>>, alerts: Vec<Alert>) -> DVR<(), u32> {
    let mut dvr = DVR::new();
    dvr.start(regions, alerts);
    dvr
}

fn is_on(messages: &Vec<Publication>) -> bool {
    match &messages[messages.len() - 1].payload {
        Payload::Text(text) => text == "ON",
        _ => panic!("no state"),
    }
}

#[test]
fn an_event_opens_when_a_region_is_triggered() {
    let r = region(9, "door", 5);
    let e = event(1, &r, 30);
    assert_eq!(e._id, id(1));
    assert_eq!(e.camera_id, id(9));
    assert_eq!(e.start, secs(30));
    assert_eq!(e.end, secs(30));
    assert_eq!(e.thumb_start, "000000000000000000000065.jpg");
    assert_eq!(e.region_name, "door");
}

#[test]
fn a_region_is_triggered_held_and_left() {
    let mut r = region(9, "door", 5);
    let news = r.take_frame(0, secs(10), None);
    assert!(!news.triggered && !news.cleared && news.updates.is_empty());
    assert!(news.tells.is_empty());

    let opened = event(1, &r, 11);
    let news = r.take_frame(3, secs(11), Some(opened));
    assert!(news.triggered && !news.cleared);
    assert_eq!(news.updates, vec![id(1), id(1)]);
    assert_eq!(news.tells, vec![true]);
    assert_eq!(r.last_trigger, Some(secs(11)));

    let news = r.take_frame(1, secs(12), None);
    assert!(!news.triggered && !news.cleared);
    assert_eq!(news.updates, vec![id(1)]);

    let news = r.take_frame(0, secs(16), None);
    assert!(!news.cleared);
    let news = r.take_frame(0, secs(17), None);
    assert!(news.cleared);
    assert_eq!(news.tells, vec![false]);
    assert!(r.last_trigger.is_none() && r.last_event.is_none());
}

#[test]
fn a_region_whose_event_could_not_be_opened() {
    let mut r = region(9, "door", 5);
    let news = r.take_frame(2, secs(11), None);
    assert!(news.triggered);
    assert!(news.updates.is_empty() && news.tells.is_empty());
    assert!(r.last_trigger.is_some() && r.last_event.is_none());
    let offered = event(1, &r, 12);
    let news = r.take_frame(1, secs(12), Some(offered));
    assert!(!news.triggered && news.updates.is_empty());
    assert!(r.last_event.is_none());
}

#[test]
fn a_region_without_hold_time_is_left_at_once() {
    let mut r = region(9, "door", 0);
    let opened = event(1, &r, 11);
    let news = r.take_frame(1, secs(11), Some(opened));
    assert!(news.triggered && news.cleared);
    assert_eq!(news.tells, vec![true, false]);
    assert!(r.last_trigger.is_none() && r.last_event.is_none());
}

#[test]
fn frames_of_the_past_are_not_taken() {
    let mut r = region(9, "door", 5);
    r.take_frame(1, secs(11), None);
    assert!(!r.may_take(0, secs(10)));
    assert!(r.may_take(1, secs(10)));
    assert!(r.may_take(0, secs(11)));
}

#[test]
fn hits_are_of_a_watched_class_and_inside() {
    let r = region(9, "door", 5);
    let classes = vec!["person".to_string(), "dog".to_string(), "car".to_string()];
    assert_eq!(r.count_hits(&classes, &vec![true, true, true]), 2);
    assert_eq!(r.count_hits(&classes, &vec![false, true, true]), 1);
    assert_eq!(r.count_hits(&vec![], &vec![]), 0);
}

#[test]
fn a_frame_of_a_camera() {
    let mut d = dvr(vec![region(9, "door", 5), region(9, "gate", 5), region(8, "yard", 5)], vec![]);
    let classes = vec!["person".to_string()];
    let inside = vec![vec![true], vec![false]];
    assert!(d.may_take_frame(&id(9), secs(10), &classes, &inside));
    assert!(!d.may_take_frame(&id(9), secs(10), &classes, &vec![vec![true]]));
    assert!(!d.may_take_frame(&id(9), secs(10), &classes, &vec![vec![true], vec![]]));
    assert!(d.may_take_frame(&id(1), secs(10), &classes, &vec![]));
    assert_eq!(d.to_trigger(&id(9), &classes, &inside), vec![true, false]);
    let opened = event(1, &region(9, "door", 5), 10);
    let news = d.take_frame(&id(9), secs(10), &classes, &inside, vec![Some(opened), None]);
    assert_eq!(news.len(), 2);
    assert!(news[0].triggered && !news[1].triggered);
    assert_eq!(d.to_trigger(&id(9), &classes, &inside), vec![false, false]);
    assert!(d.take_frame(&id(1), secs(10), &classes, &vec![], vec![]).is_empty());
    let list = d.regions.get(&id(9)).unwrap();
    assert_eq!(list[0].last_trigger, Some(secs(10)));
    assert_eq!(list[1].last_trigger, None);
    assert_eq!(d.regions.get(&id(8)).unwrap()[0].last_trigger, None);
}

#[test]
fn stored_regions_go_under_their_cameras() {
    let d = dvr(vec![region(9, "a", 1), region(8, "b", 1), region(9, "c", 1)], vec![]);
    let names: Vec<String> =
        d.regions.get(&id(9)).unwrap().iter().map(|r| r.region_name.clone()).collect();
    assert_eq!(names, vec!["a", "c"]);
    assert_eq!(d.regions.get(&id(8)).unwrap().len(), 1);
    assert!(d.regions.get(&id(7)).is_none());
}

#[test]
fn stored_alerts_are_announced_and_listen() {
    let mut d: DVR<(), u32> = DVR::new();
    let messages = d.start(
        vec![region(9, "door", 5)],
        vec![alert(1, vec![reference(9, "door")]), alert(2, vec![reference(9, "door")])],
    );
    assert_eq!(messages.len(), 2);
    assert_eq!(messages[0].len(), 4);
    assert_eq!(d.region_alert.get(&reference(9, "door")), Some(&vec![id(1), id(2)]));
    assert_eq!(d.alerts.get(&id(2)).unwrap().alert_name, "alert 2");
}

#[test]
fn alerts_are_told_of_their_regions() {
    let mut d = dvr(
        vec![region(9, "door", 5)],
        vec![alert(1, vec![reference(9, "door")]), alert(2, vec![reference(9, "gate")])],
    );
    assert!(!is_on(&d.region_updates(&reference(9, "door"), false)[0]));
    let opened = event(1, &region(9, "door", 5), 10);
    d.take_frame(&id(9), secs(10), &vec!["car".to_string()], &vec![vec![true]], vec![Some(opened)]);
    let told = d.region_updates(&reference(9, "door"), true);
    assert_eq!(told.len(), 1);
    assert_eq!(told[0].len(), 3);
    assert!(is_on(&told[0]));
    assert!(!is_on(&d.region_updates(&reference(9, "gate"), false)[0]));
    assert!(d.region_updates(&reference(7, "door"), false).is_empty());
}

#[test]
fn alerts_come_and_go() {
    let mut d = dvr(vec![], vec![]);
    assert_eq!(d.add_alert(alert(1, vec![reference(9, "door")])).len(), 4);
    assert_eq!(d.remove_alert(&id(1)).len(), 2);
    assert!(d.remove_alert(&id(1)).is_empty());
    assert_eq!(d.region_alert.get(&reference(9, "door")), Some(&vec![]));
    assert!(d.alerts.get(&id(1)).is_none());
}

#[test]
fn an_alert_takes_the_place_of_another() {
    let mut d = dvr(vec![], vec![alert(1, vec![reference(9, "door")])]);
    let (gone, came) = d.alert_update(id(1), alert(5, vec![reference(9, "gate")]));
    assert_eq!(gone.len(), 2);
    assert_eq!(came.len(), 4);
    assert_eq!(d.region_alert.get(&reference(9, "door")), Some(&vec![]));
    assert_eq!(d.region_alert.get(&reference(9, "gate")), Some(&vec![id(1)]));
    assert_eq!(d.alerts.get(&id(1)).unwrap()._id, id(1));
    assert!(d.alerts.get(&id(5)).is_none());
    let (gone, came) = d.alert_update(id(2), alert(2, vec![]));
    assert!(gone.is_empty());
    assert_eq!(came.len(), 4);
}

#[test]
fn new_regions_take_the_place_of_the_old() {
    let mut d = dvr(vec![region(9, "a", 1), region(9, "b", 1)], vec![]);
    let left = d.update_regions(id(9), vec![region(9, "c", 1)]);
    assert_eq!(left.len(), 2);
    assert_eq!(left[0].region_name, "a");
    assert_eq!(left[1].region_name, "b");
    assert_eq!(d.regions.get(&id(9)).unwrap()[0].region_name, "c");
    assert!(d.update_regions(id(8), vec![]).is_empty());
    assert!(d.regions.get(&id(8)).unwrap().is_empty());
}

#[test]
fn clearing_and_updating_a_region() {
    let mut r = region(9, "door", 5);
    assert_eq!(DVR::<(), ()>::update_region(&r), None);
    let opened = event(4, &r, 10);
    r.take_frame(1, secs(10), Some(opened));
    assert_eq!(DVR::<(), ()>::update_region(&r), Some(id(4)));
    DVR::<(), ()>::clear_region(&mut r);
    assert!(r.last_event.is_none() && r.last_trigger.is_none());
}

#[test]
fn cameras_and_their_pictures() {
    let mut d = dvr(vec![], vec![]);
    let feed = |n: u32, detect: bool| Feed { stream_name: n.to_string(), detect, source: n };
    d.update_camera(id(9), vec![feed(1, false), feed(2, true), feed(3, true)]);
    d.update_camera(id(8), vec![feed(4, false)]);
    assert_eq!(d.camera_image(&id(9)).unwrap().source, 2);
    assert!(d.camera_image(&id(8)).is_none());
    assert!(d.camera_image(&id(7)).is_none());
    assert_eq!(d.remove_camera(&id(9)).unwrap().len(), 3);
    assert!(d.remove_camera(&id(9)).is_none());
    assert!(d.camera_image(&id(9)).is_none());
}

#[test]
fn frames_are_counted() {
    let mut count = FrameCount::new(secs(0));
    assert_eq!(count.add(3, secs(5)), None);
    assert_eq!(count.add(4, secs(6)), Some((7, secs(6))));
    assert_eq!(count.count, 0);
    assert_eq!(count.add(1, secs(10)), None);
}

#[test]
fn detections_around_a_time() {
    let query = DVR::<(), ()>::get_detections(id(9), secs(2));
    assert_eq!(query.source, vec![id(9)]);
    assert_eq!(query.from, secs(0));
    assert_eq!(query.to, secs(4));
}
