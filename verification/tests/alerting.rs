use overnvr::alerts::{leave_out, RegionAlerts, Regions};
use overnvr::keymap::KeyMap;
use overnvr::model::{Alert, Event, Region, RegionRef};
use overnvr::mqtt::{availability, Attr, Delivery, Payload, Publication};
use overnvr::oid::ObjectId;
use overnvr::time::JsonDuration;

fn id(n: u32) -> ObjectId {
    ObjectId { high: 0, low: n }
}

fn reference(camera: u32, name: &str) -> RegionRef {
    RegionRef { camera_id: id(camera), region_name: name.to_string() }
}

fn alert(n: u32, regions: Vec<RegionRef>) -> Alert {
    Alert { _id: id(n), alert_name: "Front".to_string(), regions }
}

fn region(camera: u32, name: &str, event: Option<u32>) -> Region<()> {
    Region {
        camera_id: id(camera),
        region_name: name.to_string(),
        classes: vec![],
        hold_time: JsonDuration::from_secs(5),
        shape: (),
        last_trigger: event.map(|_| JsonDuration::from_secs(1)),
        last_event: event.map(|n| Event {
            _id: id(n),
            camera_id: id(camera),
            start: JsonDuration::from_secs(1),
            end: JsonDuration::from_secs(1),
            thumb_start: "x.jpg".to_string(),
            region_name: name.to_string(),
        }),
    }
}

fn no_regions() -> Regions<()> {
    KeyMap::new()
}

fn text(message: &Publication) -> &str {
    match &message.payload {
        Payload::Text(text) => text,
        _ => panic!("no text"),
    }
}

fn state(attributes: &KeyMap<String, Attr>, name: &str) -> Option<bool> {
    match attributes.get(&name.to_string()) {
        Some(Attr::State(on)) => Some(*on),
        _ => None,
    }
}

fn last_event(attributes: &KeyMap<String, Attr>) -> String {
    match attributes.get(&"last_event".to_string()) {
        Some(Attr::Event(event)) => event.clone(),
        _ => panic!("no last event"),
    }
}

fn lasting(message: &Publication) -> bool {
    message.delivery == Delivery::AtLeastOnce && message.retain
}

const HEX: &str = "000000000000000000000007";

#[test]
fn an_alert_listens_once_to_each_region() {
    let mut lists: RegionAlerts = KeyMap::new();
    alert(1, vec![reference(9, "door")]).setup(&mut lists, &no_regions());
    let a = alert(7, vec![reference(9, "door"), reference(9, "gate"), reference(9, "door")]);
    a.setup(&mut lists, &no_regions());
    assert_eq!(lists.get(&reference(9, "door")), Some(&vec![id(1), id(7)]));
    assert_eq!(lists.get(&reference(9, "gate")), Some(&vec![id(7)]));
    assert_eq!(lists.get(&reference(8, "door")), None);
    a.setup(&mut lists, &no_regions());
    assert_eq!(lists.get(&reference(9, "door")), Some(&vec![id(1), id(7)]));
    alert(1, vec![reference(9, "door")]).setup(&mut lists, &no_regions());
    assert_eq!(lists.get(&reference(9, "door")), Some(&vec![id(7), id(1)]));
}

#[test]
fn an_alert_that_is_torn_down_is_gone() {
    let mut lists: RegionAlerts = KeyMap::new();
    alert(1, vec![reference(9, "door")]).setup(&mut lists, &no_regions());
    let a = alert(7, vec![reference(9, "door"), reference(9, "gate")]);
    a.setup(&mut lists, &no_regions());
    let messages = a.teardown(&mut lists);
    assert_eq!(lists.get(&reference(9, "door")), Some(&vec![id(1)]));
    assert_eq!(lists.get(&reference(9, "gate")), Some(&vec![]));
    assert_eq!(messages.len(), 2);
    assert_eq!(messages[0].topic, format!("homeassistant/binary_sensor/{}/config", HEX));
    assert_eq!(text(&messages[0]), "");
    assert_eq!(messages[1].topic, format!("homeassistant/camera/{}_image/config", HEX));
    assert_eq!(text(&messages[1]), "");
    assert!(messages.iter().all(lasting));
}

#[test]
fn all_messages_last() {
    let mut lists: RegionAlerts = KeyMap::new();
    let a = alert(7, vec![reference(9, "door")]);
    assert!(a.setup(&mut lists, &no_regions()).iter().all(lasting));
    assert!(a.send_update(&no_regions(), true).iter().all(lasting));
    assert!(lasting(&availability(true)) && lasting(&availability(false)));
}

#[test]
fn an_alert_is_announced() {
    let mut lists: RegionAlerts = KeyMap::new();
    let a = alert(7, vec![reference(9, "door")]);
    let messages = a.setup(&mut lists, &no_regions());
    assert_eq!(messages.len(), 4);

    assert_eq!(messages[0].topic, format!("homeassistant/binary_sensor/{}/config", HEX));
    match &messages[0].payload {
        Payload::Sensor(sensor) => {
            assert_eq!(sensor.name, "Front");
            assert_eq!(sensor.uniq_id, HEX);
            assert_eq!(sensor.state_topic, format!("homeassistant/binary_sensor/{}/state", HEX));
            assert_eq!(sensor.device_class, "motion");
            assert_eq!(sensor.avty_t, "overnvr_rust/available");
            assert_eq!(sensor.json_attr_t, format!("homeassistant/binary_sensor/{}/attr", HEX));
            assert_eq!(sensor.device.identifiers, HEX);
            assert_eq!(sensor.device.name, "Front");
            assert_eq!(sensor.device.sw_version, "v0.0.1");
            assert_eq!(sensor.device.model, "OverNVR Rust");
            assert_eq!(sensor.device.manufacturer, "echo1001");
        }
        _ => panic!("no sensor"),
    }

    assert_eq!(messages[1].topic, format!("homeassistant/camera/{}_image/config", HEX));
    match &messages[1].payload {
        Payload::Camera(camera) => {
            assert_eq!(camera.name, "Front");
            assert_eq!(camera.uniq_id, format!("{}_image", HEX));
            assert_eq!(camera.t, format!("camera/{}_image/image", HEX));
            assert_eq!(camera.avty_t, "overnvr_rust/available");
            assert_eq!(camera.json_attr_t, format!("homeassistant/binary_sensor/{}/attr", HEX));
            assert_eq!(camera.device.identifiers, HEX);
        }
        _ => panic!("no camera"),
    }

    assert_eq!(messages[2].topic, format!("homeassistant/binary_sensor/{}/attr", HEX));
    assert_eq!(messages[3].topic, format!("homeassistant/binary_sensor/{}/state", HEX));
    assert_eq!(text(&messages[3]), "OFF");
}

#[test]
fn an_alert_is_on_while_an_event_is_open() {
    let mut regions = no_regions();
    regions.insert(id(9), vec![region(9, "door", Some(11)), region(9, "gate", None)]);
    regions.insert(id(8), vec![region(8, "yard", Some(12))]);
    let a = alert(7, vec![reference(9, "door"), reference(9, "gate"), reference(8, "yard")]);
    let messages = a.send_update(&regions, true);
    assert_eq!(messages.len(), 3);
    assert_eq!(messages[0].topic, format!("camera/{}_image/image", HEX));
    assert!(matches!(messages[0].payload, Payload::Image));
    match &messages[1].payload {
        Payload::Attributes(attributes) => {
            assert_eq!(state(attributes, "door"), Some(true));
            assert_eq!(state(attributes, "gate"), Some(false));
            assert_eq!(state(attributes, "yard"), Some(true));
            assert_eq!(last_event(attributes), id(12).to_hex());
        }
        _ => panic!("no attributes"),
    }
    assert_eq!(text(&messages[2]), "ON");
}

#[test]
fn an_alert_without_open_events_is_off() {
    let mut regions = no_regions();
    regions.insert(id(9), vec![region(9, "door", None)]);
    let a = alert(7, vec![reference(9, "door"), reference(3, "nowhere")]);
    let messages = a.send_update(&regions, false);
    assert_eq!(messages.len(), 2);
    match &messages[0].payload {
        Payload::Attributes(attributes) => {
            assert_eq!(state(attributes, "door"), Some(false));
            assert_eq!(state(attributes, "nowhere"), Some(false));
            assert_eq!(state(attributes, "gate"), None);
            assert_eq!(last_event(attributes), "");
        }
        _ => panic!("no attributes"),
    }
    assert_eq!(text(&messages[1]), "OFF");
}

#[test]
fn the_last_region_of_a_name_tells_the_event() {
    let mut regions = no_regions();
    regions.insert(
        id(9),
        vec![region(9, "door", Some(11)), region(9, "door", Some(12)), region(9, "door", None)],
    );
    let a = alert(7, vec![reference(9, "door")]);
    match &a.send_update(&regions, false)[0].payload {
        Payload::Attributes(attributes) => assert_eq!(last_event(attributes), id(12).to_hex()),
        _ => panic!("no attributes"),
    }
}

#[test]
fn a_region_that_is_called_like_the_last_event() {
    let mut regions = no_regions();
    regions.insert(id(9), vec![region(9, "last_event", Some(11))]);
    let a = alert(7, vec![reference(9, "last_event")]);
    match &a.send_update(&regions, false)[0].payload {
        Payload::Attributes(attributes) => assert_eq!(last_event(attributes), id(11).to_hex()),
        _ => panic!("no attributes"),
    }
}

#[test]
fn leaving_out_takes_every_occurrence() {
    assert_eq!(leave_out(&vec![id(1), id(2), id(1), id(3)], id(1)), vec![id(2), id(3)]);
    assert_eq!(leave_out(&vec![], id(1)), vec![]);
}

#[test]
fn regions_and_references() {
    let r = region(9, "door", None);
    assert!(r.eq(&reference(9, "door")));
    assert!(!r.eq(&reference(9, "gate")));
    assert!(!r.eq(&reference(8, "door")));
    let named = r.reference();
    assert!(r.eq(&named));
    assert_eq!(named.duplicate().region_name, "door");
}

#[test]
fn availability_messages() {
    let online = availability(true);
    assert_eq!(online.topic, "overnvr_rust/available");
    assert_eq!(text(&online), "online");
    assert_eq!(text(&availability(false)), "offline");
}

#[test]
fn a_map_keeps_one_value_for_each_key() {
    let mut map: KeyMap<String, u32> = KeyMap::new();
    assert!(!map.contains_key(&"a".to_string()));
    map.insert("a".to_string(), 1);
    map.insert("b".to_string(), 2);
    map.insert("a".to_string(), 3);
    assert_eq!(map.get(&"a".to_string()), Some(&3));
    assert_eq!(map.remove(&"b".to_string()), Some(2));
    assert_eq!(map.remove(&"b".to_string()), None);
    assert_eq!(map.into_entries(), vec![("a".to_string(), 3)]);
}
