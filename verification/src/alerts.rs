//! Alerts: which regions they listen to and what they publish.

use crate::keymap::KeyMap;
use crate::model::{Alert, Region, RegionRef};
use crate::mqtt::{Attr, BinarySensor, Camera, Device, Payload, Publication};
use crate::oid::{hex_of, ObjectId};
use crate::text::{join2, join3};
use vstd::prelude::*;

verus! {

/// The regions of each camera.
pub type Regions<S> = KeyMap<ObjectId, Vec<Region<S>>>;

/// The alerts that listen to each region, in the order in which they came.
pub type RegionAlerts = KeyMap<RegionRef, Vec<ObjectId>>;

/// The list without `id`.
pub open spec fn without(list: Seq<ObjectId>, id: ObjectId) -> Seq<ObjectId>
    decreases list.len(),
{
    if list.len() == 0 {
        Seq::empty()
    } else if list.last() == id {
        without(list.drop_last(), id)
    } else {
        without(list.drop_last(), id).push(list.last())
    }
}

/// Leaving `id` out takes out every occurrence and nothing else, and leaving it
/// out once more changes nothing.
pub proof fn without_leaves_the_others(list: Seq<ObjectId>, id: ObjectId)
    ensures
        !without(list, id).contains(id),
        forall|other: ObjectId|
            other != id ==> (#[trigger] without(list, id).contains(other) <==> list.contains(other)),
        without(without(list, id), id) == without(list, id),
        list.no_duplicates() ==> without(list, id).no_duplicates(),
        !list.contains(id) ==> without(list, id) == list,
        without(without(list, id).push(id), id) == without(list, id),
    decreases list.len(),
{
    if list.len() > 0 {
        let rest = list.drop_last();
        let last = list.last();
        without_leaves_the_others(rest, id);
        assert(list == rest.push(last));
        let out = without(rest, id);
        if !list.contains(id) {
            assert(list[list.len() - 1] != id);
            assert(!rest.contains(id)) by {
                if rest.contains(id) {
                    let i = choose|i: int| 0 <= i < rest.len() && rest[i] == id;
                    assert(list[i] == id);
                }
            }
        }
        assert forall|other: ObjectId| other != id implies (#[trigger] without(list, id).contains(
            other,
        ) <==> list.contains(other)) by {
            assert(rest.push(last).contains(other) <==> rest.contains(other) || other == last) by {
                if rest.contains(other) {
                    let i = choose|i: int| 0 <= i < rest.len() && rest[i] == other;
                    assert(rest.push(last)[i] == other);
                }
                if other == last {
                    assert(rest.push(last)[rest.len() as int] == last);
                }
            }
            assert(out.push(last).contains(other) <==> out.contains(other) || other == last) by {
                if out.contains(other) {
                    let i = choose|i: int| 0 <= i < out.len() && out[i] == other;
                    assert(out.push(last)[i] == other);
                }
                if other == last {
                    assert(out.push(last)[out.len() as int] == last);
                }
            }
        }
        if last != id {
            assert(out.push(last).drop_last() == out);
            assert(!out.push(last).contains(id));
            if list.no_duplicates() {
                assert(!rest.contains(last)) by {
                    if rest.contains(last) {
                        let i = choose|i: int| 0 <= i < rest.len() && rest[i] == last;
                        assert(list[i] == list[list.len() - 1]);
                    }
                }
                assert(!out.contains(last));
            }
        }
    }
    assert(without(list, id).push(id).drop_last() == without(list, id));
    if list.len() == 0 {
        assert(without(list, id).push(id).last() == id);
    }
}

/// The list without `id`.
pub fn leave_out(list: &Vec<ObjectId>, id: ObjectId) -> (r: Vec<ObjectId>)
    ensures
        r@ == without(list@, id),
{
    let mut out: Vec<ObjectId> = Vec::new();
    let mut i: usize = 0;
    while i < list.len()
        invariant
            i <= list@.len(),
            out@ == without(list@.take(i as int), id),
        decreases list@.len() - i,
    {
        assert(list@.take(i + 1).drop_last() == list@.take(i as int));
        if list[i] != id {
            out.push(list[i]);
        }
        i += 1;
    }
    assert(list@.take(i as int) == list@);
    out
}

impl<S> Region<S> {
    /// Whether `reference` names this region.
    pub open spec fn is_named(self, reference: RegionRef) -> bool {
        self.camera_id == reference.camera_id && self.region_name@ == reference.region_name@
    }

    /// Whether `reference` names this region.
    pub fn eq(&self, reference: &RegionRef) -> (r: bool)
        ensures
            r == self.is_named(*reference),
    {
        self.camera_id == reference.camera_id && self.region_name == reference.region_name
    }

    /// The reference that names this region.
    pub fn reference(&self) -> (r: RegionRef)
        ensures
            self.is_named(r),
            r@ == (self.camera_id, self.region_name@),
    {
        RegionRef { camera_id: self.camera_id, region_name: self.region_name.clone() }
    }
}

/// The event that is open in the last region of `list` that `reference` names
/// and that has one open.
pub open spec fn open_in<S>(list: Seq<Region<S>>, reference: RegionRef) -> Option<ObjectId>
    decreases list.len(),
{
    if list.len() == 0 {
        None
    } else if list.last().is_named(reference) && list.last().last_event is Some {
        Some(list.last().last_event->0._id)
    } else {
        open_in(list.drop_last(), reference)
    }
}

/// The event that is open in the region that `reference` names.
pub open spec fn open_event<S>(
    regions: Map<int, Vec<Region<S>>>,
    reference: RegionRef,
) -> Option<ObjectId> {
    if regions.dom().contains(reference.camera_id@) {
        open_in(regions[reference.camera_id@]@, reference)
    } else {
        None
    }
}

/// The event that is open in the last of the regions that has one open.
pub open spec fn last_open<S>(
    regions: Map<int, Vec<Region<S>>>,
    references: Seq<RegionRef>,
) -> Option<ObjectId>
    decreases references.len(),
{
    if references.len() == 0 {
        None
    } else if open_event(regions, references.last()) is Some {
        open_event(regions, references.last())
    } else {
        last_open(regions, references.drop_last())
    }
}

/// An event is open in what a reference names exactly when it is open in a region
/// of that camera that bears the name.
pub proof fn event_is_open_in_a_region<S>(list: Seq<Region<S>>, reference: RegionRef)
    ensures
        open_in(list, reference) is Some <==> exists|i: int|
            0 <= i < list.len() && (#[trigger] list[i]).is_named(reference)
                && list[i].last_event is Some,
    decreases list.len(),
{
    if list.len() > 0 {
        let rest = list.drop_last();
        let last = list.len() - 1;
        event_is_open_in_a_region(rest, reference);
        if list[last].is_named(reference) && list[last].last_event is Some {
        } else {
            assert forall|i: int|
                0 <= i < list.len() && (#[trigger] list[i]).is_named(reference)
                    && list[i].last_event is Some implies rest[i] == list[i] && i < rest.len() by {}
            if open_in(rest, reference) is Some {
                let i = choose|i: int|
                    0 <= i < rest.len() && (#[trigger] rest[i]).is_named(reference)
                        && rest[i].last_event is Some;
                assert(list[i] == rest[i]);
            }
        }
    }
}

/// An alert is on exactly while an event is open in one of its regions.
pub proof fn alert_is_on_while_an_event_is_open<S>(
    regions: Map<int, Vec<Region<S>>>,
    references: Seq<RegionRef>,
)
    ensures
        last_open(regions, references) is Some <==> exists|i: int|
            0 <= i < references.len() && open_event(regions, #[trigger] references[i]) is Some,
    decreases references.len(),
{
    if references.len() > 0 {
        let rest = references.drop_last();
        let last = references.len() - 1;
        alert_is_on_while_an_event_is_open(regions, rest);
        if open_event(regions, references[last]) is None {
            assert forall|i: int|
                0 <= i < references.len() && open_event(
                    regions,
                    #[trigger] references[i],
                ) is Some implies rest[i] == references[i] && i < rest.len() by {}
            if last_open(regions, rest) is Some {
                let i = choose|i: int|
                    0 <= i < rest.len() && open_event(regions, #[trigger] rest[i]) is Some;
                assert(references[i] == rest[i]);
            }
        }
    }
}

/// Whether one of the regions bears the name.
pub open spec fn has_name(references: Seq<RegionRef>, name: Seq<char>) -> bool {
    exists|i: int| 0 <= i < references.len() && (#[trigger] references[i]).region_name@ == name
}

/// Whether an event is open in one of the regions of that name.
pub open spec fn name_is_on<S>(
    regions: Map<int, Vec<Region<S>>>,
    references: Seq<RegionRef>,
    name: Seq<char>,
) -> bool {
    exists|i: int|
        0 <= i < references.len() && (#[trigger] references[i]).region_name@ == name && open_event(
            regions,
            references[i],
        ) is Some
}

/// The name of the attribute that tells the last event.
pub open spec fn last_event_key() -> Seq<char> {
    "last_event"@
}

/// Whether the attributes tell the state of an alert on `references`: for the
/// name of each region whether an event is open in it, and the last event, if
/// one is open.
pub open spec fn tells_state<S>(
    attributes: Map<Seq<char>, Attr>,
    regions: Map<int, Vec<Region<S>>>,
    references: Seq<RegionRef>,
) -> bool {
    &&& forall|name: Seq<char>| #[trigger]
        attributes.dom().contains(name) <==> has_name(references, name) || name == last_event_key()
    &&& forall|name: Seq<char>|
        attributes.dom().contains(name) && name != last_event_key() ==> #[trigger] attributes[name]
            == Attr::State(name_is_on(regions, references, name))
    &&& attributes[last_event_key()] matches Attr::Event(text) && text@ == match last_open(
        regions,
        references,
    ) {
        Some(event) => hex_of(event),
        None => Seq::empty(),
    }
}

/// A topic of the sensor of an alert.
pub open spec fn sensor_topic(alert: ObjectId, leaf: Seq<char>) -> Seq<char> {
    "homeassistant/binary_sensor/"@ + hex_of(alert) + leaf
}

/// The topic that announces the picture of an alert.
pub open spec fn picture_config_topic(alert: ObjectId) -> Seq<char> {
    "homeassistant/camera/"@ + hex_of(alert) + "_image/config"@
}

/// The topic of the picture of an alert.
pub open spec fn picture_topic(alert: ObjectId) -> Seq<char> {
    "camera/"@ + hex_of(alert) + "_image/image"@
}

/// Whether the device stands for the alert.
pub open spec fn is_device_of(device: Device, alert: Alert) -> bool {
    &&& device.identifiers@ == hex_of(alert._id)
    &&& device.name@ == alert.alert_name@
    &&& device.sw_version@ == "v0.0.1"@
    &&& device.model@ == "OverNVR Rust"@
    &&& device.manufacturer@ == "echo1001"@
}

/// Whether the message announces the sensor of the alert.
pub open spec fn announces_sensor(message: Publication, alert: Alert) -> bool {
    &&& message.is_lasting()
    &&& message.topic@ == sensor_topic(alert._id, "/config"@)
    &&& message.payload matches Payload::Sensor(sensor) && {
        &&& sensor.name@ == alert.alert_name@
        &&& sensor.uniq_id@ == hex_of(alert._id)
        &&& sensor.state_topic@ == sensor_topic(alert._id, "/state"@)
        &&& sensor.device_class@ == "motion"@
        &&& sensor.avty_t@ == "overnvr_rust/available"@
        &&& sensor.json_attr_t@ == sensor_topic(alert._id, "/attr"@)
        &&& is_device_of(sensor.device, alert)
    }
}

/// Whether the message announces the picture of the alert.
pub open spec fn announces_picture(message: Publication, alert: Alert) -> bool {
    &&& message.is_lasting()
    &&& message.topic@ == picture_config_topic(alert._id)
    &&& message.payload matches Payload::Camera(camera) && {
        &&& camera.name@ == alert.alert_name@
        &&& camera.uniq_id@ == hex_of(alert._id) + "_image"@
        &&& camera.t@ == picture_topic(alert._id)
        &&& camera.avty_t@ == "overnvr_rust/available"@
        &&& camera.json_attr_t@ == sensor_topic(alert._id, "/attr"@)
        &&& is_device_of(camera.device, alert)
    }
}

/// Whether the message is a text under a topic, which arrives at least once and is
/// retained.
pub open spec fn is_text(message: Publication, topic: Seq<char>, text: Seq<char>) -> bool {
    &&& message.is_lasting()
    &&& message.topic@ == topic
    &&& message.payload matches Payload::Text(t) && t@ == text
}

/// Whether the messages tell the state of the alert: its picture, if there is a
/// new one, then its attributes, then whether it is on. Each arrives at least once
/// and is retained.
pub open spec fn updates<S>(
    messages: Seq<Publication>,
    alert: Alert,
    regions: Map<int, Vec<Region<S>>>,
    image: bool,
) -> bool {
    let n: int = if image {
        1
    } else {
        0
    };
    &&& messages.len() == n + 2
    &&& forall|i: int| 0 <= i < messages.len() ==> (#[trigger] messages[i]).is_lasting()
    &&& image ==> messages[0].topic@ == picture_topic(alert._id) && messages[0].payload is Image
    &&& messages[n].topic@ == sensor_topic(alert._id, "/attr"@)
    &&& messages[n].payload matches Payload::Attributes(attributes) && tells_state(
        attributes@,
        regions,
        alert.regions@,
    )
    &&& is_text(
        messages[n + 1],
        sensor_topic(alert._id, "/state"@),
        if last_open(regions, alert.regions@) is Some {
            "ON"@
        } else {
            "OFF"@
        },
    )
}

/// What `RegionAlerts` holds for a region: nothing stands for an empty list.
pub open spec fn listeners(
    alerts: Map<(ObjectId, Seq<char>), Vec<ObjectId>>,
    region: (ObjectId, Seq<char>),
) -> Seq<ObjectId> {
    if alerts.dom().contains(region) {
        alerts[region]@
    } else {
        Seq::empty()
    }
}

/// Whether one of the references names the region.
pub open spec fn names_region(
    references: Seq<RegionRef>,
    region: (ObjectId, Seq<char>),
) -> bool {
    exists|i: int| 0 <= i < references.len() && (#[trigger] references[i])@ == region
}

/// Whether the alert was put last in the list of `region`, where it now occurs
/// once, if it is one of the regions of the alert. The lists of other regions
/// are what they were.
pub open spec fn enlisted_at(
    before: Map<(ObjectId, Seq<char>), Vec<ObjectId>>,
    after: Map<(ObjectId, Seq<char>), Vec<ObjectId>>,
    references: Seq<RegionRef>,
    alert: ObjectId,
    region: (ObjectId, Seq<char>),
) -> bool {
    if names_region(references, region) {
        &&& after.dom().contains(region)
        &&& after[region]@ == without(listeners(before, region), alert).push(alert)
    } else {
        &&& after.dom().contains(region) == before.dom().contains(region)
        &&& before.dom().contains(region) ==> after[region] == before[region]
    }
}

/// Whether `after` is `before` with the alert put last in the lists of its
/// regions.
pub open spec fn enlisted(
    before: Map<(ObjectId, Seq<char>), Vec<ObjectId>>,
    after: Map<(ObjectId, Seq<char>), Vec<ObjectId>>,
    references: Seq<RegionRef>,
    alert: ObjectId,
) -> bool {
    forall|region: (ObjectId, Seq<char>)| #[trigger]
        enlisted_at(before, after, references, alert, region)
}

/// Whether the alert was taken out of the list of `region`, if it is one of the
/// regions of the alert and has a list. The lists of other regions are what they
/// were.
pub open spec fn delisted_at(
    before: Map<(ObjectId, Seq<char>), Vec<ObjectId>>,
    after: Map<(ObjectId, Seq<char>), Vec<ObjectId>>,
    references: Seq<RegionRef>,
    alert: ObjectId,
    region: (ObjectId, Seq<char>),
) -> bool {
    &&& after.dom().contains(region) == before.dom().contains(region)
    &&& before.dom().contains(region) ==> if names_region(references, region) {
        after[region]@ == without(before[region]@, alert)
    } else {
        after[region] == before[region]
    }
}

/// Whether `after` is `before` with the alert taken out of the lists of its
/// regions.
pub open spec fn delisted(
    before: Map<(ObjectId, Seq<char>), Vec<ObjectId>>,
    after: Map<(ObjectId, Seq<char>), Vec<ObjectId>>,
    references: Seq<RegionRef>,
    alert: ObjectId,
) -> bool {
    forall|region: (ObjectId, Seq<char>)| #[trigger]
        delisted_at(before, after, references, alert, region)
}

/// Whether the messages announce the alert and its state.
pub open spec fn announces<S>(
    messages: Seq<Publication>,
    alert: Alert,
    regions: Map<int, Vec<Region<S>>>,
) -> bool {
    &&& messages.len() == 4
    &&& announces_sensor(messages[0], alert)
    &&& announces_picture(messages[1], alert)
    &&& updates(messages.skip(2), alert, regions, false)
}

/// Whether the messages take back what announced the alert.
pub open spec fn retracts(messages: Seq<Publication>, alert: Alert) -> bool {
    &&& messages.len() == 2
    &&& is_text(messages[0], sensor_topic(alert._id, "/config"@), Seq::empty())
    &&& is_text(messages[1], picture_config_topic(alert._id), Seq::empty())
}

/// No alert is left behind: once an alert was set up and torn down, it listens
/// to none of its regions, and all the others listen as they did before, in the
/// same order. If it listened to none of them before, all is as it was.
pub proof fn torn_down_alert_is_gone(
    before: Map<(ObjectId, Seq<char>), Vec<ObjectId>>,
    between: Map<(ObjectId, Seq<char>), Vec<ObjectId>>,
    after: Map<(ObjectId, Seq<char>), Vec<ObjectId>>,
    references: Seq<RegionRef>,
    alert: ObjectId,
)
    requires
        enlisted(before, between, references, alert),
        delisted(between, after, references, alert),
    ensures
        forall|region: (ObjectId, Seq<char>)| #[trigger] names_region(references, region)
            ==> listeners(after, region) == without(listeners(before, region), alert),
        forall|region: (ObjectId, Seq<char>)| #[trigger] names_region(references, region)
            ==> !listeners(after, region).contains(alert),
        forall|region: (ObjectId, Seq<char>)|
            !listeners(before, region).contains(alert) ==> #[trigger] listeners(after, region)
                == listeners(before, region),
        forall|region: (ObjectId, Seq<char>)| !#[trigger] names_region(references, region)
            ==> listeners(after, region) == listeners(before, region),
{
    assert forall|region: (ObjectId, Seq<char>)| #[trigger]
        names_region(references, region) implies listeners(after, region) == without(
        listeners(before, region),
        alert,
    ) && !listeners(after, region).contains(alert) by {
        assert(enlisted_at(before, between, references, alert, region));
        assert(delisted_at(between, after, references, alert, region));
        without_leaves_the_others(listeners(before, region), alert);
    }
    assert forall|region: (ObjectId, Seq<char>)| !#[trigger]
        names_region(references, region) implies listeners(after, region) == listeners(
        before,
        region,
    ) by {
        assert(enlisted_at(before, between, references, alert, region));
        assert(delisted_at(between, after, references, alert, region));
    }
    assert forall|region: (ObjectId, Seq<char>)|
        !listeners(before, region).contains(alert) implies #[trigger] listeners(after, region)
        == listeners(before, region) by {
        without_leaves_the_others(listeners(before, region), alert);
        if names_region(references, region) {
            assert(listeners(after, region) == without(listeners(before, region), alert));
        }
    }
}

/// What an alert is announced with is what its state is told under: the topics of
/// its state, its attributes and its picture are those that the announcements
/// name. All of it arrives at least once and is retained.
pub proof fn announced_topics_are_used<S>(
    announced: Seq<Publication>,
    told: Seq<Publication>,
    alert: Alert,
    regions: Map<int, Vec<Region<S>>>,
    later: Map<int, Vec<Region<S>>>,
)
    requires
        announces(announced, alert, regions),
        updates(told, alert, later, true),
    ensures
        announced[0].payload matches Payload::Sensor(sensor) && sensor.state_topic@ == told[2].topic@
            && sensor.json_attr_t@ == told[1].topic@,
        announced[1].payload matches Payload::Camera(camera) && camera.t@ == told[0].topic@
            && camera.json_attr_t@ == told[1].topic@,
        announced[2].topic@ == told[1].topic@,
        announced[3].topic@ == told[2].topic@,
        forall|i: int| 0 <= i < announced.len() ==> (#[trigger] announced[i]).is_lasting(),
        forall|i: int| 0 <= i < told.len() ==> (#[trigger] told[i]).is_lasting(),
{
    let state = announced.skip(2);
    assert(state[0] == announced[2] && state[1] == announced[3]);
}

/// What took an alert back stands where what announced it stood: under the same
/// two topics, as empty messages that arrive at least once and are retained.
pub proof fn announcements_are_taken_back<S>(
    announced: Seq<Publication>,
    retracted: Seq<Publication>,
    alert: Alert,
    regions: Map<int, Vec<Region<S>>>,
)
    requires
        announces(announced, alert, regions),
        retracts(retracted, alert),
    ensures
        retracted.len() == 2,
        forall|i: int|
            0 <= i < 2 ==> {
                &&& (#[trigger] retracted[i]).topic@ == announced[i].topic@
                &&& retracted[i].is_lasting()
                &&& retracted[i].payload matches Payload::Text(text) && text@.len() == 0
            },
{
}

/// An alert that is set up listens to each of its regions, once, after the
/// alerts that were there, if no alert was there twice; setting it up again
/// changes nothing.
pub proof fn set_up_alert_listens_once(
    before: Map<(ObjectId, Seq<char>), Vec<ObjectId>>,
    after: Map<(ObjectId, Seq<char>), Vec<ObjectId>>,
    again: Map<(ObjectId, Seq<char>), Vec<ObjectId>>,
    references: Seq<RegionRef>,
    alert: ObjectId,
)
    requires
        enlisted(before, after, references, alert),
        enlisted(after, again, references, alert),
    ensures
        forall|region: (ObjectId, Seq<char>)| #[trigger]
            names_region(references, region) ==> {
                &&& listeners(after, region).last() == alert
                &&& listeners(after, region).len() > 0
                &&& !listeners(after, region).drop_last().contains(alert)
                &&& listeners(before, region).no_duplicates() ==> listeners(
                    after,
                    region,
                ).no_duplicates()
            },
        forall|region: (ObjectId, Seq<char>)| #[trigger]
            listeners(again, region) == listeners(after, region),
{
    assert forall|region: (ObjectId, Seq<char>)| #[trigger]
        names_region(references, region) implies {
        &&& listeners(after, region).last() == alert
        &&& listeners(after, region).len() > 0
        &&& !listeners(after, region).drop_last().contains(alert)
        &&& listeners(before, region).no_duplicates() ==> listeners(after, region).no_duplicates()
    } by {
        let list = listeners(before, region);
        assert(enlisted_at(before, after, references, alert, region));
        without_leaves_the_others(list, alert);
        assert(listeners(after, region).drop_last() == without(list, alert));
        let rest = without(list, alert);
        assert(forall|i: int| 0 <= i < rest.len() ==> rest.contains(#[trigger] rest[i]));
    }
    assert forall|region: (ObjectId, Seq<char>)| #[trigger]
        listeners(again, region) == listeners(after, region) by {
        assert(enlisted_at(before, after, references, alert, region));
        assert(enlisted_at(after, again, references, alert, region));
        without_leaves_the_others(listeners(before, region), alert);
    }
}

fn latest_in<S>(list: &Vec<Region<S>>, reference: &RegionRef) -> (r: Option<ObjectId>)
    ensures
        r == open_in(list@, *reference),
{
    let mut latest: Option<ObjectId> = None;
    let mut i: usize = 0;
    while i < list.len()
        invariant
            i <= list@.len(),
            latest == open_in(list@.take(i as int), *reference),
        decreases list@.len() - i,
    {
        assert(list@.take(i + 1).drop_last() == list@.take(i as int));
        if list[i].eq(reference) {
            if let Some(event) = &list[i].last_event {
                latest = Some(event._id);
            }
        }
        i += 1;
    }
    assert(list@.take(i as int) == list@);
    latest
}

fn latest_event<S>(regions: &Regions<S>, reference: &RegionRef) -> (r: Option<ObjectId>)
    ensures
        r == open_event(regions@, *reference),
{
    match regions.get(&reference.camera_id) {
        Some(list) => latest_in(list, reference),
        None => None,
    }
}

impl Alert {
    fn device(&self) -> (r: Device)
        ensures
            is_device_of(r, *self),
    {
        Device {
            identifiers: self._id.to_hex(),
            name: self.alert_name.clone(),
            sw_version: "v0.0.1".to_owned(),
            model: "OverNVR Rust".to_owned(),
            manufacturer: "echo1001".to_owned(),
        }
    }

    fn sensor_topic(&self, leaf: &str) -> (r: String)
        ensures
            r@ == sensor_topic(self._id, leaf@),
    {
        join3("homeassistant/binary_sensor/", self._id.to_hex().as_str(), leaf)
    }

    fn picture_config_topic(&self) -> (r: String)
        ensures
            r@ == picture_config_topic(self._id),
    {
        join3("homeassistant/camera/", self._id.to_hex().as_str(), "_image/config")
    }

    fn picture_topic(&self) -> (r: String)
        ensures
            r@ == picture_topic(self._id),
    {
        join3("camera/", self._id.to_hex().as_str(), "_image/image")
    }

    /// The attributes that tell the state of the alert, and whether it is on.
    fn states<S>(&self, regions: &Regions<S>) -> (r: (KeyMap<String, Attr>, bool))
        ensures
            tells_state(r.0@, regions@, self.regions@),
            r.1 == (last_open(regions@, self.regions@) is Some),
    {
        let mut states: KeyMap<String, Attr> = KeyMap::new();
        let ghost refs = self.regions@;
        let mut i: usize = 0;
        while i < self.regions.len()
            invariant
                i <= refs.len(),
                refs == self.regions@,
                forall|name: Seq<char>| #[trigger]
                    states@.dom().contains(name) <==> has_name(refs.take(i as int), name),
                forall|name: Seq<char>| states@.dom().contains(name) ==> #[trigger] states@[name]
                    == Attr::State(false),
            decreases refs.len() - i,
        {
            let ghost before = states@;
            states.insert(self.regions[i].region_name.clone(), Attr::State(false));
            proof {
                assert forall|name: Seq<char>| #[trigger] states@.dom().contains(name) <==> has_name(
                    refs.take(i + 1),
                    name,
                ) by {
                    lemma_one_more_name(refs, i as int, name);
                }
            }
            i += 1;
        }
        states.insert("last_event".to_owned(), Attr::Event(String::new()));
        assert(refs.take(i as int) == refs);
        let mut triggered: bool = false;
        let mut k: usize = 0;
        proof {
            assert forall|name: Seq<char>|
                states@.dom().contains(name) && name != last_event_key() implies #[trigger] states@[name]
                == Attr::State(name_is_on(regions@, refs.take(0), name)) by {}
        }
        while k < self.regions.len()
            invariant
                k <= refs.len(),
                refs == self.regions@,
                triggered == (last_open(regions@, refs.take(k as int)) is Some),
                forall|name: Seq<char>| #[trigger]
                    states@.dom().contains(name) <==> has_name(refs, name) || name
                        == last_event_key(),
                forall|name: Seq<char>|
                    states@.dom().contains(name) && name != last_event_key() ==> #[trigger] states@[name]
                        == Attr::State(name_is_on(regions@, refs.take(k as int), name)),
                states@[last_event_key()] matches Attr::Event(text) && text@ == match last_open(
                    regions@,
                    refs.take(k as int),
                ) {
                    Some(event) => hex_of(event),
                    None => Seq::empty(),
                },
            decreases refs.len() - k,
        {
            let ghost before = states@;
            let reference: &RegionRef = &self.regions[k];
            proof {
                assert(refs.take(k + 1).drop_last() == refs.take(k as int));
                assert(refs.take(k + 1).last() == refs[k as int]);
                assert(has_name(refs, reference.region_name@)) by {
                    assert(refs[k as int].region_name@ == reference.region_name@);
                }
            }
            if let Some(event) = latest_event(regions, reference) {
                triggered = true;
                states.insert(reference.region_name.clone(), Attr::State(true));
                states.insert("last_event".to_owned(), Attr::Event(event.to_hex()));
            }
            proof {
                assert forall|name: Seq<char>|
                    states@.dom().contains(name) && name != last_event_key() implies #[trigger] states@[name]
                    == Attr::State(name_is_on(regions@, refs.take(k + 1), name)) by {
                    lemma_one_more_on(regions@, refs, k as int, name);
                    assert(before.dom().contains(name));
                }
            }
            k += 1;
        }
        assert(refs.take(k as int) == refs);
        (states, triggered)
    }

    /// Puts the alert in the lists of its regions, and gives the messages that
    /// announce it.
    pub fn setup<S>(&self, region_alert: &mut RegionAlerts, regions: &Regions<S>) -> (r: Vec<
        Publication,
    >)
        ensures
            enlisted(old(region_alert)@, final(region_alert)@, self.regions@, self._id),
            announces(r@, *self, regions@),
    {
        self.enlist(region_alert);
        let mut messages: Vec<Publication> = Vec::new();
        messages.push(
            Publication::new(
                self.sensor_topic("/config"),
                Payload::Sensor(
                    BinarySensor {
                        name: self.alert_name.clone(),
                        uniq_id: self._id.to_hex(),
                        state_topic: self.sensor_topic("/state"),
                        device_class: "motion".to_owned(),
                        avty_t: "overnvr_rust/available".to_owned(),
                        json_attr_t: self.sensor_topic("/attr"),
                        device: self.device(),
                    },
                ),
            ),
        );
        messages.push(
            Publication::new(
                self.picture_config_topic(),
                Payload::Camera(
                    Camera {
                        name: self.alert_name.clone(),
                        uniq_id: join2(self._id.to_hex().as_str(), "_image"),
                        t: self.picture_topic(),
                        avty_t: "overnvr_rust/available".to_owned(),
                        json_attr_t: self.sensor_topic("/attr"),
                        device: self.device(),
                    },
                ),
            ),
        );
        let ghost announced = messages@;
        let mut state: Vec<Publication> = self.send_update(regions, false);
        let ghost told = state@;
        messages.append(&mut state);
        assert(messages@ == announced + told);
        assert(messages@.skip(2) == told);
        messages
    }

    fn enlist(&self, region_alert: &mut RegionAlerts)
        ensures
            enlisted(old(region_alert)@, final(region_alert)@, self.regions@, self._id),
    {
        let ghost before = region_alert@;
        let ghost refs = self.regions@;
        let mut i: usize = 0;
        assert(enlisted(before, region_alert@, refs.take(0), self._id));
        while i < self.regions.len()
            invariant
                i <= refs.len(),
                refs == self.regions@,
                enlisted(before, region_alert@, refs.take(i as int), self._id),
            decreases refs.len() - i,
        {
            let ghost current = region_alert@;
            let reference: &RegionRef = &self.regions[i];
            let mut list: Vec<ObjectId> = match region_alert.remove(reference) {
                Some(list) => leave_out(&list, self._id),
                None => Vec::new(),
            };
            list.push(self._id);
            region_alert.insert(reference.duplicate(), list);
            proof {
                let key = reference@;
                assert(list@ == without(listeners(current, key), self._id).push(self._id));
                without_leaves_the_others(listeners(before, key), self._id);
                assert forall|region: (ObjectId, Seq<char>)| #[trigger]
                    enlisted_at(before, region_alert@, refs.take(i + 1), self._id, region) by {
                    assert(enlisted_at(before, current, refs.take(i as int), self._id, region));
                    lemma_one_more_region(refs, i as int, region);
                }
            }
            i += 1;
        }
        assert(refs.take(i as int) == refs);
    }

    /// Takes the alert out of the lists of its regions, and gives the messages
    /// that take back what announced it.
    pub fn teardown(&self, region_alert: &mut RegionAlerts) -> (r: Vec<Publication>)
        ensures
            delisted(old(region_alert)@, final(region_alert)@, self.regions@, self._id),
            retracts(r@, *self),
    {
        let ghost before = region_alert@;
        let ghost refs = self.regions@;
        let mut i: usize = 0;
        assert(delisted(before, region_alert@, refs.take(0), self._id));
        while i < self.regions.len()
            invariant
                i <= refs.len(),
                refs == self.regions@,
                delisted(before, region_alert@, refs.take(i as int), self._id),
            decreases refs.len() - i,
        {
            let ghost current = region_alert@;
            let reference: &RegionRef = &self.regions[i];
            if let Some(list) = region_alert.remove(reference) {
                region_alert.insert(reference.duplicate(), leave_out(&list, self._id));
            }
            proof {
                let key = reference@;
                without_leaves_the_others(listeners(before, key), self._id);
                assert forall|region: (ObjectId, Seq<char>)| #[trigger]
                    delisted_at(before, region_alert@, refs.take(i + 1), self._id, region) by {
                    assert(delisted_at(before, current, refs.take(i as int), self._id, region));
                    lemma_one_more_region(refs, i as int, region);
                }
            }
            i += 1;
        }
        assert(refs.take(i as int) == refs);
        let mut messages: Vec<Publication> = Vec::new();
        messages.push(
            Publication::new(self.sensor_topic("/config"), Payload::Text(String::new())),
        );
        messages.push(
            Publication::new(self.picture_config_topic(), Payload::Text(String::new())),
        );
        messages
    }

    /// The messages that tell the state of the alert.
    pub fn send_update<S>(&self, regions: &Regions<S>, image: bool) -> (r: Vec<Publication>)
        ensures
            updates(r@, *self, regions@, image),
    {
        let (states, triggered): (KeyMap<String, Attr>, bool) = self.states(regions);
        let mut messages: Vec<Publication> = Vec::new();
        if image {
            messages.push(Publication::new(self.picture_topic(), Payload::Image));
        }
        messages.push(
            Publication::new(self.sensor_topic("/attr"), Payload::Attributes(states)),
        );
        let state: String = if triggered {
            "ON".to_owned()
        } else {
            "OFF".to_owned()
        };
        messages.push(
            Publication::new(self.sensor_topic("/state"), Payload::Text(state)),
        );
        messages
    }
}

proof fn lemma_one_more_region(
    references: Seq<RegionRef>,
    i: int,
    region: (ObjectId, Seq<char>),
)
    requires
        0 <= i < references.len(),
    ensures
        names_region(references.take(i + 1), region) <==> names_region(references.take(i), region)
            || references[i]@ == region,
{
    let less = references.take(i);
    let more = references.take(i + 1);
    if names_region(less, region) {
        let j = choose|j: int| 0 <= j < less.len() && (#[trigger] less[j])@ == region;
        assert(more[j] == less[j]);
    }
    if references[i]@ == region {
        assert(more[i] == references[i]);
    }
    if names_region(more, region) {
        let j = choose|j: int| 0 <= j < more.len() && (#[trigger] more[j])@ == region;
        if j < i {
            assert(less[j] == more[j]);
        }
    }
}

proof fn lemma_one_more_name(references: Seq<RegionRef>, i: int, name: Seq<char>)
    requires
        0 <= i < references.len(),
    ensures
        has_name(references.take(i + 1), name) <==> has_name(references.take(i), name)
            || references[i].region_name@ == name,
{
    let less = references.take(i);
    let more = references.take(i + 1);
    if has_name(less, name) {
        let j = choose|j: int| 0 <= j < less.len() && (#[trigger] less[j]).region_name@ == name;
        assert(more[j] == less[j]);
    }
    if references[i].region_name@ == name {
        assert(more[i] == references[i]);
    }
    if has_name(more, name) {
        let j = choose|j: int| 0 <= j < more.len() && (#[trigger] more[j]).region_name@ == name;
        if j < i {
            assert(less[j] == more[j]);
        }
    }
}

proof fn lemma_one_more_on<S>(
    regions: Map<int, Vec<Region<S>>>,
    references: Seq<RegionRef>,
    i: int,
    name: Seq<char>,
)
    requires
        0 <= i < references.len(),
    ensures
        name_is_on(regions, references.take(i + 1), name) <==> name_is_on(
            regions,
            references.take(i),
            name,
        ) || (references[i].region_name@ == name && open_event(regions, references[i]) is Some),
{
    let less = references.take(i);
    let more = references.take(i + 1);
    if name_is_on(regions, less, name) {
        let j = choose|j: int|
            0 <= j < less.len() && (#[trigger] less[j]).region_name@ == name && open_event(
                regions,
                less[j],
            ) is Some;
        assert(more[j] == less[j]);
    }
    if references[i].region_name@ == name && open_event(regions, references[i]) is Some {
        assert(more[i] == references[i]);
    }
    if name_is_on(regions, more, name) {
        let j = choose|j: int|
            0 <= j < more.len() && (#[trigger] more[j]).region_name@ == name && open_event(
                regions,
                more[j],
            ) is Some;
        if j < i {
            assert(less[j] == more[j]);
        }
    }
}

/// What is left of a list is all but the one that is left out, in the same order.
pub proof fn rest_keeps_its_order(list: Seq<ObjectId>, id: ObjectId)
    ensures
        without(list, id) == list.filter(|other: ObjectId| other != id),
    decreases list.len(),
{
    reveal(Seq::filter);
    if list.len() > 0 {
        rest_keeps_its_order(list.drop_last(), id);
    }
}

/// Whether an event is open in a region of the camera and the name that the
/// reference tells.
pub open spec fn is_open_for<S>(region: Region<S>, reference: RegionRef) -> bool {
    &&& region.camera_id == reference.camera_id
    &&& region.region_name@ == reference.region_name@
    &&& region.last_event is Some
}

/// The event that is open for a reference is that of the last region of its camera
/// and its name that has one open, and there is none if none of them has.
pub proof fn open_event_is_the_last<S>(regions: Map<int, Vec<Region<S>>>, reference: RegionRef)
    ensures
        !regions.dom().contains(reference.camera_id@) ==> open_event(regions, reference) is None,
        regions.dom().contains(reference.camera_id@) ==> ({
            let list = regions[reference.camera_id@]@;
            match open_event(regions, reference) {
                None => forall|i: int|
                    0 <= i < list.len() ==> !is_open_for(#[trigger] list[i], reference),
                Some(event) => exists|i: int|
                    0 <= i < list.len() && is_open_for(#[trigger] list[i], reference)
                        && list[i].last_event->0._id == event && forall|j: int|
                        i < j < list.len() ==> !is_open_for(#[trigger] list[j], reference),
            }
        }),
{
    if regions.dom().contains(reference.camera_id@) {
        lemma_open_in_is_the_last(regions[reference.camera_id@]@, reference);
    }
}

proof fn lemma_open_in_is_the_last<S>(list: Seq<Region<S>>, reference: RegionRef)
    ensures
        match open_in(list, reference) {
            None => forall|i: int|
                0 <= i < list.len() ==> !is_open_for(#[trigger] list[i], reference),
            Some(event) => exists|i: int|
                0 <= i < list.len() && is_open_for(#[trigger] list[i], reference)
                    && list[i].last_event->0._id == event && forall|j: int|
                    i < j < list.len() ==> !is_open_for(#[trigger] list[j], reference),
        },
    decreases list.len(),
{
    if list.len() > 0 {
        let rest = list.drop_last();
        let last = list.len() - 1;
        lemma_open_in_is_the_last(rest, reference);
        if is_open_for(list[last], reference) {
            assert(list[last].last_event->0._id == open_in(list, reference)->0);
        } else {
            match open_in(rest, reference) {
                None => {
                    assert forall|i: int| 0 <= i < list.len() implies !is_open_for(
                        #[trigger] list[i],
                        reference,
                    ) by {
                        if i < last {
                            assert(rest[i] == list[i]);
                        }
                    }
                },
                Some(event) => {
                    let i = choose|i: int|
                        0 <= i < rest.len() && is_open_for(#[trigger] rest[i], reference)
                            && rest[i].last_event->0._id == event && forall|j: int|
                            i < j < rest.len() ==> !is_open_for(#[trigger] rest[j], reference);
                    assert(list[i] == rest[i]);
                    assert forall|j: int| i < j < list.len() implies !is_open_for(
                        #[trigger] list[j],
                        reference,
                    ) by {
                        if j < last {
                            assert(rest[j] == list[j]);
                        }
                    }
                },
            }
        }
    }
}

/// The last event of an alert is the one that is open for the last of its regions
/// that has one open.
pub proof fn last_event_is_the_last<S>(
    regions: Map<int, Vec<Region<S>>>,
    references: Seq<RegionRef>,
)
    ensures
        match last_open(regions, references) {
            None => forall|i: int|
                0 <= i < references.len() ==> open_event(regions, #[trigger] references[i]) is None,
            Some(event) => exists|i: int|
                0 <= i < references.len() && open_event(regions, #[trigger] references[i]) == Some(
                    event,
                ) && forall|j: int|
                    i < j < references.len() ==> open_event(
                        regions,
                        #[trigger] references[j],
                    ) is None,
        },
    decreases references.len(),
{
    if references.len() > 0 {
        let rest = references.drop_last();
        let last = references.len() - 1;
        last_event_is_the_last(regions, rest);
        if open_event(regions, references[last]) is None {
            match last_open(regions, rest) {
                None => {
                    assert forall|i: int| 0 <= i < references.len() implies open_event(
                        regions,
                        #[trigger] references[i],
                    ) is None by {
                        if i < last {
                            assert(rest[i] == references[i]);
                        }
                    }
                },
                Some(event) => {
                    let i = choose|i: int|
                        0 <= i < rest.len() && open_event(regions, #[trigger] rest[i]) == Some(event)
                            && forall|j: int|
                            i < j < rest.len() ==> open_event(regions, #[trigger] rest[j]) is None;
                    assert(references[i] == rest[i]);
                    assert forall|j: int| i < j < references.len() implies open_event(
                        regions,
                        #[trigger] references[j],
                    ) is None by {
                        if j < last {
                            assert(rest[j] == references[j]);
                        }
                    }
                },
            }
        } else {
            assert(open_event(regions, references[last]) == last_open(regions, references));
        }
    }
}

/// The attributes of an alert tell, by name, of each of its regions whether an
/// event is open in one of that name, and which event was the last one; they tell
/// nothing else.
pub proof fn attributes_tell_each_region<S>(
    attributes: Map<Seq<char>, Attr>,
    regions: Map<int, Vec<Region<S>>>,
    references: Seq<RegionRef>,
    name: Seq<char>,
)
    requires
        tells_state(attributes, regions, references),
        name != "last_event"@,
    ensures
        attributes.dom().contains(name) <==> exists|i: int|
            0 <= i < references.len() && (#[trigger] references[i]).region_name@ == name,
        attributes.dom().contains(name) ==> (attributes[name] matches Attr::State(on) && (on
            <==> exists|i: int|
            0 <= i < references.len() && (#[trigger] references[i]).region_name@ == name
                && open_event(regions, references[i]) is Some)),
        attributes.dom().contains("last_event"@),
        attributes["last_event"@] matches Attr::Event(text) && match last_open(regions, references) {
            Some(event) => text@ == hex_of(event),
            None => text@.len() == 0,
        },
{
    assert(attributes.dom().contains("last_event"@));
}

/// What an update of an alert sends: its picture, if there is one, its attributes,
/// and `ON` exactly while an event is open for one of its regions.
pub proof fn update_tells_on_or_off<S>(
    messages: Seq<Publication>,
    alert: Alert,
    regions: Map<int, Vec<Region<S>>>,
    image: bool,
)
    requires
        updates(messages, alert, regions, image),
    ensures
        ({
            let sensor = "homeassistant/binary_sensor/"@ + hex_of(alert._id);
            let n: int = messages.len() - 2;
            &&& messages.len() == if image {
                3nat
            } else {
                2nat
            }
            &&& image ==> messages[0].topic@ == "camera/"@ + hex_of(alert._id) + "_image/image"@
                && messages[0].payload is Image
            &&& messages[n].topic@ == sensor + "/attr"@
            &&& messages[n].payload is Attributes
            &&& tells_state(messages[n].payload->Attributes_0@, regions, alert.regions@)
            &&& messages[n + 1].topic@ == sensor + "/state"@
            &&& messages[n + 1].payload is Text
            &&& messages[n + 1].payload->Text_0@ == if exists|i: int|
                0 <= i < alert.regions@.len() && open_event(
                    regions,
                    #[trigger] alert.regions@[i],
                ) is Some {
                "ON"@
            } else {
                "OFF"@
            }
            &&& forall|i: int|
                0 <= i < messages.len() ==> (#[trigger] messages[i]).retain
                    && messages[i].delivery is AtLeastOnce
        }),
{
    alert_is_on_while_an_event_is_open(regions, alert.regions@);
    assert forall|i: int| 0 <= i < messages.len() implies (#[trigger] messages[i]).retain
        && messages[i].delivery is AtLeastOnce by {
        assert(messages[i].is_lasting());
    }
}

/// How an alert is announced and taken back: as a motion sensor and a picture, under
/// topics that hold its identifier, and by empty messages under the same topics.
pub proof fn announcement_names_the_alert<S>(
    messages: Seq<Publication>,
    retracted: Seq<Publication>,
    alert: Alert,
    regions: Map<int, Vec<Region<S>>>,
)
    requires
        announces(messages, alert, regions),
        retracts(retracted, alert),
    ensures
        ({
            let id = hex_of(alert._id);
            let sensor = messages[0].payload->Sensor_0;
            let camera = messages[1].payload->Camera_0;
            &&& messages.len() == 4
            &&& messages[0].payload is Sensor && messages[1].payload is Camera
            &&& messages[0].topic@ == "homeassistant/binary_sensor/"@ + id + "/config"@
            &&& messages[1].topic@ == "homeassistant/camera/"@ + id + "_image/config"@
            &&& sensor.name@ == alert.alert_name@ && camera.name@ == alert.alert_name@
            &&& sensor.uniq_id@ == id && camera.uniq_id@ == id + "_image"@
            &&& sensor.state_topic@ == "homeassistant/binary_sensor/"@ + id + "/state"@
            &&& sensor.json_attr_t@ == "homeassistant/binary_sensor/"@ + id + "/attr"@
            &&& camera.json_attr_t@ == "homeassistant/binary_sensor/"@ + id + "/attr"@
            &&& camera.t@ == "camera/"@ + id + "_image/image"@
            &&& sensor.device_class@ == "motion"@
            &&& sensor.avty_t@ == "overnvr_rust/available"@
            &&& camera.avty_t@ == "overnvr_rust/available"@
            &&& sensor.device.identifiers@ == id && camera.device.identifiers@ == id
            &&& sensor.device.name@ == alert.alert_name@ && camera.device.name@ == alert.alert_name@
            &&& sensor.device.sw_version@ == "v0.0.1"@ && camera.device.sw_version@ == "v0.0.1"@
            &&& sensor.device.model@ == "OverNVR Rust"@ && camera.device.model@ == "OverNVR Rust"@
            &&& sensor.device.manufacturer@ == "echo1001"@ && camera.device.manufacturer@
                == "echo1001"@
            &&& updates(messages.skip(2), alert, regions, false)
            &&& retracted.len() == 2
            &&& retracted[0].topic@ == "homeassistant/binary_sensor/"@ + id + "/config"@
            &&& retracted[1].topic@ == "homeassistant/camera/"@ + id + "_image/config"@
            &&& retracted[0].payload is Text && retracted[0].payload->Text_0@.len() == 0
            &&& retracted[1].payload is Text && retracted[1].payload->Text_0@.len() == 0
        }),
{
}

/// Setting up an alert moves it to the end of the lists of the regions that it
/// names, by camera and by name, and of no other; tearing it down takes it out of
/// them.
pub proof fn alert_is_listed_where_it_belongs(
    before: Map<(ObjectId, Seq<char>), Vec<ObjectId>>,
    set_up: Map<(ObjectId, Seq<char>), Vec<ObjectId>>,
    torn_down: Map<(ObjectId, Seq<char>), Vec<ObjectId>>,
    references: Seq<RegionRef>,
    alert: ObjectId,
    region: (ObjectId, Seq<char>),
)
    requires
        enlisted(before, set_up, references, alert),
        delisted(before, torn_down, references, alert),
    ensures
        ({
            let list = if before.dom().contains(region) {
                before[region]@
            } else {
                Seq::empty()
            };
            let rest = list.filter(|other: ObjectId| other != alert);
            if exists|i: int|
                0 <= i < references.len() && (#[trigger] references[i]).camera_id == region.0
                    && references[i].region_name@ == region.1 {
                &&& set_up.dom().contains(region) && set_up[region]@ == rest.push(alert)
                &&& listeners(torn_down, region) == rest
            } else {
                &&& set_up.dom().contains(region) == before.dom().contains(region)
                &&& listeners(set_up, region) == list
                &&& listeners(torn_down, region) == list
            }
        }),
        torn_down.dom().contains(region) == before.dom().contains(region),
        listeners(before, region) == if before.dom().contains(region) {
            before[region]@
        } else {
            Seq::empty()
        },
{
    assert(enlisted_at(before, set_up, references, alert, region));
    assert(delisted_at(before, torn_down, references, alert, region));
    rest_keeps_its_order(listeners(before, region), alert);
    rest_keeps_its_order(Seq::empty(), alert);
    assert(without(Seq::empty(), alert) == Seq::<ObjectId>::empty());
    if exists|i: int|
        0 <= i < references.len() && (#[trigger] references[i]).camera_id == region.0
            && references[i].region_name@ == region.1 {
        let i = choose|i: int|
            0 <= i < references.len() && (#[trigger] references[i]).camera_id == region.0
                && references[i].region_name@ == region.1;
        assert(references[i]@ == region);
        assert(names_region(references, region));
    } else if names_region(references, region) {
        let i = choose|i: int| 0 <= i < references.len() && (#[trigger] references[i])@ == region;
        assert(references[i].camera_id == region.0);
    }
}

/// A reference names just the regions of its camera that bear its name.
pub proof fn reference_names_by_camera_and_name<S>(region: Region<S>, reference: RegionRef)
    ensures
        region.is_named(reference) <==> region.camera_id == reference.camera_id
            && region.region_name@ == reference.region_name@,
{
}

} // verus!
