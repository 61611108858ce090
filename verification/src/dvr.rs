//! The recorder: its cameras, the regions that are watched, and the alerts that
//! listen to them.

use crate::alerts::{
    announces, delisted, delisted_at, enlisted, enlisted_at, listeners, names_region,
    rest_keeps_its_order, retracts, updates, without, without_leaves_the_others, RegionAlerts,
    Regions,
};
use crate::database::{Database, DetectionQuery};
use crate::keymap::KeyMap;
use crate::model::{Alert, Event, Region, RegionRef};
use crate::mqtt::Publication;
use crate::oid::{hex_of, same_number_same_id, ObjectId};
use crate::text::{holds, join2};
use crate::time::{group_durations, same_nanos_same_duration, JsonDuration, NANOS_PER_SEC};
use vstd::prelude::*;

verus! {

broadcast use group_durations;

/// What became of a region in a frame.
#[derive(Debug)]
pub struct RegionNews {
    /// Whether something came into the region.
    pub triggered: bool,
    /// The events that last until the time of the frame, in the order in which
    /// that was found.
    pub updates: Vec<ObjectId>,
    /// Whether the region was left.
    pub cleared: bool,
    /// Each time that the alerts of the region are told of it, in order: whether
    /// they are told with the picture of the event.
    pub tells: Vec<bool>,
}

impl<S> Region<S> {
    /// Whether the region watches for things of the class.
    pub open spec fn is_watching(self, class_id: Seq<char>) -> bool {
        exists|i: int| 0 <= i < self.classes@.len() && #[trigger] self.classes@[i]@ == class_id
    }

    /// How many of the things seen count for the region: those of a class that
    /// it watches for and that lie inside of it.
    pub open spec fn hits(self, classes: Seq<String>, inside: Seq<bool>) -> nat
        decreases classes.len(),
    {
        if classes.len() == 0 {
            0
        } else {
            self.hits(classes.drop_last(), inside.drop_last()) + if self.is_watching(
                classes.last()@,
            ) && inside.last() {
                1nat
            } else {
                0
            }
        }
    }

    /// Whether a frame with so many hits triggers the region.
    pub open spec fn triggered_by(self, hits: nat) -> bool {
        hits > 0 && self.last_trigger is None
    }

    /// When the region last saw something, after the hits of a frame.
    pub open spec fn seen_at(self, hits: nat, pts: JsonDuration) -> Option<JsonDuration> {
        if hits > 0 {
            Some(pts)
        } else {
            self.last_trigger
        }
    }

    /// The open event after the hits of a frame. `opened` is the event that could
    /// be opened where the frame triggers the region.
    pub open spec fn event_after(self, hits: nat, opened: Option<Event>) -> Option<Event> {
        if self.triggered_by(hits) && opened is Some {
            opened
        } else {
            self.last_event
        }
    }

    /// How often the open event is found to last: once for each hit but the one
    /// that triggers the region.
    pub open spec fn lasting(self, hits: nat, opened: Option<Event>) -> nat {
        if self.event_after(hits, opened) is None {
            0
        } else if self.triggered_by(hits) {
            (hits - 1) as nat
        } else {
            hits
        }
    }

    /// Whether the frame can be compared with what was seen last: it does not
    /// come before it.
    pub open spec fn can_take(self, hits: nat, pts: JsonDuration) -> bool {
        hits == 0 ==> (self.last_trigger matches Some(last) ==> last@ <= pts@)
    }

    /// Whether the region is left at the time of the frame: nothing was seen in
    /// it for its hold time.
    pub open spec fn is_left(self, hits: nat, pts: JsonDuration) -> bool {
        self.seen_at(hits, pts) matches Some(last) && pts@ - last@ >= self.hold_time@
    }

    /// The region after a frame.
    pub open spec fn after_frame(
        self,
        hits: nat,
        pts: JsonDuration,
        opened: Option<Event>,
    ) -> Region<S> {
        if self.is_left(hits, pts) {
            Region { last_trigger: None, last_event: None, ..self }
        } else {
            Region {
                last_trigger: self.seen_at(hits, pts),
                last_event: self.event_after(hits, opened),
                ..self
            }
        }
    }

    /// When the alerts of the region are told of a frame, and whether with a
    /// picture: with the one of the event that is opened, and without one if the
    /// region is left.
    pub open spec fn tells(
        self,
        hits: nat,
        pts: JsonDuration,
        opened: Option<Event>,
    ) -> Seq<bool> {
        let opening = if self.triggered_by(hits) && opened is Some {
            seq![true]
        } else {
            Seq::empty()
        };
        if self.is_left(hits, pts) {
            opening.push(false)
        } else {
            opening
        }
    }

    /// Whether the news tell what became of the region.
    pub open spec fn told(
        self,
        news: RegionNews,
        hits: nat,
        pts: JsonDuration,
        opened: Option<Event>,
    ) -> bool {
        &&& news.triggered == self.triggered_by(hits)
        &&& news.updates@.len() == self.lasting(hits, opened)
        &&& forall|i: int|
            0 <= i < news.updates@.len() ==> (#[trigger] news.updates@[i]) == self.event_after(
                hits,
                opened,
            )->0._id
        &&& news.cleared == self.is_left(hits, pts)
        &&& news.tells@ == self.tells(hits, pts, opened)
    }

    /// Whether an event is open only while the region is triggered.
    pub open spec fn consistent(self) -> bool {
        self.last_event is Some ==> self.last_trigger is Some
    }

    /// How many of the things seen count for the region.
    pub fn count_hits(&self, classes: &Vec<String>, inside: &Vec<bool>) -> (r: usize)
        requires
            classes@.len() == inside@.len(),
        ensures
            r == self.hits(classes@, inside@),
            r <= classes@.len(),
    {
        let mut count: usize = 0;
        let mut i: usize = 0;
        while i < classes.len()
            invariant
                i <= classes@.len(),
                classes@.len() == inside@.len(),
                count == self.hits(classes@.take(i as int), inside@.take(i as int)),
                count <= i,
            decreases classes@.len() - i,
        {
            assert(classes@.take(i + 1).drop_last() == classes@.take(i as int));
            assert(inside@.take(i + 1).drop_last() == inside@.take(i as int));
            if holds(&self.classes, &classes[i]) && inside[i] {
                count += 1;
            }
            i += 1;
        }
        assert(classes@.take(i as int) == classes@);
        assert(inside@.take(i as int) == inside@);
        count
    }

    /// Whether a frame with so many hits at that time can be taken.
    pub fn may_take(&self, hits: usize, pts: JsonDuration) -> (r: bool)
        ensures
            r == self.can_take(hits as nat, pts),
    {
        match self.last_trigger {
            Some(last) => hits > 0 || last <= pts,
            None => true,
        }
    }

    /// Takes a frame with so many hits. `opened` is the event that could be
    /// opened where the frame triggers the region.
    pub fn take_frame(&mut self, hits: usize, pts: JsonDuration, opened: Option<Event>) -> (r:
        RegionNews)
        requires
            old(self).can_take(hits as nat, pts),
        ensures
            *final(self) == old(self).after_frame(hits as nat, pts, opened),
            old(self).told(r, hits as nat, pts, opened),
            r.triggered <==> hits > 0 && old(self).last_trigger is None,
            r.cleared <==> if hits > 0 {
                old(self).hold_time@ == 0
            } else {
                old(self).last_trigger is Some && pts@ - old(self).last_trigger->0@ >= old(
                    self).hold_time@
            },
    {
        let triggered: bool = hits > 0 && self.last_trigger.is_none();
        let mut updates: Vec<ObjectId> = Vec::new();
        let mut tells: Vec<bool> = Vec::new();
        if hits > 0 {
            if triggered && opened.is_some() {
                self.last_event = opened;
                tells.push(true);
            }
            self.last_trigger = Some(pts);
            if let Some(event) = DVR::<S, ()>::update_region(&*self) {
                let first: usize = if triggered {
                    1
                } else {
                    0
                };
                let mut i: usize = first;
                while i < hits
                    invariant
                        first <= i <= hits,
                        updates@.len() == i - first,
                        forall|k: int| 0 <= k < updates@.len() ==> #[trigger] updates@[k] == event,
                    decreases hits - i,
                {
                    updates.push(event);
                    i += 1;
                }
            }
        }
        let mut cleared: bool = false;
        if let Some(last) = self.last_trigger {
            if pts - last >= self.hold_time {
                DVR::<S, ()>::clear_region(self);
                cleared = true;
                tells.push(false);
            }
        }
        RegionNews { triggered, updates, cleared, tells }
    }
}

/// An event is open only while its region is triggered, whatever frames come.
pub proof fn open_event_means_triggered<S>(
    region: Region<S>,
    hits: nat,
    pts: JsonDuration,
    opened: Option<Event>,
)
    requires
        region.consistent(),
    ensures
        region.after_frame(hits, pts, opened).consistent(),
        region.after_frame(hits, pts, opened).last_event is Some ==> region.after_frame(
            hits,
            pts,
            opened,
        ).last_trigger is Some,
{
}

/// A region that is triggered stays so, with the same open event, until nothing
/// was seen in it for its hold time.
pub proof fn region_holds<S>(
    region: Region<S>,
    hits: nat,
    pts: JsonDuration,
    opened: Option<Event>,
)
    requires
        region.last_trigger is Some,
        !region.is_left(hits, pts),
    ensures
        !region.triggered_by(hits),
        region.after_frame(hits, pts, opened).last_trigger is Some,
        region.after_frame(hits, pts, opened).last_event == region.last_event,
{
}

/// A region is triggered again only after it was left.
pub proof fn triggered_once_until_left<S>(
    region: Region<S>,
    hits: nat,
    pts: JsonDuration,
    opened: Option<Event>,
    later_hits: nat,
)
    requires
        region.triggered_by(hits),
        region.after_frame(hits, pts, opened).triggered_by(later_hits),
    ensures
        region.is_left(hits, pts),
        region.hold_time@ == 0,
{
}

/// Counts the frames that the detector looks at, and tells now and then how many
/// they were.
#[derive(Clone, Copy, PartialEq, Eq, Structural, Debug)]
pub struct FrameCount {
    pub count: usize,
    pub last_update: JsonDuration,
}

impl FrameCount {
    /// Starts to count at `now`.
    pub fn new(now: JsonDuration) -> (r: FrameCount)
        ensures
            r.count == 0,
            r.last_update == now,
    {
        FrameCount { count: 0, last_update: now }
    }

    /// Counts a batch of frames. When more than five seconds went by since it was
    /// last told, gives how many frames there were and in what time, and starts
    /// over.
    pub fn add(&mut self, frames: usize, now: JsonDuration) -> (r: Option<(usize, JsonDuration)>)
        requires
            old(self).count + frames <= usize::MAX,
            old(self).last_update@ <= now@,
        ensures
            r is Some <==> now@ - old(self).last_update@ > 5 * NANOS_PER_SEC,
            match r {
                Some(told) => {
                    &&& told.0 == old(self).count + frames
                    &&& told.1@ == now@ - old(self).last_update@
                    &&& *final(self) == (FrameCount { count: 0, last_update: now })
                },
                None => *final(self) == (FrameCount {
                    count: (old(self).count + frames) as usize,
                    ..*old(self)
                }),
            },
    {
        let diff: JsonDuration = now - self.last_update;
        self.count = self.count + frames;
        if diff > JsonDuration::from_secs(5) {
            let counted: usize = self.count;
            self.last_update = now;
            self.count = 0;
            Some((counted, diff))
        } else {
            None
        }
    }
}

/// One video stream that is being received.
#[derive(Debug)]
pub struct Feed<H> {
    pub stream_name: String,
    /// Whether things are looked for in it. Such a stream also keeps a picture
    /// of what it last showed.
    pub detect: bool,
    pub source: H,
}

/// What the recorder knows. `S` is the shape of a region, `H` what receives a
/// stream.
#[derive(Debug)]
pub struct DVR<S, H> {
    pub sources: KeyMap<ObjectId, Vec<Feed<H>>>,
    pub regions: Regions<S>,
    pub alerts: KeyMap<ObjectId, Alert>,
    pub region_alert: RegionAlerts,
}

/// The name of the file that holds the picture.
pub open spec fn picture_file(picture: ObjectId) -> Seq<char> {
    hex_of(picture) + ".jpg"@
}

impl<S, H> DVR<S, H> {
    /// A recorder that knows nothing yet.
    pub fn new() -> (r: DVR<S, H>)
        ensures
            r.sources@ == Map::<int, Vec<Feed<H>>>::empty(),
            r.regions@ == Map::<int, Vec<Region<S>>>::empty(),
            r.alerts@ == Map::<int, Alert>::empty(),
            r.region_alert@ == Map::<(ObjectId, Seq<char>), Vec<ObjectId>>::empty(),
            r.linked(),
            r.coherent(),
    {
        DVR {
            sources: KeyMap::new(),
            regions: KeyMap::new(),
            alerts: KeyMap::new(),
            region_alert: KeyMap::new(),
        }
    }

    /// Whether in every region an event is open only while it is triggered.
    pub open spec fn coherent(self) -> bool {
        forall|camera: ObjectId, i: int|
            0 <= i < self.regions_of(camera).len()
                ==> (#[trigger] self.regions_of(camera)[i]).consistent()
    }

    /// The event that opens when a region is triggered. `picture` names the
    /// picture of what came in.
    pub fn trigger_region(
        region: &Region<S>,
        pts: JsonDuration,
        camera: ObjectId,
        event: ObjectId,
        picture: ObjectId,
    ) -> (r: Event)
        ensures
            r._id == event,
            r.camera_id == camera,
            r.start == pts,
            r.end == pts,
            r.thumb_start@ == picture_file(picture),
            r.thumb_start@ == hex_of(picture) + ".jpg"@,
            r.region_name@ == region.region_name@,
    {
        Event {
            _id: event,
            camera_id: camera,
            start: pts,
            end: pts,
            thumb_start: join2(picture.to_hex().as_str(), ".jpg"),
            region_name: region.region_name.clone(),
        }
    }

    /// The event that lasts when something is still seen in a region.
    pub fn update_region(region: &Region<S>) -> (r: Option<ObjectId>)
        ensures
            r == match region.last_event {
                Some(event) => Some(event._id),
                None => None,
            },
    {
        match &region.last_event {
            Some(event) => Some(event._id),
            None => None,
        }
    }

    /// Leaves a region.
    pub fn clear_region(region: &mut Region<S>)
        ensures
            *final(region) == (Region { last_trigger: None, last_event: None, ..*old(region) }),
    {
        region.last_event = None;
        region.last_trigger = None;
    }

    /// The regions of a camera.
    pub open spec fn regions_of(self, camera: ObjectId) -> Seq<Region<S>> {
        if self.regions@.dom().contains(camera@) {
            self.regions@[camera@]@
        } else {
            Seq::empty()
        }
    }

    /// Whether a frame of a camera can be taken: there is one entry for each of
    /// its regions, and none of them saw something later.
    pub open spec fn fits(
        self,
        camera: ObjectId,
        pts: JsonDuration,
        classes: Seq<String>,
        inside: Seq<Vec<bool>>,
    ) -> bool {
        &&& inside.len() == self.regions_of(camera).len()
        &&& forall|i: int|
            0 <= i < inside.len() ==> (#[trigger] inside[i])@.len() == classes.len()
                && self.regions_of(camera)[i].can_take(
                self.regions_of(camera)[i].hits(classes, inside[i]@),
                pts,
            )
    }

    /// Whether a frame of a camera can be taken.
    pub fn may_take_frame(
        &self,
        camera: &ObjectId,
        pts: JsonDuration,
        classes: &Vec<String>,
        inside: &Vec<Vec<bool>>,
    ) -> (r: bool)
        ensures
            r == self.fits(*camera, pts, classes@, inside@),
    {
        match self.regions.get(camera) {
            Some(list) => {
                if list.len() != inside.len() {
                    return false;
                }
                let mut i: usize = 0;
                while i < list.len()
                    invariant
                        i <= list@.len(),
                        list@ == self.regions_of(*camera),
                        list@.len() == inside@.len(),
                        forall|j: int|
                            0 <= j < i ==> (#[trigger] inside@[j])@.len() == classes@.len()
                                && list@[j].can_take(list@[j].hits(classes@, inside@[j]@), pts),
                    decreases list@.len() - i,
                {
                    if inside[i].len() != classes.len() {
                        assert(inside@[i as int]@.len() != classes@.len());
                        return false;
                    }
                    let hits: usize = list[i].count_hits(classes, &inside[i]);
                    if !list[i].may_take(hits, pts) {
                        assert(inside@[i as int]@.len() == classes@.len());
                        return false;
                    }
                    i += 1;
                }
                true
            },
            None => inside.len() == 0,
        }
    }

    /// Which regions of a camera a frame triggers.
    pub fn to_trigger(
        &self,
        camera: &ObjectId,
        classes: &Vec<String>,
        inside: &Vec<Vec<bool>>,
    ) -> (r: Vec<bool>)
        requires
            inside@.len() == self.regions_of(*camera).len(),
            forall|i: int|
                0 <= i < inside@.len() ==> (#[trigger] inside@[i])@.len() == classes@.len(),
        ensures
            r@.len() == inside@.len(),
            forall|i: int|
                0 <= i < r@.len() ==> #[trigger] r@[i] == self.regions_of(*camera)[i].triggered_by(
                    self.regions_of(*camera)[i].hits(classes@, inside@[i]@),
                ),
    {
        let mut out: Vec<bool> = Vec::new();
        if let Some(list) = self.regions.get(camera) {
            let mut i: usize = 0;
            while i < list.len()
                invariant
                    i <= list@.len(),
                    list@ == self.regions_of(*camera),
                    list@.len() == inside@.len(),
                    out@.len() == i,
                    forall|j: int|
                        0 <= j < inside@.len() ==> (#[trigger] inside@[j])@.len() == classes@.len(),
                    forall|j: int|
                        0 <= j < i ==> #[trigger] out@[j] == list@[j].triggered_by(
                            list@[j].hits(classes@, inside@[j]@),
                        ),
                decreases list@.len() - i,
            {
                let hits: usize = list[i].count_hits(classes, &inside[i]);
                out.push(hits > 0 && list[i].last_trigger.is_none());
                i += 1;
            }
        }
        out
    }

    /// Takes a frame of a camera: what was seen in it, by class, and for each
    /// region which of those things lie inside of it. `opened` holds the events
    /// that could be opened for the regions that the frame triggers.
    pub fn take_frame(
        &mut self,
        camera: &ObjectId,
        pts: JsonDuration,
        classes: &Vec<String>,
        inside: &Vec<Vec<bool>>,
        opened: Vec<Option<Event>>,
    ) -> (r: Vec<RegionNews>)
        requires
            old(self).fits(*camera, pts, classes@, inside@),
            opened@.len() == inside@.len(),
        ensures
            final(self).sources == old(self).sources,
            final(self).alerts == old(self).alerts,
            final(self).region_alert == old(self).region_alert,
            final(self).regions@.dom() == old(self).regions@.dom(),
            forall|other: int|
                other != camera@ && old(self).regions@.dom().contains(other)
                    ==> #[trigger] final(self).regions@[other] == old(self).regions@[other],
            final(self).regions_of(*camera).len() == old(self).regions_of(*camera).len(),
            r@.len() == inside@.len(),
            forall|i: int|
                #![trigger r@[i]]
                #![trigger final(self).regions_of(*camera)[i]]
                0 <= i < r@.len() ==> {
                    let before = old(self).regions_of(*camera)[i];
                    let hits = before.hits(classes@, inside@[i]@);
                    &&& final(self).regions_of(*camera)[i] == before.after_frame(
                        hits,
                        pts,
                        opened@[i],
                    )
                    &&& before.told(r@[i], hits, pts, opened@[i])
                },
            old(self).coherent() ==> final(self).coherent(),
    {
        let ghost whole = *self;
        let ghost before = self.regions_of(*camera);
        let ghost offered = opened@;
        let mut offers: Vec<Option<Event>> = opened;
        let mut news: Vec<RegionNews> = Vec::new();
        if let Some(found) = self.regions.remove(camera) {
            let mut list: Vec<Region<S>> = found;
            let mut i: usize = 0;
            while i < list.len()
                invariant
                    i <= list@.len(),
                    list@.len() == before.len(),
                    before.len() == inside@.len(),
                    offered.len() == before.len(),
                    offers@ == offered.skip(i as int),
                    forall|j: int|
                        0 <= j < inside@.len() ==> (#[trigger] inside@[j])@.len() == classes@.len()
                            && before[j].can_take(before[j].hits(classes@, inside@[j]@), pts),
                    forall|j: int| i <= j < list@.len() ==> #[trigger] list@[j] == before[j],
                    news@.len() == i,
                    forall|j: int|
                        #![trigger news@[j]]
                        #![trigger list@[j]]
                        0 <= j < i ==> {
                            let hits = before[j].hits(classes@, inside@[j]@);
                            &&& list@[j] == before[j].after_frame(hits, pts, offered[j])
                            &&& before[j].told(news@[j], hits, pts, offered[j])
                        },
                decreases list@.len() - i,
            {
                let hits: usize = list[i].count_hits(classes, &inside[i]);
                let opened: Option<Event> = offers.remove(0);
                assert(offered.skip(i as int).remove(0) == offered.skip(i + 1));
                let one: RegionNews = list[i].take_frame(hits, pts, opened);
                news.push(one);
                i += 1;
            }
            self.regions.insert(*camera, list);
        }
        proof {
            if whole.coherent() {
                assert forall|c: ObjectId, i: int| 0 <= i < self.regions_of(c).len() implies (
                #[trigger] self.regions_of(c)[i]).consistent() by {
                    assert(whole.regions_of(c)[i].consistent());
                    if c@ == camera@ {
                        same_number_same_id(c, *camera);
                        assert(before[i].consistent());
                        open_event_means_triggered(
                            before[i],
                            before[i].hits(classes@, inside@[i]@),
                            pts,
                            offered[i],
                        );
                    }
                }
            }
        }
        news
    }

    /// The messages for each alert that listens to the region.
    pub fn region_updates(&self, region: &RegionRef, image: bool) -> (r: Vec<Vec<Publication>>)
        ensures
            updates_all(
                r@,
                known(listeners(self.region_alert@, region@), self.alerts@),
                self.alerts@,
                self.regions@,
                image,
            ),
    {
        let mut out: Vec<Vec<Publication>> = Vec::new();
        if let Some(list) = self.region_alert.get(region) {
            let mut i: usize = 0;
            while i < list.len()
                invariant
                    i <= list@.len(),
                    updates_all(
                        out@,
                        known(list@.take(i as int), self.alerts@),
                        self.alerts@,
                        self.regions@,
                        image,
                    ),
                decreases list@.len() - i,
            {
                assert(list@.take(i + 1).drop_last() == list@.take(i as int));
                if let Some(alert) = self.alerts.get(&list[i]) {
                    out.push(alert.send_update(&self.regions, image));
                }
                i += 1;
            }
            assert(list@.take(i as int) == list@);
        }
        out
    }

    /// Whether the alerts and the lists of the regions agree: an alert is kept
    /// under its own identifier, and it is in the list of a region if and only if
    /// the region is one of its own.
    pub open spec fn linked(self) -> bool {
        &&& forall|id: ObjectId| #[trigger]
            self.alerts@.dom().contains(id@) ==> self.alerts@[id@]._id == id
        &&& forall|id: ObjectId, region: (ObjectId, Seq<char>)| #[trigger]
            listeners(self.region_alert@, region).contains(id) <==> (self.alerts@.dom().contains(
                id@,
            ) && names_region(self.alerts@[id@].regions@, region))
    }

    /// Adds an alert, and gives the messages that announce it. Alerts and lists
    /// go on to agree if there was no alert of that identifier.
    pub fn add_alert(&mut self, alert: Alert) -> (r: Vec<Publication>)
        ensures
            final(self).sources == old(self).sources,
            final(self).regions == old(self).regions,
            final(self).alerts@ == old(self).alerts@.insert(alert._id@, alert),
            enlisted(
                old(self).region_alert@,
                final(self).region_alert@,
                alert.regions@,
                alert._id,
            ),
            announces(r@, alert, old(self).regions@),
            old(self).linked() && !old(self).alerts@.dom().contains(alert._id@)
                ==> final(self).linked(),
    {
        let ghost before = *self;
        let messages: Vec<Publication> = alert.setup(&mut self.region_alert, &self.regions);
        self.alerts.insert(alert._id, alert);
        proof {
            if before.linked() && !before.alerts@.dom().contains(alert._id@) {
                lemma_added(before, *self, alert);
            }
        }
        messages
    }

    /// Removes an alert, and gives the messages that take it back. Alerts and
    /// lists go on to agree.
    pub fn remove_alert(&mut self, id: &ObjectId) -> (r: Vec<Publication>)
        ensures
            final(self).sources == old(self).sources,
            final(self).regions == old(self).regions,
            final(self).alerts@ == old(self).alerts@.remove(id@),
            old(self).alerts@.dom().contains(id@) ==> delisted(
                old(self).region_alert@,
                final(self).region_alert@,
                old(self).alerts@[id@].regions@,
                old(self).alerts@[id@]._id,
            ) && retracts(r@, old(self).alerts@[id@]),
            !old(self).alerts@.dom().contains(id@) ==> final(self).region_alert
                == old(self).region_alert && r@.len() == 0,
            old(self).linked() ==> final(self).linked(),
    {
        let ghost before = *self;
        let messages: Vec<Publication> = match self.alerts.remove(id) {
            Some(alert) => alert.teardown(&mut self.region_alert),
            None => Vec::new(),
        };
        proof {
            if before.linked() {
                lemma_removed(before, *self, *id);
            }
        }
        messages
    }

    /// Who listens to the region once the alert `id` was torn down.
    pub open spec fn listeners_but(self, id: ObjectId, region: (ObjectId, Seq<char>)) -> Seq<
        ObjectId,
    > {
        let list = listeners(self.region_alert@, region);
        if self.alerts@.dom().contains(id@) && names_region(self.alerts@[id@].regions@, region) {
            without(list, self.alerts@[id@]._id)
        } else {
            list
        }
    }

    /// Puts `alert` in the place of the alert `id`, and gives the messages: those
    /// that take back the old alert, if there was one, then those that announce
    /// the new one. Alerts and lists go on to agree.
    pub fn alert_update(&mut self, id: ObjectId, alert: Alert) -> (r: (
        Vec<Publication>,
        Vec<Publication>,
    ))
        ensures
            final(self).sources == old(self).sources,
            final(self).regions == old(self).regions,
            final(self).alerts@ == old(self).alerts@.insert(id@, (Alert { _id: id, ..alert })),
            old(self).alerts@.dom().contains(id@) ==> retracts(r.0@, old(self).alerts@[id@]),
            !old(self).alerts@.dom().contains(id@) ==> r.0@.len() == 0,
            announces(r.1@, (Alert { _id: id, ..alert }), old(self).regions@),
            old(self).linked() ==> final(self).linked(),
            forall|region: (ObjectId, Seq<char>)| #[trigger]
                listeners(final(self).region_alert@, region) == {
                    let rest = old(self).listeners_but(id, region);
                    if names_region(alert.regions@, region) {
                        without(rest, id).push(id)
                    } else {
                        rest
                    }
                },
    {
        let ghost before = *self;
        let mut renamed: Alert = alert;
        renamed._id = id;
        let gone: Vec<Publication> = self.remove_alert(&id);
        let ghost between = *self;
        let messages: Vec<Publication> = self.add_alert(renamed);
        proof {
            assert(self.alerts@ =~= before.alerts@.insert(id@, renamed));
            assert forall|region: (ObjectId, Seq<char>)| #[trigger]
                listeners(self.region_alert@, region) == {
                    let rest = before.listeners_but(id, region);
                    if names_region(alert.regions@, region) {
                        without(rest, id).push(id)
                    } else {
                        rest
                    }
                } by {
                if before.alerts@.dom().contains(id@) {
                    assert(delisted_at(
                        before.region_alert@,
                        between.region_alert@,
                        before.alerts@[id@].regions@,
                        before.alerts@[id@]._id,
                        region,
                    ));
                    assert(without(Seq::empty(), before.alerts@[id@]._id) == Seq::<
                        ObjectId,
                    >::empty());
                }
                assert(enlisted_at(
                    between.region_alert@,
                    self.region_alert@,
                    renamed.regions@,
                    id,
                    region,
                ));
            }
        }
        (gone, messages)
    }

    /// Puts new regions in the place of those of a camera, and gives the regions
    /// that were left, in order.
    pub fn update_regions(&mut self, camera: ObjectId, regions: Vec<Region<S>>) -> (r: Vec<
        RegionRef,
    >)
        ensures
            final(self).sources == old(self).sources,
            final(self).alerts == old(self).alerts,
            final(self).region_alert == old(self).region_alert,
            final(self).regions@ == old(self).regions@.insert(camera@, regions),
            r@.len() == old(self).regions_of(camera).len(),
            forall|i: int|
                0 <= i < r@.len() ==> old(self).regions_of(camera)[i].is_named(#[trigger] r@[i]),
            old(self).coherent() && all_consistent(regions@) ==> final(self).coherent(),
    {
        let ghost before = *self;
        let ghost came = regions@;
        let mut left: Vec<RegionRef> = Vec::new();
        if let Some(list) = self.regions.get(&camera) {
            let mut i: usize = 0;
            while i < list.len()
                invariant
                    i <= list@.len(),
                    left@.len() == i,
                    forall|j: int| 0 <= j < i ==> list@[j].is_named(#[trigger] left@[j]),
                decreases list@.len() - i,
            {
                left.push(list[i].reference());
                i += 1;
            }
        }
        self.regions.insert(camera, regions);
        proof {
            if before.coherent() && all_consistent(came) {
                assert forall|c: ObjectId, i: int| 0 <= i < self.regions_of(c).len() implies (
                #[trigger] self.regions_of(c)[i]).consistent() by {
                    if c@ == camera@ {
                        assert(came[i].consistent());
                    } else {
                        assert(before.regions_of(c)[i].consistent());
                    }
                }
            }
        }
        left
    }

    fn add_region(&mut self, region: Region<S>)
        ensures
            final(self).sources == old(self).sources,
            final(self).alerts == old(self).alerts,
            final(self).region_alert == old(self).region_alert,
            final(self).regions@.dom() == old(self).regions@.dom().insert(region.camera_id@),
            forall|camera: ObjectId| #[trigger]
                final(self).regions_of(camera) == if camera == region.camera_id {
                    old(self).regions_of(camera).push(region)
                } else {
                    old(self).regions_of(camera)
                },
    {
        let ghost before = *self;
        let camera: ObjectId = region.camera_id;
        let mut list: Vec<Region<S>> = match self.regions.remove(&camera) {
            Some(list) => list,
            None => Vec::new(),
        };
        list.push(region);
        self.regions.insert(camera, list);
        proof {
            assert forall|c: ObjectId| #[trigger] self.regions_of(c) == if c == camera {
                before.regions_of(c).push(region)
            } else {
                before.regions_of(c)
            } by {
                if c@ == camera@ {
                    same_number_same_id(c, camera);
                }
            }
        }
    }

    /// Takes in what was stored: the regions, each under its camera and in the
    /// order of the list, then the alerts. Gives the messages that announce each
    /// alert. Alerts and lists go on to agree if no identifier occurs twice.
    pub fn start(&mut self, regions: Vec<Region<S>>, alerts: Vec<Alert>) -> (r: Vec<
        Vec<Publication>,
    >)
        ensures
            final(self).sources == old(self).sources,
            forall|camera: int| #[trigger]
                final(self).regions@.dom().contains(camera) <==> old(self).regions@.dom().contains(
                    camera,
                ) || has_camera(regions@, camera),
            forall|camera: ObjectId| #[trigger]
                final(self).regions_of(camera) == old(self).regions_of(camera) + of_camera(
                    regions@,
                    camera,
                ),
            final(self).alerts@ == with_alerts(old(self).alerts@, alerts@),
            forall|region: (ObjectId, Seq<char>)| #[trigger]
                listeners(final(self).region_alert@, region) == heard(
                    listeners(old(self).region_alert@, region),
                    alerts@,
                    region,
                ),
            r@.len() == alerts@.len(),
            forall|i: int|
                0 <= i < r@.len() ==> announces(
                    (#[trigger] r@[i])@,
                    alerts@[i],
                    final(self).regions@,
                ),
            old(self).linked() && all_new(old(self).alerts@, alerts@) ==> final(self).linked(),
            old(self).coherent() && all_consistent(regions@) ==> final(self).coherent(),
    {
        let ghost before = *self;
        let ghost all_regions = regions@;
        let ghost all_alerts = alerts@;
        let mut rest: Vec<Region<S>> = regions;
        let ghost mut n: int = 0;
        assert(all_regions.take(0) == Seq::<Region<S>>::empty());
        while rest.len() > 0
            invariant
                0 <= n <= all_regions.len(),
                rest@ == all_regions.skip(n),
                self.sources == before.sources,
                self.alerts == before.alerts,
                self.region_alert == before.region_alert,
                forall|camera: int| #[trigger]
                    self.regions@.dom().contains(camera) <==> before.regions@.dom().contains(camera)
                        || has_camera(all_regions.take(n), camera),
                forall|camera: ObjectId| #[trigger]
                    self.regions_of(camera) == before.regions_of(camera) + of_camera(
                        all_regions.take(n),
                        camera,
                    ),
            decreases rest@.len(),
        {
            let ghost current = *self;
            let region: Region<S> = rest.remove(0);
            let ghost one = region;
            self.add_region(region);
            proof {
                assert(one == all_regions[n]);
                assert(all_regions.skip(n).remove(0) == all_regions.skip(n + 1));
                assert(all_regions.take(n + 1).drop_last() == all_regions.take(n));
                assert(all_regions.take(n + 1).last() == one);
                assert forall|camera: ObjectId| #[trigger]
                    self.regions_of(camera) == before.regions_of(camera) + of_camera(
                        all_regions.take(n + 1),
                        camera,
                    ) by {
                    assert(current.regions_of(camera) == before.regions_of(camera) + of_camera(
                        all_regions.take(n),
                        camera,
                    ));
                }
                assert forall|camera: int| #[trigger]
                    self.regions@.dom().contains(camera) <==> before.regions@.dom().contains(camera)
                        || has_camera(all_regions.take(n + 1), camera) by {
                    assert(self.regions@.dom().contains(camera) <==> current.regions@.dom().contains(
                        camera,
                    ) || camera == one.camera_id@);
                    lemma_one_more_camera(all_regions, n, camera);
                }
                n = n + 1;
            }
        }
        assert(all_regions.take(n) == all_regions);
        let ghost watched = *self;
        let mut messages: Vec<Vec<Publication>> = Vec::new();
        let mut waiting: Vec<Alert> = alerts;
        let ghost mut k: int = 0;
        assert(all_alerts.take(0) == Seq::<Alert>::empty());
        while waiting.len() > 0
            invariant
                0 <= k <= all_alerts.len(),
                waiting@ == all_alerts.skip(k),
                self.sources == before.sources,
                self.regions == watched.regions,
                watched.alerts == before.alerts,
                watched.region_alert == before.region_alert,
                self.alerts@ == with_alerts(before.alerts@, all_alerts.take(k)),
                forall|region: (ObjectId, Seq<char>)| #[trigger]
                    listeners(self.region_alert@, region) == heard(
                        listeners(before.region_alert@, region),
                        all_alerts.take(k),
                        region,
                    ),
                messages@.len() == k,
                forall|i: int|
                    0 <= i < k ==> announces(
                        (#[trigger] messages@[i])@,
                        all_alerts[i],
                        watched.regions@,
                    ),
                before.linked() && all_new(before.alerts@, all_alerts) ==> self.linked(),
            decreases waiting@.len(),
        {
            let ghost current = *self;
            let alert: Alert = waiting.remove(0);
            let ghost one = alert;
            let told: Vec<Publication> = self.add_alert(alert);
            messages.push(told);
            proof {
                assert(one == all_alerts[k]);
                assert(all_alerts.skip(k).remove(0) == all_alerts.skip(k + 1));
                assert(all_alerts.take(k + 1).drop_last() == all_alerts.take(k));
                assert(all_alerts.take(k + 1).last() == one);
                assert forall|region: (ObjectId, Seq<char>)| #[trigger]
                    listeners(self.region_alert@, region) == heard(
                        listeners(before.region_alert@, region),
                        all_alerts.take(k + 1),
                        region,
                    ) by {
                    assert(enlisted_at(
                        current.region_alert@,
                        self.region_alert@,
                        one.regions@,
                        one._id,
                        region,
                    ));
                    assert(listeners(current.region_alert@, region) == heard(
                        listeners(before.region_alert@, region),
                        all_alerts.take(k),
                        region,
                    ));
                }
                if all_new(before.alerts@, all_alerts) {
                    lemma_still_new(before.alerts@, all_alerts, k);
                }
                k = k + 1;
            }
        }
        assert(all_alerts.take(k) == all_alerts);
        assert forall|camera: ObjectId| #[trigger]
            self.regions_of(camera) == before.regions_of(camera) + of_camera(
                all_regions,
                camera,
            ) by {
            assert(self.regions_of(camera) == watched.regions_of(camera));
        }
        proof {
            if before.coherent() && all_consistent(all_regions) {
                assert forall|c: ObjectId, i: int| 0 <= i < self.regions_of(c).len() implies (
                #[trigger] self.regions_of(c)[i]).consistent() by {
                    let kept = before.regions_of(c);
                    let came = of_camera(all_regions, c);
                    assert(self.regions_of(c) == kept + came);
                    lemma_of_camera_consistent(all_regions, c);
                    if i < kept.len() {
                        assert(kept[i].consistent());
                    } else {
                        assert(came[i - kept.len()].consistent());
                    }
                }
            }
        }
        messages
    }

    /// Asks for the detections of the two seconds before and after a time.
    pub fn get_detections(source: ObjectId, at: JsonDuration) -> (r: DetectionQuery)
        requires
            2 * NANOS_PER_SEC <= at@,
            Database::has_window(at),
        ensures
            r.source@ == seq![source],
            r.from@ == at@ - 2 * NANOS_PER_SEC,
            r.to@ == at@ + 2 * NANOS_PER_SEC,
            forall|camera: ObjectId, start: JsonDuration| #[trigger]
                r.selects(camera, start) <==> camera == source && at@ - 2 * NANOS_PER_SEC <= start@
                    <= at@ + 2 * NANOS_PER_SEC,
    {
        let range: JsonDuration = JsonDuration::from_secs(2);
        let mut sources: Vec<ObjectId> = Vec::new();
        sources.push(source);
        assert(sources@[0] == source);
        DetectionQuery { source: sources, from: at - range, to: at + range }
    }

    /// The first stream of a camera that keeps a picture.
    pub fn camera_image(&self, camera: &ObjectId) -> (r: Option<&Feed<H>>)
        ensures
            match r {
                Some(feed) => {
                    &&& self.sources@.dom().contains(camera@)
                    &&& exists|i: int|
                        0 <= i < self.sources@[camera@]@.len()
                            && #[trigger] self.sources@[camera@]@[i] == *feed && feed.detect && (
                        forall|j: int| 0 <= j < i ==> !(#[trigger] self.sources@[camera@]@[j]).detect)
                },
                None => self.sources@.dom().contains(camera@) ==> forall|i: int|
                    0 <= i < self.sources@[camera@]@.len() ==> !(
                    #[trigger] self.sources@[camera@]@[i]).detect,
            },
    {
        if let Some(feeds) = self.sources.get(camera) {
            let mut i: usize = 0;
            while i < feeds.len()
                invariant
                    i <= feeds@.len(),
                    self.sources@.dom().contains(camera@),
                    feeds == self.sources@[camera@],
                    forall|j: int| 0 <= j < i ==> !(#[trigger] feeds@[j]).detect,
                decreases feeds@.len() - i,
            {
                if feeds[i].detect {
                    return Some(&feeds[i]);
                }
                i += 1;
            }
        }
        None
    }

    /// Forgets the streams of a camera, and gives them back.
    pub fn remove_camera(&mut self, camera: &ObjectId) -> (r: Option<Vec<Feed<H>>>)
        ensures
            final(self).regions == old(self).regions,
            final(self).alerts == old(self).alerts,
            final(self).region_alert == old(self).region_alert,
            final(self).sources@ == old(self).sources@.remove(camera@),
            match r {
                Some(feeds) => old(self).sources@.dom().contains(camera@) && feeds == old(
                    self,
                ).sources@[camera@],
                None => !old(self).sources@.dom().contains(camera@),
            },
    {
        self.sources.remove(camera)
    }

    /// Puts new streams in the place of those of a camera.
    pub fn update_camera(&mut self, camera: ObjectId, feeds: Vec<Feed<H>>)
        ensures
            final(self).regions == old(self).regions,
            final(self).alerts == old(self).alerts,
            final(self).region_alert == old(self).region_alert,
            final(self).sources@ == old(self).sources@.insert(camera@, feeds),
    {
        self.sources.insert(camera, feeds);
    }
}

/// Whether one of the regions belongs to the camera.
pub open spec fn has_camera<S>(regions: Seq<Region<S>>, camera: int) -> bool {
    exists|i: int| 0 <= i < regions.len() && (#[trigger] regions[i]).camera_id@ == camera
}

/// The regions of the list that belong to the camera, in order.
pub open spec fn of_camera<S>(regions: Seq<Region<S>>, camera: ObjectId) -> Seq<Region<S>>
    decreases regions.len(),
{
    if regions.len() == 0 {
        Seq::empty()
    } else if regions.last().camera_id == camera {
        of_camera(regions.drop_last(), camera).push(regions.last())
    } else {
        of_camera(regions.drop_last(), camera)
    }
}

/// Whether in each of the regions an event is open only while it is triggered.
pub open spec fn all_consistent<S>(regions: Seq<Region<S>>) -> bool {
    forall|i: int| 0 <= i < regions.len() ==> (#[trigger] regions[i]).consistent()
}

proof fn lemma_of_camera_consistent<S>(regions: Seq<Region<S>>, camera: ObjectId)
    requires
        all_consistent(regions),
    ensures
        all_consistent(of_camera(regions, camera)),
    decreases regions.len(),
{
    if regions.len() > 0 {
        let rest = regions.drop_last();
        assert forall|i: int| 0 <= i < rest.len() implies (#[trigger] rest[i]).consistent() by {
            assert(regions[i].consistent());
        }
        lemma_of_camera_consistent(rest, camera);
        assert(regions[regions.len() - 1].consistent());
    }
}

/// The alerts with those of the list put in, one after the other.
pub open spec fn with_alerts(alerts: Map<int, Alert>, list: Seq<Alert>) -> Map<int, Alert>
    decreases list.len(),
{
    if list.len() == 0 {
        alerts
    } else {
        with_alerts(alerts, list.drop_last()).insert(list.last()._id@, list.last())
    }
}

/// Who listens to the region after the alerts of the list were set up, one after
/// the other.
pub open spec fn heard(
    before: Seq<ObjectId>,
    list: Seq<Alert>,
    region: (ObjectId, Seq<char>),
) -> Seq<ObjectId>
    decreases list.len(),
{
    if list.len() == 0 {
        before
    } else {
        let rest = heard(before, list.drop_last(), region);
        if names_region(list.last().regions@, region) {
            without(rest, list.last()._id).push(list.last()._id)
        } else {
            rest
        }
    }
}

/// Whether the identifiers of the alerts are new and differ from each other.
pub open spec fn all_new(alerts: Map<int, Alert>, list: Seq<Alert>) -> bool {
    &&& forall|i: int|
        0 <= i < list.len() ==> !alerts.dom().contains((#[trigger] list[i])._id@)
    &&& forall|i: int, j: int|
        0 <= i < j < list.len() ==> (#[trigger] list[i])._id@ != (#[trigger] list[j])._id@
}

proof fn lemma_one_more_camera<S>(regions: Seq<Region<S>>, n: int, camera: int)
    requires
        0 <= n < regions.len(),
    ensures
        has_camera(regions.take(n + 1), camera) <==> has_camera(regions.take(n), camera)
            || regions[n].camera_id@ == camera,
{
    let less = regions.take(n);
    let more = regions.take(n + 1);
    if has_camera(less, camera) {
        let j = choose|j: int| 0 <= j < less.len() && (#[trigger] less[j]).camera_id@ == camera;
        assert(more[j] == less[j]);
    }
    if regions[n].camera_id@ == camera {
        assert(more[n] == regions[n]);
    }
    if has_camera(more, camera) {
        let j = choose|j: int| 0 <= j < more.len() && (#[trigger] more[j]).camera_id@ == camera;
        if j < n {
            assert(less[j] == more[j]);
        }
    }
}

proof fn lemma_in_with_alerts(alerts: Map<int, Alert>, list: Seq<Alert>, id: int)
    requires
        with_alerts(alerts, list).dom().contains(id),
    ensures
        alerts.dom().contains(id) || exists|i: int|
            0 <= i < list.len() && (#[trigger] list[i])._id@ == id,
    decreases list.len(),
{
    if list.len() > 0 {
        if list.last()._id@ == id {
            assert(list[list.len() - 1]._id@ == id);
        } else {
            let less = list.drop_last();
            lemma_in_with_alerts(alerts, less, id);
            if !alerts.dom().contains(id) {
                let i = choose|i: int| 0 <= i < less.len() && (#[trigger] less[i])._id@ == id;
                assert(list[i]._id@ == id);
            }
        }
    }
}

proof fn lemma_still_new(alerts: Map<int, Alert>, list: Seq<Alert>, k: int)
    requires
        all_new(alerts, list),
        0 <= k < list.len(),
    ensures
        !with_alerts(alerts, list.take(k)).dom().contains(list[k]._id@),
{
    if with_alerts(alerts, list.take(k)).dom().contains(list[k]._id@) {
        lemma_in_with_alerts(alerts, list.take(k), list[k]._id@);
        let i = choose|i: int|
            0 <= i < k && (#[trigger] list.take(k)[i])._id@ == list[k]._id@;
        assert(list[i]._id@ == list[k]._id@);
    }
}

/// The alerts of the list that are known.
pub open spec fn known(list: Seq<ObjectId>, alerts: Map<int, Alert>) -> Seq<ObjectId>
    decreases list.len(),
{
    if list.len() == 0 {
        Seq::empty()
    } else if alerts.dom().contains(list.last()@) {
        known(list.drop_last(), alerts).push(list.last())
    } else {
        known(list.drop_last(), alerts)
    }
}

/// Whether there is one run of messages for each alert, which tells its state.
pub open spec fn updates_all<S>(
    messages: Seq<Vec<Publication>>,
    list: Seq<ObjectId>,
    alerts: Map<int, Alert>,
    regions: Map<int, Vec<Region<S>>>,
    image: bool,
) -> bool {
    &&& messages.len() == list.len()
    &&& forall|i: int|
        0 <= i < messages.len() ==> updates(
            (#[trigger] messages[i])@,
            alerts[list[i]@],
            regions,
            image,
        )
}

proof fn lemma_added<S, H>(before: DVR<S, H>, after: DVR<S, H>, alert: Alert)
    requires
        before.linked(),
        !before.alerts@.dom().contains(alert._id@),
        after.alerts@ == before.alerts@.insert(alert._id@, alert),
        enlisted(before.region_alert@, after.region_alert@, alert.regions@, alert._id),
    ensures
        after.linked(),
{
    assert forall|id: ObjectId| #[trigger] after.alerts@.dom().contains(id@) implies after.alerts@[id@]._id
        == id by {
        if id@ == alert._id@ {
            same_number_same_id(id, alert._id);
        } else {
            assert(before.alerts@.dom().contains(id@));
        }
    }
    assert forall|id: ObjectId, region: (ObjectId, Seq<char>)| #[trigger]
        listeners(after.region_alert@, region).contains(id) <==> (after.alerts@.dom().contains(id@)
            && names_region(after.alerts@[id@].regions@, region)) by {
        let list = listeners(before.region_alert@, region);
        assert(enlisted_at(
            before.region_alert@,
            after.region_alert@,
            alert.regions@,
            alert._id,
            region,
        ));
        without_leaves_the_others(list, alert._id);
        assert(list.contains(id) <==> before.alerts@.dom().contains(id@) && names_region(
            before.alerts@[id@].regions@,
            region,
        ));
        let rest = without(list, alert._id);
        assert(rest.push(alert._id).contains(id) <==> rest.contains(id) || id == alert._id) by {
            if rest.contains(id) {
                let i = choose|i: int| 0 <= i < rest.len() && rest[i] == id;
                assert(rest.push(alert._id)[i] == id);
            }
            if id == alert._id {
                assert(rest.push(alert._id)[rest.len() as int] == id);
            }
        }
        if id@ == alert._id@ {
            same_number_same_id(id, alert._id);
        }
    }
}

proof fn lemma_removed<S, H>(before: DVR<S, H>, after: DVR<S, H>, gone: ObjectId)
    requires
        before.linked(),
        after.alerts@ == before.alerts@.remove(gone@),
        before.alerts@.dom().contains(gone@) ==> delisted(
            before.region_alert@,
            after.region_alert@,
            before.alerts@[gone@].regions@,
            before.alerts@[gone@]._id,
        ),
        !before.alerts@.dom().contains(gone@) ==> after.region_alert == before.region_alert,
    ensures
        after.linked(),
{
    assert forall|id: ObjectId| #[trigger] after.alerts@.dom().contains(id@) implies after.alerts@[id@]._id
        == id by {
        assert(before.alerts@.dom().contains(id@));
    }
    assert forall|id: ObjectId, region: (ObjectId, Seq<char>)| #[trigger]
        listeners(after.region_alert@, region).contains(id) <==> (after.alerts@.dom().contains(id@)
            && names_region(after.alerts@[id@].regions@, region)) by {
        let list = listeners(before.region_alert@, region);
        assert(list.contains(id) <==> before.alerts@.dom().contains(id@) && names_region(
            before.alerts@[id@].regions@,
            region,
        ));
        if id@ == gone@ {
            same_number_same_id(id, gone);
        }
        if before.alerts@.dom().contains(gone@) {
            let alert = before.alerts@[gone@];
            assert(alert._id == gone);
            assert(delisted_at(
                before.region_alert@,
                after.region_alert@,
                alert.regions@,
                gone,
                region,
            ));
            without_leaves_the_others(list, gone);
        }
    }
}

/// What a frame does to a region. One that was seen in for the last time so long ago
/// as its hold time, or longer, is left: it is not triggered and has no event open.
/// Any other one that was ever seen in is triggered since then, and has the event
/// open that it had, or the one that could be opened if the frame triggers it.
/// Nothing else about it changes.
pub proof fn frame_changes_a_region<S>(
    region: Region<S>,
    hits: nat,
    pts: JsonDuration,
    opened: Option<Event>,
)
    ensures
        ({
            let after = region.after_frame(hits, pts, opened);
            let last = if hits > 0 {
                pts@
            } else {
                region.last_trigger->0@
            };
            &&& if hits == 0 && region.last_trigger is None {
                after.last_trigger is None && after.last_event == region.last_event
            } else if pts@ - last >= region.hold_time@ {
                after.last_trigger is None && after.last_event is None
            } else {
                &&& after.last_trigger is Some && after.last_trigger->0@ == last
                &&& after.last_event == if hits > 0 && region.last_trigger is None && opened is Some {
                    opened
                } else {
                    region.last_event
                }
            }
            &&& after.camera_id == region.camera_id && after.region_name == region.region_name
            &&& after.classes == region.classes && after.shape == region.shape
            &&& after.hold_time == region.hold_time
        }),
{
}

/// What is told of a frame: that it triggers a region that was not triggered and now
/// is seen in; that the region is left once it was not seen in for its hold time;
/// the open event once for each hit but the one that triggers; and to the alerts, with
/// a picture if an event is opened, and without one if the region is left.
pub proof fn news_tell_what_happened<S>(
    region: Region<S>,
    news: RegionNews,
    hits: nat,
    pts: JsonDuration,
    opened: Option<Event>,
)
    requires
        region.told(news, hits, pts, opened),
    ensures
        ({
            let triggers = hits > 0 && region.last_trigger is None;
            let event = if triggers && opened is Some {
                opened
            } else {
                region.last_event
            };
            let last = if hits > 0 {
                pts@
            } else {
                region.last_trigger->0@
            };
            let left = (hits > 0 || region.last_trigger is Some) && pts@ - last
                >= region.hold_time@;
            &&& news.triggered == triggers
            &&& news.cleared == left
            &&& news.updates@.len() == if event is None || hits == 0 {
                0
            } else if triggers {
                hits - 1
            } else {
                hits as int
            }
            &&& forall|i: int| 0 <= i < news.updates@.len() ==> #[trigger] news.updates@[i] == event->0._id
            &&& news.tells@.contains(true) <==> triggers && opened is Some
            &&& news.tells@.contains(false) <==> left
            &&& news.tells@.len() == (if triggers && opened is Some {
                1int
            } else {
                0
            }) + (if left {
                1int
            } else {
                0
            })
            &&& triggers && opened is Some ==> news.tells@[0]
        }),
{
    let triggers = hits > 0 && region.last_trigger is None;
    if triggers && opened is Some {
        assert(news.tells@[0]);
    }
    if region.is_left(hits, pts) {
        assert(!news.tells@[news.tells@.len() - 1]);
    }
}

/// A region after frames in which nothing was seen in it, at those times.
pub open spec fn after_empty_frames<S>(region: Region<S>, times: Seq<JsonDuration>) -> Region<S>
    decreases times.len(),
{
    if times.len() == 0 {
        region
    } else {
        after_empty_frames(region, times.drop_last()).after_frame(0, times.last(), None)
    }
}

/// A triggered region holds: through every frame that comes less than its hold time
/// after it was last seen in, it stays as it is, with its event open; the first frame
/// that comes no sooner than that leaves it.
pub proof fn region_holds_for_its_hold_time<S>(
    region: Region<S>,
    times: Seq<JsonDuration>,
    late: JsonDuration,
)
    requires
        region.last_trigger is Some,
        forall|i: int|
            0 <= i < times.len() ==> (#[trigger] times[i])@ - region.last_trigger->0@
                < region.hold_time@,
        late@ - region.last_trigger->0@ >= region.hold_time@,
    ensures
        after_empty_frames(region, times) == region,
        after_empty_frames(region, times.push(late)).last_trigger is None,
        after_empty_frames(region, times.push(late)).last_event is None,
    decreases times.len(),
{
    assert(times.push(late).drop_last() == times);
    if times.len() > 0 {
        let rest = times.drop_last();
        assert forall|i: int| 0 <= i < rest.len() implies (#[trigger] rest[i])@
            - region.last_trigger->0@ < region.hold_time@ by {
            assert(rest[i] == times[i]);
        }
        region_holds_for_its_hold_time(region, rest, late);
        assert(times[times.len() - 1]@ - region.last_trigger->0@ < region.hold_time@);
        frame_changes_a_region(region, 0, times.last(), None);
        same_nanos_same_duration(
            region.after_frame(0, times.last(), None).last_trigger->0,
            region.last_trigger->0,
        );
    }
    frame_changes_a_region(region, 0, late, None);
}

/// Every thing counts by itself: one more thing is one more hit exactly when it lies
/// inside and its class is one of those that the region watches for.
pub proof fn hits_count_each_thing<S>(
    region: Region<S>,
    classes: Seq<String>,
    inside: Seq<bool>,
    class_id: String,
    is_inside: bool,
)
    requires
        classes.len() == inside.len(),
    ensures
        region.hits(Seq::<String>::empty(), Seq::<bool>::empty()) == 0,
        region.hits(classes.push(class_id), inside.push(is_inside)) == region.hits(classes, inside)
            + (if is_inside && exists|i: int|
            0 <= i < region.classes@.len() && (#[trigger] region.classes@[i])@ == class_id@ {
            1int
        } else {
            0
        }),
{
    assert(classes.push(class_id).drop_last() == classes);
    assert(inside.push(is_inside).drop_last() == inside);
}

/// A frame can be taken unless nothing was seen in the region and it comes before
/// what was seen in it last. A frame of a camera fits if there is an entry for each of
/// its regions, with a flag for each thing, and every region can take it.
pub proof fn frames_in_order_fit<S, H>(
    dvr: DVR<S, H>,
    camera: ObjectId,
    pts: JsonDuration,
    classes: Seq<String>,
    inside: Seq<Vec<bool>>,
    region: Region<S>,
    hits: nat,
)
    ensures
        region.can_take(hits, pts) <==> hits > 0 || region.last_trigger is None
            || region.last_trigger->0@ <= pts@,
        dvr.fits(camera, pts, classes, inside) <==> inside.len() == dvr.regions_of(camera).len()
            && forall|i: int|
            0 <= i < inside.len() ==> (#[trigger] inside[i])@.len() == classes.len() && ({
                let watched = dvr.regions_of(camera)[i];
                watched.hits(classes, inside[i]@) > 0 || watched.last_trigger is None
                    || watched.last_trigger->0@ <= pts@
            }),
        dvr.regions_of(camera) == if dvr.regions@.dom().contains(camera@) {
            dvr.regions@[camera@]@
        } else {
            Seq::empty()
        },
        region.triggered_by(hits) <==> hits > 0 && region.last_trigger is None,
{
}

/// The regions of a camera are those of the list that bear its identifier, and the
/// alerts that are told those of the list that are known, each in the same order.
pub proof fn lists_are_kept_in_order<S>(
    regions: Seq<Region<S>>,
    camera: ObjectId,
    list: Seq<ObjectId>,
    alerts: Map<int, Alert>,
)
    ensures
        of_camera(regions, camera) == regions.filter(|region: Region<S>| region.camera_id == camera),
        known(list, alerts) == list.filter(|id: ObjectId| alerts.dom().contains(id@)),
        has_camera(regions, camera@) <==> exists|i: int|
            0 <= i < regions.len() && (#[trigger] regions[i]).camera_id == camera,
    decreases regions.len() + list.len(),
{
    reveal(Seq::filter);
    if regions.len() > 0 {
        lists_are_kept_in_order(regions.drop_last(), camera, list, alerts);
    } else if list.len() > 0 {
        lists_are_kept_in_order(regions, camera, list.drop_last(), alerts);
    }
    if has_camera(regions, camera@) {
        let i = choose|i: int| 0 <= i < regions.len() && (#[trigger] regions[i]).camera_id@ == camera@;
        same_number_same_id(regions[i].camera_id, camera);
    }
}

/// Of stored alerts with the same identifier the last one counts, and no alert that
/// is not in the list changes.
pub proof fn last_stored_alert_counts(alerts: Map<int, Alert>, list: Seq<Alert>, id: int)
    ensures
        ({
            let all = with_alerts(alerts, list);
            if exists|i: int| 0 <= i < list.len() && (#[trigger] list[i])._id@ == id {
                &&& all.dom().contains(id)
                &&& exists|i: int|
                    0 <= i < list.len() && #[trigger] list[i] == all[id] && list[i]._id@ == id
                        && forall|j: int| i < j < list.len() ==> (#[trigger] list[j])._id@ != id
            } else {
                &&& all.dom().contains(id) == alerts.dom().contains(id)
                &&& alerts.dom().contains(id) ==> all[id] == alerts[id]
            }
        }),
    decreases list.len(),
{
    if list.len() > 0 {
        let rest = list.drop_last();
        let last = list.len() - 1;
        last_stored_alert_counts(alerts, rest, id);
        if list[last]._id@ == id {
            assert(list[last] == with_alerts(alerts, list)[id]);
        } else if exists|i: int| 0 <= i < list.len() && (#[trigger] list[i])._id@ == id {
            let k = choose|i: int| 0 <= i < list.len() && (#[trigger] list[i])._id@ == id;
            assert(rest[k]._id@ == id);
            let all = with_alerts(alerts, rest);
            let i = choose|i: int|
                0 <= i < rest.len() && #[trigger] rest[i] == all[id] && rest[i]._id@ == id
                    && forall|j: int| i < j < rest.len() ==> (#[trigger] rest[j])._id@ != id;
            assert(list[i] == with_alerts(alerts, list)[id]);
            assert forall|j: int| i < j < list.len() implies (#[trigger] list[j])._id@ != id by {
                if j < last {
                    assert(rest[j] == list[j]);
                }
            }
        } else {
            assert forall|i: int| 0 <= i < rest.len() implies (#[trigger] rest[i])._id@ != id by {
                assert(list[i]._id@ != id);
            }
        }
    }
}

/// Alerts that are set up one after the other come to the end of the lists of the
/// regions that they name, one after the other.
pub proof fn alerts_are_heard_in_order(
    before: Seq<ObjectId>,
    list: Seq<Alert>,
    alert: Alert,
    region: (ObjectId, Seq<char>),
)
    ensures
        heard(before, Seq::<Alert>::empty(), region) == before,
        heard(before, list.push(alert), region) == if exists|i: int|
            0 <= i < alert.regions@.len() && (#[trigger] alert.regions@[i]).camera_id == region.0
                && alert.regions@[i].region_name@ == region.1 {
            heard(before, list, region).filter(|id: ObjectId| id != alert._id).push(alert._id)
        } else {
            heard(before, list, region)
        },
{
    assert(list.push(alert).drop_last() == list);
    rest_keeps_its_order(heard(before, list, region), alert._id);
    if exists|i: int|
        0 <= i < alert.regions@.len() && (#[trigger] alert.regions@[i]).camera_id == region.0
            && alert.regions@[i].region_name@ == region.1 {
        let i = choose|i: int|
            0 <= i < alert.regions@.len() && (#[trigger] alert.regions@[i]).camera_id == region.0
                && alert.regions@[i].region_name@ == region.1;
        assert(alert.regions@[i]@ == region);
        assert(names_region(alert.regions@, region));
    } else if names_region(alert.regions@, region) {
        let i = choose|i: int|
            0 <= i < alert.regions@.len() && (#[trigger] alert.regions@[i])@ == region;
        assert(alert.regions@[i].camera_id == region.0);
    }
}

/// Where alerts and lists agree, an alert is listed for a region exactly if it is
/// known and names the region by camera and name; it is kept under its identifier.
pub proof fn known_alerts_are_listed<S, H>(
    dvr: DVR<S, H>,
    id: ObjectId,
    region: (ObjectId, Seq<char>),
)
    requires
        dvr.linked(),
    ensures
        dvr.alerts@.dom().contains(id@) ==> dvr.alerts@[id@]._id == id,
        listeners(dvr.region_alert@, region).contains(id) <==> dvr.alerts@.dom().contains(id@)
            && exists|i: int|
            0 <= i < dvr.alerts@[id@].regions@.len() && (
            #[trigger] dvr.alerts@[id@].regions@[i]).camera_id == region.0
                && dvr.alerts@[id@].regions@[i].region_name@ == region.1,
{
    let refs = dvr.alerts@[id@].regions@;
    if names_region(refs, region) {
        let i = choose|i: int| 0 <= i < refs.len() && (#[trigger] refs[i])@ == region;
        assert(refs[i].camera_id == region.0 && refs[i].region_name@ == region.1);
    }
    if exists|i: int|
        0 <= i < refs.len() && (#[trigger] refs[i]).camera_id == region.0 && refs[i].region_name@
            == region.1 {
        let i = choose|i: int|
            0 <= i < refs.len() && (#[trigger] refs[i]).camera_id == region.0
                && refs[i].region_name@ == region.1;
        assert(refs[i]@ == region);
    }
}

/// Each known alert of a region is told by its own messages, in the order of the
/// list.
pub proof fn each_alert_is_told<S>(
    messages: Seq<Vec<Publication>>,
    list: Seq<ObjectId>,
    alerts: Map<int, Alert>,
    regions: Map<int, Vec<Region<S>>>,
    image: bool,
    i: int,
)
    requires
        updates_all(messages, known(list, alerts), alerts, regions, image),
        0 <= i < messages.len(),
    ensures
        ({
            let told = list.filter(|id: ObjectId| alerts.dom().contains(id@));
            &&& messages.len() == told.len()
            &&& updates(messages[i]@, alerts[told[i]@], regions, image)
        }),
{
    lists_are_kept_in_order(Seq::<Region<S>>::empty(), list[0], list, alerts);
}

/// Who still listens once an alert was torn down: all but it where it named the
/// region, and all where it did not.
pub proof fn others_go_on_to_listen<S, H>(
    dvr: DVR<S, H>,
    id: ObjectId,
    region: (ObjectId, Seq<char>),
)
    ensures
        dvr.listeners_but(id, region) == if dvr.alerts@.dom().contains(id@) && exists|i: int|
            0 <= i < dvr.alerts@[id@].regions@.len() && (
            #[trigger] dvr.alerts@[id@].regions@[i]).camera_id == region.0
                && dvr.alerts@[id@].regions@[i].region_name@ == region.1 {
            listeners(dvr.region_alert@, region).filter(
                |other: ObjectId| other != dvr.alerts@[id@]._id,
            )
        } else {
            listeners(dvr.region_alert@, region)
        },
{
    let refs = dvr.alerts@[id@].regions@;
    rest_keeps_its_order(listeners(dvr.region_alert@, region), dvr.alerts@[id@]._id);
    if names_region(refs, region) {
        let i = choose|i: int| 0 <= i < refs.len() && (#[trigger] refs[i])@ == region;
        assert(refs[i].camera_id == region.0 && refs[i].region_name@ == region.1);
    }
    if exists|i: int|
        0 <= i < refs.len() && (#[trigger] refs[i]).camera_id == region.0 && refs[i].region_name@
            == region.1 {
        let i = choose|i: int|
            0 <= i < refs.len() && (#[trigger] refs[i]).camera_id == region.0
                && refs[i].region_name@ == region.1;
        assert(refs[i]@ == region);
    }
}

/// Where events are open only while their regions are triggered, that holds of every
/// region of every camera.
pub proof fn open_events_are_in_triggered_regions<S, H>(dvr: DVR<S, H>, camera: ObjectId, i: int)
    requires
        dvr.coherent(),
        dvr.regions@.dom().contains(camera@),
        0 <= i < dvr.regions@[camera@]@.len(),
        dvr.regions@[camera@]@[i].last_event is Some,
    ensures
        dvr.regions@[camera@]@[i].last_trigger is Some,
{
    assert(dvr.regions_of(camera)[i].consistent());
}

/// Stored alerts are new if none of them is known and no two are the same; stored
/// regions agree with their events if none has one open without being triggered.
pub proof fn what_may_be_stored<S>(
    alerts: Map<int, Alert>,
    list: Seq<Alert>,
    regions: Seq<Region<S>>,
)
    ensures
        (forall|i: int| 0 <= i < list.len() ==> !alerts.dom().contains((#[trigger] list[i])._id@))
            && (forall|i: int, j: int|
            0 <= i < j < list.len() ==> (#[trigger] list[i])._id@ != (#[trigger] list[j])._id@)
            ==> all_new(alerts, list),
        (forall|i: int|
            0 <= i < regions.len() && (#[trigger] regions[i]).last_event is Some
                ==> regions[i].last_trigger is Some) ==> all_consistent(regions),
{
}

} // verus!
