//! The messages that announce alerts to a home automation server.

use crate::keymap::KeyMap;
use vstd::prelude::*;

verus! {

/// The device that a sensor belongs to.
#[derive(Debug, Default, Clone)]
pub struct Device {
    pub identifiers: String,
    pub name: String,
    pub sw_version: String,
    pub model: String,
    pub manufacturer: String,
}

/// Announces a sensor that is on or off.
#[derive(Debug, Default, Clone)]
pub struct BinarySensor {
    pub name: String,
    pub uniq_id: String,
    pub state_topic: String,
    pub device_class: String,
    pub avty_t: String,
    pub json_attr_t: String,
    pub device: Device,
}

/// Announces a picture.
#[derive(Debug, Default, Clone)]
pub struct Camera {
    pub name: String,
    pub uniq_id: String,
    pub t: String,
    pub avty_t: String,
    pub json_attr_t: String,
    pub device: Device,
}

/// The value of an attribute.
#[derive(Debug)]
pub enum Attr {
    State(bool),
    Event(String),
}

/// What a message holds.
#[derive(Debug)]
pub enum Payload {
    Text(String),
    /// The picture that caused the message.
    Image,
    Sensor(BinarySensor),
    Camera(Camera),
    Attributes(KeyMap<String, Attr>),
}

/// How often a message arrives.
#[derive(Clone, Copy, PartialEq, Eq, Structural, Debug)]
pub enum Delivery {
    AtMostOnce,
    AtLeastOnce,
    ExactlyOnce,
}

/// A message to be published.
#[derive(Debug)]
pub struct Publication {
    pub topic: String,
    pub payload: Payload,
    pub delivery: Delivery,
    /// Whether the server keeps the message for those who come later.
    pub retain: bool,
}

impl Publication {
    /// Whether the message arrives at least once and is retained.
    pub open spec fn is_lasting(self) -> bool {
        self.delivery is AtLeastOnce && self.retain
    }

    /// A message that arrives at least once and is retained, as all are that the
    /// recorder sends.
    pub fn new(topic: String, payload: Payload) -> (r: Publication)
        ensures
            r.topic == topic,
            r.payload == payload,
            r.is_lasting(),
    {
        Publication { topic, payload, delivery: Delivery::AtLeastOnce, retain: true }
    }
}

/// Tells whether the recorder is there. That it is not is left with the server
/// as a last will.
pub fn availability(online: bool) -> (r: Publication)
    ensures
        r.topic@ == "overnvr_rust/available"@,
        r.is_lasting(),
        r.payload matches Payload::Text(text) && text@ == if online {
            "online"@
        } else {
            "offline"@
        },
{
    let text: String = if online {
        "online".to_owned()
    } else {
        "offline".to_owned()
    };
    Publication::new("overnvr_rust/available".to_owned(), Payload::Text(text))
}

/// A message lasts exactly if the server keeps it and it arrives at least once.
pub proof fn lasting_messages_are_kept(message: Publication)
    ensures
        message.is_lasting() <==> message.retain && message.delivery == Delivery::AtLeastOnce,
{
}

} // verus!
