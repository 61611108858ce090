//! Requests to the recorder: what is taken from their path, and what is answered.

use crate::model::{Alert, SourceConfig};
use crate::oid::ObjectId;
use crate::text::{decimal, decimal_of, join3};
use crate::time::{group_durations, JsonDuration, NANOS_PER_MILLI};
use vstd::prelude::*;

verus! {

broadcast use group_durations;

/// The camera that a request to change one stores: the one in its body, under the
/// identifier in its path.
pub fn update_camera(id: ObjectId, camera: SourceConfig) -> (r: SourceConfig)
    ensures
        r == (SourceConfig { _id: id, ..camera }),
{
    let mut renamed: SourceConfig = camera;
    renamed._id = id;
    renamed
}

/// The alert that a request to change one stores: the one in its body, under the
/// identifier in its path.
pub fn update_alert(id: ObjectId, alert: Alert) -> (r: Alert)
    ensures
        r == (Alert { _id: id, ..alert }),
{
    let mut renamed: Alert = alert;
    renamed._id = id;
    renamed
}

/// How a browser is told to keep an exported video: in a file that is named after
/// the time at which the video starts, in milliseconds.
pub fn export_disposition(from: &JsonDuration) -> (r: String)
    ensures
        r@ == "attachment; filename=\""@ + decimal_of(from@ / (NANOS_PER_MILLI as int))
            + ".mp4\""@,
{
    join3("attachment; filename=\"", decimal(from.as_millis()).as_str(), ".mp4\"")
}

} // verus!
