//! Cameras as sources of video: their streams, how they are received, and what
//! is recorded of them.

use crate::model::SourceConfig;
use crate::oid::{digit_char, hex_of, written_id_reads_back, ObjectId};
use crate::text::{join2, join3, same};
use crate::time::{group_durations, JsonDuration, NANOS_PER_SEC};
use chrono::{DateTime, Utc};
use std::time::{Duration, UNIX_EPOCH};
use vstd::prelude::*;
use vstd::string::StrSliceExecFns;

verus! {

broadcast use group_durations;

/// The name under which a stream of a camera is known.
pub open spec fn stream_name_of(camera: ObjectId, key: Seq<char>) -> Seq<char> {
    hex_of(camera) + "_"@ + key
}

/// The name under which a stream of a camera is known.
pub fn stream_name(camera: &ObjectId, key: &str) -> (r: String)
    ensures
        r@ == stream_name_of(*camera, key@),
{
    join3(camera.to_hex().as_str(), "_", key)
}

/// No two streams are known under the same name.
pub proof fn stream_names_differ(
    camera: ObjectId,
    key: Seq<char>,
    other_camera: ObjectId,
    other_key: Seq<char>,
)
    requires
        stream_name_of(camera, key) == stream_name_of(other_camera, other_key),
    ensures
        camera == other_camera,
        key == other_key,
{
    reveal_strlit("_");
    let name = stream_name_of(camera, key);
    written_id_reads_back(camera, other_camera);
    written_id_reads_back(other_camera, camera);
    assert(hex_of(camera) == name.take(24));
    assert(hex_of(other_camera) == name.take(24));
    assert(key == name.skip(25));
    assert(other_key == name.skip(25));
}

/// A stream that is to be received.
#[derive(Debug)]
pub struct Source {
    pub _id: ObjectId,
    pub stream_name: String,
    pub url: String,
    /// Whether things are looked for in the stream, and the stream is recorded.
    pub detect: bool,
    /// Whether the stream is meant to be received now.
    pub running: bool,
}

/// Receives a stream and hands out its pictures as they are sent.
pub const STREAM_ONLY: &'static str = r##"
    rtspsrc name=src latency=2000 tcp-timeout=2000000 buffer-mode=3
    src. ! queue ! rtph264depay ! queue ! tee name=raw_tee

    raw_tee. ! queue max-size-buffers=30 leaky=downstream ! h264parse config-interval=-1 ! video/x-h264,stream-format=byte-stream,alignment=au ! 
        appsink name=raw_sink max_buffers=1 drop=0 sync=0 emit-signals=1 async=0 enable-last-sample=0 wait-on-eos=0
"##;

/// Also decodes the stream and records it. For 64 bit ARM machines.
pub const DECODE_AARCH64: &'static str = r##"
    raw_tee. ! queue max-size-buffers=30 leaky=downstream ! h264parse ! nvv4l2decoder bufapi-version=true enable-max-performance=true num-extra-surfaces=20 ! queue ! videorate max-rate=5 !
    appsink name=video_sink max_buffers=1 drop=1 sync=0 emit-signals=1 async=0 enable-last-sample=0 wait-on-eos=0

    splitmuxsink max-size-bytes=1073741824 name=rec muxer=matroskamux
    raw_tee. ! queue max-size-buffers=30 leaky=downstream ! h264parse config-interval=-1 ! rec.video
"##;

/// Also decodes the stream and records it. For other machines.
pub const DECODE: &'static str = r##"
    raw_tee. ! queue max-size-buffers=30 leaky=downstream ! h264parse ! nvv4l2decoder num-extra-surfaces=20 ! queue ! videorate max-rate=5 !
    appsink name=video_sink max_buffers=1 drop=1 sync=0 emit-signals=1 async=0 enable-last-sample=0 wait-on-eos=0

    splitmuxsink max-size-bytes=1073741824 name=rec muxer=matroskamux
    raw_tee. ! queue max-size-buffers=30 leaky=downstream ! h264parse config-interval=-1 ! rec.video
"##;

/// The pipeline that receives a stream.
pub open spec fn pipeline_of(detect: bool, aarch64: bool) -> Seq<char> {
    if !detect {
        STREAM_ONLY@
    } else if aarch64 {
        STREAM_ONLY@ + DECODE_AARCH64@
    } else {
        STREAM_ONLY@ + DECODE@
    }
}

impl Source {
    /// A stream that is not received yet.
    pub fn new(_id: &ObjectId, stream_name: &String, url: &String, detect: bool) -> (r: Source)
        ensures
            r._id == *_id,
            r.stream_name@ == stream_name@,
            r.url@ == url@,
            r.detect == detect,
            !r.running,
    {
        Source {
            _id: *_id,
            stream_name: stream_name.clone(),
            url: url.clone(),
            detect,
            running: false,
        }
    }

    /// Starts to receive the stream, by the pipeline that is given back.
    pub fn run(&mut self, aarch64: bool) -> (r: String)
        ensures
            *final(self) == (Source { running: true, ..*old(self) }),
            r@ == pipeline_of(old(self).detect, aarch64),
    {
        self.running = true;
        if !self.detect {
            STREAM_ONLY.to_owned()
        } else if aarch64 {
            join2(STREAM_ONLY, DECODE_AARCH64)
        } else {
            join2(STREAM_ONLY, DECODE)
        }
    }

    /// Ends the receiving of the stream.
    pub fn stop(&mut self)
        ensures
            *final(self) == (Source { running: false, ..*old(self) }),
    {
        self.running = false;
    }

    /// What to do when the stream broke off: whether to stop it, wait for
    /// `restart_pause` and receive it again. A stream that was ended stays ended.
    pub fn restart(&mut self) -> (r: bool)
        ensures
            r == old(self).running,
            *final(self) == (Source { running: false, ..*old(self) }),
    {
        let again: bool = self.running;
        if again {
            self.stop();
        }
        again
    }
}

/// The time between the end of a stream that broke off and its new start.
pub fn restart_pause() -> (r: JsonDuration)
    ensures
        r@ == 5 * NANOS_PER_SEC,
{
    JsonDuration::from_secs(5)
}

/// How long a stream may be silent. One that is silent for so long broke off.
pub fn silence_limit() -> (r: JsonDuration)
    ensures
        r@ == 10 * NANOS_PER_SEC,
{
    JsonDuration::from_secs(10)
}

impl SourceConfig {
    /// Whether the camera is received when the recorder starts: it is if it is
    /// enabled.
    pub fn starts(&self) -> (r: bool)
        ensures
            r == self.enable,
    {
        self.enable
    }
}

/// The streams of a camera, each under its name and not received yet, in the
/// order of the configuration.
pub fn streams(config: &SourceConfig) -> (r: Vec<Source>)
    ensures
        r@.len() == config.streams@.len(),
        forall|i: int|
            0 <= i < r@.len() ==> {
                &&& (#[trigger] r@[i])._id == config._id
                &&& r@[i].stream_name@ == stream_name_of(config._id, config.streams@[i].0@)
                &&& r@[i].url@ == config.streams@[i].1.url@
                &&& r@[i].detect == config.streams@[i].1.detect
                &&& !r@[i].running
            },
{
    let mut out: Vec<Source> = Vec::new();
    let mut i: usize = 0;
    while i < config.streams.len()
        invariant
            i <= config.streams@.len(),
            out@.len() == i,
            forall|j: int|
                0 <= j < i ==> {
                    &&& (#[trigger] out@[j])._id == config._id
                    &&& out@[j].stream_name@ == stream_name_of(config._id, config.streams@[j].0@)
                    &&& out@[j].url@ == config.streams@[j].1.url@
                    &&& out@[j].detect == config.streams@[j].1.detect
                    &&& !out@[j].running
                },
        decreases config.streams@.len() - i,
    {
        let name: String = stream_name(&config._id, config.streams[i].0.as_str());
        let stream: &crate::model::Stream = &config.streams[i].1;
        out.push(Source::new(&config._id, &name, &stream.url, stream.detect));
        i += 1;
    }
    out
}

/// Whether it is time to keep a new picture of a stream: a second after the last
/// one was kept.
pub fn snapshot_due(last: JsonDuration, now: JsonDuration) -> (r: bool)
    ensures
        r == (now@ - last@ >= NANOS_PER_SEC),
{
    now >= last && (now - last).as_millis() >= 1000
}

/// What a message of the recording part of a pipeline tells.
#[derive(Clone, Copy, PartialEq, Eq, Structural, Debug)]
pub enum Fragment {
    Opened,
    Closed,
    Other,
}

/// What a message of that name tells.
pub fn fragment_message(name: &str) -> (r: Fragment)
    ensures
        (r is Opened) == (name@ == "splitmuxsink-fragment-opened"@),
        (r is Closed) == (name@ == "splitmuxsink-fragment-closed"@),
{
    proof {
        reveal_strlit("splitmuxsink-fragment-opened");
        reveal_strlit("splitmuxsink-fragment-closed");
        assert("splitmuxsink-fragment-opened"@[22] != "splitmuxsink-fragment-closed"@[22]);
    }
    if same(name, "splitmuxsink-fragment-opened") {
        Fragment::Opened
    } else if same(name, "splitmuxsink-fragment-closed") {
        Fragment::Closed
    } else {
        Fragment::Other
    }
}

/// The seconds of a day.
pub const DAY_SECS: u64 = 86_400;

/// Whether the year has a 29 February.
pub open spec fn is_leap_year(year: int) -> bool {
    year % 4 == 0 && (year % 100 != 0 || year % 400 == 0)
}

/// The days of a month, January being the first.
pub open spec fn month_days(year: int, month: int) -> int {
    if month == 2 {
        if is_leap_year(year) {
            29
        } else {
            28
        }
    } else if month == 4 || month == 6 || month == 9 || month == 11 {
        30
    } else {
        31
    }
}

/// The days of a year before a month.
pub open spec fn days_before_month(year: int, month: int) -> int
    decreases month,
{
    if month <= 1 {
        0
    } else {
        days_before_month(year, month - 1) + month_days(year, month - 1)
    }
}

/// The days between the first of 1970 and the first of a year.
pub open spec fn days_before_year(year: int) -> int {
    365 * (year - 1970) + (year - 1) / 4 - (year - 1) / 100 + (year - 1) / 400 - 477
}

/// A date of the Gregorian calendar.
pub ghost struct Date {
    pub year: int,
    pub month: int,
    pub day: int,
}

impl Date {
    /// Whether this is the date so many days after the first of 1970.
    pub open spec fn is_day(self, days: int) -> bool {
        &&& 1970 <= self.year <= 9999
        &&& 1 <= self.month <= 12
        &&& 1 <= self.day <= month_days(self.year, self.month)
        &&& days == days_before_year(self.year) + days_before_month(self.year, self.month)
            + self.day - 1
    }
}

/// Two decimal digits.
pub open spec fn two_digits(n: int) -> Seq<char> {
    seq![digit_char(n / 10), digit_char(n % 10)]
}

/// A date and a time of day, in seconds, in digits: year, month and day, an
/// underscore, then hour, minute and second.
pub open spec fn stamp(date: Date, time: int) -> Seq<char> {
    two_digits(date.year / 100) + two_digits(date.year % 100) + two_digits(date.month) + two_digits(
        date.day,
    ) + seq!['_'] + two_digits(time / 3600) + two_digits(time / 60 % 60) + two_digits(time % 60)
}

/// Whether `text` is the date and the time of day, in Greenwich, so many seconds
/// after the start of 1970.
pub open spec fn is_stamp(text: Seq<char>, secs: int) -> bool {
    exists|date: Date| #[trigger]
        date.is_day(secs / (DAY_SECS as int)) && text == stamp(date, secs % (DAY_SECS as int))
}

/// The last second that a media clock can tell: `u64::MAX` nanoseconds.
pub const LAST_MEDIA_SEC: u64 = 18_446_744_073;

/// Calls `format` of `chrono`'s `DateTime<Utc>` with the format
/// `%Y%m%d_%H%M%S`, for a time so many seconds after the start of 1970: the
/// date of the proleptic Gregorian calendar and the time of day, without leap
/// seconds, in decimal digits with zeros in front.
#[verifier::external_body]
fn utc_stamp(secs: u64) -> (r: String)
    requires
        secs <= LAST_MEDIA_SEC,
    ensures
        is_stamp(r@, secs as int),
{
    let time: DateTime<Utc> = (UNIX_EPOCH + Duration::from_secs(secs)).into();
    time.format("%Y%m%d_%H%M%S").to_string()
}

/// Whether that is the name of the file of a recording that starts so many seconds
/// after the start of 1970.
pub open spec fn is_recording_name(name: Seq<char>, secs: int) -> bool {
    exists|text: Seq<char>| #[trigger] is_stamp(text, secs) && name == text + ".mkv"@
}

/// The name of the file that holds what is recorded from `start` on.
pub fn recording_name(start: JsonDuration) -> (r: String)
    requires
        start@ <= u64::MAX,
    ensures
        is_recording_name(r@, start@ / (NANOS_PER_SEC as int)),
{
    let secs: u64 = (start.as_nanos() / NANOS_PER_SEC) as u64;
    let text: String = utc_stamp(secs);
    assert(is_stamp(text@, start@ / (NANOS_PER_SEC as int)));
    join2(text.as_str(), ".mkv")
}

/// The path of what is called `leaf` in a directory. A slash stands between them,
/// unless the directory is empty or ends in one.
pub open spec fn path_below(dir: Seq<char>, leaf: Seq<char>) -> Seq<char> {
    if dir.len() == 0 || dir.last() == '/' {
        dir + leaf
    } else {
        dir + "/"@ + leaf
    }
}

/// The path of what is called `leaf` in a directory.
fn below(dir: &str, leaf: &str) -> (r: String)
    ensures
        r@ == path_below(dir@, leaf@),
{
    let len: usize = dir.unicode_len();
    if len == 0 || dir.get_char(len - 1) == '/' {
        join2(dir, leaf)
    } else {
        join3(dir, "/", leaf)
    }
}

/// The directory that holds the recordings of a camera, where `dir` is that of all
/// recordings.
pub open spec fn recording_dir_of(dir: Seq<char>, camera: ObjectId) -> Seq<char> {
    path_below(dir, hex_of(camera))
}

/// The directory that holds the recordings of a camera, where `dir` is that of all
/// recordings.
pub fn recording_dir(dir: &str, camera: &ObjectId) -> (r: String)
    ensures
        r@ == recording_dir_of(dir@, *camera),
{
    below(dir, camera.to_hex().as_str())
}

/// Where the recording of that name of a camera stands.
pub open spec fn location_of(dir: Seq<char>, camera: ObjectId, name: Seq<char>) -> Seq<char> {
    recording_dir_of(dir, camera) + "/"@ + name
}

/// Where a camera is recorded to from `start` on, where `dir` is the directory of
/// all recordings.
pub fn recording_location(dir: &str, camera: &ObjectId, start: JsonDuration) -> (r: String)
    requires
        start@ <= u64::MAX,
    ensures
        exists|name: Seq<char>| #[trigger]
            is_recording_name(name, start@ / (NANOS_PER_SEC as int)) && r@ == location_of(
                dir@,
                *camera,
                name,
            ),
{
    let name: String = recording_name(start);
    assert(is_recording_name(name@, start@ / (NANOS_PER_SEC as int)));
    join3(recording_dir(dir, camera).as_str(), "/", name.as_str())
}

/// No file is written twice: two cameras never share one, and neither do two
/// recordings of one camera that start in different seconds.
pub proof fn recordings_share_no_file(
    dir: Seq<char>,
    camera: ObjectId,
    name: Seq<char>,
    secs: int,
    other_camera: ObjectId,
    other_name: Seq<char>,
    other_secs: int,
)
    requires
        is_recording_name(name, secs),
        is_recording_name(other_name, other_secs),
        camera != other_camera || secs != other_secs,
    ensures
        location_of(dir, camera, name) != location_of(dir, other_camera, other_name),
{
    reveal_strlit("/");
    reveal_strlit(".mkv");
    written_id_reads_back(camera, other_camera);
    written_id_reads_back(other_camera, camera);
    let place = location_of(dir, camera, name);
    let other = location_of(dir, other_camera, other_name);
    if place == other {
        let n: int = if dir.len() == 0 || dir.last() == '/' {
            dir.len() as int
        } else {
            dir.len() as int + 1
        };
        assert(hex_of(camera) == place.subrange(n, n + 24));
        assert(hex_of(other_camera) == place.subrange(n, n + 24));
        assert(name == place.skip(n + 25));
        assert(other_name == place.skip(n + 25));
        let text = choose|text: Seq<char>| #[trigger] is_stamp(text, secs) && name == text + ".mkv"@;
        let other_text = choose|text: Seq<char>| #[trigger]
            is_stamp(text, other_secs) && other_name == text + ".mkv"@;
        assert(text == name.take(name.len() - 4));
        assert(other_text == name.take(name.len() - 4));
        recording_names_differ(text, secs, other_secs);
    }
}

proof fn lemma_two_digits(a: int, b: int)
    requires
        0 <= a < 100,
        0 <= b < 100,
        two_digits(a) == two_digits(b),
    ensures
        a == b,
{
    assert(two_digits(a)[0] == two_digits(b)[0]);
    assert(two_digits(a)[1] == two_digits(b)[1]);
    assert(digit_char(a / 10) as int == '0' as int + a / 10);
    assert(digit_char(b / 10) as int == '0' as int + b / 10);
    assert(digit_char(a % 10) as int == '0' as int + a % 10);
    assert(digit_char(b % 10) as int == '0' as int + b % 10);
}

proof fn lemma_same_stamp(date: Date, days: int, time: int, other: Date, other_days: int, other_time: int)
    requires
        date.is_day(days),
        other.is_day(other_days),
        0 <= time < DAY_SECS,
        0 <= other_time < DAY_SECS,
        stamp(date, time) == stamp(other, other_time),
    ensures
        date == other,
        time == other_time,
{
    let a = stamp(date, time);
    let b = stamp(other, other_time);
    assert(two_digits(date.year / 100) == a.subrange(0, 2));
    assert(two_digits(date.year % 100) == a.subrange(2, 4));
    assert(two_digits(date.month) == a.subrange(4, 6));
    assert(two_digits(date.day) == a.subrange(6, 8));
    assert(two_digits(time / 3600) == a.subrange(9, 11));
    assert(two_digits(time / 60 % 60) == a.subrange(11, 13));
    assert(two_digits(time % 60) == a.subrange(13, 15));
    assert(two_digits(other.year / 100) == b.subrange(0, 2));
    assert(two_digits(other.year % 100) == b.subrange(2, 4));
    assert(two_digits(other.month) == b.subrange(4, 6));
    assert(two_digits(other.day) == b.subrange(6, 8));
    assert(two_digits(other_time / 3600) == b.subrange(9, 11));
    assert(two_digits(other_time / 60 % 60) == b.subrange(11, 13));
    assert(two_digits(other_time % 60) == b.subrange(13, 15));
    lemma_two_digits(date.year / 100, other.year / 100);
    lemma_two_digits(date.year % 100, other.year % 100);
    lemma_two_digits(date.month, other.month);
    lemma_two_digits(date.day, other.day);
    lemma_two_digits(time / 3600, other_time / 3600);
    lemma_two_digits(time / 60 % 60, other_time / 60 % 60);
    lemma_two_digits(time % 60, other_time % 60);
}

/// Recordings that start in different seconds have different names.
pub proof fn recording_names_differ(text: Seq<char>, secs: int, other_secs: int)
    requires
        is_stamp(text, secs),
        is_stamp(text, other_secs),
    ensures
        secs == other_secs,
{
    let day = DAY_SECS as int;
    let date = choose|date: Date| #[trigger]
        date.is_day(secs / day) && text == stamp(date, secs % day);
    let other = choose|date: Date| #[trigger]
        date.is_day(other_secs / day) && text == stamp(date, other_secs % day);
    lemma_same_stamp(date, secs / day, secs % day, other, other_secs / day, other_secs % day);
}

/// A stream is known under the identifier of its camera and its own name, with a line
/// between them.
pub proof fn stream_name_holds_both(camera: ObjectId, key: Seq<char>)
    ensures
        stream_name_of(camera, key).take(24) == hex_of(camera),
        stream_name_of(camera, key)[24] == '_',
        stream_name_of(camera, key).skip(25) == key,
{
    reveal_strlit("_");
    written_id_reads_back(camera, camera);
    assert(stream_name_of(camera, key).take(24) =~= hex_of(camera));
    assert(stream_name_of(camera, key).skip(25) =~= key);
}

/// Every stream is received in the same way; one in which things are looked for is
/// decoded and recorded besides, in the way of the machine.
pub proof fn pipelines_begin_alike(detect: bool, aarch64: bool)
    ensures
        pipeline_of(false, aarch64) == STREAM_ONLY@,
        pipeline_of(true, true) == STREAM_ONLY@ + DECODE_AARCH64@,
        pipeline_of(true, false) == STREAM_ONLY@ + DECODE@,
        pipeline_of(detect, aarch64).len() >= STREAM_ONLY@.len(),
        pipeline_of(detect, aarch64).take(STREAM_ONLY@.len() as int) == STREAM_ONLY@,
{
    assert(pipeline_of(detect, aarch64).take(STREAM_ONLY@.len() as int) =~= STREAM_ONLY@);
}

/// A recording is kept below the directory of all recordings, in one that is called
/// after its camera, in a file that is called after its start, whatever the camera, the
/// directory and the start are.
pub proof fn recordings_are_kept_by_camera_and_start(
    dir: Seq<char>,
    camera: ObjectId,
    name: Seq<char>,
    secs: int,
)
    ensures
        ({
            let place = location_of(dir, camera, name);
            let n: int = if dir.len() == 0 || dir.last() == '/' {
                dir.len() as int
            } else {
                dir.len() + 1int
            };
            &&& place.len() == n + 25 + name.len()
            &&& place.take(dir.len() as int) == dir
            &&& n > dir.len() ==> place[dir.len() as int] == '/'
            &&& place.subrange(n, n + 24) == hex_of(camera)
            &&& place[n + 24] == '/'
            &&& place.skip(n + 25) == name
            &&& recording_dir_of(dir, camera) == place.take(n + 24)
        }),
        is_recording_name(name, secs) <==> exists|text: Seq<char>| #[trigger]
            is_stamp(text, secs) && name == text + ".mkv"@,
{
    reveal_strlit("/");
    written_id_reads_back(camera, camera);
    let place = location_of(dir, camera, name);
    let n: int = if dir.len() == 0 || dir.last() == '/' {
        dir.len() as int
    } else {
        dir.len() + 1int
    };
    assert(place.take(dir.len() as int) =~= dir);
    assert(place.subrange(n, n + 24) =~= hex_of(camera));
    assert(place.skip(n + 25) =~= name);
    assert(recording_dir_of(dir, camera) =~= place.take(n + 24));
}

} // verus!
