//! When the pictures of a video are shown: live, from a recording, and in a file
//! that is exported.

use crate::time::{group_durations, JsonDuration};
use vstd::prelude::*;

verus! {

broadcast use group_durations;

/// Reads the pictures of a recording from a file.
pub const INPUT_PIPELINE: &'static str = "filesrc name=file ! matroskademux name=demux ! appsink sync=0 wait-on-eos=0 max-buffers=5 emit-signals=1 async=0 enable-last-sample=0 name=sink";

/// Hands out recorded pictures when it is time to show them.
pub const PLAYER_PIPELINE: &'static str = "appsrc emit-signals=1 name=src ! h264parse ! video/x-h264,stream-format=byte-stream,alignment=au ! appsink sync=1 wait-on-eos=0 max-buffers=5 emit-signals=1 async=0 enable-last-sample=0 name=sink";

/// Writes pictures into a file that can be kept.
pub const EXPORT_PIPELINE: &'static str = "appsrc emit-signals=1 name=src ! h264parse ! video/x-h264 ! mux.video_0 mp4mux name=mux ! filesink async=false name=sink location=out.mkv";

/// How far into a file to go to see what was at `at`, for a file that starts at
/// `file_start`. A file that starts later is seen from its beginning.
pub fn seek_offset(at: JsonDuration, file_start: JsonDuration) -> (r: Option<JsonDuration>)
    ensures
        r is Some <==> at@ >= file_start@,
        r matches Some(offset) ==> offset@ == at@ - file_start@,
{
    if at >= file_start {
        Some(at - file_start)
    } else {
        None
    }
}

/// When a recorded picture is shown, in nanoseconds after the start of the
/// playback of what was at `at`. Pictures from before are needed to show those
/// that build on them, but a picture that itself builds on others is left out.
pub open spec fn shown_at(pts: int, at: int, delta: bool) -> Option<int> {
    if pts >= at {
        Some(pts - at)
    } else if delta {
        None
    } else {
        Some(0)
    }
}

/// When a recorded picture is shown.
pub fn playback_frame(pts: JsonDuration, at: JsonDuration, delta: bool) -> (r: Option<
    JsonDuration,
>)
    ensures
        r is Some <==> shown_at(pts@, at@, delta) is Some,
        r matches Some(time) ==> shown_at(pts@, at@, delta) == Some(time@),
        r is None <==> pts@ < at@ && delta,
        r matches Some(time) ==> time@ == if pts@ < at@ {
            0
        } else {
            pts@ - at@
        },
{
    if pts < at {
        if delta {
            None
        } else {
            Some(JsonDuration::from_secs(0))
        }
    } else {
        Some(pts - at)
    }
}

/// Pictures are shown in the order in which they were taken, and those from the
/// start of the playback on are shown as far apart as they were taken.
pub proof fn playback_keeps_pace(at: int, pts: int, delta: bool, later_pts: int, later_delta: bool)
    requires
        pts <= later_pts,
        shown_at(pts, at, delta) is Some,
        shown_at(later_pts, at, later_delta) is Some,
    ensures
        shown_at(pts, at, delta)->0 <= shown_at(later_pts, at, later_delta)->0,
        at <= pts ==> shown_at(later_pts, at, later_delta)->0 - shown_at(pts, at, delta)->0
            == later_pts - pts,
{
}

/// Gives pictures that do not tell their time the time of the one before.
#[derive(Clone, Copy, PartialEq, Eq, Structural, Debug)]
pub struct PlaybackClock {
    pub last: Option<JsonDuration>,
}

impl PlaybackClock {
    /// No picture was seen yet.
    pub fn new() -> (r: PlaybackClock)
        ensures
            r.last is None,
    {
        PlaybackClock { last: None }
    }

    /// The time of the picture: its own or that of the one before.
    pub open spec fn time_of(self, pts: Option<JsonDuration>) -> Option<JsonDuration> {
        match pts {
            Some(time) => Some(time),
            None => self.last,
        }
    }

    /// The time of the next picture. A picture that has none is left out.
    pub fn next(&mut self, pts: Option<JsonDuration>) -> (r: Option<JsonDuration>)
        ensures
            r == old(self).time_of(pts),
            final(self).last == r,
    {
        if pts.is_some() {
            self.last = pts;
        }
        self.last
    }
}

/// How far the playback of a recording has come.
#[derive(Clone, Copy, PartialEq, Eq, Structural, Debug)]
pub enum PlaybackState {
    /// The watcher is to be told where the video starts.
    Waiting,
    /// The watcher was told, and pictures are sent.
    Playing,
    /// The watcher could not be told, and nothing is sent.
    Refused,
}

/// The playback of a recording.
#[derive(Clone, Copy, PartialEq, Eq, Structural, Debug)]
pub struct Playback {
    pub state: PlaybackState,
    pub clock: PlaybackClock,
}

impl Playback {
    /// A playback of which the watcher knows nothing yet.
    pub fn new() -> (r: Playback)
        ensures
            r.state is Waiting,
            r.clock.last is None,
    {
        Playback { state: PlaybackState::Waiting, clock: PlaybackClock::new() }
    }

    /// The playback after it was tried to tell the watcher where it starts.
    pub open spec fn after_telling(self, ok: bool) -> Playback {
        Playback {
            state: if !(self.state is Waiting) {
                self.state
            } else if ok {
                PlaybackState::Playing
            } else {
                PlaybackState::Refused
            },
            ..self
        }
    }

    /// Takes note of whether the watcher could be told where the video starts, and
    /// tells whether pictures are sent.
    pub fn told(&mut self, ok: bool) -> (r: bool)
        ensures
            *final(self) == old(self).after_telling(ok),
            r == (final(self).state is Playing),
    {
        if self.state == PlaybackState::Waiting {
            self.state = if ok {
                PlaybackState::Playing
            } else {
                PlaybackState::Refused
            };
        }
        self.state == PlaybackState::Playing
    }

    /// The playback after a picture.
    pub open spec fn after_picture(self, pts: Option<JsonDuration>) -> Playback {
        if self.state is Playing {
            Playback { clock: PlaybackClock { last: self.clock.time_of(pts) }, ..self }
        } else {
            self
        }
    }

    /// The time at which the next picture is sent. No picture is sent before the
    /// watcher was told where the video starts, nor if they could not be told.
    pub fn next(&mut self, pts: Option<JsonDuration>) -> (r: Option<JsonDuration>)
        ensures
            *final(self) == old(self).after_picture(pts),
            r == if old(self).state is Playing {
                old(self).clock.time_of(pts)
            } else {
                None
            },
    {
        if self.state == PlaybackState::Playing {
            self.clock.next(pts)
        } else {
            None
        }
    }
}

/// What happens in the playback of a recording.
#[derive(Debug)]
pub enum PlaybackEvent {
    /// It was tried to tell the watcher where the video starts.
    Told(bool),
    /// A picture came.
    Picture(Option<JsonDuration>),
}

/// The playback after all that happened.
pub open spec fn playback_after(start: Playback, history: Seq<PlaybackEvent>) -> Playback
    decreases history.len(),
{
    if history.len() == 0 {
        start
    } else {
        let before = playback_after(start, history.drop_last());
        match history.last() {
            PlaybackEvent::Told(ok) => before.after_telling(ok),
            PlaybackEvent::Picture(pts) => before.after_picture(pts),
        }
    }
}

/// The start of a playback is told once: after the first attempt to tell it, which
/// decides, no other changes anything. Before it no picture is sent.
pub proof fn start_is_told_once(start: Playback, history: Seq<PlaybackEvent>, k: int)
    requires
        start.state is Waiting,
        0 <= k <= history.len(),
        forall|i: int| 0 <= i < k ==> #[trigger] history[i] is Picture,
        k < history.len() ==> history[k] is Told,
    ensures
        k == history.len() ==> playback_after(start, history).state is Waiting,
        k < history.len() ==> playback_after(start, history).state == (if history[k]->Told_0 {
            PlaybackState::Playing
        } else {
            PlaybackState::Refused
        }),
    decreases history.len(),
{
    if history.len() > 0 {
        let rest = history.drop_last();
        if k == history.len() {
            assert(history[k - 1] is Picture);
            assert forall|i: int| 0 <= i < k - 1 implies #[trigger] rest[i] is Picture by {
                assert(rest[i] == history[i]);
            }
            start_is_told_once(start, rest, k - 1);
        } else {
            assert forall|i: int| 0 <= i < k implies #[trigger] rest[i] is Picture by {
                assert(rest[i] == history[i]);
            }
            if k < rest.len() {
                assert(rest[k] == history[k]);
            }
            start_is_told_once(start, rest, k);
        }
    }
}

/// A live picture that is to be sent.
#[derive(Clone, Copy, PartialEq, Eq, Structural, Debug)]
pub struct LiveFrame {
    /// How long after the first picture it is shown.
    pub at: JsonDuration,
    /// The time of the picture, if the watcher is to be told with this picture
    /// where the stream starts.
    pub start_info: Option<JsonDuration>,
}

/// Tells when live pictures are shown.
#[derive(Clone, Copy, PartialEq, Eq, Structural, Debug)]
pub struct LiveClock {
    pub first: Option<JsonDuration>,
    pub clock: PlaybackClock,
    /// Whether the watcher knows where the stream starts.
    pub sent_one: bool,
}

impl LiveClock {
    /// No picture was seen yet.
    pub fn new() -> (r: LiveClock)
        ensures
            r == LiveClock::start(),
    {
        LiveClock { first: None, clock: PlaybackClock::new(), sent_one: false }
    }

    /// The clock before any picture.
    pub open spec fn start() -> LiveClock {
        LiveClock { first: None, clock: PlaybackClock { last: None }, sent_one: false }
    }

    /// Whether the picture can be taken: it is not earlier than the first one.
    pub open spec fn can_take(self, pts: Option<JsonDuration>) -> bool {
        self.first is Some && self.clock.time_of(pts) is Some ==> self.first->0@
            <= self.clock.time_of(pts)->0@
    }

    /// The clock after the picture.
    pub open spec fn after(self, pts: Option<JsonDuration>) -> LiveClock {
        let time = self.clock.time_of(pts);
        LiveClock {
            first: if self.first is Some {
                self.first
            } else {
                time
            },
            clock: PlaybackClock { last: time },
            sent_one: self.sent_one || time is Some,
        }
    }

    /// Whether the picture can be taken.
    pub fn may_take(&self, pts: Option<JsonDuration>) -> (r: bool)
        ensures
            r == self.can_take(pts),
    {
        let mut clock: PlaybackClock = self.clock;
        match (self.first, clock.next(pts)) {
            (Some(first), Some(time)) => first <= time,
            _ => true,
        }
    }

    /// What to send for the next picture. A picture that has no time is left out.
    pub fn next(&mut self, pts: Option<JsonDuration>) -> (r: Option<LiveFrame>)
        requires
            old(self).can_take(pts),
        ensures
            *final(self) == old(self).after(pts),
            r is Some <==> old(self).clock.time_of(pts) is Some,
            r matches Some(frame) ==> {
                let time = old(self).clock.time_of(pts)->0;
                &&& frame.at@ == match old(self).first {
                    Some(first) => time@ - first@,
                    None => 0,
                }
                &&& frame.start_info == if old(self).sent_one {
                    None
                } else {
                    Some(time)
                }
            },
    {
        match self.clock.next(pts) {
            Some(time) => {
                let at: JsonDuration = match self.first {
                    Some(first) => time - first,
                    None => {
                        self.first = Some(time);
                        JsonDuration::from_secs(0)
                    },
                };
                let start_info: Option<JsonDuration> = if self.sent_one {
                    None
                } else {
                    Some(time)
                };
                self.sent_one = true;
                Some(LiveFrame { at, start_info })
            },
            None => None,
        }
    }
}

/// The clock after a run of pictures.
pub open spec fn live_after(history: Seq<Option<JsonDuration>>) -> LiveClock
    decreases history.len(),
{
    if history.len() == 0 {
        LiveClock::start()
    } else {
        live_after(history.drop_last()).after(history.last())
    }
}

/// Live pictures are counted from the first one that tells its time, and the
/// watcher is told once where the stream starts: with that one.
pub proof fn live_counts_from_first(history: Seq<Option<JsonDuration>>, k: int)
    requires
        0 <= k <= history.len(),
        forall|i: int| 0 <= i < k ==> (#[trigger] history[i]) is None,
        k < history.len() ==> history[k] is Some,
    ensures
        k < history.len() ==> live_after(history).first == history[k] && live_after(history).sent_one,
        k == history.len() ==> live_after(history) == LiveClock::start(),
    decreases history.len(),
{
    if history.len() > 0 {
        let rest = history.drop_last();
        if k == history.len() {
            live_counts_from_first(rest, k - 1);
        } else {
            live_counts_from_first(rest, k);
        }
    }
}

/// The first sample that can be shown by itself, where `deltas` tells of each
/// whether it builds on others. A watcher is shown it while the next one is on
/// its way.
pub fn first_whole(deltas: &Vec<bool>) -> (r: Option<usize>)
    ensures
        match r {
            Some(i) => i < deltas@.len() && !deltas@[i as int] && forall|j: int|
                0 <= j < i ==> #[trigger] deltas@[j],
            None => forall|j: int| 0 <= j < deltas@.len() ==> #[trigger] deltas@[j],
        },
{
    let mut i: usize = 0;
    while i < deltas.len()
        invariant
            i <= deltas@.len(),
            forall|j: int| 0 <= j < i ==> #[trigger] deltas@[j],
        decreases deltas@.len() - i,
    {
        if !deltas[i] {
            return Some(i);
        }
        i += 1;
    }
    None
}

/// The first sample that tells its time.
pub fn first_timed(times: &Vec<Option<JsonDuration>>) -> (r: Option<usize>)
    ensures
        match r {
            Some(i) => i < times@.len() && times@[i as int] is Some && forall|j: int|
                0 <= j < i ==> (#[trigger] times@[j]) is None,
            None => forall|j: int| 0 <= j < times@.len() ==> (#[trigger] times@[j]) is None,
        },
{
    let mut i: usize = 0;
    while i < times.len()
        invariant
            i <= times@.len(),
            forall|j: int| 0 <= j < i ==> (#[trigger] times@[j]) is None,
        decreases times@.len() - i,
    {
        if times[i].is_some() {
            return Some(i);
        }
        i += 1;
    }
    None
}

/// What becomes of a picture in an export.
#[derive(Clone, Copy, PartialEq, Eq, Structural, Debug)]
pub enum ExportStep {
    /// It goes into the file, so long after its beginning.
    Write(JsonDuration),
    /// It and the rest of the recording stay out.
    Stop,
}

/// Writes what was recorded up to a time into one file.
#[derive(Clone, Copy, PartialEq, Eq, Structural, Debug)]
pub struct Export {
    pub to: JsonDuration,
    /// The time of the first picture in the file.
    pub base: Option<JsonDuration>,
}

impl Export {
    /// A file without pictures yet.
    pub fn new(to: JsonDuration) -> (r: Export)
        ensures
            r.to == to,
            r.base is None,
    {
        Export { to, base: None }
    }

    /// Whether the picture can be taken: it is past the end or not earlier than
    /// the first one.
    pub open spec fn can_take(self, pts: JsonDuration) -> bool {
        pts@ <= self.to@ ==> (self.base matches Some(base) ==> base@ <= pts@)
    }

    /// Whether the picture can be taken.
    pub fn may_take(&self, pts: JsonDuration) -> (r: bool)
        ensures
            r == self.can_take(pts),
    {
        match self.base {
            Some(base) => self.to < pts || base <= pts,
            None => true,
        }
    }

    /// What becomes of the next picture.
    pub fn step(&mut self, pts: JsonDuration) -> (r: ExportStep)
        requires
            old(self).can_take(pts),
        ensures
            final(self).to == old(self).to,
            final(self).base == base_after(old(self).base, old(self).to, pts),
            r is Stop <==> pts@ > old(self).to@,
            r matches ExportStep::Write(time) ==> {
                &&& final(self).base is Some
                &&& time@ == pts@ - final(self).base->0@
            },
    {
        if self.to < pts {
            return ExportStep::Stop;
        }
        let base: JsonDuration = match self.base {
            Some(base) => base,
            None => {
                self.base = Some(pts);
                pts
            },
        };
        ExportStep::Write(pts - base)
    }
}

/// The time of the first picture in the file after one more picture.
pub open spec fn base_after(
    base: Option<JsonDuration>,
    to: JsonDuration,
    pts: JsonDuration,
) -> Option<JsonDuration> {
    if base is None && pts@ <= to@ {
        Some(pts)
    } else {
        base
    }
}

/// The time of the first picture in the file after a run of pictures.
pub open spec fn export_after(to: JsonDuration, history: Seq<JsonDuration>) -> Option<JsonDuration>
    decreases history.len(),
{
    if history.len() == 0 {
        None
    } else {
        base_after(export_after(to, history.drop_last()), to, history.last())
    }
}

/// An exported file begins with the first picture that is not past its end, at
/// time zero.
pub proof fn export_begins_at_first(to: JsonDuration, history: Seq<JsonDuration>, k: int)
    requires
        0 <= k < history.len(),
        history[k]@ <= to@,
        forall|i: int| 0 <= i < k ==> (#[trigger] history[i])@ > to@,
    ensures
        export_after(to, history) == Some(history[k]),
        export_after(to, history.take(k)) is None,
    decreases history.len(),
{
    if k < history.len() - 1 {
        export_begins_at_first(to, history.drop_last(), k);
        assert(history.drop_last().take(k) == history.take(k));
    } else {
        assert(history.take(k) == history.drop_last());
        lemma_nothing_exported(to, history.take(k));
    }
}

proof fn lemma_nothing_exported(to: JsonDuration, history: Seq<JsonDuration>)
    requires
        forall|i: int| 0 <= i < history.len() ==> (#[trigger] history[i])@ > to@,
    ensures
        export_after(to, history) is None,
    decreases history.len(),
{
    if history.len() > 0 {
        lemma_nothing_exported(to, history.drop_last());
    }
}

/// A recorded picture is left out exactly when it is earlier than the asked time and
/// builds on others. One that builds on no other is always shown, at once if it is
/// earlier, however much, and no picture is shown sooner or later than it is due.
pub proof fn only_early_pictures_that_build_on_others_are_left_out(pts: int, at: int, delta: bool)
    ensures
        shown_at(pts, at, delta) is None <==> pts < at && delta,
        !delta ==> shown_at(pts, at, delta) is Some,
        shown_at(pts, at, delta) matches Some(time) ==> time >= 0 && (time > 0 ==> at + time == pts)
            && (pts >= at ==> at + time == pts),
{
}

/// A picture has the time that it tells, and one that tells none has that of the last
/// picture that told one, if there was any.
pub proof fn picture_takes_the_last_time(clock: PlaybackClock, pts: Option<JsonDuration>)
    ensures
        pts is Some ==> clock.time_of(pts) == pts,
        pts is None ==> clock.time_of(pts) == clock.last,
{
}

/// A picture is sent in a playback only once its start was told, and leaves what was
/// told alone; telling the start leaves the clock alone, and decides only at first.
pub proof fn playback_steps(playback: Playback, ok: bool, pts: Option<JsonDuration>)
    ensures
        ({
            let told = playback.after_telling(ok);
            let shown = playback.after_picture(pts);
            &&& told.clock == playback.clock
            &&& if playback.state is Waiting {
                if ok {
                    told.state is Playing
                } else {
                    told.state is Refused
                }
            } else {
                told.state == playback.state
            }
            &&& shown.state == playback.state
            &&& if playback.state is Playing && pts is Some {
                shown.clock.last == pts
            } else {
                shown.clock == playback.clock
            }
        }),
{
}

/// The live clock keeps the time of the first picture that has one, that of the last
/// picture, and whether any had one. It takes every picture that is not earlier than
/// the first one, and those without a time.
pub proof fn live_clock_keeps_first_and_last(clock: LiveClock, pts: Option<JsonDuration>)
    ensures
        ({
            let time = if pts is Some {
                pts
            } else {
                clock.clock.last
            };
            let after = clock.after(pts);
            &&& after.first == if clock.first is Some {
                clock.first
            } else {
                time
            }
            &&& after.clock.last == time
            &&& after.sent_one == (clock.sent_one || time is Some)
            &&& clock.can_take(pts) <==> clock.first is None || time is None || clock.first->0@
                <= time->0@
        }),
        LiveClock::start().first is None,
        LiveClock::start().clock.last is None,
        !LiveClock::start().sent_one,
{
}

/// An export keeps the time of the first picture that is not past its end, and takes
/// every picture that is past its end or not earlier than that one.
pub proof fn export_keeps_the_first(export: Export, pts: JsonDuration)
    ensures
        base_after(export.base, export.to, pts) == if export.base is Some {
            export.base
        } else if pts@ <= export.to@ {
            Some(pts)
        } else {
            None
        },
        export.can_take(pts) <==> pts@ > export.to@ || export.base is None || export.base->0@
            <= pts@,
{
}

} // verus!
