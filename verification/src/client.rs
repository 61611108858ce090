//! Those who watch: the tracks that they asked for, and what they ask of them.

use crate::keymap::KeyMap;
use crate::oid::{hex_of, ObjectId};
use crate::source::stream_name_of;
use crate::text::join3;
use crate::time::JsonDuration;
use vstd::prelude::*;

verus! {

/// Tells a watcher where a stream starts: the time of its first picture, and the
/// time that the packets bear.
#[derive(Debug)]
pub struct Info {
    pub id: String,
    pub startpts: JsonDuration,
    pub startrtp: u32,
}

/// Names a track.
#[derive(Debug)]
pub struct TrackInfo {
    pub id: String,
}

/// Asks for live video on a track.
#[derive(Debug)]
pub struct StartLive {
    pub id: String,
    pub stream: String,
    pub quality: String,
}

/// Asks for recorded video on a track.
#[derive(Debug)]
pub struct StartPast {
    pub id: String,
    pub source: String,
    pub at: JsonDuration,
}

/// What a watcher sends. `D` describes a session, `C` is a way to reach a peer.
#[derive(Debug)]
pub enum ClientMessage<D, C> {
    SDP(D),
    ICE(C),
    AddTrack(Vec<TrackInfo>),
    RemoveTrack(Vec<TrackInfo>),
    Live(StartLive),
    From(StartPast),
    StartInfo(Info),
}

/// What is sent to a watcher.
#[derive(Debug)]
pub enum ServerMessage<D, C> {
    SDP(D),
    ICE(C),
    AddTrack(Vec<TrackInfo>),
    RemoveTrack(Vec<TrackInfo>),
    Live(StartLive),
    From(StartPast),
    StartInfo(Info),
}

/// What to do for a watcher.
#[derive(Debug)]
pub enum Request<D, C> {
    /// Take the description as that of the peer.
    Reply(D),
    /// Take note of a way to reach the peer.
    Candidate(C),
    /// Add these tracks, one after the other.
    AddTracks(Vec<TrackInfo>),
    /// Remove these tracks, one after the other.
    RemoveTracks(Vec<TrackInfo>),
    /// Play the live stream of that name on the track.
    PlayLive { id: String, stream: String },
    /// Play what was recorded of the source on the track.
    PlayPast { id: String, source: String, at: JsonDuration },
    Nothing,
}

impl<D, C> ClientMessage<D, C> {
    /// Whether a session over a plain socket ends if what the message asks for
    /// fails.
    pub fn must_succeed(&self) -> (r: bool)
        ensures
            r == (self is ICE || self is AddTrack || self is RemoveTrack),
    {
        match self {
            ClientMessage::ICE(_) => true,
            ClientMessage::AddTrack(_) => true,
            ClientMessage::RemoveTrack(_) => true,
            _ => false,
        }
    }
}

/// What happens in a session over a plain socket.
#[derive(Debug)]
pub enum SessionEvent<D, C> {
    /// Nothing more comes.
    End,
    /// The socket gave an error in place of a frame.
    Error,
    /// The watcher closes the socket.
    Close,
    /// A frame came that is neither text nor a close.
    Other,
    /// A text came that is no message.
    Unreadable,
    /// A message came, and what it asked for was tried.
    Handled { message: ClientMessage<D, C>, failed: bool },
}

impl<D, C> SessionEvent<D, C> {
    /// Whether the session is over after the event.
    pub open spec fn is_last(self) -> bool {
        match self {
            SessionEvent::End => true,
            SessionEvent::Close => true,
            SessionEvent::Handled { message, failed } => failed && (message is ICE || message is AddTrack
                || message is RemoveTrack),
            SessionEvent::Error => false,
            SessionEvent::Other => false,
            SessionEvent::Unreadable => false,
        }
    }

    /// Whether the session is over after the event. An error of the socket, a text
    /// that is no message, and a failure of anything but a new way to reach the
    /// peer or a change of tracks leave it running.
    pub fn ends(&self) -> (r: bool)
        ensures
            r == self.is_last(),
    {
        match self {
            SessionEvent::End => true,
            SessionEvent::Close => true,
            SessionEvent::Handled { message, failed } => *failed && message.must_succeed(),
            SessionEvent::Error => false,
            SessionEvent::Other => false,
            SessionEvent::Unreadable => false,
        }
    }
}

/// A track of a watcher. `T` is what carries its packets.
#[derive(Debug)]
pub struct Track<T> {
    /// Whether the watcher agreed to the track.
    pub ready: bool,
    pub carrier: T,
}

/// A watcher.
#[derive(Debug)]
pub struct Client<T> {
    pub tracks: KeyMap<String, Track<T>>,
    /// Whether the connection was made.
    pub ready: bool,
}

/// The name of a live stream in a quality.
pub open spec fn live_name(stream: Seq<char>, quality: Seq<char>) -> Seq<char> {
    stream + "_"@ + quality
}

/// A watcher who names a camera and one of its streams gets that stream.
pub proof fn live_name_is_stream_name(camera: ObjectId, quality: Seq<char>)
    ensures
        live_name(hex_of(camera), quality) == stream_name_of(camera, quality),
{
}

impl<T> Client<T> {
    /// A watcher without tracks, not connected yet.
    pub fn new() -> (r: Client<T>)
        ensures
            r.tracks@ == Map::<Seq<char>, Track<T>>::empty(),
            !r.ready,
    {
        Client { tracks: KeyMap::new(), ready: false }
    }

    /// The connection was made.
    pub fn connected(&mut self)
        ensures
            final(self).ready,
            final(self).tracks == old(self).tracks,
    {
        self.ready = true;
    }

    /// What to do for a message. Video is played on tracks that are there; a
    /// message that only the recorder sends asks for nothing.
    pub fn handle<D, C>(&self, message: ClientMessage<D, C>) -> (r: Request<D, C>)
        ensures
            match message {
                ClientMessage::SDP(description) => r == Request::<D, C>::Reply(description),
                ClientMessage::ICE(candidate) => r == Request::<D, C>::Candidate(candidate),
                ClientMessage::AddTrack(tracks) => r == Request::<D, C>::AddTracks(tracks),
                ClientMessage::RemoveTrack(tracks) => r == Request::<D, C>::RemoveTracks(tracks),
                ClientMessage::Live(s) => if self.tracks@.dom().contains(s.id@) {
                    r matches Request::PlayLive { id, stream } && id@ == s.id@ && stream@
                        == live_name(s.stream@, s.quality@)
                } else {
                    r is Nothing
                },
                ClientMessage::From(s) => if self.tracks@.dom().contains(s.id@) {
                    r == Request::<D, C>::PlayPast { id: s.id, source: s.source, at: s.at }
                } else {
                    r is Nothing
                },
                ClientMessage::StartInfo(_) => r is Nothing,
            },
    {
        match message {
            ClientMessage::SDP(description) => Request::Reply(description),
            ClientMessage::ICE(candidate) => Request::Candidate(candidate),
            ClientMessage::AddTrack(tracks) => Request::AddTracks(tracks),
            ClientMessage::RemoveTrack(tracks) => Request::RemoveTracks(tracks),
            ClientMessage::Live(s) => {
                if self.tracks.contains_key(&s.id) {
                    let stream: String = join3(s.stream.as_str(), "_", s.quality.as_str());
                    Request::PlayLive { id: s.id, stream }
                } else {
                    Request::Nothing
                }
            },
            ClientMessage::From(s) => {
                if self.tracks.contains_key(&s.id) {
                    Request::PlayPast { id: s.id, source: s.source, at: s.at }
                } else {
                    Request::Nothing
                }
            },
            ClientMessage::StartInfo(_) => Request::Nothing,
        }
    }

    /// Adds a track, to which the watcher did not agree yet.
    pub fn add_track(&mut self, id: String, carrier: T)
        ensures
            final(self).ready == old(self).ready,
            final(self).tracks@ == old(self).tracks@.insert(id@, (Track { ready: false, carrier })),
    {
        self.tracks.insert(id, Track { ready: false, carrier });
    }

    /// Removes a track, and gives back what carries it.
    pub fn remove_track(&mut self, id: &String) -> (r: Option<T>)
        ensures
            final(self).ready == old(self).ready,
            final(self).tracks@ == old(self).tracks@.remove(id@),
            match r {
                Some(carrier) => old(self).tracks@.dom().contains(id@) && carrier == old(
                    self).tracks@[id@].carrier,
                None => !old(self).tracks@.dom().contains(id@),
            },
    {
        match self.tracks.remove(id) {
            Some(track) => Some(track.carrier),
            None => None,
        }
    }

    /// The watcher agreed to the tracks that there are. Gives their names, each
    /// once.
    pub fn handle_reply(&mut self) -> (r: Vec<String>)
        ensures
            final(self).ready == old(self).ready,
            final(self).tracks@.dom() == old(self).tracks@.dom(),
            forall|id: Seq<char>| #[trigger]
                old(self).tracks@.dom().contains(id) ==> final(self).tracks@[id] == (Track {
                    ready: true,
                    carrier: old(self).tracks@[id].carrier,
                }),
            forall|i: int|
                0 <= i < r@.len() ==> old(self).tracks@.dom().contains((#[trigger] r@[i])@),
            forall|id: Seq<char>| #[trigger]
                old(self).tracks@.dom().contains(id) ==> exists|i: int|
                    0 <= i < r@.len() && (#[trigger] r@[i])@ == id,
            forall|i: int, j: int|
                0 <= i < j < r@.len() ==> (#[trigger] r@[i])@ != (#[trigger] r@[j])@,
    {
        let ghost before = self.tracks@;
        let mut waiting: KeyMap<String, Track<T>> = KeyMap::new();
        std::mem::swap(&mut waiting, &mut self.tracks);
        let mut entries: Vec<(String, Track<T>)> = waiting.into_entries();
        let ghost all = entries@;
        let mut names: Vec<String> = Vec::new();
        while entries.len() > 0
            invariant
                entries@ == all.take(entries@.len() as int),
                entries@.len() <= all.len(),
                names@.len() == all.len() - entries@.len(),
                self.ready == old(self).ready,
                forall|i: int|
                    0 <= i < names@.len() ==> (#[trigger] names@[i])@ == all[all.len() - 1 - i].0@,
                forall|i: int, j: int|
                    0 <= i < j < all.len() ==> (#[trigger] all[i]).0@ != (#[trigger] all[j]).0@,
                forall|i: int|
                    entries@.len() <= i < all.len() ==> self.tracks@.dom().contains(
                        (#[trigger] all[i]).0@,
                    ) && self.tracks@[all[i].0@] == (Track {
                        ready: true,
                        carrier: all[i].1.carrier,
                    }),
                forall|id: Seq<char>| #[trigger]
                    self.tracks@.dom().contains(id) ==> exists|i: int|
                        entries@.len() <= i < all.len() && (#[trigger] all[i]).0@ == id,
            decreases entries@.len(),
        {
            let ghost n = entries@.len() as int;
            let ghost current = self.tracks@;
            match entries.pop() {
                Some((id, track)) => {
                    assert((id, track) == all[n - 1]);
                    names.push(id.clone());
                    self.tracks.insert(id, Track { ready: true, carrier: track.carrier });
                    proof {
                        assert forall|key: Seq<char>| #[trigger]
                            self.tracks@.dom().contains(key) implies exists|i: int|
                            n - 1 <= i < all.len() && (#[trigger] all[i]).0@ == key by {
                            if key == all[n - 1].0@ {
                            } else {
                                assert(current.dom().contains(key));
                            }
                        }
                    }
                },
                None => {},
            }
        }
        proof {
            assert forall|id: Seq<char>| #[trigger] before.dom().contains(id) implies {
                &&& self.tracks@.dom().contains(id)
                &&& self.tracks@[id] == (Track { ready: true, carrier: before[id].carrier })
                &&& exists|i: int| 0 <= i < names@.len() && (#[trigger] names@[i])@ == id
            } by {
                let i = choose|i: int| 0 <= i < all.len() && (#[trigger] all[i]).0@ == id;
                assert(names@[all.len() - 1 - i]@ == all[i].0@);
            }
            assert forall|id: Seq<char>| #[trigger] self.tracks@.dom().contains(id) implies before.dom().contains(
                id,
            ) by {
                let i = choose|i: int| 0 <= i < all.len() && (#[trigger] all[i]).0@ == id;
            }
            assert(self.tracks@.dom() =~= before.dom());
            assert forall|i: int, j: int| 0 <= i < j < names@.len() implies (#[trigger] names@[i])@ != (
            #[trigger] names@[j])@ by {
                assert(names@[i]@ == all[all.len() - 1 - i].0@);
                assert(names@[j]@ == all[all.len() - 1 - j].0@);
            }
        }
        names
    }

    /// Whether video can start on the track: the watcher agreed to it and is
    /// connected.
    pub fn may_start(&self, id: &String) -> (r: bool)
        ensures
            r == (self.ready && self.tracks@.dom().contains(id@) && self.tracks@[id@].ready),
    {
        match self.tracks.get(id) {
            Some(track) => self.ready && track.ready,
            None => false,
        }
    }

    /// Goes on after an event of a session over a plain socket, and tells whether
    /// the session is over. The tracks of a session that is over are gone.
    pub fn after<D, C>(&mut self, event: &SessionEvent<D, C>) -> (r: bool)
        ensures
            r == event.is_last(),
            final(self).ready == old(self).ready,
            final(self).tracks@ == if r {
                Map::<Seq<char>, Track<T>>::empty()
            } else {
                old(self).tracks@
            },
    {
        let over: bool = event.ends();
        if over {
            self.close();
        }
        over
    }

    /// The watcher left.
    pub fn close(&mut self)
        ensures
            final(self).ready == old(self).ready,
            final(self).tracks@ == Map::<Seq<char>, Track<T>>::empty(),
    {
        self.tracks = KeyMap::new();
    }
}

/// The kinds of feedback, each with a parameter, that a watcher may send about a
/// video track.
pub fn video_feedback() -> (r: Vec<(String, String)>)
    ensures
        r@.len() == 4,
        r@[0].0@ == "goog-remb"@ && r@[0].1@ == ""@,
        r@[1].0@ == "ccm"@ && r@[1].1@ == "fir"@,
        r@[2].0@ == "nack"@ && r@[2].1@ == ""@,
        r@[3].0@ == "nack"@ && r@[3].1@ == "pli"@,
{
    let mut kinds: Vec<(String, String)> = Vec::new();
    kinds.push(("goog-remb".to_owned(), "".to_owned()));
    kinds.push(("ccm".to_owned(), "fir".to_owned()));
    kinds.push(("nack".to_owned(), "".to_owned()));
    kinds.push(("nack".to_owned(), "pli".to_owned()));
    kinds
}

/// What came over the socket of a watcher.
#[derive(Clone, Copy, PartialEq, Eq, Structural, Debug)]
pub enum Frame {
    Text,
    Ping,
    Close,
    Other,
    /// What came broke the rules of the protocol.
    Broken,
}

/// What to do with what came.
#[derive(Clone, Copy, PartialEq, Eq, Structural, Debug)]
pub enum FrameAction {
    /// Read it as a message. What is not one is dropped.
    Read,
    /// Send it back.
    Pong,
    /// Answer in kind, and end the session.
    Close,
    /// End the session.
    Stop,
    Nothing,
}

/// What to do with what came over the socket.
pub fn frame_action(frame: Frame) -> (r: FrameAction)
    ensures
        r == match frame {
            Frame::Text => FrameAction::Read,
            Frame::Ping => FrameAction::Pong,
            Frame::Close => FrameAction::Close,
            Frame::Broken => FrameAction::Stop,
            Frame::Other => FrameAction::Nothing,
        },
{
    match frame {
        Frame::Text => FrameAction::Read,
        Frame::Ping => FrameAction::Pong,
        Frame::Close => FrameAction::Close,
        Frame::Broken => FrameAction::Stop,
        Frame::Other => FrameAction::Nothing,
    }
}

/// A session goes on through everything but its end: that nothing more comes, that the
/// watcher closes it, and a failure of what came in one of three kinds of message.
pub proof fn what_ends_a_session<D, C>(event: SessionEvent<D, C>)
    ensures
        event is End || event is Close ==> event.is_last(),
        event is Error || event is Other || event is Unreadable ==> !event.is_last(),
        event is Handled ==> (event.is_last() <==> event->failed && !(event->message is SDP
            || event->message is Live || event->message is From || event->message is StartInfo)),
{
}

/// A live stream is asked for by what it is of and its quality, with a line between
/// them, so that each of the two is found again in its name.
pub proof fn live_name_holds_both(stream: Seq<char>, quality: Seq<char>)
    ensures
        live_name(stream, quality).len() == stream.len() + 1 + quality.len(),
        live_name(stream, quality).take(stream.len() as int) == stream,
        live_name(stream, quality)[stream.len() as int] == '_',
        live_name(stream, quality).skip(stream.len() + 1int) == quality,
{
    reveal_strlit("_");
    assert(live_name(stream, quality).take(stream.len() as int) =~= stream);
    assert(live_name(stream, quality).skip(stream.len() + 1int) =~= quality);
}

} // verus!
