use overnvr::api::{export_disposition, update_alert, update_camera};
use overnvr::client::{
    frame_action, video_feedback, Client, ClientMessage, Frame, FrameAction, Info, Request,
    SessionEvent, StartLive, StartPast, TrackInfo,
};
use overnvr::model::{Alert, SourceConfig};
use overnvr::oid::ObjectId;
use overnvr::playback::{
    first_timed, first_whole, playback_frame, seek_offset, Export, ExportStep, LiveClock,
    LiveFrame, Playback, PlaybackClock,
};
use overnvr::source::stream_name;
use overnvr::time::JsonDuration;

type Message = ClientMessage<String, u32>;

fn secs(n: u64) -> JsonDuration {
    JsonDuration::from_secs(n)
}

#[test]
fn how_far_to_go_into_a_file() {
    assert_eq!(seek_offset(secs(10), secs(4)), Some(secs(6)));
    assert_eq!(seek_offset(secs(4), secs(4)), Some(secs(0)));
    assert_eq!(seek_offset(secs(3), secs(4)), None);
}

#[test]
fn when_recorded_pictures_are_shown() {
    assert_eq!(playback_frame(secs(9), secs(10), true), None);
    assert_eq!(playback_frame(secs(9), secs(10), false), Some(secs(0)));
    assert_eq!(playback_frame(secs(10), secs(10), true), Some(secs(0)));
    assert_eq!(playback_frame(secs(13), secs(10), true), Some(secs(3)));
}

#[test]
fn pictures_without_time_take_the_one_before() {
    let mut clock = PlaybackClock::new();
    assert_eq!(clock.next(None), None);
    assert_eq!(clock.next(Some(secs(3))), Some(secs(3)));
    assert_eq!(clock.next(None), Some(secs(3)));
    assert_eq!(clock.next(Some(secs(4))), Some(secs(4)));
}

#[test]
fn the_start_of_a_playback_is_told_once_and_first() {
    let mut played = Playback::new();
    assert_eq!(played.next(Some(secs(1))), None);
    assert!(played.told(true));
    assert_eq!(played.next(None), None);
    assert_eq!(played.next(Some(secs(3))), Some(secs(3)));
    assert_eq!(played.next(None), Some(secs(3)));
    assert!(played.told(false));
    assert_eq!(played.next(Some(secs(4))), Some(secs(4)));

    let mut refused = Playback::new();
    assert!(!refused.told(false));
    assert_eq!(refused.next(Some(secs(1))), None);
    assert!(!refused.told(true));
    assert_eq!(refused.next(Some(secs(2))), None);
}

#[test]
fn live_pictures_count_from_the_first() {
    let mut clock = LiveClock::new();
    assert_eq!(clock.next(None), None);
    assert_eq!(
        clock.next(Some(secs(30))),
        Some(LiveFrame { at: secs(0), start_info: Some(secs(30)) })
    );
    assert_eq!(clock.next(None), Some(LiveFrame { at: secs(0), start_info: None }));
    assert_eq!(clock.next(Some(secs(32))), Some(LiveFrame { at: secs(2), start_info: None }));
    assert!(!clock.may_take(Some(secs(29))));
    assert!(clock.may_take(Some(secs(30))));
    assert!(clock.may_take(None));
}

#[test]
fn the_first_sample_for_a_watcher() {
    assert_eq!(first_whole(&vec![true, false, false]), Some(1));
    assert_eq!(first_whole(&vec![true]), None);
    assert_eq!(first_timed(&vec![None, Some(secs(2))]), Some(1));
    assert_eq!(first_timed(&vec![]), None);
}

#[test]
fn an_export_begins_at_zero_and_ends_in_time() {
    let mut export = Export::new(secs(20));
    assert_eq!(export.step(secs(21)), ExportStep::Stop);
    assert_eq!(export.base, None);
    assert_eq!(export.step(secs(12)), ExportStep::Write(secs(0)));
    assert_eq!(export.step(secs(20)), ExportStep::Write(secs(8)));
    assert_eq!(export.step(secs(25)), ExportStep::Stop);
    assert_eq!(export.base, Some(secs(12)));
    assert!(!export.may_take(secs(11)));
    assert!(export.may_take(secs(12)));
    assert!(export.may_take(secs(99)));
}

#[test]
fn the_name_of_an_exported_file() {
    assert_eq!(
        export_disposition(&JsonDuration::from_nanos(1_234_999_999)),
        "attachment; filename=\"1234.mp4\""
    );
    assert_eq!(export_disposition(&secs(0)), "attachment; filename=\"0.mp4\"");
}

#[test]
fn what_is_stored_bears_the_identifier_of_the_path() {
    let id = ObjectId { high: 1, low: 2 };
    let other = ObjectId { high: 3, low: 4 };
    let camera = SourceConfig {
        _id: other,
        name: "Yard".to_string(),
        detect: false,
        enable: true,
        streams: vec![],
    };
    let stored = update_camera(id, camera);
    assert_eq!(stored._id, id);
    assert_eq!(stored.name, "Yard");
    let alert = Alert { _id: other, alert_name: "A".to_string(), regions: vec![] };
    let stored = update_alert(id, alert);
    assert_eq!(stored._id, id);
    assert_eq!(stored.alert_name, "A");
}

#[test]
fn what_watchers_ask_for() {
    let mut client: Client<u32> = Client::new();
    client.add_track("t".to_string(), 5);

    assert!(matches!(client.handle(Message::SDP("x".to_string())), Request::Reply(d) if d == "x"));
    assert!(matches!(client.handle(Message::ICE(3)), Request::Candidate(3)));
    let tracks = vec![TrackInfo { id: "a".to_string() }];
    assert!(matches!(client.handle(Message::AddTrack(tracks)), Request::AddTracks(l) if l.len() == 1));
    let tracks = vec![TrackInfo { id: "a".to_string() }];
    assert!(
        matches!(client.handle(Message::RemoveTrack(tracks)), Request::RemoveTracks(l) if l[0].id == "a")
    );
    let info = Info { id: "t".to_string(), startpts: secs(1), startrtp: 2 };
    assert!(matches!(client.handle(Message::StartInfo(info)), Request::Nothing));
}

#[test]
fn video_plays_on_tracks_that_are_there() {
    let mut client: Client<u32> = Client::new();
    client.add_track("t".to_string(), 5);
    let live = |id: &str| {
        Message::Live(StartLive {
            id: id.to_string(),
            stream: "cam".to_string(),
            quality: "main".to_string(),
        })
    };
    match client.handle(live("t")) {
        Request::PlayLive { id, stream } => {
            assert_eq!(id, "t");
            assert_eq!(stream, "cam_main");
        }
        _ => panic!("not live"),
    }
    assert!(matches!(client.handle(live("u")), Request::Nothing));
    let past = |id: &str| {
        Message::From(StartPast { id: id.to_string(), source: "s".to_string(), at: secs(7) })
    };
    match client.handle(past("t")) {
        Request::PlayPast { id, source, at } => {
            assert_eq!((id.as_str(), source.as_str(), at), ("t", "s", secs(7)));
        }
        _ => panic!("not past"),
    }
    assert!(matches!(client.handle(past("u")), Request::Nothing));
}

#[test]
fn video_starts_when_track_and_connection_are_ready() {
    let mut client: Client<u32> = Client::new();
    client.add_track("t".to_string(), 5);
    client.add_track("u".to_string(), 6);
    assert!(!client.may_start(&"t".to_string()));
    client.connected();
    assert!(!client.may_start(&"t".to_string()));
    let mut names = client.handle_reply();
    names.sort();
    assert_eq!(names, vec!["t", "u"]);
    assert!(client.may_start(&"t".to_string()));
    client.add_track("v".to_string(), 7);
    assert!(!client.may_start(&"v".to_string()));
    assert_eq!(client.remove_track(&"t".to_string()), Some(5));
    assert_eq!(client.remove_track(&"t".to_string()), None);
    assert!(!client.may_start(&"t".to_string()));
    assert!(client.may_start(&"u".to_string()));
    client.close();
    assert!(!client.may_start(&"u".to_string()));
}

#[test]
fn what_has_to_succeed() {
    assert!(!Message::SDP("x".to_string()).must_succeed());
    assert!(Message::ICE(1).must_succeed());
    assert!(Message::AddTrack(vec![]).must_succeed());
    assert!(Message::RemoveTrack(vec![]).must_succeed());
    let info = Info { id: "t".to_string(), startpts: secs(1), startrtp: 2 };
    assert!(!Message::StartInfo(info).must_succeed());
}

#[test]
fn a_session_ends_on_a_close_and_on_what_has_to_succeed() {
    let handled = |message: Message, failed: bool| SessionEvent::Handled { message, failed };
    let live = || StartLive { id: "t".to_string(), stream: "s".to_string(), quality: "q".to_string() };
    let past = || StartPast { id: "t".to_string(), source: "s".to_string(), at: secs(1) };
    let info = || Info { id: "t".to_string(), startpts: secs(1), startrtp: 2 };

    let mut client: Client<u32> = Client::new();
    client.connected();
    client.add_track("t".to_string(), 5);
    client.handle_reply();
    for event in vec![
        SessionEvent::Error,
        SessionEvent::Other,
        SessionEvent::Unreadable,
        handled(Message::SDP("x".to_string()), true),
        handled(Message::Live(live()), true),
        handled(Message::From(past()), true),
        handled(Message::StartInfo(info()), true),
        handled(Message::ICE(1), false),
        handled(Message::AddTrack(vec![]), false),
        handled(Message::RemoveTrack(vec![]), false),
    ] {
        assert!(!event.ends());
        assert!(!client.after(&event));
        assert!(client.may_start(&"t".to_string()));
    }
    for event in vec![
        SessionEvent::End,
        SessionEvent::Close,
        handled(Message::ICE(1), true),
        handled(Message::AddTrack(vec![]), true),
        handled(Message::RemoveTrack(vec![]), true),
    ] {
        assert!(event.ends());
        client.add_track("t".to_string(), 5);
        assert!(client.after(&event));
        assert_eq!(client.remove_track(&"t".to_string()), None);
    }
}

#[test]
fn what_comes_over_a_socket() {
    assert_eq!(frame_action(Frame::Text), FrameAction::Read);
    assert_eq!(frame_action(Frame::Ping), FrameAction::Pong);
    assert_eq!(frame_action(Frame::Close), FrameAction::Close);
    assert_eq!(frame_action(Frame::Other), FrameAction::Nothing);
    assert_eq!(frame_action(Frame::Broken), FrameAction::Stop);
}

#[test]
fn feedback_for_video() {
    let kinds = video_feedback();
    assert_eq!(kinds.len(), 4);
    assert_eq!(kinds[0], ("goog-remb".to_string(), "".to_string()));
    assert_eq!(kinds[1], ("ccm".to_string(), "fir".to_string()));
    assert_eq!(kinds[2], ("nack".to_string(), "".to_string()));
    assert_eq!(kinds[3], ("nack".to_string(), "pli".to_string()));
}

#[test]
fn a_watcher_gets_the_stream_of_a_camera() {
    let camera = ObjectId { high: 0, low: 9 };
    let mut client: Client<u32> = Client::new();
    client.add_track("t".to_string(), 1);
    let live = Message::Live(StartLive {
        id: "t".to_string(),
        stream: camera.to_hex(),
        quality: "main".to_string(),
    });
    match client.handle(live) {
        Request::PlayLive { stream, .. } => assert_eq!(stream, stream_name(&camera, "main")),
        _ => panic!("not live"),
    }
}
