use overnvr::detector::{class_key, fixed_text, queue_batch, Detector, Pool, POOL_SIZE};
use overnvr::link::{Links, SourceLink};
use overnvr::model::{SourceConfig, Stream};
use overnvr::oid::ObjectId;
use overnvr::source::{
    fragment_message, recording_dir, recording_location, recording_name, restart_pause,
    silence_limit, snapshot_due, stream_name, streams, Fragment,
    Source, DECODE, DECODE_AARCH64, STREAM_ONLY,
};
use overnvr::surface::{EncodedImage, Rect, Surface};
use overnvr::time::JsonDuration;
use overnvr::track::{Sending, TrackLocalStaticSample};

fn id(n: u32) -> ObjectId {
    ObjectId { high: 0, low: n }
}

fn secs(n: u64) -> JsonDuration {
    JsonDuration::from_secs(n)
}

#[test]
fn streams_of_a_camera() {
    let config = SourceConfig {
        _id: id(1),
        name: "Yard".to_string(),
        detect: true,
        enable: true,
        streams: vec![
            ("main".to_string(), Stream { url: "rtsp://a".to_string(), detect: true }),
            ("sub".to_string(), Stream { url: "rtsp://b".to_string(), detect: false }),
        ],
    };
    let list = streams(&config);
    assert_eq!(list.len(), 2);
    assert_eq!(list[0]._id, id(1));
    assert_eq!(list[0].stream_name, "000000000000000000000001_main");
    assert_eq!(list[0].url, "rtsp://a");
    assert!(list[0].detect && !list[0].running);
    assert_eq!(list[1].stream_name, "000000000000000000000001_sub");
    assert!(!list[1].detect);
}

#[test]
fn cameras_that_are_enabled_start() {
    let camera = |enable: bool| SourceConfig {
        _id: id(1),
        name: "Yard".to_string(),
        detect: !enable,
        enable,
        streams: vec![],
    };
    assert!(camera(true).starts());
    assert!(!camera(false).starts());
}

#[test]
fn stream_names_tell_camera_and_key() {
    assert_eq!(stream_name(&id(1), ""), "000000000000000000000001_");
    assert_ne!(stream_name(&id(1), "a"), stream_name(&id(2), "a"));
    assert_ne!(stream_name(&id(1), "a"), stream_name(&id(1), "b"));
}

#[test]
fn a_stream_is_received_by_its_pipeline() {
    let mut plain = Source::new(&id(1), &"s".to_string(), &"u".to_string(), false);
    assert_eq!(plain.run(false), STREAM_ONLY);
    assert!(plain.running);
    let mut watched = Source::new(&id(1), &"s".to_string(), &"u".to_string(), true);
    assert_eq!(watched.run(false), format!("{}{}", STREAM_ONLY, DECODE));
    assert_eq!(watched.run(true), format!("{}{}", STREAM_ONLY, DECODE_AARCH64));
    assert!(DECODE_AARCH64.contains("bufapi-version=true"));
    assert!(!DECODE.contains("bufapi-version=true"));
}

#[test]
fn a_stream_that_was_ended_stays_ended() {
    let mut source = Source::new(&id(1), &"s".to_string(), &"u".to_string(), false);
    assert!(!source.restart());
    source.run(false);
    assert!(source.restart());
    assert!(!source.running);
    source.run(false);
    source.stop();
    assert!(!source.restart());
    assert_eq!(restart_pause(), secs(5));
    assert_eq!(silence_limit(), secs(10));
}

#[test]
fn a_picture_is_kept_every_second() {
    assert!(!snapshot_due(secs(3), secs(3)));
    assert!(!snapshot_due(secs(3), JsonDuration::from_millis(3999)));
    assert!(snapshot_due(secs(3), secs(4)));
    assert!(!snapshot_due(secs(3), secs(1)));
}

#[test]
fn messages_of_the_recording_part() {
    assert_eq!(fragment_message("splitmuxsink-fragment-opened"), Fragment::Opened);
    assert_eq!(fragment_message("splitmuxsink-fragment-closed"), Fragment::Closed);
    assert_eq!(fragment_message("splitmuxsink"), Fragment::Other);
}

#[test]
fn recordings_are_named_after_their_start() {
    assert_eq!(recording_name(JsonDuration::from_nanos(0)), "19700101_000000.mkv");
    assert_eq!(recording_name(JsonDuration::from_nanos(999_999_999)), "19700101_000000.mkv");
    assert_eq!(recording_name(secs(1_000_000_000)), "20010909_014640.mkv");
    assert_eq!(recording_name(secs(1_582_934_400)), "20200229_000000.mkv");
    assert_eq!(recording_name(secs(1_646_092_799)), "20220228_235959.mkv");
    assert_eq!(recording_name(secs(4_107_542_400)), "21000301_000000.mkv");
    assert_eq!(recording_name(JsonDuration::from_nanos(u64::MAX)), "25540721_233433.mkv");
}

#[test]
fn recordings_stand_below_their_camera() {
    let start = secs(1_000_000_000);
    let place = "/rec/000000000000000000000001/20010909_014640.mkv";
    assert_eq!(recording_dir("/rec", &id(1)), "/rec/000000000000000000000001");
    assert_eq!(recording_location("/rec", &id(1), start), place);
    assert_eq!(recording_location("/rec/", &id(1), start), place);
    assert_eq!(
        recording_location("", &id(1), start),
        "000000000000000000000001/20010909_014640.mkv"
    );
    assert_ne!(recording_location("/rec", &id(2), start), place);
    assert_ne!(recording_location("/rec", &id(1), secs(1_000_000_001)), place);
    for dir in ["/rec", "/rec/", ""] {
        let path = std::path::Path::new(dir)
            .join("000000000000000000000001")
            .join("20010909_014640.mkv");
        assert_eq!(recording_location(dir, &id(1), start), path.to_str().unwrap());
    }
}

#[test]
fn a_watcher_misses_nothing_and_gets_nothing_twice() {
    let history = [(1, false), (2, true), (3, false), (4, true), (5, false)];
    for n in 0..6 {
        let mut link: SourceLink<u32> = SourceLink::new();
        for (sample, starts) in &history[..n] {
            link.push(*sample, *starts);
        }
        let mut all = link.add().clone();
        all.extend(history[n..].iter().map(|h| h.0));
        let first = [1, 1, 2, 2, 4, 4][n];
        assert_eq!(all, (first..6).collect::<Vec<u32>>());
    }
}

#[test]
fn a_watcher_begins_with_the_last_whole_picture() {
    let mut link: SourceLink<u32> = SourceLink::new();
    link.push(1, false);
    link.push(2, false);
    assert_eq!(link.add(), &vec![1, 2]);
    link.push(3, true);
    link.push(4, false);
    assert_eq!(link.add(), &vec![3, 4]);
    link.push(5, true);
    assert_eq!(link.add(), &vec![5]);
}

#[test]
fn links_are_found_by_name() {
    let mut links = Links::new();
    assert_eq!(links.get_link("a".to_string()), 0);
    assert_eq!(links.get_link("b".to_string()), 1);
    assert_eq!(links.get_link("a".to_string()), 0);
    assert_eq!(links.get_link("c".to_string()), 2);
    assert_eq!(links.get_link("b".to_string()), 1);
}

#[test]
fn a_track_counts_from_its_first_sample() {
    let mut track = TrackLocalStaticSample::new();
    assert_eq!(track.write_sample(secs(10)), None);
    assert_eq!(track.get_timestamp(77), 0);
    assert!(track.bind("first"));
    assert!(!track.bind("second"));
    assert_eq!(track.packetizer, Some("first"));
    assert_eq!(track.get_timestamp(77), 77);
    assert_eq!(track.write_sample(secs(10)), Some(secs(0)));
    assert_eq!(track.write_sample(secs(13)), Some(secs(3)));
    assert!(!track.may_write(secs(9)));
    track.rebase();
    assert!(track.may_write(secs(9)));
    assert_eq!(track.write_sample(secs(9)), Some(secs(0)));
    assert!(!track.bind("third"));
    assert_eq!(track.packetizer, Some("first"));
    assert_eq!(track.write_sample(secs(11)), Some(secs(2)));
}

#[test]
fn offsets_of_a_track_do_not_move() {
    for by in [0, 1, 1000] {
        let mut track = TrackLocalStaticSample::new();
        track.bind(());
        track.write_sample(secs(7));
        track.rebase();
        let offsets: Vec<_> = [5, 8, 6].iter().map(|t| track.write_sample(secs(t + by))).collect();
        assert_eq!(offsets, vec![Some(secs(0)), Some(secs(3)), Some(secs(1))]);
    }
}

#[test]
fn every_packet_of_a_sample_is_sent() {
    let mut sending: Sending<&str> = Sending::new(4);
    for outcome in [Ok(()), Err("a"), Ok(()), Err("b")] {
        assert!(sending.left > 0);
        sending.note(outcome);
    }
    assert_eq!(sending.left, 0);
    assert_eq!(sending.failed, vec!["a", "b"]);
    let none: Sending<&str> = Sending::new(0);
    assert_eq!(none.left, 0);
    assert!(none.failed.is_empty());
}

#[test]
fn the_newest_picture_of_each_source_is_taken_once() {
    let mut detector: Detector<u32> = Detector::new();
    assert!(detector.may_add_source());
    let a = detector.add_source();
    let b = detector.add_source();
    assert_eq!((a, b), (0, 1));
    assert_eq!(detector.send_frame(a, 10), None);
    assert_eq!(detector.send_frame(a, 11), Some(10));
    assert_eq!(detector.send_frame(b, 20), None);
    assert_eq!(detector.send_frame(99, 30), Some(30));
    assert_eq!(detector.take_batch(), vec![11, 20]);
    assert!(detector.take_batch().is_empty());
    detector.send_frame(b, 21);
    assert_eq!(detector.remove_source(b).unwrap().image, Some(21));
    assert!(detector.remove_source(b).is_none());
    assert!(detector.take_batch().is_empty());
    assert_eq!(detector.add_source(), 2);
}

#[test]
fn surfaces_come_back_to_the_pool() {
    let mut pool: Pool<usize> = Pool::new(POOL_SIZE);
    for i in 0..POOL_SIZE {
        assert!(pool.give(i));
    }
    assert!(!pool.give(99));
    assert_eq!(pool.take(), Some(0));
    assert_eq!(pool.take(), Some(1));
    assert!(pool.give(0));
    for i in 2..POOL_SIZE {
        assert_eq!(pool.take(), Some(i));
    }
    assert_eq!(pool.take(), Some(0));
    assert_eq!(pool.take(), None);
}

#[test]
fn a_batch_for_the_detector() {
    assert_eq!(queue_batch(&vec![(Some(1u64), 5), (None, 6), (Some(3), 7)]), (vec![1, 3], 7));
    assert_eq!(queue_batch::<u64>(&vec![]), (vec![], 0));
}

#[test]
fn classes_and_fixed_fields() {
    let keys = vec!["person".to_string(), "car".to_string()];
    assert_eq!(class_key(&keys, 1), "car");
    assert_eq!(fixed_text("ab", 4), vec![97, 98, 0, 0]);
    assert_eq!(fixed_text("\u{e9}", 2), vec![0xc3, 0xa9]);
    assert_eq!(fixed_text("", 1), vec![0]);
}

#[test]
fn a_picture_is_encoded_again_when_it_changed() {
    let mut surface: Surface<EncodedImage> = Surface::new(1280, 720);
    assert!(surface.encode().is_none());
    surface.keep(EncodedImage { data: vec![1, 2] });
    assert_eq!(surface.encode().unwrap().data, vec![1, 2]);
    surface.copied(false);
    assert_eq!(surface.encode().unwrap().data, vec![1, 2]);
    surface.copied(true);
    assert!(surface.encode().is_none());
    surface.copied(false);
    assert!(surface.encode().is_none());
    surface.keep(EncodedImage { data: vec![3] });
    assert_eq!(surface.encode().unwrap().data, vec![3]);
}

#[test]
fn pictures_are_stretched_over_a_surface() {
    let from: Surface<()> = Surface::new(1920, 1080);
    let to: Surface<()> = Surface::new(512, 256);
    let whole = Rect { left: 0, top: 0, width: 512, height: 256 };
    assert_eq!(
        from.place(&to),
        (Rect { left: 0, top: 0, width: 1920, height: 1080 }, whole)
    );
    let part = Rect { left: 5, top: 6, width: 7, height: 8 };
    assert_eq!(from.crop(&to, part), (part, whole));
}
