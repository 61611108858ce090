use overnvr::events::{group_range, jump, over_before, Direction, Grouping, Jump};
use overnvr::model::{Event, EventGroup};
use overnvr::oid::ObjectId;
use overnvr::time::JsonDuration;

fn id(n: u32) -> ObjectId {
    ObjectId { high: 0, low: n }
}

fn secs(n: u64) -> JsonDuration {
    JsonDuration::from_secs(n)
}

fn event(start: u64, end: u64) -> Event {
    Event {
        _id: id(1),
        camera_id: id(2),
        start: secs(start),
        end: secs(end),
        thumb_start: "a.jpg".to_string(),
        region_name: "door".to_string(),
    }
}

fn group(start: u64, end: u64) -> EventGroup {
    EventGroup { start: secs(start), end: secs(end) }
}

#[test]
fn no_events_no_groups() {
    assert_eq!(group_range(&vec![], secs(0)), vec![]);
    assert_eq!(jump(&vec![], secs(0), Direction::Previous), None);
    assert_eq!(jump(&vec![], secs(0), Direction::Next), None);
}

#[test]
fn events_that_overlap_are_one_group() {
    let events = vec![event(200, 300), event(150, 250), event(140, 240)];
    assert_eq!(group_range(&events, secs(0)), vec![group(140, 300)]);
}

#[test]
fn an_event_that_ends_within_the_gap_joins_a_wide_group() {
    // The end moved on by the gap has to lie within the group.
    let wide = vec![event(200, 300), event(100, 180)];
    assert_eq!(group_range(&wide, secs(0)), vec![group(100, 300)]);
    let edge = vec![event(200, 300), event(100, 170)];
    assert_eq!(group_range(&edge, secs(0)), vec![group(100, 300)]);
    let far = vec![event(200, 300), event(100, 169)];
    assert_eq!(group_range(&far, secs(0)), vec![group(200, 300), group(100, 169)]);
}

#[test]
fn an_event_that_ends_within_the_gap_does_not_join_a_short_group() {
    // Ten seconds before the group, but the gap reaches past its end.
    let short = vec![event(200, 205), event(100, 190)];
    assert_eq!(group_range(&short, secs(0)), vec![group(200, 205), group(100, 190)]);
}

#[test]
fn a_range_ends_with_the_first_event_before_it() {
    let events = vec![event(500, 600), event(300, 400), event(100, 150), event(10, 20)];
    assert_eq!(
        group_range(&events, secs(200)),
        vec![group(500, 600), group(300, 400), group(100, 150)]
    );
    assert!(over_before(&event(100, 150), secs(200)));
    assert!(!over_before(&event(100, 200), secs(200)));
    assert!(!over_before(&event(100, 300), secs(200)));
}

#[test]
fn events_of_a_range_are_covered() {
    let events = vec![event(500, 600), event(450, 520), event(300, 400)];
    let groups = group_range(&events, secs(0));
    for e in &events {
        assert!(groups.iter().any(|g| g.start <= e.start && e.end <= g.end));
    }
    for pair in groups.windows(2) {
        assert!(pair[1].end < pair[0].start);
    }
}

#[test]
fn a_jump_back_passes_over_the_current_group() {
    let events = vec![event(300, 400), event(100, 150)];
    assert_eq!(jump(&events, secs(350), Direction::Previous), Some(group(100, 150)));
    // Up to ten seconds after its end a group is still current.
    assert_eq!(jump(&events, secs(410), Direction::Previous), Some(group(100, 150)));
    assert_eq!(jump(&events, secs(411), Direction::Previous), Some(group(300, 400)));
}

#[test]
fn a_jump_forward_passes_over_the_current_group() {
    let events = vec![event(100, 150), event(300, 400)];
    assert_eq!(jump(&events, secs(120), Direction::Next), Some(group(300, 400)));
    // From ten seconds before its start a group is current.
    assert_eq!(jump(&events, secs(90), Direction::Next), Some(group(300, 400)));
    assert_eq!(jump(&events, secs(89), Direction::Next), Some(group(100, 150)));
}

#[test]
fn a_jump_ends_at_the_last_group_if_all_are_current() {
    let events = vec![event(300, 400)];
    assert_eq!(jump(&events, secs(350), Direction::Previous), Some(group(300, 400)));
    assert_eq!(jump(&events, secs(350), Direction::Next), Some(group(300, 400)));
}

#[test]
fn a_jump_event_by_event() {
    let mut state = Jump::new(secs(1000), Direction::Previous);
    assert!(state.can_take(&event(300, 400)));
    assert!(state.take(&event(300, 400)));
    assert!(state.take(&event(350, 390)));
    assert_eq!(state.pending, Some(group(300, 400)));
    assert!(!state.take(&event(100, 150)));
    assert_eq!(state.pending, Some(group(300, 400)));
}

#[test]
fn a_jump_forward_cannot_go_before_the_epoch() {
    let mut state = Jump::new(secs(0), Direction::Next);
    assert!(state.take(&event(5, 6)));
    assert!(!state.can_take(&event(100, 150)));
}

#[test]
fn grouping_event_by_event() {
    let mut state = Grouping::new();
    assert!(state.can_take(&event(300, 400)));
    state.take(&event(300, 400));
    state.take(&event(350, 450));
    state.take(&event(100, 150));
    assert_eq!(state.groups, vec![group(300, 450), group(100, 150)]);
    let late = Event { end: JsonDuration::from_secs(u64::MAX), ..event(500, 0) };
    assert!(!state.can_take(&late));
}

#[test]
fn a_range_needs_few_events() {
    let events =
        vec![event(600, 700), event(500, 550), event(300, 400), event(200, 250), event(10, 20)];
    let few = vec![event(600, 700), event(500, 550), event(300, 400)];
    let expected = vec![group(600, 700), group(500, 550), group(300, 400)];
    assert_eq!(group_range(&events, secs(450)), expected);
    assert_eq!(group_range(&few, secs(450)), expected);
    assert_eq!(group_range(&events, secs(800)), vec![group(600, 700)]);
}

#[test]
fn a_jump_back_goes_along_the_range() {
    let events = vec![event(300, 400), event(200, 250), event(100, 150)];
    for from in [401, 405, 410, 411, 1000] {
        let range = group_range(&events, secs(0));
        let first = range.iter().find(|g| g.end + secs(10) < secs(from));
        let expected = first.or(range.last()).copied();
        assert_eq!(jump(&events, secs(from), Direction::Previous), expected);
    }
    assert_eq!(jump(&vec![], secs(5), Direction::Previous), None);
}

#[test]
fn steps_give_the_whole() {
    let events = vec![event(300, 400), event(350, 390), event(200, 250), event(100, 150)];
    for from in [0, 120, 220, 330, 500] {
        let mut grouping = Grouping::new();
        for e in &events {
            assert!(grouping.can_take(e));
            grouping.take(e);
            if over_before(e, secs(from)) {
                break;
            }
        }
        assert_eq!(grouping.groups, group_range(&events, secs(from)));
        let mut state = Jump::new(secs(from), Direction::Previous);
        for e in &events {
            assert!(state.can_take(e));
            if !state.take(e) {
                break;
            }
        }
        assert_eq!(state.pending, jump(&events, secs(from), Direction::Previous));
    }
}

#[test]
fn a_short_span_is_not_widened_from_afar() {
    let near = vec![event(100, 110), event(80, 85)];
    assert_eq!(group_range(&near, secs(0)), vec![group(100, 110), group(80, 85)]);
    let within = vec![event(100, 120), event(80, 85)];
    assert_eq!(group_range(&within, secs(0)), vec![group(80, 120)]);
}

#[test]
fn one_event_and_its_group() {
    let g = EventGroup::of_event(&event(3, 4));
    assert_eq!(g, group(3, 4));
    assert!(g.can_take(&event(1, 2)));
    assert!(g.takes(&event(4, 9)));
    assert!(!g.takes(&event(5, 9)));
    assert_eq!(g.widen(&event(1, 9)), group(1, 9));
    let e = event(3, 4).duplicate();
    assert_eq!((e.start, e.end, e.region_name.as_str()), (secs(3), secs(4), "door"));
}

#[test]
fn complete_groups_stay_as_they_are() {
    let events =
        vec![event(500, 600), event(450, 550), event(300, 400), event(100, 150), event(90, 140)];
    for n in 1..events.len() {
        let mut some = Grouping::new();
        let mut all = Grouping::new();
        for (i, e) in events.iter().enumerate() {
            if i < n {
                some.take(e);
            }
            all.take(e);
        }
        for k in 0..some.groups.len() - 1 {
            assert_eq!(some.groups[k], all.groups[k]);
        }
    }
}

#[test]
fn groups_start_and_end_with_events() {
    let events = vec![event(500, 600), event(450, 550), event(300, 400), event(310, 390)];
    for g in group_range(&events, secs(0)) {
        assert!(events.iter().any(|e| e.start == g.start));
        assert!(events.iter().any(|e| e.end == g.end));
    }
}

#[test]
fn groups_of_events_with_the_oldest_start_first_go_forward() {
    let mut grouping = Grouping::new();
    for e in [event(10, 20), event(15, 40), event(100, 110), event(300, 310)] {
        grouping.take(&e);
    }
    assert_eq!(grouping.groups, vec![group(10, 40), group(100, 110), group(300, 310)]);
}
