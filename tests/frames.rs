use screen_time::frame::{decide, Frame, FrameOperation};
use screen_time::record::{timestamp_suffix, update_previous, write_new, LogPatch};
use screen_time::tracker::CurrentState;

const INTERVAL: u64 = 3;

fn apply(log: &mut Vec<u8>, patch: Option<LogPatch>) {
    if let Some(p) = patch {
        p.apply_to(log);
    }
}

fn feed(state: &mut CurrentState, log: &mut Vec<u8>, samples: &[(&str, u64)]) {
    for (name, now) in samples {
        let patch = state.observe(name, *now, INTERVAL);
        apply(log, patch);
    }
}

fn frame(name: &str, start: u64, end: u64) -> Frame {
    Frame { name: name.to_string(), start, end }
}

#[test]
fn decide_without_previous_prepares() {
    match decide(&None, "A", 7, INTERVAL) {
        FrameOperation::Prepare(f) => {
            assert_eq!(f.name, "A");
            assert_eq!((f.start, f.end), (7, 7));
        }
        _ => panic!("expected a prepared frame"),
    }
}

#[test]
fn decide_confirms_single_sample() {
    match decide(&Some(frame("A", 0, 0)), "A", 3, INTERVAL) {
        FrameOperation::WriteNew(f) => {
            assert_eq!(f.name, "A");
            assert_eq!((f.start, f.end), (0, 3));
        }
        _ => panic!("expected a new record"),
    }
}

#[test]
fn decide_extends_within_tolerance() {
    match decide(&Some(frame("A", 0, 3)), "A", 17, INTERVAL) {
        FrameOperation::UpdatePrevious(t) => assert_eq!(t, 17),
        _ => panic!("expected an update"),
    }
}

#[test]
fn decide_splits_at_tolerance() {
    match decide(&Some(frame("A", 0, 3)), "A", 18, INTERVAL) {
        FrameOperation::Prepare(f) => assert_eq!((f.start, f.end), (18, 18)),
        _ => panic!("expected a fresh frame"),
    }
}

#[test]
fn decide_other_name_prepares() {
    match decide(&Some(frame("A", 0, 3)), "B", 6, INTERVAL) {
        FrameOperation::Prepare(f) => {
            assert_eq!(f.name, "B");
            assert_eq!((f.start, f.end), (6, 6));
        }
        _ => panic!("expected a fresh frame"),
    }
}

#[test]
fn scenario_two_apps() {
    let mut state = CurrentState::new(1);
    let mut log = Vec::new();
    feed(&mut state, &mut log, &[("A", 0), ("A", 3)]);
    assert_eq!(log, b"A;0;3\n".to_vec());
    feed(&mut state, &mut log, &[("B", 10)]);
    assert_eq!(log, b"A;0;3\n".to_vec());
    let last = state.last_frame().as_ref().unwrap();
    assert_eq!(last.name, "B");
    assert_eq!((last.start, last.end), (10, 10));
    feed(&mut state, &mut log, &[("B", 13)]);
    assert_eq!(log, b"A;0;3\nB;10;13\n".to_vec());
}

#[test]
fn scenario_single_sample_then_long_gap() {
    let mut state = CurrentState::new(1);
    let mut log = Vec::new();
    let first = state.observe("A", 0, INTERVAL);
    assert!(first.is_none());
    let second = state.observe("A", 60, INTERVAL);
    assert!(second.is_none());
    apply(&mut log, second);
    assert!(log.is_empty());
    let last = state.last_frame().as_ref().unwrap();
    assert_eq!(last.name, "A");
    assert_eq!((last.start, last.end), (60, 60));
}

#[test]
fn decide_single_sample_then_gap_prepares() {
    match decide(&Some(frame("A", 0, 0)), "A", 60, INTERVAL) {
        FrameOperation::Prepare(f) => assert_eq!((f.start, f.end), (60, 60)),
        _ => panic!("expected a fresh frame"),
    }
    match decide(&Some(frame("A", 0, 0)), "A", 15, INTERVAL) {
        FrameOperation::Prepare(f) => assert_eq!((f.start, f.end), (15, 15)),
        _ => panic!("expected a fresh frame"),
    }
}

#[test]
fn gap_after_single_sample_splits() {
    let mut state = CurrentState::new(1);
    let mut log = Vec::new();
    feed(&mut state, &mut log, &[("A", 0), ("A", 60), ("A", 63)]);
    assert_eq!(log, b"A;60;63\n".to_vec());
}

#[test]
fn continuous_run_is_one_record() {
    let mut state = CurrentState::new(1);
    let mut log = b"X;1;2\n".to_vec();
    feed(&mut state, &mut log, &[("A", 90), ("A", 99), ("A", 110), ("A", 124), ("A", 130)]);
    assert_eq!(log, b"X;1;2\nA;90;130\n".to_vec());
    assert_eq!(state.last_write_length(), 4);
}

#[test]
fn gap_splits_run() {
    let mut state = CurrentState::new(1);
    let mut log = Vec::new();
    feed(&mut state, &mut log, &[("A", 0), ("A", 3), ("A", 6), ("A", 21), ("A", 24)]);
    assert_eq!(log, b"A;0;6\nA;21;24\n".to_vec());
}

#[test]
fn update_twice_keeps_one_record() {
    let mut log = Vec::new();
    let p = write_new(&frame("code", 5, 98));
    assert_eq!(p.suffix_len, 3);
    p.apply_to(&mut log);
    let p1 = update_previous(p.suffix_len, 99);
    p1.apply_to(&mut log);
    assert_eq!(log, b"code;5;99\n".to_vec());
    let p2 = update_previous(p1.suffix_len, 100);
    assert_eq!(p2.seek_back, 3);
    p2.apply_to(&mut log);
    assert_eq!(log, b"code;5;100\n".to_vec());
    assert_eq!(p2.suffix_len, 4);
}

#[test]
fn ignored_sample_resets_continuity() {
    let mut state = CurrentState::new(1);
    let mut log = Vec::new();
    feed(&mut state, &mut log, &[("A", 0), ("A", 3)]);
    state.forget_frame();
    assert!(state.last_frame().is_none());
    feed(&mut state, &mut log, &[("A", 6)]);
    assert_eq!(log, b"A;0;3\n".to_vec());
    feed(&mut state, &mut log, &[("A", 9)]);
    assert_eq!(log, b"A;0;3\nA;6;9\n".to_vec());
}

#[test]
fn rollover_starts_fresh() {
    let mut state = CurrentState::new(735860);
    let mut log = Vec::new();
    feed(&mut state, &mut log, &[("A", 100), ("A", 103)]);
    assert!(!state.needs_rollover(735860));
    assert!(state.needs_rollover(735861));
    let mut state = CurrentState::new(735861);
    assert_eq!(state.last_date(), 735861);
    assert_eq!(state.last_write_length(), 0);
    let mut next_log = Vec::new();
    let patch = state.observe("A", 106, INTERVAL);
    assert!(patch.is_none());
    feed(&mut state, &mut next_log, &[("A", 109)]);
    assert_eq!(next_log, b"A;106;109\n".to_vec());
    assert_eq!(log, b"A;100;103\n".to_vec());
}

#[test]
fn timestamp_suffix_digits() {
    assert_eq!(timestamp_suffix(0), b"0\n".to_vec());
    assert_eq!(timestamp_suffix(1603000000), b"1603000000\n".to_vec());
    assert_eq!(timestamp_suffix(u64::MAX), b"18446744073709551615\n".to_vec());
}

#[test]
fn write_new_record_bytes() {
    let p = write_new(&frame("chromium-browser", 1603000000, 1603000010));
    assert_eq!(p.seek_back, 0);
    assert_eq!(p.bytes, b"chromium-browser;1603000000;1603000010\n".to_vec());
    assert_eq!(p.suffix_len, 11);
}

#[test]
fn failed_or_ignored_sample_writes_nothing() {
    let mut state = CurrentState::new(1);
    let mut log = Vec::new();
    apply(&mut log, state.handle_sample(Some("app"), 0, INTERVAL));
    apply(&mut log, state.handle_sample(Some("app"), 3, INTERVAL));
    assert_eq!(log, b"app;0;3\n".to_vec());
    assert!(state.handle_sample(Some("Desktop"), 6, INTERVAL).is_none());
    assert!(state.last_frame().is_none());
    assert!(state.handle_sample(Some("app"), 9, INTERVAL).is_none());
    assert!(state.handle_sample(None, 12, INTERVAL).is_none());
    assert!(state.last_frame().is_none());
    apply(&mut log, state.handle_sample(Some("app"), 15, INTERVAL));
    assert_eq!(log, b"app;0;3\n".to_vec());
    apply(&mut log, state.handle_sample(Some("app"), 18, INTERVAL));
    assert_eq!(log, b"app;0;3\napp;15;18\n".to_vec());
    apply(&mut log, state.handle_sample(Some("app"), 21, INTERVAL));
    assert_eq!(log, b"app;0;3\napp;15;21\n".to_vec());
}

#[test]
fn clock_set_back_starts_fresh() {
    let mut state = CurrentState::new(1);
    let mut log = Vec::new();
    apply(&mut log, state.handle_sample(Some("app"), 100, INTERVAL));
    apply(&mut log, state.handle_sample(Some("app"), 103, INTERVAL));
    assert!(state.handle_sample(Some("app"), 50, INTERVAL).is_none());
    let last = state.last_frame().as_ref().unwrap();
    assert_eq!((last.start, last.end), (50, 50));
    assert_eq!(log, b"app;100;103\n".to_vec());
}
