use thinkpoint::detect::{record_hit, Hit, HitParser, MotionLines, MotionStep, HIT_HISTORY};

fn hits(sample: &str) -> Vec<Hit> {
    let mut parser = HitParser::default();
    sample.lines().filter_map(|l| parser.feed(l)).collect()
}

#[test]
fn reads_the_source_device_of_a_press() {
    let sample = "\
EVENT type 15 (RawButtonPress)
    device: 2 (13)
    detail: 2
EVENT type 4 (ButtonPress)
    device: 13 (13)
    detail: 2
    root: 1920/1080
";
    assert_eq!(
        hits(sample),
        vec![Hit {
            device_id: 13,
            button: 2
        }]
    );
}

#[test]
fn ignores_motion_and_release_blocks() {
    let sample = "\
EVENT type 6 (Motion)
    device: 13 (13)
    detail: 0
EVENT type 5 (ButtonRelease)
    device: 13 (13)
    detail: 2
";
    assert!(hits(sample).is_empty());
}

#[test]
fn a_truncated_block_does_not_leak_into_the_next() {
    let sample = "\
EVENT type 4 (ButtonPress)
    device: 12 (12)
EVENT type 4 (ButtonPress)
    device: 13 (13)
    detail: 3
";
    assert_eq!(
        hits(sample),
        vec![Hit {
            device_id: 13,
            button: 3
        }]
    );
}

#[test]
fn distinguishes_the_touchpad_from_the_trackpoint() {
    // The case this exists for: a middle click arriving from the touchpad
    // even though the TrackPoint is the device being remapped.
    let sample = "\
EVENT type 4 (ButtonPress)
    device: 12 (12)
    detail: 2
";
    assert_eq!(hits(sample)[0].device_id, 12);
}

#[test]
fn a_press_without_a_device_line_is_dropped() {
    let sample = "\
EVENT type 4 (ButtonPress)
    detail: 2
";
    assert!(hits(sample).is_empty());
}

#[test]
fn only_one_hit_per_press_block() {
    let sample = "\
EVENT type 4 (ButtonPress)
    device: 13 (13)
    detail: 1
    detail: 3
";
    assert_eq!(hits(sample), vec![Hit { device_id: 13, button: 1 }]);
}

#[test]
fn the_history_keeps_the_latest_twelve() {
    let mut history = Vec::new();
    for n in 0..20u32 {
        record_hit(&mut history, Hit { device_id: n, button: 1 });
        assert!(history.len() <= HIT_HISTORY);
    }
    assert_eq!(history.len(), 12);
    assert_eq!(history[0].device_id, 8);
    assert_eq!(history[11].device_id, 19);
}

fn steps(sample: &str) -> Vec<MotionStep> {
    let mut lines = MotionLines::default();
    sample.lines().map(|l| lines.feed(l)).collect()
}

#[test]
fn motion_blocks_hand_out_their_valuators() {
    let sample = "\
EVENT type 6 (Motion)
    device: 13 (13)
    detail: 0
    valuators:
         0: 1003.00
         1: 1998.00 (1998.00)
EVENT type 4 (ButtonPress)
";
    let got = steps(sample);
    assert_eq!(got.len(), 7);
    assert!(matches!(got[0], MotionStep::Boundary));
    assert!(matches!(got[1], MotionStep::Quiet));
    match &got[4] {
        MotionStep::Valuator { device_id, axis, value } => {
            assert_eq!((*device_id, *axis, value.as_str()), (13, 0, "1003.00"));
        }
        other => panic!("expected a valuator, got {other:?}"),
    }
    match &got[5] {
        MotionStep::Valuator { device_id, axis, value } => {
            assert_eq!((*device_id, *axis, value.as_str()), (13, 1, "1998.00"));
        }
        other => panic!("expected a valuator, got {other:?}"),
    }
    assert!(matches!(got[6], MotionStep::Boundary));
}

#[test]
fn button_blocks_hand_out_no_valuators() {
    let sample = "\
EVENT type 4 (ButtonPress)
    device: 13 (13)
    valuators:
         0: 1003.00
";
    assert!(steps(sample).iter().all(|s| !matches!(s, MotionStep::Valuator { .. })));
}

#[test]
fn a_row_that_is_not_a_valuator_ends_the_list() {
    let sample = "\
EVENT type 6 (Motion)
    device: 13 (13)
    valuators:
    windows: root 0x1 event 0x2
         0: 1003.00
";
    assert!(steps(sample).iter().all(|s| !matches!(s, MotionStep::Valuator { .. })));
}
