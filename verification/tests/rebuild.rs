use deck::rebuild::{anchor_for, cue_buf_col, fresh, rebuild_due, record_rebuild, SlotParams};

fn params(col_samp: usize, bpm_raw: u32) -> SlotParams {
    SlotParams { col_samp, bpm_raw, off_ms: 0, cue_raw: -1, gain_raw: 0 }
}

#[test]
fn first_look_and_new_tracks_rebuild_at_once() {
    let mut s = fresh(0);
    assert!(rebuild_due(&mut s, params(100, 1), 5_000, 0, false, 80, 0));
    record_rebuild(&mut s, params(100, 1), anchor_for(5_000, 100), 0, 0);
    assert!(!rebuild_due(&mut s, params(100, 1), 5_000, 0, false, 80, 10));
    // A new load generation, or a resize or zoom, rebuilds at once.
    assert!(rebuild_due(&mut s, params(100, 1), 5_000, 1, false, 80, 10));
    assert!(rebuild_due(&mut s, params(100, 1), 5_000, 0, true, 80, 10));
}

#[test]
fn drift_rebuilds_after_three_quarters_of_the_screen() {
    let mut s = fresh(0);
    record_rebuild(&mut s, params(100, 1), 10_000, 0, 0);
    // 80 columns: 60 columns of drift is the limit.
    assert!(!rebuild_due(&mut s, params(100, 1), 10_000 + 5_999, 0, false, 80, 5));
    assert!(rebuild_due(&mut s, params(100, 1), 10_000 + 6_000, 0, false, 80, 5));
    assert!(rebuild_due(&mut s, params(100, 1), 10_000 - 6_000, 0, false, 80, 5));
}

#[test]
fn parameter_changes_settle_or_throttle() {
    let mut s = fresh(0);
    record_rebuild(&mut s, params(100, 1), 0, 0, 1_000);
    // A changed BPM waits to sit still for 50 ms...
    assert!(!rebuild_due(&mut s, params(100, 2), 0, 0, false, 80, 1_010));
    assert!(!rebuild_due(&mut s, params(100, 2), 0, 0, false, 80, 1_059));
    assert!(rebuild_due(&mut s, params(100, 2), 0, 0, false, 80, 1_060));
    record_rebuild(&mut s, params(100, 2), 0, 0, 1_060);
    // ...but a steady ramp still rebuilds every 100 ms.
    let mut bpm = 3;
    let mut t = 1_060;
    let mut rebuilt_at = Vec::new();
    while t < 1_300 {
        t += 30;
        bpm += 1;
        if rebuild_due(&mut s, params(100, bpm), 0, 0, false, 80, t) {
            record_rebuild(&mut s, params(100, bpm), 0, 0, t);
            rebuilt_at.push(t);
        }
    }
    assert_eq!(rebuilt_at, vec![1_180, 1_300]);
}

#[test]
fn anchors_and_cue_columns() {
    assert_eq!(anchor_for(1_234, 100), 1_200);
    assert_eq!(anchor_for(99, 100), 0);
    // A buffer of 400 columns of 100 samples centred on sample 10_000.
    assert_eq!(cue_buf_col(10_000, 10_000, 100, 400), Some(200));
    assert_eq!(cue_buf_col(9_999, 10_000, 100, 400), Some(199));
    assert_eq!(cue_buf_col(10_199, 10_000, 100, 400), Some(201));
    assert_eq!(cue_buf_col(0, 30_000, 100, 400), None);
    assert_eq!(cue_buf_col(-1, 10_000, 100, 400), None);
    assert_eq!(cue_buf_col(10_000, 10_000, 0, 400), None);
}
