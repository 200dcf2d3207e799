use orbital_time_server::decimation::{shift_history, DecimationPlan, DecimationSchedule};

#[test]
fn pass_through_for_factor_one() {
    let mut s = DecimationSchedule::new(5, 1);
    assert_eq!(s.plan_block(10), DecimationPlan::PassThrough);
    assert_eq!(s.pending_offset, 0);
}

#[test]
fn windows_and_carried_offset() {
    // 4 taps, history of 3, factor 3, block of 10: total 13.
    let mut s = DecimationSchedule::new(4, 3);
    assert_eq!(s.hist_len, 3);
    assert_eq!(s.plan_block(10), DecimationPlan::Windows(vec![0, 3, 6, 9]));
    // next start 12, minus 10 samples
    assert_eq!(s.pending_offset, 2);
    assert_eq!(s.plan_block(10), DecimationPlan::Windows(vec![2, 5, 8]));
    assert_eq!(s.pending_offset, 1);
}

#[test]
fn blocks_match_one_long_block() {
    let mut split = DecimationSchedule::new(7, 4);
    let mut whole = DecimationSchedule::new(7, 4);
    let mut stream_starts = Vec::new();
    let mut consumed = 0usize;
    for len in [5usize, 13, 1, 20] {
        if let DecimationPlan::Windows(w) = split.plan_block(len) {
            for x in w {
                stream_starts.push(x + consumed);
            }
        }
        consumed += len;
    }
    match whole.plan_block(consumed) {
        DecimationPlan::Windows(w) => assert_eq!(stream_starts, w),
        DecimationPlan::PassThrough => panic!("unexpected pass-through"),
    }
}

#[test]
fn history_keeps_last_samples() {
    let mut h = vec![1, 2, 3];
    shift_history(&mut h, &[4]);
    assert_eq!(h, vec![2, 3, 4]);
    shift_history(&mut h, &[5, 6, 7, 8, 9]);
    assert_eq!(h, vec![7, 8, 9]);
    let mut empty: Vec<i32> = Vec::new();
    shift_history(&mut empty, &[1, 2]);
    assert!(empty.is_empty());
}

#[test]
fn reset_clears_offset() {
    let mut s = DecimationSchedule::new(4, 3);
    s.plan_block(10);
    s.reset();
    assert_eq!(s.pending_offset, 0);
}
