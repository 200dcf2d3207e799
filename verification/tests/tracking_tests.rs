use orbital_time_server::control::{
    choose_steering_action, ntp_shm_segment, pass_worth_saving, steering_effects, update_spur_persistence,
    BankFadeState, BankReport, CaptureEvent, CapturePhase, GuidedSearchState, PassCaptureState,
    SteeringAction, UpdateStamp,
};
use orbital_time_server::spectrum::UtcInstant;

#[test]
fn test_map_projection() {
    // Observer in Washington DC: (38.9072, -77.0369)
    let lat: f64 = 38.9072;
    let lon: f64 = -77.0369;

    // Projection formulas from code:
    let x = (((lon + 180.0) / 360.0) * 59.0).round().clamp(0.0, 59.0) as usize;
    let y = (((85.0 - lat) / 170.0) * 14.0).round().clamp(0.0, 14.0) as usize;

    // Expected grid cells:
    // x around 17 (out of 60)
    // y around 4 (out of 15)
    assert!(x > 15 && x < 20);
    assert!(y > 2 && y < 6);
}

#[test]
fn test_adaptive_fallback_to_unguided() {
    let mut state = GuidedSearchState::new();

    let pipeline_sample_rate: f64 = 50000.0;
    let pipeline_step_size: f64 = 1000.0;
    let timeout_frames = (60.0 * pipeline_sample_rate / pipeline_step_size).round() as usize;

    let has_satellites = true;
    let mut visible_expected_frequencies = vec![150803500.0];
    let mut is_tracking = false;

    // 1. Simulating frames passing without acquiring lock
    for _ in 0..=timeout_frames {
        let expected = has_satellites && !visible_expected_frequencies.is_empty();
        state.update(expected, is_tracking, timeout_frames);
    }

    assert!(state.fallback_to_unguided);
    assert_eq!(state.unlocked_frames_during_pass, timeout_frames + 1);

    // 2. Lock is acquired
    is_tracking = true;
    let expected = has_satellites && !visible_expected_frequencies.is_empty();
    state.update(expected, is_tracking, timeout_frames);
    assert_eq!(state.unlocked_frames_during_pass, 0);
    assert!(state.fallback_to_unguided);

    // 3. Satellite moves out of view
    visible_expected_frequencies.clear();
    let expected = has_satellites && !visible_expected_frequencies.is_empty();
    state.update(expected, is_tracking, timeout_frames);
    assert!(!state.fallback_to_unguided);
}

#[test]
fn fallback_not_before_timeout() {
    let mut state = GuidedSearchState::new();
    for _ in 0..3 {
        state.update(true, false, 3);
    }
    assert_eq!(state.unlocked_frames_during_pass, 3);
    assert!(!state.fallback_to_unguided);
    state.update(true, false, 3);
    assert!(state.fallback_to_unguided);
}

#[test]
fn bank_coasts_then_unlocks() {
    let mut bank = BankFadeState::new(2);
    assert_eq!(bank.select(None), BankReport::Unlock);
    assert!(!bank.terminated_in_fade);
    assert_eq!(bank.select(Some(1)), BankReport::Track(1));
    assert_eq!(bank.active_idx, Some(1));
    assert_eq!(bank.select(None), BankReport::Coast(1));
    assert!(bank.in_fade);
    assert_eq!(bank.fade_counter, 1);
    assert_eq!(bank.select(None), BankReport::Coast(1));
    assert_eq!(bank.fade_counter, 2);
    assert_eq!(bank.select(None), BankReport::Unlock);
    assert!(!bank.in_fade);
    assert_eq!(bank.active_idx, None);
    assert!(bank.terminated_in_fade);
}

#[test]
fn bank_relock_ends_fade() {
    let mut bank = BankFadeState::new(5);
    bank.select(Some(0));
    bank.select(None);
    assert!(bank.in_fade);
    assert_eq!(bank.select(Some(2)), BankReport::Track(2));
    assert!(!bank.in_fade);
    assert_eq!(bank.fade_counter, 0);
    assert_eq!(bank.active_idx, Some(2));
}

#[test]
fn steering_action_choices() {
    assert_eq!(choose_steering_action(true, Some(2), false, true), SteeringAction::WriteShm(2));
    assert_eq!(choose_steering_action(true, None, false, true), SteeringAction::StepClock);
    assert_eq!(choose_steering_action(true, None, true, true), SteeringAction::Slew);
    assert_eq!(choose_steering_action(true, None, false, false), SteeringAction::Slew);
    assert_eq!(choose_steering_action(false, Some(0), false, true), SteeringAction::DryRunShm(0));
    assert_eq!(choose_steering_action(false, None, false, true), SteeringAction::DryRun);
}

#[test]
fn steering_effect_outcomes() {
    let failed_shm = steering_effects(SteeringAction::WriteShm(1), false);
    assert!(failed_shm.synchronized && !failed_shm.stepped);
    assert_eq!(failed_shm.last_update, UpdateStamp::Keep);
    let step = steering_effects(SteeringAction::StepClock, true);
    assert!(step.synchronized && step.stepped);
    assert_eq!(step.last_update, UpdateStamp::Clear);
    let failed_step = steering_effects(SteeringAction::StepClock, false);
    assert!(failed_step.synchronized && !failed_step.stepped);
    let slew = steering_effects(SteeringAction::Slew, false);
    assert!(slew.synchronized);
    assert_eq!(slew.last_update, UpdateStamp::SetNow);
}

#[test]
fn ntp_segment_keys() {
    assert_eq!(ntp_shm_segment(0), (0x4e545030, 0o600));
    assert_eq!(ntp_shm_segment(1), (0x4e545031, 0o600));
    assert_eq!(ntp_shm_segment(2), (0x4e545032, 0o666));
}

#[test]
fn test_capture_starts_on_fifteenth_locked_step() {
    let mut s = PassCaptureState::new();
    for _ in 0..14 {
        assert_eq!(s.step(true, 5, false), CaptureEvent::Idle);
        assert_eq!(s.phase, CapturePhase::Searching);
    }
    assert_eq!(s.consecutive_lock, 14);
    assert_eq!(s.step(true, 5, false), CaptureEvent::StartCapture);
    assert_eq!(s.phase, CapturePhase::Capturing);
    assert_eq!(s.consecutive_lock, 0);
}

#[test]
fn test_capture_lock_run_restarts_on_loss() {
    let mut s = PassCaptureState::new();
    for _ in 0..10 {
        s.step(true, 5, false);
    }
    assert_eq!(s.step(false, 5, false), CaptureEvent::Idle);
    assert_eq!(s.consecutive_lock, 0);
    assert_eq!(s.phase, CapturePhase::Searching);
}

#[test]
fn test_pass_ends_after_fade_gap() {
    let mut s = PassCaptureState { phase: CapturePhase::Capturing, consecutive_lock: 0, consecutive_unlock: 0 };
    assert_eq!(
        s.step(false, 3, true),
        CaptureEvent::Gap { steering_suspended: true, pass_ended: false }
    );
    assert_eq!(
        s.step(false, 3, true),
        CaptureEvent::Gap { steering_suspended: false, pass_ended: false }
    );
    assert_eq!(s.phase, CapturePhase::Capturing);
    assert_eq!(
        s.step(false, 3, true),
        CaptureEvent::Gap { steering_suspended: false, pass_ended: true }
    );
    assert_eq!(s.phase, CapturePhase::Searching);
    assert_eq!(s.consecutive_unlock, 0);
}

#[test]
fn test_capture_resumes_steering_after_gap() {
    let mut s = PassCaptureState { phase: CapturePhase::Capturing, consecutive_lock: 0, consecutive_unlock: 0 };
    assert_eq!(s.step(true, 3, true), CaptureEvent::RecordSample { steering_resumed: false });
    s.step(false, 3, true);
    assert_eq!(s.step(true, 3, true), CaptureEvent::RecordSample { steering_resumed: true });
    assert_eq!(s.consecutive_unlock, 0);
    s.step(false, 3, false);
    assert_eq!(s.step(true, 3, false), CaptureEvent::RecordSample { steering_resumed: false });
}

#[test]
fn test_spur_persistence_marks_after_ten_checks() {
    let mut counts = vec![0u8; 6];
    let mut spurs = vec![false; 6];
    let search = vec![1usize, 2, 4];
    let above = vec![true, true, false, true, true, true];
    for i in 0..9 {
        let (flags, n) = update_spur_persistence(&mut counts, &spurs, &search, &above);
        assert_eq!(n, 0, "check {}", i);
        spurs = flags;
    }
    assert_eq!(counts, vec![0, 9, 0, 0, 9, 0]);
    let (flags, n) = update_spur_persistence(&mut counts, &spurs, &search, &above);
    assert_eq!(n, 2);
    assert_eq!(flags, vec![false, true, false, false, true, false]);
    assert_eq!(counts, vec![0, 10, 0, 0, 10, 0]);
}

#[test]
fn test_spur_persistence_saturates_and_resets() {
    let mut counts = vec![255u8, 12, 3];
    let spurs = vec![true, true, true];
    let search = vec![0usize, 1];
    let above = vec![true, false, false];
    let (flags, n) = update_spur_persistence(&mut counts, &spurs, &search, &above);
    assert_eq!(counts, vec![255, 0, 3]);
    assert_eq!(flags, vec![true, false, true]);
    assert_eq!(n, 1);
}

#[test]
fn test_pass_saved_after_sixty_seconds_of_lock() {
    let first = UtcInstant { secs: 1_000, nanos: 500_000_000 };
    let short = UtcInstant { secs: 1_060, nanos: 400_000_000 };
    let long = UtcInstant { secs: 1_060, nanos: 500_000_000 };
    assert!(!pass_worth_saving(true, Some(first), Some(short)));
    assert!(pass_worth_saving(true, Some(first), Some(long)));
    assert!(!pass_worth_saving(false, Some(first), Some(long)));
    assert!(!pass_worth_saving(true, None, Some(long)));
    assert!(!pass_worth_saving(true, Some(first), None));
}
