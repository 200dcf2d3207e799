//! Decision logic of the tracking loop and the clock steering: when to
//! give up guided search, how the tracker bank rides through fades, and
//! which steering action to take and what it changes.
use crate::spectrum::{seconds_between, whole_seconds_between, UtcInstant};
use vstd::prelude::*;

verus! {

/// Progress of the guided (TLE-predicted) search within a pass.
#[derive(Clone, Copy, Debug, PartialEq, Eq)]
pub struct GuidedSearchState {
    /// Consecutive frames without lock while a satellite is expected.
    pub unlocked_frames_during_pass: usize,
    /// Whether the search has fallen back to unguided mode.
    pub fallback_to_unguided: bool,
}

/// The guided-search state after one frame.
pub open spec fn guided_search_next(
    s: GuidedSearchState,
    satellite_expected: bool,
    is_tracking: bool,
    timeout_frames: usize,
) -> GuidedSearchState {
    if satellite_expected {
        if !is_tracking {
            let n = (s.unlocked_frames_during_pass + 1) as usize;
            GuidedSearchState {
                unlocked_frames_during_pass: n,
                fallback_to_unguided: s.fallback_to_unguided || n > timeout_frames,
            }
        } else {
            GuidedSearchState { unlocked_frames_during_pass: 0, ..s }
        }
    } else {
        GuidedSearchState { unlocked_frames_during_pass: 0, fallback_to_unguided: false }
    }
}

impl GuidedSearchState {
    /// The state at the start: no unlocked frames, guided search.
    pub fn new() -> (r: Self)
        ensures
            r.unlocked_frames_during_pass == 0,
            !r.fallback_to_unguided,
    {
        GuidedSearchState { unlocked_frames_during_pass: 0, fallback_to_unguided: false }
    }

    /// Advances by one frame. While a satellite is expected (satellites are
    /// loaded and one is predicted visible), a frame without lock counts
    /// towards the timeout and, once the count exceeds `timeout_frames`,
    /// search falls back to unguided mode; a locked frame clears the count.
    /// With no satellite expected, the count clears and guided search resumes.
    pub fn update(&mut self, satellite_expected: bool, is_tracking: bool, timeout_frames: usize)
        requires
            old(self).unlocked_frames_during_pass < usize::MAX,
        ensures
            *final(self) == guided_search_next(*old(self), satellite_expected, is_tracking, timeout_frames),
    {
        if satellite_expected {
            if !is_tracking {
                self.unlocked_frames_during_pass = self.unlocked_frames_during_pass + 1;
                if self.unlocked_frames_during_pass > timeout_frames && !self.fallback_to_unguided {
                    self.fallback_to_unguided = true;
                }
            } else {
                self.unlocked_frames_during_pass = 0;
            }
        } else {
            self.unlocked_frames_during_pass = 0;
            self.fallback_to_unguided = false;
        }
    }
}

/// What the channel reports after the tracker bank's selection step.
#[derive(Clone, Copy, Debug, PartialEq, Eq)]
pub enum BankReport {
    /// Tracker `i` is locked and best: report its estimate as locked.
    Track(usize),
    /// No tracker is locked; coast on the previously active tracker `i`.
    Coast(usize),
    /// Lock is lost: report unlocked and re-arm acquisition.
    Unlock,
}

/// Fade handling of a bank of trackers: which tracker is active and how
/// long the bank has been coasting without any locked tracker.
#[derive(Clone, Copy, Debug, PartialEq, Eq)]
pub struct BankFadeState {
    pub active_idx: Option<usize>,
    pub in_fade: bool,
    pub fade_counter: usize,
    pub max_fade_steps: usize,
    pub terminated_in_fade: bool,
}

/// The bank state after a selection step in which `best` is the locked
/// tracker with the highest lock metric, if any.
pub open spec fn bank_next(s: BankFadeState, best: Option<usize>) -> BankFadeState {
    match best {
        Some(i) => BankFadeState { active_idx: Some(i), in_fade: false, fade_counter: 0, ..s },
        None => match s.active_idx {
            Some(prev) => {
                let c = (s.fade_counter + 1) as usize;
                if c > s.max_fade_steps {
                    BankFadeState {
                        active_idx: None,
                        in_fade: false,
                        fade_counter: c,
                        terminated_in_fade: true,
                        ..s
                    }
                } else {
                    BankFadeState { in_fade: true, fade_counter: c, ..s }
                }
            },
            None => s,
        },
    }
}

/// What the channel reports after the selection step.
pub open spec fn bank_report(s: BankFadeState, best: Option<usize>) -> BankReport {
    match best {
        Some(i) => BankReport::Track(i),
        None => match s.active_idx {
            Some(prev) => if s.fade_counter + 1 > s.max_fade_steps {
                BankReport::Unlock
            } else {
                BankReport::Coast(prev)
            },
            None => BankReport::Unlock,
        },
    }
}

/// The bank is coasting only on an active tracker, and the fade count of
/// a coasting bank stays within the allowed number of steps.
pub open spec fn bank_consistent(s: BankFadeState) -> bool {
    &&& s.in_fade ==> s.active_idx is Some
    &&& s.in_fade ==> 0 < s.fade_counter <= s.max_fade_steps
}

impl BankFadeState {
    /// A bank with no active tracker that may coast for `max_fade_steps`.
    pub fn new(max_fade_steps: usize) -> (r: Self)
        ensures
            r == (BankFadeState {
                active_idx: None,
                in_fade: false,
                fade_counter: 0,
                max_fade_steps,
                terminated_in_fade: false,
            }),
            bank_consistent(r),
    {
        BankFadeState {
            active_idx: None,
            in_fade: false,
            fade_counter: 0,
            max_fade_steps,
            terminated_in_fade: false,
        }
    }

    /// One selection step. A locked tracker becomes active and ends any
    /// fade. Without one, a bank with an active tracker coasts on it while
    /// the fade count stays within `max_fade_steps`; past that the fade
    /// ends, the bank drops its active tracker and records that it
    /// terminated in a fade. A bank with no active tracker reports unlock.
    pub fn select(&mut self, best: Option<usize>) -> (r: BankReport)
        requires
            old(self).fade_counter < usize::MAX,
        ensures
            *final(self) == bank_next(*old(self), best),
            r == bank_report(*old(self), best),
    {
        match best {
            Some(i) => {
                self.active_idx = Some(i);
                self.in_fade = false;
                self.fade_counter = 0;
                BankReport::Track(i)
            },
            None => match self.active_idx {
                Some(prev) => {
                    self.in_fade = true;
                    self.fade_counter = self.fade_counter + 1;
                    if self.fade_counter > self.max_fade_steps {
                        self.in_fade = false;
                        self.active_idx = None;
                        self.terminated_in_fade = true;
                        BankReport::Unlock
                    } else {
                        BankReport::Coast(prev)
                    }
                },
                None => BankReport::Unlock,
            },
        }
    }
}

/// The action that one clock-steering request takes.
#[derive(Clone, Copy, Debug, PartialEq, Eq)]
pub enum SteeringAction {
    /// Write the offset to NTP shared-memory segment `unit`.
    WriteShm(usize),
    /// Step the system clock once, on the first large offset.
    StepClock,
    /// Ask the kernel to slew the clock gradually.
    Slew,
    /// Steering disabled: only report what NTP segment `unit` would get.
    DryRunShm(usize),
    /// Steering disabled: only report the computed adjustment.
    DryRun,
}

/// The steering action: with steering enabled, an NTP segment when one is
/// configured, else a one-time step when not yet synchronized and the offset
/// exceeds the step threshold, else a slew; with steering disabled, a dry run.
pub open spec fn steering_action_spec(
    enable_steering: bool,
    shm_unit: Option<usize>,
    synchronized: bool,
    offset_exceeds_step_threshold: bool,
) -> SteeringAction {
    if enable_steering {
        match shm_unit {
            Some(u) => SteeringAction::WriteShm(u),
            None => if !synchronized && offset_exceeds_step_threshold {
                SteeringAction::StepClock
            } else {
                SteeringAction::Slew
            },
        }
    } else {
        match shm_unit {
            Some(u) => SteeringAction::DryRunShm(u),
            None => SteeringAction::DryRun,
        }
    }
}

/// Chooses the steering action for one request; `offset_exceeds_step_threshold`
/// says whether the clock offset exceeds the 100 ms step threshold.
pub fn choose_steering_action(
    enable_steering: bool,
    shm_unit: Option<usize>,
    synchronized: bool,
    offset_exceeds_step_threshold: bool,
) -> (r: SteeringAction)
    ensures
        r == steering_action_spec(enable_steering, shm_unit, synchronized, offset_exceeds_step_threshold),
{
    if enable_steering {
        match shm_unit {
            Some(u) => SteeringAction::WriteShm(u),
            None => if !synchronized && offset_exceeds_step_threshold {
                SteeringAction::StepClock
            } else {
                SteeringAction::Slew
            },
        }
    } else {
        match shm_unit {
            Some(u) => SteeringAction::DryRunShm(u),
            None => SteeringAction::DryRun,
        }
    }
}

/// How the time of the last steering update changes.
#[derive(Clone, Copy, Debug, PartialEq, Eq)]
pub enum UpdateStamp {
    Keep,
    SetNow,
    Clear,
}

/// What a steering request changes in the steering loop's state.
#[derive(Clone, Copy, Debug, PartialEq, Eq)]
pub struct SteeringEffects {
    /// Whether the loop counts as synchronized afterwards.
    pub synchronized: bool,
    /// How the time of the last update changes.
    pub last_update: UpdateStamp,
    /// Whether the adjustment was stepped into the clock: it is then recorded
    /// as the pending step and subtracted from the filter's phase offset.
    pub stepped: bool,
}

/// The effects of an action that succeeded or failed. A segment write
/// synchronizes; on success it also stamps the update, on failure it keeps
/// the update time. A step synchronizes whether or not it succeeds; on success it clears the
/// update time and counts as stepped. Slews and dry runs synchronize and
/// stamp the update, whatever their outcome.
pub open spec fn steering_effects_spec(
    action: SteeringAction,
    succeeded: bool,
) -> SteeringEffects {
    match action {
        SteeringAction::WriteShm(_) => if succeeded {
            SteeringEffects { synchronized: true, last_update: UpdateStamp::SetNow, stepped: false }
        } else {
            SteeringEffects { synchronized: true, last_update: UpdateStamp::Keep, stepped: false }
        },
        SteeringAction::StepClock => if succeeded {
            SteeringEffects { synchronized: true, last_update: UpdateStamp::Clear, stepped: true }
        } else {
            SteeringEffects { synchronized: true, last_update: UpdateStamp::Keep, stepped: false }
        },
        _ => SteeringEffects { synchronized: true, last_update: UpdateStamp::SetNow, stepped: false },
    }
}

/// The effects of a steering action with the given outcome.
pub fn steering_effects(action: SteeringAction, succeeded: bool) -> (r:
    SteeringEffects)
    ensures
        r == steering_effects_spec(action, succeeded),
{
    match action {
        SteeringAction::WriteShm(_) => if succeeded {
            SteeringEffects { synchronized: true, last_update: UpdateStamp::SetNow, stepped: false }
        } else {
            SteeringEffects { synchronized: true, last_update: UpdateStamp::Keep, stepped: false }
        },
        SteeringAction::StepClock => if succeeded {
            SteeringEffects { synchronized: true, last_update: UpdateStamp::Clear, stepped: true }
        } else {
            SteeringEffects { synchronized: true, last_update: UpdateStamp::Keep, stepped: false }
        },
        _ => SteeringEffects { synchronized: true, last_update: UpdateStamp::SetNow, stepped: false },
    }
}

/// The System V key of NTP shared-memory segment `unit` ("NTP0" + unit) and
/// its permission bits: owner-only for units 0 and 1, world-writable above.
pub fn ntp_shm_segment(unit: usize) -> (r: (i32, i32))
    requires
        unit <= 0x7fff_ffff - 0x4e54_5030,
    ensures
        r.0 == 0x4e54_5030 + unit,
        r.1 == (if unit >= 2 {
            0o666i32
        } else {
            0o600i32
        }),
{
    let key: i32 = 0x4e54_5030 + unit as i32;
    let perms: i32 = if unit >= 2 {
        0o666
    } else {
        0o600
    };
    (key, perms)
}

/// A finished channel's pass is saved when it locked at some point and the
/// first and last lock lie at least sixty whole seconds apart.
pub fn pass_worth_saving(
    ever_locked: bool,
    first_lock: Option<UtcInstant>,
    last_lock: Option<UtcInstant>,
) -> (r: bool)
    requires
        first_lock matches Some(t) ==> t.nanos < 1_000_000_000 && -0x1_0000_0000_0000 < t.secs
            < 0x1_0000_0000_0000,
        last_lock matches Some(t) ==> t.nanos < 1_000_000_000 && -0x1_0000_0000_0000 < t.secs
            < 0x1_0000_0000_0000,
    ensures
        r == (ever_locked && first_lock is Some && last_lock is Some && whole_seconds_between(
            last_lock->0,
            first_lock->0,
        ) >= 60),
{
    if !ever_locked {
        return false;
    }
    match (first_lock, last_lock) {
        (Some(first), Some(last)) => seconds_between(last, first) >= 60,
        _ => false,
    }
}

/// Whether the daemon is waiting for a pass or recording one.
#[derive(Clone, Copy, Debug, PartialEq, Eq, Structural)]
pub enum CapturePhase {
    Searching,
    Capturing,
}

/// The daemon's pass-capture state.
#[derive(Clone, Copy, Debug, PartialEq, Eq)]
pub struct PassCaptureState {
    pub phase: CapturePhase,
    /// Consecutive steps with signal while searching.
    pub consecutive_lock: usize,
    /// Consecutive steps without signal while capturing.
    pub consecutive_unlock: usize,
}

/// What one daemon step asks for.
#[derive(Clone, Copy, Debug, PartialEq, Eq)]
pub enum CaptureEvent {
    /// Nothing to record.
    Idle,
    /// The signal has held for the required steps: start capturing a pass.
    StartCapture,
    /// Record this step's measurement; `steering_resumed` when a single
    /// tracker regains the signal after a gap.
    RecordSample { steering_resumed: bool },
    /// No signal; `steering_suspended` on the first such step of a single
    /// tracker, and `pass_ended` when the gap reached the fade timeout.
    Gap { steering_suspended: bool, pass_ended: bool },
}

/// Steps of signal needed before a pass is captured.
pub open spec fn lock_steps_to_capture() -> usize {
    15
}

/// The capture state after one step.
pub open spec fn capture_next(
    s: PassCaptureState,
    signal_ok: bool,
    steps_for_fade: usize,
) -> PassCaptureState {
    match s.phase {
        CapturePhase::Searching => if signal_ok {
            if s.consecutive_lock + 1 >= lock_steps_to_capture() {
                PassCaptureState { phase: CapturePhase::Capturing, consecutive_lock: 0, ..s }
            } else {
                PassCaptureState { consecutive_lock: (s.consecutive_lock + 1) as usize, ..s }
            }
        } else {
            PassCaptureState { consecutive_lock: 0, ..s }
        },
        CapturePhase::Capturing => if signal_ok {
            PassCaptureState { consecutive_unlock: 0, ..s }
        } else if s.consecutive_unlock + 1 >= steps_for_fade {
            PassCaptureState { phase: CapturePhase::Searching, consecutive_unlock: 0, ..s }
        } else {
            PassCaptureState { consecutive_unlock: (s.consecutive_unlock + 1) as usize, ..s }
        },
    }
}

/// The event of one step.
pub open spec fn capture_event(
    s: PassCaptureState,
    signal_ok: bool,
    steps_for_fade: usize,
    single_tracker: bool,
) -> CaptureEvent {
    match s.phase {
        CapturePhase::Searching => if signal_ok && s.consecutive_lock + 1 >= lock_steps_to_capture() {
            CaptureEvent::StartCapture
        } else {
            CaptureEvent::Idle
        },
        CapturePhase::Capturing => if signal_ok {
            CaptureEvent::RecordSample { steering_resumed: single_tracker && s.consecutive_unlock > 0 }
        } else {
            CaptureEvent::Gap {
                steering_suspended: single_tracker && s.consecutive_unlock + 1 == 1,
                pass_ended: s.consecutive_unlock + 1 >= steps_for_fade,
            }
        },
    }
}

impl PassCaptureState {
    /// Searching, with no counts.
    pub open spec fn idle() -> Self {
        PassCaptureState { phase: CapturePhase::Searching, consecutive_lock: 0, consecutive_unlock: 0 }
    }

    /// Searching, with no counts.
    pub fn new() -> (r: Self)
        ensures
            r == PassCaptureState::idle(),
    {
        PassCaptureState { phase: CapturePhase::Searching, consecutive_lock: 0, consecutive_unlock: 0 }
    }

    /// One daemon step. While searching, fifteen consecutive steps with
    /// signal start a capture. While capturing, a step with signal is
    /// recorded and clears the gap count; a gap of `steps_for_fade`
    /// consecutive steps ends the pass and returns to searching.
    /// `single_tracker` marks runs without the tracker bank, whose clock
    /// steering is suspended during gaps.
    pub fn step(&mut self, signal_ok: bool, steps_for_fade: usize, single_tracker: bool) -> (r:
        CaptureEvent)
        requires
            old(self).consecutive_lock < usize::MAX,
            old(self).consecutive_unlock < usize::MAX,
        ensures
            *final(self) == capture_next(*old(self), signal_ok, steps_for_fade),
            r == capture_event(*old(self), signal_ok, steps_for_fade, single_tracker),
    {
        match self.phase {
            CapturePhase::Searching => {
                if signal_ok {
                    self.consecutive_lock = self.consecutive_lock + 1;
                    if self.consecutive_lock >= 15 {
                        self.phase = CapturePhase::Capturing;
                        self.consecutive_lock = 0;
                        return CaptureEvent::StartCapture;
                    }
                } else {
                    self.consecutive_lock = 0;
                }
                CaptureEvent::Idle
            },
            CapturePhase::Capturing => {
                if signal_ok {
                    let resumed = single_tracker && self.consecutive_unlock > 0;
                    self.consecutive_unlock = 0;
                    CaptureEvent::RecordSample { steering_resumed: resumed }
                } else {
                    self.consecutive_unlock = self.consecutive_unlock + 1;
                    let suspended = single_tracker && self.consecutive_unlock == 1;
                    let ended = self.consecutive_unlock >= steps_for_fade;
                    if ended {
                        self.phase = CapturePhase::Searching;
                        self.consecutive_unlock = 0;
                    }
                    CaptureEvent::Gap { steering_suspended: suspended, pass_ended: ended }
                }
            },
        }
    }
}

/// The capture state after `k` steps that all have (or all lack) signal.
pub open spec fn capture_after_steps(
    s: PassCaptureState,
    signal_ok: bool,
    k: nat,
    steps_for_fade: usize,
) -> PassCaptureState
    decreases k,
{
    if k == 0 {
        s
    } else {
        capture_next(capture_after_steps(s, signal_ok, (k - 1) as nat, steps_for_fade), signal_ok, steps_for_fade)
    }
}

/// While searching, a run of steps with signal shorter than fifteen only
/// counts; the fifteenth consecutive step starts the capture.
pub proof fn law_capture_after_lock_steps(k: nat, steps_for_fade: usize)
    requires
        k <= lock_steps_to_capture(),
    ensures
        k < lock_steps_to_capture() ==> capture_after_steps(PassCaptureState::idle(), true, k, steps_for_fade)
            == (PassCaptureState { phase: CapturePhase::Searching, consecutive_lock: k as usize, consecutive_unlock: 0 }),
        k < lock_steps_to_capture() ==> capture_event(
            capture_after_steps(PassCaptureState::idle(), true, k, steps_for_fade),
            true,
            steps_for_fade,
            false,
        ) == (if k + 1 == lock_steps_to_capture() {
            CaptureEvent::StartCapture
        } else {
            CaptureEvent::Idle
        }),
        k == lock_steps_to_capture() ==> capture_after_steps(PassCaptureState::idle(), true, k, steps_for_fade).phase
            == CapturePhase::Capturing,
    decreases k,
{
    if k > 0 {
        law_capture_after_lock_steps((k - 1) as nat, steps_for_fade);
    }
}

/// While capturing, a gap shorter than `steps_for_fade` keeps the pass; the
/// gap step that reaches it ends the pass and returns to searching.
pub proof fn law_pass_ends_after_fade(k: nat, steps_for_fade: usize)
    requires
        1 <= k <= steps_for_fade,
    ensures
        ({
            let s = capture_after_steps(
                PassCaptureState { phase: CapturePhase::Capturing, consecutive_lock: 0, consecutive_unlock: 0 },
                false,
                k,
                steps_for_fade,
            );
            if k < steps_for_fade {
                s == PassCaptureState { phase: CapturePhase::Capturing, consecutive_lock: 0, consecutive_unlock: k as usize }
            } else {
                s == PassCaptureState::idle()
            }
        }),
    decreases k,
{
    if k > 1 {
        law_pass_ends_after_fade((k - 1) as nat, steps_for_fade);
    } else {
        reveal_with_fuel(capture_after_steps, 2);
    }
}

/// Consecutive above-threshold checks after which a bin is a spur.
pub open spec fn spur_persistence_checks() -> u8 {
    10
}

/// A bin's persistence count after one check: one more (saturating at 255)
/// when above the threshold, else zero.
pub open spec fn spur_count_next(c: u8, above: bool) -> u8 {
    if above {
        if c == 255 {
            255
        } else {
            (c + 1) as u8
        }
    } else {
        0
    }
}

/// A bin's count after `k` checks with the same outcome.
pub open spec fn spur_count_after(c: u8, above: bool, k: nat) -> u8
    decreases k,
{
    if k == 0 {
        c
    } else {
        spur_count_next(spur_count_after(c, above, (k - 1) as nat), above)
    }
}

/// Starting from a cleared count, a bin is a spur exactly when it was above
/// the threshold in at least ten consecutive checks; one check below clears
/// it again.
pub proof fn law_spur_needs_ten_consecutive_checks(c: u8, k: nat)
    ensures
        spur_count_after(0, true, k) == (if k < 255 {
            k as u8
        } else {
            255u8
        }),
        (spur_count_after(0, true, k) >= spur_persistence_checks()) == (k >= 10),
        spur_count_next(c, false) == 0,
    decreases k,
{
    if k > 0 {
        law_spur_needs_ten_consecutive_checks(c, (k - 1) as nat);
    }
}

/// How many entries of `bins` are flagged.
pub open spec fn flagged_count(bins: Seq<usize>, flags: Seq<bool>) -> nat
    decreases bins.len(),
{
    if bins.len() == 0 {
        0
    } else {
        flagged_count(bins.drop_last(), flags) + if flags[bins.last() as int] {
            1nat
        } else {
            0nat
        }
    }
}

proof fn lemma_flagged_count_frame(bins: Seq<usize>, f: Seq<bool>, g: Seq<bool>)
    requires
        forall|j: int| 0 <= j < bins.len() ==> f[#[trigger] bins[j] as int] == g[bins[j] as int],
    ensures
        flagged_count(bins, f) == flagged_count(bins, g),
    decreases bins.len(),
{
    if bins.len() > 0 {
        lemma_flagged_count_frame(bins.drop_last(), f, g);
    }
}

/// Advances the per-bin persistence counts of the spur search: a bin above
/// the threshold counts one more (saturating), any other bin restarts; a
/// bin is a spur once it was above for ten consecutive checks. Only the
/// bins in `search` change. Returns the new spur flags and how many of
/// the searched bins are spurs.
pub fn update_spur_persistence(
    counts: &mut Vec<u8>,
    spurs: &Vec<bool>,
    search: &Vec<usize>,
    above: &Vec<bool>,
) -> (r: (Vec<bool>, usize))
    requires
        old(counts)@.len() == spurs@.len(),
        above@.len() == spurs@.len(),
        forall|k: int| 0 <= k < search@.len() ==> #[trigger] search@[k] < spurs@.len(),
        forall|j: int, k: int| 0 <= j < k < search@.len() ==> search@[j] != search@[k],
    ensures
        final(counts)@.len() == old(counts)@.len(),
        r.0@.len() == spurs@.len(),
        forall|b: int|
            0 <= b < spurs@.len() && !search@.contains(b as usize) ==> #[trigger] final(counts)@[b]
                == old(counts)@[b] && r.0@[b] == spurs@[b],
        forall|k: int|
            0 <= k < search@.len() ==> {
                let b = #[trigger] search@[k] as int;
                &&& final(counts)@[b] == spur_count_next(old(counts)@[b], above@[b])
                &&& r.0@[b] == (final(counts)@[b] >= spur_persistence_checks())
            },
        r.1 == flagged_count(search@, r.0@),
{
    let mut flags: Vec<bool> = spurs.clone();
    assert(flags@ == spurs@);
    let mut found: usize = 0;
    let mut k: usize = 0;
    while k < search.len()
        invariant
            k <= search@.len(),
            counts@.len() == old(counts)@.len(),
            flags@.len() == spurs@.len(),
            counts@.len() == spurs@.len(),
            above@.len() == spurs@.len(),
            forall|q: int| 0 <= q < search@.len() ==> #[trigger] search@[q] < spurs@.len(),
            forall|j: int, q: int| 0 <= j < q < search@.len() ==> search@[j] != search@[q],
            forall|b: int|
                0 <= b < spurs@.len() && !search@.take(k as int).contains(b as usize)
                    ==> #[trigger] counts@[b] == old(counts)@[b] && flags@[b] == spurs@[b],
            forall|q: int|
                0 <= q < k ==> {
                    let b = #[trigger] search@[q] as int;
                    &&& counts@[b] == spur_count_next(old(counts)@[b], above@[b])
                    &&& flags@[b] == (counts@[b] >= spur_persistence_checks())
                },
            found == flagged_count(search@.take(k as int), flags@),
            found <= k,
        decreases search.len() - k,
    {
        let b = search[k];
        proof {
            assert(!search@.take(k as int).contains(b)) by {
                if search@.take(k as int).contains(b) {
                    let j = choose|j: int| 0 <= j < k && search@.take(k as int)[j] == b;
                    assert(search@[j] == search@[k as int]);
                }
            }
        }
        let c = counts[b];
        let nc: u8 = if above[b] {
            if c == 255 {
                255
            } else {
                c + 1
            }
        } else {
            0
        };
        let ghost old_flags = flags@;
        let ghost old_counts = counts@;
        counts.set(b, nc);
        let is_spur = nc >= 10;
        flags.set(b, is_spur);
        proof {
            let t = search@.take(k as int);
            assert(search@.take(k + 1).drop_last() =~= t);
            assert forall|j: int| 0 <= j < t.len() implies flags@[t[j] as int] == old_flags[t[j]
                as int] by {
                assert(t[j] == search@[j]);
            }
            lemma_flagged_count_frame(t, old_flags, flags@);
            assert forall|x: int|
                0 <= x < spurs@.len() && !#[trigger] search@.take(k + 1).contains(
                    x as usize,
                ) implies !t.contains(x as usize) && x != b as int by {
                if t.contains(x as usize) {
                    let j = choose|j: int| 0 <= j < t.len() && t[j] == x as usize;
                    assert(search@.take(k + 1)[j] == x as usize);
                }
                assert(search@.take(k + 1)[k as int] == b);
            }
            assert forall|x: int|
                0 <= x < spurs@.len() && !search@.take(k + 1).contains(
                    x as usize,
                ) implies #[trigger] counts@[x] == old(counts)@[x] && flags@[x] == spurs@[x] by {
                assert(!t.contains(x as usize) && x != b as int);
                assert(old_counts[x] == old(counts)@[x]);
            }
        }
        if is_spur {
            found = found + 1;
        }
        k = k + 1;
    }
    assert(search@.take(search@.len() as int) =~= search@);
    assert forall|x: int|
        0 <= x < spurs@.len() && !search@.contains(x as usize) implies #[trigger] counts@[x] == old(
        counts,
    )@[x] && flags@[x] == spurs@[x] by {
        assert(search@.take(k as int) =~= search@);
        assert(!search@.take(k as int).contains(x as usize));
    }
    (flags, found)
}

/// The guided-search state after `k` frames without lock while a satellite
/// is expected.
pub open spec fn guided_after_unlocked_frames(
    s: GuidedSearchState,
    k: nat,
    timeout_frames: usize,
) -> GuidedSearchState
    decreases k,
{
    if k == 0 {
        s
    } else {
        guided_search_next(
            guided_after_unlocked_frames(s, (k - 1) as nat, timeout_frames),
            true,
            false,
            timeout_frames,
        )
    }
}

/// From the start of a pass, guided search falls back to unguided mode
/// exactly when more than `timeout_frames` consecutive frames pass without
/// lock.
pub proof fn law_fallback_after_timeout(k: nat, timeout_frames: usize)
    requires
        k < usize::MAX,
    ensures
        guided_after_unlocked_frames(
            GuidedSearchState { unlocked_frames_during_pass: 0, fallback_to_unguided: false },
            k,
            timeout_frames,
        ) == (GuidedSearchState {
            unlocked_frames_during_pass: k as usize,
            fallback_to_unguided: k > timeout_frames,
        }),
    decreases k,
{
    if k > 0 {
        law_fallback_after_timeout((k - 1) as nat, timeout_frames);
    }
}

/// A locked frame clears the unlocked count and keeps the search mode; a
/// frame with no satellite expected clears the count and restores guided
/// search.
pub proof fn law_lock_and_loss_of_view_reset(s: GuidedSearchState, timeout_frames: usize)
    ensures
        guided_search_next(s, true, true, timeout_frames).unlocked_frames_during_pass == 0,
        guided_search_next(s, true, true, timeout_frames).fallback_to_unguided
            == s.fallback_to_unguided,
        guided_search_next(s, false, true, timeout_frames) == (GuidedSearchState {
            unlocked_frames_during_pass: 0,
            fallback_to_unguided: false,
        }),
        guided_search_next(s, false, false, timeout_frames) == (GuidedSearchState {
            unlocked_frames_during_pass: 0,
            fallback_to_unguided: false,
        }),
{
}

/// Every selection step keeps a consistent bank consistent: it coasts only
/// on an active tracker and never past `max_fade_steps`.
pub proof fn law_bank_stays_consistent(s: BankFadeState, best: Option<usize>)
    requires
        bank_consistent(s),
        s.fade_counter < usize::MAX,
    ensures
        bank_consistent(bank_next(s, best)),
{
}

/// The bank after `k` selection steps without any locked tracker.
pub open spec fn bank_after_fade_steps(s: BankFadeState, k: nat) -> BankFadeState
    decreases k,
{
    if k == 0 {
        s
    } else {
        bank_next(bank_after_fade_steps(s, (k - 1) as nat), None)
    }
}

/// After a tracker locks, the bank coasts on it for `max_fade_steps` steps
/// without lock and reports unlock on the next one.
pub proof fn law_fade_ride_through_bounded(s: BankFadeState, i: usize, k: nat)
    requires
        k <= s.max_fade_steps,
    ensures
        bank_report(bank_after_fade_steps(bank_next(s, Some(i)), k), None) == (if k
            < s.max_fade_steps {
            BankReport::Coast(i)
        } else {
            BankReport::Unlock
        }),
        bank_after_fade_steps(bank_next(s, Some(i)), k).active_idx == Some(i),
        bank_after_fade_steps(bank_next(s, Some(i)), k).fade_counter == k,
        bank_after_fade_steps(bank_next(s, Some(i)), k).max_fade_steps == s.max_fade_steps,
    decreases k,
{
    if k > 0 {
        law_fade_ride_through_bounded(s, i, (k - 1) as nat);
    }
}

/// The clock is stepped at most once: after a step attempt, successful or
/// not, the loop is synchronized and no later request chooses a step.
pub proof fn law_step_at_most_once(
    succeeded: bool,
    enable_steering: bool,
    shm_unit: Option<usize>,
    offset_exceeds_step_threshold: bool,
)
    ensures
        steering_action_spec(
            enable_steering,
            shm_unit,
            steering_effects_spec(SteeringAction::StepClock, succeeded).synchronized,
            offset_exceeds_step_threshold,
        ) != SteeringAction::StepClock,
{
}

/// Every steering request, whatever its action and outcome, leaves the loop
/// synchronized.
pub proof fn law_every_request_synchronizes(action: SteeringAction, succeeded: bool)
    ensures
        steering_effects_spec(action, succeeded).synchronized,
{
}

/// While a satellite is expected the fallback to unguided search is never
/// undone, and it is only taken on a frame without lock that brings the
/// unlocked count past the timeout.
pub proof fn law_fallback_sticky_while_expected(
    s: GuidedSearchState,
    is_tracking: bool,
    timeout_frames: usize,
)
    requires
        s.unlocked_frames_during_pass < usize::MAX,
    ensures
        s.fallback_to_unguided ==> guided_search_next(
            s,
            true,
            is_tracking,
            timeout_frames,
        ).fallback_to_unguided,
        guided_search_next(s, true, is_tracking, timeout_frames).fallback_to_unguided
            ==> s.fallback_to_unguided || (!is_tracking && s.unlocked_frames_during_pass + 1
            > timeout_frames),
{
}

/// What a steering request does to the update stamp and the step record:
/// a successful segment write, slew or dry run stamps the update time; a
/// successful step clears it and is the only action recorded as stepped; a
/// failed segment write or step keeps the stamp.
pub proof fn law_steering_stamps(action: SteeringAction, succeeded: bool)
    ensures
        succeeded && !(action is StepClock) ==> steering_effects_spec(action, succeeded).last_update
            == UpdateStamp::SetNow,
        succeeded && action is StepClock ==> steering_effects_spec(action, succeeded).last_update
            == UpdateStamp::Clear,
        !succeeded && (action is StepClock || action is WriteShm) ==> steering_effects_spec(
            action,
            succeeded,
        ).last_update == UpdateStamp::Keep,
        steering_effects_spec(action, succeeded).stepped <==> (succeeded && action is StepClock),
{
}

} // verus!
