use grimvault::autosave::{Activity, Autosave, AutosaveState, Gate, Pending, Verdict, QUIET, RETRY};
use grimvault::documents::FileStamp;
use grimvault::ui_state::{accepts, Debounce, Debounced, FORMAT_TAG, FORMAT_VERSION};
use grimvault::watch::{Observation, RefreshTracker};

fn stamp(size: u64, seconds: i128) -> FileStamp {
    FileStamp::synthetic(size, seconds * 1_000_000_000)
}

#[test]
fn a_change_is_believed_only_on_the_second_identical_poll() {
    let mut tracker = RefreshTracker::default();
    let path = "/saves/transfer.gst";
    let ours = Some(stamp(10, 100));
    let theirs = Some(stamp(12, 200));
    assert_eq!(tracker.observe(path, ours, ours), Observation::Unchanged);
    assert_eq!(tracker.observe(path, theirs, ours), Observation::Settling);
    assert_eq!(tracker.observe(path, theirs, ours), Observation::Settled);
    assert_eq!(tracker.observe(path, theirs, ours), Observation::Settled);
}

#[test]
fn a_still_moving_file_keeps_settling() {
    let mut tracker = RefreshTracker::default();
    let path = "/saves/transfer.gst";
    let ours = Some(stamp(10, 100));
    assert_eq!(tracker.observe(path, Some(stamp(12, 200)), ours), Observation::Settling);
    assert_eq!(tracker.observe(path, Some(stamp(14, 201)), ours), Observation::Settling);
    assert_eq!(tracker.observe(path, Some(stamp(14, 201)), ours), Observation::Settled);
}

#[test]
fn unreachable_and_matching_observations_reset_corroboration() {
    let mut tracker = RefreshTracker::default();
    let path = "/saves/transfer.gst";
    let ours = Some(stamp(10, 100));
    let theirs = Some(stamp(12, 200));
    assert_eq!(tracker.observe(path, theirs, ours), Observation::Settling);
    assert_eq!(tracker.observe(path, None, ours), Observation::Unreachable);
    assert_eq!(tracker.observe(path, theirs, ours), Observation::Settling);
    assert_eq!(tracker.observe(path, ours, ours), Observation::Unchanged);
    assert_eq!(tracker.observe(path, theirs, ours), Observation::Settling);
    tracker.forget(path);
    assert_eq!(tracker.observe(path, theirs, ours), Observation::Settling);
}

#[test]
fn a_file_that_appears_where_none_was_is_a_change() {
    let mut tracker = RefreshTracker::default();
    let path = "/cfg/vault-store.json";
    let theirs = Some(stamp(3, 300));
    assert_eq!(tracker.observe(path, None, None), Observation::Unreachable);
    assert_eq!(tracker.observe(path, theirs, None), Observation::Settling);
    assert_eq!(tracker.observe(path, theirs, None), Observation::Settled);
}

#[test]
fn each_path_settles_on_its_own() {
    let mut tracker = RefreshTracker::default();
    let ours = Some(stamp(10, 100));
    let theirs = Some(stamp(12, 200));
    assert_eq!(tracker.observe("/a", theirs, ours), Observation::Settling);
    assert_eq!(tracker.observe("/b", theirs, ours), Observation::Settling);
    tracker.forget("/b");
    assert_eq!(tracker.observe("/a", theirs, ours), Observation::Settled);
    assert_eq!(tracker.observe("/b", theirs, ours), Observation::Settling);
}

const START: u64 = 1_000_000;

#[test]
fn nothing_pending_is_idle_and_reads_saved() {
    let mut clock = Autosave::default();
    assert_eq!(clock.observe(Pending::Nothing, Activity::Idle, Gate::Open, START), Verdict::Idle);
    assert_eq!(clock.state(Pending::Nothing, Gate::Open), AutosaveState::Saved);
}

#[test]
fn edits_flush_after_the_quiet_period() {
    let mut clock = Autosave::default();
    assert_eq!(clock.observe(Pending::Edits, Activity::Idle, Gate::Open, START), Verdict::Wait(QUIET));
    assert_eq!(clock.state(Pending::Edits, Gate::Open), AutosaveState::Unsaved);
    assert_eq!(
        clock.observe(Pending::Edits, Activity::Idle, Gate::Open, START + QUIET / 2),
        Verdict::Wait(QUIET / 2)
    );
    assert_eq!(clock.observe(Pending::Edits, Activity::Idle, Gate::Open, START + QUIET), Verdict::Flush);
    clock.flushed();
    assert_eq!(clock.observe(Pending::Nothing, Activity::Idle, Gate::Open, START + QUIET), Verdict::Idle);
}

#[test]
fn a_gesture_in_flight_pushes_the_deadline() {
    let mut clock = Autosave::default();
    clock.observe(Pending::Edits, Activity::Idle, Gate::Open, START);
    assert_eq!(clock.observe(Pending::Edits, Activity::Busy, Gate::Open, START + QUIET), Verdict::Wait(QUIET));
    let almost = QUIET * 2 - 1;
    assert_eq!(clock.observe(Pending::Edits, Activity::Idle, Gate::Open, START + almost), Verdict::Wait(1));
    assert_eq!(clock.observe(Pending::Edits, Activity::Idle, Gate::Open, START + QUIET * 2), Verdict::Flush);
}

#[test]
fn a_failed_flush_retries_later_and_reads_saving() {
    let mut clock = Autosave::default();
    clock.observe(Pending::Edits, Activity::Idle, Gate::Open, START);
    assert_eq!(clock.observe(Pending::Edits, Activity::Idle, Gate::Open, START + QUIET), Verdict::Flush);
    assert_eq!(clock.flush_failed(START + QUIET), RETRY);
    assert_eq!(clock.state(Pending::Edits, Gate::Open), AutosaveState::Saving);
    assert_eq!(
        clock.observe(Pending::Edits, Activity::Idle, Gate::Open, START + QUIET + RETRY / 2),
        Verdict::Wait(RETRY / 2)
    );
    assert_eq!(
        clock.observe(Pending::Edits, Activity::Idle, Gate::Open, START + QUIET + RETRY),
        Verdict::Flush
    );
}

#[test]
fn a_gesture_never_shortens_a_retry_backoff() {
    let mut clock = Autosave::default();
    clock.flush_failed(START);
    assert_eq!(clock.observe(Pending::Edits, Activity::Busy, Gate::Open, START), Verdict::Wait(RETRY));
    assert_eq!(clock.observe(Pending::Edits, Activity::Idle, Gate::Open, START + RETRY), Verdict::Flush);
}

#[test]
fn a_suspended_gate_stops_the_clock_and_reads_suspended() {
    let mut clock = Autosave::default();
    clock.observe(Pending::Edits, Activity::Idle, Gate::Open, START);
    assert_eq!(clock.observe(Pending::Edits, Activity::Idle, Gate::Suspended, START + QUIET), Verdict::Idle);
    assert_eq!(clock.state(Pending::Edits, Gate::Suspended), AutosaveState::Suspended);
    assert_eq!(clock.observe(Pending::Edits, Activity::Idle, Gate::Open, START + QUIET), Verdict::Wait(QUIET));
}

#[test]
fn the_autosave_states_name_themselves() {
    assert_eq!(AutosaveState::Saved.label(), "saved");
    assert_eq!(AutosaveState::Suspended.label(), "suspended: external change");
}

#[test]
fn foreign_newer_and_malformed_files_are_ignored() {
    assert!(!accepts("grimvault-store", 1));
    assert!(!accepts("grimvault-ui-state", 2));
    assert!(accepts(FORMAT_TAG, FORMAT_VERSION));
    assert!(accepts("grimvault-ui-state", 0));
    assert!(!accepts("", 1));
}

#[test]
fn a_change_is_written_only_after_it_holds_still() {
    let mut debounce = Debounce::new();
    assert_eq!(debounce.observe(false, START), Debounced::Idle);
    assert_eq!(debounce.observe(true, START), Debounced::Wait(1000));
    assert_eq!(debounce.observe(true, START + 500), Debounced::Wait(500));
    assert_eq!(debounce.observe(true, START + 1000), Debounced::Write);
    assert_eq!(debounce.observe(true, START + 1000), Debounced::Wait(1000));
    assert_eq!(debounce.observe(false, START + 1200), Debounced::Idle);
    assert_eq!(debounce.observe(true, START + 3000), Debounced::Wait(1000));
    assert_eq!(debounce.observe(true, START + 4000), Debounced::Write);
}

#[test]
fn flush_writes_without_waiting() {
    let mut debounce = Debounce::new();
    assert_eq!(debounce.observe(true, START), Debounced::Wait(1000));
    assert!(debounce.flush(true));
    assert_eq!(debounce.pending_since, None);
    assert!(!debounce.flush(false));
}

#[test]
fn a_reopened_gate_restarts_the_quiet_period() {
    let mut clock = Autosave::default();
    assert_eq!(clock.observe(Pending::Edits, Activity::Idle, Gate::Open, 1_000), Verdict::Wait(QUIET));
    assert_eq!(clock.observe(Pending::Edits, Activity::Idle, Gate::Suspended, u64::MAX), Verdict::Idle);
    assert_eq!(clock.observe(Pending::Edits, Activity::Idle, Gate::Open, 5_000), Verdict::Wait(QUIET));
}

#[test]
fn a_promised_wait_is_kept() {
    let mut clock = Autosave::default();
    clock.observe(Pending::Edits, Activity::Idle, Gate::Open, 0);
    let wait = match clock.observe(Pending::Edits, Activity::Busy, Gate::Open, 300) {
        Verdict::Wait(wait) => wait,
        other => panic!("expected a wait, got {other:?}"),
    };
    assert_eq!(wait, QUIET);
    assert_eq!(clock.observe(Pending::Edits, Activity::Idle, Gate::Open, 300 + wait), Verdict::Flush);
    clock.flushed();
    assert_eq!(clock.state(Pending::Edits, Gate::Open), AutosaveState::Unsaved);
    assert_eq!(clock.observe(Pending::Edits, Activity::Idle, Gate::Open, 2_000), Verdict::Wait(QUIET));
}
