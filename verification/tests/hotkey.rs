use voxable::hotkey::{release_action, ReleaseAction, HOLD_THRESHOLD_MS};

#[test]
fn a_tap_leaves_dictation_running() {
    // Hands-free: press starts, quick release changes nothing, next press stops.
    assert_eq!(release_action(true, 40), ReleaseAction::Nothing);
    assert_eq!(release_action(true, 299), ReleaseAction::Nothing);
}

#[test]
fn a_hold_stops_on_release() {
    assert_eq!(release_action(true, 300), ReleaseAction::Stop);
    assert_eq!(release_action(true, 2_500), ReleaseAction::Stop);
}

#[test]
fn the_threshold_itself_counts_as_a_hold() {
    assert_eq!(release_action(true, HOLD_THRESHOLD_MS), ReleaseAction::Stop);
    assert_eq!(
        release_action(true, HOLD_THRESHOLD_MS - 1),
        ReleaseAction::Nothing
    );
}

#[test]
fn releasing_after_a_press_that_stopped_dictation_does_nothing() {
    // Tapping to end a hands-free dictation: the release must neither restart it
    // nor stop it again, however long the key was down.
    assert_eq!(release_action(false, 10), ReleaseAction::Nothing);
    assert_eq!(release_action(false, 5_000), ReleaseAction::Nothing);
}

#[test]
fn a_zero_length_press_is_a_tap() {
    // Some taps report 0ms; treating that as a hold would start and immediately
    // stop dictation, leaving an empty recording.
    assert_eq!(release_action(true, 0), ReleaseAction::Nothing);
}

#[test]
fn a_long_hold_after_a_stopping_press_still_does_nothing() {
    assert_eq!(release_action(false, u64::MAX), ReleaseAction::Nothing);
    assert_eq!(release_action(true, u64::MAX), ReleaseAction::Stop);
}
