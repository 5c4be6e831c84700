use voxable::capture::{forced_language, model_loaded, transcript_from_segments};
use voxable::config::Platform;
use voxable::desktop::{microphone_status_name, paste_outcome, platform_name, privacy_pane_url};
use voxable::hotkey::{fn_key_edge, hotkeys_match, FnEdge, FN_FLAG_MASK};
use voxable::update::browser_command;

#[test]
fn fn_key_press_and_release_fire_once_each() {
    let other_modifier = 0x0002_0000u64;
    let (down, edge) = fn_key_edge(false, FN_FLAG_MASK);
    assert!(down);
    assert_eq!(edge, FnEdge::Pressed);
    // Another modifier changing while Fn is held is not a second press.
    assert_eq!(fn_key_edge(true, FN_FLAG_MASK | other_modifier), (true, FnEdge::Unchanged));
    assert_eq!(fn_key_edge(true, other_modifier), (false, FnEdge::Released));
    assert_eq!(fn_key_edge(false, other_modifier), (false, FnEdge::Unchanged));
    assert_eq!(fn_key_edge(false, 0), (false, FnEdge::Unchanged));
}

#[test]
fn hotkeys_compare_ignoring_ascii_case() {
    assert!(hotkeys_match("Ctrl+Alt+Space", "ctrl+alt+SPACE"));
    assert!(hotkeys_match("fn", "FN"));
    assert!(!hotkeys_match("Ctrl+Alt+Space", "Ctrl+Alt+Spac"));
    assert!(!hotkeys_match("Ctrl+K", "Ctrl+J"));
    assert!(hotkeys_match("", ""));
}

#[test]
fn platform_strings() {
    assert_eq!(platform_name(Platform::MacOs), "macos");
    assert_eq!(platform_name(Platform::Windows), "windows");
    assert_eq!(platform_name(Platform::Other), "other");
    assert_eq!(browser_command(Platform::MacOs), "open");
    assert_eq!(browser_command(Platform::Windows), "explorer");
    assert_eq!(browser_command(Platform::Other), "xdg-open");
}

#[test]
fn microphone_status_codes() {
    assert_eq!(microphone_status_name(0), "not-determined");
    assert_eq!(microphone_status_name(1), "restricted");
    assert_eq!(microphone_status_name(2), "denied");
    assert_eq!(microphone_status_name(3), "granted");
    assert_eq!(microphone_status_name(4), "unknown");
    assert_eq!(microphone_status_name(-1), "unknown");
}

#[test]
fn privacy_pane_urls() {
    assert_eq!(
        privacy_pane_url("Privacy_Microphone"),
        "x-apple.systempreferences:com.apple.preference.security?Privacy_Microphone"
    );
    assert_eq!(
        privacy_pane_url("keyboard"),
        "x-apple.systempreferences:com.apple.Keyboard-Settings.extension"
    );
}

#[test]
fn segments_join_into_a_trimmed_transcript() {
    let segs = vec![" Hello there.".to_string(), " How are you?".to_string()];
    assert_eq!(transcript_from_segments(&segs), "Hello there.  How are you?");
    assert_eq!(transcript_from_segments(&[]), "");
    assert_eq!(transcript_from_segments(&["   ".to_string()]), "");
}

#[test]
fn language_and_model_reuse() {
    assert!(!forced_language("auto"));
    assert!(forced_language("en"));
    assert!(model_loaded(Some("base"), true, "base"));
    assert!(!model_loaded(Some("base"), false, "base"));
    assert!(!model_loaded(Some("small"), true, "base"));
    assert!(!model_loaded(None, true, "base"));
}

#[test]
fn a_paste_needs_every_keystroke_delivered() {
    assert_eq!(paste_outcome(4, 4), Ok(()));
    assert_eq!(paste_outcome(3, 4), Err("SendInput did not deliver all keystrokes".to_string()));
    assert_eq!(paste_outcome(0, 4), Err("SendInput did not deliver all keystrokes".to_string()));
}
