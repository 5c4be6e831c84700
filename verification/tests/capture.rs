use voxable::capture::{
    download_truncated, duration_ms, long_enough_to_transcribe, model_url, reached_max_duration,
    should_report_progress,
};
use voxable::desktop::{hide_hours, noactivate_style, privacy_anchor, window_title};
use voxable::hotkey::{effective_hotkey, fn_key_supported, is_fn_key, migrated_hotkey};
use voxable::config::Platform;
use voxable::clock::is_hidden_now;
use voxable::snippets::prepare_for_cleanup;
use voxable::config::{DictEntry, Snippet};

#[test]
fn durations_and_caps() {
    assert_eq!(duration_ms(0), 0);
    assert_eq!(duration_ms(16_000), 1000);
    assert_eq!(duration_ms(15_999), 999);
    assert!(!reached_max_duration(1_919_999));
    assert!(reached_max_duration(1_920_000));
    assert!(!long_enough_to_transcribe(3_999));
    assert!(long_enough_to_transcribe(4_000));
}

#[test]
fn model_downloads() {
    assert_eq!(
        model_url("ggml-base.bin"),
        "https://huggingface.co/ggerganov/whisper.cpp/resolve/main/ggml-base.bin"
    );
    assert!(download_truncated(10, 11));
    assert!(!download_truncated(11, 11));
    assert!(!download_truncated(5, 0));
    assert!(!should_report_progress(3_999_999, 0));
    assert!(should_report_progress(8_000_000, 4_000_000));
}

#[test]
fn desktop_decisions() {
    assert_eq!(window_title("  Notes — Draft \n"), Some("Notes — Draft".into()));
    assert_eq!(window_title("   "), None);
    assert_eq!(noactivate_style(0x10), 0x0800_0090);
    assert_eq!(privacy_anchor("microphone"), "Privacy_Microphone");
    assert_eq!(privacy_anchor("input-monitoring"), "Privacy_ListenEvent");
    assert_eq!(privacy_anchor("keyboard"), "keyboard");
    assert_eq!(privacy_anchor("anything"), "Privacy_Accessibility");
    assert_eq!(hide_hours(0), 1);
    assert_eq!(hide_hours(3), 3);
}

#[test]
fn hotkey_decisions() {
    assert!(is_fn_key("fn"));
    assert!(is_fn_key("FN"));
    assert!(!is_fn_key("fn+a"));
    assert_eq!(effective_hotkey(""), "Super+Alt+Space");
    assert_eq!(effective_hotkey("Ctrl+K"), "Ctrl+K");
    assert_eq!(migrated_hotkey(Platform::MacOs, false, "Super+Alt+Space"), Some("Fn"));
    assert_eq!(migrated_hotkey(Platform::MacOs, true, "Super+Alt+Space"), None);
    assert_eq!(migrated_hotkey(Platform::Windows, false, "Super+Alt+Space"), None);
    assert!(fn_key_supported(Platform::MacOs));
    assert!(!fn_key_supported(Platform::Other));
}

#[test]
fn hidden_until_a_future_time() {
    let now = (1_788_955_200, 0);
    assert!(is_hidden_now(Some("2026-09-09T13:00:00Z"), now));
    assert!(!is_hidden_now(Some("2026-09-09T12:00:00Z"), now));
    assert!(is_hidden_now(Some("2026-09-09T12:00:00.001Z"), now));
    assert!(!is_hidden_now(Some("soon"), now));
    assert!(!is_hidden_now(None, now));
}

#[test]
fn cleanup_input_is_corrected_then_expanded() {
    let dict = vec![DictEntry { word: "Commie Gmail".into(), replacement: "kami gmail".into() }];
    let snips = vec![Snippet { trigger: "kami gmail".into(), expansion: "hello@kamicrafted.com".into() }];
    assert_eq!(
        prepare_for_cleanup("send it to Commie Gmail", &dict, &snips),
        Ok("send it to hello@kamicrafted.com".to_string())
    );
    assert_eq!(
        prepare_for_cleanup("  \n", &dict, &snips),
        Err("No transcript to clean up".to_string())
    );
}
