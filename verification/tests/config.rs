use voxable::config::{
    add_dictionary_entry, add_snippet, config_dir_in, config_path, default_hotkey, history_audio_dir,
    history_dir, join, model_info, model_path, remove_dictionary_entry, remove_snippet,
    DictEntry, Platform, Snippet,
};

#[test]
fn history_dirs_nested() {
    assert!(history_audio_dir().ends_with("history/audio"));
    assert!(history_dir().ends_with("history"));
}

#[test]
fn model_info_known() {
    assert_eq!(model_info("base").0, "ggml-base.bin");
}

#[test]
fn model_info_for_every_known_model_and_an_unknown_one() {
    assert_eq!(model_info("tiny"), ("ggml-tiny.bin".to_string(), "39MB".to_string()));
    assert_eq!(model_info("small"), ("ggml-small.bin".to_string(), "244MB".to_string()));
    assert_eq!(model_info("medium"), ("ggml-medium.bin".to_string(), "769MB".to_string()));
    assert_eq!(model_info("large-v3"), ("ggml-large-v3.bin".to_string(), "1.5GB".to_string()));
    assert_eq!(model_info("custom.bin"), ("custom.bin".to_string(), "?".to_string()));
}

#[test]
fn model_path_ends_with_the_model_file() {
    assert!(model_path("base").ends_with("voxable/models/ggml-base.bin"));
}

#[test]
fn default_hotkey_by_platform() {
    assert_eq!(default_hotkey(Platform::MacOs), "Fn");
    assert_eq!(default_hotkey(Platform::Windows), "Win+Alt+Space");
    assert_eq!(default_hotkey(Platform::Other), "Win+Alt+Space");
}

#[test]
fn joining_paths() {
    assert_eq!(join('/', "/home/a/.config", "voxable"), "/home/a/.config/voxable");
    assert_eq!(join('/', "/home/a/", "voxable"), "/home/a/voxable");
    assert_eq!(join('/', "", "voxable"), "voxable");
    assert_eq!(join('/', "/home/a", "/etc"), "/etc");
    assert_eq!(join('/', "C:\\x", "voxable"), "C:\\x/voxable");
    assert_eq!(config_dir_in('/', None), "./voxable");
    assert_eq!(config_dir_in('/', Some("/cfg")), "/cfg/voxable");
}

#[test]
fn joining_paths_with_the_windows_separator() {
    assert_eq!(
        join('\\', "C:\\Users\\a\\AppData\\Roaming", "voxable"),
        "C:\\Users\\a\\AppData\\Roaming\\voxable"
    );
    assert_eq!(join('\\', "C:\\Users\\", "voxable"), "C:\\Users\\voxable");
    assert_eq!(join('\\', "C:/Users/", "voxable"), "C:/Users/voxable");
    assert_eq!(join('\\', "x", "\\etc"), "\\etc");
    assert_eq!(config_dir_in('\\', None), ".\\voxable");
}

#[test]
fn paths_use_the_platform_separator() {
    let sep = std::path::MAIN_SEPARATOR;
    assert!(history_dir().ends_with(&format!("voxable{sep}history")));
    assert!(config_path().ends_with(&format!("voxable{sep}settings.json")));
}

fn entry(word: &str, replacement: &str) -> DictEntry {
    DictEntry { word: word.into(), replacement: replacement.into() }
}

#[test]
fn adding_a_dictionary_entry_trims_and_replaces_by_word() {
    let mut dict = vec![entry("voxable", "Voxable"), entry("llm", "LLM")];
    assert_eq!(add_dictionary_entry(&mut dict, "  llm ", "L.L.M.".into()), Ok(()));
    assert_eq!(dict, vec![entry("voxable", "Voxable"), entry("llm", "L.L.M.")]);
    assert_eq!(add_dictionary_entry(&mut dict, "tauri", "Tauri".into()), Ok(()));
    assert_eq!(dict.len(), 3);
    assert_eq!(dict[2], entry("tauri", "Tauri"));
}

#[test]
fn a_blank_dictionary_word_is_refused() {
    let mut dict = vec![entry("voxable", "Voxable")];
    assert_eq!(
        add_dictionary_entry(&mut dict, "   ", "x".into()),
        Err("Word cannot be empty".to_string())
    );
    assert_eq!(dict, vec![entry("voxable", "Voxable")]);
}

#[test]
fn removing_a_dictionary_word_drops_every_copy() {
    let mut dict = vec![entry("a", "1"), entry("b", "2"), entry("a", "3")];
    remove_dictionary_entry(&mut dict, "a");
    assert_eq!(dict, vec![entry("b", "2")]);
    remove_dictionary_entry(&mut dict, "missing");
    assert_eq!(dict, vec![entry("b", "2")]);
}

fn snip(trigger: &str, expansion: &str) -> Snippet {
    Snippet { trigger: trigger.into(), expansion: expansion.into() }
}

#[test]
fn snippets_are_added_replaced_and_removed_by_trigger() {
    let mut snippets = Vec::new();
    assert_eq!(add_snippet(&mut snippets, " brb ", "be right back".into()), Ok(()));
    assert_eq!(add_snippet(&mut snippets, "omw", "on my way".into()), Ok(()));
    assert_eq!(add_snippet(&mut snippets, "brb", "back soon".into()), Ok(()));
    assert_eq!(snippets, vec![snip("brb", "back soon"), snip("omw", "on my way")]);
    assert_eq!(
        add_snippet(&mut snippets, "", "x".into()),
        Err("Trigger cannot be empty".to_string())
    );
    remove_snippet(&mut snippets, "brb");
    assert_eq!(snippets, vec![snip("omw", "on my way")]);
}
