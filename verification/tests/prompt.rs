use voxable::config::{DictEntry, Snippet};
use voxable::prompt::{
    build_dictionary_prompt, build_whisper_vocabulary, get_cleanup_prompt, WHISPER_VOCAB_CHARS,
};

#[test]
fn vocabulary_is_empty_without_entries() {
    assert_eq!(build_whisper_vocabulary(&[], &[]), "");
}

#[test]
fn vocabulary_uses_the_replacement_not_the_misheard_word() {
    // The left-hand side is whatever Whisper got wrong; priming it with that would
    // teach the decoder the mistake.
    let dict = vec![DictEntry {
        word: "kahmeecrafted".into(),
        replacement: "Kamicrafted".into(),
    }];
    let out = build_whisper_vocabulary(&dict, &[]);
    assert!(out.contains("Kamicrafted"));
    assert!(!out.contains("kahmeecrafted"));
}

#[test]
fn vocabulary_includes_snippet_triggers() {
    // Expansion is a text match, so a trigger Whisper mishears never fires.
    let snips = vec![Snippet {
        trigger: "kami gmail".into(),
        expansion: "hello@kamicrafted.com".into(),
    }];
    assert!(build_whisper_vocabulary(&[], &snips).contains("kami gmail"));
}

#[test]
fn vocabulary_reads_as_a_sentence() {
    let dict = vec![DictEntry {
        word: "a".into(),
        replacement: "Voxable".into(),
    }];
    assert_eq!(build_whisper_vocabulary(&dict, &[]), "Glossary: Voxable.");
}

#[test]
fn vocabulary_deduplicates_case_insensitively() {
    let dict = vec![DictEntry {
        word: "x".into(),
        replacement: "Voxable".into(),
    }];
    let snips = vec![Snippet {
        trigger: "voxable".into(),
        expansion: "y".into(),
    }];
    assert_eq!(build_whisper_vocabulary(&dict, &snips), "Glossary: Voxable.");
}

#[test]
fn vocabulary_stops_at_a_whole_term_not_mid_word() {
    let dict: Vec<DictEntry> = (0..60)
        .map(|i| DictEntry {
            word: format!("w{i}"),
            replacement: format!("Supercalifragilistic{i}"),
        })
        .collect();
    let out = build_whisper_vocabulary(&dict, &[]);
    assert!(out.len() <= WHISPER_VOCAB_CHARS + "Glossary: .".len());
    // No trailing fragment: the last term before the period is complete.
    let body = out
        .trim_start_matches("Glossary: ")
        .trim_end_matches('.');
    for term in body.split(", ") {
        assert!(
            dict.iter().any(|d| d.replacement == term),
            "truncated term: {term}"
        );
    }
}

#[test]
fn vocabulary_skips_blank_entries() {
    let dict = vec![DictEntry {
        word: "x".into(),
        replacement: "   ".into(),
    }];
    assert_eq!(build_whisper_vocabulary(&dict, &[]), "");
}

#[test]
fn vocabulary_trims_and_counts_bytes_not_characters() {
    let dict = vec![
        DictEntry { word: "a".into(), replacement: "  Über  ".into() },
        DictEntry { word: "b".into(), replacement: "ÜBER".into() },
    ];
    assert_eq!(build_whisper_vocabulary(&dict, &[]), "Glossary: Über.");
    // 110 two-byte characters are 220 bytes: the term fits exactly.
    let wide = "é".repeat(110);
    let dict = vec![DictEntry { word: "w".into(), replacement: wide.clone() }];
    assert_eq!(build_whisper_vocabulary(&dict, &[]), format!("Glossary: {wide}."));
    // One more and nothing fits.
    let wider = "é".repeat(111);
    let dict = vec![DictEntry { word: "w".into(), replacement: wider }];
    assert_eq!(build_whisper_vocabulary(&dict, &[]), "");
}

#[test]
fn vocabulary_stops_at_the_first_term_that_does_not_fit() {
    let long = "x".repeat(219);
    let dict = vec![
        DictEntry { word: "a".into(), replacement: long.clone() },
        DictEntry { word: "b".into(), replacement: "yy".into() },
        DictEntry { word: "c".into(), replacement: "z".into() },
    ];
    // ", yy" does not fit after 219 bytes, and nothing after it is tried.
    assert_eq!(build_whisper_vocabulary(&dict, &[]), format!("Glossary: {long}."));
}

fn entry(word: &str, replacement: &str) -> DictEntry {
    DictEntry {
        word: word.into(),
        replacement: replacement.into(),
    }
}

#[test]
fn empty_dictionary_empty_prompt() {
    assert_eq!(build_dictionary_prompt(&[]), "");
}

#[test]
fn three_entries_correct_format() {
    let entries = vec![
        entry("voxable", "Voxable"),
        entry("llm", "LLM"),
        entry("tauri", "Tauri"),
    ];
    let prompt = build_dictionary_prompt(&entries);
    assert!(prompt.starts_with("Correct these terms exactly"));
    assert!(prompt.contains("- voxable → Voxable\n"));
    assert!(prompt.contains("- llm → LLM\n"));
    assert!(prompt.contains("- tauri → Tauri\n"));
    assert_eq!(prompt.matches('\n').count(), 4); // header + 3 lines
}

#[test]
fn capped_at_200_entries() {
    let entries: Vec<DictEntry> = (0..201).map(|i| entry(&i.to_string(), "x")).collect();
    let prompt = build_dictionary_prompt(&entries);
    assert!(prompt.contains("- 0 → x\n"));
    assert!(prompt.contains("- 199 → x\n"));
    assert!(!prompt.contains("- 200 → x\n"));
    // header + 200 lines = 201 newlines
    assert_eq!(prompt.matches('\n').count(), 201);
}

#[test]
fn dictionary_prompt_exact_text() {
    let prompt = build_dictionary_prompt(&[entry("a", "B")]);
    assert_eq!(
        prompt,
        "Correct these terms exactly when they appear (case-sensitive):\n- a → B\n"
    );
}

#[test]
fn cleanup_prompt_none_is_exact() {
    assert_eq!(
        get_cleanup_prompt("none"),
        "Return the input text exactly as-is. Do not change anything."
    );
}

#[test]
fn cleanup_prompt_levels_distinct() {
    let light = get_cleanup_prompt("light");
    let medium = get_cleanup_prompt("medium");
    let high = get_cleanup_prompt("high");
    assert_ne!(light, medium);
    assert_ne!(medium, high);
    assert_ne!(light, high);
    // Unknown level falls back to the medium prompt.
    assert_eq!(get_cleanup_prompt("bogus"), medium);
}

#[test]
fn cleanup_prompt_texts_are_exact() {
    assert_eq!(
        get_cleanup_prompt("light"),
        "Clean up the transcription lightly: fix obvious punctuation and capitalization\nonly. Do not rephrase, summarize, or remove content. Preserve the speaker's words."
    );
    assert!(get_cleanup_prompt("high").ends_with("Do not add information that was not spoken."));
    assert!(get_cleanup_prompt("").starts_with("Clean up the transcription: fix punctuation"));
}
