use voxable::config::{DictEntry, Snippet};
use voxable::snippets::{apply_dictionary, expand_snippets};

#[test]
fn a_dictionary_entry_corrects_what_whisper_typed() {
    let dict = vec![DictEntry {
        word: "Kamirafted".into(),
        replacement: "Kamicrafted".into(),
    }];
    assert_eq!(
        apply_dictionary("I work at Kamirafted today", &dict),
        "I work at Kamicrafted today"
    );
}

#[test]
fn dictionary_correction_is_case_insensitive_and_whole_word() {
    let dict = vec![DictEntry {
        word: "voxable".into(),
        replacement: "Voxable".into(),
    }];
    assert_eq!(apply_dictionary("VOXABLE is fine", &dict), "Voxable is fine");
    // Not a whole word: left alone.
    assert_eq!(apply_dictionary("voxables", &dict), "voxables");
}

#[test]
fn a_dictionary_entry_can_repair_a_snippet_trigger() {
    // The reason corrections run first: Whisper mishears the trigger, so the snippet
    // would never match on its own.
    let dict = vec![DictEntry {
        word: "Commie Gmail".into(),
        replacement: "kami gmail".into(),
    }];
    let snips = vec![Snippet {
        trigger: "kami gmail".into(),
        expansion: "hello@kamicrafted.com".into(),
    }];
    let corrected = apply_dictionary("send it to Commie Gmail", &dict);
    assert_eq!(
        expand_snippets(&corrected, &snips),
        "send it to hello@kamicrafted.com"
    );
}

#[test]
fn a_blank_side_is_skipped() {
    let dict = vec![
        DictEntry { word: "".into(), replacement: "x".into() },
        DictEntry { word: "y".into(), replacement: "  ".into() },
    ];
    assert_eq!(apply_dictionary("y and z", &dict), "y and z");
}

#[test]
fn a_dollar_sign_in_the_replacement_is_literal() {
    let dict = vec![DictEntry {
        word: "price".into(),
        replacement: "$5".into(),
    }];
    assert_eq!(apply_dictionary("the price", &dict), "the $5");
}

fn snip(trigger: &str, expansion: &str) -> Snippet {
    Snippet {
        trigger: trigger.into(),
        expansion: expansion.into(),
    }
}

#[test]
fn single_trigger_replaced() {
    let out = expand_snippets("say brb to them", &[snip("brb", "be right back")]);
    assert_eq!(out, "say be right back to them");
}

#[test]
fn multiple_triggers_order_independent() {
    let snippets = vec![snip("brb", "be right back"), snip("omw", "on my way")];
    // "omw" appears before "brb" in the text, after "brb" in the list.
    let out = expand_snippets("omw, then brb", &snippets);
    assert_eq!(out, "on my way, then be right back");
}

#[test]
fn case_insensitive_matching() {
    let out = expand_snippets("BRB and Brb", &[snip("brb", "be right back")]);
    assert_eq!(out, "be right back and be right back");
}

#[test]
fn word_boundary_no_partial_match() {
    let out = expand_snippets("the category is fine", &[snip("cat", "cat")]);
    assert_eq!(out, "the category is fine");
    // But a whole-word match still works.
    let out2 = expand_snippets("a cat sat", &[snip("cat", "kitten")]);
    assert_eq!(out2, "a kitten sat");
}

#[test]
fn empty_trigger_or_expansion_skipped() {
    let snippets = vec![snip("", "x"), snip("brb", "")];
    let out = expand_snippets("brb", &snippets);
    assert_eq!(out, "brb");
}

#[test]
fn dollar_in_expansion_is_literal() {
    let out = expand_snippets("cost: brb", &[snip("brb", "$5")]);
    assert_eq!(out, "cost: $5");
}

#[test]
fn regex_meta_characters_in_a_trigger_match_literally() {
    let out = expand_snippets("call c++ now", &[snip("c++", "C plus plus")]);
    // `\b` after `+` needs a word character next, which the space is not.
    assert_eq!(out, "call c++ now");
    let out = expand_snippets("use a.b here", &[snip("a.b", "ab")]);
    assert_eq!(out, "use ab here");
    let out = expand_snippets("use axb here", &[snip("a.b", "ab")]);
    assert_eq!(out, "use axb here");
}

#[test]
fn later_snippets_see_earlier_expansions() {
    let snippets = vec![snip("a", "b"), snip("b", "c")];
    assert_eq!(expand_snippets("a", &snippets), "c");
}

#[test]
fn snippet_triggers_are_not_trimmed_but_dictionary_words_are() {
    // The untrimmed trigger " brb" swallows the space before the word.
    assert_eq!(expand_snippets("say brb", &[snip(" brb", "x")]), "sayx");
    let dict = vec![DictEntry { word: " brb ".into(), replacement: " x ".into() }];
    assert_eq!(apply_dictionary("say brb", &dict), "say x");
}
