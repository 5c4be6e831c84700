use voxable::llm::cleaned_or_expanded;
use voxable::config::DictEntry;
use voxable::llm::{
    is_success_status, plan_cleanup, reply_from_content, reply_text, CleanupPlan, LlmRequest,
    LlmSettings,
};

fn settings(level: &str, custom: &str, url: &str, key: &str, model: &str) -> LlmSettings {
    LlmSettings {
        cleanup_level: level.into(),
        custom_prompt: custom.into(),
        llm_base_url: url.into(),
        llm_api_key: key.into(),
        llm_model: model.into(),
    }
}

#[test]
fn level_none_without_custom_prompt_skips_the_model() {
    let s = settings(" none ", "  ", "https://api.example/v1", "key", "m");
    assert_eq!(plan_cleanup(&s, "raw", &[], None), CleanupPlan::Unchanged("raw".into()));
}

#[test]
fn no_url_or_key_skips_the_model() {
    let s = settings("medium", "", "///", "key", "m");
    assert_eq!(plan_cleanup(&s, "raw", &[], None), CleanupPlan::Unchanged("raw".into()));
    let s = settings("medium", "", "https://api.example/v1", "  ", "m");
    assert_eq!(plan_cleanup(&s, "raw", &[], None), CleanupPlan::Unchanged("raw".into()));
}

#[test]
fn a_request_carries_the_preset_dictionary_and_app() {
    let s = settings("none", "  Be terse.  ", " https://api.example/v1// ", " key ", " ");
    let dict = vec![DictEntry { word: "vox".into(), replacement: "Vox".into() }];
    let plan = plan_cleanup(&s, "hello", &dict, Some("Mail"));
    assert_eq!(
        plan,
        CleanupPlan::Request(LlmRequest {
            url: "https://api.example/v1/chat/completions".into(),
            model: "gpt-4o-mini".into(),
            api_key: "key".into(),
            system_prompt: "Be terse.\n\nCorrect these terms exactly when they appear (case-sensitive):\n- vox → Vox\n\n\nContext: the user is dictating into the app \"Mail\". Use this only to disambiguate homophones/formatting; do not mention it in the output.".into(),
            user_text: "hello".into(),
        })
    );
}

#[test]
fn a_request_without_extras_is_the_level_prompt() {
    let s = settings("none", "", "https://api.example/v1", "k", "gpt-x");
    let s2 = settings("light", "", "https://api.example/v1", "k", "gpt-x");
    match plan_cleanup(&s2, "t", &[], Some("")) {
        CleanupPlan::Request(req) => {
            assert_eq!(req.model, "gpt-x");
            assert_eq!(req.system_prompt, voxable::prompt::get_cleanup_prompt("light"));
        }
        other => panic!("expected a request, got {other:?}"),
    }
    assert_eq!(plan_cleanup(&s, "t", &[], None), CleanupPlan::Unchanged("t".into()));
}

#[test]
fn the_reply_content_is_trimmed() {
    assert_eq!(reply_from_content(Ok(Some("  Hello.\n".into()))), Ok("Hello.".into()));
    assert_eq!(reply_from_content(Ok(None)), Err("Unexpected LLM response format".into()));
    assert_eq!(
        reply_from_content(Err("EOF while parsing a value at line 1 column 0".into())),
        Err("Failed to parse LLM response: EOF while parsing a value at line 1 column 0".into())
    );
}

#[test]
fn the_reply_body_is_read_at_the_first_choice() {
    let body = r#"{"choices":[{"message":{"role":"assistant","content":"  Hello there. "}}]}"#;
    assert_eq!(reply_text(body), Ok("Hello there.".into()));
    let no_text = r#"{"choices":[{"message":{"content":null}}]}"#;
    assert_eq!(reply_text(no_text), Err("Unexpected LLM response format".into()));
    assert_eq!(reply_text(r#"{"choices":[]}"#), Err("Unexpected LLM response format".into()));
    let err = reply_text("not json").unwrap_err();
    assert!(err.starts_with("Failed to parse LLM response: "));
    assert!(err.len() > "Failed to parse LLM response: ".len());
}

#[test]
fn only_2xx_statuses_succeed() {
    assert!(is_success_status(200));
    assert!(is_success_status(299));
    assert!(!is_success_status(199));
    assert!(!is_success_status(300));
    assert!(!is_success_status(404));
}

#[test]
fn a_failed_cleanup_falls_back_to_the_expanded_text() {
    assert_eq!(cleaned_or_expanded(Ok("Hello.".into()), "hello".into()), "Hello.");
    assert_eq!(cleaned_or_expanded(Err("LLM request failed".into()), "hello".into()), "hello");
}

#[test]
fn the_reply_is_read_by_index_not_by_key() {
    // `choices` as an object with a key "0" is not an array: nothing is there.
    let body = r#"{"choices":{"0":{"message":{"content":"Hello"}}}}"#;
    assert_eq!(reply_text(body), Err("Unexpected LLM response format".into()));
    let wrong_kind = r#"{"choices":[{"message":{"content":42}}]}"#;
    assert_eq!(reply_text(wrong_kind), Err("Unexpected LLM response format".into()));
}
