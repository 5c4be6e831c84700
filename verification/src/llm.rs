//! Planning the LLM cleanup pass.
//!
//! Whether to call the model at all, which endpoint and model, and the system
//! prompt: the level preset or the user's custom prompt, then the dictionary
//! section, then a line naming the foreground app. The HTTP call itself is made by
//! the caller; [`reply_text`] turns the reply's body into the result.

use vstd::prelude::*;
use vstd::string::StringExecFns;
use crate::config::DictEntry;
use crate::prompt::{build_dictionary_prompt, cleanup_prompt, dictionary_prompt, get_cleanup_prompt};
use crate::text::{chars_of, push_str, str_eq, string_of, trim, trimmed};

verus! {

/// The model used when none is configured.
pub const DEFAULT_MODEL: &'static str = "gpt-4o-mini";

/// A request to an OpenAI-compatible `/chat/completions` endpoint.
#[derive(Debug, Clone, PartialEq, Eq)]
pub struct LlmRequest {
    pub url: String,
    pub model: String,
    pub api_key: String,
    pub system_prompt: String,
    pub user_text: String,
}

/// What the cleanup pass does with a transcript.
#[derive(Debug, Clone, PartialEq, Eq)]
pub enum CleanupPlan {
    /// Return this text as it is, with no network call.
    Unchanged(String),
    /// Send this request and use the reply.
    Request(LlmRequest),
}

/// The LLM settings the cleanup pass reads.
pub struct LlmSettings {
    pub cleanup_level: String,
    pub custom_prompt: String,
    pub llm_base_url: String,
    pub llm_api_key: String,
    pub llm_model: String,
}

/// `s` without its trailing `/` characters.
pub open spec fn trim_trailing_slashes(s: Seq<char>) -> Seq<char>
    decreases s.len(),
{
    if s.len() > 0 && s.last() == '/' {
        trim_trailing_slashes(s.drop_last())
    } else {
        s
    }
}

/// The sentence naming the foreground app.
pub open spec fn context_line(app: Seq<char>) -> Seq<char> {
    "\n\nContext: the user is dictating into the app \""@ + app
        + "\". Use this only to disambiguate homophones/formatting; do not mention it in the output."@
}

/// The system prompt: the custom prompt (trimmed) when there is one, otherwise the
/// level's preset; then the dictionary section after a blank line when it is not
/// empty; then the context line for a non-empty foreground app.
pub open spec fn system_prompt(
    level: Seq<char>,
    custom: Seq<char>,
    dictionary: Seq<DictEntry>,
    app: Option<Seq<char>>,
) -> Seq<char> {
    let base = if trim(custom).len() > 0 {
        trim(custom)
    } else {
        cleanup_prompt(trim(level))
    };
    let dict = dictionary_prompt(dictionary);
    let with_dict = if dict.len() > 0 {
        base + "\n\n"@ + dict
    } else {
        base
    };
    match app {
        Some(a) => if a.len() > 0 {
            with_dict + context_line(a)
        } else {
            with_dict
        },
        None => with_dict,
    }
}

/// Whether the cleanup pass calls the model: the level is not `none` (or a custom
/// prompt is set), and both a base URL and an API key are configured.
pub open spec fn calls_model(level: Seq<char>, custom: Seq<char>, base_url: Seq<char>, api_key: Seq<char>) -> bool {
    &&& !(trim(level) == "none"@ && trim(custom).len() == 0)
    &&& trim_trailing_slashes(trim(base_url)).len() > 0
    &&& trim(api_key).len() > 0
}

/// Decide what the cleanup pass does with `raw_text`.
///
/// With level `none` and no custom prompt, or with no base URL or API key, the text
/// is returned unchanged. Otherwise the request goes to `<base>/chat/completions`
/// (the base trimmed, trailing slashes removed) with the configured model (trimmed,
/// `gpt-4o-mini` when blank), the trimmed key, and the system prompt.
pub fn plan_cleanup(
    settings: &LlmSettings,
    raw_text: &str,
    dictionary: &[DictEntry],
    foreground_app: Option<&str>,
) -> (plan: CleanupPlan)
    ensures
        !calls_model(
            settings.cleanup_level@,
            settings.custom_prompt@,
            settings.llm_base_url@,
            settings.llm_api_key@,
        ) ==> (plan matches CleanupPlan::Unchanged(t) && t@ == raw_text@),
        calls_model(
            settings.cleanup_level@,
            settings.custom_prompt@,
            settings.llm_base_url@,
            settings.llm_api_key@,
        ) ==> (plan matches CleanupPlan::Request(req) && req.url@ == trim_trailing_slashes(
            trim(settings.llm_base_url@),
        ) + "/chat/completions"@ && req.model@ == (if trim(settings.llm_model@).len() > 0 {
            trim(settings.llm_model@)
        } else {
            DEFAULT_MODEL@
        }) && req.api_key@ == trim(settings.llm_api_key@) && req.user_text@ == raw_text@
            && req.system_prompt@ == system_prompt(
            settings.cleanup_level@,
            settings.custom_prompt@,
            dictionary@,
            match foreground_app {
                Some(a) => Some(a@),
                None => None,
            },
        )),
{
    let level = trimmed(settings.cleanup_level.as_str());
    let custom = trimmed(settings.custom_prompt.as_str());
    let has_custom = !custom.as_str().is_empty();
    if str_eq(level.as_str(), "none") && !has_custom {
        return CleanupPlan::Unchanged(String::from_str(raw_text));
    }
    let base_chars = chars_of(trimmed(settings.llm_base_url.as_str()).as_str());
    let mut end = base_chars.len();
    let ghost b = base_chars@;
    assert(b.subrange(0, b.len() as int) =~= b);
    while end > 0 && base_chars[end - 1] == '/'
        invariant
            end <= base_chars.len(),
            b == base_chars@,
            trim_trailing_slashes(b) == trim_trailing_slashes(b.subrange(0, end as int)),
        decreases end,
    {
        assert(b.subrange(0, end as int).drop_last() =~= b.subrange(0, end - 1));
        end = end - 1;
    }
    proof {
        let t = b.subrange(0, end as int);
        if end > 0 {
            assert(t.last() == b[end - 1]);
        }
    }
    let base_url = string_of(&base_chars, 0, end);
    let api_key = trimmed(settings.llm_api_key.as_str());
    let configured_model = trimmed(settings.llm_model.as_str());
    let model = if configured_model.as_str().is_empty() {
        String::from_str(DEFAULT_MODEL)
    } else {
        configured_model
    };
    if base_url.as_str().is_empty() || api_key.as_str().is_empty() {
        return CleanupPlan::Unchanged(String::from_str(raw_text));
    }
    let mut system = if has_custom {
        custom
    } else {
        String::from_str(get_cleanup_prompt(level.as_str()))
    };
    let dict_section = build_dictionary_prompt(dictionary);
    if !dict_section.as_str().is_empty() {
        push_str(&mut system, "\n\n");
        push_str(&mut system, dict_section.as_str());
    }
    match foreground_app {
        Some(app) => {
            if !app.is_empty() {
                push_str(&mut system, "\n\nContext: the user is dictating into the app \"");
                push_str(&mut system, app);
                push_str(
                    &mut system,
                    "\". Use this only to disambiguate homophones/formatting; do not mention it in the output.",
                );
            }
        },
        None => {},
    }
    let mut url = base_url;
    push_str(&mut url, "/chat/completions");
    CleanupPlan::Request(
        LlmRequest {
            url,
            model,
            api_key,
            system_prompt: system,
            user_text: String::from_str(raw_text),
        },
    )
}

/// What `serde_json` makes of a reply body: `Err` with the parser's message when
/// `body` is not JSON, otherwise the string at `["choices"][0]["message"]["content"]`,
/// or `None` when nothing is there or it is not a string.
pub uninterp spec fn json_reply_content(body: Seq<char>) -> Result<Option<Seq<char>>, Seq<char>>;

/// Parses `body` with `serde_json::from_str` into a `serde_json::Value`, indexes it
/// with `["choices"][0]["message"]["content"]` (serde_json's `Index`, which yields
/// `Null` for anything missing, a wrong kind included, and never panics) and reads the
/// result with `Value::as_str`. The JSON grammar is serde_json's, so the result is
/// only named, by `json_reply_content`; a parse error is handed back as its message.
#[verifier::external_body]
fn parse_reply_content(body: &str) -> (r: Result<Option<String>, String>)
    ensures
        match r {
            Ok(Some(s)) => json_reply_content(body@) == Ok::<Option<Seq<char>>, Seq<char>>(
                Some(s@),
            ),
            Ok(None) => json_reply_content(body@) == Ok::<Option<Seq<char>>, Seq<char>>(None),
            Err(m) => json_reply_content(body@) == Err::<Option<Seq<char>>, Seq<char>>(m@),
        },
{
    match serde_json::from_str::<serde_json::Value>(body) {
        Ok(v) => Ok(v["choices"][0]["message"]["content"].as_str().map(str::to_string)),
        Err(e) => Err(e.to_string()),
    }
}

/// The cleaned text from what was found at the reply's content: the text
/// trimmed; `Failed to parse LLM response: ` and the parser's message when the body
/// was not JSON; `Unexpected LLM response format` when no text was there.
pub fn reply_from_content(found: Result<Option<String>, String>) -> (r: Result<String, String>)
    ensures
        match found {
            Err(m) => r is Err && r->Err_0@ == "Failed to parse LLM response: "@ + m@,
            Ok(None) => r is Err && r->Err_0@ == "Unexpected LLM response format"@,
            Ok(Some(c)) => r is Ok && r->Ok_0@ == trim(c@),
        },
{
    match found {
        Err(m) => {
            let mut message = String::from_str("Failed to parse LLM response: ");
            push_str(&mut message, m.as_str());
            Err(message)
        },
        Ok(content) => match content {
            Some(c) => Ok(trimmed(c.as_str())),
            None => Err(String::from_str("Unexpected LLM response format")),
        },
    }
}

/// The cleaned text from a successful reply's body: the first choice's message
/// content, trimmed (see [`reply_from_content`] for the errors).
pub fn reply_text(body: &str) -> (r: Result<String, String>)
    ensures
        match json_reply_content(body@) {
            Err(m) => r is Err && r->Err_0@ == "Failed to parse LLM response: "@ + m,
            Ok(None) => r is Err && r->Err_0@ == "Unexpected LLM response format"@,
            Ok(Some(c)) => r is Ok && r->Ok_0@ == trim(c),
        },
{
    reply_from_content(parse_reply_content(body))
}

/// Whether an HTTP status code reports success (`200..=299`), the test applied to
/// every reply before its body is read.
pub fn is_success_status(code: u16) -> (b: bool)
    ensures
        b == (200 <= code && code <= 299),
{
    200 <= code && code <= 299
}

/// The text a dictation ends with: the model's cleaned text, or, when the cleanup
/// pass failed, the corrected and expanded transcript it was given. The cleanup pass
/// is an optional enhancement and never fails the dictation.
pub fn cleaned_or_expanded(reply: Result<String, String>, expanded: String) -> (text: String)
    ensures
        text@ == match reply {
            Ok(cleaned) => cleaned@,
            Err(_) => expanded@,
        },
{
    match reply {
        Ok(cleaned) => cleaned,
        Err(_) => expanded,
    }
}

/// The layout of the system prompt. It starts with its base, the custom prompt
/// (trimmed) when one is set and the level's preset otherwise. A non-empty
/// dictionary's section follows the base after a blank line, whichever the base is.
/// A non-empty foreground app's context line ends it. With neither, the prompt is
/// the base alone.
pub proof fn lemma_system_prompt_layout(
    level: Seq<char>,
    custom: Seq<char>,
    dictionary: Seq<DictEntry>,
    app: Option<Seq<char>>,
)
    ensures
        ({
            let prompt = system_prompt(level, custom, dictionary, app);
            let base = if trim(custom).len() > 0 {
                trim(custom)
            } else {
                cleanup_prompt(trim(level))
            };
            let has_app = app matches Some(a) && a.len() > 0;
            &&& base.is_prefix_of(prompt)
            &&& dictionary.len() > 0 ==> (base + "\n\n"@ + dictionary_prompt(
                dictionary,
            )).is_prefix_of(prompt)
            &&& trim(custom).len() > 0 ==> trim(custom).is_prefix_of(prompt)
            &&& trim(custom).len() == 0 ==> cleanup_prompt(trim(level)).is_prefix_of(prompt)
            &&& has_app ==> prompt.len() >= context_line(app->0).len() && prompt.subrange(
                prompt.len() - context_line(app->0).len(),
                prompt.len() as int,
            ) == context_line(app->0)
            &&& dictionary.len() == 0 && !has_app ==> prompt == base
        }),
{
    reveal_strlit("Correct these terms exactly when they appear (case-sensitive):\n");
    let prompt = system_prompt(level, custom, dictionary, app);
    let base = if trim(custom).len() > 0 {
        trim(custom)
    } else {
        cleanup_prompt(trim(level))
    };
    let dict = dictionary_prompt(dictionary);
    if dictionary.len() > 0 {
        assert(dict.len() > 0);
    } else {
        assert(dict.len() == 0);
    }
    let with_dict = if dict.len() > 0 {
        base + "\n\n"@ + dict
    } else {
        base
    };
    assert(base.is_prefix_of(with_dict)) by {
        if dict.len() > 0 {
            assert(with_dict.subrange(0, base.len() as int) =~= base);
        }
    }
    match app {
        Some(a) => {
            if a.len() > 0 {
                let c = context_line(a);
                assert(prompt =~= with_dict + c);
                assert(prompt.subrange(0, with_dict.len() as int) =~= with_dict);
                assert(prompt.subrange(prompt.len() - c.len(), prompt.len() as int) =~= c);
            }
        },
        None => {},
    }
}

} // verus!
