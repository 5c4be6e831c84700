//! Prompt assembly for the LLM cleanup pass and for priming Whisper.
//!
//! `build_dictionary_prompt` renders the dictionary as a prompt section (at most 200
//! entries), `build_whisper_vocabulary` turns the dictionary and snippet triggers
//! into a short glossary sentence, and `get_cleanup_prompt` gives the system prompt
//! for a cleanup level.

use vstd::prelude::*;
use vstd::string::StringExecFns;
use crate::config::{DictEntry, Snippet};
use crate::text::{lemma_utf8_len_concat, push_str, str_eq, texts, trim, trimmed, utf8_len, utf8_len_capped};

verus! {

/// Maximum number of dictionary entries injected into the prompt.
pub const DICT_PROMPT_CAP: usize = 200;

/// Bytes of vocabulary handed to Whisper. Its prompt window is about 224 tokens, but
/// a long list starts steering punctuation and phrasing as well as spelling.
pub const WHISPER_VOCAB_CHARS: usize = 220;

// ---------------------------------------------------------------------------
// Dictionary section
// ---------------------------------------------------------------------------

/// The first line of the dictionary section.
pub open spec fn dictionary_header() -> Seq<char> {
    "Correct these terms exactly when they appear (case-sensitive):\n"@
}

/// One dictionary line: `- word → replacement` and a newline.
pub open spec fn dictionary_line(e: DictEntry) -> Seq<char> {
    "- "@ + e.word@ + " → "@ + e.replacement@ + "\n"@
}

/// The dictionary lines for `entries`, in order.
pub open spec fn dictionary_lines(entries: Seq<DictEntry>) -> Seq<char>
    decreases entries.len(),
{
    if entries.len() == 0 {
        Seq::empty()
    } else {
        dictionary_lines(entries.drop_last()) + dictionary_line(entries.last())
    }
}

/// The dictionary section: empty for an empty dictionary, otherwise the header and
/// one line for each of the first 200 entries.
pub open spec fn dictionary_prompt(entries: Seq<DictEntry>) -> Seq<char> {
    if entries.len() == 0 {
        Seq::empty()
    } else {
        dictionary_header() + dictionary_lines(
            entries.take(if entries.len() < 200 { entries.len() as int } else { 200 }),
        )
    }
}

/// Build the dictionary section of the LLM system prompt.
///
/// Returns an empty string for an empty dictionary. Entries are rendered as
/// `word → replacement` lines; at most 200 entries are included and the rest are
/// dropped.
pub fn build_dictionary_prompt(entries: &[DictEntry]) -> (r: String)
    ensures
        r@ == dictionary_prompt(entries@),
{
    if entries.len() == 0 {
        return String::new();
    }
    let mut out = String::from_str("Correct these terms exactly when they appear (case-sensitive):\n");
    let n = if entries.len() < DICT_PROMPT_CAP {
        entries.len()
    } else {
        DICT_PROMPT_CAP
    };
    let mut i: usize = 0;
    assert(entries@.take(0) =~= Seq::<DictEntry>::empty());
    while i < n
        invariant
            i <= n <= entries.len(),
            n == (if entries@.len() < 200 { entries@.len() as int } else { 200 }),
            out@ == dictionary_header() + dictionary_lines(entries@.take(i as int)),
        decreases n - i,
    {
        let e = &entries[i];
        push_str(&mut out, "- ");
        push_str(&mut out, e.word.as_str());
        push_str(&mut out, " → ");
        push_str(&mut out, e.replacement.as_str());
        push_str(&mut out, "\n");
        proof {
            let t = entries@.take(i + 1);
            assert(t.drop_last() =~= entries@.take(i as int));
            assert(t.last() == *e);
            assert(out@ =~= dictionary_header() + dictionary_lines(t));
        }
        i = i + 1;
    }
    out
}

/// Entries past the first 200 never reach the prompt.
pub proof fn lemma_dictionary_prompt_ignores_extras(entries: Seq<DictEntry>)
    requires
        entries.len() > 200,
    ensures
        dictionary_prompt(entries) == dictionary_prompt(entries.take(200)),
{
    assert(entries.take(200).take(200) =~= entries.take(200));
}

// ---------------------------------------------------------------------------
// Whisper vocabulary
// ---------------------------------------------------------------------------

/// `str::to_lowercase`: the full Unicode lowercase mapping of `s`.
pub uninterp spec fn unicode_lowercase(s: Seq<char>) -> Seq<char>;

/// The Unicode lowercase of `s`, from `str::to_lowercase`. The mapping takes pages
/// of Unicode tables (and is context-sensitive for a final sigma), so the result is
/// only named, by `unicode_lowercase`.
#[verifier::external_body]
fn lowercase(s: &str) -> (r: String)
    ensures
        r@ == unicode_lowercase(s@),
{
    s.to_lowercase()
}

/// The candidate terms: every dictionary replacement, then every snippet trigger,
/// each trimmed.
pub open spec fn vocabulary_candidates(dictionary: Seq<DictEntry>, snippets: Seq<Snippet>) -> Seq<
    Seq<char>,
> {
    trimmed_replacements(dictionary) + trimmed_triggers(snippets)
}

/// Each dictionary replacement, trimmed.
pub open spec fn trimmed_replacements(dictionary: Seq<DictEntry>) -> Seq<Seq<char>> {
    dictionary.map_values(|e: DictEntry| trim(e.replacement@))
}

/// Each snippet trigger, trimmed.
pub open spec fn trimmed_triggers(snippets: Seq<Snippet>) -> Seq<Seq<char>> {
    snippets.map_values(|s: Snippet| trim(s.trigger@))
}

/// The distinct terms among the first `n` candidates and their lowercase keys:
/// blank candidates, and candidates whose lowercase was already seen, are skipped.
pub open spec fn distinct_terms(cands: Seq<Seq<char>>, n: nat) -> (Seq<Seq<char>>, Seq<Seq<char>>)
    decreases n,
{
    if n == 0 {
        (Seq::empty(), Seq::empty())
    } else {
        let prev = distinct_terms(cands, (n - 1) as nat);
        let term = cands[n - 1];
        let key = unicode_lowercase(term);
        if term.len() == 0 || prev.1.contains(key) {
            prev
        } else {
            (prev.0.push(term), prev.1.push(key))
        }
    }
}

/// The glossary body grown from `out` term by term, stopping at the first term that
/// would take it past 220 bytes.
pub open spec fn glossary_body(terms: Seq<Seq<char>>, out: Seq<char>) -> Seq<char>
    decreases terms.len(),
{
    if terms.len() == 0 {
        out
    } else {
        let addition = if out.len() == 0 {
            terms[0]
        } else {
            ", "@ + terms[0]
        };
        if utf8_len(out) + utf8_len(addition) > 220 {
            out
        } else {
            glossary_body(terms.drop_first(), out + addition)
        }
    }
}

/// The vocabulary sentence: empty when no term fits, otherwise
/// `Glossary: term, term.`.
pub open spec fn whisper_vocabulary(dictionary: Seq<DictEntry>, snippets: Seq<Snippet>) -> Seq<
    char,
> {
    let cands = vocabulary_candidates(dictionary, snippets);
    let terms = distinct_terms(cands, cands.len()).0;
    let body = glossary_body(terms, Seq::empty());
    if body.len() == 0 {
        Seq::empty()
    } else {
        "Glossary: "@ + body + "."@
    }
}

/// Whether `key` is among `seen`.
fn contains_text(seen: &Vec<String>, key: &String) -> (r: bool)
    ensures
        r == texts(seen@).contains(key@),
{
    let ghost keys = texts(seen@);
    let mut i: usize = 0;
    while i < seen.len()
        invariant
            i <= seen.len(),
            keys == texts(seen@),
            forall|j: int| 0 <= j < i ==> keys[j] != key@,
        decreases seen.len() - i,
    {
        if seen[i] == *key {
            assert(keys[i as int] == key@);
            return true;
        }
        i = i + 1;
    }
    false
}

/// The trimmed dictionary replacements followed by the trimmed snippet triggers.
fn candidates(dictionary: &[DictEntry], snippets: &[Snippet]) -> (r: Vec<String>)
    ensures
        texts(r@) == vocabulary_candidates(dictionary@, snippets@),
{
    let mut r: Vec<String> = Vec::new();
    let mut i: usize = 0;
    while i < dictionary.len()
        invariant
            i <= dictionary.len(),
            texts(r@) =~= trimmed_replacements(dictionary@.take(i as int)),
        decreases dictionary.len() - i,
    {
        let t = trimmed(dictionary[i].replacement.as_str());
        let ghost before = texts(r@);
        r.push(t);
        assert(texts(r@) =~= before.push(t@));
        assert(dictionary@.take(i + 1) =~= dictionary@.take(i as int).push(dictionary@[i as int]));
        assert(trimmed_replacements(dictionary@.take(i + 1)) =~= trimmed_replacements(
            dictionary@.take(i as int),
        ).push(t@));
        i = i + 1;
    }
    assert(dictionary@.take(dictionary.len() as int) =~= dictionary@);
    let mut j: usize = 0;
    while j < snippets.len()
        invariant
            j <= snippets.len(),
            texts(r@) =~= trimmed_replacements(dictionary@) + trimmed_triggers(
                snippets@.take(j as int),
            ),
        decreases snippets.len() - j,
    {
        let t = trimmed(snippets[j].trigger.as_str());
        let ghost before = texts(r@);
        r.push(t);
        assert(texts(r@) =~= before.push(t@));
        assert(snippets@.take(j + 1) =~= snippets@.take(j as int).push(snippets@[j as int]));
        assert(trimmed_triggers(snippets@.take(j + 1)) =~= trimmed_triggers(
            snippets@.take(j as int),
        ).push(t@));
        j = j + 1;
    }
    assert(snippets@.take(snippets.len() as int) =~= snippets@);
    r
}

/// Terms to prime Whisper's decoder with, from the dictionary and snippet triggers.
///
/// This is conditioning, not search-and-replace: the terms are prepended as context,
/// which makes the decoder more likely to produce those exact spellings. Dictionary
/// *replacements* are the spellings wanted out; snippet *triggers* are phrases said
/// aloud expecting an expansion. Blank terms are skipped, duplicates are dropped
/// case-insensitively, and terms are added whole until the next would pass 220
/// bytes.
pub fn build_whisper_vocabulary(dictionary: &[DictEntry], snippets: &[Snippet]) -> (r: String)
    ensures
        r@ == whisper_vocabulary(dictionary@, snippets@),
{
    let cands = candidates(dictionary, snippets);
    let ghost cv = vocabulary_candidates(dictionary@, snippets@);
    let mut terms: Vec<String> = Vec::new();
    let mut seen: Vec<String> = Vec::new();
    let mut i: usize = 0;
    while i < cands.len()
        invariant
            i <= cands.len(),
            cv == texts(cands@),
            cv.len() == cands.len(),
            (texts(terms@), texts(seen@))
                == distinct_terms(cv, i as nat),
        decreases cands.len() - i,
    {
        let term = &cands[i];
        assert(cv[i as int] == term@);
        if !term.as_str().is_empty() {
            let key = lowercase(term.as_str());
            if !contains_text(&seen, &key) {
                seen.push(key);
                terms.push(term.clone());
                assert(texts(terms@) =~= distinct_terms(cv, i as nat).0.push(
                    term@,
                ));
                assert(texts(seen@) =~= distinct_terms(cv, i as nat).1.push(
                    key@,
                ));
            }
        }
        i = i + 1;
    }
    let ghost all_terms = distinct_terms(cv, cv.len()).0;
    let mut out = String::new();
    let mut used: usize = 0;
    let mut k: usize = 0;
    assert(all_terms.skip(0) =~= all_terms);
    loop
        invariant
            k <= terms.len(),
            all_terms == texts(terms@),
            used == utf8_len(out@),
            used <= 220,
            glossary_body(all_terms, Seq::empty()) == glossary_body(all_terms.skip(k as int), out@),
        ensures
            glossary_body(all_terms, Seq::empty()) == out@,
        decreases terms.len() - k,
    {
        if k >= terms.len() {
            assert(all_terms.skip(k as int).len() == 0);
            break;
        }
        let term = &terms[k];
        let ghost rest = all_terms.skip(k as int);
        assert(rest[0] == term@);
        assert(rest.drop_first() =~= all_terms.skip(k + 1));
        let mut addition = String::new();
        if !out.as_str().is_empty() {
            push_str(&mut addition, ", ");
        }
        push_str(&mut addition, term.as_str());
        assert(addition@ =~= (if out@.len() == 0 { rest[0] } else { ", "@ + rest[0] }));
        let needed = utf8_len_capped(addition.as_str(), WHISPER_VOCAB_CHARS + 1);
        if needed > WHISPER_VOCAB_CHARS - used {
            assert(utf8_len(out@) + utf8_len(addition@) > 220);
            break;
        }
        proof {
            lemma_utf8_len_concat(out@, addition@);
        }
        push_str(&mut out, addition.as_str());
        used = used + needed;
        k = k + 1;
    }
    if out.as_str().is_empty() {
        return String::new();
    }
    let mut r = String::from_str("Glossary: ");
    push_str(&mut r, out.as_str());
    push_str(&mut r, ".");
    r
}

proof fn lemma_glossary_body_within_budget(terms: Seq<Seq<char>>, out: Seq<char>)
    requires
        utf8_len(out) <= 220,
    ensures
        utf8_len(glossary_body(terms, out)) <= 220,
    decreases terms.len(),
{
    if terms.len() > 0 {
        let addition = if out.len() == 0 {
            terms[0]
        } else {
            ", "@ + terms[0]
        };
        lemma_utf8_len_concat(out, addition);
        if utf8_len(out) + utf8_len(addition) <= 220 {
            lemma_glossary_body_within_budget(terms.drop_first(), out + addition);
        }
    }
}

/// The glossary never takes more than 220 bytes besides its `Glossary: ` and final
/// period, and is either empty or a sentence of that shape.
pub proof fn lemma_vocabulary_within_budget(dictionary: Seq<DictEntry>, snippets: Seq<Snippet>)
    ensures
        ({
            let v = whisper_vocabulary(dictionary, snippets);
            let cands = vocabulary_candidates(dictionary, snippets);
            let body = glossary_body(distinct_terms(cands, cands.len()).0, Seq::empty());
            &&& utf8_len(body) <= 220
            &&& v.len() == 0 || v == "Glossary: "@ + body + "."@
        }),
{
    let cands = vocabulary_candidates(dictionary, snippets);
    assert(utf8_len(Seq::<char>::empty()) == 0);
    lemma_glossary_body_within_budget(distinct_terms(cands, cands.len()).0, Seq::empty());
}

proof fn lemma_distinct_terms_keys(cands: Seq<Seq<char>>, n: nat)
    requires
        n <= cands.len(),
    ensures
        ({
            let (terms, keys) = distinct_terms(cands, n);
            &&& terms.len() == keys.len()
            &&& forall|i: int| 0 <= i < terms.len() ==> keys[i] == unicode_lowercase(
                #[trigger] terms[i],
            ) && terms[i].len() > 0
            &&& forall|i: int, j: int| 0 <= i < j < keys.len() ==> keys[i] != keys[j]
        }),
    decreases n,
{
    if n > 0 {
        lemma_distinct_terms_keys(cands, (n - 1) as nat);
    }
}

/// No two glossary terms share a lowercase form, and none is blank.
pub proof fn lemma_vocabulary_terms_distinct(dictionary: Seq<DictEntry>, snippets: Seq<Snippet>)
    ensures
        ({
            let cands = vocabulary_candidates(dictionary, snippets);
            let terms = distinct_terms(cands, cands.len()).0;
            forall|i: int, j: int|
                0 <= i < j < terms.len() ==> unicode_lowercase(#[trigger] terms[i])
                    != unicode_lowercase(#[trigger] terms[j]) && terms[i].len() > 0
        }),
{
    let cands = vocabulary_candidates(dictionary, snippets);
    lemma_distinct_terms_keys(cands, cands.len());
}

/// A snippet seen as a dictionary entry whose replacement is its trigger.
pub open spec fn trigger_as_entry(snippet: Snippet) -> DictEntry {
    DictEntry { word: snippet.trigger, replacement: snippet.trigger }
}

/// Snippet triggers count exactly like dictionary replacements listed after the
/// whole dictionary: whatever the dictionary holds, the glossary for a dictionary and
/// snippets is the glossary for that dictionary with one entry per snippet appended,
/// replacing with the trigger, and no snippets.
pub proof fn lemma_triggers_follow_replacements(dictionary: Seq<DictEntry>, snippets: Seq<Snippet>)
    ensures
        whisper_vocabulary(dictionary, snippets) == whisper_vocabulary(
            dictionary + snippets.map_values(|x: Snippet| trigger_as_entry(x)),
            Seq::<Snippet>::empty(),
        ),
{
    let extended = dictionary + snippets.map_values(|x: Snippet| trigger_as_entry(x));
    assert(vocabulary_candidates(dictionary, snippets) =~= vocabulary_candidates(
        extended,
        Seq::<Snippet>::empty(),
    ));
}

/// A dictionary replacement and a snippet trigger that are both non-blank after
/// trimming, differ once lowercased, and fit the budget together both reach the
/// glossary, replacement first: `Glossary: <replacement>, <trigger>.`.
pub proof fn lemma_replacement_and_trigger_both_listed(entry: DictEntry, snippet: Snippet)
    requires
        trim(entry.replacement@).len() > 0,
        trim(snippet.trigger@).len() > 0,
        unicode_lowercase(trim(entry.replacement@)) != unicode_lowercase(trim(snippet.trigger@)),
        utf8_len(trim(entry.replacement@)) + 2 + utf8_len(trim(snippet.trigger@)) <= 220,
    ensures
        whisper_vocabulary(seq![entry], seq![snippet]) == "Glossary: "@ + trim(entry.replacement@)
            + ", "@ + trim(snippet.trigger@) + "."@,
{
    reveal_strlit(", ");
    let t1 = trim(entry.replacement@);
    let t2 = trim(snippet.trigger@);
    let cands = vocabulary_candidates(seq![entry], seq![snippet]);
    assert(cands =~= seq![t1, t2]);
    let one = distinct_terms(cands, 1);
    assert(distinct_terms(cands, 0) == (Seq::<Seq<char>>::empty(), Seq::<Seq<char>>::empty()));
    assert(one == (seq![t1], seq![unicode_lowercase(t1)]));
    assert(!one.1.contains(unicode_lowercase(t2))) by {
        if one.1.contains(unicode_lowercase(t2)) {
            let k = one.1.index_of(unicode_lowercase(t2));
            assert(one.1[k] == unicode_lowercase(t1));
        }
    }
    let terms = distinct_terms(cands, 2).0;
    assert(terms =~= seq![t1, t2]);
    assert(utf8_len(Seq::<char>::empty()) == 0);
    assert(Seq::<char>::empty() + t1 =~= t1);
    let second = ", "@ + t2;
    lemma_utf8_len_concat(", "@, t2);
    assert(utf8_len(", "@) == 2) by {
        lemma_utf8_len_concat(seq![','], seq![' ']);
        crate::text::lemma_utf8_len_single(',');
        crate::text::lemma_utf8_len_single(' ');
        assert(", "@ =~= seq![','] + seq![' ']);
    }
    lemma_utf8_len_concat(t1, second);
    assert(terms.drop_first() =~= seq![t2]);
    assert(terms.drop_first().drop_first() =~= Seq::<Seq<char>>::empty());
    assert(glossary_body(terms, Seq::empty()) == glossary_body(terms.drop_first(), t1));
    assert(glossary_body(terms.drop_first(), t1) == glossary_body(
        terms.drop_first().drop_first(),
        t1 + second,
    ));
    let body = t1 + second;
    assert(body.len() > 0);
    assert("Glossary: "@ + body + "."@ =~= "Glossary: "@ + t1 + ", "@ + t2 + "."@);
}

// ---------------------------------------------------------------------------
// Cleanup prompts
// ---------------------------------------------------------------------------

/// The prompt for level `none`.
pub const PROMPT_NONE: &'static str = "Return the input text exactly as-is. Do not change anything.";

/// The prompt for level `light`.
pub const PROMPT_LIGHT: &'static str = "Clean up the transcription lightly: fix obvious punctuation and capitalization
only. Do not rephrase, summarize, or remove content. Preserve the speaker's words.";

/// The prompt for level `medium`, and for any level not known.
pub const PROMPT_MEDIUM: &'static str = "Clean up the transcription: fix punctuation, capitalization, and obvious
mis-transcriptions. Remove filler words (um, uh, you know) and false starts.
Keep the original meaning, tone, and level of detail. Do not add information.";

/// The prompt for level `high`.
pub const PROMPT_HIGH: &'static str = "Clean up and polish the transcription: fix punctuation, capitalization, and
mis-transcriptions; remove filler words and false starts; fix obvious grammar.
You may reword slightly for clarity, but never change the meaning, tone, or
level of detail. Do not add information that was not spoken.";

/// The system prompt for a cleanup level; unknown levels get the `medium` one.
pub open spec fn cleanup_prompt(level: Seq<char>) -> Seq<char> {
    if level == "none"@ {
        PROMPT_NONE@
    } else if level == "light"@ {
        PROMPT_LIGHT@
    } else if level == "high"@ {
        PROMPT_HIGH@
    } else {
        PROMPT_MEDIUM@
    }
}

/// Return the base cleanup system prompt for a level.
///
/// Levels: `none`, `light`, `medium`, `high`. Unknown levels fall back to the
/// `medium` prompt.
pub fn get_cleanup_prompt(level: &str) -> (r: &'static str)
    ensures
        r@ == cleanup_prompt(level@),
{
    if str_eq(level, "none") {
        PROMPT_NONE
    } else if str_eq(level, "light") {
        PROMPT_LIGHT
    } else if str_eq(level, "high") {
        PROMPT_HIGH
    } else {
        PROMPT_MEDIUM
    }
}

/// The four levels give four different prompts.
pub proof fn lemma_cleanup_levels_distinct()
    ensures
        cleanup_prompt("light"@) != cleanup_prompt("medium"@),
        cleanup_prompt("medium"@) != cleanup_prompt("high"@),
        cleanup_prompt("light"@) != cleanup_prompt("high"@),
        cleanup_prompt("none"@) != cleanup_prompt("light"@),
        cleanup_prompt("none"@) != cleanup_prompt("medium"@),
        cleanup_prompt("none"@) != cleanup_prompt("high"@),
{
    reveal_strlit("none");
    reveal_strlit("light");
    reveal_strlit("medium");
    reveal_strlit("high");
    reveal_strlit("Return the input text exactly as-is. Do not change anything.");
    reveal_strlit("Clean up the transcription lightly: fix obvious punctuation and capitalization
only. Do not rephrase, summarize, or remove content. Preserve the speaker's words.");
    reveal_strlit("Clean up the transcription: fix punctuation, capitalization, and obvious
mis-transcriptions. Remove filler words (um, uh, you know) and false starts.
Keep the original meaning, tone, and level of detail. Do not add information.");
    reveal_strlit("Clean up and polish the transcription: fix punctuation, capitalization, and
mis-transcriptions; remove filler words and false starts; fix obvious grammar.
You may reword slightly for clarity, but never change the meaning, tone, or
level of detail. Do not add information that was not spoken.");
    assert("medium"@.len() != "none"@.len() && "medium"@.len() != "light"@.len()
        && "medium"@.len() != "high"@.len());
    assert("light"@.len() != "none"@.len() && "light"@.len() != "high"@.len());
    assert("high"@[0] != "none"@[0]);
    assert(PROMPT_LIGHT@[26] != PROMPT_MEDIUM@[26]);
    assert(PROMPT_HIGH@[9] != PROMPT_MEDIUM@[9]);
    assert(PROMPT_HIGH@[9] != PROMPT_LIGHT@[9]);
    assert(PROMPT_NONE@[0] != PROMPT_LIGHT@[0]);
}

} // verus!
